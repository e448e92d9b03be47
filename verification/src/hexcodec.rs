//! Decoding of hexadecimal text.

use vstd::prelude::*;

verus! {

pub open spec fn is_hex_byte(c: u8) -> bool {
    (48 <= c <= 57) || (65 <= c <= 70) || (97 <= c <= 102)
}

pub open spec fn hex_byte_val(c: u8) -> int {
    if 48 <= c <= 57 {
        c - 48
    } else if 65 <= c <= 70 {
        c - 55
    } else {
        c - 87
    }
}

/// The text has an even number of bytes, all hexadecimal digits.
pub open spec fn hex_text_ok(t: Seq<u8>) -> bool {
    t.len() % 2 == 0 && forall|i: int| 0 <= i < t.len() ==> is_hex_byte(#[trigger] t[i])
}

/// The bytes that hexadecimal text stands for, two digits each, high digit first.
pub open spec fn hex_decoded(t: Seq<u8>) -> Seq<u8> {
    Seq::new(
        t.len() / 2,
        |i: int| (hex_byte_val(t[2 * i]) * 16 + hex_byte_val(t[2 * i + 1])) as u8,
    )
}

/// Why hexadecimal text could not be decoded.
#[derive(Debug, Clone, Copy)]
pub enum HexError {
    /// The byte at `index` is not a hexadecimal digit.
    InvalidHexCharacter { c: u8, index: usize },
    /// The text has an odd number of bytes.
    OddLength,
}

/// The first byte at or after `i` that is not a hexadecimal digit, or `t.len()`.
pub open spec fn first_non_hex(t: Seq<u8>, i: int) -> int
    decreases t.len() - i,
{
    if 0 <= i < t.len() && is_hex_byte(t[i]) {
        first_non_hex(t, i + 1)
    } else {
        i
    }
}

pub proof fn lemma_first_non_hex(t: Seq<u8>, i: int)
    requires
        0 <= i <= t.len(),
    ensures
        i <= first_non_hex(t, i) <= t.len(),
        forall|j: int| i <= j < first_non_hex(t, i) ==> is_hex_byte(#[trigger] t[j]),
        first_non_hex(t, i) < t.len() ==> !is_hex_byte(t[first_non_hex(t, i)]),
    decreases t.len() - i,
{
    if i < t.len() && is_hex_byte(t[i]) {
        lemma_first_non_hex(t, i + 1);
    }
}

fn digit_value(c: u8) -> (v: u8)
    requires
        is_hex_byte(c),
    ensures
        v as int == hex_byte_val(c),
        v < 16,
{
    if 48 <= c && c <= 57 {
        c - 48
    } else if 65 <= c && c <= 70 {
        c - 55
    } else {
        c - 87
    }
}

/// The error that decoding `t` reports when it fails: an odd length, else
/// the first byte that is not a hexadecimal digit and its position.
pub open spec fn hex_error(t: Seq<u8>) -> HexError {
    if t.len() % 2 != 0 {
        HexError::OddLength
    } else {
        HexError::InvalidHexCharacter {
            c: t[first_non_hex(t, 0)],
            index: first_non_hex(t, 0) as usize,
        }
    }
}

/// Decodes hexadecimal text: an odd length is refused first; otherwise the
/// first byte that is not a digit `0-9`, `a-f`, `A-F` is reported; otherwise
/// each pair of digits gives one byte, the first digit being the high half.
pub fn decode_hex(data: &[u8]) -> (r: Result<Vec<u8>, HexError>)
    ensures
        r is Ok <==> hex_text_ok(data@),
        r matches Ok(v) ==> v@ == hex_decoded(data@),
        data@.len() % 2 != 0 ==> r matches Err(HexError::OddLength),
        data@.len() % 2 == 0 && r is Err ==> (r matches Err(
            HexError::InvalidHexCharacter { c, index },
        ) && index == first_non_hex(data@, 0) && c == data@[index as int]),
        r matches Err(e) ==> e == hex_error(data@),
{
    let n = data.len();
    if n % 2 != 0 {
        return Err(HexError::OddLength);
    }
    proof {
        lemma_first_non_hex(data@, 0);
    }
    let mut out: Vec<u8> = Vec::new();
    let mut i: usize = 0;
    while i < n
        invariant
            n == data@.len(),
            n % 2 == 0,
            i % 2 == 0,
            i <= n,
            out@.len() == i / 2,
            first_non_hex(data@, i as int) == first_non_hex(data@, 0),
            forall|j: int| 0 <= j < i ==> is_hex_byte(#[trigger] data@[j]),
            forall|k: int| 0 <= k < out@.len() ==> out@[k] == (hex_byte_val(data@[2 * k]) * 16
                + hex_byte_val(data@[2 * k + 1])) as u8,
        decreases n - i,
    {
        let a = data[i];
        if !(48 <= a && a <= 57 || 65 <= a && a <= 70 || 97 <= a && a <= 102) {
            return Err(HexError::InvalidHexCharacter { c: a, index: i });
        }
        let b = data[i + 1];
        if !(48 <= b && b <= 57 || 65 <= b && b <= 70 || 97 <= b && b <= 102) {
            assert(first_non_hex(data@, i + 1) == first_non_hex(data@, i as int));
            return Err(HexError::InvalidHexCharacter { c: b, index: i + 1 });
        }
        assert(is_hex_byte(a) && is_hex_byte(b));
        assert(first_non_hex(data@, i + 1) == first_non_hex(data@, i as int));
        assert(first_non_hex(data@, i + 2) == first_non_hex(data@, i + 1));
        let v = digit_value(a) * 16 + digit_value(b);
        out.push(v);
        i = i + 2;
    }
    assert(out@ =~= hex_decoded(data@));
    Ok(out)
}

} // verus!
