//! Text building blocks: characters of strings, hexadecimal and decimal
//! rendering of integers, padding and substring search.

use vstd::prelude::*;
use vstd::string::*;

verus! {

/// Appends one character to a string; this is std's `String::push`, whose
/// documentation says that it appends the given char to the end of the string.
#[verifier::external_body]
pub(crate) fn push_char(s: &mut String, c: char)
    ensures
        final(s)@ == old(s)@.push(c),
{
    s.push(c);
}

/// The characters of a string slice, in order.
pub fn chars_of(s: &str) -> (v: Vec<char>)
    ensures
        v@ == s@,
{
    let n = s.unicode_len();
    let mut v: Vec<char> = Vec::new();
    let mut i: usize = 0;
    while i < n
        invariant
            n == s@.len(),
            i <= n,
            v@ == s@.take(i as int),
        decreases n - i,
    {
        v.push(s.get_char(i));
        i = i + 1;
        assert(v@ =~= s@.take(i as int));
    }
    assert(v@ =~= s@);
    v
}

/// Appends the characters `cs[from..to]` to `out`.
pub fn push_range(out: &mut String, cs: &Vec<char>, from: usize, to: usize)
    requires
        from <= to <= cs@.len(),
    ensures
        final(out)@ == old(out)@ + cs@.subrange(from as int, to as int),
{
    let mut i: usize = from;
    while i < to
        invariant
            from <= i <= to <= cs@.len(),
            out@ == old(out)@ + cs@.subrange(from as int, i as int),
        decreases to - i,
    {
        push_char(out, cs[i]);
        i = i + 1;
        assert(out@ =~= old(out)@ + cs@.subrange(from as int, i as int));
    }
}

/// A fresh string holding `cs[from..to]`.
pub fn string_of_range(cs: &Vec<char>, from: usize, to: usize) -> (s: String)
    requires
        from <= to <= cs@.len(),
    ensures
        s@ == cs@.subrange(from as int, to as int),
{
    let mut s = String::new();
    push_range(&mut s, cs, from, to);
    assert(s@ =~= cs@.subrange(from as int, to as int));
    s
}

/// Appends all characters of `t` to `out`.
pub fn push_str(out: &mut String, t: &str)
    ensures
        final(out)@ == old(out)@ + t@,
{
    let cs = chars_of(t);
    push_range(out, &cs, 0, cs.len());
    assert(cs@.subrange(0, cs@.len() as int) =~= cs@);
}

/// The lower-case hexadecimal digit of `d` (for `d < 16`).
pub open spec fn hex_char(d: int) -> char {
    if d < 10 {
        (d + 48) as char
    } else {
        (d + 87) as char
    }
}

/// Lower-case hexadecimal rendering of `n`, without leading zeros.
pub open spec fn hex_nat(n: nat) -> Seq<char>
    decreases n,
{
    if n < 16 {
        seq![hex_char(n as int)]
    } else {
        hex_nat(n / 16).push(hex_char((n % 16) as int))
    }
}

/// Decimal rendering of `n`, without leading zeros.
pub open spec fn dec_nat(n: nat) -> Seq<char>
    decreases n,
{
    if n < 10 {
        seq![(n + 48) as char]
    } else {
        dec_nat(n / 10).push(((n % 10) + 48) as char)
    }
}

/// Decimal rendering of a signed integer, with a leading `-` when negative.
pub open spec fn dec_int(n: int) -> Seq<char> {
    if n < 0 {
        seq!['-'] + dec_nat((-n) as nat)
    } else {
        dec_nat(n as nat)
    }
}

/// Two lower-case hexadecimal digits of a byte (`{:02x}`).
pub open spec fn hex2(b: u8) -> Seq<char> {
    seq![hex_char(b as int / 16), hex_char(b as int % 16)]
}

/// The bits of a signed 64-bit integer read as an unsigned one.
pub open spec fn bits_u64(n: i64) -> nat {
    if n < 0 {
        (n + 0x1_0000_0000_0000_0000) as nat
    } else {
        n as nat
    }
}

/// Two hexadecimal digits per byte, in order (the `{:02x}` rendering of each byte).
pub open spec fn hex_bytes(bs: Seq<u8>) -> Seq<char>
    decreases bs.len(),
{
    if bs.len() == 0 {
        seq![]
    } else {
        hex_bytes(bs.drop_last()) + hex2(bs.last())
    }
}

/// The UTF-8 encoding of a character sequence.
pub open spec fn utf8_of(s: Seq<char>) -> Seq<u8> {
    vstd::utf8::encode_utf8(s)
}

/// `w - s.len()` spaces after `s` (the `{:w}` rendering of a string).
pub open spec fn pad_right(s: Seq<char>, w: nat) -> Seq<char> {
    if s.len() >= w {
        s
    } else {
        s + Seq::new((w - s.len()) as nat, |i: int| ' ')
    }
}

/// Spaces before `s` up to width `w` (the `{:w}` rendering of a number).
pub open spec fn pad_left(s: Seq<char>, w: nat) -> Seq<char> {
    if s.len() >= w {
        s
    } else {
        Seq::new((w - s.len()) as nat, |i: int| ' ') + s
    }
}

/// `pat` occurs in `s` at position `i`.
pub open spec fn occurs_at(s: Seq<char>, pat: Seq<char>, i: int) -> bool {
    0 <= i && i + pat.len() <= s.len() && s.subrange(i, i + pat.len()) == pat
}

/// `pat` occurs somewhere in `s`.
pub open spec fn seq_contains(s: Seq<char>, pat: Seq<char>) -> bool {
    exists|i: int| occurs_at(s, pat, i)
}

pub fn hex_digit_char(d: u8) -> (c: char)
    requires
        d < 16,
    ensures
        c == hex_char(d as int),
{
    if d < 10 {
        (d + 48) as char
    } else {
        (d + 87) as char
    }
}

/// Appends the lower-case hexadecimal rendering of `n` (`{:x}`).
pub fn push_hex(out: &mut String, n: u64)
    ensures
        final(out)@ == old(out)@ + hex_nat(n as nat),
    decreases n,
{
    if n >= 16 {
        push_hex(out, n / 16);
    }
    push_char(out, hex_digit_char((n % 16) as u8));
    assert(final(out)@ =~= old(out)@ + hex_nat(n as nat));
}

/// Appends the decimal rendering of `n`.
pub fn push_dec(out: &mut String, n: u64)
    ensures
        final(out)@ == old(out)@ + dec_nat(n as nat),
    decreases n,
{
    if n >= 10 {
        push_dec(out, n / 10);
    }
    let d: u8 = (n % 10) as u8;
    push_char(out, (d + 48) as char);
    assert(final(out)@ =~= old(out)@ + dec_nat(n as nat));
}

/// Appends the decimal rendering of a signed integer (`{}`).
pub fn push_dec_signed(out: &mut String, n: i64)
    ensures
        final(out)@ == old(out)@ + dec_int(n as int),
{
    if n < 0 {
        push_char(out, '-');
        let m: u64 = ((-(n + 1)) as u64) + 1;
        push_dec(out, m);
        assert(final(out)@ =~= old(out)@ + dec_int(n as int));
    } else {
        push_dec(out, n as u64);
    }
}

/// The bits of a signed integer as an unsigned one (two's complement).
pub fn as_bits(n: i64) -> (r: u64)
    ensures
        r as nat == bits_u64(n),
{
    if n < 0 {
        u64::MAX - ((-(n + 1)) as u64)
    } else {
        n as u64
    }
}

/// Appends the two-digit hexadecimal rendering of a byte (`{:02x}`).
pub fn push_hex2(out: &mut String, b: u8)
    ensures
        final(out)@ == old(out)@ + hex2(b),
{
    push_char(out, hex_digit_char(b / 16));
    push_char(out, hex_digit_char(b % 16));
    assert(final(out)@ =~= old(out)@ + hex2(b));
}

/// Renders bytes as lower-case hexadecimal, two digits per byte.
pub fn hex(value: &[u8]) -> (s: String)
    ensures
        s@ == hex_bytes(value@),
{
    let mut s = String::new();
    let mut i: usize = 0;
    while i < value.len()
        invariant
            i <= value@.len(),
            s@ == hex_bytes(value@.take(i as int)),
        decreases value@.len() - i,
    {
        push_hex2(&mut s, value[i]);
        assert(value@.take(i + 1).drop_last() =~= value@.take(i as int));
        i = i + 1;
    }
    assert(value@.take(value@.len() as int) =~= value@);
    s
}

/// Appends `s` padded with spaces on the right to width `w`.
pub fn push_padded_right(out: &mut String, s: &str, w: usize)
    ensures
        final(out)@ == old(out)@ + pad_right(s@, w as nat),
{
    let cs = chars_of(s);
    push_range(out, &cs, 0, cs.len());
    assert(cs@.subrange(0, cs@.len() as int) =~= cs@);
    assert(out@ =~= old(out)@ + s@ + Seq::new(0, |i: int| ' '));
    let mut k: usize = cs.len();
    while k < w
        invariant
            cs@ == s@,
            k >= s@.len(),
            s@.len() >= w ==> k == s@.len(),
            s@.len() < w ==> k <= w,
            out@ == old(out)@ + s@ + Seq::new((k - s@.len()) as nat, |i: int| ' '),
        decreases w - k,
    {
        push_char(out, ' ');
        k = k + 1;
        assert(out@ =~= old(out)@ + s@ + Seq::new((k - s@.len()) as nat, |i: int| ' '));
    }
    assert(out@ =~= old(out)@ + pad_right(s@, w as nat));
}

/// Appends the decimal rendering of `n` right-aligned to width `w` (`{:w}`).
pub fn push_dec_padded_left(out: &mut String, n: u64, w: usize)
    ensures
        final(out)@ == old(out)@ + pad_left(dec_nat(n as nat), w as nat),
{
    let mut digits = String::new();
    push_dec(&mut digits, n);
    let cs = chars_of(digits.as_str());
    let mut k: usize = cs.len();
    while k < w
        invariant
            cs@ == dec_nat(n as nat),
            k >= cs@.len(),
            cs@.len() >= w ==> k == cs@.len(),
            cs@.len() < w ==> k <= w,
            out@ == old(out)@ + Seq::new((k - cs@.len()) as nat, |i: int| ' '),
        decreases w - k,
    {
        push_char(out, ' ');
        k = k + 1;
        assert(out@ =~= old(out)@ + Seq::new((k - cs@.len()) as nat, |i: int| ' '));
    }
    push_range(out, &cs, 0, cs.len());
    assert(cs@.subrange(0, cs@.len() as int) =~= cs@);
    assert(out@ =~= old(out)@ + pad_left(dec_nat(n as nat), w as nat));
}

/// Whether `pat` occurs at position `i` of `s`.
pub fn occurs_at_exec(s: &Vec<char>, pat: &Vec<char>, i: usize) -> (r: bool)
    ensures
        r == occurs_at(s@, pat@, i as int),
{
    if pat.len() > s.len() || i > s.len() - pat.len() {
        return false;
    }
    let mut j: usize = 0;
    while j < pat.len()
        invariant
            i + pat@.len() <= s@.len(),
            s@.len() == s.len(),
            j <= pat@.len(),
            forall|k: int| 0 <= k < j ==> s@[i + k] == pat@[k],
        decreases pat@.len() - j,
    {
        if s[i + j] != pat[j] {
            assert(s@.subrange(i as int, i + pat@.len())[j as int] != pat@[j as int]);
            return false;
        }
        j = j + 1;
    }
    assert(s@.subrange(i as int, i + pat@.len()) =~= pat@);
    true
}

/// Whether `pat` occurs in `s`.
pub fn contains_chars(s: &Vec<char>, pat: &Vec<char>) -> (r: bool)
    ensures
        r == seq_contains(s@, pat@),
{
    let n = s.len();
    let mut i: usize = 0;
    while i < n
        invariant
            n == s@.len(),
            i <= n,
            forall|k: int| 0 <= k < i ==> !occurs_at(s@, pat@, k),
        decreases n - i,
    {
        if occurs_at_exec(s, pat, i) {
            return true;
        }
        i = i + 1;
    }
    if occurs_at_exec(s, pat, n) {
        return true;
    }
    assert forall|k: int| !occurs_at(s@, pat@, k) by {
        if 0 <= k < n {
        }
    }
    false
}

/// Whether `pat` occurs in `s`.
pub fn str_contains(s: &str, pat: &str) -> (r: bool)
    ensures
        r == seq_contains(s@, pat@),
{
    let cs = chars_of(s);
    let ps = chars_of(pat);
    contains_chars(&cs, &ps)
}


/// Zeros before `s` up to width `w` (the `{:0w}` rendering of a number).
pub open spec fn pad_zero(s: Seq<char>, w: nat) -> Seq<char> {
    if s.len() >= w {
        s
    } else {
        Seq::new((w - s.len()) as nat, |i: int| '0') + s
    }
}

/// Appends the lower-case hexadecimal rendering of `n` with leading zeros
/// up to width `w` (`{:0wx}`).
pub fn push_hex_zero_padded(out: &mut String, n: u64, w: usize)
    ensures
        final(out)@ == old(out)@ + pad_zero(hex_nat(n as nat), w as nat),
{
    let mut digits = String::new();
    push_hex(&mut digits, n);
    let cs = chars_of(digits.as_str());
    let mut k: usize = cs.len();
    while k < w
        invariant
            cs@ == hex_nat(n as nat),
            k >= cs@.len(),
            cs@.len() >= w ==> k == cs@.len(),
            cs@.len() < w ==> k <= w,
            out@ == old(out)@ + Seq::new((k - cs@.len()) as nat, |i: int| '0'),
        decreases w - k,
    {
        push_char(out, '0');
        k = k + 1;
        assert(out@ =~= old(out)@ + Seq::new((k - cs@.len()) as nat, |i: int| '0'));
    }
    push_range(out, &cs, 0, cs.len());
    assert(cs@.subrange(0, cs@.len() as int) =~= cs@);
    assert(out@ =~= old(out)@ + pad_zero(hex_nat(n as nat), w as nat));
}

/// How std's `Debug` writes a string: quoted, with special characters escaped.
pub uninterp spec fn debug_text(s: Seq<char>) -> Seq<char>;

/// std's `Debug` formatting of a string slice (`{:?}`): the result is named
/// `debug_text` of the argument; the escaping rules are not restated.
#[verifier::external_body]
pub(crate) fn debug_quoted(s: &str) -> (r: String)
    ensures
        r@ == debug_text(s@),
{
    format!("{:?}", s)
}

} // verus!
