//! Machine instructions as bytes with their disassembly.

use vstd::prelude::*;
use vstd::string::*;
use crate::config::{Arch, arch_text, str_eq};
use crate::error::Error;
use crate::hexcodec::{decode_hex, hex_text_ok, hex_decoded, hex_error};
use crate::inst::{Inst, InstModel};
use crate::parser::{AsmParser, parse_spec, inst_error};
use crate::cmp::{InstDiff, inst_diff_spec, inst_diff_defined};
use crate::text::{push_char, push_str, push_hex2, push_dec, hex, hex_bytes, hex2, dec_nat, chars_of, string_of_range, str_contains, seq_contains, debug_quoted, debug_text};

verus! {

/// Instruction bytes, their count, and their disassembly when there is one.
#[derive(Debug, Clone)]
pub struct Asm {
    pub bytes: Vec<u8>,
    pub size: u8,
    pub disasm: Option<String>,
}

/// The instruction that a disassembly text reads as.
pub open spec fn meta_spec(d: Option<String>) -> Option<InstModel> {
    match d {
        Some(t) => parse_spec(t@),
        None => None,
    }
}

/// The database key of the `index`-th mutant of an instruction:
/// `arch-bits_hexbytes_ii`.
pub open spec fn key_text(arch: Seq<char>, bits: u8, bytes: Seq<u8>, index: u8) -> Seq<char> {
    arch_text(arch, bits) + seq!['_'] + hex_bytes(bytes) + seq!['_'] + hex2(index)
}

/// The first position of `c` in `s` at or after `i`, or `s.len()`.
pub open spec fn find_from(s: Seq<char>, c: char, i: int) -> int
    decreases s.len() - i,
{
    if 0 <= i < s.len() && s[i] != c {
        find_from(s, c, i + 1)
    } else {
        i
    }
}

/// The first `_`-separated field of a stored record.
pub open spec fn record_field0(s: Seq<char>) -> Seq<char> {
    s.subrange(0, find_from(s, '_', 0))
}

/// The second `_`-separated field of a stored record.
pub open spec fn record_field1(s: Seq<char>) -> Seq<char> {
    let a = find_from(s, '_', 0);
    s.subrange(a + 1, find_from(s, '_', a + 1))
}

/// A stored record reads as an instruction: it has a `_`, and its first
/// field is hexadecimal text.
pub open spec fn record_ok(s: Seq<char>) -> bool {
    find_from(s, '_', 0) < s.len() && hex_text_ok(crate::text::utf8_of(record_field0(s)))
}

/// The disassembly that a record's second field stands for.
pub open spec fn record_disasm(f: Seq<char>) -> Option<Seq<char>> {
    if f == "invalid"@ {
        None
    } else {
        Some(f)
    }
}

pub open spec fn opt_text(o: Option<String>) -> Option<Seq<char>> {
    match o {
        Some(s) => Some(s@),
        None => None,
    }
}

/// Disassembler output read as a disassembly: none when empty or when it
/// says `invalid`; line breaks become `;`.
pub open spec fn disasm_of_output(out: Seq<char>) -> Option<Seq<char>> {
    if out.len() == 0 || seq_contains(out, "invalid"@) {
        None
    } else {
        Some(out.map_values(|c: char| if c == '\n' { ';' } else { c }))
    }
}

pub proof fn lemma_find_from(s: Seq<char>, c: char, i: int)
    requires
        0 <= i <= s.len(),
    ensures
        i <= find_from(s, c, i) <= s.len(),
        forall|j: int| i <= j < find_from(s, c, i) ==> s[j] != c,
        find_from(s, c, i) < s.len() ==> s[find_from(s, c, i)] == c,
    decreases s.len() - i,
{
    if i < s.len() && s[i] != c {
        lemma_find_from(s, c, i + 1);
    }
}

fn find_exec(cs: &Vec<char>, c: char, i: usize) -> (r: usize)
    requires
        i <= cs@.len(),
    ensures
        r == find_from(cs@, c, i as int),
        i <= r <= cs@.len(),
{
    let mut k = i;
    while k < cs.len() && cs[k] != c
        invariant
            i <= k <= cs@.len(),
            find_from(cs@, c, k as int) == find_from(cs@, c, i as int),
        decreases cs@.len() - k,
    {
        k = k + 1;
    }
    k
}

impl Asm {
    /// The database key of the `index`-th mutant of this instruction:
    /// `arch-bits_hexbytes_ii`.
    pub fn key(&self, arch: &Arch, index: u8) -> (s: String)
        ensures
            s@ == key_text(arch.arch@, arch.bits, self.bytes@, index),
    {
        let mut s = arch.to_string();
        push_char(&mut s, '_');
        let h = hex(self.bytes.as_slice());
        push_str(&mut s, h.as_str());
        push_char(&mut s, '_');
        push_hex2(&mut s, index);
        assert(s@ =~= key_text(arch.arch@, arch.bits, self.bytes@, index));
        s
    }

    /// Reads a stored record `hexbytes_disasm`: the bytes from the first
    /// field, the disassembly from the second (`invalid` meaning none); the
    /// size is the byte count, truncated to 8 bits.
    pub fn from_string(src: &str) -> (r: Asm)
        requires
            record_ok(src@),
        ensures
            r.bytes@ == hex_decoded(crate::text::utf8_of(record_field0(src@))),
            r.size == r.bytes@.len() as u8,
            opt_text(r.disasm) == record_disasm(record_field1(src@)),
    {
        match Self::try_from_string(src) {
            Some(a) => a,
            None => {
                assert(false);
                Asm { bytes: Vec::new(), size: 0, disasm: None }
            },
        }
    }

    /// Reads a stored record as `from_string` does; `None` exactly when the
    /// record has no `_` or its first field is not hexadecimal text.
    pub fn try_from_string(src: &str) -> (r: Option<Asm>)
        ensures
            r is Some <==> record_ok(src@),
            r matches Some(a) ==> {
                &&& a.bytes@ == hex_decoded(crate::text::utf8_of(record_field0(src@)))
                &&& a.size == a.bytes@.len() as u8
                &&& opt_text(a.disasm) == record_disasm(record_field1(src@))
            },
    {
        let cs = chars_of(src);
        let a = find_exec(&cs, '_', 0);
        if a == cs.len() {
            return None;
        }
        let b = find_exec(&cs, '_', a + 1);
        let f0 = string_of_range(&cs, 0, a);
        let f1 = string_of_range(&cs, a + 1, b);
        match decode_hex(f0.as_str().as_bytes()) {
            Ok(bytes) => {
                let size = bytes.len() as u8;
                let disasm = if str_eq(f1.as_str(), "invalid") {
                    None
                } else {
                    Some(f1)
                };
                Some(Asm { bytes, size, disasm })
            },
            Err(_) => None,
        }
    }

    /// The instruction that the disassembly reads as.
    pub fn meta(&self) -> (r: Result<Inst, Error>)
        ensures
            r is Ok <==> meta_spec(self.disasm) is Some,
            r matches Ok(i) ==> meta_spec(self.disasm) == Some(i@),
            self.disasm is None ==> r matches Err(Error::Disasm),
            self.disasm is Some && r is Err ==> (r matches Err(Error::Parse(m)) && m@
                == inst_error(self.disasm->Some_0@, 0)),
    {
        match &self.disasm {
            None => Err(Error::Disasm),
            Some(d) => AsmParser::parse(d.as_str()),
        }
    }

    /// Where the disassemblies of two instructions differ.
    pub fn diff(&self, b: &Self) -> (r: Result<InstDiff, Error>)
        requires
            (meta_spec(self.disasm), meta_spec(b.disasm)) matches (Some(x), Some(y))
                ==> inst_diff_defined(x, y),
        ensures
            r is Ok <==> (meta_spec(self.disasm) is Some && meta_spec(b.disasm) is Some),
            r matches Ok(d) ==> (meta_spec(self.disasm), meta_spec(b.disasm)) matches (
                Some(x),
                Some(y),
            ) && d@ == inst_diff_spec(x, y),
            self.disasm is None ==> r matches Err(Error::Disasm),
            self.disasm is Some && meta_spec(self.disasm) is None ==> (r matches Err(
                Error::Parse(m),
            ) && m@ == inst_error(self.disasm->Some_0@, 0)),
            meta_spec(self.disasm) is Some && b.disasm is None ==> r matches Err(Error::Disasm),
            meta_spec(self.disasm) is Some && b.disasm is Some && meta_spec(b.disasm) is None ==> (
            r matches Err(Error::Parse(m)) && m@ == inst_error(b.disasm->Some_0@, 0)),
    {
        let ma = match self.meta() {
            Ok(i) => i,
            Err(e) => return Err(e),
        };
        let mb = match b.meta() {
            Ok(i) => i,
            Err(e) => return Err(e),
        };
        Ok(ma.diff(&mb))
    }

    /// An instruction and what the disassembler printed for it.
    pub fn from_disasm_output(value: &[u8], output: &str) -> (r: Asm)
        ensures
            r.bytes@ == value@,
            r.size == value@.len() as u8,
            opt_text(r.disasm) == disasm_of_output(output@),
    {
        let size = value.len() as u8;
        let bytes = vstd::slice::slice_to_vec(value);
        let cs = chars_of(output);
        if cs.len() == 0 || str_contains(output, "invalid") {
            return Asm { bytes, size, disasm: None };
        }
        let mut t = String::new();
        let mut i: usize = 0;
        while i < cs.len()
            invariant
                cs@ == output@,
                i <= cs@.len(),
                t@ == cs@.take(i as int).map_values(|c: char| if c == '\n' { ';' } else { c }),
            decreases cs@.len() - i,
        {
            let c = cs[i];
            push_char(&mut t, if c == '\n' { ';' } else { c });
            i = i + 1;
            assert(t@ =~= cs@.take(i as int).map_values(|c: char| if c == '\n' { ';' } else { c }));
        }
        assert(cs@.take(cs@.len() as int) =~= cs@);
        Asm { bytes, size, disasm: Some(t) }
    }

    /// An instruction from its assembly text and the hexadecimal bytes that
    /// the assembler printed for it.
    pub fn from_assembly(disasm: String, hex_out: &str) -> (r: Result<Asm, Error>)
        ensures
            r is Ok <==> hex_text_ok(hex_out.spec_bytes()),
            r matches Ok(a) ==> {
                &&& a.bytes@ == hex_decoded(hex_out.spec_bytes())
                &&& a.size == a.bytes@.len() as u8
                &&& opt_text(a.disasm) == Some(disasm@)
            },
            r matches Err(e) ==> e == Error::HexDecode(hex_error(hex_out.spec_bytes())),
    {
        match decode_hex(hex_out.as_bytes()) {
            Ok(bytes) => {
                let size = bytes.len() as u8;
                Ok(Asm { bytes, size, disasm: Some(disasm) })
            },
            Err(h) => Err(Error::HexDecode(h)),
        }
    }
}


/// The stored record of an instruction: its bytes in hexadecimal, `_`, and
/// its disassembly, or `invalid` when it has none.
pub open spec fn record_text(bytes: Seq<u8>, disasm: Option<Seq<char>>) -> Seq<char> {
    hex_bytes(bytes) + seq!['_'] + match disasm {
        Some(d) => d,
        None => "invalid"@,
    }
}

impl Asm {
    /// The stored record of this instruction: `hexbytes_disasm`, with
    /// `invalid` for a missing disassembly.
    pub fn record(&self) -> (s: String)
        ensures
            s@ == record_text(self.bytes@, opt_text(self.disasm)),
    {
        let mut s = hex(self.bytes.as_slice());
        push_char(&mut s, '_');
        match &self.disasm {
            Some(d) => push_str(&mut s, d.as_str()),
            None => push_str(&mut s, "invalid"),
        }
        s
    }
}

proof fn lemma_hex_bytes(b: Seq<u8>)
    ensures
        hex_bytes(b).len() == 2 * b.len(),
        forall|i: int|
            0 <= i < b.len() ==> hex_bytes(b)[2 * i] == crate::text::hex_char(b[i] as int / 16)
                && hex_bytes(b)[2 * i + 1] == crate::text::hex_char(b[i] as int % 16),
    decreases b.len(),
{
    if b.len() > 0 {
        lemma_hex_bytes(b.drop_last());
        let h = hex_bytes(b.drop_last());
        assert(hex_bytes(b) == h + hex2(b.last()));
        assert forall|i: int| 0 <= i < b.len() implies hex_bytes(b)[2 * i]
            == crate::text::hex_char(b[i] as int / 16) && hex_bytes(b)[2 * i + 1]
            == crate::text::hex_char(b[i] as int % 16) by {
            if i < b.len() - 1 {
                assert(b.drop_last()[i] == b[i]);
            }
        }
    }
}

proof fn lemma_hex_char(d: int)
    requires
        0 <= d < 16,
    ensures
        '0' <= crate::text::hex_char(d) <= 'f',
        crate::text::hex_char(d) != '_',
        crate::text::hex_char(d) as int == if d < 10 {
            d + 48
        } else {
            d + 87
        },
{
}

/// Law: a record written for an instruction reads back as the same bytes
/// and disassembly, provided the disassembly has no `_` and is not the word
/// `invalid`.
pub proof fn law_record_roundtrip(bytes: Seq<u8>, disasm: Option<Seq<char>>)
    requires
        disasm matches Some(d) ==> (forall|i: int| 0 <= i < d.len() ==> d[i] != '_') && d
            != "invalid"@,
    ensures
        record_ok(record_text(bytes, disasm)),
        hex_decoded(crate::text::utf8_of(record_field0(record_text(bytes, disasm)))) == bytes,
        record_disasm(record_field1(record_text(bytes, disasm))) == disasm,
{
    let s = record_text(bytes, disasm);
    let h = hex_bytes(bytes);
    let tail: Seq<char> = match disasm {
        Some(d) => d,
        None => "invalid"@,
    };
    reveal_strlit("invalid");
    lemma_hex_bytes(bytes);
    assert forall|j: int| 0 <= j < h.len() implies h[j] != '_' && '0' <= #[trigger] h[j] <= 'f' by {
        let i = j / 2;
        if j % 2 == 0 {
            assert(j == 2 * i);
            lemma_hex_char(bytes[i] as int / 16);
        } else {
            assert(j == 2 * i + 1);
            lemma_hex_char(bytes[i] as int % 16);
        }
    }
    assert(s == h + seq!['_'] + tail);
    lemma_find_from(s, '_', 0);
    assert(s[h.len() as int] == '_');
    assert(find_from(s, '_', 0) == h.len()) by {
        if find_from(s, '_', 0) < h.len() {
            assert(s[find_from(s, '_', 0)] == h[find_from(s, '_', 0)]);
        }
    }
    assert(record_field0(s) =~= h);
    lemma_find_from(s, '_', (h.len() + 1) as int);
    assert(find_from(s, '_', (h.len() + 1) as int) == s.len()) by {
        let f = find_from(s, '_', (h.len() + 1) as int);
        if f < s.len() {
            assert(s[f] == tail[f - h.len() - 1]);
        }
    }
    assert(record_field1(s) =~= tail);
    law_hex_roundtrip(bytes);
}

/// Law: the hexadecimal text of bytes has two lower-case digits per byte,
/// high half first, and decoding that text gives the bytes back.
pub proof fn law_hex_roundtrip(bytes: Seq<u8>)
    ensures
        hex_bytes(bytes).len() == 2 * bytes.len(),
        forall|i: int|
            0 <= i < bytes.len() ==> hex_bytes(bytes)[2 * i] == crate::text::hex_char(
                bytes[i] as int / 16,
            ) && hex_bytes(bytes)[2 * i + 1] == crate::text::hex_char(bytes[i] as int % 16),
        hex_text_ok(crate::text::utf8_of(hex_bytes(bytes))),
        hex_decoded(crate::text::utf8_of(hex_bytes(bytes))) == bytes,
{
    let h = hex_bytes(bytes);
    lemma_hex_bytes(bytes);
    assert forall|j: int| 0 <= j < h.len() implies '0' <= #[trigger] h[j] <= 'f' by {
        let i = j / 2;
        if j % 2 == 0 {
            assert(j == 2 * i);
            lemma_hex_char(bytes[i] as int / 16);
        } else {
            assert(j == 2 * i + 1);
            lemma_hex_char(bytes[i] as int % 16);
        }
    }
    let u = crate::text::utf8_of(h);
    assert(vstd::utf8::is_ascii_chars(h));
    vstd::utf8::is_ascii_chars_encode_utf8(h);
    assert forall|j: int| 0 <= j < u.len() implies crate::hexcodec::is_hex_byte(#[trigger] u[j]) by {
        assert(h[j] as u8 == u[j]);
        let i = j / 2;
        if j % 2 == 0 {
            assert(j == 2 * i);
            lemma_hex_char(bytes[i] as int / 16);
        } else {
            assert(j == 2 * i + 1);
            lemma_hex_char(bytes[i] as int % 16);
        }
    }
    assert forall|i: int| 0 <= i < bytes.len() implies #[trigger] hex_decoded(u)[i] == bytes[i] by {
        assert(h[2 * i] as u8 == u[2 * i]);
        assert(h[2 * i + 1] as u8 == u[2 * i + 1]);
        lemma_hex_char(bytes[i] as int / 16);
        lemma_hex_char(bytes[i] as int % 16);
    }
    assert(hex_decoded(u) =~= bytes);
}



/// The text of an instruction: `ASM { value: hexbytes, size: n, disasm:
/// "text" }`, the disassembly written as std's `Debug` writes strings and
/// `invalid` standing for none.
pub open spec fn asm_text(bytes: Seq<u8>, size: u8, disasm: Option<Seq<char>>) -> Seq<char> {
    "ASM { value: "@ + hex_bytes(bytes) + ", size: "@ + dec_nat(size as nat) + ", disasm: "@
        + debug_text(
        match disasm {
            Some(d) => d,
            None => "invalid"@,
        },
    ) + " }"@
}

impl Asm {
    /// The text of this instruction: its bytes, size and disassembly.
    pub fn to_string(&self) -> (s: String)
        ensures
            s@ == asm_text(self.bytes@, self.size, opt_text(self.disasm)),
    {
        let mut s = String::new();
        push_str(&mut s, "ASM { value: ");
        let h = hex(self.bytes.as_slice());
        push_str(&mut s, h.as_str());
        push_str(&mut s, ", size: ");
        push_dec(&mut s, self.size as u64);
        push_str(&mut s, ", disasm: ");
        let q = match &self.disasm {
            Some(d) => debug_quoted(d.as_str()),
            None => debug_quoted("invalid"),
        };
        push_str(&mut s, q.as_str());
        push_str(&mut s, " }");
        s
    }
}

} // verus!
