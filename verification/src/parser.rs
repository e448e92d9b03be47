//! The instruction grammar and its parser.
//!
//! An instruction is a mnemonic (letters and digits), then optionally a
//! space and a list of operands separated by `", "`, then either the end of
//! the text or a `;`.  An operand is tried, in this order, as an immediate
//! (`0x`-prefixed hexadecimal or decimal), a memory operand
//! (`[size ][sel:][reg +/- n | n | reg]`), an expression (`word rest`),
//! a register (letters and digits followed by `,`, `;` or the end) and
//! finally a symbol, which takes the rest of the text.

use vstd::prelude::*;
use crate::inst::{Inst, Arg, RegShft, Addr, InstModel, ArgModel, RegShftModel, AddrModel, args_model};
use crate::text::{string_of_range, chars_of, push_str, debug_quoted, debug_text};
use crate::error::Error;
use crate::asm_fmt::{arg_printable, inst_printable};

verus! {

pub enum Class {
    Alpha,
    AlNum,
    Digit,
    Hex,
}

pub open spec fn is_alpha(c: char) -> bool {
    ('a' <= c && c <= 'z') || ('A' <= c && c <= 'Z')
}

pub open spec fn is_digit(c: char) -> bool {
    '0' <= c && c <= '9'
}

pub open spec fn is_hex(c: char) -> bool {
    is_digit(c) || ('a' <= c && c <= 'f') || ('A' <= c && c <= 'F')
}

pub open spec fn in_class(c: char, k: Class) -> bool {
    match k {
        Class::Alpha => is_alpha(c),
        Class::AlNum => is_alpha(c) || is_digit(c),
        Class::Digit => is_digit(c),
        Class::Hex => is_hex(c),
    }
}

/// The end of the longest run of characters of class `k` starting at `p`.
pub open spec fn span_end(s: Seq<char>, p: int, k: Class) -> int
    decreases s.len() - p,
{
    if 0 <= p < s.len() && in_class(s[p], k) {
        span_end(s, p + 1, k)
    } else {
        p
    }
}

pub open spec fn hex_val(c: char) -> int {
    if is_digit(c) {
        c as int - 48
    } else if 'a' <= c && c <= 'f' {
        c as int - 87
    } else {
        c as int - 55
    }
}

/// The value of the hexadecimal digits `s[p..q]`.
pub open spec fn hex_value(s: Seq<char>, p: int, q: int) -> int
    decreases q - p,
{
    if q <= p {
        0
    } else {
        hex_value(s, p, q - 1) * 16 + hex_val(s[q - 1])
    }
}

/// The value of the decimal digits `s[p..q]`.
pub open spec fn dec_value(s: Seq<char>, p: int, q: int) -> int
    decreases q - p,
{
    if q <= p {
        0
    } else {
        dec_value(s, p, q - 1) * 10 + (s[q - 1] as int - 48)
    }
}

pub open spec fn i128_max() -> int {
    0x7fff_ffff_ffff_ffff_ffff_ffff_ffff_ffff
}

/// The low 64 bits of a non-negative integer, read as a signed integer.
pub open spec fn wrap_i64(v: int) -> i64 {
    let m = v % 0x1_0000_0000_0000_0000;
    if m >= 0x8000_0000_0000_0000 {
        (m - 0x1_0000_0000_0000_0000) as i64
    } else {
        m as i64
    }
}

/// Negation that leaves the least 64-bit integer unchanged.
pub open spec fn neg_i64(n: i64) -> i64 {
    if n == i64::MIN {
        n
    } else {
        (-n) as i64
    }
}

/// `0x` and hexadecimal digits whose value fits in 128 signed bits; the
/// value is then truncated to 64 bits.
pub open spec fn p_hex(s: Seq<char>, p: int) -> Option<(int, i64)> {
    if 0 <= p && p + 1 < s.len() && s[p] == '0' && s[p + 1] == 'x' {
        let e = span_end(s, p + 2, Class::Hex);
        if e > p + 2 && hex_value(s, p + 2, e) <= i128_max() {
            Some((e, wrap_i64(hex_value(s, p + 2, e))))
        } else {
            None
        }
    } else {
        None
    }
}

/// Decimal digits whose value fits in a signed 64-bit integer.
pub open spec fn p_dec(s: Seq<char>, p: int) -> Option<(int, i64)> {
    let e = span_end(s, p, Class::Digit);
    if 0 <= p && e > p && dec_value(s, p, e) <= i64::MAX {
        Some((e, dec_value(s, p, e) as i64))
    } else {
        None
    }
}

pub open spec fn p_num(s: Seq<char>, p: int) -> Option<(int, i64)> {
    match p_hex(s, p) {
        Some(r) => Some(r),
        None => p_dec(s, p),
    }
}

pub open spec fn p_imm(s: Seq<char>, p: int) -> Option<(int, ArgModel)> {
    match p_num(s, p) {
        Some((e, n)) => Some((e, ArgModel::Imm(n))),
        None => None,
    }
}

/// A symbol is the whole non-empty rest of the text.
pub open spec fn p_sym(s: Seq<char>, p: int) -> Option<(int, ArgModel)> {
    if 0 <= p < s.len() {
        Some((s.len() as int, ArgModel::Sym(s.subrange(p, s.len() as int))))
    } else {
        None
    }
}

/// Position `e` is the end of the text or holds `,` or `;`.
pub open spec fn at_delim(s: Seq<char>, e: int) -> bool {
    e >= s.len() || s[e] == ',' || s[e] == ';'
}

pub open spec fn p_reg(s: Seq<char>, p: int) -> Option<(int, ArgModel)> {
    let e = span_end(s, p, Class::AlNum);
    if 0 <= p && e > p && at_delim(s, e) {
        Some((e, ArgModel::Reg(s.subrange(p, e))))
    } else {
        None
    }
}

pub open spec fn p_shft(s: Seq<char>, p: int) -> Option<(int, RegShftModel)> {
    let a = span_end(s, p, Class::Alpha);
    let with_reg: Option<(int, RegShftModel)> = if 0 <= p && a > p && a + 2 < s.len() && s[a]
        == ' ' && (s[a + 1] == '-' || s[a + 1] == '+') && s[a + 2] == ' ' {
        match p_num(s, a + 3) {
            Some((e, n)) => Some(
                (
                    e,
                    RegShftModel {
                        reg: Some(s.subrange(p, a)),
                        shft: Some(
                            if s[a + 1] == '-' {
                                neg_i64(n)
                            } else {
                                n
                            },
                        ),
                    },
                ),
            ),
            None => None,
        }
    } else {
        None
    };
    match with_reg {
        Some(r) => Some(r),
        None => match p_num(s, p) {
            Some((e, n)) => Some((e, RegShftModel { reg: None, shft: Some(n) })),
            None => if 0 <= p && a > p {
                Some((a, RegShftModel { reg: Some(s.subrange(p, a)), shft: None }))
            } else {
                None
            },
        },
    }
}

pub open spec fn p_mem(s: Seq<char>, p: int) -> Option<(int, ArgModel)> {
    let a = span_end(s, p, Class::Alpha);
    let has_len = 0 <= p && a > p && a < s.len() && s[a] == ' ';
    let p1 = if has_len {
        a + 1
    } else {
        p
    };
    let b = span_end(s, p1, Class::Alpha);
    let has_sel = 0 <= p1 && b > p1 && b < s.len() && s[b] == ':';
    let p2 = if has_sel {
        b + 1
    } else {
        p1
    };
    if 0 <= p2 < s.len() && s[p2] == '[' {
        match p_shft(s, p2 + 1) {
            Some((e, v)) => if e < s.len() && s[e] == ']' {
                Some(
                    (
                        e + 1,
                        ArgModel::Mem(
                            AddrModel {
                                len: if has_len {
                                    Some(s.subrange(p, a))
                                } else {
                                    None
                                },
                                sel: if has_sel {
                                    Some(s.subrange(p1, b))
                                } else {
                                    None
                                },
                                value: v,
                            },
                        ),
                    ),
                )
            } else {
                None
            },
            None => None,
        }
    } else {
        None
    }
}

/// A word, a space, and the whole non-empty rest of the text.
pub open spec fn p_exp(s: Seq<char>, p: int) -> Option<(int, ArgModel)> {
    let a = span_end(s, p, Class::Alpha);
    if 0 <= p && a > p && a + 1 < s.len() && s[a] == ' ' {
        Some(
            (
                s.len() as int,
                ArgModel::Expr(s.subrange(p, a), s.subrange(a + 1, s.len() as int)),
            ),
        )
    } else {
        None
    }
}

/// One operand: the first of the alternatives that succeeds.
pub open spec fn p_arg(s: Seq<char>, p: int) -> Option<(int, ArgModel)> {
    if p_imm(s, p) is Some {
        p_imm(s, p)
    } else if p_mem(s, p) is Some {
        p_mem(s, p)
    } else if p_exp(s, p) is Some {
        p_exp(s, p)
    } else if p_reg(s, p) is Some {
        p_reg(s, p)
    } else {
        p_sym(s, p)
    }
}

/// Further operands, each after `", "`; a separator not followed by an
/// operand is left unread.
pub open spec fn p_args_tail(s: Seq<char>, p: int) -> (int, Seq<ArgModel>)
    decreases s.len() - p,
{
    if 0 <= p && p + 1 < s.len() && s[p] == ',' && s[p + 1] == ' ' {
        match p_arg(s, p + 2) {
            Some((e, a)) => if p < e <= s.len() {
                let (e2, rest) = p_args_tail(s, e);
                (e2, seq![a] + rest)
            } else {
                (p, seq![])
            },
            None => (p, seq![]),
        }
    } else {
        (p, seq![])
    }
}

/// A possibly empty list of operands.
pub open spec fn p_args(s: Seq<char>, p: int) -> (int, Seq<ArgModel>) {
    match p_arg(s, p) {
        Some((e, a)) => {
            let (e2, rest) = p_args_tail(s, e);
            (e2, seq![a] + rest)
        },
        None => (p, seq![]),
    }
}

/// One instruction, ended by the end of the text or by `;`.
pub open spec fn p_inst(s: Seq<char>, p: int) -> Option<(int, InstModel)> {
    let o = span_end(s, p, Class::AlNum);
    if 0 <= p && o > p {
        let with_args = o < s.len() && s[o] == ' ';
        let q = if with_args {
            p_args(s, o + 1).0
        } else {
            o
        };
        let inst = InstModel {
            op: s.subrange(p, o),
            args: if with_args {
                Some(p_args(s, o + 1).1)
            } else {
                None
            },
        };
        if q >= s.len() {
            Some((q, inst))
        } else if s[q] == ';' {
            Some((q + 1, inst))
        } else {
            None
        }
    } else {
        None
    }
}

/// One instruction, possibly after a single space.
pub open spec fn p_item(s: Seq<char>, p: int) -> Option<(int, InstModel)> {
    if 0 <= p < s.len() && s[p] == ' ' {
        p_inst(s, p + 1)
    } else {
        p_inst(s, p)
    }
}

/// The instructions that follow one another from `p` on, up to the first
/// place where none can be read.
pub open spec fn p_items(s: Seq<char>, p: int) -> Seq<InstModel>
    decreases s.len() - p,
{
    match p_item(s, p) {
        Some((e, i)) => if p < e <= s.len() {
            seq![i] + p_items(s, e)
        } else {
            seq![]
        },
        None => seq![],
    }
}

/// The message of a failed read: the text left where reading stopped, as
/// std's `Debug` writes it, and the name of the step that failed, in the
/// form `Parsing Error: Error { input: "...", code: Kind }`.
pub open spec fn error_text(rest: Seq<char>, code: Seq<char>) -> Seq<char> {
    "Parsing Error: Error { input: "@ + debug_text(rest) + ", code: "@ + code + " }"@
}

/// Why reading an instruction from `p` fails: no mnemonic there
/// (`AlphaNumeric`, with the text from `p`), or neither the end of the text
/// nor `;` after the mnemonic and its operands (`Tag`, with the text from
/// where they end).
pub open spec fn inst_error(s: Seq<char>, p: int) -> Seq<char> {
    let o = span_end(s, p, Class::AlNum);
    if o <= p {
        error_text(s.subrange(p, s.len() as int), "AlphaNumeric"@)
    } else {
        let q = if o < s.len() && s[o] == ' ' {
            p_args(s, o + 1).0
        } else {
            o
        };
        error_text(s.subrange(q, s.len() as int), "Tag"@)
    }
}

/// Why reading a list of instructions fails: the first one, after one
/// optional space, cannot be read.
pub open spec fn item_error(s: Seq<char>) -> Seq<char> {
    if 0 < s.len() && s[0] == ' ' {
        inst_error(s, 1)
    } else {
        inst_error(s, 0)
    }
}

/// The instruction that the text begins with, if it begins with one.
pub open spec fn parse_spec(s: Seq<char>) -> Option<InstModel> {
    match p_inst(s, 0) {
        Some((_, i)) => Some(i),
        None => None,
    }
}

/// The instructions that the text begins with, if there is at least one.
pub open spec fn parse_many_spec(s: Seq<char>) -> Option<Seq<InstModel>> {
    match p_item(s, 0) {
        Some((e, i)) => Some(seq![i] + p_items(s, e)),
        None => None,
    }
}

/// An executable result `r` agrees with a specified one.
pub open spec fn lifts<T: View>(r: Option<(usize, T)>, m: Option<(int, T::V)>) -> bool {
    match r {
        Some((e, v)) => m == Some((e as int, v@)),
        None => m is None,
    }
}

pub proof fn lemma_span_end(s: Seq<char>, p: int, k: Class)
    requires
        0 <= p <= s.len(),
    ensures
        p <= span_end(s, p, k) <= s.len(),
        forall|j: int| p <= j < span_end(s, p, k) ==> in_class(#[trigger] s[j], k),
        span_end(s, p, k) < s.len() ==> !in_class(s[span_end(s, p, k)], k),
    decreases s.len() - p,
{
    if p < s.len() && in_class(s[p], k) {
        lemma_span_end(s, p + 1, k);
    }
}

fn char_in_class(c: char, k: &Class) -> (r: bool)
    ensures
        r == in_class(c, *k),
{
    let alpha = ('a' <= c && c <= 'z') || ('A' <= c && c <= 'Z');
    let digit = '0' <= c && c <= '9';
    match k {
        Class::Alpha => alpha,
        Class::AlNum => alpha || digit,
        Class::Digit => digit,
        Class::Hex => digit || ('a' <= c && c <= 'f') || ('A' <= c && c <= 'F'),
    }
}

fn span_end_exec(cs: &Vec<char>, p: usize, k: Class) -> (e: usize)
    requires
        p <= cs@.len(),
    ensures
        e == span_end(cs@, p as int, k),
        p <= e <= cs@.len(),
{
    let n = cs.len();
    let mut i = p;
    while i < n && char_in_class(cs[i], &k)
        invariant
            n == cs@.len(),
            p <= i <= n,
            span_end(cs@, i as int, k) == span_end(cs@, p as int, k),
        decreases n - i,
    {
        i = i + 1;
    }
    i
}

fn hex_digit_value(c: char) -> (d: u8)
    requires
        is_hex(c),
    ensures
        d as int == hex_val(c),
        d < 16,
{
    let u = c as u32;
    if '0' <= c && c <= '9' {
        (u - 48) as u8
    } else if 'a' <= c && c <= 'f' {
        (u - 87) as u8
    } else {
        (u - 55) as u8
    }
}

fn wrap_to_i64(v: u128) -> (r: i64)
    ensures
        r == wrap_i64(v as int),
{
    let m: u64 = (v % 0x1_0000_0000_0000_0000u128) as u64;
    if m >= 0x8000_0000_0000_0000u64 {
        let t: i64 = (m - 0x8000_0000_0000_0000u64) as i64;
        t + i64::MIN
    } else {
        m as i64
    }
}

fn hex_i64(cs: &Vec<char>, p: usize) -> (r: Option<(usize, i64)>)
    requires
        p <= cs@.len(),
    ensures
        lifts(r, p_hex(cs@, p as int)),
        r matches Some((e, _)) ==> p < e <= cs@.len(),
{
    let n = cs.len();
    if n - p >= 2 && cs[p] == '0' && cs[p + 1] == 'x' {
        let start = p + 2;
        let e = span_end_exec(cs, start, Class::Hex);
        proof {
            lemma_span_end(cs@, start as int, Class::Hex);
        }
        if e == start {
            return None;
        }
        let mut acc: u128 = 0;
        let mut ovf = false;
        let mut i = start;
        while i < e
            invariant
                start <= i <= e <= cs@.len(),
                e == span_end(cs@, start as int, Class::Hex),
                forall|j: int| start <= j < e ==> in_class(#[trigger] cs@[j], Class::Hex),
                ovf <==> hex_value(cs@, start as int, i as int) > i128_max(),
                !ovf ==> acc as int == hex_value(cs@, start as int, i as int),
            decreases e - i,
        {
            let d = hex_digit_value(cs[i]);
            if !ovf {
                if acc >= 0x0800_0000_0000_0000_0000_0000_0000_0000u128 {
                    ovf = true;
                } else {
                    acc = acc * 16 + d as u128;
                }
            }
            i = i + 1;
        }
        if ovf {
            None
        } else {
            Some((e, wrap_to_i64(acc)))
        }
    } else {
        None
    }
}

fn dec_i64(cs: &Vec<char>, p: usize) -> (r: Option<(usize, i64)>)
    requires
        p <= cs@.len(),
    ensures
        lifts(r, p_dec(cs@, p as int)),
        r matches Some((e, _)) ==> p < e <= cs@.len(),
{
    let e = span_end_exec(cs, p, Class::Digit);
    proof {
        lemma_span_end(cs@, p as int, Class::Digit);
    }
    if e == p {
        return None;
    }
    let mut acc: u128 = 0;
    let mut ovf = false;
    let mut i = p;
    while i < e
        invariant
            p <= i <= e <= cs@.len(),
            forall|j: int| p <= j < e ==> in_class(#[trigger] cs@[j], Class::Digit),
            ovf <==> dec_value(cs@, p as int, i as int) > i64::MAX,
            !ovf ==> acc as int == dec_value(cs@, p as int, i as int),
        decreases e - i,
    {
        let d = (cs[i] as u32 - 48) as u8;
        if !ovf {
            let next = acc * 10 + d as u128;
            if next > 0x7fff_ffff_ffff_ffffu128 {
                ovf = true;
            } else {
                acc = next;
            }
        }
        i = i + 1;
    }
    if ovf {
        None
    } else {
        Some((e, acc as i64))
    }
}

fn num_i64(cs: &Vec<char>, p: usize) -> (r: Option<(usize, i64)>)
    requires
        p <= cs@.len(),
    ensures
        lifts(r, p_num(cs@, p as int)),
        r matches Some((e, _)) ==> p < e <= cs@.len(),
{
    match hex_i64(cs, p) {
        Some(r) => Some(r),
        None => dec_i64(cs, p),
    }
}


fn arg_imm(cs: &Vec<char>, p: usize) -> (r: Option<(usize, Arg)>)
    requires
        p <= cs@.len(),
    ensures
        lifts(r, p_imm(cs@, p as int)),
        r matches Some((e, _)) ==> p < e <= cs@.len(),
{
    match num_i64(cs, p) {
        Some((e, n)) => Some((e, Arg::Imm(n))),
        None => None,
    }
}

fn arg_sym(cs: &Vec<char>, p: usize) -> (r: Option<(usize, Arg)>)
    requires
        p <= cs@.len(),
    ensures
        lifts(r, p_sym(cs@, p as int)),
        r matches Some((e, _)) ==> p < e <= cs@.len(),
{
    if p < cs.len() {
        Some((cs.len(), Arg::Sym(string_of_range(cs, p, cs.len()))))
    } else {
        None
    }
}

fn at_delim_exec(cs: &Vec<char>, e: usize) -> (r: bool)
    ensures
        r == at_delim(cs@, e as int),
{
    e >= cs.len() || cs[e] == ',' || cs[e] == ';'
}

fn arg_reg(cs: &Vec<char>, p: usize) -> (r: Option<(usize, Arg)>)
    requires
        p <= cs@.len(),
    ensures
        lifts(r, p_reg(cs@, p as int)),
        r matches Some((e, _)) ==> p < e <= cs@.len(),
{
    let e = span_end_exec(cs, p, Class::AlNum);
    if e > p && at_delim_exec(cs, e) {
        Some((e, Arg::Reg(string_of_range(cs, p, e))))
    } else {
        None
    }
}

fn sign_at(cs: &Vec<char>, a: usize) -> (r: bool)
    ensures
        r == (a + 2 < cs@.len() && cs@[a as int] == ' ' && (cs@[a + 1] == '-' || cs@[a + 1] == '+')
            && cs@[a + 2] == ' '),
{
    a < cs.len() && cs.len() - a > 2 && cs[a] == ' ' && (cs[a + 1] == '-' || cs[a + 1] == '+')
        && cs[a + 2] == ' '
}

fn neg_exec(n: i64) -> (r: i64)
    ensures
        r == neg_i64(n),
{
    if n == i64::MIN {
        n
    } else {
        -n
    }
}

fn arg_shft(cs: &Vec<char>, p: usize) -> (r: Option<(usize, RegShft)>)
    requires
        p <= cs@.len(),
    ensures
        lifts(r, p_shft(cs@, p as int)),
        r matches Some((e, _)) ==> p < e <= cs@.len(),
{
    let n = cs.len();
    let a = span_end_exec(cs, p, Class::Alpha);
    if a > p && sign_at(cs, a) {
        assert(a + 3 <= n);
        match num_i64(cs, a + 3) {
            Some((e, n)) => {
                let shft = if cs[a + 1] == '-' {
                    neg_exec(n)
                } else {
                    n
                };
                return Some(
                    (e, RegShft { reg: Some(string_of_range(cs, p, a)), shft: Some(shft) }),
                );
            },
            None => {},
        }
    }
    match num_i64(cs, p) {
        Some((e, n)) => Some((e, RegShft { reg: None, shft: Some(n) })),
        None => if a > p {
            Some((a, RegShft { reg: Some(string_of_range(cs, p, a)), shft: None }))
        } else {
            None
        },
    }
}

fn arg_mem(cs: &Vec<char>, p: usize) -> (r: Option<(usize, Arg)>)
    requires
        p <= cs@.len(),
    ensures
        lifts(r, p_mem(cs@, p as int)),
        r matches Some((e, _)) ==> p < e <= cs@.len(),
{
    let n = cs.len();
    let a = span_end_exec(cs, p, Class::Alpha);
    let has_len = a > p && a < n && cs[a] == ' ';
    let p1 = if has_len {
        a + 1
    } else {
        p
    };
    let b = span_end_exec(cs, p1, Class::Alpha);
    let has_sel = b > p1 && b < n && cs[b] == ':';
    let p2 = if has_sel {
        b + 1
    } else {
        p1
    };
    if p2 < n && cs[p2] == '[' {
        match arg_shft(cs, p2 + 1) {
            Some((e, v)) => if e < n && cs[e] == ']' {
                let len = if has_len {
                    Some(string_of_range(cs, p, a))
                } else {
                    None
                };
                let sel = if has_sel {
                    Some(string_of_range(cs, p1, b))
                } else {
                    None
                };
                Some((e + 1, Arg::Mem(Addr { len, sel, value: v })))
            } else {
                None
            },
            None => None,
        }
    } else {
        None
    }
}

fn arg_exp(cs: &Vec<char>, p: usize) -> (r: Option<(usize, Arg)>)
    requires
        p <= cs@.len(),
    ensures
        lifts(r, p_exp(cs@, p as int)),
        r matches Some((e, _)) ==> p < e <= cs@.len(),
{
    let n = cs.len();
    let a = span_end_exec(cs, p, Class::Alpha);
    if a > p && a < n && n - a > 1 && cs[a] == ' ' {
        Some((n, Arg::Expr(string_of_range(cs, p, a), string_of_range(cs, a + 1, n))))
    } else {
        None
    }
}

fn arg(cs: &Vec<char>, p: usize) -> (r: Option<(usize, Arg)>)
    requires
        p <= cs@.len(),
    ensures
        lifts(r, p_arg(cs@, p as int)),
        r matches Some((e, _)) ==> p < e <= cs@.len(),
{
    let r = arg_imm(cs, p);
    if r.is_some() {
        return r;
    }
    let r = arg_mem(cs, p);
    if r.is_some() {
        return r;
    }
    let r = arg_exp(cs, p);
    if r.is_some() {
        return r;
    }
    let r = arg_reg(cs, p);
    if r.is_some() {
        return r;
    }
    arg_sym(cs, p)
}


fn args_list(cs: &Vec<char>, p: usize) -> (r: (usize, Vec<Arg>))
    requires
        p <= cs@.len(),
    ensures
        r.0 == p_args(cs@, p as int).0,
        args_model(r.1@) == p_args(cs@, p as int).1,
        p <= r.0 <= cs@.len(),
{
    let n = cs.len();
    let mut v: Vec<Arg> = Vec::new();
    let mut pos: usize;
    match arg(cs, p) {
        None => {
            assert(args_model(v@) =~= seq![]);
            return (p, v);
        },
        Some((e, a)) => {
            v.push(a);
            pos = e;
            assert(args_model(v@) =~= seq![a@]);
        },
    }
    loop
        invariant
            n == cs@.len(),
            p < pos <= n,
            p_args(cs@, p as int) == (
                p_args_tail(cs@, pos as int).0,
                args_model(v@) + p_args_tail(cs@, pos as int).1,
            ),
        decreases n - pos,
    {
        if !(n - pos >= 2 && cs[pos] == ',' && cs[pos + 1] == ' ') {
            assert(args_model(v@) + seq![] =~= args_model(v@));
            return (pos, v);
        }
        match arg(cs, pos + 2) {
            None => {
                assert(args_model(v@) + seq![] =~= args_model(v@));
                return (pos, v);
            },
            Some((e, a)) => {
                let ghost old_v = args_model(v@);
                let ghost tail = p_args_tail(cs@, e as int).1;
                v.push(a);
                assert(args_model(v@) =~= old_v.push(a@));
                assert(old_v + (seq![a@] + tail) =~= args_model(v@) + tail);
                pos = e;
            },
        }
    }
}

fn inst(cs: &Vec<char>, p: usize) -> (r: Option<(usize, Inst)>)
    requires
        p <= cs@.len(),
    ensures
        lifts(r, p_inst(cs@, p as int)),
        r matches Some((e, _)) ==> p < e <= cs@.len(),
{
    let n = cs.len();
    let o = span_end_exec(cs, p, Class::AlNum);
    if o == p {
        return None;
    }
    let with_args = o < n && cs[o] == ' ';
    let (q, args) = if with_args {
        let (q, v) = args_list(cs, o + 1);
        (q, Some(v))
    } else {
        (o, None)
    };
    let op = string_of_range(cs, p, o);
    if q >= n {
        Some((q, Inst { op, args }))
    } else if cs[q] == ';' {
        Some((q + 1, Inst { op, args }))
    } else {
        None
    }
}

fn item(cs: &Vec<char>, p: usize) -> (r: Option<(usize, Inst)>)
    requires
        p <= cs@.len(),
    ensures
        lifts(r, p_item(cs@, p as int)),
        r matches Some((e, _)) ==> p < e <= cs@.len(),
{
    if p < cs.len() && cs[p] == ' ' {
        inst(cs, p + 1)
    } else {
        inst(cs, p)
    }
}

pub open spec fn insts_model(v: Seq<Inst>) -> Seq<InstModel> {
    v.map_values(|i: Inst| i@)
}

/// Reads instructions one after another until none can be read.
fn items(cs: &Vec<char>, p: usize, acc: &mut Vec<Inst>)
    requires
        p <= cs@.len(),
    ensures
        insts_model(final(acc)@) == insts_model(old(acc)@) + p_items(cs@, p as int),
{
    let n = cs.len();
    let mut pos = p;
    loop
        invariant
            n == cs@.len(),
            pos <= n,
            insts_model(old(acc)@) + p_items(cs@, p as int) == insts_model(acc@) + p_items(
                cs@,
                pos as int,
            ),
        decreases n - pos,
    {
        match item(cs, pos) {
            None => {
                assert(insts_model(acc@) + seq![] =~= insts_model(acc@));
                return;
            },
            Some((e, i)) => {
                let ghost before = insts_model(acc@);
                let ghost rest = p_items(cs@, e as int);
                acc.push(i);
                assert(insts_model(acc@) =~= before.push(i@));
                assert(before + (seq![i@] + rest) =~= insts_model(acc@) + rest);
                pos = e;
            },
        }
    }
}

fn inst_error_exec(cs: &Vec<char>, p: usize) -> (m: String)
    requires
        p <= cs@.len(),
    ensures
        m@ == inst_error(cs@, p as int),
{
    let n = cs.len();
    let o = span_end_exec(cs, p, Class::AlNum);
    let q = if o == p {
        p
    } else if o < n && cs[o] == ' ' {
        args_list(cs, o + 1).0
    } else {
        o
    };
    let rest = string_of_range(cs, q, n);
    let mut m = String::new();
    push_str(&mut m, "Parsing Error: Error { input: ");
    let d = debug_quoted(rest.as_str());
    push_str(&mut m, d.as_str());
    push_str(&mut m, ", code: ");
    if o == p {
        push_str(&mut m, "AlphaNumeric");
    } else {
        push_str(&mut m, "Tag");
    }
    push_str(&mut m, " }");
    m
}

/// Reads instruction text.
pub struct AsmParser;

impl AsmParser {
    /// Reads the instruction that `input` begins with; what follows its
    /// terminating `;` is not read.
    pub fn parse(input: &str) -> (r: Result<Inst, Error>)
        ensures
            r is Ok <==> parse_spec(input@) is Some,
            r matches Ok(i) ==> parse_spec(input@) == Some(i@) && inst_printable(i@),
            r matches Err(e) ==> (e matches Error::Parse(m) && m@ == inst_error(input@, 0)),
    {
        let cs = chars_of(input);
        proof {
            law_parsed_printable(input@);
        }
        match inst(&cs, 0) {
            Some((_, i)) => Ok(i),
            None => Err(Error::Parse(inst_error_exec(&cs, 0))),
        }
    }

    /// Reads the instructions that `input` begins with, each possibly after
    /// one space; at least one must be there.
    pub fn parse_many(input: &str) -> (r: Result<Vec<Inst>, Error>)
        ensures
            r is Ok <==> parse_many_spec(input@) is Some,
            r matches Ok(v) ==> parse_many_spec(input@) == Some(insts_model(v@)),
            r matches Err(e) ==> (e matches Error::Parse(m) && m@ == item_error(input@)),
    {
        let cs = chars_of(input);
        match item(&cs, 0) {
            Some((e, i)) => {
                let mut v: Vec<Inst> = Vec::new();
                v.push(i);
                items(&cs, e, &mut v);
                assert(insts_model(v@) =~= seq![i@] + p_items(cs@, e as int));
                Ok(v)
            },
            None => {
                let start: usize = if cs.len() > 0 && cs[0] == ' ' {
                    1
                } else {
                    0
                };
                Err(Error::Parse(inst_error_exec(&cs, start)))
            },
        }
    }
}


proof fn lemma_arg_printable(s: Seq<char>, p: int)
    ensures
        p_arg(s, p) matches Some((_, a)) ==> arg_printable(a),
{
}

proof fn lemma_args_tail_printable(s: Seq<char>, p: int)
    ensures
        forall|k: int|
            0 <= k < p_args_tail(s, p).1.len() ==> arg_printable(#[trigger] p_args_tail(s, p).1[k]),
    decreases s.len() - p,
{
    if 0 <= p && p + 1 < s.len() && s[p] == ',' && s[p + 1] == ' ' {
        lemma_arg_printable(s, p + 2);
        match p_arg(s, p + 2) {
            Some((e, a)) => if p < e <= s.len() {
                lemma_args_tail_printable(s, e);
                let rest = p_args_tail(s, e).1;
                assert forall|k: int| 0 <= k < p_args_tail(s, p).1.len() implies arg_printable(
                    #[trigger] p_args_tail(s, p).1[k],
                ) by {
                    if k > 0 {
                        assert(p_args_tail(s, p).1[k] == rest[k - 1]);
                    }
                }
            },
            None => {},
        }
    }
}

proof fn lemma_inst_printable(s: Seq<char>, p: int)
    ensures
        p_inst(s, p) matches Some((_, i)) ==> inst_printable(i),
{
    let o = span_end(s, p, Class::AlNum);
    if 0 <= p && o > p && o < s.len() && s[o] == ' ' {
        lemma_arg_printable(s, o + 1);
        match p_arg(s, o + 1) {
            Some((e, a)) => {
                lemma_args_tail_printable(s, e);
                let rest = p_args_tail(s, e).1;
                let all = p_args(s, o + 1).1;
                assert forall|k: int| 0 <= k < all.len() implies arg_printable(#[trigger] all[k]) by {
                    if k > 0 {
                        assert(all[k] == rest[k - 1]);
                    }
                }
            },
            None => {},
        }
    }
}

proof fn lemma_items_printable(s: Seq<char>, p: int)
    ensures
        forall|k: int| 0 <= k < p_items(s, p).len() ==> inst_printable(#[trigger] p_items(s, p)[k]),
    decreases s.len() - p,
{
    lemma_inst_printable(s, p);
    lemma_inst_printable(s, p + 1);
    match p_item(s, p) {
        Some((e, i)) => if p < e <= s.len() {
            lemma_items_printable(s, e);
            let rest = p_items(s, e);
            assert forall|k: int| 0 <= k < p_items(s, p).len() implies inst_printable(
                #[trigger] p_items(s, p)[k],
            ) by {
                if k > 0 {
                    assert(p_items(s, p)[k] == rest[k - 1]);
                }
            }
        },
        None => {},
    }
}

/// Law: every instruction that the parser reads can be rendered as text:
/// none of its memory operands is empty inside the brackets.
pub proof fn law_parsed_printable(s: Seq<char>)
    ensures
        parse_spec(s) matches Some(i) ==> inst_printable(i),
        parse_many_spec(s) matches Some(v) ==> forall|k: int|
            0 <= k < v.len() ==> inst_printable(#[trigger] v[k]),
{
    lemma_inst_printable(s, 0);
    lemma_inst_printable(s, 1);
    match p_item(s, 0) {
        Some((e, i)) => {
            lemma_items_printable(s, e);
            let v = seq![i] + p_items(s, e);
            assert forall|k: int| 0 <= k < v.len() implies inst_printable(#[trigger] v[k]) by {
                if k > 0 {
                    assert(v[k] == p_items(s, e)[k - 1]);
                }
            }
        },
        None => {},
    }
}

} // verus!
