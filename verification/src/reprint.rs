//! Reading back the text of an instruction: an instruction in canonical
//! form, printed, reads back as itself.

use vstd::prelude::*;
use crate::inst::{InstModel, ArgModel, AddrModel, RegShftModel};
use crate::parser::{
    Class, in_class, is_alpha, is_digit, is_hex, span_end, hex_value, dec_value, wrap_i64, i128_max,
    p_hex, p_dec, p_num, p_imm, p_mem, p_exp, p_reg, p_arg, p_shft, p_args_tail, p_args, p_inst,
    p_item, p_items, parse_spec, parse_many_spec,
};
use crate::asm_fmt::{arg_text, args_text, inst_text, shft_text, opt_word};
use crate::text::{hex_nat, dec_nat, dec_int, bits_u64};
use crate::injector::lemma_hex_nat_value;

verus! {

/// A non-empty word of characters of class `k`.
pub open spec fn word(w: Seq<char>, k: Class) -> bool {
    w.len() > 0 && forall|i: int| 0 <= i < w.len() ==> in_class(#[trigger] w[i], k)
}

/// An operand in the form the reader reads back: an immediate; a register
/// that starts with a letter; or a memory operand with a register of letters
/// and optionally a non-negative displacement, and an optional size and
/// selector of letters.
pub open spec fn canonical_arg(x: ArgModel) -> bool {
    match x {
        ArgModel::Imm(_) => true,
        ArgModel::Reg(r) => word(r, Class::AlNum) && is_alpha(r[0]),
        ArgModel::Mem(a) => {
            &&& (a.len is Some ==> word(a.len->Some_0, Class::Alpha))
            &&& (a.sel is Some ==> word(a.sel->Some_0, Class::Alpha))
            &&& a.value.reg is Some
            &&& word(a.value.reg->Some_0, Class::Alpha)
            &&& (a.value.shft is Some ==> a.value.shft->Some_0 >= 0)
        },
        _ => false,
    }
}

/// An instruction in canonical form: a mnemonic of letters and digits, and
/// either no operand list or a non-empty list of canonical operands.
pub open spec fn canonical_inst(i: InstModel) -> bool {
    &&& word(i.op, Class::AlNum)
    &&& (i.args is Some ==> i.args->Some_0.len() > 0 && forall|k: int|
        0 <= k < i.args->Some_0.len() ==> canonical_arg(#[trigger] i.args->Some_0[k]))
}

/// `s` holds `w` from `p` on.
pub open spec fn placed(s: Seq<char>, p: int, w: Seq<char>) -> bool {
    0 <= p && p + w.len() <= s.len() && s.subrange(p, p + w.len()) == w
}

proof fn lemma_placed(s: Seq<char>, p: int, w: Seq<char>)
    requires
        placed(s, p, w),
    ensures
        forall|j: int| p <= j < p + w.len() ==> #[trigger] s[j] == w[j - p],
{
    assert forall|j: int| p <= j < p + w.len() implies #[trigger] s[j] == w[j - p] by {
        assert(s.subrange(p, p + w.len())[j - p] == s[j]);
    }
}

proof fn lemma_placed_split(s: Seq<char>, p: int, a: Seq<char>, b: Seq<char>)
    requires
        placed(s, p, a + b),
    ensures
        placed(s, p, a),
        placed(s, p + a.len(), b),
{
    lemma_placed(s, p, a + b);
    assert(s.subrange(p, p + a.len()) =~= a) by {
        assert forall|j: int| 0 <= j < a.len() implies s.subrange(p, p + a.len())[j] == a[j] by {
            assert((a + b)[j] == a[j]);
        }
    }
    assert(s.subrange(p + a.len(), p + a.len() + b.len()) =~= b) by {
        assert forall|j: int| 0 <= j < b.len() implies s.subrange(
            p + a.len(),
            p + a.len() + b.len(),
        )[j] == b[j] by {
            assert((a + b)[a.len() + j] == b[j]);
        }
    }
}

proof fn lemma_span_at(s: Seq<char>, p: int, e: int, k: Class)
    requires
        0 <= p <= e <= s.len(),
        forall|i: int| p <= i < e ==> in_class(#[trigger] s[i], k),
        e == s.len() || !in_class(s[e], k),
    ensures
        span_end(s, p, k) == e,
    decreases e - p,
{
    if p < e {
        lemma_span_at(s, p + 1, e, k);
    }
}

/// A word of class `k` placed at `p` and followed by a character outside
/// the class (or the end) is exactly the run that starts there.
proof fn lemma_word_span(s: Seq<char>, p: int, w: Seq<char>, k: Class)
    requires
        placed(s, p, w),
        forall|i: int| 0 <= i < w.len() ==> in_class(#[trigger] w[i], k),
        p + w.len() == s.len() || !in_class(s[p + w.len()], k),
    ensures
        span_end(s, p, k) == p + w.len(),
        s.subrange(p, p + w.len()) == w,
{
    lemma_placed(s, p, w);
    assert forall|i: int| p <= i < p + w.len() implies in_class(#[trigger] s[i], k) by {
        assert(s[i] == w[i - p]);
    }
    lemma_span_at(s, p, p + w.len(), k);
}

proof fn lemma_hex_region(s: Seq<char>, p: int, q: int, w: Seq<char>)
    requires
        0 <= p <= q <= s.len(),
        q - p <= w.len(),
        forall|j: int| p <= j < q ==> #[trigger] s[j] == w[j - p],
    ensures
        hex_value(s, p, q) == hex_value(w, 0, q - p),
    decreases q - p,
{
    if q > p {
        lemma_hex_region(s, p, q - 1, w);
        assert(s[q - 1] == w[q - 1 - p]);
    }
}

proof fn lemma_dec_region(s: Seq<char>, p: int, q: int, w: Seq<char>)
    requires
        0 <= p <= q <= s.len(),
        q - p <= w.len(),
        forall|j: int| p <= j < q ==> #[trigger] s[j] == w[j - p],
    ensures
        dec_value(s, p, q) == dec_value(w, 0, q - p),
    decreases q - p,
{
    if q > p {
        lemma_dec_region(s, p, q - 1, w);
        assert(s[q - 1] == w[q - 1 - p]);
    }
}

proof fn lemma_dec_nat(n: nat)
    ensures
        dec_nat(n).len() > 0,
        forall|j: int| 0 <= j < dec_nat(n).len() ==> is_digit(#[trigger] dec_nat(n)[j]),
        dec_value(dec_nat(n), 0, dec_nat(n).len() as int) == n,
    decreases n,
{
    let t = dec_nat(n);
    if n >= 10 {
        lemma_dec_nat(n / 10);
        let s = dec_nat(n / 10);
        let c = ((n % 10) + 48) as char;
        assert(t == s.push(c));
        lemma_dec_region(t, 0, s.len() as int, s);
        let last = t[s.len() as int];
        assert(dec_value(t, 0, t.len() as int) == dec_value(t, 0, s.len() as int) * 10 + (last as int
            - 48));
        assert forall|j: int| 0 <= j < t.len() implies is_digit(#[trigger] t[j]) by {
            if j < s.len() {
                assert(t[j] == s[j]);
            }
        }
        assert((n / 10) * 10 + n % 10 == n);
    } else {
        assert(t == seq![(n + 48) as char]);
        assert(dec_value(t, 0, 0) == 0);
        assert(dec_value(t, 0, 1) == dec_value(t, 0, 0) * 10 + (t[0] as int - 48));
    }
}

proof fn lemma_wrap_bits(n: i64)
    ensures
        0 <= bits_u64(n) < 0x1_0000_0000_0000_0000,
        wrap_i64(bits_u64(n) as int) == n,
{
    let v = bits_u64(n);
    vstd::arithmetic::div_mod::lemma_small_mod(v, 0x1_0000_0000_0000_0000);
}

proof fn lemma_shft(s: Seq<char>, q: int, r: RegShftModel)
    requires
        r.reg is Some,
        word(r.reg->Some_0, Class::Alpha),
        r.shft is Some ==> r.shft->Some_0 >= 0,
        placed(s, q, shft_text(r) + seq![']']),
    ensures
        p_shft(s, q) == Some((q + shft_text(r).len(), r)),
{
    let g = r.reg->Some_0;
    let v = shft_text(r);
    let ev = q + v.len();
    lemma_placed_split(s, q, v, seq![']']);
    lemma_placed(s, ev, seq![']']);
    assert(s[ev] == ']');
    lemma_placed(s, q, v);
    let a2 = span_end(s, q, Class::Alpha);
    if r.shft is Some {
        let n = r.shft->Some_0;
        let d = dec_nat(n as nat);
        lemma_dec_nat(n as nat);
        assert(v == g + seq![' ', '+', ' '] + d);
        lemma_placed_split(s, q, g + seq![' ', '+', ' '], d);
        lemma_placed_split(s, q, g, seq![' ', '+', ' ']);
        lemma_placed(s, q + g.len(), seq![' ', '+', ' ']);
        lemma_word_span(s, q, g, Class::Alpha);
        assert(a2 == q + g.len());
        assert(s[a2] == ' ' && s[a2 + 1] == '+' && s[a2 + 2] == ' ');
        let c = a2 + 3;
        lemma_placed(s, c, d);
        lemma_word_span(s, c, d, Class::Digit);
        assert(s[c + 1] != 'x') by {
            if d.len() > 1 {
                assert(s[c + 1] == d[1]);
            }
        }
        assert(p_hex(s, c) is None);
        lemma_dec_region(s, c, ev, d);
        assert(dec_value(s, c, ev) == n);
        assert(p_num(s, c) == Some((ev, n)));
        assert(s.subrange(q, a2) == g);
        assert(p_shft(s, q) == Some((ev, RegShftModel { reg: Some(g), shft: Some(n) })));
    } else {
        assert(v == g);
        lemma_word_span(s, q, g, Class::Alpha);
        assert(a2 == ev);
        assert(s[q] == g[0]);
        lemma_span_at(s, q, q, Class::Digit);
        assert(p_hex(s, q) is None);
        assert(p_num(s, q) is None);
        assert(p_shft(s, q) == Some((ev, RegShftModel { reg: Some(g), shft: None })));
    }
}

/// An optional word of letters and its separator, placed at `p` in front of
/// more text: when the word is there, the run of letters at `p` is it,
/// followed by the separator.
proof fn lemma_front(s: Seq<char>, p: int, opt: Option<Seq<char>>, sep: char, rest: Seq<char>)
    requires
        opt is Some ==> word(opt->Some_0, Class::Alpha),
        placed(s, p, opt_word(opt, sep) + rest),
        rest.len() > 0,
        !is_alpha(sep),
    ensures
        opt is Some ==> {
            &&& span_end(s, p, Class::Alpha) == p + opt->Some_0.len()
            &&& span_end(s, p, Class::Alpha) < s.len()
            &&& s[span_end(s, p, Class::Alpha)] == sep
            &&& s.subrange(p, span_end(s, p, Class::Alpha)) == opt->Some_0
            &&& s[p] == opt->Some_0[0]
        },
        opt is None ==> s[p] == rest[0],
        opt_word(opt, sep).len() == if opt is Some { opt->Some_0.len() + 1 } else { 0 },
{
    lemma_placed_split(s, p, opt_word(opt, sep), rest);
    lemma_placed(s, p + opt_word(opt, sep).len(), rest);
    if opt is Some {
        let w = opt->Some_0;
        assert(opt_word(opt, sep) =~= w + seq![sep]);
        lemma_placed_split(s, p, w, seq![sep]);
        lemma_placed(s, p + w.len(), seq![sep]);
        lemma_placed(s, p, w);
        assert(s[p] == w[0]);
        lemma_word_span(s, p, w, Class::Alpha);
    } else {
        assert(opt_word(opt, sep) =~= Seq::<char>::empty());
    }
}

proof fn lemma_mem(s: Seq<char>, p: int, a: AddrModel)
    requires
        canonical_arg(ArgModel::Mem(a)),
        arg_at(s, p, arg_text(ArgModel::Mem(a))),
    ensures
        p_arg(s, p) == Some((p + arg_text(ArgModel::Mem(a)).len(), ArgModel::Mem(a))),
{
    let t = arg_text(ArgModel::Mem(a));
    let lw = opt_word(a.len, ' ');
    let sw = opt_word(a.sel, ':');
    let v = shft_text(a.value);
    let tail = seq!['['] + v + seq![']'];
    assert(t =~= lw + (sw + tail));
    assert(t =~= lw + sw + seq!['['] + (v + seq![']']));
    let p1 = p + lw.len();
    let p2 = p1 + sw.len();
    let e = p + t.len();
    lemma_placed_split(s, p, lw, sw + tail);
    lemma_placed_split(s, p, lw + sw + seq!['['], v + seq![']']);
    lemma_front(s, p1, a.sel, ':', tail);
    lemma_front(s, p, a.len, ' ', sw + tail);
    assert(s[p2] == '[') by {
        lemma_placed_split(s, p1, sw, tail);
        lemma_placed(s, p2, tail);
    }
    lemma_shft(s, p2 + 1, a.value);
    let ev = p2 + 1 + v.len();
    assert(e == ev + 1);
    assert(s[ev] == ']') by {
        lemma_placed_split(s, p2 + 1, v, seq![']']);
        lemma_placed(s, ev, seq![']']);
    }
    if a.sel is None {
        lemma_span_at(s, p1, p1, Class::Alpha);
    }
    if a.len is None {
        assert(p1 == p);
    }
    assert(s[p] == '[' || is_alpha(s[p]));
    lemma_span_at(s, p, p, Class::Digit);
    assert(p_hex(s, p) is None);
    assert(p_imm(s, p) is None);
    assert(p_mem(s, p) == Some((e, ArgModel::Mem(a))));
}

/// The text `t` of an operand stands at `p`, and is followed by the end of
/// the text or by a comma.
pub open spec fn arg_at(s: Seq<char>, p: int, t: Seq<char>) -> bool {
    &&& placed(s, p, t)
    &&& (p + t.len() == s.len() || s[p + t.len()] == ',')
}

proof fn lemma_imm(s: Seq<char>, p: int, n: i64)
    requires
        arg_at(s, p, arg_text(ArgModel::Imm(n))),
    ensures
        p_arg(s, p) == Some((p + arg_text(ArgModel::Imm(n)).len(), ArgModel::Imm(n))),
{
    let v = bits_u64(n);
    let h = hex_nat(v);
    let t = arg_text(ArgModel::Imm(n));
    let e = p + t.len();
    lemma_hex_nat_value(v);
    lemma_wrap_bits(n);
    assert(t == seq!['0', 'x'] + h);
    lemma_placed_split(s, p, seq!['0', 'x'], h);
    lemma_placed(s, p, seq!['0', 'x']);
    lemma_word_span(s, p + 2, h, Class::Hex);
    lemma_placed(s, p + 2, h);
    lemma_hex_region(s, p + 2, e, h);
    assert(hex_value(s, p + 2, e) == v);
    assert(p_hex(s, p) == Some((e, n)));
}

proof fn lemma_reg(s: Seq<char>, p: int, r: Seq<char>)
    requires
        word(r, Class::AlNum),
        is_alpha(r[0]),
        arg_at(s, p, r),
    ensures
        p_arg(s, p) == Some((p + r.len(), ArgModel::Reg(r))),
{
    let e = p + r.len();
    lemma_placed(s, p, r);
    assert(s[p] == r[0]);
    lemma_span_at(s, p, p, Class::Digit);
    assert(p_hex(s, p) is None);
    assert(p_dec(s, p) is None);
    assert(p_imm(s, p) is None);
    let a = span_end(s, p, Class::Alpha);
    crate::parser::lemma_span_end(s, p, Class::Alpha);
    assert(a <= e) by {
        if a > e {
            assert(in_class(s[e], Class::Alpha));
        }
    }
    assert(a == s.len() || s[a] != ' ') by {
        if a < e {
            assert(s[a] == r[a - p]);
        }
    }
    assert(a == s.len() || s[a] != ':') by {
        if a < e {
            assert(s[a] == r[a - p]);
        }
    }
    assert(p_mem(s, p) is None);
    assert(p_exp(s, p) is None);
    lemma_word_span(s, p, r, Class::AlNum);
    assert(p_reg(s, p) == Some((e, ArgModel::Reg(r))));
}

proof fn lemma_arg(s: Seq<char>, p: int, x: ArgModel)
    requires
        canonical_arg(x),
        arg_at(s, p, arg_text(x)),
    ensures
        p_arg(s, p) == Some((p + arg_text(x).len(), x)),
        arg_text(x).len() > 0,
{
    match x {
        ArgModel::Imm(n) => {
            lemma_imm(s, p, n);
        },
        ArgModel::Reg(r) => {
            lemma_reg(s, p, r);
        },
        ArgModel::Mem(a) => {
            lemma_mem(s, p, a);
        },
        _ => {},
    }
}

/// The operands from the `k`-th on, each after `", "`.
pub open spec fn tail_text(xs: Seq<ArgModel>, k: int) -> Seq<char>
    decreases xs.len() - k,
{
    if k < 0 || k >= xs.len() {
        seq![]
    } else {
        seq![',', ' '] + arg_text(xs[k]) + tail_text(xs, k + 1)
    }
}

proof fn lemma_tail(s: Seq<char>, p: int, xs: Seq<ArgModel>, k: int)
    requires
        0 <= k <= xs.len(),
        forall|j: int| 0 <= j < xs.len() ==> canonical_arg(#[trigger] xs[j]),
        placed(s, p, tail_text(xs, k)),
        p + tail_text(xs, k).len() == s.len(),
    ensures
        p_args_tail(s, p) == (s.len() as int, xs.subrange(k, xs.len() as int)),
    decreases xs.len() - k,
{
    if k == xs.len() {
        assert(xs.subrange(k, xs.len() as int) =~= Seq::<ArgModel>::empty());
    } else {
        let a = arg_text(xs[k]);
        let rest = tail_text(xs, k + 1);
        let sep = seq![',', ' '];
        assert(tail_text(xs, k) == sep + a + rest);
        lemma_placed_split(s, p, sep + a, rest);
        lemma_placed_split(s, p, sep, a);
        lemma_placed(s, p, sep);
        let e = p + 2 + a.len();
        if k + 1 < xs.len() {
            assert(rest == seq![',', ' '] + arg_text(xs[k + 1]) + tail_text(xs, k + 2));
            lemma_placed(s, e, rest);
            assert(s[e] == rest[0]);
        }
        lemma_arg(s, p + 2, xs[k]);
        lemma_tail(s, e, xs, k + 1);
        assert(seq![xs[k]] + xs.subrange(k + 1, xs.len() as int) =~= xs.subrange(k, xs.len() as int));
    }
}

proof fn lemma_tail_push(ys: Seq<ArgModel>, z: ArgModel, k: int)
    requires
        1 <= k <= ys.len(),
    ensures
        tail_text(ys.push(z), k) == tail_text(ys, k) + seq![',', ' '] + arg_text(z),
    decreases ys.len() - k,
{
    let xs = ys.push(z);
    if k == ys.len() {
        assert(tail_text(xs, k + 1) == Seq::<char>::empty());
        assert(tail_text(ys, k) == Seq::<char>::empty());
        assert(tail_text(xs, k) =~= tail_text(ys, k) + seq![',', ' '] + arg_text(z));
    } else {
        lemma_tail_push(ys, z, k + 1);
        assert(xs[k] == ys[k]);
        assert(tail_text(xs, k) =~= tail_text(ys, k) + seq![',', ' '] + arg_text(z));
    }
}

proof fn lemma_args_text(xs: Seq<ArgModel>)
    requires
        xs.len() > 0,
    ensures
        args_text(xs) == seq![' '] + arg_text(xs[0]) + tail_text(xs, 1),
    decreases xs.len(),
{
    if xs.len() == 1 {
        assert(xs.drop_last() =~= Seq::<ArgModel>::empty());
        assert(args_text(xs.drop_last()) == Seq::<char>::empty());
        assert(xs.last() == xs[0]);
        assert(args_text(xs) == args_text(xs.drop_last()) + seq![' '] + arg_text(xs[0]));
        assert(tail_text(xs, 1) == Seq::<char>::empty());
        assert(args_text(xs) =~= seq![' '] + arg_text(xs[0]) + tail_text(xs, 1));
    } else {
        let ys = xs.drop_last();
        let z = xs.last();
        lemma_args_text(ys);
        assert(args_text(xs) == args_text(ys) + seq![','] + seq![' '] + arg_text(z));
        assert(xs =~= ys.push(z));
        lemma_tail_push(ys, z, 1);
        assert(ys[0] == xs[0]);
        assert(args_text(xs) =~= seq![' '] + arg_text(xs[0]) + tail_text(xs, 1));
    }
}

proof fn lemma_args_at(s: Seq<char>, o: int, xs: Seq<ArgModel>)
    requires
        xs.len() > 0,
        forall|k: int| 0 <= k < xs.len() ==> canonical_arg(#[trigger] xs[k]),
        placed(s, o, args_text(xs)),
        o + args_text(xs).len() == s.len(),
    ensures
        s[o] == ' ',
        p_args(s, o + 1) == (s.len() as int, xs),
{
    lemma_args_text(xs);
    let a0 = arg_text(xs[0]);
    let tail = tail_text(xs, 1);
    lemma_placed_split(s, o, seq![' '] + a0, tail);
    lemma_placed_split(s, o, seq![' '], a0);
    lemma_placed(s, o, seq![' ']);
    let e0 = o + 1 + a0.len();
    if xs.len() > 1 {
        assert(tail == seq![',', ' '] + arg_text(xs[1]) + tail_text(xs, 2));
        lemma_placed(s, e0, tail);
        assert(s[e0] == tail[0]);
    }
    lemma_arg(s, o + 1, xs[0]);
    lemma_tail(s, e0, xs, 1);
    assert(seq![xs[0]] + xs.subrange(1, xs.len() as int) =~= xs);
}

proof fn lemma_nothing_after(s: Seq<char>)
    ensures
        p_items(s, s.len() as int) == Seq::<InstModel>::empty(),
{
    let n = s.len() as int;
    assert(span_end(s, n, Class::AlNum) == n);
    assert(p_inst(s, n) is None);
    assert(p_item(s, n) is None);
}

/// Law: an instruction in canonical form, printed, reads back as itself,
/// both alone and as a list of instructions.
pub proof fn law_print_parse(i: InstModel)
    requires
        canonical_inst(i),
    ensures
        parse_spec(inst_text(i)) == Some(i),
        parse_many_spec(inst_text(i)) == Some(seq![i]),
{
    let s = inst_text(i);
    let n = s.len() as int;
    let o = i.op.len() as int;
    assert(s.subrange(0, n) =~= s);
    match i.args {
        None => {
            assert(s == i.op);
            lemma_word_span(s, 0, i.op, Class::AlNum);
        },
        Some(xs) => {
            assert(s == i.op + args_text(xs));
            lemma_placed_split(s, 0, i.op, args_text(xs));
            lemma_args_at(s, o, xs);
            lemma_word_span(s, 0, i.op, Class::AlNum);
        },
    }
    assert(p_inst(s, 0) == Some((n, i)));
    assert(s[0] == i.op[0]) by {
        lemma_placed(s, 0, i.op);
    }
    assert(p_item(s, 0) == p_inst(s, 0));
    lemma_nothing_after(s);
    assert(seq![i] + p_items(s, n) =~= seq![i]);
}

} // verus!
