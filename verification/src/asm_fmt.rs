//! Text rendering of instructions.

use vstd::prelude::*;
use crate::inst::{Inst, Arg, RegShft, Addr, InstModel, ArgModel, RegShftModel, AddrModel, args_model};
use crate::text::{push_char, push_str, push_hex, push_dec_signed, as_bits, hex_nat, dec_int, bits_u64};

verus! {

/// A memory operand's inside names a register or a displacement.
pub open spec fn shft_printable(r: RegShftModel) -> bool {
    r.reg is Some || r.shft is Some
}

pub open spec fn arg_printable(x: ArgModel) -> bool {
    match x {
        ArgModel::Mem(a) => shft_printable(a.value),
        _ => true,
    }
}

/// Every memory operand of the instruction names a register or a displacement.
pub open spec fn inst_printable(i: InstModel) -> bool {
    match i.args {
        Some(xs) => forall|k: int| 0 <= k < xs.len() ==> arg_printable(#[trigger] xs[k]),
        None => true,
    }
}

pub open spec fn opt_word(o: Option<Seq<char>>, sep: char) -> Seq<char> {
    match o {
        Some(w) => w.push(sep),
        None => seq![],
    }
}

pub open spec fn shft_text(r: RegShftModel) -> Seq<char> {
    match (r.reg, r.shft) {
        (Some(g), Some(n)) => g + seq![' ', '+', ' '] + dec_int(n as int),
        (None, Some(n)) => hex_nat(bits_u64(n)),
        (Some(g), None) => g,
        (None, None) => seq![],
    }
}

pub open spec fn addr_text(a: AddrModel) -> Seq<char> {
    opt_word(a.len, ' ') + opt_word(a.sel, ':') + seq!['['] + shft_text(a.value) + seq![']']
}

pub open spec fn arg_text(x: ArgModel) -> Seq<char> {
    match x {
        ArgModel::Imm(n) => seq!['0', 'x'] + hex_nat(bits_u64(n)),
        ArgModel::Sym(s) => s,
        ArgModel::Reg(s) => s,
        ArgModel::Mem(a) => addr_text(a),
        ArgModel::Expr(o, a) => o + seq![' '] + a,
    }
}

/// Each operand after a space, the operands separated by commas.
pub open spec fn args_text(xs: Seq<ArgModel>) -> Seq<char>
    decreases xs.len(),
{
    if xs.len() == 0 {
        seq![]
    } else {
        args_text(xs.drop_last()) + (if xs.len() > 1 {
            seq![',']
        } else {
            seq![]
        }) + seq![' '] + arg_text(xs.last())
    }
}

pub open spec fn inst_text(i: InstModel) -> Seq<char> {
    match i.args {
        Some(xs) => i.op + args_text(xs),
        None => i.op,
    }
}

fn push_opt_word(out: &mut String, o: &Option<String>, sep: char)
    ensures
        final(out)@ == old(out)@ + opt_word(crate::inst::opt_str(*o), sep),
{
    match o {
        Some(w) => {
            push_str(out, w.as_str());
            push_char(out, sep);
            assert(final(out)@ =~= old(out)@ + w@.push(sep));
        },
        None => {
            assert(out@ =~= old(out)@ + seq![]);
        },
    }
}

impl RegShft {
    pub fn push_text(&self, out: &mut String)
        requires
            shft_printable(self@),
        ensures
            final(out)@ == old(out)@ + shft_text(self@),
    {
        match (&self.reg, &self.shft) {
            (Some(g), Some(n)) => {
                push_str(out, g.as_str());
                push_char(out, ' ');
                push_char(out, '+');
                push_char(out, ' ');
                push_dec_signed(out, *n);
                assert(final(out)@ =~= old(out)@ + shft_text(self@));
            },
            (None, Some(n)) => {
                push_hex(out, as_bits(*n));
            },
            (Some(g), None) => {
                push_str(out, g.as_str());
            },
            (None, None) => {},
        }
    }

    /// The text of a memory operand's inside (`reg + n`, hexadecimal `n`, or `reg`).
    pub fn to_string(&self) -> (s: String)
        requires
            shft_printable(self@),
        ensures
            s@ == shft_text(self@),
    {
        let mut s = String::new();
        self.push_text(&mut s);
        assert(s@ =~= shft_text(self@));
        s
    }
}

impl Addr {
    pub fn push_text(&self, out: &mut String)
        requires
            shft_printable(self.value@),
        ensures
            final(out)@ == old(out)@ + addr_text(self@),
    {
        push_opt_word(out, &self.len, ' ');
        push_opt_word(out, &self.sel, ':');
        push_char(out, '[');
        self.value.push_text(out);
        push_char(out, ']');
        assert(final(out)@ =~= old(out)@ + addr_text(self@));
    }

    /// The text of a memory operand: `[size ][sel:][inside]`.
    pub fn to_string(&self) -> (s: String)
        requires
            shft_printable(self.value@),
        ensures
            s@ == addr_text(self@),
    {
        let mut s = String::new();
        self.push_text(&mut s);
        assert(s@ =~= addr_text(self@));
        s
    }
}

impl Arg {
    pub fn push_text(&self, out: &mut String)
        requires
            arg_printable(self@),
        ensures
            final(out)@ == old(out)@ + arg_text(self@),
    {
        match self {
            Arg::Imm(n) => {
                push_char(out, '0');
                push_char(out, 'x');
                push_hex(out, as_bits(*n));
                assert(final(out)@ =~= old(out)@ + arg_text(self@));
            },
            Arg::Sym(s) => push_str(out, s.as_str()),
            Arg::Reg(s) => push_str(out, s.as_str()),
            Arg::Mem(a) => a.push_text(out),
            Arg::Expr(o, a) => {
                push_str(out, o.as_str());
                push_char(out, ' ');
                push_str(out, a.as_str());
                assert(final(out)@ =~= old(out)@ + arg_text(self@));
            },
        }
    }

    /// The text of an operand; immediates are written `0x` and hexadecimal.
    pub fn to_string(&self) -> (s: String)
        requires
            arg_printable(self@),
        ensures
            s@ == arg_text(self@),
    {
        let mut s = String::new();
        self.push_text(&mut s);
        assert(s@ =~= arg_text(self@));
        s
    }
}

impl Inst {
    /// The text of an instruction: the mnemonic, then each operand after a
    /// space, with commas between operands.
    pub fn to_string(&self) -> (s: String)
        requires
            inst_printable(self@),
        ensures
            s@ == inst_text(self@),
    {
        let mut s = String::new();
        push_str(&mut s, self.op.as_str());
        match &self.args {
            Some(xs) => {
                let ghost m = args_model(xs@);
                assert(self@.args == Some(m));
                assert(inst_printable(self@));
                assert forall|j: int| 0 <= j < m.len() implies arg_printable(#[trigger] m[j]) by {
                    assert(arg_printable(self@.args->Some_0[j]));
                }
                let mut k: usize = 0;
                while k < xs.len()
                    invariant
                        m == args_model(xs@),
                        self.args == Some(*xs),
                        forall|j: int| 0 <= j < m.len() ==> arg_printable(#[trigger] m[j]),
                        k <= xs@.len(),
                        s@ == self.op@ + args_text(m.take(k as int)),
                    decreases xs@.len() - k,
                {
                    if k > 0 {
                        push_char(&mut s, ',');
                    }
                    push_char(&mut s, ' ');
                    assert(arg_printable(m[k as int]));
                    xs[k].push_text(&mut s);
                    assert(m.take(k + 1).drop_last() =~= m.take(k as int));
                    k = k + 1;
                    assert(s@ =~= self.op@ + args_text(m.take(k as int)));
                }
                assert(m.take(xs@.len() as int) =~= m);
            },
            None => {},
        }
        s
    }
}

} // verus!
