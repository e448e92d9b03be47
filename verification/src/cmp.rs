//! Where two instructions differ.

use vstd::prelude::*;
use crate::inst::{Inst, Arg, Addr, InstModel, ArgModel, AddrModel, opt_str, args_model};

verus! {

/// The first difference between two instructions.
#[derive(Debug)]
pub enum InstDiff {
    /// The mnemonics differ.
    Op(String, String),
    /// The operand at this index differs; `None` when one list is shorter
    /// or when an instruction has no operand list.
    Arg(usize, Option<ArgDiff>),
    Same,
}

/// How two differing operands differ.
#[derive(Debug)]
pub enum ArgDiff {
    Imm,
    Reg,
    Mem(MemDiff),
    Type,
}

/// The first difference between two memory operands.
#[derive(Debug)]
pub enum MemDiff {
    Shift(Option<i64>, Option<i64>),
    Reg(Option<String>, Option<String>),
    Len(Option<String>, Option<String>),
}

pub enum MemDiffModel {
    Shift(Option<i64>, Option<i64>),
    Reg(Option<Seq<char>>, Option<Seq<char>>),
    Len(Option<Seq<char>>, Option<Seq<char>>),
}

pub enum ArgDiffModel {
    Imm,
    Reg,
    Mem(MemDiffModel),
    Type,
}

pub enum InstDiffModel {
    Op(Seq<char>, Seq<char>),
    Arg(nat, Option<ArgDiffModel>),
    Same,
}

impl View for MemDiff {
    type V = MemDiffModel;

    open spec fn view(&self) -> MemDiffModel {
        match self {
            MemDiff::Shift(a, b) => MemDiffModel::Shift(*a, *b),
            MemDiff::Reg(a, b) => MemDiffModel::Reg(opt_str(*a), opt_str(*b)),
            MemDiff::Len(a, b) => MemDiffModel::Len(opt_str(*a), opt_str(*b)),
        }
    }
}

impl View for ArgDiff {
    type V = ArgDiffModel;

    open spec fn view(&self) -> ArgDiffModel {
        match self {
            ArgDiff::Imm => ArgDiffModel::Imm,
            ArgDiff::Reg => ArgDiffModel::Reg,
            ArgDiff::Mem(m) => ArgDiffModel::Mem(m@),
            ArgDiff::Type => ArgDiffModel::Type,
        }
    }
}

impl View for InstDiff {
    type V = InstDiffModel;

    open spec fn view(&self) -> InstDiffModel {
        match self {
            InstDiff::Op(a, b) => InstDiffModel::Op(a@, b@),
            InstDiff::Arg(i, d) => InstDiffModel::Arg(
                *i as nat,
                match d {
                    Some(d) => Some(d@),
                    None => None,
                },
            ),
            InstDiff::Same => InstDiffModel::Same,
        }
    }
}

/// Two memory operands differ in size word, register or displacement.
pub open spec fn addr_differs(a: AddrModel, b: AddrModel) -> bool {
    a.len != b.len || a.value.reg != b.value.reg || a.value.shft != b.value.shft
}

pub open spec fn addr_diff_spec(a: AddrModel, b: AddrModel) -> MemDiffModel {
    if a.len != b.len {
        MemDiffModel::Len(a.len, b.len)
    } else if a.value.reg != b.value.reg {
        MemDiffModel::Reg(a.value.reg, b.value.reg)
    } else {
        MemDiffModel::Shift(a.value.shft, b.value.shft)
    }
}

pub open spec fn arg_diff_spec(x: ArgModel, y: ArgModel) -> ArgDiffModel {
    match (x, y) {
        (ArgModel::Imm(_), ArgModel::Reg(_)) => ArgDiffModel::Type,
        (ArgModel::Reg(_), ArgModel::Imm(_)) => ArgDiffModel::Type,
        (ArgModel::Reg(_), ArgModel::Reg(_)) => ArgDiffModel::Reg,
        (ArgModel::Mem(a), ArgModel::Mem(b)) => ArgDiffModel::Mem(addr_diff_spec(a, b)),
        _ => ArgDiffModel::Imm,
    }
}

/// The first index at or after `i` where the operand lists disagree or one ends.
pub open spec fn mismatch(xa: Seq<ArgModel>, xb: Seq<ArgModel>, i: int) -> int
    decreases xa.len() - i,
{
    if 0 <= i < xa.len() && i < xb.len() && xa[i] == xb[i] {
        mismatch(xa, xb, i + 1)
    } else {
        i
    }
}

pub open spec fn inst_diff_spec(a: InstModel, b: InstModel) -> InstDiffModel {
    if a.op != b.op {
        InstDiffModel::Op(a.op, b.op)
    } else {
        match (a.args, b.args) {
            (Some(xa), Some(xb)) => {
                let i = mismatch(xa, xb, 0);
                if i >= xa.len() && i >= xb.len() {
                    InstDiffModel::Same
                } else if i >= xa.len() || i >= xb.len() {
                    InstDiffModel::Arg(i as nat, None)
                } else {
                    InstDiffModel::Arg(i as nat, Some(arg_diff_spec(xa[i], xb[i])))
                }
            },
            _ => InstDiffModel::Arg(0, None),
        }
    }
}

/// The comparison is defined: the first differing operands are not two
/// memory operands that differ in their segment selector alone.
pub open spec fn inst_diff_defined(a: InstModel, b: InstModel) -> bool {
    a.op != b.op || match (a.args, b.args) {
        (Some(xa), Some(xb)) => {
            let i = mismatch(xa, xb, 0);
            i < xa.len() && i < xb.len() ==> match (xa[i], xb[i]) {
                (ArgModel::Mem(x), ArgModel::Mem(y)) => addr_differs(x, y),
                _ => true,
            }
        },
        _ => true,
    }
}

pub proof fn lemma_mismatch(xa: Seq<ArgModel>, xb: Seq<ArgModel>, i: int)
    requires
        0 <= i <= xa.len(),
        i <= xb.len(),
    ensures
        i <= mismatch(xa, xb, i) <= xa.len(),
        mismatch(xa, xb, i) <= xb.len(),
        forall|j: int| i <= j < mismatch(xa, xb, i) ==> xa[j] == xb[j],
    decreases xa.len() - i,
{
    if i < xa.len() && i < xb.len() && xa[i] == xb[i] {
        lemma_mismatch(xa, xb, i + 1);
    }
}

fn opt_string_clone(o: &Option<String>) -> (r: Option<String>)
    ensures
        opt_str(r) == opt_str(*o),
{
    match o {
        Some(s) => Some(s.clone()),
        None => None,
    }
}

fn opt_string_eq(a: &Option<String>, b: &Option<String>) -> (r: bool)
    ensures
        r == (opt_str(*a) == opt_str(*b)),
{
    match (a, b) {
        (Some(x), Some(y)) => *x == *y,
        (None, None) => true,
        _ => false,
    }
}

fn opt_i64_eq(a: &Option<i64>, b: &Option<i64>) -> (r: bool)
    ensures
        r == (*a == *b),
{
    match (a, b) {
        (Some(x), Some(y)) => *x == *y,
        (None, None) => true,
        _ => false,
    }
}

fn addr_eq(a: &Addr, b: &Addr) -> (r: bool)
    ensures
        r == (a@ == b@),
{
    opt_string_eq(&a.len, &b.len) && opt_string_eq(&a.sel, &b.sel) && opt_string_eq(
        &a.value.reg,
        &b.value.reg,
    ) && opt_i64_eq(&a.value.shft, &b.value.shft)
}

fn arg_eq(a: &Arg, b: &Arg) -> (r: bool)
    ensures
        r == (a@ == b@),
{
    match (a, b) {
        (Arg::Imm(x), Arg::Imm(y)) => *x == *y,
        (Arg::Sym(x), Arg::Sym(y)) => *x == *y,
        (Arg::Reg(x), Arg::Reg(y)) => *x == *y,
        (Arg::Mem(x), Arg::Mem(y)) => addr_eq(x, y),
        (Arg::Expr(o1, a1), Arg::Expr(o2, a2)) => *o1 == *o2 && *a1 == *a2,
        _ => false,
    }
}

impl Addr {
    /// The first field in which two memory operands differ: size word, then
    /// register, then displacement.
    pub fn diff(&self, b: &Self) -> (r: MemDiff)
        requires
            addr_differs(self@, b@),
        ensures
            r@ == addr_diff_spec(self@, b@),
    {
        if !opt_string_eq(&self.len, &b.len) {
            return MemDiff::Len(opt_string_clone(&self.len), opt_string_clone(&b.len));
        }
        if !opt_string_eq(&self.value.reg, &b.value.reg) {
            return MemDiff::Reg(opt_string_clone(&self.value.reg), opt_string_clone(&b.value.reg));
        }
        MemDiff::Shift(self.value.shft, b.value.shft)
    }
}

/// Law: two differing operands are told apart by kind: an immediate
/// against a register (either way round) is a type difference, two
/// registers a register difference, two memory operands a memory
/// difference, and anything else an immediate difference; in particular a
/// type difference does not depend on the order of the operands.
pub proof fn law_arg_diff_kinds(x: ArgModel, y: ArgModel)
    ensures
        arg_diff_spec(x, y) is Type <==> ((x is Imm && y is Reg) || (x is Reg && y is Imm)),
        arg_diff_spec(x, y) is Reg <==> (x is Reg && y is Reg),
        arg_diff_spec(x, y) is Mem <==> (x is Mem && y is Mem),
        arg_diff_spec(x, y) is Imm <==> !((x is Imm && y is Reg) || (x is Reg && y is Imm) || (x is Reg
            && y is Reg) || (x is Mem && y is Mem)),
        arg_diff_spec(x, y) is Type <==> arg_diff_spec(y, x) is Type,
{
}

fn arg_diff(x: &Arg, y: &Arg) -> (r: ArgDiff)
    requires
        (x@, y@) matches (ArgModel::Mem(a), ArgModel::Mem(b)) ==> addr_differs(a, b),
    ensures
        r@ == arg_diff_spec(x@, y@),
        r is Type <==> ((x is Imm && y is Reg) || (x is Reg && y is Imm)),
{
    proof {
        law_arg_diff_kinds(x@, y@);
    }
    match (x, y) {
        (Arg::Imm(_), Arg::Reg(_)) => ArgDiff::Type,
        (Arg::Reg(_), Arg::Imm(_)) => ArgDiff::Type,
        (Arg::Reg(_), Arg::Reg(_)) => ArgDiff::Reg,
        (Arg::Mem(a), Arg::Mem(b)) => ArgDiff::Mem(a.diff(b)),
        _ => ArgDiff::Imm,
    }
}

impl Inst {
    /// The first difference between two instructions: the mnemonic, then
    /// the first operand that differs.
    pub fn diff(&self, b: &Self) -> (r: InstDiff)
        requires
            inst_diff_defined(self@, b@),
        ensures
            r@ == inst_diff_spec(self@, b@),
    {
        if self.op != b.op {
            return InstDiff::Op(self.op.clone(), b.op.clone());
        }
        match (&self.args, &b.args) {
            (Some(xa), Some(xb)) => {
                let ghost ma = args_model(xa@);
                let ghost mb = args_model(xb@);
                proof {
                    lemma_mismatch(ma, mb, 0);
                }
                let mut i: usize = 0;
                while i < xa.len() && i < xb.len() && arg_eq(&xa[i], &xb[i])
                    invariant
                        ma == args_model(xa@),
                        mb == args_model(xb@),
                        i <= xa@.len(),
                        i <= xb@.len(),
                        mismatch(ma, mb, i as int) == mismatch(ma, mb, 0),
                    decreases xa@.len() - i,
                {
                    i = i + 1;
                }
                if i == xa.len() && i == xb.len() {
                    InstDiff::Same
                } else if i == xa.len() || i == xb.len() {
                    InstDiff::Arg(i, None)
                } else {
                    InstDiff::Arg(i, Some(arg_diff(&xa[i], &xb[i])))
                }
            },
            _ => InstDiff::Arg(0, None),
        }
    }
}


proof fn lemma_mismatch_self(xa: Seq<ArgModel>, i: int)
    requires
        0 <= i <= xa.len(),
    ensures
        mismatch(xa, xa, i) == xa.len(),
    decreases xa.len() - i,
{
    if i < xa.len() {
        lemma_mismatch_self(xa, i + 1);
    }
}

/// Law: an instruction with an operand list compares as the same as itself.
/// (Without an operand list the comparison reports operand 0, as in `ret`
/// against `ret`.)
pub proof fn law_diff_self(a: InstModel)
    requires
        a.args is Some,
    ensures
        inst_diff_defined(a, a),
        inst_diff_spec(a, a) == InstDiffModel::Same,
{
    lemma_mismatch_self(a.args->Some_0, 0);
}

} // verus!
