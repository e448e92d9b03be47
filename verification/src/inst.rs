//! The abstract syntax of one disassembled instruction, and its
//! mathematical model.

use vstd::prelude::*;

verus! {

/// One instruction: its mnemonic and, when the text had a space after the
/// mnemonic, its list of operands.
#[derive(Debug)]
pub struct Inst {
    pub op: String,
    pub args: Option<Vec<Arg>>,
}

/// One operand.
#[derive(Debug)]
pub enum Arg {
    Imm(i64),
    Sym(String),
    Reg(String),
    Mem(Addr),
    Expr(String, String),
}

/// The inside of a memory operand: a register, a displacement, or both.
#[derive(Debug)]
pub struct RegShft {
    pub reg: Option<String>,
    pub shft: Option<i64>,
}

/// A memory operand: an optional size word, an optional segment selector
/// and the bracketed address.
#[derive(Debug)]
pub struct Addr {
    pub len: Option<String>,
    pub sel: Option<String>,
    pub value: RegShft,
}

pub enum ArgModel {
    Imm(i64),
    Sym(Seq<char>),
    Reg(Seq<char>),
    Mem(AddrModel),
    Expr(Seq<char>, Seq<char>),
}

pub struct RegShftModel {
    pub reg: Option<Seq<char>>,
    pub shft: Option<i64>,
}

pub struct AddrModel {
    pub len: Option<Seq<char>>,
    pub sel: Option<Seq<char>>,
    pub value: RegShftModel,
}

pub struct InstModel {
    pub op: Seq<char>,
    pub args: Option<Seq<ArgModel>>,
}

pub open spec fn opt_str(o: Option<String>) -> Option<Seq<char>> {
    match o {
        Some(s) => Some(s@),
        None => None,
    }
}

impl View for RegShft {
    type V = RegShftModel;

    open spec fn view(&self) -> RegShftModel {
        RegShftModel { reg: opt_str(self.reg), shft: self.shft }
    }
}

impl View for Addr {
    type V = AddrModel;

    open spec fn view(&self) -> AddrModel {
        AddrModel { len: opt_str(self.len), sel: opt_str(self.sel), value: self.value@ }
    }
}

impl View for Arg {
    type V = ArgModel;

    open spec fn view(&self) -> ArgModel {
        match self {
            Arg::Imm(n) => ArgModel::Imm(*n),
            Arg::Sym(s) => ArgModel::Sym(s@),
            Arg::Reg(s) => ArgModel::Reg(s@),
            Arg::Mem(a) => ArgModel::Mem(a@),
            Arg::Expr(o, a) => ArgModel::Expr(o@, a@),
        }
    }
}

pub open spec fn args_model(v: Seq<Arg>) -> Seq<ArgModel> {
    v.map_values(|a: Arg| a@)
}

impl View for Inst {
    type V = InstModel;

    open spec fn view(&self) -> InstModel {
        InstModel {
            op: self.op@,
            args: match self.args {
                Some(v) => Some(args_model(v@)),
                None => None,
            },
        }
    }
}

} // verus!
