//! Fault-injection tooling for dynamic libraries: an instruction parser and
//! comparator, bit-level fault models, and the bookkeeping that classifies
//! the effects of injected faults.

pub mod text;
pub mod error;
pub mod inst;
pub mod parser;
pub mod cmp;
pub mod asm_fmt;
pub mod binary;
pub mod config;
pub mod hexcodec;
pub mod instruction;
pub mod tag;
pub mod mutator;
pub mod bitflip;
pub mod stuck;
pub mod fields;
pub mod loc;
pub mod injector;
pub mod metric;
pub mod analyze;
pub mod effect;
pub mod dc;
pub mod dsa;
pub mod reprint;
