//! Locations of a library: its functions and symbols, and the instructions
//! at a location.

use vstd::prelude::*;
use crate::instruction::Asm;

verus! {

/// A function or symbol of a library.
#[derive(Debug, Clone)]
pub struct Loc {
    pub name: String,
    pub realname: Option<String>,
    pub offset: usize,
    pub size: usize,
}

/// A location and its instructions.
#[derive(Debug)]
pub struct LocInfo {
    pub name: String,
    pub addr: usize,
    pub ops: Vec<LocAsm>,
}

/// An instruction at an offset of the library.
#[derive(Debug, Clone)]
pub struct LocAsm {
    pub bytes: Vec<u8>,
    pub disasm: Option<String>,
    pub offset: usize,
    pub size: u8,
}

impl LocAsm {
    /// The instruction without its offset.
    pub fn to_asm(&self) -> (r: Asm)
        ensures
            r.bytes@ == self.bytes@,
            r.disasm == self.disasm,
            r.size == self.size,
    {
        Asm { bytes: self.bytes.clone(), disasm: self.disasm.clone(), size: self.size }
    }

    /// The instruction without its offset.
    pub fn into_asm(self) -> (r: Asm)
        ensures
            r.bytes == self.bytes,
            r.disasm == self.disasm,
            r.size == self.size,
    {
        Asm { bytes: self.bytes, disasm: self.disasm, size: self.size }
    }
}

} // verus!
