//! Errors of the library.

use vstd::prelude::*;
use crate::hexcodec::HexError;

verus! {

/// Why an instruction could not be read, assembled or compared.
#[derive(Debug)]
pub enum Error {
    /// The text is not an instruction; the message is the text.
    Parse(String),
    /// The instruction has no disassembly.
    Disasm,
    /// Text that should be hexadecimal bytes is not.
    HexDecode(HexError),
}

} // verus!
