//! What the disassembler reports about a binary.

use vstd::prelude::*;
use vstd::string::*;

verus! {

#[derive(Debug, Clone)]
pub struct BinaryInfo {
    pub core: CoreInfo,
    pub bin: BinInfo,
}

#[derive(Debug, Clone)]
pub struct CoreInfo {
    pub file: String,
    pub size: usize,
    pub format: String,
}

#[derive(Debug, Clone)]
pub struct BinInfo {
    pub arch: String,
    pub bits: u8,
    pub os: String,
    pub endian: String,
}

impl Default for CoreInfo {
    fn default() -> (r: Self)
        ensures
            r.file@ == Seq::<char>::empty(),
            r.size == 0,
            r.format@ == Seq::<char>::empty(),
    {
        CoreInfo { file: String::new(), size: 0, format: String::new() }
    }
}

impl Default for BinInfo {
    fn default() -> (r: Self)
        ensures
            r.arch@ == "arm"@,
            r.bits == 64,
            r.os@ == "linux"@,
            r.endian@ == "big"@,
    {
        BinInfo {
            arch: String::from_str("arm"),
            bits: 64,
            os: String::from_str("linux"),
            endian: String::from_str("big"),
        }
    }
}

impl Default for BinaryInfo {
    fn default() -> (r: Self)
        ensures
            r.core.file@ == Seq::<char>::empty(),
            r.core.size == 0,
            r.core.format@ == Seq::<char>::empty(),
            r.bin.arch@ == "arm"@,
            r.bin.bits == 64,
            r.bin.os@ == "linux"@,
            r.bin.endian@ == "big"@,
    {
        BinaryInfo { core: CoreInfo::default(), bin: BinInfo::default() }
    }
}

} // verus!
