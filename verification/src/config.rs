//! Settings: the target architecture, where data is kept, and which
//! symbols of a library are of interest.

use vstd::prelude::*;
use vstd::string::*;
use crate::binary::BinaryInfo;
use crate::text::{push_str, push_char, push_dec, dec_nat, str_contains, seq_contains};

verus! {

/// An architecture name and word size, written `arch-bits`.
#[derive(Debug, Clone, PartialEq, Eq)]
pub struct Arch {
    pub arch: String,
    pub bits: u8,
}

impl Default for Arch {
    fn default() -> (r: Self)
        ensures
            r.arch@ == "arm"@,
            r.bits == 64,
    {
        Arch { arch: String::from_str("arm"), bits: 64 }
    }
}

pub open spec fn arch_text(arch: Seq<char>, bits: u8) -> Seq<char> {
    arch.push('-') + dec_nat(bits as nat)
}

impl Arch {
    pub fn push_text(&self, out: &mut String)
        ensures
            final(out)@ == old(out)@ + arch_text(self.arch@, self.bits),
    {
        push_str(out, self.arch.as_str());
        push_char(out, '-');
        push_dec(out, self.bits as u64);
        assert(final(out)@ =~= old(out)@ + arch_text(self.arch@, self.bits));
    }

    /// `arch-bits`, as in `arm-64`.
    pub fn to_string(&self) -> (s: String)
        ensures
            s@ == arch_text(self.arch@, self.bits),
    {
        let mut s = String::new();
        self.push_text(&mut s);
        assert(s@ =~= arch_text(self.arch@, self.bits));
        s
    }

    /// Equal name and word size.
    pub fn same(&self, other: &Arch) -> (r: bool)
        ensures
            r == (self.arch@ == other.arch@ && self.bits == other.bits),
    {
        self.arch == other.arch && self.bits == other.bits
    }
}

#[derive(Debug, Clone)]
pub struct Config {
    pub arch: Arch,
    pub os: String,
    pub db_path: String,
    pub rz_path: String,
    pub binary_info: BinaryInfo,
}

impl Default for Config {
    fn default() -> (r: Self)
        ensures
            r.arch.arch@ == "arm"@,
            r.arch.bits == 64,
            r.os@ == "linux"@,
            r.db_path@ == "data/stalker"@,
            r.rz_path@ == "data/stalker/rizin"@,
            r.binary_info.bin.arch@ == "arm"@,
            r.binary_info.bin.bits == 64,
            r.binary_info.core.size == 0,
    {
        Config {
            arch: Arch::default(),
            os: String::from_str("linux"),
            db_path: String::from_str("data/stalker"),
            rz_path: String::from_str("data/stalker/rizin"),
            binary_info: BinaryInfo::default(),
        }
    }
}

impl Config {
    /// The configuration after the disassembler has described the binary:
    /// the architecture becomes the binary's, and the description is kept;
    /// everything else is unchanged.
    pub fn with_binary_info(self, binary_info: BinaryInfo) -> (r: Config)
        ensures
            r.arch.arch@ == binary_info.bin.arch@,
            r.arch.bits == binary_info.bin.bits,
            r.binary_info == binary_info,
            r.os == self.os,
            r.db_path == self.db_path,
            r.rz_path == self.rz_path,
    {
        let arch = Arch { arch: binary_info.bin.arch.clone(), bits: binary_info.bin.bits };
        Config { arch, binary_info, ..self }
    }
}

impl Config {
    /// The configuration that keeps its data under `data_path`: the
    /// database there and the disassembler's saved state in its `rizin`
    /// directory; everything else is unchanged.
    pub fn with_data_path(self, data_path: &str) -> (r: Config)
        ensures
            r.db_path@ == data_path@,
            r.rz_path@ == data_path@ + "/rizin"@,
            r.arch == self.arch,
            r.os == self.os,
            r.binary_info == self.binary_info,
    {
        let mut rz_path = String::new();
        push_str(&mut rz_path, data_path);
        push_str(&mut rz_path, "/rizin");
        let mut db_path = String::new();
        push_str(&mut db_path, data_path);
        Config { rz_path, db_path, ..self }
    }
}

/// A library to inject faults into, and which of its symbols to target.
#[derive(Debug, Clone, PartialEq, Eq)]
pub struct LibConfig {
    pub path: String,
    pub link_name: String,
    pub syms: Vec<SymConfig>,
}

/// Selects symbols: those whose lower-cased name contains a word, or those
/// with one of the listed names.
#[derive(Debug, Clone, PartialEq, Eq)]
pub enum SymConfig {
    Filter(String),
    Matches(Vec<String>),
}

impl Default for SymConfig {
    fn default() -> (r: Self)
        ensures
            r matches SymConfig::Filter(t) && t@ == "aes"@,
    {
        SymConfig::Filter(String::from_str("aes"))
    }
}

impl Default for LibConfig {
    fn default() -> (r: Self)
        ensures
            r.path@ == "../cryptolibs/dist/libgcrypt/lib/libgcrypt.so.20.3.4"@,
            r.link_name@ == "libgcrypt.so"@,
            r.syms@.len() == 0,
    {
        LibConfig {
            path: String::from_str("../cryptolibs/dist/libgcrypt/lib/libgcrypt.so.20.3.4"),
            link_name: String::from_str("libgcrypt.so"),
            syms: Vec::new(),
        }
    }
}

/// The Unicode lower-case mapping of a string, as std's `str::to_lowercase`
/// computes it.
pub uninterp spec fn lowercase(s: Seq<char>) -> Seq<char>;

/// std's `str::to_lowercase`: the result is named `lowercase` of the
/// argument; nothing more of the mapping is claimed.
#[verifier::external_body]
fn to_lowercase(s: &str) -> (r: String)
    ensures
        r@ == lowercase(s@),
{
    s.to_lowercase()
}

/// Whether `name` is one of `ts`.
pub open spec fn listed(ts: Seq<String>, name: Seq<char>) -> bool {
    exists|i: int| 0 <= i < ts.len() && #[trigger] ts[i]@ == name
}

/// Whether a symbol name is selected.
pub open spec fn selects(c: SymConfig, name: Seq<char>) -> bool {
    match c {
        SymConfig::Filter(t) => seq_contains(lowercase(name), t@),
        SymConfig::Matches(ts) => listed(ts@, name),
    }
}

impl SymConfig {
    /// Whether the symbol `x` is selected: for a filter, whether the
    /// lower-cased name contains the word; for a list, whether the name is
    /// one of those listed.
    pub fn predicate(&self, x: &str) -> (r: bool)
        ensures
            r == selects(*self, x@),
    {
        match self {
            SymConfig::Filter(target) => {
                let low = to_lowercase(x);
                str_contains(low.as_str(), target.as_str())
            },
            SymConfig::Matches(targets) => {
                let mut i: usize = 0;
                while i < targets.len()
                    invariant
                        *self == SymConfig::Matches(*targets),
                        i <= targets@.len(),
                        forall|j: int| 0 <= j < i ==> targets@[j]@ != x@,
                    decreases targets@.len() - i,
                {
                    if str_eq(targets[i].as_str(), x) {
                        assert(0 <= i < targets@.len() && targets@[i as int]@ == x@);
                        return true;
                    }
                    i = i + 1;
                }
                false
            },
        }
    }
}

/// Whether two string slices hold the same characters.
pub fn str_eq(a: &str, b: &str) -> (r: bool)
    ensures
        r == (a@ == b@),
{
    let ca = crate::text::chars_of(a);
    let cb = crate::text::chars_of(b);
    if ca.len() != cb.len() {
        return false;
    }
    let mut i: usize = 0;
    while i < ca.len()
        invariant
            ca@ == a@,
            cb@ == b@,
            ca@.len() == cb@.len(),
            i <= ca@.len(),
            forall|j: int| 0 <= j < i ==> ca@[j] == cb@[j],
        decreases ca@.len() - i,
    {
        if ca[i] != cb[i] {
            return false;
        }
        i = i + 1;
    }
    assert(ca@ =~= cb@);
    true
}

} // verus!
