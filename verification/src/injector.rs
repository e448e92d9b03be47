//! Injections: which instruction of the library is replaced by which mutant.

use vstd::prelude::*;
use vstd::string::*;
use crate::instruction::{Asm, key_text, record_ok, record_field0, record_field1, record_disasm, opt_text};
use crate::config::Arch;
use crate::hexcodec::hex_decoded;
use crate::loc::LocAsm;
use crate::text::{push_char, push_str, push_hex, push_hex2, push_hex_zero_padded, hex, hex_nat, hex_bytes, hex2, pad_zero};
use crate::instruction::asm_text;

verus! {

/// How and where mutants are run.
#[derive(Debug, Clone, PartialEq, Eq)]
pub struct InjectionConfig {
    pub work_dir: String,
    pub group: String,
    pub name: String,
    pub target_syms: Vec<String>,
    pub exec_command: String,
    pub exec_args: Vec<String>,
    pub dry_run: bool,
}

impl Default for InjectionConfig {
    fn default() -> (r: Self)
        ensures
            r.work_dir@ == "examples/libgcrypt/aes"@,
            r.group@ == "symmetric"@,
            r.name@ == "aes"@,
            r.target_syms@.len() == 0,
            r.exec_command@ == "./bin"@,
            r.exec_args@.len() == 0,
            r.dry_run,
    {
        InjectionConfig {
            work_dir: String::from_str("examples/libgcrypt/aes"),
            group: String::from_str("symmetric"),
            name: String::from_str("aes"),
            target_syms: Vec::new(),
            exec_command: String::from_str("./bin"),
            exec_args: Vec::new(),
            dry_run: true,
        }
    }
}

/// One injection: the original instruction, the mutant put in its place,
/// and the mutant's number.
#[derive(Debug)]
pub struct Change(pub LocAsm, pub Asm, pub u8);

/// The name of a change: `offset_hexbytes_nn`, the offset in hexadecimal.
pub open spec fn change_id(offset: usize, bytes: Seq<u8>, index: u8) -> Seq<char> {
    hex_nat(offset as nat) + seq!['_'] + hex_bytes(bytes) + seq!['_'] + hex2(index)
}

impl Change {
    /// The name of this change: the offset in hexadecimal, the original
    /// bytes in hexadecimal and the mutant's number in two hexadecimal digits,
    /// separated by `_`.
    pub fn id(&self) -> (s: String)
        ensures
            s@ == change_id(self.0.offset, self.0.bytes@, self.2),
    {
        let mut s = String::new();
        push_hex(&mut s, self.0.offset as u64);
        push_char(&mut s, '_');
        let h = hex(self.0.bytes.as_slice());
        push_str(&mut s, h.as_str());
        push_char(&mut s, '_');
        push_hex2(&mut s, self.2);
        assert(s@ =~= change_id(self.0.offset, self.0.bytes@, self.2));
        s
    }
}


/// Two records of an instruction at an offset agree.
pub open spec fn same_loc(a: LocAsm, b: LocAsm) -> bool {
    &&& a.offset == b.offset
    &&& a.size == b.size
    &&& a.bytes@ == b.bytes@
    &&& opt_text(a.disasm) == opt_text(b.disasm)
}

impl LocAsm {
    /// A copy of this record.
    pub fn copy(&self) -> (r: LocAsm)
        ensures
            same_loc(r, *self),
    {
        let disasm = match &self.disasm {
            Some(d) => Some(d.clone()),
            None => None,
        };
        LocAsm { bytes: self.bytes.clone(), disasm, offset: self.offset, size: self.size }
    }
}

/// Where an enumeration of injections for one location stands: the
/// instruction being mutated, if any, and how many of its mutants were
/// looked up.
#[derive(Debug)]
pub struct InjectionState {
    pub loc_asm: Option<LocAsm>,
    pub index: u8,
}

/// What the enumeration needs done next.
#[derive(Debug)]
pub enum InjectionStep {
    /// Read the location's next instruction record.
    FetchLoc,
    /// Look up the mutant stored under this key.
    Lookup(String),
    /// This injection is the next one.
    Emit(Change),
    /// The location has no more instructions.
    Done,
}

/// The state is one the enumeration can be in: the current instruction has
/// fewer than 32 bytes and no more mutants were looked up than it has bits.
pub open spec fn state_ok(s: InjectionState) -> bool {
    s.loc_asm matches Some(l) ==> l.size < 32 && s.index <= l.size * 8
}

/// An instruction at an offset, as values.
pub struct LocView {
    pub offset: usize,
    pub bytes: Seq<u8>,
    pub size: u8,
    pub disasm: Option<Seq<char>>,
}

pub open spec fn loc_view(l: LocAsm) -> LocView {
    LocView { offset: l.offset, bytes: l.bytes@, size: l.size, disasm: opt_text(l.disasm) }
}

/// An enumeration's state, as values.
pub struct InjView {
    pub loc: Option<LocView>,
    pub index: u8,
}

pub open spec fn state_view(s: InjectionState) -> InjView {
    InjView {
        loc: match s.loc_asm {
            Some(l) => Some(loc_view(l)),
            None => None,
        },
        index: s.index,
    }
}

/// A change, as values: the instruction, the mutant's bytes, size and
/// disassembly, and the mutant's number.
pub struct ChangeView {
    pub loc: LocView,
    pub bytes: Seq<u8>,
    pub size: u8,
    pub disasm: Option<Seq<char>>,
    pub number: u8,
}

pub open spec fn change_view(c: Change) -> ChangeView {
    ChangeView {
        loc: loc_view(c.0),
        bytes: c.1.bytes@,
        size: c.1.size,
        disasm: opt_text(c.1.disasm),
        number: c.2,
    }
}

/// A step, as values.
pub enum StepView {
    FetchLoc,
    Lookup(Seq<char>),
    Emit(ChangeView),
    Done,
}

pub open spec fn step_view(st: InjectionStep) -> StepView {
    match st {
        InjectionStep::FetchLoc => StepView::FetchLoc,
        InjectionStep::Lookup(k) => StepView::Lookup(k@),
        InjectionStep::Emit(c) => StepView::Emit(change_view(c)),
        InjectionStep::Done => StepView::Done,
    }
}

/// The instruction that a stored record at `off` stands for.
pub open spec fn record_loc(off: usize, rec: Seq<char>) -> LocView {
    let b = hex_decoded(crate::text::utf8_of(record_field0(rec)));
    LocView { offset: off, bytes: b, size: b.len() as u8, disasm: record_disasm(record_field1(rec)) }
}

/// The change that puts the mutant stored as `rec` in place of `l`.
pub open spec fn record_change(l: LocView, rec: Seq<char>, number: u8) -> ChangeView {
    let b = hex_decoded(crate::text::utf8_of(record_field0(rec)));
    ChangeView {
        loc: l,
        bytes: b,
        size: b.len() as u8,
        disasm: record_disasm(record_field1(rec)),
        number,
    }
}

/// What `on_next` does, on values.
pub open spec fn next_spec(s: InjView, a: Seq<char>, bits: u8) -> (InjView, StepView) {
    match s.loc {
        None => (s, StepView::FetchLoc),
        Some(l) => if s.index == l.size * 8 {
            (InjView { loc: None, index: 0 }, StepView::FetchLoc)
        } else {
            (
                InjView { loc: s.loc, index: (s.index + 1) as u8 },
                StepView::Lookup(key_text(a, bits, l.bytes, s.index)),
            )
        },
    }
}

/// What `on_loc` does, on values.
pub open spec fn loc_spec(s: InjView, a: Seq<char>, bits: u8, loc: Option<(usize, Seq<char>)>) -> (
    InjView,
    StepView,
) {
    match loc {
        None => (s, StepView::Done),
        Some((off, rec)) => {
            let l = record_loc(off, rec);
            (InjView { loc: Some(l), index: 1 }, StepView::Lookup(key_text(a, bits, l.bytes, 0)))
        },
    }
}

/// What `on_mutant` does, on values.
pub open spec fn mutant_spec(s: InjView, a: Seq<char>, bits: u8, found: Option<Seq<char>>) -> (
    InjView,
    StepView,
) {
    match found {
        Some(rec) => match s.loc {
            Some(l) => (s, StepView::Emit(record_change(l, rec, s.index))),
            None => (s, StepView::Done),
        },
        None => next_spec(s, a, bits),
    }
}

pub open spec fn opt_view(o: Option<&str>) -> Option<Seq<char>> {
    match o {
        Some(t) => Some(t@),
        None => None,
    }
}

pub open spec fn loc_arg_view(o: Option<(usize, &str)>) -> Option<(usize, Seq<char>)> {
    match o {
        Some((off, t)) => Some((off, t@)),
        None => None,
    }
}

impl InjectionState {
    /// The enumeration before the first instruction is read.
    pub fn new() -> (r: Self)
        ensures
            r.loc_asm is None,
            r.index == 0,
    {
        InjectionState { loc_asm: None, index: 0 }
    }

    /// The next step: read an instruction when there is none or when all
    /// its mutants were looked up (then starting over at mutant 0);
    /// otherwise look up the next mutant of the current instruction.
    pub fn on_next(&mut self, arch: &Arch) -> (r: InjectionStep)
        requires
            state_ok(*old(self)),
        ensures
            state_ok(*final(self)),
            (state_view(*final(self)), step_view(r)) == next_spec(
                state_view(*old(self)),
                arch.arch@,
                arch.bits,
            ),
            old(self).loc_asm is None ==> r is FetchLoc && *final(self) == *old(self),
            old(self).loc_asm matches Some(l) ==> if old(self).index == l.size * 8 {
                r is FetchLoc && final(self).loc_asm is None && final(self).index == 0
            } else {
                r matches InjectionStep::Lookup(k) && k@ == key_text(
                    arch.arch@,
                    arch.bits,
                    l.bytes@,
                    old(self).index,
                ) && final(self).loc_asm == old(self).loc_asm && final(self).index == old(
                    self,
                ).index + 1
            },
    {
        match &self.loc_asm {
            None => InjectionStep::FetchLoc,
            Some(l) => {
                if self.index == l.size * 8 {
                    self.loc_asm = None;
                    self.index = 0;
                    InjectionStep::FetchLoc
                } else {
                    let key = l.to_asm().key(arch, self.index);
                    self.index = self.index + 1;
                    InjectionStep::Lookup(key)
                }
            },
        }
    }

    /// After reading the location's next instruction record (offset and
    /// stored record), or learning there is none: with one, it becomes the
    /// current instruction and its mutant at the current index is looked up.
    pub fn on_loc(&mut self, arch: &Arch, loc: Option<(usize, &str)>) -> (r: InjectionStep)
        requires
            old(self).loc_asm is None,
            old(self).index == 0,
            loc matches Some((_, rec)) ==> record_ok(rec@) && 1 <= hex_decoded(
                crate::text::utf8_of(record_field0(rec@)),
            ).len() < 32,
        ensures
            state_ok(*final(self)),
            (state_view(*final(self)), step_view(r)) == loc_spec(
                state_view(*old(self)),
                arch.arch@,
                arch.bits,
                loc_arg_view(loc),
            ),
            loc is None ==> r is Done && *final(self) == *old(self),
            loc matches Some((off, rec)) ==> {
                &&& final(self).loc_asm matches Some(l) && l.offset == off && l.bytes@
                    == hex_decoded(crate::text::utf8_of(record_field0(rec@))) && l.size
                    == l.bytes@.len() && opt_text(l.disasm) == record_disasm(
                    record_field1(rec@),
                )
                &&& final(self).index == 1
                &&& r matches InjectionStep::Lookup(k) && k@ == key_text(
                    arch.arch@,
                    arch.bits,
                    hex_decoded(crate::text::utf8_of(record_field0(rec@))),
                    0,
                )
            },
    {
        match loc {
            None => InjectionStep::Done,
            Some((offset, rec)) => {
                let a = Asm::from_string(rec);
                let key = a.key(arch, 0);
                self.loc_asm = Some(LocAsm { bytes: a.bytes, disasm: a.disasm, offset, size: a.size });
                self.index = 1;
                InjectionStep::Lookup(key)
            },
        }
    }

    /// After looking up a mutant: a stored mutant is the next injection,
    /// numbered by how many mutants were looked up; a missing one means
    /// going on with the next step.
    pub fn on_mutant(&mut self, arch: &Arch, found: Option<&str>) -> (r: InjectionStep)
        requires
            state_ok(*old(self)),
            old(self).loc_asm is Some,
            found matches Some(rec) ==> record_ok(rec@),
        ensures
            state_ok(*final(self)),
            (state_view(*final(self)), step_view(r)) == mutant_spec(
                state_view(*old(self)),
                arch.arch@,
                arch.bits,
                opt_view(found),
            ),
            found matches Some(rec) ==> ({
                &&& *final(self) == *old(self)
                &&& r matches InjectionStep::Emit(c) && same_loc(c.0, old(self).loc_asm->Some_0) && c.2 == old(
                    self,
                ).index && c.1.bytes@ == hex_decoded(crate::text::utf8_of(record_field0(rec@)))
                    && opt_text(c.1.disasm) == record_disasm(record_field1(rec@))
            }),
            found is None ==> (old(self).index == old(self).loc_asm->Some_0.size * 8 ==> (r is FetchLoc
                && final(self).loc_asm is None && final(self).index == 0)),
            found is None ==> (old(self).index != old(self).loc_asm->Some_0.size * 8 ==> (r matches InjectionStep::Lookup(k) && k@ == key_text(
                arch.arch@,
                arch.bits,
                old(self).loc_asm->Some_0.bytes@,
                old(self).index,
            ) && final(self).loc_asm == old(self).loc_asm && final(self).index == old(self).index + 1)),
    {
        match found {
            Some(rec) => {
                let m = Asm::from_string(rec);
                match &self.loc_asm {
                    Some(l) => InjectionStep::Emit(Change(l.copy(), m, self.index)),
                    None => InjectionStep::Done,
                }
            },
            None => self.on_next(arch),
        }
    }
}


/// The state is one the enumeration can be in (as `state_ok`, on values).
pub open spec fn view_ok(s: InjView) -> bool {
    s.loc matches Some(l) ==> l.size < 32 && s.index <= l.size * 8
}

pub open spec fn lookups_left(s: InjView) -> int {
    match s.loc {
        Some(l) => l.size * 8 - s.index + 1,
        None => 0,
    }
}

pub open spec fn step_rank(st: StepView) -> int {
    match st {
        StepView::Lookup(_) => 2,
        StepView::Emit(_) => 1,
        _ => 0,
    }
}

/// The changes that an enumeration yields from state `s` with step `st`
/// pending, when the instruction records it reads are `locs` from
/// position `li` on and the stored mutants are `t`: a pending change is
/// yielded and the next step asked for; a lookup is answered from `t`; a
/// read takes the next record, and ends the enumeration when there is none.
pub open spec fn yields(
    s: InjView,
    st: StepView,
    a: Seq<char>,
    bits: u8,
    locs: Seq<(usize, Seq<char>)>,
    li: int,
    t: Map<Seq<char>, Seq<char>>,
) -> Seq<ChangeView>
    decreases locs.len() - li, lookups_left(s), step_rank(st),
{
    if !view_ok(s) || li < 0 {
        seq![]
    } else {
        match st {
            StepView::Done => seq![],
            StepView::Emit(c) => {
                let (s2, st2) = next_spec(s, a, bits);
                seq![c] + yields(s2, st2, a, bits, locs, li, t)
            },
            StepView::Lookup(k) => {
                let found = if t.contains_key(k) {
                    Some(t[k])
                } else {
                    None
                };
                let (s2, st2) = mutant_spec(s, a, bits, found);
                yields(s2, st2, a, bits, locs, li, t)
            },
            StepView::FetchLoc => if li < locs.len() {
                let (s2, st2) = loc_spec(s, a, bits, Some(locs[li]));
                yields(s2, st2, a, bits, locs, li + 1, t)
            } else {
                seq![]
            },
        }
    }
}

/// The change for mutant `j` of `l`, when one is stored under its key.
pub open spec fn stored_change(
    l: LocView,
    j: int,
    a: Seq<char>,
    bits: u8,
    t: Map<Seq<char>, Seq<char>>,
) -> Seq<ChangeView> {
    let k = key_text(a, bits, l.bytes, j as u8);
    if t.contains_key(k) {
        seq![record_change(l, t[k], (j + 1) as u8)]
    } else {
        seq![]
    }
}

/// The changes of `l` for mutants `j`, `j + 1`, ... below `8 * size`.
pub open spec fn loc_changes(
    l: LocView,
    j: int,
    a: Seq<char>,
    bits: u8,
    t: Map<Seq<char>, Seq<char>>,
) -> Seq<ChangeView>
    decreases l.size * 8 - j,
{
    if j < 0 || j >= l.size * 8 {
        seq![]
    } else {
        stored_change(l, j, a, bits, t) + loc_changes(l, j + 1, a, bits, t)
    }
}

/// The changes of all instruction records from position `li` on, in order.
pub open spec fn all_changes(
    locs: Seq<(usize, Seq<char>)>,
    li: int,
    a: Seq<char>,
    bits: u8,
    t: Map<Seq<char>, Seq<char>>,
) -> Seq<ChangeView>
    decreases locs.len() - li,
{
    if li < 0 || li >= locs.len() {
        seq![]
    } else {
        loc_changes(record_loc(locs[li].0, locs[li].1), 0, a, bits, t) + all_changes(
            locs,
            li + 1,
            a,
            bits,
            t,
        )
    }
}

proof fn lemma_loc_yields(
    l: LocView,
    j: int,
    a: Seq<char>,
    bits: u8,
    locs: Seq<(usize, Seq<char>)>,
    li: int,
    t: Map<Seq<char>, Seq<char>>,
)
    requires
        1 <= l.size < 32,
        0 <= j < l.size * 8,
        0 <= li,
    ensures
        yields(
            InjView { loc: Some(l), index: (j + 1) as u8 },
            StepView::Lookup(key_text(a, bits, l.bytes, j as u8)),
            a,
            bits,
            locs,
            li,
            t,
        ) == loc_changes(l, j, a, bits, t) + yields(
            InjView { loc: None, index: 0 },
            StepView::FetchLoc,
            a,
            bits,
            locs,
            li,
            t,
        ),
    decreases l.size * 8 - j,
{
    let s = InjView { loc: Some(l), index: (j + 1) as u8 };
    let rest = yields(InjView { loc: None, index: 0 }, StepView::FetchLoc, a, bits, locs, li, t);
    let k = key_text(a, bits, l.bytes, j as u8);
    assert(view_ok(s));
    if j + 1 < l.size * 8 {
        lemma_loc_yields(l, j + 1, a, bits, locs, li, t);
        let s3 = InjView { loc: Some(l), index: (j + 2) as u8 };
        assert(next_spec(s, a, bits) == (s3, StepView::Lookup(key_text(a, bits, l.bytes, (j + 1) as u8))));
    } else {
        assert(next_spec(s, a, bits) == (InjView { loc: None, index: 0 }, StepView::FetchLoc));
        assert(loc_changes(l, j + 1, a, bits, t) == Seq::<ChangeView>::empty());
    }
    if t.contains_key(k) {
        let c = record_change(l, t[k], s.index);
        assert(mutant_spec(s, a, bits, Some(t[k])) == (s, StepView::Emit(c)));
        assert(stored_change(l, j, a, bits, t) == seq![c]);
        assert(yields(s, StepView::Emit(c), a, bits, locs, li, t) == seq![c] + loc_changes(
            l,
            j + 1,
            a,
            bits,
            t,
        ) + rest);
    } else {
        assert(stored_change(l, j, a, bits, t) == Seq::<ChangeView>::empty());
    }
    assert(loc_changes(l, j, a, bits, t) == stored_change(l, j, a, bits, t) + loc_changes(
        l,
        j + 1,
        a,
        bits,
        t,
    ));
}

proof fn lemma_all_yields(
    a: Seq<char>,
    bits: u8,
    locs: Seq<(usize, Seq<char>)>,
    li: int,
    t: Map<Seq<char>, Seq<char>>,
)
    requires
        0 <= li <= locs.len(),
        forall|i: int|
            0 <= i < locs.len() ==> 1 <= (#[trigger] record_loc(locs[i].0, locs[i].1)).bytes.len() < 32,
    ensures
        yields(InjView { loc: None, index: 0 }, StepView::FetchLoc, a, bits, locs, li, t)
            == all_changes(locs, li, a, bits, t),
    decreases locs.len() - li,
{
    if li < locs.len() {
        let l = record_loc(locs[li].0, locs[li].1);
        assert(1 <= l.bytes.len() < 32);
        lemma_all_yields(a, bits, locs, li + 1, t);
        lemma_loc_yields(l, 0, a, bits, locs, li + 1, t);
        assert(loc_spec(InjView { loc: None, index: 0 }, a, bits, Some(locs[li])) == (
            InjView { loc: Some(l), index: 1 },
            StepView::Lookup(key_text(a, bits, l.bytes, 0)),
        ));
    }
}

/// Law: an enumeration started afresh and driven to its end yields, for
/// each instruction record in order, the changes for its mutants `j` below
/// `8 * size`, in order, whose key is stored, the mutant `j` numbered
/// `j + 1`; mutants with no stored record are skipped.
pub proof fn law_injection_sequence(
    a: Seq<char>,
    bits: u8,
    locs: Seq<(usize, Seq<char>)>,
    t: Map<Seq<char>, Seq<char>>,
)
    requires
        forall|i: int|
            0 <= i < locs.len() ==> 1 <= (#[trigger] record_loc(locs[i].0, locs[i].1)).bytes.len() < 32,
    ensures
        yields(InjView { loc: None, index: 0 }, StepView::FetchLoc, a, bits, locs, 0, t)
            == all_changes(locs, 0, a, bits, t),
{
    lemma_all_yields(a, bits, locs, 0, t);
}

/// The offset that an instruction record's key names: its hexadecimal
/// digits, when there are some, all are digits and the value fits.
pub fn offset_from_key(key: &str) -> (r: Option<usize>)
    ensures
        r is Some <==> (key@.len() > 0 && (forall|i: int|
            0 <= i < key@.len() ==> crate::parser::is_hex(#[trigger] key@[i]))
            && crate::parser::hex_value(key@, 0, key@.len() as int) <= usize::MAX),
        r matches Some(v) ==> v == crate::parser::hex_value(key@, 0, key@.len() as int),
{
    let cs = crate::text::chars_of(key);
    if cs.len() == 0 {
        return None;
    }
    let mut acc: usize = 0;
    let mut i: usize = 0;
    while i < cs.len()
        invariant
            cs@ == key@,
            i <= cs@.len(),
            forall|j: int| 0 <= j < i ==> crate::parser::is_hex(#[trigger] cs@[j]),
            acc == crate::parser::hex_value(cs@, 0, i as int),
        decreases cs@.len() - i,
    {
        let c = cs[i];
        let d: usize = if '0' <= c && c <= '9' {
            (c as u32 - 48) as usize
        } else if 'a' <= c && c <= 'f' {
            (c as u32 - 87) as usize
        } else if 'A' <= c && c <= 'F' {
            (c as u32 - 55) as usize
        } else {
            assert(!crate::parser::is_hex(cs@[i as int]));
            return None;
        };
        if acc > (usize::MAX - d) / 16 {
            proof {
                if forall|j: int| 0 <= j < cs@.len() ==> crate::parser::is_hex(#[trigger] cs@[j]) {
                    assert forall|j: int| 0 <= j < cs@.len() implies 0 <= crate::parser::hex_val(
                        #[trigger] cs@[j],
                    ) by {
                        assert(crate::parser::is_hex(cs@[j]));
                    }
                    lemma_hex_value_grows(cs@, i as int + 1, cs@.len() as int);
                }
                assert(acc * 16 + d > usize::MAX) by (nonlinear_arith)
                    requires
                        acc > (usize::MAX - d) / 16,
                        0 <= d < 16,
                ;
            }
            return None;
        }
        assert(acc * 16 + d <= usize::MAX) by (nonlinear_arith)
            requires
                acc <= (usize::MAX - d) / 16,
                0 <= d < 16,
        ;
        acc = acc * 16 + d;
        i = i + 1;
    }
    Some(acc)
}

/// The value of hexadecimal digits does not shrink when digits are added.
proof fn lemma_hex_value_grows(s: Seq<char>, q: int, r: int)
    requires
        0 <= q <= r <= s.len(),
        forall|j: int| 0 <= j < s.len() ==> 0 <= crate::parser::hex_val(#[trigger] s[j]),
    ensures
        crate::parser::hex_value(s, 0, q) <= crate::parser::hex_value(s, 0, r),
    decreases r - q,
{
    if q < r {
        lemma_hex_value_grows(s, q, r - 1);
        lemma_hex_value_nonneg(s, r - 1);
    }
}

proof fn lemma_hex_value_nonneg(s: Seq<char>, q: int)
    requires
        0 <= q <= s.len(),
        forall|j: int| 0 <= j < s.len() ==> 0 <= crate::parser::hex_val(#[trigger] s[j]),
    ensures
        crate::parser::hex_value(s, 0, q) >= 0,
    decreases q,
{
    if q > 0 {
        lemma_hex_value_nonneg(s, q - 1);
    }
}


/// The key of an instruction record: its offset in lower-case hexadecimal,
/// at least eight digits (`{:08x}`).
pub open spec fn offset_key_text(offset: usize) -> Seq<char> {
    pad_zero(hex_nat(offset as nat), 8)
}

/// The key under which the instruction at `offset` is stored.
pub fn offset_key(offset: usize) -> (s: String)
    ensures
        s@ == offset_key_text(offset),
{
    let mut s = String::new();
    push_hex_zero_padded(&mut s, offset as u64, 8);
    s
}

/// The text of a change: its offset, the original instruction and the mutant.
pub open spec fn change_text(c: Change) -> Seq<char> {
    "Change: { offset: "@ + offset_key_text(c.0.offset) + " }\n"@ + "  from: "@ + asm_text(
        c.0.bytes@,
        c.0.size,
        opt_text(c.0.disasm),
    ) + "\n"@ + "    to: "@ + asm_text(c.1.bytes@, c.1.size, opt_text(c.1.disasm))
}

impl Change {
    /// The text of this change: its offset (eight hexadecimal digits), the
    /// original instruction and the mutant, on three lines.
    pub fn to_string(&self) -> (s: String)
        ensures
            s@ == change_text(*self),
    {
        let mut s = String::new();
        push_str(&mut s, "Change: { offset: ");
        push_hex_zero_padded(&mut s, self.0.offset as u64, 8);
        push_str(&mut s, " }\n");
        push_str(&mut s, "  from: ");
        let from = self.0.to_asm().to_string();
        push_str(&mut s, from.as_str());
        push_str(&mut s, "\n");
        push_str(&mut s, "    to: ");
        let to = self.1.to_string();
        push_str(&mut s, to.as_str());
        s
    }
}


proof fn lemma_hex_value_prefix(a: Seq<char>, b: Seq<char>, q: int)
    requires
        0 <= q <= a.len(),
        q <= b.len(),
        forall|j: int| 0 <= j < q ==> a[j] == b[j],
    ensures
        crate::parser::hex_value(a, 0, q) == crate::parser::hex_value(b, 0, q),
    decreases q,
{
    if q > 0 {
        lemma_hex_value_prefix(a, b, q - 1);
    }
}

pub(crate) proof fn lemma_hex_nat_value(n: nat)
    ensures
        hex_nat(n).len() > 0,
        forall|j: int| 0 <= j < hex_nat(n).len() ==> crate::parser::is_hex(#[trigger] hex_nat(n)[j]),
        crate::parser::hex_value(hex_nat(n), 0, hex_nat(n).len() as int) == n,
    decreases n,
{
    let d = n % 16;
    lemma_hex_char_val(d as int);
    if n >= 16 {
        lemma_hex_nat_value(n / 16);
        let s = hex_nat(n / 16);
        let t = hex_nat(n);
        assert(t == s.push(crate::text::hex_char(d as int)));
        lemma_hex_value_prefix(t, s, s.len() as int);
        assert(crate::parser::hex_value(t, 0, t.len() as int) == crate::parser::hex_value(
            t,
            0,
            s.len() as int,
        ) * 16 + crate::parser::hex_val(t[s.len() as int]));
        assert forall|j: int| 0 <= j < t.len() implies crate::parser::is_hex(#[trigger] t[j]) by {
            if j < s.len() {
                assert(t[j] == s[j]);
            }
        }
        assert((n / 16) * 16 + d == n);
    } else {
        let t = hex_nat(n);
        assert(t == seq![crate::text::hex_char(n as int)]);
        assert(crate::parser::hex_value(t, 0, 0) == 0);
        assert(crate::parser::hex_value(t, 0, 1) == crate::parser::hex_value(t, 0, 0) * 16
            + crate::parser::hex_val(t[0]));
    }
}

proof fn lemma_hex_char_val(d: int)
    requires
        0 <= d < 16,
    ensures
        crate::parser::is_hex(crate::text::hex_char(d)),
        crate::parser::hex_val(crate::text::hex_char(d)) == d,
{
}

proof fn lemma_zero_prefix_value(z: Seq<char>, t: Seq<char>, k: int)
    requires
        forall|j: int| 0 <= j < z.len() ==> z[j] == '0',
        0 <= k <= t.len(),
    ensures
        crate::parser::hex_value(z + t, 0, z.len() + k) == crate::parser::hex_value(t, 0, k),
    decreases z.len() + k,
{
    if k > 0 {
        lemma_zero_prefix_value(z, t, k - 1);
        assert((z + t)[z.len() + k - 1] == t[k - 1]);
    } else if z.len() > 0 {
        lemma_zero_prefix_value(z.drop_last(), seq![], 0);
        lemma_hex_value_prefix(z + t, z.drop_last() + seq![], z.len() - 1);
        assert((z + t)[z.len() - 1] == '0');
    }
}

/// Law: the key written for an instruction's offset reads back as that
/// offset: it is made of hexadecimal digits only, and their value is the offset.
pub proof fn law_offset_key_roundtrip(offset: usize)
    ensures
        offset_key_text(offset).len() > 0,
        forall|j: int|
            0 <= j < offset_key_text(offset).len() ==> crate::parser::is_hex(
                #[trigger] offset_key_text(offset)[j],
            ),
        crate::parser::hex_value(
            offset_key_text(offset),
            0,
            offset_key_text(offset).len() as int,
        ) == offset,
{
    let t = hex_nat(offset as nat);
    lemma_hex_nat_value(offset as nat);
    if t.len() < 8 {
        let z = Seq::new((8 - t.len()) as nat, |i: int| '0');
        lemma_zero_prefix_value(z, t, t.len() as int);
        let k = offset_key_text(offset);
        assert(k == z + t);
        assert forall|j: int| 0 <= j < k.len() implies crate::parser::is_hex(#[trigger] k[j]) by {
            if j >= z.len() {
                assert(k[j] == t[j - z.len()]);
            }
        }
    }
}


/// The directory of an injection campaign's results:
/// `data/stalker/output/<model>/<target>/<name>`.
pub open spec fn output_dir_text(tag: Seq<char>, target: Seq<char>, name: Seq<char>) -> Seq<char> {
    "data/stalker/output/"@ + tag + seq!['/'] + target + seq!['/'] + name
}

/// The directory of an injection campaign's results.
pub fn output_dir(tag: &str, target: &str, name: &str) -> (s: String)
    ensures
        s@ == output_dir_text(tag@, target@, name@),
{
    let mut s = String::new();
    push_str(&mut s, "data/stalker/output/");
    push_str(&mut s, tag);
    push_char(&mut s, '/');
    push_str(&mut s, target);
    push_char(&mut s, '/');
    push_str(&mut s, name);
    s
}

impl Change {
    /// The file that holds one kind of result (`stdout`, `stderr`, `fail`)
    /// of this change: `<results dir>/<change id>.<kind>`.
    pub fn result_path(&self, tag: &str, target: &str, name: &str, kind: &str) -> (s: String)
        ensures
            s@ == output_dir_text(tag@, target@, name@) + seq!['/'] + change_id(
                self.0.offset,
                self.0.bytes@,
                self.2,
            ) + seq!['.'] + kind@,
    {
        let mut s = output_dir(tag, target, name);
        push_char(&mut s, '/');
        let id = self.id();
        push_str(&mut s, id.as_str());
        push_char(&mut s, '.');
        push_str(&mut s, kind);
        s
    }

    /// The directory where the mutated library is put while it runs:
    /// `/tmp/stalker-cache/<change id>`.
    pub fn cache_dir(&self) -> (s: String)
        ensures
            s@ == "/tmp/stalker-cache/"@ + change_id(self.0.offset, self.0.bytes@, self.2),
    {
        let mut s = String::new();
        push_str(&mut s, "/tmp/stalker-cache/");
        let id = self.id();
        push_str(&mut s, id.as_str());
        s
    }
}

} // verus!
