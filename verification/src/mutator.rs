//! Fault models: which faulty variants (mutants) of an instruction's bytes
//! a model produces, one at a time.

use vstd::prelude::*;
use core::marker::PhantomData;
use crate::tag::Tag;
use crate::instruction::Asm;

verus! {

/// The state of an enumeration of mutants.
pub struct MutState {
    pub base: Seq<u8>,
    pub size: nat,
    pub byte: nat,
    pub bit: nat,
    pub mask: u8,
}

/// The state in which an enumeration over `base` starts.
pub open spec fn start_state(base: Seq<u8>) -> MutState {
    MutState { base, size: base.len(), byte: 0, bit: 0, mask: 1 }
}

pub open spec fn bytes_of(v: Seq<Vec<u8>>) -> Seq<Seq<u8>> {
    v.map_values(|x: Vec<u8>| x@)
}

/// A fault model: the mutants it produces of given bytes, and how it steps
/// through them.
pub trait FaultModel: Sized + Tag {
    /// The states the model's enumeration can be in.
    spec fn inv(s: MutState) -> bool;

    /// The mutants still to come from state `s`, in order.
    spec fn remaining(s: MutState) -> Seq<Seq<u8>>;

    /// All mutants of `base`, in the order they are produced.
    spec fn all_mutants(base: Seq<u8>) -> Seq<Seq<u8>>;

    proof fn lemma_start(base: Seq<u8>)
        ensures
            Self::inv(start_state(base)),
            Self::remaining(start_state(base)) == Self::all_mutants(base),
    ;

    /// The next mutant, or `None` when all have been produced; once `None`,
    /// always `None`.
    fn next_mutant(iter: &mut IntoIter<Self>) -> (r: Option<Vec<u8>>)
        requires
            Self::inv(old(iter)@),
        ensures
            Self::inv(final(iter)@),
            Self::remaining(old(iter)@).len() == 0 ==> r is None && Self::remaining(
                final(iter)@,
            ).len() == 0,
            Self::remaining(old(iter)@).len() > 0 ==> (r matches Some(v) && v@ == Self::remaining(
                old(iter)@,
            )[0]) && Self::remaining(final(iter)@) == Self::remaining(old(iter)@).drop_first(),
    ;
}

/// An enumeration of the mutants of some bytes under the fault model `T`.
pub struct IntoIter<T> {
    pub phantom: PhantomData<T>,
    pub base: Vec<u8>,
    pub size: usize,
    pub bit: (usize, usize),
    pub mask: u8,
}

impl<T> View for IntoIter<T> {
    type V = MutState;

    open spec fn view(&self) -> MutState {
        MutState {
            base: self.base@,
            size: self.size as nat,
            byte: self.bit.0 as nat,
            bit: self.bit.1 as nat,
            mask: self.mask,
        }
    }
}

impl<T: FaultModel> IntoIter<T> {
    /// The enumeration of all mutants of `base`.
    pub fn new(base: &Vec<u8>) -> (r: IntoIter<T>)
        ensures
            r@ == start_state(base@),
            T::inv(r@),
            T::remaining(r@) == T::all_mutants(base@),
    {
        proof {
            T::lemma_start(base@);
        }
        IntoIter { phantom: PhantomData, base: base.clone(), size: base.len(), bit: (0, 0), mask: 1 }
    }

    /// The next mutant, or `None` when all have been produced.
    pub fn next(&mut self) -> (r: Option<Vec<u8>>)
        requires
            T::inv(old(self)@),
        ensures
            T::inv(final(self)@),
            T::remaining(old(self)@).len() == 0 ==> r is None && T::remaining(final(self)@).len()
                == 0,
            T::remaining(old(self)@).len() > 0 ==> (r matches Some(v) && v@ == T::remaining(
                old(self)@,
            )[0]) && T::remaining(final(self)@) == T::remaining(old(self)@).drop_first(),
    {
        T::next_mutant(self)
    }

    /// All the mutants still to come, in order; the enumeration is then exhausted.
    pub fn collect_all(&mut self) -> (r: Vec<Vec<u8>>)
        requires
            T::inv(old(self)@),
        ensures
            T::inv(final(self)@),
            bytes_of(r@) == T::remaining(old(self)@),
            T::remaining(final(self)@).len() == 0,
    {
        let mut out: Vec<Vec<u8>> = Vec::new();
        loop
            invariant
                T::inv(self@),
                bytes_of(out@) + T::remaining(self@) == T::remaining(old(self)@),
            decreases T::remaining(self@).len(),
        {
            let ghost before = T::remaining(self@);
            match self.next() {
                Some(v) => {
                    let ghost prev = bytes_of(out@);
                    out.push(v);
                    assert(bytes_of(out@) =~= prev.push(before[0]));
                    assert(prev + before =~= bytes_of(out@) + before.drop_first());
                },
                None => {
                    assert(bytes_of(out@) + before =~= bytes_of(out@));
                    return out;
                },
            }
        }
    }
}

/// Values whose bytes can be mutated.
pub trait RawMutatable: Sized {
    spec fn raw_bytes(&self) -> Seq<u8>;

    /// The enumeration of all mutants of the value's bytes under `M`.
    fn raw_mutants<M: FaultModel>(&self) -> (r: IntoIter<M>)
        ensures
            r@ == start_state(self.raw_bytes()),
            M::inv(r@),
            M::remaining(r@) == M::all_mutants(self.raw_bytes()),
    ;
}

impl RawMutatable for Vec<u8> {
    open spec fn raw_bytes(&self) -> Seq<u8> {
        self@
    }

    fn raw_mutants<M: FaultModel>(&self) -> (r: IntoIter<M>) {
        IntoIter::new(self)
    }
}

/// Instructions whose bytes can be mutated.
pub trait Mutatable: Sized {
    spec fn mut_bytes(&self) -> Seq<u8>;

    /// The enumeration of all mutants of the instruction's bytes under `M`.
    fn mutants<M: FaultModel>(&self) -> (r: IntoIter<M>)
        ensures
            r@ == start_state(self.mut_bytes()),
            M::inv(r@),
            M::remaining(r@) == M::all_mutants(self.mut_bytes()),
    ;
}

impl Mutatable for Asm {
    open spec fn mut_bytes(&self) -> Seq<u8> {
        self.bytes@
    }

    fn mutants<M: FaultModel>(&self) -> (r: IntoIter<M>) {
        self.bytes.raw_mutants::<M>()
    }
}

} // verus!
