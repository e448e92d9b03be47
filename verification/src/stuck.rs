//! The stuck-at fault model: every mutant sets one byte to a fixed value.

use vstd::prelude::*;
use crate::tag::Tag;
use crate::mutator::{FaultModel, IntoIter, MutState};
use crate::text::{push_char, push_hex2, hex2};

verus! {

/// Sets one byte at a time to `MASK`, skipping bytes that already hold it.
pub struct Stuck<const MASK: u8>;

/// The mutants of `base` from position `i` on: for each byte that differs
/// from `m`, in order, `base` with that byte set to `m`.
pub open spec fn stuck_from(base: Seq<u8>, m: u8, i: int) -> Seq<Seq<u8>>
    decreases base.len() - i,
{
    if i < 0 || i >= base.len() {
        seq![]
    } else if base[i] == m {
        stuck_from(base, m, i + 1)
    } else {
        seq![base.update(i, m)] + stuck_from(base, m, i + 1)
    }
}

/// The number of bytes of `base` from position `i` on that differ from `m`.
pub open spec fn count_differing(base: Seq<u8>, m: u8, i: int) -> nat
    decreases base.len() - i,
{
    if i < 0 || i >= base.len() {
        0
    } else if base[i] == m {
        count_differing(base, m, i + 1)
    } else {
        1 + count_differing(base, m, i + 1)
    }
}

/// `stuck-0x` and the value in two lower-case hexadecimal digits.
pub open spec fn stuck_tag(m: u8) -> Seq<char> {
    seq!['s', 't', 'u', 'c', 'k', '-', '0', 'x'] + hex2(m)
}

impl<const MASK: u8> Tag for Stuck<MASK> {
    open spec fn spec_tag() -> Seq<char> {
        stuck_tag(MASK)
    }

    open spec fn spec_id(&self) -> Seq<char> {
        stuck_tag(MASK)
    }

    fn tag() -> (r: String) {
        let mut s = String::new();
        push_char(&mut s, 's');
        push_char(&mut s, 't');
        push_char(&mut s, 'u');
        push_char(&mut s, 'c');
        push_char(&mut s, 'k');
        push_char(&mut s, '-');
        push_char(&mut s, '0');
        push_char(&mut s, 'x');
        push_hex2(&mut s, MASK);
        assert(s@ =~= stuck_tag(MASK));
        s
    }

    fn id(&self) -> (r: String) {
        Self::tag()
    }
}

impl<const MASK: u8> FaultModel for Stuck<MASK> {
    open spec fn inv(s: MutState) -> bool {
        s.base.len() == s.size && s.byte <= s.size
    }

    open spec fn remaining(s: MutState) -> Seq<Seq<u8>> {
        stuck_from(s.base, MASK, s.byte as int)
    }

    open spec fn all_mutants(base: Seq<u8>) -> Seq<Seq<u8>> {
        stuck_from(base, MASK, 0)
    }

    proof fn lemma_start(base: Seq<u8>) {
    }

    fn next_mutant(iter: &mut IntoIter<Self>) -> (r: Option<Vec<u8>>) {
        let mut bytes = iter.base.clone();
        let ghost s0 = iter@;
        while iter.bit.0 < bytes.len()
            invariant
                s0 == old(iter)@,
                bytes@ == iter.base@,
                iter.base@ == s0.base,
                iter.size == s0.size,
                iter.bit.1 == s0.bit,
                iter.mask == s0.mask,
                s0.base.len() == s0.size,
                s0.byte <= iter.bit.0 <= s0.size,
                stuck_from(s0.base, MASK, iter.bit.0 as int) == stuck_from(
                    s0.base,
                    MASK,
                    s0.byte as int,
                ),
            decreases bytes@.len() - iter.bit.0,
        {
            let i = iter.bit.0;
            if bytes[i] == MASK {
                iter.bit.0 = i + 1;
            } else {
                bytes.set(i, MASK);
                iter.bit.0 = i + 1;
                let ghost all = stuck_from(s0.base, MASK, i as int);
                let ghost rest = stuck_from(s0.base, MASK, i + 1);
                assert(all == seq![s0.base.update(i as int, MASK)] + rest);
                assert(bytes@ =~= s0.base.update(i as int, MASK));
                assert(all.drop_first() =~= rest);
                return Some(bytes);
            }
        }
        None
    }
}

/// Law: the stuck-at model gives one mutant per byte that differs from the
/// value, and that mutant differs from the bytes exactly there.
pub proof fn law_stuck_mutants(base: Seq<u8>, m: u8, i: int)
    requires
        0 <= i <= base.len(),
    ensures
        stuck_from(base, m, i).len() == count_differing(base, m, i),
        forall|k: int|
            0 <= k < stuck_from(base, m, i).len() ==> {
                let v = #[trigger] stuck_from(base, m, i)[k];
                &&& v.len() == base.len()
                &&& exists|j: int|
                    i <= j < base.len() && base[j] != m && v == base.update(j, m)
            },
    decreases base.len() - i,
{
    if i < base.len() {
        law_stuck_mutants(base, m, i + 1);
        if base[i] != m {
            let rest = stuck_from(base, m, i + 1);
            assert forall|k: int| 0 <= k < stuck_from(base, m, i).len() implies {
                let v = #[trigger] stuck_from(base, m, i)[k];
                &&& v.len() == base.len()
                &&& exists|j: int| i <= j < base.len() && base[j] != m && v == base.update(j, m)
            } by {
                if k == 0 {
                    assert(stuck_from(base, m, i)[0] == base.update(i, m));
                } else {
                    assert(stuck_from(base, m, i)[k] == rest[k - 1]);
                }
            }
        }
    }
}

} // verus!
