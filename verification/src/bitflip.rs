//! The bit-flip fault model: every mutant flips exactly one bit.

use vstd::prelude::*;
use vstd::string::*;
use crate::tag::Tag;
use crate::mutator::{FaultModel, IntoIter, MutState, start_state};

verus! {

/// Flips one bit at a time, from the lowest bit of the first byte on.
pub struct Bitflip;

/// The byte with only bit `b` set.
pub open spec fn bit_mask(b: nat) -> u8 {
    if b < 8 {
        (1u8 << (b as u8)) as u8
    } else {
        0
    }
}

/// `base` with bit `k % 8` of byte `k / 8` flipped.
pub open spec fn flip(base: Seq<u8>, k: int) -> Seq<u8> {
    base.update(k / 8, base[k / 8] ^ bit_mask((k % 8) as nat))
}

/// All bit flips of `base`: bit `k % 8` of byte `k / 8`, for each `k` below
/// eight times the length.
pub open spec fn bitflips(base: Seq<u8>) -> Seq<Seq<u8>> {
    Seq::new(8 * base.len(), |k: int| flip(base, k))
}

pub open spec fn bitflip_inv(s: MutState) -> bool {
    &&& s.base.len() == s.size
    &&& s.bit <= 8
    &&& s.mask == bit_mask(s.bit)
    &&& (s.byte < s.size || (s.byte == s.size && s.bit == 0))
}

impl Tag for Bitflip {
    open spec fn spec_tag() -> Seq<char> {
        "bitflip"@
    }

    open spec fn spec_id(&self) -> Seq<char> {
        "bitflip"@
    }

    fn tag() -> (r: String) {
        String::from_str("bitflip")
    }

    fn id(&self) -> (r: String) {
        Self::tag()
    }
}

proof fn lemma_mask_step(b: u8)
    requires
        b < 8,
    ensures
        (bit_mask(b as nat) << 1u8) as u8 == bit_mask((b + 1) as nat),
{
    assert(b < 7 ==> ((1u8 << b) << 1u8) == (1u8 << ((b + 1) as u8))) by (bit_vector);
    assert(b == 7 ==> ((1u8 << b) << 1u8) == 0u8) by (bit_vector);
}

impl FaultModel for Bitflip {
    open spec fn inv(s: MutState) -> bool {
        bitflip_inv(s)
    }

    open spec fn remaining(s: MutState) -> Seq<Seq<u8>> {
        let k = 8 * s.byte + s.bit;
        Seq::new((8 * s.size - k) as nat, |j: int| flip(s.base, k + j))
    }

    open spec fn all_mutants(base: Seq<u8>) -> Seq<Seq<u8>> {
        bitflips(base)
    }

    proof fn lemma_start(base: Seq<u8>) {
        assert(bit_mask(0) == 1u8) by {
            assert((1u8 << 0u8) == 1u8) by (bit_vector);
        }
        assert(Self::remaining(start_state(base)) =~= bitflips(base));
    }

    fn next_mutant(iter: &mut IntoIter<Self>) -> (r: Option<Vec<u8>>) {
        let ghost s0 = iter@;
        if iter.bit.1 == 8 {
            iter.bit.0 = iter.bit.0 + 1;
            iter.mask = 1;
            iter.bit.1 = 0;
            assert(bit_mask(0) == 1u8) by {
                assert((1u8 << 0u8) == 1u8) by (bit_vector);
            }
            assert(Self::remaining(iter@) =~= Self::remaining(s0));
        }
        let ghost s1 = iter@;
        if iter.bit.0 == iter.size {
            return None;
        }
        let i = iter.bit.0;
        let mut bytes = iter.base.clone();
        let old_byte = bytes[i];
        bytes.set(i, old_byte ^ iter.mask);
        proof {
            lemma_mask_step(iter.bit.1 as u8);
        }
        iter.mask = iter.mask << 1u8;
        iter.bit.1 = iter.bit.1 + 1;
        let ghost k: int = (8 * s1.byte + s1.bit) as int;
        assert((k / 8) == s1.byte && (k % 8) == s1.bit);
        assert(bytes@ =~= flip(s1.base, k));
        assert(Self::remaining(iter@) =~= Self::remaining(s1).drop_first());
        Some(bytes)
    }
}

/// Law: bytes of length `n` have exactly `8 * n` bit-flip mutants, and the
/// `k`-th differs from the bytes only in bit `k % 8` of byte `k / 8`.
pub proof fn law_bitflip_mutants(base: Seq<u8>, k: int)
    requires
        0 <= k < 8 * base.len(),
    ensures
        Bitflip::all_mutants(base).len() == 8 * base.len(),
        Bitflip::all_mutants(base)[k].len() == base.len(),
        forall|j: int| 0 <= j < base.len() && j != k / 8 ==> Bitflip::all_mutants(base)[k][j]
            == base[j],
        Bitflip::all_mutants(base)[k][k / 8] == base[k / 8] ^ bit_mask((k % 8) as nat),
{
}

} // verus!
