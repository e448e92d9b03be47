//! Tallies of a probabilistic signature scheme's runs under faults.  Each
//! group of results holds the nonce part `r` and the signature in
//! hexadecimal, and the verification outcome.

use vstd::prelude::*;
use crate::fields::Fields;
use crate::dc::{field_bytes, field_ok, inc_if, fields_model, samples_model};
use crate::hexcodec::decode_hex;
use crate::text::{str_contains, seq_contains};

verus! {

pub struct DsaModel {
    pub nonce_reuse: nat,
    pub functional: nat,
    /// The nonces seen so far, in order.
    pub seen: Seq<Seq<char>>,
    /// Nonce and signature bytes of each run whose fields were decoded.
    pub samples: Seq<(Seq<u8>, Seq<u8>)>,
}

pub open spec fn dsa_start() -> DsaModel {
    DsaModel { nonce_reuse: 0, functional: 0, seen: seq![], samples: seq![] }
}

pub open spec fn seen_before(seen: Seq<Seq<char>>, x: Seq<char>) -> bool {
    exists|k: int| 0 <= k < seen.len() && seen[k] == x
}

/// What one run adds to a tally: empty results count for nothing; a nonce
/// seen before is a reuse; otherwise the nonce is remembered, and when both
/// hexadecimal fields decode the run is a sample, functional when its
/// verification outcome holds a `1`.
pub open spec fn dsa_step(s: DsaModel, item: Seq<Seq<char>>) -> DsaModel {
    if item.len() == 0 {
        s
    } else if seen_before(s.seen, item[0]) {
        DsaModel { nonce_reuse: s.nonce_reuse + 1, ..s }
    } else if !(field_ok(item[0]) && field_ok(item[1])) {
        DsaModel { seen: s.seen.push(item[0]), ..s }
    } else {
        DsaModel {
            seen: s.seen.push(item[0]),
            samples: s.samples.push((field_bytes(item[0]), field_bytes(item[1]))),
            functional: inc_if(s.functional, seq_contains(item[2], "1"@)),
            ..s
        }
    }
}

pub open spec fn dsa_fold(res: Seq<Seq<Seq<char>>>, n: int) -> DsaModel
    decreases n,
{
    if n <= 0 {
        dsa_start()
    } else {
        dsa_step(dsa_fold(res, n - 1), res[n - 1])
    }
}

/// A run can be tallied: a new nonce comes with a signature, and decoded
/// fields with a verification outcome.
pub open spec fn dsa_item_ok(s: DsaModel, item: Seq<Seq<char>>) -> bool {
    item.len() == 0 || seen_before(s.seen, item[0]) || (item.len() >= 2 && ((field_ok(item[0])
        && field_ok(item[1])) ==> item.len() >= 3))
}

pub open spec fn dsa_defined(res: Seq<Seq<Seq<char>>>) -> bool {
    forall|i: int| 0 <= i < res.len() ==> dsa_item_ok(dsa_fold(res, i), #[trigger] res[i])
}

/// Byte `i` of `b`, or 0 past its end.
pub open spec fn byte_or_zero(b: Seq<u8>, i: int) -> int {
    if 0 <= i < b.len() {
        b[i] as int
    } else {
        0
    }
}

/// Row `2i` counts byte `i` of the nonce, row `2i + 1` byte `i` of the signature.
pub open spec fn row_byte(sample: (Seq<u8>, Seq<u8>), row: int) -> int {
    if row % 2 == 0 {
        byte_or_zero(sample.0, row / 2)
    } else {
        byte_or_zero(sample.1, row / 2)
    }
}

pub open spec fn row_count(samples: Seq<(Seq<u8>, Seq<u8>)>, row: int, v: int) -> nat
    decreases samples.len(),
{
    if samples.len() == 0 {
        0
    } else {
        row_count(samples.drop_last(), row, v) + (if row_byte(samples.last(), row) == v {
            1nat
        } else {
            0nat
        })
    }
}

proof fn lemma_row_count_bound(samples: Seq<(Seq<u8>, Seq<u8>)>, row: int, v: int)
    ensures
        row_count(samples, row, v) <= samples.len(),
    decreases samples.len(),
{
    if samples.len() > 0 {
        lemma_row_count_bound(samples.drop_last(), row, v);
    }
}

/// The tally of a signature scheme's runs.
pub struct DsaTally {
    pub cnt: usize,
    pub nonce_reuse: usize,
    pub functional: usize,
    pub samples: Vec<(Vec<u8>, Vec<u8>)>,
    /// For each of 48 rows (`2i`: nonce byte `i`, `2i + 1`: signature byte
    /// `i`, 0 past the end) and byte value `v`, at `256 * row + v`, how
    /// many samples have `v` there.
    pub byte_cnt: Vec<usize>,
}

fn vec_contains(v: &Vec<String>, x: &String) -> (r: bool)
    ensures
        r == seen_before(crate::fields::strs(v@), x@),
{
    let mut i: usize = 0;
    while i < v.len()
        invariant
            i <= v@.len(),
            forall|k: int| 0 <= k < i ==> v@[k]@ != x@,
        decreases v@.len() - i,
    {
        if v[i] == *x {
            assert(crate::fields::strs(v@)[i as int] == x@);
            return true;
        }
        i = i + 1;
    }
    false
}

fn byte_at(b: &Vec<u8>, i: usize) -> (r: u8)
    ensures
        r as int == byte_or_zero(b@, i as int),
{
    if i < b.len() {
        b[i]
    } else {
        0
    }
}

/// Whether `dsa_tally` can tally these runs: every run is one that
/// `dsa_item_ok` admits after the runs before it.
pub fn dsa_runs_ok(res: &Vec<Fields>) -> (b: bool)
    ensures
        b == dsa_defined(fields_model(res@)),
{
    let ghost rm = fields_model(res@);
    let mut nonces: Vec<String> = Vec::new();
    assert(crate::fields::strs(nonces@) =~= seq![]);
    let mut i: usize = 0;
    while i < res.len()
        invariant
            rm == fields_model(res@),
            i <= res@.len(),
            crate::fields::strs(nonces@) == dsa_fold(rm, i as int).seen,
            forall|k: int| 0 <= k < i ==> dsa_item_ok(dsa_fold(rm, k), #[trigger] rm[k]),
        decreases res@.len() - i,
    {
        let item = &res[i];
        assert(rm[i as int] == item@);
        if item.0.len() == 0 {
        } else if vec_contains(&nonces, &item.0[0]) {
        } else {
            if item.0.len() < 2 {
                return false;
            }
            let decodes = decode_hex(item.0[0].as_str().as_bytes()).is_ok() && decode_hex(
                item.0[1].as_str().as_bytes(),
            ).is_ok();
            if decodes && item.0.len() < 3 {
                return false;
            }
            let ghost old_seen = crate::fields::strs(nonces@);
            nonces.push(item.0[0].clone());
            assert(crate::fields::strs(nonces@) =~= old_seen.push(item@[0]));
        }
        i = i + 1;
    }
    true
}

/// Tallies the runs of a signature scheme.
pub fn dsa_tally(res: &Vec<Fields>) -> (t: DsaTally)
    requires
        dsa_defined(fields_model(res@)),
    ensures
        t.cnt == res@.len(),
        ({
            let m = dsa_fold(fields_model(res@), res@.len() as int);
            &&& t.nonce_reuse == m.nonce_reuse
            &&& t.functional == m.functional
            &&& samples_model(t.samples@) == m.samples
            &&& t.byte_cnt@.len() == 48 * 256
            &&& forall|row: int, v: int|
                0 <= row < 48 && 0 <= v < 256 ==> t.byte_cnt@[256 * row + v] == row_count(
                    m.samples,
                    row,
                    v,
                )
        }),
{
    let ghost rm = fields_model(res@);
    let cnt = res.len();
    let mut nonce_reuse: usize = 0;
    let mut functional: usize = 0;
    // The nonces seen so far, each held once.
    let mut nonces: Vec<String> = Vec::new();
    let mut samples: Vec<(Vec<u8>, Vec<u8>)> = Vec::new();
    let mut byte_cnt: Vec<usize> = Vec::new();
    let mut z: usize = 0;
    while z < 48 * 256
        invariant
            z <= 48 * 256,
            byte_cnt@.len() == z,
            forall|k: int| 0 <= k < z ==> byte_cnt@[k] == 0,
        decreases 48 * 256 - z,
    {
        byte_cnt.push(0);
        z = z + 1;
    }
    assert(samples_model(samples@) =~= seq![]);
    assert(crate::fields::strs(nonces@) =~= seq![]);
    let mut i: usize = 0;
    while i < cnt
        invariant
            rm == fields_model(res@),
            cnt == res@.len(),
            i <= cnt,
            dsa_defined(rm),
            ({
                let m = dsa_fold(rm, i as int);
                &&& nonce_reuse == m.nonce_reuse
                &&& functional == m.functional
                &&& crate::fields::strs(nonces@) == m.seen
                &&& samples_model(samples@) == m.samples
            }),
            nonce_reuse <= i,
            functional <= i,
            samples@.len() <= i,
            forall|x: int, y: int|
                0 <= x < y < nonces@.len() ==> nonces@[x]@ != nonces@[y]@,
            byte_cnt@.len() == 48 * 256,
            forall|row: int, v: int|
                0 <= row < 48 && 0 <= v < 256 ==> byte_cnt@[256 * row + v] == row_count(
                    samples_model(samples@),
                    row,
                    v,
                ),
        decreases cnt - i,
    {
        let item = &res[i];
        assert(rm[i as int] == item@);
        assert(dsa_item_ok(dsa_fold(rm, i as int), rm[i as int]));
        if item.0.len() == 0 {
        } else if vec_contains(&nonces, &item.0[0]) {
            nonce_reuse = nonce_reuse + 1;
        } else {
            let ghost old_seen = crate::fields::strs(nonces@);
            nonces.push(item.0[0].clone());
            assert(crate::fields::strs(nonces@) =~= old_seen.push(item@[0]));
            assert forall|x: int, y: int|
                0 <= x < y < nonces@.len() implies nonces@[x]@ != nonces@[y]@ by {
                if y == nonces@.len() - 1 {
                    assert(crate::fields::strs(nonces@)[x] == nonces@[x]@);
                    assert(old_seen[x] == nonces@[x]@);
                }
            }
            match (decode_hex(item.0[0].as_str().as_bytes()), decode_hex(item.0[1].as_str().as_bytes())) {
                (Ok(nt), Ok(st)) => {
                    let ghost old_samples = samples_model(samples@);
                    let mut k: usize = 0;
                    while k < 48
                        invariant
                            0 <= k <= 48,
                            byte_cnt@.len() == 48 * 256,
                            old_samples.len() <= i,
                            i < cnt,
                            forall|row: int, v: int|
                                0 <= row < 48 && 0 <= v < 256 ==> byte_cnt@[256 * row + v]
                                    == row_count(old_samples, row, v) + (if row < k && row_byte(
                                    (nt@, st@),
                                    row,
                                ) == v {
                                    1nat
                                } else {
                                    0nat
                                }),
                        decreases 48 - k,
                    {
                        let b = if k % 2 == 0 {
                            byte_at(&nt, k / 2)
                        } else {
                            byte_at(&st, k / 2)
                        };
                        assert(b as int == row_byte((nt@, st@), k as int));
                        let idx = 256 * k + b as usize;
                        proof {
                            lemma_row_count_bound(old_samples, k as int, b as int);
                            assert(byte_cnt@[256 * k + b] == row_count(old_samples, k as int, b as int));
                        }
                        let v = byte_cnt[idx];
                        byte_cnt.set(idx, v + 1);
                        k = k + 1;
                    }
                    let ghost ntv = nt@;
                    let ghost stv = st@;
                    samples.push((nt, st));
                    assert(samples_model(samples@) =~= old_samples.push((ntv, stv)));
                    assert forall|row: int, v: int|
                        0 <= row < 48 && 0 <= v < 256 implies byte_cnt@[256 * row + v] == row_count(
                        samples_model(samples@),
                        row,
                        v,
                    ) by {
                        let ns = samples_model(samples@);
                        assert(ns.drop_last() =~= old_samples);
                        assert(ns.last() == (ntv, stv));
                        assert(row_count(ns, row, v) == row_count(old_samples, row, v) + (if row_byte(
                            (ntv, stv),
                            row,
                        ) == v {
                            1nat
                        } else {
                            0nat
                        }));
                    }
                    if str_contains(item.0[2].as_str(), "1") {
                        functional = functional + 1;
                    }
                },
                _ => {},
            }
        }
        i = i + 1;
    }
    DsaTally { cnt, nonce_reuse, functional, samples, byte_cnt }
}

/// The effect classes of a signature scheme.
#[derive(Debug, Clone, Copy, PartialEq, Eq)]
pub enum DsaClass {
    NonceReuse,
    VerificationFail,
    Functional,
    OddBytes,
    PartiallyFunctional,
    Unknown,
}

/// The class of a tally, given whether some row has low entropy: a reused
/// nonce, then low entropy, then all functional, some functional, none.
pub open spec fn dsa_class_spec(t: DsaTally, entropy_low: bool) -> DsaClass {
    if t.nonce_reuse != 0 {
        DsaClass::NonceReuse
    } else if entropy_low {
        DsaClass::OddBytes
    } else if t.functional == t.cnt {
        DsaClass::Functional
    } else if t.functional != 0 {
        DsaClass::PartiallyFunctional
    } else {
        DsaClass::VerificationFail
    }
}

/// What the class of a tally must be: a reused nonce first, then low
/// entropy, then all signatures verified (functional), some of them
/// (partially functional), or none.
pub open spec fn dsa_class_rules(t: DsaTally, entropy_low: bool, c: DsaClass) -> bool {
    let plain = t.nonce_reuse == 0 && !entropy_low;
    &&& (t.nonce_reuse != 0 ==> c == DsaClass::NonceReuse)
    &&& (t.nonce_reuse == 0 && entropy_low ==> c == DsaClass::OddBytes)
    &&& (plain && t.functional == t.cnt ==> c == DsaClass::Functional)
    &&& (plain && t.functional != 0 && t.functional != t.cnt ==> c == DsaClass::PartiallyFunctional)
    &&& (plain && t.functional == 0 && t.cnt != 0 ==> c == DsaClass::VerificationFail)
    &&& (c == DsaClass::PartiallyFunctional ==> t.functional != 0 && t.functional != t.cnt)
    &&& (c == DsaClass::Functional ==> t.functional == t.cnt)
    &&& c != DsaClass::Unknown
}

/// Law: the class of a tally follows the rules above for every tally.
pub proof fn law_dsa_class_rules(t: DsaTally, entropy_low: bool)
    ensures
        dsa_class_rules(t, entropy_low, dsa_class_spec(t, entropy_low)),
{
}

pub fn dsa_class(t: &DsaTally, entropy_low: bool) -> (c: DsaClass)
    ensures
        c == dsa_class_spec(*t, entropy_low),
        dsa_class_rules(*t, entropy_low, c),
{
    proof {
        law_dsa_class_rules(*t, entropy_low);
    }
    if t.nonce_reuse != 0 {
        DsaClass::NonceReuse
    } else if entropy_low {
        DsaClass::OddBytes
    } else if t.functional == t.cnt {
        DsaClass::Functional
    } else if t.functional != 0 {
        DsaClass::PartiallyFunctional
    } else {
        DsaClass::VerificationFail
    }
}

} // verus!
