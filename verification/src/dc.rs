//! Tallies of a deterministic cipher's runs under faults: how the
//! encryptions and decryptions of faulty runs compare with the expected
//! ones.  Each group of results holds the plaintext, the ciphertext and the
//! decrypted text, in hexadecimal.

use vstd::prelude::*;
use crate::fields::Fields;
use crate::hexcodec::{decode_hex, hex_text_ok, hex_decoded};
use crate::text::utf8_of;

verus! {

/// The bytes that a hexadecimal field stands for.
pub open spec fn field_bytes(f: Seq<char>) -> Seq<u8> {
    hex_decoded(utf8_of(f))
}

pub open spec fn field_ok(f: Seq<char>) -> bool {
    hex_text_ok(utf8_of(f))
}

/// The state of a tally.
pub struct DcModel {
    pub correct: nat,
    pub odd_plaintext: nat,
    pub decrypt_fail: nat,
    pub functional: nat,
    pub dupe_etext: nat,
    pub dupe_dtext: nat,
    /// Plaintext and ciphertext of each run whose results were decoded.
    pub samples: Seq<(Seq<u8>, Seq<u8>)>,
    pub last_ct: Seq<u8>,
    pub last_rt: Seq<u8>,
}

pub open spec fn dc_start() -> DcModel {
    DcModel {
        correct: 0,
        odd_plaintext: 0,
        decrypt_fail: 0,
        functional: 0,
        dupe_etext: 0,
        dupe_dtext: 0,
        samples: seq![],
        last_ct: seq![],
        last_rt: seq![],
    }
}

pub open spec fn inc_if(n: nat, b: bool) -> nat {
    if b {
        n + 1
    } else {
        n
    }
}

/// What one run `r`, with expected results `e`, adds to a tally: equal
/// results are correct; empty results count for nothing; a different
/// plaintext is an odd plaintext; otherwise the results are decoded, a
/// ciphertext or decrypted text equal to the previous decoded run's is a
/// duplicate, and the run counts as a failed decryption (same ciphertext,
/// other decrypted text) or as functional (other ciphertext, decryption
/// gives the plaintext back).
pub open spec fn dc_step(s: DcModel, r: Seq<Seq<char>>, e: Seq<Seq<char>>) -> DcModel {
    if r == e {
        DcModel { correct: s.correct + 1, ..s }
    } else if r.len() == 0 {
        s
    } else if r[0] != e[0] {
        DcModel { odd_plaintext: s.odd_plaintext + 1, ..s }
    } else {
        let pt = field_bytes(r[0]);
        let ct = field_bytes(r[1]);
        let rt = field_bytes(r[2]);
        let fail = r[1] == e[1] && r[2] != e[2];
        let func = !fail && r[1] != e[1] && r[0] == r[2];
        DcModel {
            dupe_etext: inc_if(s.dupe_etext, ct == s.last_ct),
            dupe_dtext: inc_if(s.dupe_dtext, rt == s.last_rt),
            samples: s.samples.push((pt, ct)),
            last_ct: ct,
            last_rt: rt,
            decrypt_fail: inc_if(s.decrypt_fail, fail),
            functional: inc_if(s.functional, func),
            ..s
        }
    }
}

/// The tally of the first `n` runs.
pub open spec fn dc_fold(res: Seq<Seq<Seq<char>>>, expect: Seq<Seq<Seq<char>>>, n: int) -> DcModel
    decreases n,
{
    if n <= 0 {
        dc_start()
    } else {
        dc_step(dc_fold(res, expect, n - 1), res[n - 1], expect[n - 1])
    }
}

/// A run can be tallied: when its results are decoded, the expected
/// results and its own have the fields that are compared, its fields are
/// hexadecimal, and plaintext and ciphertext have at least 16 bytes.
pub open spec fn dc_item_ok(r: Seq<Seq<char>>, e: Seq<Seq<char>>) -> bool {
    r == e || r.len() == 0 || (e.len() >= 1 && (r[0] != e[0] || (r.len() >= 3 && field_ok(r[0])
        && field_ok(r[1]) && field_ok(r[2]) && field_bytes(r[0]).len() >= 16 && field_bytes(
        r[1],
    ).len() >= 16 && e.len() >= 2 && (r[1] == e[1] ==> e.len() >= 3))))
}

pub open spec fn min_len(a: nat, b: nat) -> nat {
    if a < b {
        a
    } else {
        b
    }
}

pub open spec fn dc_defined(res: Seq<Seq<Seq<char>>>, expect: Seq<Seq<Seq<char>>>) -> bool {
    forall|i: int|
        0 <= i < min_len(res.len(), expect.len()) ==> dc_item_ok(#[trigger] res[i], expect[i])
}

/// How many samples have byte `v` at position `j` of the ciphertext.
pub open spec fn ct_byte_count(samples: Seq<(Seq<u8>, Seq<u8>)>, j: int, v: int) -> nat
    decreases samples.len(),
{
    if samples.len() == 0 {
        0
    } else {
        ct_byte_count(samples.drop_last(), j, v) + (if samples.last().1[j] == v {
            1nat
        } else {
            0nat
        })
    }
}

proof fn lemma_ct_count_bound(samples: Seq<(Seq<u8>, Seq<u8>)>, j: int, v: int)
    ensures
        ct_byte_count(samples, j, v) <= samples.len(),
    decreases samples.len(),
{
    if samples.len() > 0 {
        lemma_ct_count_bound(samples.drop_last(), j, v);
    }
}

/// The tally of a deterministic cipher's runs.
pub struct DcTally {
    /// The number of runs compared: the shorter of the two lists.
    pub cnt: usize,
    pub correct: usize,
    pub odd_plaintext: usize,
    pub decrypt_fail: usize,
    pub functional: usize,
    pub dupe_etext: usize,
    pub dupe_dtext: usize,
    /// Plaintext and ciphertext of each decoded run, in order.
    pub samples: Vec<(Vec<u8>, Vec<u8>)>,
    /// For each of the first 16 ciphertext positions `j` and byte value
    /// `v`, at `256 * j + v`, how many decoded runs have `v` there.
    pub byte_cnt: Vec<usize>,
}

pub open spec fn samples_model(v: Seq<(Vec<u8>, Vec<u8>)>) -> Seq<(Seq<u8>, Seq<u8>)> {
    v.map_values(|p: (Vec<u8>, Vec<u8>)| (p.0@, p.1@))
}

pub open spec fn fields_model(v: Seq<Fields>) -> Seq<Seq<Seq<char>>> {
    v.map_values(|f: Fields| f@)
}

fn strings_eq(a: &Vec<String>, b: &Vec<String>) -> (r: bool)
    ensures
        r == (crate::fields::strs(a@) == crate::fields::strs(b@)),
{
    if a.len() != b.len() {
        return false;
    }
    let mut i: usize = 0;
    while i < a.len()
        invariant
            a@.len() == b@.len(),
            i <= a@.len(),
            forall|k: int| 0 <= k < i ==> a@[k]@ == b@[k]@,
        decreases a@.len() - i,
    {
        if !(a[i] == b[i]) {
            assert(crate::fields::strs(a@)[i as int] != crate::fields::strs(b@)[i as int]);
            return false;
        }
        i = i + 1;
    }
    assert(crate::fields::strs(a@) =~= crate::fields::strs(b@));
    true
}

fn bytes_eq(a: &Vec<u8>, b: &Vec<u8>) -> (r: bool)
    ensures
        r == (a@ == b@),
{
    if a.len() != b.len() {
        return false;
    }
    let mut i: usize = 0;
    while i < a.len()
        invariant
            a@.len() == b@.len(),
            i <= a@.len(),
            forall|k: int| 0 <= k < i ==> a@[k] == b@[k],
        decreases a@.len() - i,
    {
        if a[i] != b[i] {
            return false;
        }
        i = i + 1;
    }
    assert(a@ =~= b@);
    true
}

fn decode_field(f: &String) -> (r: Vec<u8>)
    requires
        field_ok(f@),
    ensures
        r@ == field_bytes(f@),
{
    match decode_hex(f.as_str().as_bytes()) {
        Ok(v) => v,
        Err(_) => {
            assert(false);
            Vec::new()
        },
    }
}

fn field_len(f: &String) -> (r: Option<usize>)
    ensures
        r is Some <==> field_ok(f@),
        r matches Some(n) ==> n == field_bytes(f@).len(),
{
    match decode_hex(f.as_str().as_bytes()) {
        Ok(v) => Some(v.len()),
        Err(_) => None,
    }
}

fn dc_item_check(r: &Fields, e: &Fields) -> (b: bool)
    ensures
        b == dc_item_ok(r@, e@),
{
    if strings_eq(&r.0, &e.0) {
        return true;
    }
    if r.0.len() == 0 {
        return true;
    }
    if e.0.len() < 1 {
        return false;
    }
    if !(r.0[0] == e.0[0]) {
        return true;
    }
    if r.0.len() < 3 || e.0.len() < 2 {
        return false;
    }
    let n0 = field_len(&r.0[0]);
    let n1 = field_len(&r.0[1]);
    let n2 = field_len(&r.0[2]);
    match (n0, n1, n2) {
        (Some(a), Some(b), Some(_)) => a >= 16 && b >= 16 && (!(r.0[1] == e.0[1]) || e.0.len()
            >= 3),
        _ => false,
    }
}

/// Whether `dc_tally` can tally these runs: every run paired with an
/// expected one is one that `dc_item_ok` admits.
pub fn dc_runs_ok(expect: &Vec<Fields>, res: &Vec<Fields>) -> (b: bool)
    ensures
        b == dc_defined(fields_model(res@), fields_model(expect@)),
{
    let ghost rm = fields_model(res@);
    let ghost em = fields_model(expect@);
    let cnt = if res.len() < expect.len() {
        res.len()
    } else {
        expect.len()
    };
    let mut i: usize = 0;
    while i < cnt
        invariant
            rm == fields_model(res@),
            em == fields_model(expect@),
            cnt == min_len(res@.len(), expect@.len()),
            i <= cnt,
            forall|k: int| 0 <= k < i ==> dc_item_ok(#[trigger] rm[k], em[k]),
        decreases cnt - i,
    {
        assert(rm[i as int] == res@[i as int]@ && em[i as int] == expect@[i as int]@);
        if !dc_item_check(&res[i], &expect[i]) {
            return false;
        }
        i = i + 1;
    }
    true
}

/// Tallies the runs `res` against the expected results `expect`, pairing
/// them in order up to the shorter list.
pub fn dc_tally(expect: &Vec<Fields>, res: &Vec<Fields>) -> (t: DcTally)
    requires
        dc_defined(fields_model(res@), fields_model(expect@)),
    ensures
        t.cnt == min_len(res@.len(), expect@.len()),
        ({
            let m = dc_fold(fields_model(res@), fields_model(expect@), t.cnt as int);
            &&& t.correct == m.correct
            &&& t.odd_plaintext == m.odd_plaintext
            &&& t.decrypt_fail == m.decrypt_fail
            &&& t.functional == m.functional
            &&& t.dupe_etext == m.dupe_etext
            &&& t.dupe_dtext == m.dupe_dtext
            &&& samples_model(t.samples@) == m.samples
            &&& t.byte_cnt@.len() == 4096
            &&& forall|j: int, v: int|
                0 <= j < 16 && 0 <= v < 256 ==> t.byte_cnt@[256 * j + v] == ct_byte_count(
                    m.samples,
                    j,
                    v,
                )
        }),
{
    let ghost rm = fields_model(res@);
    let ghost em = fields_model(expect@);
    let cnt = if res.len() < expect.len() {
        res.len()
    } else {
        expect.len()
    };
    let mut correct: usize = 0;
    let mut odd_plaintext: usize = 0;
    let mut decrypt_fail: usize = 0;
    let mut functional: usize = 0;
    let mut dupe_etext: usize = 0;
    let mut dupe_dtext: usize = 0;
    let mut samples: Vec<(Vec<u8>, Vec<u8>)> = Vec::new();
    let mut last_ct: Vec<u8> = Vec::new();
    let mut last_rt: Vec<u8> = Vec::new();
    let mut byte_cnt: Vec<usize> = Vec::new();
    let mut z: usize = 0;
    while z < 4096
        invariant
            z <= 4096,
            byte_cnt@.len() == z,
            forall|k: int| 0 <= k < z ==> byte_cnt@[k] == 0,
        decreases 4096 - z,
    {
        byte_cnt.push(0);
        z = z + 1;
    }
    assert(samples_model(samples@) =~= seq![]);
    let mut i: usize = 0;
    while i < cnt
        invariant
            rm == fields_model(res@),
            em == fields_model(expect@),
            cnt == min_len(res@.len(), expect@.len()),
            i <= cnt,
            dc_defined(rm, em),
            ({
                let m = dc_fold(rm, em, i as int);
                &&& correct == m.correct
                &&& odd_plaintext == m.odd_plaintext
                &&& decrypt_fail == m.decrypt_fail
                &&& functional == m.functional
                &&& dupe_etext == m.dupe_etext
                &&& dupe_dtext == m.dupe_dtext
                &&& samples_model(samples@) == m.samples
                &&& last_ct@ == m.last_ct
                &&& last_rt@ == m.last_rt
            }),
            correct <= i,
            odd_plaintext <= i,
            decrypt_fail <= i,
            functional <= i,
            dupe_etext <= i,
            dupe_dtext <= i,
            samples@.len() <= i,
            byte_cnt@.len() == 4096,
            forall|j: int, v: int|
                0 <= j < 16 && 0 <= v < 256 ==> byte_cnt@[256 * j + v] == ct_byte_count(
                    samples_model(samples@),
                    j,
                    v,
                ),
        decreases cnt - i,
    {
        let r = &res[i];
        let e = &expect[i];
        assert(rm[i as int] == r@ && em[i as int] == e@);
        assert(dc_item_ok(rm[i as int], em[i as int]));
        if strings_eq(&r.0, &e.0) {
            correct = correct + 1;
        } else if r.0.len() == 0 {
            assert(r@ =~= seq![]);
        } else if !(r.0[0] == e.0[0]) {
            odd_plaintext = odd_plaintext + 1;
        } else {
            let pt = decode_field(&r.0[0]);
            let ct = decode_field(&r.0[1]);
            let rt = decode_field(&r.0[2]);
            let ghost old_samples = samples_model(samples@);
            let mut j: usize = 0;
            while j < 16
                invariant
                    0 <= j <= 16,
                    ct@.len() >= 16,
                    byte_cnt@.len() == 4096,
                    samples@.len() <= i,
                    i < cnt,
                    old_samples == samples_model(samples@),
                    forall|jj: int, v: int|
                        0 <= jj < 16 && 0 <= v < 256 ==> byte_cnt@[256 * jj + v] == ct_byte_count(
                            old_samples,
                            jj,
                            v,
                        ) + (if jj < j && ct@[jj] == v {
                            1nat
                        } else {
                            0nat
                        }),
                decreases 16 - j,
            {
                let idx = 256 * j + ct[j] as usize;
                proof {
                    lemma_ct_count_bound(old_samples, j as int, ct@[j as int] as int);
                    assert(byte_cnt@[256 * j + ct@[j as int]] == ct_byte_count(
                        old_samples,
                        j as int,
                        ct@[j as int] as int,
                    ));
                }
                let v = byte_cnt[idx];
                byte_cnt.set(idx, v + 1);
                j = j + 1;
            }
            if bytes_eq(&ct, &last_ct) {
                dupe_etext = dupe_etext + 1;
            }
            if bytes_eq(&rt, &last_rt) {
                dupe_dtext = dupe_dtext + 1;
            }
            let fail = r.0[1] == e.0[1] && !(r.0[2] == e.0[2]);
            let func = !fail && !(r.0[1] == e.0[1]) && r.0[0] == r.0[2];
            if fail {
                decrypt_fail = decrypt_fail + 1;
            }
            if func {
                functional = functional + 1;
            }
            last_ct = ct.clone();
            last_rt = rt;
            let ghost ptv = pt@;
            let ghost ctv = ct@;
            samples.push((pt, ct));
            assert(samples_model(samples@) =~= old_samples.push((ptv, ctv)));
            assert forall|jj: int, v: int|
                0 <= jj < 16 && 0 <= v < 256 implies byte_cnt@[256 * jj + v] == ct_byte_count(
                samples_model(samples@),
                jj,
                v,
            ) by {
                let ns = samples_model(samples@);
                assert(ns.drop_last() =~= old_samples);
                assert(ns.last() == (ptv, ctv));
                assert(ns.len() > 0);
                assert(ct_byte_count(ns, jj, v) == ct_byte_count(old_samples, jj, v) + (if ctv[jj]
                    == v {
                    1nat
                } else {
                    0nat
                }));
                assert(byte_cnt@[256 * jj + v] == ct_byte_count(old_samples, jj, v) + (if ctv[jj]
                    == v {
                    1nat
                } else {
                    0nat
                }));
            }
        }
        i = i + 1;
    }
    DcTally {
        cnt,
        correct,
        odd_plaintext,
        decrypt_fail,
        functional,
        dupe_etext,
        dupe_dtext,
        samples,
        byte_cnt,
    }
}

/// The effect classes of a deterministic cipher.
#[derive(Debug, Clone, Copy, PartialEq, Eq)]
pub enum DcClass {
    Correct,
    Functional,
    OddPlaintext,
    DupeCiphertext,
    DupeDecrypted,
    PartiallyCorrect,
    PartiallyFunctional,
    OddBytes,
    DecryptFail,
    EqualByByteKey,
    EqualByBytePlaintext,
    Unknown,
}

/// The class of a tally, given whether the key shows in the ciphertexts
/// (`key_high`), whether the plaintext does (`pt_high`), and whether some
/// ciphertext position has low entropy (`entropy_low`); the first that
/// applies of: duplicate ciphertexts, duplicate decryptions, key shown,
/// plaintext shown, low entropy (these three only when some run was
/// decoded, since nothing shows otherwise), odd
/// plaintexts, all correct, some correct, all functional, some functional,
/// failed decryptions, and otherwise unknown.
pub open spec fn dc_class_spec(
    t: DcTally,
    key_high: bool,
    pt_high: bool,
    entropy_low: bool,
) -> DcClass {
    if t.dupe_etext > 0 {
        DcClass::DupeCiphertext
    } else if t.dupe_dtext > 0 {
        DcClass::DupeDecrypted
    } else if t.samples@.len() > 0 && key_high {
        DcClass::EqualByByteKey
    } else if t.samples@.len() > 0 && pt_high {
        DcClass::EqualByBytePlaintext
    } else if t.samples@.len() > 0 && entropy_low {
        DcClass::OddBytes
    } else if t.odd_plaintext != 0 {
        DcClass::OddPlaintext
    } else if t.correct == t.cnt {
        DcClass::Correct
    } else if t.correct != 0 {
        DcClass::PartiallyCorrect
    } else if t.functional == t.cnt {
        DcClass::Functional
    } else if t.functional != 0 {
        DcClass::PartiallyFunctional
    } else if t.decrypt_fail != 0 {
        DcClass::DecryptFail
    } else {
        DcClass::Unknown
    }
}

/// What the class of a tally must be, case by case: duplicates first,
/// then what leaks (only once some run was decoded), then odd plaintexts
/// whatever the count of correct runs, then the correct, functional and
/// failed runs.
pub open spec fn dc_class_rules(
    t: DcTally,
    key_high: bool,
    pt_high: bool,
    entropy_low: bool,
    c: DcClass,
) -> bool {
    let decoded = t.samples@.len() > 0;
    let no_dupe = t.dupe_etext == 0 && t.dupe_dtext == 0;
    let quiet = no_dupe && !(decoded && (key_high || pt_high || entropy_low));
    let normal = quiet && t.odd_plaintext == 0;
    &&& (t.dupe_etext > 0 ==> c == DcClass::DupeCiphertext)
    &&& (t.dupe_etext == 0 && t.dupe_dtext > 0 ==> c == DcClass::DupeDecrypted)
    &&& (no_dupe && decoded && key_high ==> c == DcClass::EqualByByteKey)
    &&& (no_dupe && decoded && !key_high && pt_high ==> c == DcClass::EqualByBytePlaintext)
    &&& (no_dupe && decoded && !key_high && !pt_high && entropy_low ==> c == DcClass::OddBytes)
    &&& (quiet && t.odd_plaintext != 0 ==> c == DcClass::OddPlaintext)
    &&& (normal && t.correct == t.cnt ==> c == DcClass::Correct)
    &&& (normal && t.correct != 0 && t.correct != t.cnt ==> c == DcClass::PartiallyCorrect)
    &&& (normal && t.correct == 0 && t.cnt != 0 && t.functional == t.cnt ==> c == DcClass::Functional)
    &&& (normal && t.correct == 0 && t.cnt != 0 && t.functional != 0 && t.functional != t.cnt ==> c
        == DcClass::PartiallyFunctional)
    &&& (normal && t.correct == 0 && t.cnt != 0 && t.functional == 0 && t.decrypt_fail != 0 ==> c
        == DcClass::DecryptFail)
    &&& (normal && t.correct == 0 && t.cnt != 0 && t.functional == 0 && t.decrypt_fail == 0 ==> c
        == DcClass::Unknown)
    &&& (c == DcClass::Correct ==> t.correct == t.cnt && t.odd_plaintext == 0)
    &&& (c == DcClass::PartiallyCorrect ==> t.odd_plaintext == 0 && t.correct != 0 && t.correct
        != t.cnt)
}

/// Law: the class of a tally follows the rules above for every tally and
/// every outcome of the leak tests.
pub proof fn law_dc_class_rules(t: DcTally, key_high: bool, pt_high: bool, entropy_low: bool)
    ensures
        dc_class_rules(t, key_high, pt_high, entropy_low, dc_class_spec(t, key_high, pt_high, entropy_low)),
{
}

pub fn dc_class(t: &DcTally, key_high: bool, pt_high: bool, entropy_low: bool) -> (c: DcClass)
    ensures
        c == dc_class_spec(*t, key_high, pt_high, entropy_low),
        dc_class_rules(*t, key_high, pt_high, entropy_low, c),
{
    proof {
        law_dc_class_rules(*t, key_high, pt_high, entropy_low);
    }
    if t.dupe_etext > 0 {
        DcClass::DupeCiphertext
    } else if t.dupe_dtext > 0 {
        DcClass::DupeDecrypted
    } else if t.samples.len() > 0 && key_high {
        DcClass::EqualByByteKey
    } else if t.samples.len() > 0 && pt_high {
        DcClass::EqualByBytePlaintext
    } else if t.samples.len() > 0 && entropy_low {
        DcClass::OddBytes
    } else if t.odd_plaintext != 0 {
        DcClass::OddPlaintext
    } else if t.correct == t.cnt {
        DcClass::Correct
    } else if t.correct != 0 {
        DcClass::PartiallyCorrect
    } else if t.functional == t.cnt {
        DcClass::Functional
    } else if t.functional != 0 {
        DcClass::PartiallyFunctional
    } else if t.decrypt_fail != 0 {
        DcClass::DecryptFail
    } else {
        DcClass::Unknown
    }
}

} // verus!
