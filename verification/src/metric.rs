//! How much of a secret shows in an output.

use vstd::prelude::*;

verus! {

/// A distance between a secret and an output.
pub trait Metric {
    type Output;

    spec fn spec_dist(secret: Seq<u8>, output: Seq<u8>) -> Self::Output;

    fn dist(secret: &[u8], output: &[u8]) -> (r: Self::Output)
        requires
            secret@.len() > 0,
        ensures
            r == Self::spec_dist(secret@, output@),
    ;
}

/// Compares the secret byte by byte with each secret-sized chunk of the
/// output; the distance is the best chunk's share of equal bytes.
pub struct EqualByByte;

/// A share: `matched` out of `total`.
#[derive(Debug, Clone, Copy, PartialEq, Eq)]
pub struct ByteMatch {
    pub matched: usize,
    pub total: usize,
}

/// The number of positions `i` below `n` with `output[start + i] == secret[i]`.
pub open spec fn equal_bytes(secret: Seq<u8>, output: Seq<u8>, start: int, n: int) -> nat
    decreases n,
{
    if n <= 0 {
        0
    } else {
        equal_bytes(secret, output, start, n - 1) + (if output[start + n - 1] == secret[n - 1] {
            1nat
        } else {
            0nat
        })
    }
}

/// The number of equal bytes between the secret and the chunk of the
/// output that starts at `start` (a last, shorter chunk is compared on its length).
pub open spec fn chunk_matches(secret: Seq<u8>, output: Seq<u8>, start: int) -> nat {
    let n = if output.len() - start < secret.len() {
        output.len() - start
    } else {
        secret.len() as int
    };
    equal_bytes(secret, output, start, n)
}

/// The most equal bytes in any chunk from `start` on (0 when there is none).
pub open spec fn best_matches(secret: Seq<u8>, output: Seq<u8>, start: int) -> nat
    decreases output.len() - start,
{
    if secret.len() == 0 || start < 0 || start >= output.len() {
        0
    } else {
        let here = chunk_matches(secret, output, start);
        let rest = if start + secret.len() < output.len() {
            best_matches(secret, output, start + secret.len())
        } else {
            0
        };
        if here >= rest {
            here
        } else {
            rest
        }
    }
}

fn count_equal(secret: &[u8], output: &[u8], start: usize, n: usize) -> (r: usize)
    requires
        n <= secret@.len(),
        start + n <= output@.len(),
    ensures
        r == equal_bytes(secret@, output@, start as int, n as int),
{
    let m = output.len();
    let mut c: usize = 0;
    let mut i: usize = 0;
    while i < n
        invariant
            m == output@.len(),
            n <= secret@.len(),
            start + n <= output@.len(),
            i <= n,
            c == equal_bytes(secret@, output@, start as int, i as int),
            c <= i,
        decreases n - i,
    {
        if output[start + i] == secret[i] {
            c = c + 1;
        }
        i = i + 1;
    }
    c
}

impl Metric for EqualByByte {
    type Output = ByteMatch;

    open spec fn spec_dist(secret: Seq<u8>, output: Seq<u8>) -> ByteMatch {
        ByteMatch {
            matched: best_matches(secret, output, 0) as usize,
            total: secret.len() as usize,
        }
    }

    fn dist(secret: &[u8], output: &[u8]) -> (r: ByteMatch)
        ensures
            r.total == secret@.len(),
            forall|c: int|
                0 <= c < output@.len() && c % (secret@.len() as int) == 0 ==> r.matched
                    >= #[trigger] chunk_matches(secret@, output@, c),
            output@.len() > 0 ==> exists|c: int|
                0 <= c < output@.len() && c % (secret@.len() as int) == 0 && r.matched
                    == #[trigger] chunk_matches(secret@, output@, c),
            output@.len() == 0 ==> r.matched == 0,
    {
        let k = secret.len();
        proof {
            law_dist_best_chunk(secret@, output@);
        }
        let m = output.len();
        let mut best: usize = 0;
        let mut start: usize = 0;
        while start < m
            invariant
                k == secret@.len(),
                k > 0,
                m == output@.len(),
                start <= m,
                best <= k,
                best_matches(secret@, output@, 0) == (if best as nat >= best_matches(
                    secret@,
                    output@,
                    start as int,
                ) {
                    best as nat
                } else {
                    best_matches(secret@, output@, start as int)
                }),
            decreases m - start,
        {
            let n = if m - start < k {
                m - start
            } else {
                k
            };
            let here = count_equal(secret, output, start, n);
            let next = if m - start < k {
                m
            } else {
                start + k
            };
            proof {
                lemma_equal_bytes_bound(secret@, output@, start as int, n as int);
                assert(here == chunk_matches(secret@, output@, start as int));
                let b_next = best_matches(secret@, output@, next as int);
                if next == m {
                    assert(b_next == 0);
                }
                assert(best_matches(secret@, output@, start as int) == (if here as nat >= b_next {
                    here as nat
                } else {
                    b_next
                }));
            }
            if here > best {
                best = here;
            }
            start = next;
        }
        ByteMatch { matched: best, total: k }
    }
}

proof fn lemma_equal_bytes_bound(secret: Seq<u8>, output: Seq<u8>, start: int, n: int)
    requires
        n >= 0,
    ensures
        equal_bytes(secret, output, start, n) <= n,
    decreases n,
{
    if n > 0 {
        lemma_equal_bytes_bound(secret, output, start, n - 1);
    }
}


/// Law: the share of equal bytes never exceeds the whole: at most as many
/// bytes match as the secret has.
pub proof fn law_match_at_most_secret(secret: Seq<u8>, output: Seq<u8>, start: int)
    ensures
        best_matches(secret, output, start) <= secret.len(),
    decreases output.len() - start,
{
    if secret.len() > 0 && 0 <= start < output.len() {
        let n = if output.len() - start < secret.len() {
            output.len() - start
        } else {
            secret.len() as int
        };
        lemma_equal_bytes_bound(secret, output, start, n);
        if start + secret.len() < output.len() {
            law_match_at_most_secret(secret, output, start + secret.len());
        }
    }
}


proof fn lemma_next_multiple(c: int, st: int, k: int)
    requires
        k > 0,
        0 <= st < c,
        c % k == 0,
        st % k == 0,
    ensures
        c >= st + k,
        (st + k) % k == 0,
{
    vstd::arithmetic::div_mod::lemma_fundamental_div_mod(c, k);
    vstd::arithmetic::div_mod::lemma_fundamental_div_mod(st, k);
    let qc = c / k;
    let qs = st / k;
    assert(qc > qs) by (nonlinear_arith)
        requires
            c == k * qc,
            st == k * qs,
            c > st,
            k > 0,
    ;
    assert(k * qc >= k * qs + k) by (nonlinear_arith)
        requires
            qc >= qs + 1,
            k > 0,
    ;
    vstd::arithmetic::div_mod::lemma_mod_add_multiples_vanish(st, k);
}

proof fn lemma_best_over_chunks(secret: Seq<u8>, output: Seq<u8>, st: int)
    requires
        secret.len() > 0,
        0 <= st,
        st % (secret.len() as int) == 0,
    ensures
        forall|c: int|
            st <= c < output.len() && c % (secret.len() as int) == 0 ==> best_matches(secret, output, st)
                >= #[trigger] chunk_matches(secret, output, c),
        st < output.len() ==> exists|c: int|
            st <= c < output.len() && c % (secret.len() as int) == 0 && best_matches(secret, output, st)
                == #[trigger] chunk_matches(secret, output, c),
        st >= output.len() ==> best_matches(secret, output, st) == 0,
    decreases output.len() - st,
{
    let k = secret.len() as int;
    if st < output.len() {
        let nx = st + k;
        vstd::arithmetic::div_mod::lemma_mod_add_multiples_vanish(st, k);
        if nx < output.len() {
            lemma_best_over_chunks(secret, output, nx);
        }
        let here = chunk_matches(secret, output, st);
        assert forall|c: int|
            st <= c < output.len() && c % k == 0 implies best_matches(secret, output, st)
                >= #[trigger] chunk_matches(secret, output, c) by {
            if c > st {
                lemma_next_multiple(c, st, k);
            }
        }
        if nx < output.len() && best_matches(secret, output, nx) > here {
            let c = choose|c: int|
                nx <= c < output.len() && c % k == 0 && best_matches(secret, output, nx)
                    == #[trigger] chunk_matches(secret, output, c);
            assert(st <= c < output.len() && c % k == 0 && best_matches(secret, output, st)
                == chunk_matches(secret, output, c));
        } else {
            assert(st <= st < output.len() && st % k == 0 && best_matches(secret, output, st)
                == chunk_matches(secret, output, st));
        }
    }
}

/// Law: comparing a secret with an output gives the best number of equal
/// bytes over all secret-sized chunks of the output (each chunk starts at a
/// multiple of the secret's length): at least that of every chunk, equal
/// to that of one of them, and zero for an empty output, out of the
/// secret's length.
pub proof fn law_dist_best_chunk(secret: Seq<u8>, output: Seq<u8>)
    requires
        0 < secret.len() <= usize::MAX,
    ensures
        EqualByByte::spec_dist(secret, output).total == secret.len(),
        forall|c: int|
            0 <= c < output.len() && c % (secret.len() as int) == 0
                ==> EqualByByte::spec_dist(secret, output).matched >= #[trigger] chunk_matches(
                secret,
                output,
                c,
            ),
        output.len() > 0 ==> exists|c: int|
            0 <= c < output.len() && c % (secret.len() as int) == 0 && EqualByByte::spec_dist(
                secret,
                output,
            ).matched == #[trigger] chunk_matches(secret, output, c),
        output.len() == 0 ==> EqualByByte::spec_dist(secret, output).matched == 0,
{
    lemma_best_over_chunks(secret, output, 0);
    law_match_at_most_secret(secret, output, 0);
}

} // verus!
