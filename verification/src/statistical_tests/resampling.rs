//! Random resamples and permutations of sample positions.
//!
//! The statistical tests draw positions of samples with replacement
//! (bootstrap) or permute them (randomization tests). The positions come from
//! a generator of the `rand` crate seeded by a number, so that a test run with
//! a given random state can be repeated.
use vstd::prelude::*;
use rand::rngs::StdRng;
use rand::seq::SliceRandom;
use rand::Rng;
use rand::SeedableRng;

verus! {

/// The seedable generator of the `rand` crate, as an opaque value.
#[verifier::external_type_specification]
#[verifier::external_body]
pub struct ExStdRng(StdRng);

/// The generator that `StdRng::seed_from_u64` makes from a seed.
pub uninterp spec fn seeded_generator(seed: u64) -> StdRng;

/// Calls `rand::SeedableRng::seed_from_u64` for `StdRng`.
///
/// Claims that the generator is a function of `seed` alone, named
/// `seeded_generator`: `StdRng` is ChaCha12 in this version of `rand`, and the
/// source expands the seed with a fixed PCG sequence into its key.
#[verifier::external_body]
fn seeded_rng(seed: u64) -> (r: StdRng)
    ensures
        r == seeded_generator(seed),
{
    StdRng::seed_from_u64(seed)
}

/// Calls `rand::Rng::gen_range(0..n)` on the generator.
///
/// Claims that the number drawn lies in `0..n`; the source asserts that the
/// range is not empty, hence `n > 0`. Which number comes out depends on the
/// generator's state and is not stated.
#[verifier::external_body]
fn gen_index(rng: &mut StdRng, n: usize) -> (r: usize)
    requires
        n > 0,
    ensures
        r < n,
{
    rng.gen_range(0..n)
}

/// Calls `rand::seq::SliceRandom::shuffle` on the vector's slice.
///
/// Claims that the vector afterwards holds the same items as before, each as
/// many times (the source swaps items in place, Fisher-Yates). The source
/// draws one index for each position from the last down to the second, so a
/// vector of fewer than two items is left as it is and the generator is not
/// touched; otherwise at least one word is drawn, which moves the generator
/// on along its stream (2^64 ChaCha blocks long), so it is no longer in the
/// state it started from. The order that comes out depends on the
/// generator's state and is not stated.
#[verifier::external_body]
fn shuffle_in_place(v: &mut Vec<usize>, rng: &mut StdRng)
    ensures
        final(v)@.to_multiset() == old(v)@.to_multiset(),
        old(v)@.len() < 2 ==> final(v)@ == old(v)@ && *final(rng) == *old(rng),
        old(v)@.len() >= 2 ==> *final(rng) != *old(rng),
{
    v.as_mut_slice().shuffle(rng);
}

/// Calls `rand::random::<u64>()`, a number from the thread's generator seeded
/// by the operating system. Nothing is stated of it.
#[verifier::external_body]
pub(crate) fn entropy_seed() -> (r: u64) {
    rand::random::<u64>()
}

/// The positions `0..m` in increasing order.
pub open spec fn positions(m: nat) -> Seq<usize> {
    Seq::new(m, |i: int| i as usize)
}

/// Draws resamples and permutations of positions from a seeded generator.
pub struct Resampler {
    rng: StdRng,
}

impl Resampler {
    /// The generator from which the positions are drawn.
    pub closed spec fn spec_rng(&self) -> StdRng {
        self.rng
    }

    /// Creates a resampler whose generator is seeded with `seed`: two
    /// resamplers made from the same seed hold the same generator.
    pub fn from_seed(seed: u64) -> (r: Self)
        ensures
            r.spec_rng() == seeded_generator(seed),
    {
        Resampler { rng: seeded_rng(seed) }
    }

    /// Draws `n` positions in `0..n` with replacement, one after another.
    pub fn resample(&mut self, n: usize) -> (r: Vec<usize>)
        ensures
            r.len() == n,
            forall|i: int| 0 <= i < n ==> r[i] < n,
    {
        let mut out: Vec<usize> = Vec::with_capacity(n);
        let mut k: usize = 0;
        while k < n
            invariant
                k <= n,
                out.len() == k,
                forall|i: int| 0 <= i < k ==> out[i] < n,
            decreases n - k,
        {
            let j = gen_index(&mut self.rng, n);
            out.push(j);
            k = k + 1;
        }
        out
    }

    /// Draws a random permutation of the positions `0..m`: each position
    /// occurs exactly once. The permutation is drawn from this resampler's
    /// own generator, which moves on whenever there is something to shuffle,
    /// so that the next permutation is drawn from a new state.
    pub fn permutation(&mut self, m: usize) -> (r: Vec<usize>)
        ensures
            m >= 2 ==> final(self).spec_rng() != old(self).spec_rng(),
            m < 2 ==> final(self).spec_rng() == old(self).spec_rng() && r@ == positions(m as nat),
            r@.to_multiset() == positions(m as nat).to_multiset(),
            r.len() == m,
            forall|i: int| 0 <= i < m ==> r[i] < m,
            r@.no_duplicates(),
    {
        let mut v: Vec<usize> = Vec::with_capacity(m);
        let mut k: usize = 0;
        while k < m
            invariant
                k <= m,
                v@ == positions(k as nat),
            decreases m - k,
        {
            v.push(k);
            k = k + 1;
            assert(v@ =~= positions(k as nat));
        }
        let ghost before = v@;
        shuffle_in_place(&mut v, &mut self.rng);
        proof {
            broadcast use vstd::seq_lib::group_to_multiset_ensures;

            let p = positions(m as nat);
            assert(before == p);
            assert(v@.len() == v@.to_multiset().len());
            assert(p.len() == p.to_multiset().len());
            assert forall|i: int| 0 <= i < m implies v[i] < m by {
                assert(v@.contains(v@[i]));
                assert(v@.to_multiset().count(v@[i]) > 0);
                assert(p.to_multiset().count(v@[i]) > 0);
                assert(p.contains(v@[i]));
            }
            assert(p.no_duplicates());
            p.lemma_multiset_has_no_duplicates();
            v@.lemma_multiset_has_no_duplicates_conv();
        }
        v
    }
}

} // verus!
