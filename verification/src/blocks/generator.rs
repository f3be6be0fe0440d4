use rand::rngs::StdRng;
use rand::{Rng, SeedableRng};
use vstd::prelude::*;

verus! {

#[verifier::external_type_specification]
#[verifier::external_body]
pub struct ExStdRng(StdRng);

/// A random number generator, with a record of how it was made, of the
/// ranges asked of it and of the values drawn from it. Only the functions of this module make one or draw
/// from one, and each keeps the record.
pub struct Generator {
    rng: StdRng,
    seed: Ghost<Option<u64>>,
    ranges: Ghost<Seq<(i64, i64)>>,
    draws: Ghost<Seq<i64>>,
}

impl Generator {
    /// The seed it was made from, or `None` where it was seeded from the
    /// thread's generator.
    pub closed spec fn spec_seed(&self) -> Option<u64> {
        self.seed@
    }

    /// The ranges `min..max` asked of it so far, in order.
    pub closed spec fn spec_ranges(&self) -> Seq<(i64, i64)> {
        self.ranges@
    }

    /// The values drawn from it so far, in order.
    pub closed spec fn spec_draws(&self) -> Seq<i64> {
        self.draws@
    }
}

/// `StdRng::seed_from_u64`: a generator made from `seed`. Claimed: its
/// record holds that seed, no range asked and no draws. Nothing is claimed of the values it
/// will give.
#[verifier::external_body]
pub(crate) fn seeded_generator(seed: u64) -> (g: Generator)
    ensures
        g.spec_seed() == Some(seed),
        g.spec_ranges() == Seq::<(i64, i64)>::empty(),
        g.spec_draws() == Seq::<i64>::empty(),
{
    let rng = StdRng::seed_from_u64(seed);
    Generator { rng, seed: Ghost(Some(seed)), ranges: Ghost(Seq::empty()), draws: Ghost(Seq::empty()) }
}

/// `StdRng::from_rng` seeded from the thread's generator `rand::rng()`.
/// Claimed: its record holds no seed, no range asked and no draws. Nothing is claimed of the
/// values it will give.
#[verifier::external_body]
pub(crate) fn thread_seeded_generator() -> (g: Generator)
    ensures
        g.spec_seed() is None,
        g.spec_ranges() == Seq::<(i64, i64)>::empty(),
        g.spec_draws() == Seq::<i64>::empty(),
{
    let rng = StdRng::from_rng(&mut rand::rng());
    Generator { rng, seed: Ghost(None), ranges: Ghost(Seq::empty()), draws: Ghost(Seq::empty()) }
}

/// `Rng::random_range` on `min..max`: a value drawn from that half-open
/// range, from this generator. It panics on an empty range, which
/// `requires` rules out, and on no other (`no_unwind`). Claimed: the value
/// lies in the range, the range is added to the generator's record of
/// ranges asked and the value to its record of draws; which value it is, is
/// not claimed.
#[verifier::external_body]
pub(crate) fn random_in_range(g: &mut Generator, min: i64, max: i64) -> (r: i64)
    requires
        min < max,
    ensures
        min <= r < max,
        final(g).spec_seed() == old(g).spec_seed(),
        final(g).spec_ranges() == old(g).spec_ranges().push((min, max)),
        final(g).spec_draws() == old(g).spec_draws().push(r),
    no_unwind
{
    let r = g.rng.random_range(min..max);
    g.ranges = Ghost(g.ranges@.push((min, max)));
    g.draws = Ghost(g.draws@.push(r));
    r
}

} // verus!
