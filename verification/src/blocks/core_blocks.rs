use crate::blocks::generator::{random_in_range, seeded_generator, thread_seeded_generator, Generator};
use crate::types::DelayType;
use vstd::prelude::*;

verus! {

/// Why a random integer could not be drawn.
#[derive(Clone, Copy, Debug, PartialEq, Eq, Structural)]
pub enum RandomIntError {
    /// The lower bound is not below the upper bound.
    InvalidRange { min: i64, max: i64 },
}

/// Draws one random integer from `min..max`, from a generator made from
/// the seed where there is one, else seeded from the thread's generator.
pub struct RandomInt {
    seed: Option<u64>,
    min: Option<i64>,
    max: Option<i64>,
    rng: Generator,
}

/// The lower bound used: the one given, else the least `i64`.
pub open spec fn lower_bound(min: Option<i64>) -> i64 {
    match min {
        Some(m) => m,
        None => i64::MIN,
    }
}

/// The upper bound used (exclusive): the one given, else the greatest `i64`.
pub open spec fn upper_bound(max: Option<i64>) -> i64 {
    match max {
        Some(m) => m,
        None => i64::MAX,
    }
}

impl RandomInt {
    /// The block's generator was made from its seed.
    #[verifier::type_invariant]
    spec fn generator_matches_seed(&self) -> bool {
        self.rng.spec_seed() == self.seed
    }

    /// The seed, if any.
    pub closed spec fn spec_seed(&self) -> Option<u64> {
        self.seed
    }

    /// The lower bound given, if any.
    pub closed spec fn spec_min(&self) -> Option<i64> {
        self.min
    }

    /// The upper bound given, if any.
    pub closed spec fn spec_max(&self) -> Option<i64> {
        self.max
    }

    /// The seed the block's generator was made from, if any.
    pub closed spec fn spec_generator_seed(&self) -> Option<u64> {
        self.rng.spec_seed()
    }

    /// The ranges the block has asked of its generator, in order.
    pub closed spec fn spec_ranges(&self) -> Seq<(i64, i64)> {
        self.rng.spec_ranges()
    }

    /// The values the block has drawn from its generator, in order.
    pub closed spec fn spec_draws(&self) -> Seq<i64> {
        self.rng.spec_draws()
    }

    /// No seed, no bounds.
    pub fn new() -> (r: Self)
        ensures
            r.spec_seed() is None,
            r.spec_min() is None,
            r.spec_max() is None,
            r.spec_generator_seed() is None,
            r.spec_ranges() == Seq::<(i64, i64)>::empty(),
            r.spec_draws() == Seq::<i64>::empty(),
    {
        Self::with_params(None, None, None)
    }

    /// The given seed and bounds; the generator is made from the seed where
    /// there is one, else seeded from the thread's generator.
    pub fn with_params(seed: Option<u64>, min: Option<i64>, max: Option<i64>) -> (r: Self)
        ensures
            r.spec_seed() == seed,
            r.spec_min() == min,
            r.spec_max() == max,
            r.spec_generator_seed() == seed,
            r.spec_ranges() == Seq::<(i64, i64)>::empty(),
            r.spec_draws() == Seq::<i64>::empty(),
    {
        let rng = match seed {
            Some(s) => seeded_generator(s),
            None => thread_seeded_generator(),
        };
        RandomInt { seed, min, max, rng }
    }

    /// The seed, if any.
    pub fn seed(&self) -> (s: Option<u64>)
        ensures
            s == self.spec_seed(),
    {
        self.seed
    }

    /// The lower bound given, if any.
    pub fn min(&self) -> (m: Option<i64>)
        ensures
            m == self.spec_min(),
    {
        self.min
    }

    /// The upper bound given, if any.
    pub fn max(&self) -> (m: Option<i64>)
        ensures
            m == self.spec_max(),
    {
        self.max
    }

    /// The range to draw from, `min..max`, or the error where it is empty.
    pub fn range(&self) -> (r: Result<(i64, i64), RandomIntError>)
        ensures
            lower_bound(self.spec_min()) < upper_bound(self.spec_max()) ==> r == Ok::<
                (i64, i64),
                RandomIntError,
            >((lower_bound(self.spec_min()), upper_bound(self.spec_max()))),
            lower_bound(self.spec_min()) >= upper_bound(self.spec_max()) ==> r == Err::<
                (i64, i64),
                RandomIntError,
            >(
                RandomIntError::InvalidRange {
                    min: lower_bound(self.spec_min()),
                    max: upper_bound(self.spec_max()),
                },
            ),
    {
        let min = match self.min {
            Some(m) => m,
            None => i64::MIN,
        };
        let max = match self.max {
            Some(m) => m,
            None => i64::MAX,
        };
        if min >= max {
            Err(RandomIntError::InvalidRange { min, max })
        } else {
            Ok((min, max))
        }
    }

    /// Draws the integer: an error where the range is empty, else a value
    /// drawn from the block's generator (the one made from the seed where
    /// there is one) over exactly that range, `min..max`.
    pub fn generate(&mut self) -> (r: Result<i64, RandomIntError>)
        ensures
            final(self).spec_seed() == old(self).spec_seed(),
            final(self).spec_min() == old(self).spec_min(),
            final(self).spec_max() == old(self).spec_max(),
            final(self).spec_generator_seed() == old(self).spec_seed(),
            lower_bound(old(self).spec_min()) >= upper_bound(old(self).spec_max()) ==> r == Err::<
                i64,
                RandomIntError,
            >(
                RandomIntError::InvalidRange {
                    min: lower_bound(old(self).spec_min()),
                    max: upper_bound(old(self).spec_max()),
                },
            ) && final(self).spec_draws() == old(self).spec_draws() && final(self).spec_ranges()
                == old(self).spec_ranges(),
            lower_bound(old(self).spec_min()) < upper_bound(old(self).spec_max()) ==> (r matches Ok(v)
                && lower_bound(old(self).spec_min()) <= v && v < upper_bound(old(self).spec_max())
                && final(self).spec_ranges() == old(self).spec_ranges().push(
                (lower_bound(old(self).spec_min()), upper_bound(old(self).spec_max())),
            ) && final(self).spec_draws() == old(self).spec_draws().push(v)),
    {
        proof {
            use_type_invariant(&*self);
        }
        match self.range() {
            Ok((min, max)) => {
                let v = random_in_range(&mut self.rng, min, max);
                Ok(v)
            },
            Err(e) => Err(e),
        }
    }
}

/// What a delay block does with a message.
#[derive(Clone, Copy, Debug, PartialEq, Eq, Structural)]
pub enum DelayAction {
    /// Nothing is connected to the output: drop the message.
    Drop,
    /// Wait as the delay says, then send the message.
    Forward(DelayType),
}

/// Holds each message for a while before sending it on.
pub struct Delay {
    pub delay: DelayType,
}

impl Delay {
    /// The default delay, one second.
    pub fn new() -> (d: Self)
        ensures
            d.delay == DelayType::Fixed(crate::types::NANOS_PER_SEC),
    {
        Self::with_params(None)
    }

    /// The given delay, else one second.
    pub fn with_params(delay: Option<DelayType>) -> (d: Self)
        ensures
            d.delay == match delay {
                Some(x) => x,
                None => DelayType::Fixed(crate::types::NANOS_PER_SEC),
            },
    {
        let delay = match delay {
            Some(x) => x,
            None => DelayType::default(),
        };
        Delay { delay }
    }

    /// A message arrived: drop it where the output is not connected, else
    /// delay it as configured.
    pub fn on_input(&self, output_connected: bool) -> (a: DelayAction)
        ensures
            !output_connected ==> a == DelayAction::Drop,
            output_connected ==> a == DelayAction::Forward(self.delay),
            seq![a] == delay_feed(self.delay, seq![output_connected]),
    {
        proof {
            assert(seq![output_connected].drop_last() =~= Seq::<bool>::empty());
            assert(delay_feed(self.delay, Seq::<bool>::empty()) == Seq::<DelayAction>::empty());
        }
        if !output_connected {
            DelayAction::Drop
        } else {
            DelayAction::Forward(self.delay)
        }
    }
}

/// What a delaying block with delay `delay` does with messages that arrive
/// while its output is connected or not, as `connected` says, one by one.
pub open spec fn delay_feed(delay: DelayType, connected: Seq<bool>) -> Seq<DelayAction>
    decreases connected.len(),
{
    if connected.len() == 0 {
        seq![]
    } else {
        delay_feed(delay, connected.drop_last()).push(
            if connected.last() {
                DelayAction::Forward(delay)
            } else {
                DelayAction::Drop
            },
        )
    }
}

/// Over a stream a delaying block waits once, for its delay, before each
/// message that it sends, and sends exactly the messages that arrive while
/// its output is connected.
pub proof fn lemma_delay_stream(delay: DelayType, connected: Seq<bool>)
    ensures
        delay_feed(delay, connected).len() == connected.len(),
        forall|i: int|
            0 <= i < connected.len() ==> #[trigger] delay_feed(delay, connected)[i] == if connected[i] {
                DelayAction::Forward(delay)
            } else {
                DelayAction::Drop
            },
    decreases connected.len(),
{
    if connected.len() > 0 {
        lemma_delay_stream(delay, connected.drop_last());
        assert forall|i: int| 0 <= i < connected.len() - 1 implies connected.drop_last()[i]
            == connected[i] by {}
    }
}

/// Sends the current time, then waits as its delay says, over and over.
pub struct Clock {
    pub delay: DelayType,
}

impl Clock {
    /// A clock with the given delay between ticks.
    pub fn with_params(delay: DelayType) -> (c: Self)
        ensures
            c.delay == delay,
    {
        Clock { delay }
    }

    /// The wait after each tick.
    pub fn on_tick(&self) -> (d: DelayType)
        ensures
            d == self.delay,
    {
        self.delay
    }
}

} // verus!
