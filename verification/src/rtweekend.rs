use vstd::prelude::*;

verus! {

/// One value drawn from the random generator, together with the range it was drawn
/// from. Its fields are private to this module, so the only way to obtain one is a
/// call of `random_int`: a `Draw` held anywhere else is a value the generator produced.
pub struct Draw {
    value: u32,
    min: u32,
    max: u32,
}

impl Draw {
    /// The value the generator produced.
    pub closed spec fn drawn(&self) -> u32 {
        self.value
    }

    /// The lower end of the range the value was drawn from.
    pub closed spec fn low(&self) -> u32 {
        self.min
    }

    /// The upper end (inclusive) of the range the value was drawn from.
    pub closed spec fn high(&self) -> u32 {
        self.max
    }

    /// The value the generator produced.
    pub fn value(&self) -> (v: u32)
        ensures
            v == self.drawn(),
    {
        self.value
    }
}

/// Calls `rand::random_range(min..=max)`, which draws from the thread-local generator,
/// and records the value with its range. Trusted: the value lies in `[min, max]`;
/// which value comes out is left unsaid, as it rests on chance.
#[verifier::external_body]
pub(crate) fn random_int(min: u32, max: u32) -> (r: Draw)
    requires
        min <= max,
    ensures
        r.low() == min,
        r.high() == max,
        min <= r.drawn() <= max,
{
    Draw { value: rand::random_range(min..=max), min, max }
}

/// The values of a sequence of draws, in order.
pub open spec fn drawn_values(draws: Seq<Draw>) -> Seq<u32> {
    draws.map_values(|d: Draw| d.drawn())
}

} // verus!
