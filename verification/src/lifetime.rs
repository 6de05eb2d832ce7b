use vstd::prelude::*;

verus! {

/// The time an entity has left before it is removed, in nanoseconds.
pub struct Lifetime {
    pub time_left_nanos: u128,
}

impl Lifetime {
    /// An entity that lives for `duration_nanos` nanoseconds.
    pub fn new(duration_nanos: u128) -> (l: Lifetime)
        ensures
            l.time_left_nanos == duration_nanos,
    {
        Lifetime { time_left_nanos: duration_nanos }
    }

    /// `delta_nanos` of time passed; the time elapsed may not exceed the
    /// time left. Says whether the entity's time is up.
    pub fn tick(&mut self, delta_nanos: u128) -> (expired: bool)
        requires
            delta_nanos <= old(self).time_left_nanos,
        ensures
            final(self).time_left_nanos == old(self).time_left_nanos - delta_nanos,
            expired <==> final(self).time_left_nanos == 0,
    {
        self.time_left_nanos = self.time_left_nanos - delta_nanos;
        self.time_left_nanos == 0
    }
}

/// Ticks add up: after two ticks the time left is what one tick of their
/// total would leave, and the entity's time is up exactly when the elapsed
/// time equals its lifetime.
pub proof fn lemma_ticks_add_up(time_left: nat, first: nat, second: nat)
    requires
        first + second <= time_left,
    ensures
        ((time_left - first) - second) == time_left - (first + second),
        ((time_left - first) - second == 0) <==> first + second == time_left,
{
}

} // verus!
