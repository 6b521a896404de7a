//! A value together with the instant it was last written.
use std::time::Duration;
use std::time::Instant;
use vstd::prelude::*;

verus! {

#[verifier::external_type_specification]
#[verifier::external_body]
pub struct ExInstant(std::time::Instant);

/// `std::time::Instant::now`: the current instant.  Nothing is claimed of the
/// result, which depends on the clock.
#[verifier::external_body]
fn instant_now() -> Instant {
    Instant::now()
}

/// The time from `earlier` to `later`, as `<Instant as Sub>::sub` gives it.
pub uninterp spec fn elapsed(later: Instant, earlier: Instant) -> Duration;

/// `<Instant as Sub>::sub`: the time from `earlier` to `later` (zero if
/// `earlier` is the later one, as std documents).  Claimed: the result
/// depends on the two instants alone; its length is not described.
#[verifier::external_body]
fn instant_sub(later: Instant, earlier: Instant) -> (r: Duration)
    ensures
        r == elapsed(later, earlier),
{
    later - earlier
}

pub struct ValueWithUpdateTime<T> {
    value: T,
    time: Instant,
}

impl<T> ValueWithUpdateTime<T> {
    /// The stored value.
    pub closed spec fn value(&self) -> T {
        self.value
    }

    /// The instant of the last write.
    pub closed spec fn time(&self) -> Instant {
        self.time
    }

    /// Lets `f` modify the value in place and stamps the current instant.
    pub fn update<'a, F>(&'a mut self, f: F)
        where
            F: FnOnce(&'a mut T),
        requires
            forall|v: &'a mut T| call_requires(f, (v,)),
        ensures
            exists|v: &'a mut T|
                *v == old(self).value() && *final(v) == final(self).value() && #[trigger] call_ensures(
                    f,
                    (v,),
                    (),
                ),
    {
        f(&mut self.value);
        self.time = instant_now();
    }

    /// The instant of the last write.
    pub fn last_update(&self) -> (r: Instant)
        ensures
            r == self.time(),
    {
        self.time
    }

    /// Time elapsed since the last write: the time from the current instant
    /// back to the instant of the last write.
    pub fn duration_since_update(&self) -> (r: Duration)
        ensures
            exists|now: Instant| r == elapsed(now, self.time()),
    {
        let now = instant_now();
        let r = instant_sub(now, self.time);
        assert(r == elapsed(now, self.time()));
        r
    }
}

impl<T: Copy> ValueWithUpdateTime<T> {
    /// Stores `value`, stamped with the current instant.
    pub fn new(value: T) -> (r: Self)
        ensures
            r.value() == value,
    {
        Self::new_with_time(value, instant_now())
    }

    /// Stores `value`, stamped with `time`.
    pub fn new_with_time(value: T, time: Instant) -> (r: Self)
        ensures
            r.value() == value,
            r.time() == time,
    {
        Self { value, time }
    }

    /// The stored value.
    pub fn get(&self) -> (r: T)
        ensures
            r == self.value(),
    {
        self.value
    }

    /// Replaces the value, stamped with the current instant.
    pub fn set(&mut self, value: T)
        ensures
            final(self).value() == value,
    {
        *self = Self::new(value);
    }

    /// Replaces the value, stamped with `time`.
    pub fn set_with_time(&mut self, value: T, time: Instant)
        ensures
            final(self).value() == value,
            final(self).time() == time,
    {
        *self = Self::new_with_time(value, time);
    }

    /// Replaces the value by `f` of the old one, stamped with the current instant.
    pub fn set_with<F>(&mut self, f: F)
        where
            F: FnOnce(T) -> T,
        requires
            call_requires(f, (old(self).value(),)),
        ensures
            call_ensures(f, (old(self).value(),), final(self).value()),
    {
        let new_value = f(self.value);
        self.set(new_value)
    }
}

} // verus!
