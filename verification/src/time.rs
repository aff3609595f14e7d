//! Spans of time, readings of the monotonic clock, and the clock itself.

use vstd::prelude::*;

verus! {

/// Nanoseconds in one second.
pub const NANOS_PER_SEC: u128 = 1_000_000_000;

/// Nanoseconds in one millisecond.
pub const NANOS_PER_MILLI: u128 = 1_000_000;

/// A span of time.
#[derive(Clone, Copy, Debug, PartialEq, Eq, Structural)]
pub struct Duration {
    pub nanos: u128,
}

impl View for Duration {
    type V = nat;

    /// The length of the span in nanoseconds.
    open spec fn view(&self) -> nat {
        self.nanos as nat
    }
}

impl Duration {
    pub fn from_secs(secs: u64) -> (d: Duration)
        ensures
            d@ == secs * NANOS_PER_SEC,
            d.nanos == secs * 1_000_000_000,
    {
        Duration { nanos: secs as u128 * NANOS_PER_SEC }
    }

    pub fn from_millis(millis: u64) -> (d: Duration)
        ensures
            d@ == millis * NANOS_PER_MILLI,
            d.nanos == millis * 1_000_000,
    {
        Duration { nanos: millis as u128 * NANOS_PER_MILLI }
    }
}

/// A reading of the monotonic clock.
#[derive(Clone, Copy, Debug, PartialEq, Eq, Structural)]
pub struct Instant {
    pub nanos: u128,
}

impl View for Instant {
    type V = nat;

    /// Nanoseconds between the start of the clock and the reading.
    open spec fn view(&self) -> nat {
        self.nanos as nat
    }
}

/// Nanoseconds that have passed from `earlier` to `later`, and none where
/// `later` does not come after `earlier`.
pub open spec fn elapsed(earlier: nat, later: nat) -> nat {
    if later >= earlier {
        (later - earlier) as nat
    } else {
        0
    }
}

/// What has passed from one time to a later one is what must be added to the earlier
/// to get to the later. Nothing passes backwards.
pub proof fn law_elapsed(earlier: nat, later: nat)
    ensures
        earlier <= later ==> earlier + elapsed(earlier, later) == later,
        later <= earlier ==> elapsed(earlier, later) == 0,
{
}

/// Spans and readings are counted in nanoseconds, each as one.
pub proof fn law_nanoseconds(span: Duration, reading: Instant)
    ensures
        span@ == span.nanos,
        reading@ == reading.nanos,
{
}

impl Instant {
    /// The time from `earlier` to this reading, zero where `earlier` is the
    /// later of the two.
    pub fn duration_since(&self, earlier: Instant) -> (d: Duration)
        ensures
            d@ == elapsed(earlier@, self@),
            earlier.nanos <= self.nanos ==> earlier.nanos + d.nanos == self.nanos,
            self.nanos <= earlier.nanos ==> d.nanos == 0,
    {
        if self.nanos >= earlier.nanos {
            Duration { nanos: self.nanos - earlier.nanos }
        } else {
            Duration { nanos: 0 }
        }
    }
}

/// `std::time::Instant`, opaque here.
#[verifier::external_type_specification]
#[verifier::external_body]
pub struct ExStdInstant(std::time::Instant);

/// `std::time::Instant::now`. Which instant comes back is left open.
#[verifier::external_body]
fn std_now() -> (origin: std::time::Instant) {
    std::time::Instant::now()
}

/// `std::time::Instant::elapsed`, in nanoseconds. How much time has passed is
/// left open.
#[verifier::external_body]
pub(crate) fn nanos_since(origin: &std::time::Instant) -> (nanos: u128) {
    origin.elapsed().as_nanos()
}

/// What a function gives for an instant.
fn reading<F: Fn(&std::time::Instant) -> u128>(
    read: F,
    origin: &std::time::Instant,
) -> (nanos: u128)
    requires
        call_requires(read, (origin,)),
    ensures
        call_ensures(read, (origin,), nanos),
{
    read(origin)
}

/// Whether the system's clock can give so many nanoseconds as the time that has passed
/// since `origin`. Only asking it shows that it can.
pub closed spec fn has_passed(origin: std::time::Instant, nanos: u128) -> bool {
    call_ensures(nanos_since, (&origin,), nanos)
}

/// What counts as passed since an origin is what the system's clock gives for it, and
/// nothing else.
pub(crate) proof fn law_passed_is_what_the_system_gives(
    origin: std::time::Instant,
    nanos: u128,
)
    ensures
        has_passed(origin, nanos) <==> call_ensures(nanos_since, (&origin,), nanos),
{
}

/// A clock that counts from the moment it was started and never goes back.
#[derive(Debug)]
pub(crate) struct Clock {
    origin: std::time::Instant,
    last: Instant,
}

impl View for Clock {
    type V = nat;

    /// The last reading, zero before the first.
    closed spec fn view(&self) -> nat {
        self.last@
    }
}

impl Clock {
    /// The moment that the clock was started.
    pub(crate) closed spec fn origin(&self) -> std::time::Instant {
        self.origin
    }

    pub(crate) fn start() -> (clock: Clock)
        ensures
            clock@ == 0,
    {
        Clock { origin: std_now(), last: Instant { nanos: 0 } }
    }

    /// Reads the clock: the time that the system says has passed since the clock was
    /// started, or the last reading where that is later.
    pub(crate) fn now(&mut self) -> (now: Instant)
        ensures
            now@ >= old(self)@,
            final(self)@ == now@,
            final(self).origin() == old(self).origin(),
            exists|nanos: u128|
                {
                    &&& #[trigger] call_ensures(nanos_since, (&old(self).origin(),), nanos)
                    &&& now.nanos >= nanos
                    &&& now.nanos == nanos || now@ == old(self)@
                },
    {
        let nanos: u128 = reading(nanos_since, &self.origin);
        assert(call_ensures(nanos_since, (&old(self).origin(),), nanos));
        if nanos > self.last.nanos {
            self.last = Instant { nanos };
        }
        self.last
    }
}

} // verus!
