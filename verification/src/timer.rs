use vstd::prelude::*;

verus! {

/// Nanoseconds in one millisecond.
pub const NANOS_PER_MILLI: u64 = 1_000_000;

/// An externally driven countdown, held as plain values: the full period,
/// what is left of it, and whether it has run out.
#[derive(Clone, Copy, Debug, PartialEq, Eq, Structural)]
pub struct Timer {
    pub duration_ns: u64,
    pub time_left_ns: u64,
    pub ready: bool,
}

/// A fresh timer of `ms` milliseconds.
pub open spec fn fresh_timer(ms: u64) -> Timer {
    Timer { duration_ns: (ms * NANOS_PER_MILLI) as u64, time_left_ns: (ms * NANOS_PER_MILLI) as u64, ready: false }
}

/// The timer after `delta_ns` nanoseconds went by. A timer that has run out
/// stays so; otherwise it runs out only when more time passes than is left.
pub open spec fn timer_after(t: Timer, delta_ns: u64) -> Timer {
    if t.ready {
        t
    } else if delta_ns <= t.time_left_ns {
        Timer { time_left_ns: (t.time_left_ns - delta_ns) as u64, ..t }
    } else {
        Timer { time_left_ns: 0, ready: true, ..t }
    }
}

/// The timer started over: the full period left, not ready.
pub open spec fn timer_reset(t: Timer) -> Timer {
    Timer { time_left_ns: t.duration_ns, ready: false, ..t }
}

/// What is left never exceeds the period.
pub open spec fn timer_wf(t: Timer) -> bool {
    t.time_left_ns <= t.duration_ns
}

/// A ready timer stays ready, whatever time goes by.
pub proof fn lemma_ready_stays_ready(t: Timer, delta_ns: u64)
    requires
        t.ready,
    ensures
        timer_after(t, delta_ns) == t,
{
}

/// A timer that is not ready becomes ready in one update exactly when more
/// time goes by than it has left, and its period never changes.
pub proof fn lemma_ready_when_overrun(t: Timer, delta_ns: u64)
    requires
        !t.ready,
    ensures
        timer_after(t, delta_ns).ready == (delta_ns > t.time_left_ns),
        timer_after(t, delta_ns).duration_ns == t.duration_ns,
        timer_wf(t) ==> timer_wf(timer_after(t, delta_ns)),
{
}

/// Starting over undoes whatever time went by.
pub proof fn lemma_reset_restores(ms: u64, delta_ns: u64)
    ensures
        timer_reset(timer_after(fresh_timer(ms), delta_ns)) == fresh_timer(ms),
{
}

impl Timer {
    /// `rusty_time::timer::Timer::from_millis`: a timer whose period and time
    /// left are both `ms` milliseconds and that is not ready.
    #[verifier::external_body]
    pub(crate) fn from_millis(ms: u64) -> (t: Timer)
        requires
            ms <= u64::MAX / NANOS_PER_MILLI,
        ensures
            t == fresh_timer(ms),
    {
        let inner = rusty_time::timer::Timer::from_millis(ms);
        Timer {
            duration_ns: inner.duration.as_nanos() as u64,
            time_left_ns: inner.time_left.as_nanos() as u64,
            ready: inner.ready,
        }
    }

    /// `rusty_time::timer::Timer::update`: when not ready, subtracts the
    /// elapsed time if that much is left, else sets the time left to zero
    /// and the timer ready; a ready timer is left as it is.
    #[verifier::external_body]
    pub(crate) fn update(&mut self, delta_ns: u64)
        ensures
            *final(self) == timer_after(*old(self), delta_ns),
    {
        let mut inner = rusty_time::timer::Timer {
            duration: std::time::Duration::from_nanos(self.duration_ns),
            time_left: std::time::Duration::from_nanos(self.time_left_ns),
            ready: self.ready,
        };
        inner.update(std::time::Duration::from_nanos(delta_ns));
        self.duration_ns = inner.duration.as_nanos() as u64;
        self.time_left_ns = inner.time_left.as_nanos() as u64;
        self.ready = inner.ready;
    }

    /// `rusty_time::timer::Timer::reset`: not ready, with the whole period left.
    #[verifier::external_body]
    pub(crate) fn reset(&mut self)
        ensures
            *final(self) == timer_reset(*old(self)),
    {
        let mut inner = rusty_time::timer::Timer {
            duration: std::time::Duration::from_nanos(self.duration_ns),
            time_left: std::time::Duration::from_nanos(self.time_left_ns),
            ready: self.ready,
        };
        inner.reset();
        self.duration_ns = inner.duration.as_nanos() as u64;
        self.time_left_ns = inner.time_left.as_nanos() as u64;
        self.ready = inner.ready;
    }
}

} // verus!
