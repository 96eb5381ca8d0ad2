//! Boot-relative timekeeping: a nanosecond counter advanced by timer ticks
//! of a picosecond step, with sub-nanosecond carry, and spin-polling with a
//! deadline.
use vstd::prelude::*;
use vstd::arithmetic::div_mod::{lemma_hoist_over_denominator, lemma_fundamental_div_mod_converse};

verus! {

/// Timekeeping state: nanoseconds since boot, the picosecond step that one
/// timer tick adds, and the picosecond remainder not yet carried into the
/// nanosecond counter.
#[derive(Clone, Copy, Debug, PartialEq, Eq, Hash, Structural)]
pub struct Time {
    /// Whole nanoseconds elapsed since boot.
    pub boot_ns: u64,
    /// Picoseconds that one timer tick adds.
    pub ps_tick_step: u64,
    /// Picosecond part below one nanosecond, carried between ticks.
    pub boot_ps_part: u16,
}

/// The sub-nanosecond part stays below one nanosecond.
pub open spec fn time_wf(t: Time) -> bool {
    t.boot_ps_part < 1000
}

/// Total elapsed time in picoseconds.
pub open spec fn time_total_ps(t: Time) -> int {
    t.boot_ns * 1000 + t.boot_ps_part
}

/// Something the kernel can poll repeatedly until it reports readiness. The
/// clock is driven by the timer interrupt, which keeps firing while the
/// kernel spins, so a poll that comes back unready has waited at least one
/// whole nanosecond of the clock; the clock never moves backwards.
pub trait Poller {
    /// The condition the poller waits for, as this poller judges it of a
    /// clock reading: what a true poll result attests.
    spec fn spec_ready(&self, time: Time) -> bool;

    /// The awaited condition never lapses as the clock advances: once
    /// ready, ready at every later reading.
    proof fn ready_is_monotone(&self, t1: Time, t2: Time)
        requires
            self.spec_ready(t1),
            t1.boot_ns <= t2.boot_ns,
        ensures
            self.spec_ready(t2),
    ;

    /// One poll attempt; true means the awaited condition was observed to
    /// hold of the clock as the poll began.
    fn poll(&mut self, time: &mut Time) -> (r: bool)
        requires
            time_wf(*old(time)),
        ensures
            time_wf(*final(time)),
            final(time).boot_ns >= old(time).boot_ns,
            !r ==> final(time).boot_ns > old(time).boot_ns,
            r == final(self).spec_ready(*old(time)),
    ;
}

/// A poller that is ready once the clock has reached a target; while
/// waiting it stands in for the ticking timer by advancing the clock one
/// nanosecond per poll.
pub struct DeadlinePoller {
    /// The clock reading at which the poller reports readiness.
    pub ready_at_ns: u64,
}

impl Poller for DeadlinePoller {
    open spec fn spec_ready(&self, time: Time) -> bool {
        time.boot_ns >= self.ready_at_ns || time.boot_ns == u64::MAX
    }

    proof fn ready_is_monotone(&self, t1: Time, t2: Time) {
    }

    fn poll(&mut self, time: &mut Time) -> (r: bool) {
        if time.boot_ns >= self.ready_at_ns || time.boot_ns == u64::MAX {
            true
        } else {
            time.boot_ns = time.boot_ns + 1;
            false
        }
    }
}

/// Iterations that a poll loop can still take before its deadline passes.
pub open spec fn poll_fuel(boot_ns: u64, end: u64) -> int {
    if boot_ns <= end {
        end + 1 - boot_ns
    } else {
        0
    }
}

impl Time {
    /// A clock at the moment of boot, before the timer is programmed.
    pub fn new() -> (r: Self)
        ensures
            r == (Time { boot_ns: 0, ps_tick_step: 0, boot_ps_part: 0 }),
            time_wf(r),
    {
        Time { boot_ns: 0, ps_tick_step: 0, boot_ps_part: 0 }
    }

    /// Nanoseconds elapsed since boot.
    pub fn boot_time_ns(&self) -> (r: u64)
        ensures
            r == self.boot_ns,
    {
        self.boot_ns
    }

    /// Sets how many picoseconds one timer tick stands for.
    pub fn set_ps_tick_step(&mut self, step: u64)
        requires
            time_wf(*old(self)),
        ensures
            time_wf(*final(self)),
            *final(self) == (Time { ps_tick_step: step, ..*old(self) }),
    {
        self.ps_tick_step = step;
    }

    /// One timer tick, witnessed by the end-of-interrupt guard of the timer
    /// interrupt being serviced: adds the tick step to the elapsed time,
    /// carrying whole nanoseconds out of the picosecond part. The clock
    /// never moves backwards.
    pub fn tick_step(&mut self, _guard: crate::interrupts::PicEnd)
        requires
            time_wf(*old(self)),
            old(self).boot_ns + old(self).ps_tick_step / 1000 + 1 <= u64::MAX,
        ensures
            time_wf(*final(self)),
            time_total_ps(*final(self)) == time_total_ps(*old(self)) + old(self).ps_tick_step,
            final(self).ps_tick_step == old(self).ps_tick_step,
            final(self).boot_ns >= old(self).boot_ns,
    {
        let step = self.ps_tick_step;
        self.boot_ps_part = self.boot_ps_part + (step % 1000) as u16;
        let carry: u64 = if self.boot_ps_part >= 1000 {
            self.boot_ps_part = self.boot_ps_part - 1000;
            1
        } else {
            0
        };
        self.boot_ns = self.boot_ns + step / 1000 + carry;
    }

    /// Polls until `poll` reports readiness or more than `timeout_ns`
    /// nanoseconds since boot plus the current clock have elapsed; true
    /// means a poll attempt found the awaited condition to hold of the
    /// final clock, false that the deadline passed without readiness.
    pub fn timeout_poll_ns<P: Poller>(&mut self, timeout_ns: u64, poll: &mut P) -> (r: bool)
        requires
            time_wf(*old(self)),
            old(self).boot_ns + timeout_ns <= u64::MAX,
        ensures
            time_wf(*final(self)),
            final(self).boot_ns >= old(self).boot_ns,
            r ==> final(poll).spec_ready(*final(self)),
            !r ==> final(self).boot_ns > old(self).boot_ns + timeout_ns,
    {
        let end_time_ns = self.boot_time_ns() + timeout_ns;
        while self.boot_time_ns() <= end_time_ns
            invariant
                time_wf(*self),
                self.boot_ns >= old(self).boot_ns,
                end_time_ns == old(self).boot_ns + timeout_ns,
            decreases poll_fuel(self.boot_ns, end_time_ns),
        {
            let ghost seen = *self;
            if poll.poll(self) {
                proof {
                    poll.ready_is_monotone(seen, *self);
                }
                return true;
            }
        }
        false
    }

    /// Polls with a deadline given in microseconds.
    pub fn timeout_poll_us<P: Poller>(&mut self, timeout_us: u64, poll: &mut P) -> (r: bool)
        requires
            time_wf(*old(self)),
            timeout_us * 1000 <= u64::MAX,
            old(self).boot_ns + timeout_us * 1000 <= u64::MAX,
        ensures
            time_wf(*final(self)),
            final(self).boot_ns >= old(self).boot_ns,
            r ==> final(poll).spec_ready(*final(self)),
            !r ==> final(self).boot_ns > old(self).boot_ns + timeout_us * 1000,
    {
        self.timeout_poll_ns(timeout_us * 1000, poll)
    }

    /// Polls with a deadline given in milliseconds.
    pub fn timeout_poll_ms<P: Poller>(&mut self, timeout_ms: u64, poll: &mut P) -> (r: bool)
        requires
            time_wf(*old(self)),
            timeout_ms * 1000000 <= u64::MAX,
            old(self).boot_ns + timeout_ms * 1000000 <= u64::MAX,
        ensures
            time_wf(*final(self)),
            final(self).boot_ns >= old(self).boot_ns,
            r ==> final(poll).spec_ready(*final(self)),
            !r ==> final(self).boot_ns > old(self).boot_ns + timeout_ms * 1000000,
    {
        self.timeout_poll_us(timeout_ms * 1000, poll)
    }

    /// Polls with a deadline given in seconds.
    pub fn timeout_poll_s<P: Poller>(&mut self, timeout_s: u64, poll: &mut P) -> (r: bool)
        requires
            time_wf(*old(self)),
            timeout_s * 1000000000 <= u64::MAX,
            old(self).boot_ns + timeout_s * 1000000000 <= u64::MAX,
        ensures
            time_wf(*final(self)),
            final(self).boot_ns >= old(self).boot_ns,
            r ==> final(poll).spec_ready(*final(self)),
            !r ==> final(self).boot_ns > old(self).boot_ns + timeout_s * 1000000000,
    {
        self.timeout_poll_ms(timeout_s * 1000, poll)
    }
}

/// Splitting `n` ticks of `s` picoseconds into nanoseconds: the whole
/// nanoseconds of `n * s` picoseconds are `n` times the whole nanoseconds of
/// one step plus the nanoseconds accumulated from the sub-nanosecond
/// remainders.
pub proof fn lemma_elapsed_formula(n: nat, s: nat)
    ensures
        (n * s) / 1000 == n * (s / 1000) + (n * (s % 1000)) / 1000,
{
    let q = (s / 1000) as int;
    let r = (s % 1000) as int;
    assert(s == 1000 * q + r);
    assert(n * s == (n * r) + (n * q) * 1000) by (nonlinear_arith)
        requires
            s == 1000 * q + r,
    ;
    lemma_hoist_over_denominator(n * r, n * q, 1000);
}

/// After `n` ticks of a fixed step `s` from a fresh clock — that is, when the
/// total elapsed time is `n * s` picoseconds — the nanosecond counter reads
/// exactly `n` times the whole nanoseconds of one step, plus the whole
/// nanoseconds that the `n` sub-nanosecond remainders amount to.
pub proof fn lemma_boot_ns_after_ticks(t: Time, s: u64, n: nat)
    requires
        time_wf(t),
        time_total_ps(t) == n * s,
    ensures
        t.boot_ns == n * (s as int / 1000) + (n * (s as int % 1000)) / 1000,
{
    lemma_fundamental_div_mod_converse(n * s, 1000, t.boot_ns as int, t.boot_ps_part as int);
    lemma_elapsed_formula(n, s as nat);
}

} // verus!
