//! A pausable accumulator over the process's monotonic CPU timer.

use vstd::prelude::*;

verus! {

/// Accumulates CPU time in nanoseconds across pause/resume cycles.
///
/// A clock is created running. While running, `start_time` holds the reading
/// at which the current segment began; `elapsed_time` holds the time
/// accumulated over all completed segments. `pause` closes the current
/// segment, `resume` opens a new one, and `stop` closes the final segment and
/// yields the total.
pub struct Clock {
    is_paused: bool,
    start_time: u64,
    elapsed_time: u64,
}

/// Relies on `rustix::time::clock_gettime` with
/// `rustix::time::ClockId::ProcessCPUTime` (the `CLOCK_PROCESS_CPUTIME_ID`
/// clock of POSIX `clock_gettime`, infallible for this always-supported
/// clock id): it returns a `Timespec` whose `tv_sec` is the nonnegative
/// whole-second part of the CPU time this process has consumed and whose
/// `tv_nsec` lies in `[0, 1_000_000_000)`.
#[verifier::external_body]
fn cpu_time_parts() -> (r: (i64, i64))
    ensures
        r.0 >= 0,
        0 <= r.1 < 1_000_000_000,
{
    let ts = rustix::time::clock_gettime(rustix::time::ClockId::ProcessCPUTime);
    (ts.tv_sec, ts.tv_nsec)
}

/// Addition on `u64` that stops at the largest representable value.
pub open spec fn sat_add(a: u64, b: u64) -> u64 {
    if a + b <= u64::MAX {
        (a + b) as u64
    } else {
        u64::MAX
    }
}

/// One CPU-time reading, in nanoseconds since an arbitrary process-local
/// origin. The reading is clamped to `u64::MAX` where the conversion from
/// seconds and nanoseconds would overflow.
fn now_nanos() -> u64 {
    let (sec, nsec) = cpu_time_parts();
    let sec_u = sec as u64;
    let nsec_u = nsec as u64;
    match sec_u.checked_mul(1_000_000_000) {
        Some(base) => match base.checked_add(nsec_u) {
            Some(total) => total,
            None => u64::MAX,
        },
        None => u64::MAX,
    }
}

impl Clock {
    /// Whether the clock is paused.
    pub closed spec fn paused(self) -> bool {
        self.is_paused
    }

    /// The reading at which the current segment began.
    pub closed spec fn start(self) -> u64 {
        self.start_time
    }

    /// The time accumulated over all completed segments.
    pub closed spec fn elapsed(self) -> u64 {
        self.elapsed_time
    }

    /// The length of the segment open since `start`, as closed by the
    /// reading `now`. A reading below `start` (impossible for a monotonic
    /// source) contributes nothing.
    pub open spec fn segment(self, now: u64) -> u64 {
        if now >= self.start() {
            (now - self.start()) as u64
        } else {
            0
        }
    }

    /// The clock after a pause at reading `now`.
    pub closed spec fn spec_pause(self, now: u64) -> Clock {
        Clock {
            is_paused: true,
            start_time: self.start_time,
            elapsed_time: sat_add(self.elapsed_time, self.segment(now)),
        }
    }

    /// The clock after a resume at reading `now`.
    pub closed spec fn spec_resume(self, now: u64) -> Clock {
        Clock { is_paused: false, start_time: now, elapsed_time: self.elapsed_time }
    }

    /// The total a stop at reading `now` yields.
    pub open spec fn spec_stop(self, now: u64) -> u64 {
        sat_add(self.elapsed(), self.segment(now))
    }

    /// Creates a running clock with nothing accumulated.
    pub fn new() -> (c: Clock)
        ensures
            !c.paused(),
            c.elapsed() == 0,
    {
        Clock { is_paused: false, start_time: now_nanos(), elapsed_time: 0 }
    }

    /// Whether the clock is paused.
    pub fn is_paused(&self) -> (r: bool)
        ensures
            r == self.paused(),
    {
        self.is_paused
    }

    /// Closes the current segment: adds the time since the last resume (or
    /// creation) to the accumulated total and leaves the clock paused.
    pub fn pause(&mut self)
        requires
            !old(self).paused(),
        ensures
            final(self).paused(),
            final(self).start() == old(self).start(),
            final(self).elapsed() >= old(self).elapsed(),
            exists|now: u64| *final(self) == old(self).spec_pause(now),
    {
        let now = now_nanos();
        let delta = if now >= self.start_time {
            now - self.start_time
        } else {
            0
        };
        self.elapsed_time = self.elapsed_time.saturating_add(delta);
        self.is_paused = true;
        proof {
            assert(*self == old(self).spec_pause(now));
        }
    }

    /// Opens a new segment at the current reading and leaves the clock
    /// running. The accumulated total is unchanged.
    pub fn resume(&mut self)
        requires
            old(self).paused(),
        ensures
            !final(self).paused(),
            final(self).elapsed() == old(self).elapsed(),
            exists|now: u64| *final(self) == old(self).spec_resume(now),
    {
        self.is_paused = false;
        let now = now_nanos();
        self.start_time = now;
        proof {
            assert(*self == old(self).spec_resume(now));
        }
    }

    /// Closes the final segment and yields the total accumulated time in
    /// nanoseconds, consuming the clock.
    pub fn stop(self) -> (r: u64)
        requires
            !self.paused(),
        ensures
            r >= self.elapsed(),
            exists|now: u64| r == self.spec_stop(now),
    {
        let now = now_nanos();
        let delta = if now >= self.start_time {
            now - self.start_time
        } else {
            0
        };
        let r = self.elapsed_time.saturating_add(delta);
        proof {
            assert(r == self.spec_stop(now));
        }
        r
    }
}

/// The clock after running one pause/resume cycle for each pair of readings
/// in `cuts`: for a pair `(p, s)` the clock pauses at reading `p` and resumes
/// at reading `s`.
pub open spec fn apply_segments(c: Clock, cuts: Seq<(u64, u64)>) -> Clock
    decreases cuts.len(),
{
    if cuts.len() == 0 {
        c
    } else {
        apply_segments(c.spec_pause(cuts[0].0).spec_resume(cuts[0].1), cuts.skip(1))
    }
}

/// Whether the readings `start`, then each pause and resume in `cuts`, then
/// `end` occur in monotone order, as readings of a monotonic clock do.
pub open spec fn monotone_cuts(start: u64, cuts: Seq<(u64, u64)>, end: u64) -> bool
    decreases cuts.len(),
{
    if cuts.len() == 0 {
        start <= end
    } else {
        start <= cuts[0].0 <= cuts[0].1 && monotone_cuts(cuts[0].1, cuts.skip(1), end)
    }
}

/// The sum of the wall-clock deltas of all running segments: from `start` to
/// the first pause, from each resume to the following pause, and from the
/// last resume to `end`.
pub open spec fn delta_sum(start: u64, cuts: Seq<(u64, u64)>, end: u64) -> int
    decreases cuts.len(),
{
    if cuts.len() == 0 {
        end - start
    } else {
        (cuts[0].0 - start) + delta_sum(cuts[0].1, cuts.skip(1), end)
    }
}

/// Between monotone readings every running segment has nonnegative length,
/// so the sum of the deltas is nonnegative.
pub proof fn lemma_delta_sum_nonneg(start: u64, cuts: Seq<(u64, u64)>, end: u64)
    requires
        monotone_cuts(start, cuts, end),
    ensures
        delta_sum(start, cuts, end) >= 0,
    decreases cuts.len(),
{
    if cuts.len() > 0 {
        lemma_delta_sum_nonneg(cuts[0].1, cuts.skip(1), end);
    }
}

/// For every well-formed pause/resume sequence, the total that `stop` yields
/// equals the clock's prior accumulation plus the sum of the wall-clock
/// deltas between each resume (or creation) and the following pause (or the
/// final stop), and paused intervals contribute nothing.
pub proof fn lemma_stop_totals_segments(c: Clock, cuts: Seq<(u64, u64)>, end: u64)
    requires
        !c.paused(),
        monotone_cuts(c.start(), cuts, end),
        c.elapsed() + delta_sum(c.start(), cuts, end) <= u64::MAX,
    ensures
        apply_segments(c, cuts).spec_stop(end) == c.elapsed() + delta_sum(c.start(), cuts, end),
    decreases cuts.len(),
{
    if cuts.len() == 0 {
        assert(c.spec_stop(end) == c.elapsed() + (end - c.start()));
    } else {
        let p = cuts[0].0;
        let s = cuts[0].1;
        let c2 = c.spec_pause(p).spec_resume(s);
        lemma_delta_sum_nonneg(s, cuts.skip(1), end);
        assert(c2.elapsed() == c.elapsed() + (p - c.start()));
        assert(c2.start() == s);
        assert(delta_sum(c.start(), cuts, end) == (p - c.start()) + delta_sum(s, cuts.skip(1), end));
        lemma_stop_totals_segments(c2, cuts.skip(1), end);
    }
}

} // verus!
