//! The per-repetition benchmark state: a running clock plus one input value.

use crate::clock::Clock;
use vstd::prelude::*;

verus! {

/// What one benchmark repetition works against.
///
/// A state owns a clock, created running, and exactly one input value. The
/// benchmark body may pause and resume the clock to keep setup work out of
/// the measured interval, and may retrieve the input once; retrieval brackets
/// itself in a pause/resume pair so that it never counts toward measured
/// time. `finish` stops the clock and yields the elapsed nanoseconds.
pub struct State<T> {
    clock: Clock,
    input: T,
}

impl<T> State<T> {
    /// The owned clock.
    pub closed spec fn spec_clock(self) -> Clock {
        self.clock
    }

    /// The owned input value.
    pub closed spec fn spec_input(self) -> T {
        self.input
    }

    /// Whether the owned clock is paused.
    pub open spec fn spec_paused(self) -> bool {
        self.spec_clock().paused()
    }

    /// Creates a state over a fresh running clock, owning `input`.
    pub fn new(input: T) -> (s: State<T>)
        ensures
            !s.spec_paused(),
            s.spec_clock().elapsed() == 0,
            s.spec_input() == input,
    {
        State { clock: Clock::new(), input }
    }

    /// Whether the timer is paused.
    pub fn is_paused(&self) -> (r: bool)
        ensures
            r == self.spec_paused(),
    {
        self.clock.is_paused()
    }

    /// Pauses the benchmark timer, closing the current measured segment.
    pub fn pause(&mut self)
        requires
            !old(self).spec_paused(),
        ensures
            final(self).spec_paused(),
            final(self).spec_input() == old(self).spec_input(),
            final(self).spec_clock().elapsed() >= old(self).spec_clock().elapsed(),
            exists|now: u64| final(self).spec_clock() == old(self).spec_clock().spec_pause(now),
    {
        self.clock.pause();
    }

    /// Resumes the benchmark timer, opening a new measured segment. The
    /// accumulated time is unchanged.
    pub fn resume(&mut self)
        requires
            old(self).spec_paused(),
        ensures
            !final(self).spec_paused(),
            final(self).spec_input() == old(self).spec_input(),
            final(self).spec_clock().elapsed() == old(self).spec_clock().elapsed(),
            exists|now: u64| final(self).spec_clock() == old(self).spec_clock().spec_resume(now),
    {
        self.clock.resume();
    }

    /// Stops the clock and yields the measured nanoseconds, consuming the
    /// state.
    pub fn finish(self) -> (r: u64)
        requires
            !self.spec_paused(),
        ensures
            r >= self.spec_clock().elapsed(),
            exists|now: u64| r == self.spec_clock().spec_stop(now),
    {
        self.clock.stop()
    }
}

impl<T: Default> State<T> {
    /// Hands out the owned input, replacing it with the type's default value,
    /// so that a second retrieval yields that default. The retrieval brackets
    /// itself in a pause/resume pair: it adds nothing beyond the segment
    /// already open to the measured time.
    pub fn get_input(&mut self) -> (r: T)
        requires
            !old(self).spec_paused(),
        ensures
            r == old(self).spec_input(),
            call_ensures(<T as core::default::Default>::default, (), final(self).spec_input()),
            !final(self).spec_paused(),
            final(self).spec_clock().elapsed() >= old(self).spec_clock().elapsed(),
            exists|p: u64, q: u64|
                final(self).spec_clock() == old(self).spec_clock().spec_pause(p).spec_resume(q),
    {
        self.clock.pause();
        let ghost mid = self.clock;
        let mut input = T::default();
        core::mem::swap(&mut input, &mut self.input);
        self.clock.resume();
        proof {
            let p = choose|p: u64| mid == old(self).spec_clock().spec_pause(p);
            let q = choose|q: u64| self.clock == mid.spec_resume(q);
            assert(self.clock == old(self).spec_clock().spec_pause(p).spec_resume(q));
        }
        input
    }
}

/// Retrieving the input a second time returns the type's default value: the
/// first retrieval returns the original input and leaves behind a value
/// satisfying the `Default` contract, and a second retrieval hands that
/// value out — stated here for the index type that benchmarks without a
/// generator receive, whose default is zero.
pub proof fn lemma_second_input_is_default(s: State<u64>, r: u64)
    requires
        call_ensures(<u64 as core::default::Default>::default, (), s.spec_input()),
        r == s.spec_input(),
    ensures
        r == 0,
{
}

} // verus!
