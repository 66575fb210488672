//! The throttle decision core.
//!
//! A driver owns the real inner source and the real one-shot timer and polls
//! them; this module decides, from those poll results alone, what the
//! throttled stream answers and how its single piece of mutable state — the
//! cooldown flag — moves. One whole poll of the throttled stream is:
//!
//! 1. If the state is cooling, the driver polls the timer and reports the
//!    result to [`Throttle::on_timer_poll`]. If the timer has not elapsed,
//!    the driver suspends (the timer has registered its own wake). If it has,
//!    the cooldown is cleared and the poll continues with the source.
//! 2. The driver polls the inner source and hands the result to
//!    [`Throttle::on_source_poll`], which answers with the outcome of the
//!    whole poll and arms a new cooldown exactly when an item was produced.

use vstd::prelude::*;

verus! {

/// What one poll of the inner source returned.
#[derive(Debug, PartialEq, Eq)]
pub enum SourcePoll<T> {
    /// The source has no item yet; it has registered its own wake.
    Pending,
    /// The source yielded its next item.
    Item(T),
    /// The source is exhausted.
    Done,
}

/// What one whole poll of the throttled stream answers.
#[derive(Debug, PartialEq, Eq)]
pub enum PollOutcome<T> {
    /// No item is available yet. When `wake_now` is set the driver must
    /// re-register itself for an immediate wake before suspending: nothing
    /// else would cause it to be polled again on this path.
    Pending { wake_now: bool },
    /// The next item, passed through unchanged; a cooldown is now armed.
    Produced(T),
    /// The inner source is exhausted, and so is the throttled stream.
    Finished,
}

/// Whether a source poll result arms a fresh cooldown: exactly the case in
/// which an item is produced.
pub open spec fn source_arms_timer<T>(ev: SourcePoll<T>) -> bool {
    ev is Item
}

/// The outcome of a whole poll once the source has been consulted: a pure
/// pass-through of the source's answer, with the wake re-registration
/// demanded on the not-ready path.
pub open spec fn source_outcome<T>(ev: SourcePoll<T>) -> PollOutcome<T> {
    match ev {
        SourcePoll::Pending => PollOutcome::Pending { wake_now: true },
        SourcePoll::Item(v) => PollOutcome::Produced(v),
        SourcePoll::Done => PollOutcome::Finished,
    }
}

/// The throttle state: the configured interval and whether a cooldown is in
/// effect. The cooldown flag is set if and only if the driver holds an armed
/// timer for this throttle.
pub struct Throttle {
    interval: u64,
    cooling: bool,
}

impl Throttle {
    /// The minimum spacing this throttle was configured with.
    pub closed spec fn spec_interval(&self) -> u64 {
        self.interval
    }

    /// Whether a cooldown is in effect, i.e. readiness is currently being
    /// withheld purely for rate limiting.
    pub closed spec fn spec_cooling(&self) -> bool {
        self.cooling
    }

    /// A fresh throttle: no cooldown, so the first item is never delayed.
    pub fn new(interval: u64) -> (t: Throttle)
        ensures
            t.spec_interval() == interval,
            !t.spec_cooling(),
    {
        Throttle { interval, cooling: false }
    }

    /// The configured interval, for the driver to arm each new timer with.
    pub fn interval(&self) -> (d: u64)
        ensures
            d == self.spec_interval(),
    {
        self.interval
    }

    /// Whether the driver must poll its timer before consulting the source.
    pub fn is_cooling(&self) -> (b: bool)
        ensures
            b == self.spec_cooling(),
    {
        self.cooling
    }

    /// Report the result of polling the armed timer. Returns whether the
    /// driver continues with the source in this same poll: exactly when the
    /// timer elapsed, in which case the cooldown is cleared and the timer is
    /// to be discarded. Otherwise the state is unchanged and the driver
    /// suspends without waking itself — the pending timer holds the wake.
    pub fn on_timer_poll(&mut self, elapsed: bool) -> (poll_source: bool)
        requires
            old(self).spec_cooling(),
        ensures
            final(self).spec_interval() == old(self).spec_interval(),
            final(self).spec_cooling() == !elapsed,
            poll_source == elapsed,
    {
        if elapsed {
            self.cooling = false;
        }
        elapsed
    }

    /// Report the result of polling the inner source, allowed only while no
    /// cooldown is in effect. The outcome passes the source's answer through
    /// unchanged — an item is returned on this very poll, never held — and a
    /// cooldown is armed exactly when an item was produced. On a not-ready
    /// source the outcome demands an immediate wake re-registration.
    pub fn on_source_poll<T>(&mut self, ev: SourcePoll<T>) -> (out: PollOutcome<T>)
        requires
            !old(self).spec_cooling(),
        ensures
            final(self).spec_interval() == old(self).spec_interval(),
            final(self).spec_cooling() == source_arms_timer(ev),
            out == source_outcome(ev),
    {
        match ev {
            SourcePoll::Pending => PollOutcome::Pending { wake_now: true },
            SourcePoll::Item(v) => {
                self.cooling = true;
                PollOutcome::Produced(v)
            },
            SourcePoll::Done => PollOutcome::Finished,
        }
    }
}

} // verus!
