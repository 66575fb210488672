//! A trace model of the throttled stream over abstract times.
//!
//! A run of the throttle is described from the outside as a sequence of
//! polls, each carrying the (abstract, nondecreasing) real time at which it
//! happened and what the environment answered at it: whether an armed timer
//! had elapsed, and what the inner source returned where it was consulted.
//! Over such traces the throttle's guarantees are stated and proved: nothing
//! is dropped or reordered, consecutive emissions are at least the interval
//! apart, the first emission is never delayed, exhaustion is terminal, and a
//! zero interval degenerates to a pure pass-through.

use vstd::prelude::*;

use crate::adapter::PollOutcome;
use crate::adapter::SourcePoll;
use crate::adapter::source_arms_timer;
use crate::adapter::source_outcome;

verus! {

/// One poll of the throttled stream, as the environment saw it: `at` is the
/// real time of the poll; `timer_elapsed` is what the armed timer answered
/// (meaningful only while the state is cooling); `src` is what the inner
/// source answered (meaningful only where the source is consulted).
pub struct PollInput<T> {
    pub at: int,
    pub timer_elapsed: bool,
    pub src: SourcePoll<T>,
}

/// The throttle state as the trace model tracks it: the cooldown flag of the
/// executable state, plus the time at which the current cooldown was armed —
/// the time of the last emission.
pub struct TimedState {
    pub cooling: bool,
    pub armed_at: int,
}

/// One item the throttle emitted, with the time of the poll that emitted it.
pub struct Emission<T> {
    pub at: int,
    pub value: T,
}

/// The state in which every run begins: no cooldown in effect.
pub open spec fn init_state() -> TimedState {
    TimedState { cooling: false, armed_at: 0 }
}

/// Whether a poll reaches the inner source: always when no cooldown is in
/// effect, and after an elapsed timer within the same poll otherwise.
pub open spec fn consults_source<T>(st: TimedState, p: PollInput<T>) -> bool {
    !st.cooling || p.timer_elapsed
}

/// How one poll moves the state: a pending timer leaves it untouched; an
/// emitted item arms a cooldown stamped with the poll's time; a not-ready or
/// exhausted source leaves no cooldown behind.
pub open spec fn step_state<T>(st: TimedState, p: PollInput<T>) -> TimedState {
    if !consults_source(st, p) {
        st
    } else if source_arms_timer(p.src) {
        TimedState { cooling: true, armed_at: p.at }
    } else {
        TimedState { cooling: false, armed_at: st.armed_at }
    }
}

/// What one poll answers: suspension without a self-wake while the timer is
/// pending, and the pass-through of the source's answer otherwise.
pub open spec fn step_outcome<T>(st: TimedState, p: PollInput<T>) -> PollOutcome<T> {
    if !consults_source(st, p) {
        PollOutcome::Pending { wake_now: false }
    } else {
        source_outcome(p.src)
    }
}

/// The state after a whole sequence of polls, starting from `init_state`.
pub open spec fn state_after<T>(polls: Seq<PollInput<T>>) -> TimedState
    decreases polls.len(),
{
    if polls.len() == 0 {
        init_state()
    } else {
        step_state(state_after(polls.drop_last()), polls.last())
    }
}

/// The outcome of poll `i` of a run.
pub open spec fn outcome_at<T>(polls: Seq<PollInput<T>>, i: int) -> PollOutcome<T>
    recommends
        0 <= i < polls.len(),
{
    step_outcome(state_after(polls.take(i)), polls[i])
}

/// How one poll extends the emitted sequence: an item the source handed over
/// is emitted at once, stamped with the poll's time; every other poll emits
/// nothing.
pub open spec fn step_emissions<T>(st: TimedState, ems: Seq<Emission<T>>, p: PollInput<T>) -> Seq<
    Emission<T>,
> {
    match p.src {
        SourcePoll::Item(v) => if consults_source(st, p) {
            ems.push(Emission { at: p.at, value: v })
        } else {
            ems
        },
        _ => ems,
    }
}

/// How one poll extends the sequence of items the source handed over.
pub open spec fn step_yields<T>(st: TimedState, ys: Seq<T>, p: PollInput<T>) -> Seq<T> {
    match p.src {
        SourcePoll::Item(v) => if consults_source(st, p) {
            ys.push(v)
        } else {
            ys
        },
        _ => ys,
    }
}

/// Everything a run emitted, in order, each item with the time of its poll.
pub open spec fn emissions<T>(polls: Seq<PollInput<T>>) -> Seq<Emission<T>>
    decreases polls.len(),
{
    if polls.len() == 0 {
        Seq::empty()
    } else {
        step_emissions(state_after(polls.drop_last()), emissions(polls.drop_last()), polls.last())
    }
}

/// The values a run emitted, in order.
pub open spec fn emitted_values<T>(polls: Seq<PollInput<T>>) -> Seq<T> {
    emissions(polls).map_values(|e: Emission<T>| e.value)
}

/// The items the inner source actually handed over during a run: its answers
/// at the polls where it was consulted.
pub open spec fn source_yield_values<T>(polls: Seq<PollInput<T>>) -> Seq<T>
    decreases polls.len(),
{
    if polls.len() == 0 {
        Seq::empty()
    } else {
        step_yields(
            state_after(polls.drop_last()),
            source_yield_values(polls.drop_last()),
            polls.last(),
        )
    }
}

/// Whether the inner source is consulted at poll `k` of a run.
pub open spec fn consulted_at<T>(polls: Seq<PollInput<T>>, k: int) -> bool
    recommends
        0 <= k < polls.len(),
{
    consults_source(state_after(polls.take(k)), polls[k])
}

/// The environment keeps real time nondecreasing across the polls of a run.
pub open spec fn times_monotone<T>(polls: Seq<PollInput<T>>) -> bool {
    forall|i: int, j: int| #![trigger polls[i], polls[j]]
        0 <= i <= j < polls.len() ==> polls[i].at <= polls[j].at
}

/// The timer never claims to have elapsed early: where a cooling state's
/// timer reports elapsed, at least `interval` has passed since it was armed.
pub open spec fn timer_honest<T>(interval: int, polls: Seq<PollInput<T>>) -> bool {
    forall|k: int| #![trigger polls.take(k)]
        0 <= k < polls.len() ==> (state_after(polls.take(k)).cooling && polls[k].timer_elapsed
            ==> polls[k].at >= state_after(polls.take(k)).armed_at + interval)
}

/// The timer reports elapsed whenever its deadline has in fact passed at the
/// time it is polled.
pub open spec fn timer_prompt<T>(interval: int, polls: Seq<PollInput<T>>) -> bool {
    forall|k: int| #![trigger polls.take(k)]
        0 <= k < polls.len() ==> (state_after(polls.take(k)).cooling && polls[k].at
            >= state_after(polls.take(k)).armed_at + interval ==> polls[k].timer_elapsed)
}

/// A well-behaved source: once it has answered that it is exhausted, every
/// later consultation answers the same.
pub open spec fn source_fused<T>(polls: Seq<PollInput<T>>) -> bool {
    forall|i: int, j: int| #![trigger consulted_at(polls, i), consulted_at(polls, j)]
        0 <= i <= j < polls.len() && consulted_at(polls, i) && polls[i].src is Done
            && consulted_at(polls, j) ==> polls[j].src is Done
}

/// Consecutive emissions lie at least `interval` apart in time.
pub open spec fn well_spaced<T>(interval: int, ems: Seq<Emission<T>>) -> bool {
    forall|i: int| #![trigger ems[i]]
        0 <= i && i + 1 < ems.len() ==> ems[i].at + interval <= ems[i + 1].at
}

/// The invariant a run maintains after its first `k` polls: emissions so far
/// are well spaced; while cooling, the cooldown was armed at the time of the
/// last emission, which is the time of one of the polls seen so far; while
/// not cooling with at least one emission behind, some poll seen so far
/// already lay a full interval after the last emission.
pub open spec fn throttle_inv<T>(interval: int, polls: Seq<PollInput<T>>, k: int) -> bool {
    let st = state_after(polls.take(k));
    let ems = emissions(polls.take(k));
    &&& well_spaced(interval, ems)
    &&& (st.cooling ==> ems.len() > 0 && st.armed_at == ems.last().at)
    &&& (st.cooling ==> exists|p: int| #![trigger polls[p]]
        0 <= p < k && polls[p].at == st.armed_at)
    &&& (!st.cooling && ems.len() > 0 ==> exists|m: int| #![trigger polls[m]]
        0 <= m < k && polls[m].at >= ems.last().at + interval)
}

/// Unfolds one poll at a prefix boundary: the state, emissions and source
/// yields after `k + 1` polls are one step beyond those after `k` polls.
pub proof fn lemma_step_at<T>(polls: Seq<PollInput<T>>, k: int)
    requires
        0 <= k < polls.len(),
    ensures
        state_after(polls.take(k + 1)) == step_state(state_after(polls.take(k)), polls[k]),
        emissions(polls.take(k + 1)) == step_emissions(
            state_after(polls.take(k)),
            emissions(polls.take(k)),
            polls[k],
        ),
        source_yield_values(polls.take(k + 1)) == step_yields(
            state_after(polls.take(k)),
            source_yield_values(polls.take(k)),
            polls[k],
        ),
{
    let s = polls.take(k + 1);
    assert(s.len() == k + 1);
    assert(s.drop_last() =~= polls.take(k));
    assert(s.last() == polls[k]);
}

/// The invariant holds after any prefix of a run whose environment keeps
/// time monotone and whose timer is honest.
pub proof fn lemma_inv<T>(interval: int, polls: Seq<PollInput<T>>, k: int)
    requires
        times_monotone(polls),
        timer_honest(interval, polls),
        0 <= k <= polls.len(),
    ensures
        throttle_inv(interval, polls, k),
    decreases k,
{
    if k == 0 {
        assert(polls.take(0).len() == 0);
        assert(state_after(polls.take(0)) == init_state());
        assert(emissions(polls.take(0)) =~= Seq::<Emission<T>>::empty());
    } else {
        lemma_inv(interval, polls, k - 1);
        lemma_step_at(polls, k - 1);
        let st = state_after(polls.take(k - 1));
        let ems = emissions(polls.take(k - 1));
        let p = polls[k - 1];
        let st2 = state_after(polls.take(k));
        let ems2 = emissions(polls.take(k));
        if !consults_source(st, p) {
            // A pending timer: nothing moves, the witnesses carry over.
            assert(st2 == st && ems2 == ems);
            let w = choose|q: int| 0 <= q < k - 1 && polls[q].at == st.armed_at;
            assert(0 <= w < k && polls[w].at == st2.armed_at);
        } else {
            // The source is consulted; where anything was emitted before,
            // this poll already lies a full interval after the last emission.
            if st.cooling {
                assert(p.at >= st.armed_at + interval);
                assert(p.at >= ems.last().at + interval);
            } else if ems.len() > 0 {
                let m = choose|m: int| 0 <= m < k - 1 && polls[m].at >= ems.last().at + interval;
                assert(polls[m].at <= p.at);
                assert(p.at >= ems.last().at + interval);
            }
            match p.src {
                SourcePoll::Item(v) => {
                    assert(ems2 == ems.push(Emission { at: p.at, value: v }));
                    assert(st2 == TimedState { cooling: true, armed_at: p.at });
                    assert forall|i: int| #![trigger ems2[i]]
                        0 <= i && i + 1 < ems2.len() implies ems2[i].at + interval <= ems2[i
                        + 1].at by {
                        if i + 1 < ems.len() {
                            assert(ems2[i] == ems[i] && ems2[i + 1] == ems[i + 1]);
                        } else {
                            assert(ems2[i] == ems.last() && ems2[i + 1].at == p.at);
                        }
                    }
                    assert(ems2.last().at == p.at);
                    assert(0 <= k - 1 < k && polls[k - 1].at == st2.armed_at);
                },
                SourcePoll::Pending => {
                    assert(ems2 == ems && !st2.cooling);
                    if ems.len() > 0 {
                        assert(0 <= k - 1 < k && polls[k - 1].at >= ems2.last().at + interval);
                    }
                },
                SourcePoll::Done => {
                    assert(ems2 == ems && !st2.cooling);
                    if ems.len() > 0 {
                        assert(0 <= k - 1 < k && polls[k - 1].at >= ems2.last().at + interval);
                    }
                },
            }
        }
    }
}

/// Nothing is dropped or reordered: the values a run emits are exactly the
/// items the inner source handed over, in the same order — under any
/// environment whatsoever.
pub proof fn lemma_no_drops<T>(polls: Seq<PollInput<T>>)
    ensures
        emitted_values(polls) == source_yield_values(polls),
    decreases polls.len(),
{
    if polls.len() == 0 {
        assert(emitted_values(polls) =~= source_yield_values(polls));
    } else {
        lemma_no_drops(polls.drop_last());
        assert(emitted_values(polls) =~= source_yield_values(polls));
    }
}

/// Minimum spacing: under a monotone clock and an honest timer, any two
/// consecutive emissions of a run lie at least `interval` apart.
pub proof fn lemma_min_spacing<T>(interval: int, polls: Seq<PollInput<T>>)
    requires
        times_monotone(polls),
        timer_honest(interval, polls),
    ensures
        well_spaced(interval, emissions(polls)),
{
    lemma_inv(interval, polls, polls.len() as int);
    assert(polls.take(polls.len() as int) =~= polls);
}

/// Each poll emits exactly where its outcome produces: a `Produced` outcome
/// appends that value, stamped with the poll's time, and any other outcome
/// leaves the emitted sequence unchanged.
pub proof fn lemma_emission_outcome<T>(polls: Seq<PollInput<T>>, k: int)
    requires
        0 <= k < polls.len(),
    ensures
        (outcome_at(polls, k) is Produced) == (consulted_at(polls, k) && polls[k].src is Item),
        outcome_at(polls, k) matches PollOutcome::Produced(v) ==> emissions(polls.take(k + 1))
            == emissions(polls.take(k)).push((Emission { at: polls[k].at, value: v })),
        !(outcome_at(polls, k) is Produced) ==> emissions(polls.take(k + 1)) == emissions(
            polls.take(k),
        ),
{
    lemma_step_at(polls, k);
}

/// Across a stretch of polls none of which produces, the emitted sequence
/// does not move.
pub proof fn lemma_emissions_constant<T>(polls: Seq<PollInput<T>>, i: int, j: int)
    requires
        0 <= i <= j <= polls.len(),
        forall|m: int| i <= m < j ==> !(#[trigger] outcome_at(polls, m) is Produced),
    ensures
        emissions(polls.take(j)) == emissions(polls.take(i)),
    decreases j - i,
{
    if i < j {
        lemma_emissions_constant(polls, i, j - 1);
        lemma_emission_outcome(polls, j - 1);
    }
}

/// Minimum spacing, read off the outcomes: under a monotone clock and an
/// honest timer, two polls whose outcomes are consecutive `Produced`
/// answers — none between them produces — lie at least `interval` apart.
pub proof fn lemma_consecutive_produced_spacing<T>(
    interval: int,
    polls: Seq<PollInput<T>>,
    i: int,
    j: int,
)
    requires
        times_monotone(polls),
        timer_honest(interval, polls),
        0 <= i < j < polls.len(),
        outcome_at(polls, i) is Produced,
        outcome_at(polls, j) is Produced,
        forall|m: int| i < m < j ==> !(#[trigger] outcome_at(polls, m) is Produced),
    ensures
        polls[i].at + interval <= polls[j].at,
{
    lemma_emission_outcome(polls, i);
    lemma_emissions_constant(polls, i + 1, j);
    lemma_emission_outcome(polls, j);
    lemma_inv(interval, polls, j + 1);
    let n: int = emissions(polls.take(i)).len() as int;
    let ems = emissions(polls.take(j + 1));
    assert(ems[n].at == polls[i].at && ems[n + 1].at == polls[j].at);
}

/// The first poll of a run is a pure pass-through: no cooldown exists yet,
/// so in particular a first item is produced at once, whatever the time of
/// that poll.
pub proof fn lemma_first_poll_pass_through<T>(polls: Seq<PollInput<T>>)
    requires
        polls.len() > 0,
    ensures
        outcome_at(polls, 0) == source_outcome(polls[0].src),
{
    assert(polls.take(0).len() == 0);
}

/// Exhaustion is terminal: with a well-behaved source, once some poll's
/// outcome is `Finished`, so is every later poll's.
pub proof fn lemma_terminal<T>(polls: Seq<PollInput<T>>, i: int, j: int)
    requires
        source_fused(polls),
        0 <= i <= j < polls.len(),
        outcome_at(polls, i) is Finished,
    ensures
        outcome_at(polls, j) is Finished,
    decreases j - i,
{
    assert(consulted_at(polls, i) && polls[i].src is Done);
    if i < j {
        lemma_step_at(polls, i);
        assert(!state_after(polls.take(i + 1)).cooling);
        assert(consulted_at(polls, i + 1));
        assert(polls[i + 1].src is Done);
        assert(outcome_at(polls, i + 1) is Finished);
        lemma_terminal(polls, i + 1, j);
    }
}

/// A zero interval degenerates to the unthrottled source: every cooldown has
/// already expired whenever its timer is polled, so each poll's outcome is
/// the pass-through of the source's answer at it.
pub proof fn lemma_zero_interval_pass_through<T>(polls: Seq<PollInput<T>>, k: int)
    requires
        times_monotone(polls),
        timer_honest(0, polls),
        timer_prompt(0, polls),
        0 <= k < polls.len(),
    ensures
        outcome_at(polls, k) == source_outcome(polls[k].src),
{
    lemma_inv(0, polls, k);
    let st = state_after(polls.take(k));
    if st.cooling {
        let p = choose|p: int| 0 <= p < k && polls[p].at == st.armed_at;
        assert(polls[p].at <= polls[k].at);
        assert(polls[k].timer_elapsed);
    }
}

} // verus!
