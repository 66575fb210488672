use throttle::adapter::PollOutcome;
use throttle::adapter::SourcePoll;
use throttle::adapter::Throttle;

/// Drives one whole poll of the throttled stream the way a scheduler would:
/// consult the timer first where a cooldown is armed, and the source only
/// once no cooldown is pending. `timer_elapsed` is what the armed timer
/// would answer at this poll; `src` is what the source would answer where
/// consulted. Returns `None` where the poll suspended on the pending timer.
fn drive_poll<T>(
    t: &mut Throttle,
    timer_elapsed: bool,
    src: SourcePoll<T>,
) -> Option<PollOutcome<T>> {
    if t.is_cooling() && !t.on_timer_poll(timer_elapsed) {
        return None;
    }
    Some(t.on_source_poll(src))
}

#[test]
fn new_starts_ready() {
    let t = Throttle::new(50);
    assert!(!t.is_cooling());
    assert_eq!(t.interval(), 50);
}

#[test]
fn first_item_not_delayed() {
    let mut t = Throttle::new(1_000_000);
    let out = t.on_source_poll(SourcePoll::Item('a'));
    assert_eq!(out, PollOutcome::Produced('a'));
    assert!(t.is_cooling());
}

#[test]
fn pass_through_on_not_ready() {
    let mut t = Throttle::new(50);
    let out = t.on_source_poll(SourcePoll::<u32>::Pending);
    assert_eq!(out, PollOutcome::Pending { wake_now: true });
    assert!(!t.is_cooling());
}

#[test]
fn pending_timer_suspends_without_wake() {
    let mut t = Throttle::new(50);
    assert_eq!(t.on_source_poll(SourcePoll::Item(1u8)), PollOutcome::Produced(1u8));
    assert!(!t.on_timer_poll(false));
    assert!(t.is_cooling());
}

#[test]
fn elapsed_timer_reaches_source_in_same_poll() {
    let mut t = Throttle::new(50);
    assert_eq!(t.on_source_poll(SourcePoll::Item(1u8)), PollOutcome::Produced(1u8));
    assert!(t.on_timer_poll(true));
    assert!(!t.is_cooling());
    assert_eq!(t.on_source_poll(SourcePoll::Item(2u8)), PollOutcome::Produced(2u8));
}

#[test]
fn no_drops_cardinality_and_order() {
    let mut t = Throttle::new(50);
    let mut produced: Vec<char> = Vec::new();
    for v in ['a', 'b', 'c'] {
        // After each production a cooldown holds the next item back for a
        // while; once it elapses the item must come through on that very
        // poll.
        if t.is_cooling() {
            match drive_poll(&mut t, false, SourcePoll::Item(v)) {
                None => {}
                Some(_) => panic!("a pending timer must suspend the poll"),
            }
        }
        match drive_poll(&mut t, true, SourcePoll::Item(v)) {
            Some(PollOutcome::Produced(got)) => produced.push(got),
            _ => panic!("an offered item must be produced at once"),
        }
    }
    assert_eq!(produced, vec!['a', 'b', 'c']);
}

#[test]
fn spacing_scenario() {
    // The inner source has items ready at times 0, 10 and 20; the interval
    // is 50. The adapter must answer: 'a' at 0, then hold 'b' until 50 and
    // 'c' until 100 — delayed, never dropped.
    let mut t = Throttle::new(50);
    // time 0: no cooldown yet, 'a' passes straight through
    assert_eq!(drive_poll(&mut t, false, SourcePoll::Item('a')), Some(PollOutcome::Produced('a')));
    // time 10: cooldown armed at 0 is still pending; 'b' is held, not lost
    assert_eq!(drive_poll(&mut t, false, SourcePoll::Item('b')), None);
    // time 50: the cooldown has elapsed; 'b' comes through in the same poll
    assert_eq!(drive_poll(&mut t, true, SourcePoll::Item('b')), Some(PollOutcome::Produced('b')));
    // time 60: the cooldown armed at 50 is still pending
    assert_eq!(drive_poll(&mut t, false, SourcePoll::Item('c')), None);
    // time 100: elapsed again; 'c' comes through
    assert_eq!(drive_poll(&mut t, true, SourcePoll::Item('c')), Some(PollOutcome::Produced('c')));
}

#[test]
fn finished_is_terminal() {
    let mut t = Throttle::new(50);
    assert_eq!(t.on_source_poll(SourcePoll::Item(9i32)), PollOutcome::Produced(9i32));
    assert!(t.on_timer_poll(true));
    // The source is exhausted; a well-behaved source answers Done on every
    // later consultation, and the adapter passes each answer through with no
    // cooldown ever armed again.
    for _ in 0..3 {
        assert_eq!(t.on_source_poll(SourcePoll::<i32>::Done), PollOutcome::Finished);
        assert!(!t.is_cooling());
    }
}

#[test]
fn done_on_first_poll() {
    let mut t = Throttle::new(50);
    assert_eq!(t.on_source_poll(SourcePoll::<u64>::Done), PollOutcome::Finished);
    assert!(!t.is_cooling());
}

#[test]
fn zero_interval_passes_through() {
    // With interval 0 every cooldown has already expired whenever its timer
    // is polled, so the adapter behaves as the unthrottled source.
    let mut t = Throttle::new(0);
    let mut produced: Vec<u32> = Vec::new();
    for v in [10u32, 20, 30] {
        match drive_poll(&mut t, true, SourcePoll::Item(v)) {
            Some(PollOutcome::Produced(got)) => produced.push(got),
            _ => panic!("a zero-interval throttle must pass every item through"),
        }
    }
    assert_eq!(produced, vec![10, 20, 30]);
    assert_eq!(drive_poll(&mut t, true, SourcePoll::<u32>::Pending), Some(PollOutcome::Pending {
        wake_now: true,
    }));
    assert_eq!(drive_poll(&mut t, true, SourcePoll::<u32>::Done), Some(PollOutcome::Finished));
}

#[test]
fn not_ready_after_elapsed_cooldown() {
    // A slow source: the cooldown expires first, then the source is still
    // not ready. The adapter forwards the not-ready answer at once and asks
    // for an immediate wake; no minimum delay is imposed on waiting for data.
    let mut t = Throttle::new(50);
    assert_eq!(t.on_source_poll(SourcePoll::Item(1u8)), PollOutcome::Produced(1u8));
    assert_eq!(drive_poll(&mut t, true, SourcePoll::<u8>::Pending), Some(PollOutcome::Pending {
        wake_now: true,
    }));
    assert!(!t.is_cooling());
    // The next item then needs no new cooldown: it was armed by production,
    // not by the mere passage of the interval.
    assert_eq!(t.on_source_poll(SourcePoll::Item(2u8)), PollOutcome::Produced(2u8));
    assert!(t.is_cooling());
}
