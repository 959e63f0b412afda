use pgextkit::latch::{SharedLatch, SignalState, SignalWakeFlags, WaitOutcome};

#[test]
fn set_latch_ends_an_unbounded_wait() {
    let mut latch = SharedLatch::new();
    let owned = latch.own(42, 7).unwrap();
    assert_eq!(latch.set_and_wake_up(), Some(42));
    assert_eq!(owned.wait(&mut latch, None, 0, true), WaitOutcome::LatchSet);
    // the wake bit was cleared
    assert_eq!(owned.wait(&mut latch, None, 0, true), WaitOutcome::Sleep);
}

#[test]
fn wait_times_out() {
    let mut latch = SharedLatch::new();
    let owned = latch.own(1, 0).unwrap();
    assert_eq!(owned.wait(&mut latch, Some(100), 99, true), WaitOutcome::Sleep);
    assert_eq!(owned.wait(&mut latch, Some(100), 100, true), WaitOutcome::TimedOut);
    assert_eq!(owned.wait(&mut latch, Some(100), 5, false), WaitOutcome::SupervisorGone);
}

#[test]
fn second_owner_is_refused() {
    let mut latch = SharedLatch::new();
    let first = latch.own(1, 0).unwrap();
    assert!(latch.own(2, 0).is_none());
    let mut other = SharedLatch::new();
    assert_eq!(first.wait(&mut other, None, 0, true), WaitOutcome::NotOwner);
}

#[test]
fn unowned_latch_set_wakes_nobody() {
    let mut latch = SharedLatch::new();
    assert_eq!(latch.set_and_wake_up(), None);
}

#[test]
fn disown_frees_the_latch() {
    let mut latch = SharedLatch::new();
    let mut signals = SignalState::new();
    let owned = latch.own(5, 3).unwrap();
    owned.attach_signal_handlers(&mut signals, SignalWakeFlags::sigterm());
    owned.disown(&mut latch, &mut signals);
    assert!(latch.own(6, 3).is_some());
    // a disowned latch is no longer woken by signals
    assert_eq!(signals.deliver(SignalWakeFlags::sigterm()), Vec::<u64>::new());
}

#[test]
fn signal_is_reported_once() {
    let mut latch = SharedLatch::new();
    let mut signals = SignalState::new();
    let owned = latch.own(5, 11).unwrap();
    owned.attach_signal_handlers(&mut signals, SignalWakeFlags::sigterm());
    assert!(!owned.signal_received(&mut signals, SignalWakeFlags::sigterm()));
    assert_eq!(signals.deliver(SignalWakeFlags::sigterm()), vec![11]);
    assert!(owned.signal_received(&mut signals, SignalWakeFlags::sigterm()));
    assert!(!owned.signal_received(&mut signals, SignalWakeFlags::sigterm()));
}

#[test]
fn repeated_deliveries_coalesce() {
    let mut signals = SignalState::new();
    let owned = SharedLatch::new().own(1, 1).unwrap();
    owned.attach_signal_handlers(&mut signals, SignalWakeFlags::sighup().union(SignalWakeFlags::sigterm()));
    signals.deliver(SignalWakeFlags::sighup());
    signals.deliver(SignalWakeFlags::sighup());
    assert!(owned.signal_received(&mut signals, SignalWakeFlags::sighup()));
    assert!(!owned.signal_received(&mut signals, SignalWakeFlags::sighup()));
    assert!(!owned.signal_received(&mut signals, SignalWakeFlags::sigterm()));
}

#[test]
fn signal_without_handler_is_ignored() {
    let mut signals = SignalState::new();
    let owned = SharedLatch::new().own(1, 1).unwrap();
    owned.attach_signal_handlers(&mut signals, SignalWakeFlags::sigterm());
    assert_eq!(signals.deliver(SignalWakeFlags::sighup()), Vec::<u64>::new());
    assert!(!owned.signal_received(&mut signals, SignalWakeFlags::sighup()));
}

#[test]
fn flag_bits() {
    assert_eq!(SignalWakeFlags::sighup().bits(), 1);
    assert_eq!(SignalWakeFlags::sigterm().bits(), 2);
    assert_eq!(SignalWakeFlags::sighup().union(SignalWakeFlags::sigterm()).bits(), 3);
    assert_eq!(SignalWakeFlags::from_bits(2), Some(SignalWakeFlags::sigterm()));
    assert_eq!(SignalWakeFlags::from_bits(4), None);
    assert!(SignalWakeFlags::from_bits(3).unwrap().contains(SignalWakeFlags::sighup()));
    assert!(!SignalWakeFlags::sigterm().contains(SignalWakeFlags::sighup()));
    assert!(SignalWakeFlags::sigterm().contains(SignalWakeFlags::empty()));
}

#[test]
fn query_naming_both_signals_is_false() {
    let mut signals = SignalState::new();
    let owned = SharedLatch::new().own(1, 1).unwrap();
    let both = SignalWakeFlags::sighup().union(SignalWakeFlags::sigterm());
    owned.attach_signal_handlers(&mut signals, both);
    signals.deliver(SignalWakeFlags::sighup());
    assert!(!owned.signal_received(&mut signals, both));
    assert!(!owned.signal_received(&mut signals, SignalWakeFlags::empty()));
    // the pending hang-up is still there
    assert!(owned.signal_received(&mut signals, SignalWakeFlags::sighup()));
}

#[test]
fn owning_for_a_scope_gives_the_latch_back() {
    let mut latch = SharedLatch::new();
    let mut signals = SignalState::new();
    let r = latch.own_while(&mut signals, 9, 4, SignalWakeFlags::sigterm(), |owned, mut l, mut s| {
        assert_eq!(l.set_and_wake_up(), Some(9));
        let outcome = owned.wait(&mut l, None, 0, true);
        assert_eq!(s.deliver(SignalWakeFlags::sigterm()), vec![4]);
        let got = owned.signal_received(&mut s, SignalWakeFlags::sigterm());
        (l, s, (outcome, got))
    });
    assert_eq!(r, Some((WaitOutcome::LatchSet, true)));
    // unowned and no longer reached by signals
    assert!(latch.own(10, 4).is_some());
    assert_eq!(signals.deliver(SignalWakeFlags::sigterm()), Vec::<u64>::new());
}

#[test]
fn owning_an_owned_latch_does_not_run_the_body() {
    let mut latch = SharedLatch::new();
    let mut signals = SignalState::new();
    let _first = latch.own(1, 0).unwrap();
    let r = latch.own_while(&mut signals, 2, 0, SignalWakeFlags::sigterm(), |_o, l, s| (l, s, 5));
    assert_eq!(r, None);
}
