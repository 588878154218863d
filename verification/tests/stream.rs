use contelemetry::stream::{
    add_capped, interrupted, EventLoop, PollFailure, PollOutcome, Step, Verdict, EINTR,
};

#[test]
fn interruption_is_error_number_four() {
    assert_eq!(EINTR, 4);
    assert!(interrupted(&PollFailure::System(4)));
    assert!(!interrupted(&PollFailure::System(0)));
    assert!(!interrupted(&PollFailure::System(-4)));
    assert!(!interrupted(&PollFailure::System(5)));
    assert!(!interrupted(&PollFailure::System(11)));
    assert!(!interrupted(&PollFailure::System(i32::MAX)));
    assert!(!interrupted(&PollFailure::Other));
}

#[test]
fn interrupted_poll_is_retried_with_the_same_timeout() {
    let mut state = EventLoop::new(100);
    state.lost(0, 3);
    let before = state;
    assert_eq!(state.next(false), Step::Poll { timeout_ms: 100 });
    let verdict = state.settle(PollOutcome::Failed(PollFailure::System(EINTR)));
    assert_eq!(verdict, Verdict::Continue);
    assert_eq!(state, before);
    assert_eq!(state.errors, 0);
    assert_eq!(state.lost_records, 3);
    assert_eq!(state.lost_reports, 1);
    assert_eq!(state.next(false), Step::Poll { timeout_ms: 100 });
}

#[test]
fn drained_poll_goes_on() {
    let mut state = EventLoop::new(250);
    assert_eq!(state.settle(PollOutcome::Drained), Verdict::Continue);
    assert_eq!(state, EventLoop::new(250));
    assert_eq!(state.next(false), Step::Poll { timeout_ms: 250 });
}

#[test]
fn other_failures_end_the_run() {
    let mut state = EventLoop::new(100);
    let failure = PollFailure::System(9);
    assert_eq!(state.settle(PollOutcome::Failed(failure)), Verdict::Abort(failure));
    assert_eq!(state.errors, 1);
    assert_eq!(
        state.settle(PollOutcome::Failed(PollFailure::Other)),
        Verdict::Abort(PollFailure::Other)
    );
    assert_eq!(state.errors, 2);
    assert_eq!(state.lost_records, 0);
}

#[test]
fn cancellation_stops_the_loop() {
    let state = EventLoop::new(100);
    assert_eq!(state.next(true), Step::Stop);
}

#[test]
fn lost_records_are_counted_and_reported() {
    let mut state = EventLoop::new(100);
    assert_eq!(state.lost(3, 17), "[!] Lost 17 events on CPU 3");
    assert_eq!(state.lost(0, 1), "[!] Lost 1 events on CPU 0");
    assert_eq!(state.lost(-1, 0), "[!] Lost 0 events on CPU -1");
    assert_eq!(state.lost_records, 18);
    assert_eq!(state.lost_reports, 3);
    assert_eq!(state.errors, 0);
    assert_eq!(state.timeout_ms, 100);
}

#[test]
fn lost_count_stays_at_the_top() {
    let mut state = EventLoop::new(100);
    assert_eq!(state.lost(1, u64::MAX), "[!] Lost 18446744073709551615 events on CPU 1");
    state.lost(1, 5);
    assert_eq!(state.lost_records, u64::MAX);
    assert_eq!(state.lost_reports, 2);
    assert_eq!(add_capped(u64::MAX - 1, 1), u64::MAX);
    assert_eq!(add_capped(u64::MAX - 1, 2), u64::MAX);
    assert_eq!(add_capped(40, 2), 42);
}
