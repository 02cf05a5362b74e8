use script_utils::timer::{
    minutes_between, EmptyScheduleError, InvalidInterval, Phase, PhaseTimer, PhaseType,
};

#[derive(Debug, Clone, Copy, PartialEq)]
enum TestAction {
    Initial,
    Reminder,
}

#[test]
fn creates_timer_with_sorted_phases() {
    let phases = vec![
        Phase::one_time(90, TestAction::Initial),
        Phase::recurring(30, 10, TestAction::Reminder).unwrap(),
    ];

    let timer = PhaseTimer::new(phases).unwrap();

    // First phase should be the one with earliest trigger time
    assert_eq!(timer.current_phase.trigger_at_minute, 30);

    // Original phases should be sorted by trigger time
    assert_eq!(timer.original_phases[0].trigger_at_minute, 30);
    assert_eq!(timer.original_phases[1].trigger_at_minute, 90);
}

#[test]
fn no_action_before_first_phase() {
    let phases = vec![Phase::one_time(90, TestAction::Initial)];
    let mut timer = PhaseTimer::new(phases).unwrap();

    // Should not trigger before the phase's designated trigger time
    let action = timer.action_at_time(45);
    assert_eq!(action, None);
}

#[test]
fn one_time_phase_triggers_once() {
    let phases = vec![Phase::one_time(90, TestAction::Initial)];
    let mut timer = PhaseTimer::new(phases).unwrap();

    let action = timer.action_at_time(90);
    assert_eq!(action, Some(TestAction::Initial));

    // Should not trigger again
    let action = timer.action_at_time(95);
    assert_eq!(action, None);
}

#[test]
fn triggers_recurring_phase() {
    let phases = vec![Phase::recurring(90, 10, TestAction::Reminder).unwrap()];
    let mut timer = PhaseTimer::new(phases).unwrap();

    // First occurrence
    let action = timer.action_at_time(90);
    assert_eq!(action, Some(TestAction::Reminder));

    // Should not trigger again until interval passes
    let action = timer.action_at_time(95);
    assert_eq!(action, None);

    // Second occurrence
    let action = timer.action_at_time(100);
    assert_eq!(action, Some(TestAction::Reminder));
}

#[test]
fn resets_timer() {
    let phases = vec![Phase::one_time(90, TestAction::Initial)];
    let mut timer = PhaseTimer::new(phases).unwrap();

    // Trigger the phase
    timer.action_at_time(90);

    // Reset and verify it can trigger again
    let before_reset = chrono::Utc::now().timestamp_millis();
    timer.reset();
    let after_reset = chrono::Utc::now().timestamp_millis();

    // After reset, the current phase should be the first one again
    assert_eq!(timer.current_phase.trigger_at_minute, 90);
    assert!(timer.start_time() >= before_reset && timer.start_time() <= after_reset);

    // Should trigger again after reset
    let action = timer.action_at_time(90);
    assert_eq!(action, Some(TestAction::Initial));
}

#[test]
fn one_time_scenario() {
    let phases = vec![Phase::one_time(90, "Initial")];
    let mut timer = PhaseTimer::new(phases).unwrap();

    assert_eq!(timer.action_at_time(45), None);
    assert_eq!(timer.action_at_time(90), Some("Initial"));
    assert_eq!(timer.action_at_time(95), None);
}

#[test]
fn recurring_scenario() {
    let phases = vec![Phase::recurring(90, 10, "Reminder").unwrap()];
    let mut timer = PhaseTimer::new(phases).unwrap();

    assert_eq!(timer.action_at_time(90), Some("Reminder"));
    assert_eq!(timer.action_at_time(95), None);
    assert_eq!(timer.action_at_time(100), Some("Reminder"));
    assert_eq!(timer.action_at_time(105), None);
    assert_eq!(timer.action_at_time(110), Some("Reminder"));
}

#[test]
fn promotion_scenario() {
    let phases = vec![
        Phase::recurring(60, 30, "R").unwrap(),
        Phase::one_time(120, "S"),
    ];
    let mut timer = PhaseTimer::new(phases).unwrap();

    // The recurring phase fires at 60 and 90.
    assert_eq!(timer.action_at_time(60), Some("R"));
    assert_eq!(timer.action_at_time(90), Some("R"));
    // At 120 the recurring phase is due once more and fires; promotion to the
    // one-time phase is deferred to the next tick.
    assert_eq!(timer.action_at_time(120), Some("R"));
    // At 125 the recurring phase is not due (next occurrence at 150); the
    // promotion check runs and the one-time phase becomes current.
    assert_eq!(timer.action_at_time(125), None);
    assert!(matches!(
        timer.current_phase.phase_type,
        PhaseType::OneTime { triggered: false }
    ));
    // The one-time phase fires on the next call.
    assert_eq!(timer.action_at_time(130), Some("S"));
}

#[test]
fn recurring_catch_up_fires_once() {
    let phases = vec![Phase::recurring(10, 10, "R").unwrap()];
    let mut timer = PhaseTimer::new(phases).unwrap();

    assert_eq!(timer.action_at_time(10), Some("R"));
    // Several intervals pass without a poll; one poll fires exactly once, for
    // the most recently due occurrence.
    assert_eq!(timer.action_at_time(55), Some("R"));
    match timer.current_phase.phase_type {
        PhaseType::Recurring {
            interval,
            last_action_minute,
        } => {
            assert_eq!(interval, 10);
            // The record advances by exactly one interval, not to minute 55.
            assert_eq!(last_action_minute, 20);
        }
        _ => panic!("expected a recurring phase"),
    }
    // The next occurrence is due at 30, which has already passed.
    assert_eq!(timer.action_at_time(55), Some("R"));
}

#[test]
fn empty_schedule_is_rejected() {
    let result = PhaseTimer::<u8>::new(vec![]);
    assert_eq!(result.err(), Some(EmptyScheduleError));
}

#[test]
fn zero_interval_is_rejected() {
    let result = Phase::recurring(30, 0, "R");
    assert_eq!(result.err(), Some(InvalidInterval));
    assert!(Phase::recurring(30, 1, "R").is_ok());
}

#[test]
fn minute_conversion_is_exact() {
    // Whole minutes, floored.
    assert_eq!(minutes_between(0, 0), 0);
    assert_eq!(minutes_between(0, 59_999), 0);
    assert_eq!(minutes_between(0, 60_000), 1);
    assert_eq!(minutes_between(0, 60_001), 1);
    assert_eq!(minutes_between(1_000, 601_000), 10);
    // A backward clock jump is clamped to zero, not wrapped.
    assert_eq!(minutes_between(60_000, 0), 0);
    assert_eq!(minutes_between(i64::MAX, i64::MIN), 0);
}

#[test]
fn elapsed_minutes_starts_at_zero() {
    let phases = vec![Phase::one_time(90, "Initial")];
    let mut timer = PhaseTimer::new(phases).unwrap();
    assert_eq!(timer.elapsed_minutes(), 0);
    // A check right after construction sees no elapsed minutes and returns
    // nothing.
    assert_eq!(timer.check(), None);
    timer.reset();
    // Immediately after a reset the elapsed time is zero again.
    assert_eq!(timer.elapsed_minutes(), 0);
}

#[test]
fn check_uses_the_wall_clock() {
    // A phase due at minute zero fires on the first check and, being
    // one-time, never again.
    let phases = vec![Phase::one_time(0, "Now")];
    let mut timer = PhaseTimer::new(phases).unwrap();
    assert_eq!(timer.check(), Some("Now"));
    assert_eq!(timer.check(), None);
}

#[test]
fn stable_sort_keeps_insertion_order_of_ties() {
    let phases = vec![
        Phase::one_time(30, "a"),
        Phase::one_time(30, "b"),
        Phase::one_time(10, "c"),
    ];
    let timer = PhaseTimer::new(phases).unwrap();
    assert_eq!(timer.original_phases[0].action, "c");
    assert_eq!(timer.original_phases[1].action, "a");
    assert_eq!(timer.original_phases[2].action, "b");
    assert_eq!(timer.current_phase.action, "c");
}
