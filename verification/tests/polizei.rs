use script_utils::polizei::{format_duration, game_phases, GameAction};
use script_utils::timer::{PhaseTimer, PhaseType};

#[test]
fn formats_durations() {
    assert_eq!(format_duration(0), "0 Minutes");
    assert_eq!(format_duration(45), "45 Minutes");
    assert_eq!(format_duration(60), "1 Hours and 0 Minutes");
    assert_eq!(format_duration(125), "2 Hours and 5 Minutes");
}

#[test]
fn strict_games_get_both_phases() {
    let phases = game_phases(60, 120, 10, true);
    assert_eq!(phases.len(), 2);

    assert_eq!(phases[0].trigger_at_minute, 60);
    assert_eq!(phases[0].action, GameAction::RegularNotification);
    assert!(matches!(
        phases[0].phase_type,
        PhaseType::Recurring { interval: 60, last_action_minute: 0 }
    ));

    assert_eq!(phases[1].trigger_at_minute, 120);
    assert_eq!(phases[1].action, GameAction::StopNotification);
    assert!(matches!(
        phases[1].phase_type,
        PhaseType::Recurring { interval: 10, last_action_minute: 0 }
    ));
}

#[test]
fn lenient_games_get_no_stop_phase() {
    let phases = game_phases(60, 120, 10, false);
    assert_eq!(phases.len(), 1);
    assert_eq!(phases[0].action, GameAction::RegularNotification);
}

#[test]
fn disabled_intervals_yield_no_phases() {
    assert_eq!(game_phases(0, 120, 10, false).len(), 0);
    let only_stop = game_phases(0, 120, 10, true);
    assert_eq!(only_stop.len(), 1);
    assert_eq!(only_stop[0].action, GameAction::StopNotification);
}

#[test]
fn watchdog_phases_drive_the_timer() {
    // An hourly note, a stop demand at two hours recurring every ten
    // minutes.
    let mut timer = PhaseTimer::new(game_phases(60, 120, 10, true)).unwrap();
    assert_eq!(timer.action_at_time(30), None);
    assert_eq!(
        timer.action_at_time(60),
        Some(GameAction::RegularNotification)
    );
    assert_eq!(
        timer.action_at_time(120),
        Some(GameAction::RegularNotification)
    );
    // The regular phase just fired at 120, so promotion waits one tick.
    assert_eq!(timer.action_at_time(121), None);
    assert_eq!(
        timer.action_at_time(122),
        Some(GameAction::StopNotification)
    );
}
