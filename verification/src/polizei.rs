//! The decision rules of the play-time watchdog: which notification phases a
//! newly detected game gets, and how an elapsed play time is worded.
//!
//! The watchdog's host loop scans the process table, keeps one phase timer
//! per running game, and delivers the returned actions as notifications.

use vstd::prelude::*;

use crate::strings::{chars_of, spec_digits, string_of_chars, usize_to_string};
use crate::timer::{Phase, PhaseType};

verus! {

/// What the watchdog should tell the player.
#[derive(Debug, Clone, Copy, PartialEq)]
pub enum GameAction {
    /// A friendly note that the game has been running for a while.
    RegularNotification,
    /// A demand to stop playing, once the threshold is exceeded.
    StopNotification,
}

/// The phase set of a newly detected game: a regular notification recurring
/// every `notification_interval` minutes (if that is positive), and — for
/// strictly watched games with a positive `stop_notification_interval` — a
/// stop notification starting at `threshold` minutes and recurring every
/// `stop_notification_interval` minutes.
pub open spec fn spec_game_phases(
    notification_interval: usize,
    threshold: usize,
    stop_notification_interval: usize,
    strict: bool,
) -> Seq<Phase<GameAction>> {
    let regular = Phase {
        phase_type: PhaseType::Recurring {
            interval: notification_interval,
            last_action_minute: 0,
        },
        action: GameAction::RegularNotification,
        trigger_at_minute: notification_interval,
    };
    let stop = Phase {
        phase_type: PhaseType::Recurring {
            interval: stop_notification_interval,
            last_action_minute: 0,
        },
        action: GameAction::StopNotification,
        trigger_at_minute: threshold,
    };
    let base = if notification_interval > 0 {
        seq![regular]
    } else {
        Seq::empty()
    };
    if strict && stop_notification_interval > 0 {
        base + seq![stop]
    } else {
        base
    }
}

/// Build the phases a newly detected game is watched with.
pub fn game_phases(
    notification_interval: usize,
    threshold: usize,
    stop_notification_interval: usize,
    strict: bool,
) -> (r: Vec<Phase<GameAction>>)
    ensures
        r@ == spec_game_phases(
            notification_interval,
            threshold,
            stop_notification_interval,
            strict,
        ),
        forall|i: int| 0 <= i < r@.len() ==> (#[trigger] r@[i]).wf(),
        forall|i: int| 0 <= i < r@.len() ==> (#[trigger] r@[i]).phase_type.pristine(),
{
    let mut phases: Vec<Phase<GameAction>> = Vec::new();

    // Add the regular notification phase (recurring from the start).
    if notification_interval > 0 {
        match Phase::recurring(
            notification_interval,
            notification_interval,
            GameAction::RegularNotification,
        ) {
            Ok(phase) => phases.push(phase),
            Err(_) => {},
        }
    }

    // Add the stop notification phase (recurring from the threshold).
    if strict && stop_notification_interval > 0 {
        match Phase::recurring(
            threshold,
            stop_notification_interval,
            GameAction::StopNotification,
        ) {
            Ok(phase) => phases.push(phase),
            Err(_) => {},
        }
    }

    proof {
        assert(phases@ =~= spec_game_phases(
            notification_interval,
            threshold,
            stop_notification_interval,
            strict,
        ));
    }
    phases
}

/// An elapsed play time in words: the minutes alone while under an hour,
/// otherwise hours and minutes.
pub open spec fn spec_duration_text(elapsed_minutes: nat) -> Seq<char> {
    let minutes = elapsed_minutes % 60;
    let hours = elapsed_minutes / 60;
    if hours == 0 {
        spec_digits(minutes) + " Minutes"@
    } else {
        spec_digits(hours) + " Hours and "@ + spec_digits(minutes) + " Minutes"@
    }
}

/// Word an elapsed play time for a notification.
pub fn format_duration(elapsed_minutes: usize) -> (s: String)
    ensures
        s@ == spec_duration_text(elapsed_minutes as nat),
{
    let minutes = elapsed_minutes % 60;
    let hours = elapsed_minutes / 60;

    let mut text: Vec<char>;
    if hours == 0 {
        text = chars_of(usize_to_string(minutes).as_str());
        let mut unit = chars_of(" Minutes");
        text.append(&mut unit);
        proof {
            assert(text@ =~= spec_duration_text(elapsed_minutes as nat));
        }
    } else {
        text = chars_of(usize_to_string(hours).as_str());
        let mut middle = chars_of(" Hours and ");
        text.append(&mut middle);
        let mut minute_digits = chars_of(usize_to_string(minutes).as_str());
        text.append(&mut minute_digits);
        let mut unit = chars_of(" Minutes");
        text.append(&mut unit);
        proof {
            assert(text@ =~= spec_duration_text(elapsed_minutes as nat));
        }
    }
    string_of_chars(&text)
}

} // verus!
