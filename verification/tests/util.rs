use script_utils::exec::Cmd;
use script_utils::i3status::CustomBarStatus;
use script_utils::ring::{EmptyRingError, Ring};
use script_utils::strings::{str_eq, str_eq_concat};

#[test]
fn empty_ring_is_rejected() {
    let result = Ring::<u8>::new(vec![]);
    assert_eq!(result.err(), Some(EmptyRingError));
}

#[test]
fn ring_cursor_wraps_in_both_directions() {
    let mut ring = Ring::new(vec![1, 2, 3]).unwrap();
    assert_eq!(*ring.get(), 1);
    assert_eq!(*ring.next(), 2);
    assert_eq!(*ring.next(), 3);
    // Past the end the cursor wraps to the start.
    assert_eq!(*ring.next(), 1);
    // Before the start it wraps to the end.
    assert_eq!(*ring.prev(), 3);
    assert_eq!(*ring.prev(), 2);
    assert_eq!(*ring.get(), 2);
}

#[test]
fn ring_find_moves_to_first_match() {
    let mut ring = Ring::new(vec![10, 20, 30, 20]).unwrap();
    let found = ring.find(|_i, x| *x == 20);
    assert_eq!(found.copied(), Some(20));
    // The cursor now sits on the first match, so next yields the element
    // after it.
    assert_eq!(*ring.next(), 30);
}

#[test]
fn ring_find_without_match_keeps_cursor() {
    let mut ring = Ring::new(vec![10, 20, 30]).unwrap();
    ring.next();
    assert_eq!(ring.find(|_i, x| *x == 99), None);
    assert_eq!(*ring.get(), 20);
}

#[test]
fn ring_find_can_use_the_index() {
    let mut ring = Ring::new(vec![5, 5, 5]).unwrap();
    let found = ring.find(|i, _x| i == 2);
    assert_eq!(found.copied(), Some(5));
    assert_eq!(*ring.next(), 5);
}

#[test]
fn cmd_builder_collects_settings() {
    let cmd = Cmd::new("pactl get-default-sink".to_string());
    assert_eq!(cmd.command, "pactl get-default-sink");
    assert!(cmd.cwd.is_none());
    assert!(cmd.env.is_empty());

    let cmd = cmd.cwd("~/work".to_string());
    assert_eq!(cmd.cwd.as_deref(), Some("~/work"));
}

#[test]
fn cmd_env_overwrites_existing_keys() {
    let cmd = Cmd::new("env".to_string())
        .env("A".to_string(), "1".to_string())
        .env("B".to_string(), "2".to_string())
        .env("A".to_string(), "3".to_string());
    assert_eq!(
        cmd.env,
        vec![
            ("A".to_string(), "3".to_string()),
            ("B".to_string(), "2".to_string()),
        ]
    );
}

#[test]
fn bar_status_starts_with_text_only() {
    let status = CustomBarStatus::new("5 todos".to_string());
    assert_eq!(status.text, "5 todos");
    assert_eq!(status.tooltip, "");
    assert_eq!(status.class, "");
}

#[test]
fn string_comparisons() {
    assert!(str_eq("Audio/Sink", "Audio/Sink"));
    assert!(!str_eq("Audio/Sink", "Audio/Source"));
    assert!(!str_eq("a", "ab"));
    assert!(str_eq_concat("output:analog-stereo", "output:", "analog-stereo"));
    assert!(!str_eq_concat("input:analog-stereo", "output:", "analog-stereo"));
    assert!(!str_eq_concat("output:analog", "output:", "analog-stereo"));
}
