use act::countdown::{alert_due, classify_key, CountdownState, Frame, Key, KeyEvent};
use act::duration::ParseError;
use act::layout::{block_width, line_origin, text_lines};

fn drawn(state: &CountdownState) -> Option<(String, bool)> {
    match state.frame() {
        Frame::Draw { text, highlighted } => Some((text, highlighted)),
        Frame::Finished => None,
    }
}

#[test]
fn first_frame_shows_requested_duration_plus_padding() {
    let state = CountdownState::from_input("1m30s").unwrap();
    assert_eq!(state.countdown_secs, 91);
    assert_eq!(drawn(&state), Some(("1m31s".to_string(), false)));
    let mut state = state;
    state.advance(16);
    assert_eq!(drawn(&state), Some(("1m30s".to_string(), false)));
}

#[test]
fn from_input_errors() {
    assert_eq!(CountdownState::from_input("1x"), Err(ParseError::Malformed));
    assert_eq!(
        CountdownState::from_input("18446744073709551615s"),
        Err(ParseError::TooLarge)
    );
}

#[test]
fn paused_frames_do_not_accrue() {
    let mut state = CountdownState::new(10);
    state.advance(500);
    assert_eq!(state.elapsed_ms, 500);
    assert!(!state.handle_key(KeyEvent::TogglePause));
    for _ in 0..5 {
        state.advance(1000);
    }
    assert_eq!(state.elapsed_ms, 500);
    assert_eq!(drawn(&state), Some(("9s".to_string(), true)));
    assert!(!state.handle_key(KeyEvent::TogglePause));
    state.advance(20);
    assert_eq!(state.elapsed_ms, 520);
}

#[test]
fn elapsed_saturates() {
    let mut state = CountdownState::new(1);
    state.advance(u64::MAX - 1);
    state.advance(10);
    assert_eq!(state.elapsed_ms, u64::MAX);
}

#[test]
fn quit_cancels_regardless_of_time_left() {
    let mut state = CountdownState::new(u64::MAX);
    let keys = vec![KeyEvent::Other, KeyEvent::TogglePause, KeyEvent::Quit, KeyEvent::TogglePause];
    assert!(state.handle_keys(&keys));
    assert!(state.paused);
    let mut state = CountdownState::new(5);
    assert!(!state.handle_keys(&vec![KeyEvent::TogglePause, KeyEvent::TogglePause]));
    assert!(!state.paused);
    assert!(!state.handle_keys(&vec![]));
}

#[test]
fn expiry_finishes() {
    let mut state = CountdownState::new(2);
    state.advance(2000);
    assert_eq!(drawn(&state), Some(("0s".to_string(), false)));
    state.advance(1);
    assert_eq!(state.frame(), Frame::Finished);
    assert_eq!(state.remaining(), None);
    assert!(alert_due(true, false));
    assert!(!alert_due(true, true));
    assert!(!alert_due(false, false));
}

#[test]
fn remaining_rounds_down() {
    let mut state = CountdownState::new(3);
    assert_eq!(state.remaining(), Some(3));
    state.advance(1);
    assert_eq!(state.remaining(), Some(2));
    state.advance(999);
    assert_eq!(state.remaining(), Some(2));
    state.advance(1);
    assert_eq!(state.remaining(), Some(1));
}

#[test]
fn keys_are_classified() {
    assert_eq!(classify_key(Key::Ctrl('c')), KeyEvent::Quit);
    assert_eq!(classify_key(Key::Esc), KeyEvent::Quit);
    assert_eq!(classify_key(Key::Char(' ')), KeyEvent::TogglePause);
    assert_eq!(classify_key(Key::Char('q')), KeyEvent::Other);
    assert_eq!(classify_key(Key::Ctrl('d')), KeyEvent::Other);
    assert_eq!(classify_key(Key::Other), KeyEvent::Other);
}

#[test]
fn lines_split_like_str_split() {
    assert_eq!(text_lines("ab\ncde\n"), vec!["ab".to_string(), "cde".to_string(), String::new()]);
    assert_eq!(text_lines(""), vec![String::new()]);
    assert_eq!(text_lines("1m30s"), vec!["1m30s".to_string()]);
}

#[test]
fn width_is_longest_line() {
    assert_eq!(block_width(&text_lines("ab\ncdef\ng")), 4);
    assert_eq!(block_width(&vec![]), 0);
}

#[test]
fn origin_is_centred_and_clamped() {
    assert_eq!(line_origin(80, 24, 10, 1, 0), (35, 12));
    assert_eq!(line_origin(80, 24, 10, 4, 3), (35, 13));
    assert_eq!(line_origin(4, 2, 20, 10, 0), (1, 1));
    assert_eq!(line_origin(4, 2, 20, 10, 7), (1, 8));
    assert_eq!(line_origin(4, 2, 20, 10, 1), (1, 2));
    assert_eq!(line_origin(80, 24, 10, 10, 0), (35, 7));
    assert_eq!(line_origin(80, 24, 10, 10, 9), (35, 16));
    assert_eq!(line_origin(u16::MAX, u16::MAX, 0, 0, usize::MAX), (32767, u16::MAX));
    assert_eq!(line_origin(u16::MAX, u16::MAX, 0, 0, 32768), (32767, u16::MAX));
    assert_eq!(line_origin(u16::MAX, u16::MAX, 0, 0, 32767), (32767, 65534));
}

#[test]
fn elapsed_counts_only_unpaused_frames() {
    let mut state = CountdownState::new(60);
    // (frame time, keys read in that frame)
    let frames: Vec<(u64, Vec<KeyEvent>)> = vec![
        (100, vec![]),
        (200, vec![KeyEvent::TogglePause]),
        (5000, vec![]),
        (7000, vec![KeyEvent::Other, KeyEvent::TogglePause]),
        (30, vec![]),
        (40, vec![]),
    ];
    for (dt, keys) in &frames {
        state.advance(*dt);
        assert!(!state.handle_keys(keys));
    }
    assert_eq!(state.elapsed_ms, 100 + 200 + 30 + 40);
    assert!(!state.paused);
}
