use habits_display::error::Error;
use habits_display::frames::{handle_frame, FrameAction, FrameKind};

#[test]
fn text_and_binary_frames_carry_names() {
    let payload = br#"{"task_name":"Walk"}"#;
    match handle_frame(FrameKind::Text, payload) {
        Ok(FrameAction::Display(name)) => assert_eq!(name.as_str(), "Walk"),
        other => panic!("unexpected {:?}", other),
    }
    match handle_frame(FrameKind::Binary, payload) {
        Ok(FrameAction::Display(name)) => assert_eq!(name.as_str(), "Walk"),
        other => panic!("unexpected {:?}", other),
    }
    assert!(matches!(handle_frame(FrameKind::Text, b"hello"), Ok(FrameAction::Ignore)));
}

#[test]
fn ping_is_answered_and_close_ends() {
    assert!(matches!(handle_frame(FrameKind::Ping, b"abc"), Ok(FrameAction::SendPong)));
    assert!(matches!(handle_frame(FrameKind::Close, b""), Err(Error::Close)));
    assert!(matches!(handle_frame(FrameKind::Close, br#"{"task_name":"x"}"#), Err(Error::Close)));
}

#[test]
fn pong_and_continuation_are_ignored() {
    assert!(matches!(handle_frame(FrameKind::Pong, b""), Ok(FrameAction::Ignore)));
    assert!(matches!(handle_frame(FrameKind::Continue, br#"{"task_name":"x"}"#), Ok(FrameAction::Ignore)));
}
