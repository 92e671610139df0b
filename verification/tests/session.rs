use fanout::bytes::u32_to_be;
use fanout::session::{
    decode_response, step, SessionAction, SessionError, SessionEvent, SessionState,
};

#[test]
fn lossy_decode_replaces_invalid_sequences() {
    let text = decode_response(&[0xFF, b'o', b'k']);
    assert!(text.contains('\u{FFFD}'));
    assert!(text.contains("ok"));
}

#[test]
fn lossy_decode_keeps_valid_utf8() {
    assert_eq!(decode_response(b"stored"), "stored");
    assert_eq!(decode_response("h\u{00E9}llo".as_bytes()), "h\u{00E9}llo");
}

#[test]
fn lossy_decode_of_empty_body_is_empty() {
    assert_eq!(decode_response(&[]), "");
}

#[test]
fn session_walks_the_full_protocol_in_order() {
    let (state, action) = step(SessionState::Connecting, SessionEvent::Connected);
    assert!(matches!(action, SessionAction::WriteFrame));

    let (state, action) = step(state, SessionEvent::Sent);
    assert!(matches!(action, SessionAction::ReadBytes { count: 4 }));

    let (state, action) = step(state, SessionEvent::PrefixRead { prefix: u32_to_be(2) });
    assert!(matches!(state, SessionState::AwaitingBody { expected: 2 }));
    assert!(matches!(action, SessionAction::ReadBytes { count: 2 }));

    let (state, action) = step(state, SessionEvent::BodyRead { body: b"ok".to_vec() });
    assert!(matches!(action, SessionAction::CloseWrite));
    match state {
        SessionState::Succeeded { response } => assert_eq!(response, "ok"),
        _ => panic!("session did not succeed"),
    }
}

#[test]
fn prefix_bytes_are_read_as_big_endian() {
    let (state, _) = step(
        SessionState::AwaitingPrefix,
        SessionEvent::PrefixRead { prefix: vec![0, 0, 1, 0] },
    );
    assert!(matches!(state, SessionState::AwaitingBody { expected: 256 }));
}

#[test]
fn connect_error_fails_the_session() {
    let (state, action) = step(SessionState::Connecting, SessionEvent::ConnectError);
    assert!(matches!(
        state,
        SessionState::Failed { error: SessionError::ConnectFailed }
    ));
    assert!(matches!(action, SessionAction::Halt));
}

#[test]
fn send_error_fails_the_session() {
    let (state, _) = step(SessionState::Sending, SessionEvent::SendError);
    assert!(matches!(state, SessionState::Failed { error: SessionError::SendFailed }));
}

#[test]
fn truncated_prefix_fails_the_session() {
    let (state, _) = step(SessionState::AwaitingPrefix, SessionEvent::PrefixTruncated);
    assert!(matches!(
        state,
        SessionState::Failed { error: SessionError::ResponseTruncated }
    ));
}

#[test]
fn truncated_body_fails_the_session() {
    let (state, _) = step(
        SessionState::AwaitingBody { expected: 9 },
        SessionEvent::BodyTruncated,
    );
    assert!(matches!(
        state,
        SessionState::Failed { error: SessionError::ResponseTruncated }
    ));
}

#[test]
fn timeout_fails_the_session() {
    let (state, _) = step(SessionState::Sending, SessionEvent::TimedOut);
    assert!(matches!(state, SessionState::Failed { error: SessionError::Timeout }));
}
