use fanout::bytes::{u32_from_be, u32_to_be};
use fanout::codec::{encode, Message};
use fanout::dispatch::{DispatchPlan, DispatchReport};
use fanout::session::{step, SessionError, SessionEvent, SessionState};
use fanout::validator::validate;

/// Run one session to success against a peer that answers `response`.
fn run_echo_session(response: &[u8]) -> Result<String, SessionError> {
    let (state, _) = step(SessionState::Connecting, SessionEvent::Connected);
    let (state, _) = step(state, SessionEvent::Sent);
    let (state, _) = step(
        state,
        SessionEvent::PrefixRead { prefix: u32_to_be(response.len() as u32) },
    );
    let (state, _) = step(state, SessionEvent::BodyRead { body: response.to_vec() });
    match state {
        SessionState::Succeeded { response } => Ok(response),
        SessionState::Failed { error } => Err(error),
        _ => panic!("session ended in a non-terminal state"),
    }
}

/// Run one session against a peer that closes right after accepting,
/// before reading or answering anything.
fn run_closing_session() -> Result<String, SessionError> {
    let (state, _) = step(SessionState::Connecting, SessionEvent::Connected);
    let (state, _) = step(state, SessionEvent::Sent);
    let (state, _) = step(state, SessionEvent::PrefixTruncated);
    match state {
        SessionState::Succeeded { response } => Ok(response),
        SessionState::Failed { error } => Err(error),
        _ => panic!("session ended in a non-terminal state"),
    }
}

#[test]
fn every_destination_receives_identical_frames() {
    let destinations = vec![
        validate("127.0.0.1:9000").unwrap(),
        validate("127.0.0.1:9001").unwrap(),
    ];
    let m = Message::run(String::from("uptime"));
    let plan = DispatchPlan::new(destinations, &m);
    assert_eq!(plan.destination_count(), 2);
    assert_eq!(plan.destination(0).port, 9000);
    assert_eq!(plan.destination(1).port, 9001);
    assert_eq!(plan.frame_for(0), plan.frame_for(1));
}

#[test]
fn one_failing_destination_does_not_affect_the_other() {
    let m = Message::run(String::from("uptime"));
    let destinations = vec![
        validate("127.0.0.1:9000").unwrap(),
        validate("127.0.0.1:9001").unwrap(),
    ];
    let plan = DispatchPlan::new(destinations, &m);
    let mut report = DispatchReport::new(plan.destination_count());
    assert!(!report.is_complete());

    // The first destination closes before reading; the second echoes "ok".
    // Completion order does not matter: record the second one first.
    report.record(1, run_echo_session(b"ok"));
    assert!(!report.is_complete());
    report.record(0, run_closing_session());
    assert!(report.is_complete());

    assert!(matches!(
        report.outcome(0),
        Some(Err(SessionError::ResponseTruncated))
    ));
    assert!(matches!(report.outcome(1), Some(Ok(s)) if s == "ok"));
}

#[test]
fn report_slots_start_empty() {
    let report = DispatchReport::new(3);
    assert_eq!(report.len(), 3);
    for i in 0..3 {
        assert!(matches!(report.outcome(i), None));
    }
}

#[test]
fn copy_scenario_end_to_end() {
    let m = Message::copy(b"hello".to_vec(), String::from("/tmp/out"));
    let encoded_len = encode(&m).len();
    let destinations = vec![validate("127.0.0.1:9000").unwrap()];
    let plan = DispatchPlan::new(destinations, &m);

    let frame = plan.frame_for(0);
    assert_eq!(frame.len(), 4 + encoded_len);
    assert_eq!(u32_from_be(&frame[0..4]) as usize, encoded_len);

    let mut report = DispatchReport::new(plan.destination_count());
    report.record(0, run_echo_session(b"stored"));
    assert!(report.is_complete());
    assert!(matches!(report.outcome(0), Some(Ok(s)) if s == "stored"));
}
