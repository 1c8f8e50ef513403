use replikv::message::Command;
use replikv::session::{make_probe_message, ClientSession, SessionError, SessionState};

fn candidates() -> Vec<String> {
    vec![
        "127.0.0.1:10097".to_string(),
        "127.0.0.1:10098".to_string(),
        "127.0.0.1:10099".to_string(),
    ]
}

#[test]
fn init_hands_back_a_permutation() {
    let mut session = ClientSession::new(candidates());
    let order = session.init_begin().expect("init from disconnected must start");
    let mut sorted = order.clone();
    sorted.sort();
    let mut expected = candidates();
    expected.sort();
    assert_eq!(sorted, expected);
}

#[test]
fn init_refused_while_active() {
    let mut session = ClientSession::new(candidates());
    session.init_begin().expect("init from disconnected must start");
    assert_eq!(session.init_begin().unwrap_err(), SessionError::AlreadyActive);
    session.connect_succeeded("127.0.0.1:10097".to_string());
    assert_eq!(session.init_begin().unwrap_err(), SessionError::AlreadyActive);
}

#[test]
fn all_candidates_unreachable_leaves_session_disconnected() {
    let mut session = ClientSession::new(candidates());
    let order = session.init_begin().expect("init from disconnected must start");
    // Every probe fails; the attempt exhausts the whole order.
    assert_eq!(order.len(), 3);
    session.connect_exhausted();
    assert!(!session.is_connected());
    // Subsequent commands report "not connected" before any I/O.
    assert_eq!(
        session.make_put("x", "1", 0).unwrap_err(),
        SessionError::NotConnected
    );
    assert_eq!(session.make_get("x", 0).unwrap_err(), SessionError::NotConnected);
}

#[test]
fn connected_session_builds_commands() {
    let mut session = ClientSession::new(candidates());
    session.init_begin().expect("init from disconnected must start");
    session.connect_succeeded("127.0.0.1:10098".to_string());
    assert!(session.is_connected());

    let put = session.make_put("x", "1", 7).expect("connected put must build");
    assert_eq!(put.command, Command::Put);
    assert_eq!(put.key, "x");
    assert_eq!(put.value, "1");
    assert_eq!(put.timestamp, 7);

    let get = session.make_get("x", 8).expect("connected get must build");
    assert_eq!(get.command, Command::Get);
    assert_eq!(get.key, "x");
    assert_eq!(get.value, "");
    assert_eq!(get.timestamp, 8);
}

#[test]
fn io_failure_disconnects_without_reconnect() {
    let mut session = ClientSession::new(candidates());
    session.init_begin().expect("init from disconnected must start");
    session.connect_succeeded("127.0.0.1:10097".to_string());
    session.on_io_failure();
    assert!(!session.is_connected());
    assert_eq!(
        session.make_put("x", "1", 0).unwrap_err(),
        SessionError::NotConnected
    );
}

#[test]
fn teardown_from_any_state() {
    let mut session = ClientSession::new(candidates());
    session.teardown();
    assert!(!session.is_connected());
    session.init_begin().expect("init from disconnected must start");
    session.teardown();
    assert!(!session.is_connected());
    session.init_begin().expect("teardown must permit a fresh init");
    session.connect_succeeded("127.0.0.1:10099".to_string());
    session.teardown();
    assert!(!session.is_connected());
    assert!(matches!(session.state, SessionState::Disconnected));
}

#[test]
fn probe_message_has_no_store_effect_fields() {
    let probe = make_probe_message(99);
    assert_eq!(probe.command, Command::NewConnection);
    assert_eq!(probe.key, "");
    assert_eq!(probe.value, "");
    assert_eq!(probe.timestamp, 99);
}
