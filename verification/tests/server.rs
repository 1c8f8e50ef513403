use replikv::codec::encode;
use replikv::message::{Command, Message};
use replikv::responses::{forward_reply, response_is_ok};
use replikv::server::{
    handle_frame, on_get, on_put, on_register, on_replicate, PutStep, ServerState, Step,
};

const LEADER: u16 = 10097;
const FOLLOWER: u16 = 10098;

fn leader_state() -> ServerState {
    ServerState::new(LEADER, LEADER)
}

fn follower_state() -> ServerState {
    ServerState::new(FOLLOWER, LEADER)
}

#[test]
fn role_is_fixed_by_configuration() {
    assert!(leader_state().is_leader);
    assert!(!follower_state().is_leader);
}

#[test]
fn leader_put_then_get_returns_value() {
    let mut s = leader_state();
    match on_put("x", "1", 7, &mut s) {
        PutStep::Stored { response, replicate_to, replicate_msg } => {
            assert_eq!(response, "OK: Inserted 'x'='1'\n");
            assert!(replicate_to.is_empty());
            assert_eq!(replicate_msg.command, Command::Replicate);
            assert_eq!(replicate_msg.key, "x");
            assert_eq!(replicate_msg.value, "1");
            assert_eq!(replicate_msg.timestamp, 7);
        }
        PutStep::Forward { .. } => panic!("leader must store, not forward"),
    }
    assert_eq!(on_get("x", &s), "OK: x=1\n");
}

#[test]
fn get_never_written_is_not_found() {
    let s = leader_state();
    assert_eq!(on_get("missing", &s), "ERR: Key 'missing' not found\n");
}

#[test]
fn last_write_wins() {
    let mut s = leader_state();
    on_put("x", "1", 1, &mut s);
    on_put("x", "2", 2, &mut s);
    assert_eq!(on_get("x", &s), "OK: x=2\n");
}

#[test]
fn register_twice_keeps_one_entry() {
    let mut s = leader_state();
    assert_eq!(
        on_register("10098", &mut s),
        "OK: Registered follower on port 10098\n"
    );
    assert_eq!(
        on_register("10098", &mut s),
        "OK: Registered follower on port 10098\n"
    );
    assert_eq!(s.followers.len(), 1);
}

#[test]
fn register_refused_on_follower() {
    let mut s = follower_state();
    assert_eq!(
        on_register("10099", &mut s),
        "ERR: Only leader can register followers\n"
    );
    assert_eq!(s.followers.len(), 0);
}

#[test]
fn register_rejects_bad_port() {
    let mut s = leader_state();
    assert_eq!(on_register("notaport", &mut s), "ERR: Invalid port number\n");
    assert_eq!(on_register("65536", &mut s), "ERR: Invalid port number\n");
    assert_eq!(s.followers.len(), 0);
}

#[test]
fn replicate_mutates_follower_store_only() {
    let mut s = follower_state();
    assert_eq!(on_replicate("x", "1", &mut s), "OK: Replicated 'x'='1'\n");
    assert_eq!(on_get("x", &s), "OK: x=1\n");
    assert_eq!(s.followers.len(), 0);
}

#[test]
fn replicate_refused_on_leader() {
    let mut s = leader_state();
    assert_eq!(
        on_replicate("x", "1", &mut s),
        "ERR: Leader should not receive replicate commands\n"
    );
    assert_eq!(on_get("x", &s), "ERR: Key 'x' not found\n");
}

#[test]
fn follower_put_forwards_and_leaves_store_unchanged() {
    let mut follower = follower_state();
    let step = on_put("x", "1", 7, &mut follower);
    match step {
        PutStep::Forward { leader_port, forward_msg } => {
            assert_eq!(leader_port, LEADER);
            assert_eq!(forward_msg.command, Command::Put);
            assert_eq!(forward_msg.key, "x");
            assert_eq!(forward_msg.value, "1");

            // The follower's own store is unchanged until a replicate
            // message arrives.
            assert_eq!(on_get("x", &follower), "ERR: Key 'x' not found\n");

            // The leader handles the forwarded message exactly as a
            // direct put, and the reply is relayed verbatim.
            let mut leader = leader_state();
            match handle_frame(&encode(&forward_msg), &mut leader) {
                Step::ReplyAndReplicate { response, .. } => {
                    assert_eq!(response, "OK: Inserted 'x'='1'\n");
                    assert_eq!(forward_reply(Some(response)), "OK: Inserted 'x'='1'\n");
                }
                _ => panic!("leader must store a forwarded put"),
            }
            assert_eq!(on_get("x", &leader), "OK: x=1\n");
        }
        PutStep::Stored { .. } => panic!("follower must forward, not store"),
    }
}

#[test]
fn unreachable_leader_is_reported() {
    assert_eq!(forward_reply(None), "ERR: Leader unreachable\n");
}

#[test]
fn leader_put_fans_out_to_registered_followers() {
    let mut leader = leader_state();
    on_register("10098", &mut leader);
    on_register("10099", &mut leader);
    match on_put("x", "1", 7, &mut leader) {
        PutStep::Stored { replicate_to, replicate_msg, .. } => {
            assert_eq!(replicate_to, vec![10098, 10099]);
            let mut follower = follower_state();
            match handle_frame(&encode(&replicate_msg), &mut follower) {
                Step::Reply { response } => {
                    assert_eq!(response, "OK: Replicated 'x'='1'\n");
                    assert!(response_is_ok(&response));
                }
                _ => panic!("replicate must only reply"),
            }
            assert_eq!(on_get("x", &follower), "OK: x=1\n");
        }
        PutStep::Forward { .. } => panic!("leader must store"),
    }
}

#[test]
fn handle_frame_reports_parse_failure_and_goes_on() {
    let mut s = leader_state();
    match handle_frame("not a frame at all", &mut s) {
        Step::Reply { response } => assert_eq!(response, "ERR: Failed to parse message\n"),
        _ => panic!("a malformed frame must only produce a reply"),
    }
    // The handler survives: the next frame is served normally.
    let m = Message::new(Command::Get, "x".to_string(), String::new(), 0);
    match handle_frame(&encode(&m), &mut s) {
        Step::Reply { response } => assert_eq!(response, "ERR: Key 'x' not found\n"),
        _ => panic!("a get must only produce a reply"),
    }
}

#[test]
fn handle_frame_reports_unknown_command() {
    let mut s = leader_state();
    let frame = format!("z{:020}{:020}{:020}{}{}", 5, 1, 1, "k", "v");
    match handle_frame(&frame, &mut s) {
        Step::Reply { response } => assert_eq!(response, "ERR: Unknown command\n"),
        _ => panic!("an unknown command must only produce a reply"),
    }
}

#[test]
fn handle_frame_acknowledges_new_connection() {
    let mut s = leader_state();
    let m = Message::new(Command::NewConnection, String::new(), String::new(), 0);
    match handle_frame(&encode(&m), &mut s) {
        Step::Reply { response } => assert_eq!(response, "New client connection received\n"),
        _ => panic!("a new connection must only produce a reply"),
    }
}

#[test]
fn acknowledgement_prefix_is_judged_exactly() {
    assert!(response_is_ok("OK: Replicated 'x'='1'\n"));
    assert!(response_is_ok("OK:"));
    assert!(!response_is_ok("OK"));
    assert!(!response_is_ok("ERR: Key 'x' not found\n"));
    assert!(!response_is_ok(""));
}

#[test]
fn distinct_puts_all_persist() {
    let mut s = leader_state();
    let keys = ["a", "b", "c", "d", "e", "f", "g", "h"];
    for (i, k) in keys.iter().enumerate() {
        on_put(k, &format!("v{}", i), i as u64, &mut s);
    }
    for (i, k) in keys.iter().enumerate() {
        assert_eq!(on_get(k, &s), format!("OK: {}=v{}\n", k, i));
    }
}
