use wsproxy::handshake::{
    handshake_response, hello_message, interpret_server_reply, GateDecision, HandshakeReply,
};

fn allow(users: &[&str]) -> Vec<String> {
    users.iter().map(|u| u.to_string()).collect()
}

#[test]
fn old_version_is_rejected_with_bye() {
    // version 0.0.9 against the >=0.1.0 requirement: always Bye, never Hi
    let r = handshake_response("Hello:0.0.9:alice", &allow(&["alice"]));
    match r {
        HandshakeReply::RejectedVersion { response } => {
            assert!(response.starts_with("Bye:"));
            assert!(response.contains("https://github.com/echo-proxy/echo-proxy-core/releases"));
            assert!(!response.starts_with("Hi:"));
        }
        _ => panic!("expected a version rejection"),
    }
}

#[test]
fn unknown_user_is_rejected_exactly() {
    let r = handshake_response("Hello:1.0.0:bob", &allow(&["alice"]));
    match r {
        HandshakeReply::RejectedUser { response } => {
            assert_eq!(response, "Bye:User not allowed");
        }
        _ => panic!("expected a user rejection"),
    }
}

#[test]
fn allowed_user_with_good_version_gets_hi_token() {
    let r = handshake_response("Hello:1.0.0:alice", &allow(&["alice"]));
    match r {
        HandshakeReply::Accepted { response, token } => {
            assert!(response.starts_with("Hi:"));
            assert!(!token.is_empty());
            assert_eq!(response, format!("Hi:{}", token));
            assert_eq!(token.len(), 36);
        }
        _ => panic!("expected acceptance"),
    }
}

#[test]
fn boundary_version_passes_the_gate() {
    let r = handshake_response("Hello:0.1.0:alice", &allow(&["alice"]));
    assert!(matches!(r, HandshakeReply::Accepted { .. }));
}

#[test]
fn prerelease_version_fails_the_gate() {
    // a prerelease never satisfies a plain >= requirement
    let r = handshake_response("Hello:1.0.0-alpha:alice", &allow(&["alice"]));
    assert!(matches!(r, HandshakeReply::RejectedVersion { .. }));
}

#[test]
fn malformed_hellos_get_no_response() {
    assert!(matches!(
        handshake_response("GET / HTTP/1.1", &allow(&["alice"])),
        HandshakeReply::Malformed
    ));
    assert!(matches!(
        handshake_response("Hello:1.0.0", &allow(&["alice"])),
        HandshakeReply::Malformed
    ));
    assert!(matches!(
        handshake_response("Hello:not-a-version:alice", &allow(&["alice"])),
        HandshakeReply::Malformed
    ));
    assert!(matches!(
        handshake_response("", &allow(&["alice"])),
        HandshakeReply::Malformed
    ));
}

#[test]
fn empty_allow_list_rejects_everyone() {
    let r = handshake_response("Hello:1.0.0:alice", &Vec::new());
    assert!(matches!(r, HandshakeReply::RejectedUser { .. }));
}

#[test]
fn client_gate_reads_the_reply() {
    assert!(matches!(
        interpret_server_reply("Hi:some-token"),
        GateDecision::Proceed
    ));
    match interpret_server_reply("Bye:User not allowed") {
        GateDecision::Abort { reason } => assert_eq!(reason, "User not allowed"),
        _ => panic!("expected abort"),
    }
    match interpret_server_reply("garbage") {
        GateDecision::Abort { reason } => assert_eq!(reason, "garbage"),
        _ => panic!("expected abort"),
    }
}

#[test]
fn text_past_a_third_colon_is_ignored() {
    let r = handshake_response("Hello:1.0.0:alice:extra:junk", &allow(&["alice"]));
    assert!(matches!(r, HandshakeReply::Accepted { .. }));
}

#[test]
fn empty_user_segment_is_checked_against_the_list() {
    let r = handshake_response("Hello:1.0.0:", &allow(&["alice"]));
    assert!(matches!(r, HandshakeReply::RejectedUser { .. }));
}

#[test]
fn hello_message_has_the_wire_shape() {
    assert_eq!(hello_message("1.2.3", "bob"), "Hello:1.2.3:bob");
    // what the client sends, the server parses back to the same parts
    let r = handshake_response(&hello_message("1.0.0", "alice"), &allow(&["alice"]));
    assert!(matches!(r, HandshakeReply::Accepted { .. }));
}
