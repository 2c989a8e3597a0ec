use wsproxy::codec::encode_host;
use wsproxy::route::{route_request, Route};

#[test]
fn control_path_needs_no_token() {
    assert!(matches!(route_request("/control", "", false), Route::Control));
    assert!(matches!(
        route_request("/some/control", "q=whatever", false),
        Route::Control
    ));
}

#[test]
fn data_tunnel_without_token_is_forbidden() {
    let q = format!("q={}", encode_host("example.com:80"));
    assert!(matches!(route_request("/", &q, false), Route::Forbidden));
}

#[test]
fn data_tunnel_decodes_the_target_host() {
    let q = format!("q={}", encode_host("example.com:80"));
    match route_request("/", &q, true) {
        Route::Tunnel { host } => assert_eq!(host, "example.com:80"),
        _ => panic!("expected a tunnel"),
    }
}

#[test]
fn every_q_equals_pair_is_dropped_from_the_query() {
    // the query is read by dropping each "q=" pair, wherever it stands
    let token = encode_host("example.com:80");
    let q = format!("q=q={}", token);
    match route_request("/", &q, true) {
        Route::Tunnel { host } => assert_eq!(host, "example.com:80"),
        _ => panic!("expected a tunnel"),
    }
}

#[test]
fn undecodable_queries_are_refused() {
    assert!(matches!(route_request("/", "", true), Route::InvalidHost));
    assert!(matches!(
        route_request("/", "q=!!!!!", true),
        Route::InvalidHost
    ));
}
