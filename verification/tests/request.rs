use wsproxy::request::{
    connect_established_response, is_connect_request, parse_request_header, plan_tunnel,
    TunnelPlan,
};

#[test]
fn connect_head_parses_with_no_host_header() {
    let raw = b"CONNECT example.com:443 HTTP/1.1\r\n\r\n";
    let p = parse_request_header(raw).unwrap();
    assert_eq!(p.headers, raw.to_vec());
    assert!(p.host.is_empty());
    assert!(p.body.is_empty());
    assert!(is_connect_request(&p.headers));
}

#[test]
fn plain_request_with_body() {
    let raw = b"POST /x HTTP/1.1\r\nHost: example.org\r\nContent-Length: 5\r\n\r\nhello";
    let p = parse_request_header(raw).unwrap();
    assert_eq!(p.host, b"example.org:80".to_vec());
    assert_eq!(p.body, b"hello".to_vec());
    assert_eq!(
        p.headers,
        b"POST /x HTTP/1.1\r\nHost: example.org\r\nContent-Length: 5\r\n\r\n".to_vec()
    );
    assert!(!is_connect_request(&p.headers));
}

#[test]
fn host_with_port_keeps_its_port() {
    let raw = b"GET / HTTP/1.1\r\nHost: example.org:8080\r\n\r\n";
    let p = parse_request_header(raw).unwrap();
    assert_eq!(p.host, b"example.org:8080".to_vec());
}

#[test]
fn missing_or_bad_content_length_means_no_body() {
    let no_len = b"GET / HTTP/1.1\r\nHost: a\r\n\r\ntrailing";
    let p = parse_request_header(no_len).unwrap();
    assert!(p.body.is_empty());

    let bad_len = b"GET / HTTP/1.1\r\nHost: a\r\nContent-Length: abc\r\n\r\ntrailing";
    let p = parse_request_header(bad_len).unwrap();
    assert!(p.body.is_empty());
}

#[test]
fn content_length_value_is_trimmed_and_split_on_colons() {
    let raw = b"GET / HTTP/1.1\r\nContent-Length:  7 \r\n\r\n1234567";
    let p = parse_request_header(raw).unwrap();
    assert_eq!(p.body, b"1234567".to_vec());
}

#[test]
fn later_headers_override_earlier_ones() {
    let raw = b"GET / HTTP/1.1\r\nHost: first\r\nHost: second\r\n\r\n";
    let p = parse_request_header(raw).unwrap();
    assert_eq!(p.host, b"second:80".to_vec());
}

#[test]
fn incomplete_requests_are_not_parsed() {
    // no blank line yet
    assert!(parse_request_header(b"GET / HTTP/1.1\r\nHost: a\r\n").is_none());
    // head closed but the announced body has not arrived yet
    assert!(parse_request_header(b"GET / HTTP/1.1\r\nContent-Length: 9\r\n\r\nhi").is_none());
    assert!(parse_request_header(b"").is_none());
}

#[test]
fn connect_mode_owes_the_exact_established_response() {
    let expected = b"HTTP/1.1 200 Connection established\r\n\r\n".to_vec();
    assert_eq!(connect_established_response(), expected);

    let raw = b"CONNECT example.com:443 HTTP/1.1\r\n\r\n";
    let p = parse_request_header(raw).unwrap();
    match plan_tunnel(p.headers, p.body) {
        TunnelPlan::Connect { local_response } => assert_eq!(local_response, expected),
        _ => panic!("expected CONNECT mode"),
    }
}

#[test]
fn plain_mode_opens_with_headers_then_body() {
    let raw = b"POST / HTTP/1.1\r\nHost: a\r\nContent-Length: 2\r\n\r\nok";
    let p = parse_request_header(raw).unwrap();
    let headers = p.headers.clone();
    let body = p.body.clone();
    match plan_tunnel(p.headers, p.body) {
        TunnelPlan::PlainHttp { opening } => {
            assert_eq!(opening.len(), 2);
            assert_eq!(opening[0], headers);
            assert_eq!(opening[1], body);
        }
        _ => panic!("expected plain-HTTP mode"),
    }

    let raw = b"GET / HTTP/1.1\r\nHost: a\r\n\r\n";
    let p = parse_request_header(raw).unwrap();
    let headers = p.headers.clone();
    match plan_tunnel(p.headers, p.body) {
        TunnelPlan::PlainHttp { opening } => {
            assert_eq!(opening.len(), 1);
            assert_eq!(opening[0], headers);
        }
        _ => panic!("expected plain-HTTP mode"),
    }
}
