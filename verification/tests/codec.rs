use wsproxy::codec::{decode_host, encode_host};

#[test]
fn test_encode_decode_host() {
    let host = "example.com";
    let encoded_host = encode_host(host);
    let decoded_host = decode_host(encoded_host.to_string()).unwrap();
    assert_eq!(decoded_host, host);
}

#[test]
fn round_trip_host_port() {
    let s = encode_host("example.com:80");
    assert_eq!(decode_host(s).unwrap(), "example.com:80");
}

#[test]
fn round_trip_various_hosts() {
    let hosts = [
        "a:1",
        "localhost:9001",
        "some.long.domain.name.example:65535",
        "127.0.0.1:8080",
        "hôst.example:443",
    ];
    for h in hosts {
        let e = encode_host(h);
        assert_eq!(decode_host(e).unwrap(), h);
    }
}

#[test]
fn encoding_is_one_byte_longer_than_base64() {
    // base64 of n bytes is 4 * ceil(n / 3) bytes; one filler byte is added
    let h = "example.com:80";
    let b64_len = 4 * ((h.len() + 2) / 3);
    assert_eq!(encode_host(h).len(), b64_len + 1);

    let empty = encode_host("");
    assert_eq!(empty.len(), 1);
    assert_eq!(decode_host(empty).unwrap(), "");
}

#[test]
fn encoded_token_is_alphanumeric_filler_over_base64() {
    // the token differs from plain base64 only by one inserted
    // alphanumeric byte; decoding twice gives the same host
    let h = "example.com:80";
    let e1 = encode_host(h);
    let e2 = encode_host(h);
    assert_eq!(e1.len(), e2.len());
    assert_eq!(decode_host(e1).unwrap(), decode_host(e2).unwrap());
}

#[test]
fn decode_rejects_malformed_tokens() {
    assert!(decode_host(String::new()).is_err());
    assert!(decode_host("!!!!!".to_string()).is_err());
    assert!(decode_host("€".to_string()).is_err());
}
