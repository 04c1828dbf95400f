use skunk::http::{
    classify_request, encode_status_line, header_name_eq, parse_request_line, RequestAction,
};

#[test]
fn connect_upgrades_and_other_methods_forward() {
    assert_eq!(classify_request(b"CONNECT"), RequestAction::Upgrade);
    assert_eq!(classify_request(b"GET"), RequestAction::Forward);
    assert_eq!(classify_request(b"POST"), RequestAction::Forward);
    // The method is case-sensitive on the wire.
    assert_eq!(classify_request(b"connect"), RequestAction::Forward);
}

#[test]
fn request_line_splits_into_three_parts() {
    let rl = parse_request_line(b"GET / HTTP/1.1").expect("valid request line");
    assert_eq!(rl.method, b"GET".to_vec());
    assert_eq!(rl.target, b"/".to_vec());
    assert_eq!(rl.version, b"HTTP/1.1".to_vec());
}

#[test]
fn request_line_with_absolute_target() {
    let rl = parse_request_line(b"GET http://example.com/ HTTP/1.0").expect("valid request line");
    assert_eq!(rl.method, b"GET".to_vec());
    assert_eq!(rl.target, b"http://example.com/".to_vec());
    assert_eq!(rl.version, b"HTTP/1.0".to_vec());
}

#[test]
fn malformed_request_lines_are_rejected() {
    assert!(parse_request_line(b"GET").is_err());
    assert!(parse_request_line(b"GET /").is_err());
    assert!(parse_request_line(b" / HTTP/1.1").is_err());
    assert!(parse_request_line(b"GET  HTTP/1.1").is_err());
    assert!(parse_request_line(b"GET / ").is_err());
}

#[test]
fn header_names_compare_case_insensitively() {
    assert!(header_name_eq(b"Content-Type", b"content-type"));
    assert!(header_name_eq(b"HOST", b"host"));
    assert!(!header_name_eq(b"Content-Type", b"Content-Length"));
    assert!(!header_name_eq(b"Host", b"Hosts"));
}

#[test]
fn status_line_is_exact() {
    let line = encode_status_line(101, b"Switching Protocols");
    assert_eq!(line, b"HTTP/1.1 101 Switching Protocols\r\n".to_vec());
    let line = encode_status_line(502, b"Bad Gateway");
    assert_eq!(line, b"HTTP/1.1 502 Bad Gateway\r\n".to_vec());
}
