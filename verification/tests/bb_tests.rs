use node_bridge::bb::{parse_response, Bb};

#[test]
fn parse_url_with_port() {
    let b = Bb::new("http://100.120.203.20:8792");
    assert_eq!(b.host, "100.120.203.20");
    assert_eq!(b.port, 8792);
}

#[test]
fn parse_url_no_port_default() {
    let b = Bb::new("http://10.0.0.1");
    assert_eq!(b.host, "10.0.0.1");
    assert_eq!(b.port, 8792);
}

#[test]
fn parse_url_trailing_slash() {
    let b = Bb::new("http://host:9000/");
    assert_eq!(b.host, "host");
    assert_eq!(b.port, 9000);
}

#[test]
fn parse_url_hostname() {
    let b = Bb::new("http://blackboard.local:1234");
    assert_eq!(b.host, "blackboard.local");
    assert_eq!(b.port, 1234);
}

#[test]
fn unreadable_port_falls_back_to_default() {
    let b = Bb::new("http://host:99999");
    assert_eq!(b.host, "host");
    assert_eq!(b.port, 8792);
    let b = Bb::new("http://host:+81");
    assert_eq!(b.port, 81);
}

#[test]
fn repeated_scheme_and_slashes_are_trimmed() {
    let b = Bb::with_token("http://http://example.org:8080///", "tok");
    assert_eq!(b.host, "example.org");
    assert_eq!(b.port, 8080);
    assert_eq!(b.token, "tok");
}

#[test]
fn addr_names_host_and_port() {
    let b = Bb::new("http://10.0.0.1");
    assert_eq!(b.addr(), "http://10.0.0.1:8792");
}

#[test]
fn request_without_token_has_single_blank_line() {
    let b = Bb::new("http://h:1");
    let r = b.get("/nodes");
    assert_eq!(
        r,
        "GET /nodes HTTP/1.1\r\nHost: h:1\r\nContent-Type: application/json\r\nContent-Length: 0\r\nConnection: close\r\n\r\n"
    );
}

#[test]
fn request_with_token_keeps_headers_together() {
    let b = Bb::with_token("http://h:1", "abc");
    let r = b.put_json("/k", "{\"a\":\"é\"}");
    assert_eq!(
        r,
        "PUT /k HTTP/1.1\r\nHost: h:1\r\nX-Blackboard-Token: abc\r\nContent-Type: application/json\r\nContent-Length: 10\r\nConnection: close\r\n\r\n{\"a\":\"é\"}"
    );
    let d = b.delete("/x");
    assert!(d.starts_with("DELETE /x HTTP/1.1\r\n"));
}

#[test]
fn response_status_and_body() {
    let (st, body) = parse_response("HTTP/1.1 200 OK\r\nContent-Length: 2\r\n\r\n{}");
    assert_eq!(st, 200);
    assert_eq!(body, "{}");
    let (st, body) = parse_response("garbage");
    assert_eq!(st, 0);
    assert_eq!(body, "");
    let (st, body) = parse_response("HTTP/1.1 404 Not Found\r\n\r\nmissing\r\n\r\ntrailer");
    assert_eq!(st, 404);
    assert_eq!(body, "missing\r\n\r\ntrailer");
    let (_, body) = parse_response("A\r\n\r\nb\r\n\r\nc");
    assert_eq!(body, "b\r\n\r\nc");
}
