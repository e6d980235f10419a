//! Tests of the address parser/printer and the HTTP codec.

use redproxy::addr::TargetAddress;
use redproxy::http::{Header, HttpRequest, HttpResponse};

fn parse_target(s: &[u8]) -> Option<TargetAddress> {
    redproxy::addr::parse_target(s)
}

#[test]
fn target_domain_round_trip() {
    let t = parse_target(b"example.com:443").expect("parses");
    match &t {
        TargetAddress::Domain { host, port } => {
            assert_eq!(host.as_slice(), b"example.com");
            assert_eq!(*port, 443);
        }
        _ => panic!("expected a domain"),
    }
    let shown = t.display();
    assert_eq!(shown.as_slice(), b"example.com:443");
    let again = parse_target(&shown).expect("display parses");
    assert_eq!(again, t);
}

#[test]
fn target_v4_round_trip() {
    let t = parse_target(b"192.0.2.1:80").expect("parses");
    assert_eq!(
        t,
        TargetAddress::V4 { a: 192, b: 0, c: 2, d: 1, port: 80 }
    );
    let shown = t.display();
    assert_eq!(shown.as_slice(), b"192.0.2.1:80");
    assert_eq!(parse_target(&shown).expect("display parses"), t);
}

#[test]
fn target_v6_round_trip() {
    let t = parse_target(b"[2001:db8:0:0:0:0:0:1]:443").expect("parses");
    match &t {
        TargetAddress::V6 { groups, port } => {
            assert_eq!(groups.as_slice(), &[0x2001, 0xdb8, 0, 0, 0, 0, 0, 1]);
            assert_eq!(*port, 443);
        }
        _ => panic!("expected an IPv6 address"),
    }
    let shown = t.display();
    assert_eq!(shown.as_slice(), b"[2001:db8:0:0:0:0:0:1]:443");
    assert_eq!(parse_target(&shown).expect("display parses"), t);
}

#[test]
fn target_hex_case_and_port_bounds() {
    // Hex groups parse in either case; display is lower case.
    let t = parse_target(b"[2001:DB8:0:0:0:0:0:A]:1").expect("parses");
    assert_eq!(t.display().as_slice(), b"[2001:db8:0:0:0:0:0:a]:1");
    assert!(parse_target(b"example.com:65535").is_some());
    assert!(parse_target(b"example.com:65536").is_none());
    assert!(parse_target(b"example.com:0").is_some());
}

#[test]
fn target_v6_compressed_forms() {
    let t = parse_target(b"[::1]:443").expect("parses");
    match &t {
        TargetAddress::V6 { groups, port } => {
            assert_eq!(groups.as_slice(), &[0, 0, 0, 0, 0, 0, 0, 1]);
            assert_eq!(*port, 443);
        }
        _ => panic!("expected an IPv6 address"),
    }
    assert_eq!(t.display().as_slice(), b"[0:0:0:0:0:0:0:1]:443");
    assert_eq!(parse_target(&t.display()).expect("display parses"), t);
    let u = parse_target(b"[2001:db8::5:6]:80").expect("parses");
    match &u {
        TargetAddress::V6 { groups, .. } => {
            assert_eq!(groups.as_slice(), &[0x2001, 0xdb8, 0, 0, 0, 0, 5, 6]);
        }
        _ => panic!("expected an IPv6 address"),
    }
    let v = parse_target(b"[::]:9").expect("parses");
    match &v {
        TargetAddress::V6 { groups, .. } => assert_eq!(groups.as_slice(), &[0u16; 8]),
        _ => panic!("expected an IPv6 address"),
    }
    // Two compressions, or a compression with eight explicit groups, are no
    // address.
    assert!(parse_target(b"[1::2::3]:9").is_none());
    assert!(parse_target(b"[1:2:3:4:5:6:7:8::]:9").is_none());
}

#[test]
fn target_rejects_malformed() {
    assert!(parse_target(b"").is_none());
    assert!(parse_target(b"no-port").is_none());
    assert!(parse_target(b":80").is_none());
    assert!(parse_target(b"a:b:80").is_none());
    assert!(parse_target(b"[2001:db8:0:0:0:0:0:1]443").is_none());
    assert!(parse_target(b"not-a-target").is_none());
}

#[test]
fn target_overflowing_quad_is_a_domain() {
    // 256 is no octet, so the host falls back to a domain name.
    let t = parse_target(b"256.1.1.1:80").expect("parses");
    match t {
        TargetAddress::Domain { ref host, port } => {
            assert_eq!(host.as_slice(), b"256.1.1.1");
            assert_eq!(port, 80);
        }
        _ => panic!("expected a domain"),
    }
}

#[test]
fn request_encodes_canonically() {
    let req = HttpRequest::new(b"CONNECT".to_vec(), b"example.com:443".to_vec())
        .with_header(b"Host".to_vec(), b"example.com:443".to_vec());
    assert_eq!(
        req.encode().as_slice(),
        b"CONNECT example.com:443 HTTP/1.1\r\nHost: example.com:443\r\n\r\n".as_slice()
    );
}

#[test]
fn request_parse_round_trip_keeps_header_order() {
    let req = HttpRequest::new(b"GET".to_vec(), b"/x".to_vec())
        .with_header(b"B".to_vec(), b"two".to_vec())
        .with_header(b"A".to_vec(), b"one".to_vec())
        .with_header(b"B".to_vec(), b"three".to_vec());
    let parsed = HttpRequest::parse(&req.encode()).expect("parses");
    assert_eq!(parsed, req);
    let names: Vec<&[u8]> = parsed.headers.iter().map(|h| h.name.as_slice()).collect();
    assert_eq!(names, vec![b"B".as_slice(), b"A".as_slice(), b"B".as_slice()]);
    // Duplicate headers: lookup returns the first, case-insensitively.
    assert_eq!(parsed.header(b"b", b"-").as_slice(), b"two");
    assert_eq!(parsed.header(b"A", b"-").as_slice(), b"one");
    assert_eq!(parsed.header(b"missing", b"fallback").as_slice(), b"fallback");
}

#[test]
fn request_parse_trims_header_values() {
    let parsed =
        HttpRequest::parse(b"GET / HTTP/1.1\r\nName:   padded value \r\n\r\n").expect("parses");
    assert_eq!(parsed.header(b"name", b"").as_slice(), b"padded value");
}

#[test]
fn request_parse_rejects_malformed() {
    assert!(HttpRequest::parse(b"").is_none());
    assert!(HttpRequest::parse(b"GET /\r\n\r\n").is_none());
    assert!(HttpRequest::parse(b"GET / HTTP/1.1\r\n").is_none());
    assert!(HttpRequest::parse(b"GET / HTTP/1.1\nX: y\n\n").is_none());
    assert!(HttpRequest::parse(b"GET / HTTP/1.1\r\nno-colon-line\r\n\r\n").is_none());
}

#[test]
fn response_encodes_canonically() {
    let resp = HttpResponse::new(200, b"Connection established".to_vec());
    assert_eq!(
        resp.encode().as_slice(),
        b"HTTP/1.1 200 Connection established\r\n\r\n".as_slice()
    );
}

#[test]
fn response_with_body_appends_verbatim() {
    let resp = HttpResponse::new(503, b"Service unavailable".to_vec())
        .with_header(b"Content-Type".to_vec(), b"text/plain".to_vec())
        .with_header(b"Content-Length".to_vec(), b"5".to_vec());
    let bytes = resp.encode_with_body(b"oops!");
    assert_eq!(
        bytes.as_slice(),
        b"HTTP/1.1 503 Service unavailable\r\nContent-Type: text/plain\r\nContent-Length: 5\r\n\r\noops!"
            .as_slice()
    );
}

#[test]
fn response_parse_round_trip() {
    let resp = HttpResponse::new(200, b"Connection established".to_vec())
        .with_header(b"Session-Id".to_vec(), b"7".to_vec());
    let parsed = HttpResponse::parse(&resp.encode()).expect("parses");
    assert_eq!(parsed, resp);
    assert_eq!(parsed.code, 200);
    assert_eq!(parsed.status.as_slice(), b"Connection established");
    assert_eq!(parsed.header(b"session-id", b"0").as_slice(), b"7");
}

#[test]
fn response_parse_rejects_malformed() {
    assert!(HttpResponse::parse(b"HTTP/1.1 abc OK\r\n\r\n").is_none());
    assert!(HttpResponse::parse(b"HTTP/1.1 99999 OK\r\n\r\n").is_none());
    assert!(HttpResponse::parse(b"HTTP/1.1\r\n\r\n").is_none());
}

#[test]
fn header_struct_is_plain_data() {
    let h = Header { name: b"Host".to_vec(), value: b"x".to_vec() };
    assert_eq!(h, h.clone());
}
