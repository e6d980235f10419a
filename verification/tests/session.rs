//! Tests of the session state machine, the id allocator, the handshakes and
//! the frame formats.

use redproxy::addr::TargetAddress;
use redproxy::context::{
    try_map_v4_addr, CallbackKind, Context, Feature, IdGen, IpAddress, Lifecycle, SideState,
    SockAddr,
};
use redproxy::frames::{
    decode_datagram, decode_inline_frame, demux_route, encode_datagram, encode_inline_frame,
};
use redproxy::handshake::{
    bad_request_response, connect_response, error_response, frame_channel_response,
    h11c_connect_decide, h11c_connect_request, h11c_handshake, EgressAction, IngressOutcome,
};
use redproxy::http::{HttpRequest, HttpResponse};
use redproxy::ProxyError;

fn client_addr() -> SockAddr {
    SockAddr { ip: IpAddress::V4 { a: 127, b: 0, c: 0, d: 1 }, port: 40000 }
}

#[test]
fn session_ids_are_distinct() {
    let mut gen = IdGen::new();
    let a = gen.fresh();
    let b = gen.fresh();
    let c = gen.fresh();
    assert_eq!((a, b, c), (0, 1, 2));
    assert!(a != b && b != c && a != c);
}

#[test]
fn context_runs_through_its_lifecycle() {
    let mut gen = IdGen::new();
    let mut ctx = Context::new(b"main".to_vec(), client_addr(), &mut gen);
    assert_eq!(ctx.lifecycle, Lifecycle::Created);
    assert_eq!(ctx.feature, Feature::TcpForward);
    ctx.set_client_stream();
    let target = TargetAddress::Domain { host: b"example.com".to_vec(), port: 443 };
    ctx.complete_handshake(target, Feature::TcpForward, CallbackKind::TcpConnect);
    assert_eq!(ctx.lifecycle, Lifecycle::HandshakeComplete);
    ctx.mark_dispatched();
    assert_eq!(ctx.lifecycle, Lifecycle::Dispatched);
    let local = SockAddr { ip: IpAddress::V4 { a: 10, b: 0, c: 0, d: 2 }, port: 1234 };
    let remote = SockAddr { ip: IpAddress::V4 { a: 10, b: 0, c: 0, d: 3 }, port: 443 };
    ctx.set_server_stream(local, remote);
    assert_eq!(ctx.server, SideState::Stream);
    ctx.fire_connect();
    assert_eq!(ctx.lifecycle, Lifecycle::Connected);
    ctx.finish();
    assert_eq!(ctx.lifecycle, Lifecycle::Terminal);
}

#[test]
fn failed_session_fires_error_once() {
    let mut gen = IdGen::new();
    let mut ctx = Context::new(b"main".to_vec(), client_addr(), &mut gen);
    ctx.set_client_stream();
    let target = TargetAddress::V4 { a: 192, b: 0, c: 2, d: 9, port: 80 };
    ctx.complete_handshake(target, Feature::TcpForward, CallbackKind::TcpConnect);
    ctx.mark_dispatched();
    ctx.fire_error();
    assert_eq!(ctx.lifecycle, Lifecycle::Failed);
    ctx.finish();
    assert_eq!(ctx.lifecycle, Lifecycle::Terminal);
}

#[test]
fn udp_session_converts_client_stream_to_frames() {
    let mut gen = IdGen::new();
    let mut ctx = Context::new(b"quic".to_vec(), client_addr(), &mut gen);
    ctx.set_client_stream();
    let target = TargetAddress::Domain { host: b"dns.example".to_vec(), port: 53 };
    ctx.complete_handshake(
        target,
        Feature::UdpForward,
        CallbackKind::FrameChannel { session_id: 4, inline: true },
    );
    assert_eq!(ctx.client, SideState::Stream);
    ctx.mark_dispatched();
    let local = SockAddr { ip: IpAddress::V4 { a: 10, b: 0, c: 0, d: 2 }, port: 1234 };
    let remote = SockAddr { ip: IpAddress::V4 { a: 10, b: 0, c: 0, d: 3 }, port: 53 };
    ctx.set_server_frames(local, remote);
    ctx.fire_connect();
    assert_eq!(ctx.client, SideState::Frames);
    assert_eq!(ctx.server, SideState::Frames);
}

#[test]
fn props_snapshot_matches_context() {
    let mut gen = IdGen::new();
    let mut ctx = Context::new(b"main".to_vec(), client_addr(), &mut gen);
    ctx.set_client_stream();
    let target = TargetAddress::Domain { host: b"example.com".to_vec(), port: 443 };
    ctx.complete_handshake(target, Feature::TcpForward, CallbackKind::TcpConnect);
    let props = ctx.props();
    assert_eq!(props.id, ctx.id);
    assert_eq!(props.listener.as_slice(), b"main");
    assert_eq!(
        props.target,
        Some(TargetAddress::Domain { host: b"example.com".to_vec(), port: 443 })
    );
}

#[test]
fn v4_mapped_addresses_normalize() {
    let mapped = SockAddr {
        ip: IpAddress::V6 { groups: vec![0, 0, 0, 0, 0, 0xffff, 0xc000, 0x0201] },
        port: 9,
    };
    let out = try_map_v4_addr(mapped);
    assert_eq!(out.ip, IpAddress::V4 { a: 192, b: 0, c: 2, d: 1 });
    assert_eq!(out.port, 9);
    let plain = SockAddr {
        ip: IpAddress::V6 { groups: vec![0x2001, 0xdb8, 0, 0, 0, 0, 0, 1] },
        port: 9,
    };
    let kept = try_map_v4_addr(plain.clone());
    assert_eq!(kept, plain);
}

#[test]
fn ingress_accepts_plain_connect() {
    let req = HttpRequest::parse(b"CONNECT example.com:443 HTTP/1.1\r\nHost: example.com:443\r\n\r\n")
        .expect("parses");
    match h11c_handshake(&req, 77) {
        IngressOutcome::Accept { target, feature, callback, .. } => {
            assert_eq!(target.display().as_slice(), b"example.com:443");
            assert_eq!(feature, Feature::TcpForward);
            assert_eq!(callback, CallbackKind::TcpConnect);
        }
        _ => panic!("expected acceptance"),
    }
}

#[test]
fn ingress_rejects_other_methods() {
    let req = HttpRequest::parse(b"GET / HTTP/1.1\r\nHost: x\r\n\r\n").expect("parses");
    match h11c_handshake(&req, 0) {
        IngressOutcome::Reject { response, error } => {
            assert_eq!(error, ProxyError::InvalidMethod);
            assert_eq!(response.encode().as_slice(), b"HTTP/1.1 400 Bad Request\r\n\r\n");
        }
        _ => panic!("expected rejection"),
    }
}

#[test]
fn ingress_rejects_bad_target() {
    let req = HttpRequest::parse(b"CONNECT not-a-target HTTP/1.1\r\n\r\n").expect("parses");
    match h11c_handshake(&req, 0) {
        IngressOutcome::Reject { error, .. } => assert_eq!(error, ProxyError::InvalidTarget),
        _ => panic!("expected rejection"),
    }
}

#[test]
fn ingress_rejects_unknown_protocol() {
    let req = HttpRequest::parse(
        b"CONNECT example.com:443 HTTP/1.1\r\nProxy-Protocol: carrier-pigeon\r\n\r\n",
    )
    .expect("parses");
    match h11c_handshake(&req, 0) {
        IngressOutcome::Reject { error, .. } => assert_eq!(error, ProxyError::InvalidProtocol),
        _ => panic!("expected rejection"),
    }
}

#[test]
fn ingress_udp_inline_installs_frame_callback() {
    let req = HttpRequest::parse(
        b"CONNECT example.com:53 HTTP/1.1\r\nProxy-Protocol: udp\r\nProxy-Channel: inline\r\n\r\n",
    )
    .expect("parses");
    match h11c_handshake(&req, 41) {
        IngressOutcome::Accept { feature, callback, channel, .. } => {
            assert_eq!(feature, Feature::UdpForward);
            assert_eq!(callback, CallbackKind::FrameChannel { session_id: 41, inline: true });
            assert_eq!(channel.as_slice(), b"inline");
        }
        _ => panic!("expected acceptance"),
    }
}

#[test]
fn ingress_udp_named_channel_is_not_inline() {
    let req = HttpRequest::parse(
        b"CONNECT example.com:53 HTTP/1.1\r\nProxy-Protocol: UDP\r\nProxy-Channel: quic\r\n\r\n",
    )
    .expect("parses");
    match h11c_handshake(&req, 8) {
        IngressOutcome::Accept { callback, channel, .. } => {
            assert_eq!(callback, CallbackKind::FrameChannel { session_id: 8, inline: false });
            assert_eq!(channel.as_slice(), b"quic");
        }
        _ => panic!("expected acceptance"),
    }
}

#[test]
fn egress_request_for_tcp() {
    let target = redproxy::addr::parse_target(b"example.com:443").expect("parses");
    let req = h11c_connect_request(&target, Feature::TcpForward, b"inline").expect("builds");
    assert_eq!(
        req.encode().as_slice(),
        b"CONNECT example.com:443 HTTP/1.1\r\nHost: example.com:443\r\n\r\n".as_slice()
    );
}

#[test]
fn egress_request_for_udp_names_the_channel() {
    let target = redproxy::addr::parse_target(b"example.com:53").expect("parses");
    let req = h11c_connect_request(&target, Feature::UdpForward, b"quic").expect("builds");
    assert_eq!(
        req.encode().as_slice(),
        b"CONNECT example.com:53 HTTP/1.1\r\nHost: example.com:53\r\nProxy-Protocol: udp\r\nProxy-Channel: quic\r\n\r\n"
            .as_slice()
    );
}

#[test]
fn egress_request_refuses_other_features() {
    let target = redproxy::addr::parse_target(b"example.com:53").expect("parses");
    assert_eq!(
        h11c_connect_request(&target, Feature::TcpBind, b"inline"),
        Err(ProxyError::UnsupportedFeature)
    );
}

#[test]
fn egress_decide_tcp() {
    let ok = HttpResponse::parse(b"HTTP/1.1 200 Connection established\r\n\r\n").expect("parses");
    assert_eq!(
        h11c_connect_decide(Feature::TcpForward, &ok, b"inline"),
        Ok(EgressAction::UseStream)
    );
    let refused = HttpResponse::parse(b"HTTP/1.1 503 Service unavailable\r\n\r\n").expect("parses");
    assert_eq!(
        h11c_connect_decide(Feature::TcpForward, &refused, b"inline"),
        Err(ProxyError::UpstreamRefused)
    );
}

#[test]
fn egress_decide_udp_reads_session_id() {
    let resp =
        HttpResponse::parse(b"HTTP/1.1 200 Connection established\r\nSession-Id: 7\r\n\r\n")
            .expect("parses");
    assert_eq!(
        h11c_connect_decide(Feature::UdpForward, &resp, b"INLINE"),
        Ok(EgressAction::UseFrames { session_id: 7, inline: true })
    );
    let no_sid = HttpResponse::parse(b"HTTP/1.1 200 Connection established\r\n\r\n").expect("parses");
    assert_eq!(
        h11c_connect_decide(Feature::UdpForward, &no_sid, b"quic"),
        Ok(EgressAction::UseFrames { session_id: 0, inline: false })
    );
    let bad_sid = HttpResponse::parse(b"HTTP/1.1 200 OK\r\nSession-Id: abc\r\n\r\n").expect("parses");
    assert_eq!(
        h11c_connect_decide(Feature::UdpForward, &bad_sid, b"quic"),
        Err(ProxyError::InvalidProtocol)
    );
    assert_eq!(
        h11c_connect_decide(Feature::UdpBind, &no_sid, b"quic"),
        Err(ProxyError::UnsupportedFeature)
    );
}

#[test]
fn callback_responses_have_the_wire_form() {
    assert_eq!(
        connect_response().encode().as_slice(),
        b"HTTP/1.1 200 Connection established\r\n\r\n".as_slice()
    );
    assert_eq!(
        frame_channel_response(41).encode().as_slice(),
        b"HTTP/1.1 200 Connection established\r\nSession-Id: 41\r\n\r\n".as_slice()
    );
    assert_eq!(
        bad_request_response().encode().as_slice(),
        b"HTTP/1.1 400 Bad Request\r\n\r\n".as_slice()
    );
    let body = b"Error: no matching rule";
    assert_eq!(
        error_response(body.len() as u32).encode_with_body(body).as_slice(),
        b"HTTP/1.1 503 Service unavailable\r\nContent-Type: text/plain\r\nContent-Length: 23\r\n\r\nError: no matching rule"
            .as_slice()
    );
}

#[test]
fn inline_frames_round_trip() {
    let frame = encode_inline_frame(b"hello");
    assert_eq!(frame.as_slice(), &[0, 5, b'h', b'e', b'l', b'l', b'o']);
    let mut stream = frame.clone();
    stream.extend_from_slice(&[9, 9]);
    let (payload, rest) = decode_inline_frame(&stream).expect("decodes");
    assert_eq!(payload.as_slice(), b"hello");
    assert_eq!(rest, 7);
    assert!(decode_inline_frame(&[0]).is_none());
    assert!(decode_inline_frame(&[0, 5, b'h', b'i']).is_none());
}

#[test]
fn datagrams_round_trip() {
    let d = encode_datagram(258, b"xy");
    assert_eq!(d.as_slice(), &[0, 0, 1, 2, b'x', b'y']);
    let (id, payload) = decode_datagram(&d).expect("decodes");
    assert_eq!(id, 258);
    assert_eq!(payload.as_slice(), b"xy");
    assert!(decode_datagram(&[0, 0, 1]).is_none());
}

#[test]
fn demux_drops_unknown_session_ids() {
    let sessions = vec![5u32, 9, 12];
    assert_eq!(demux_route(&sessions, 9), Some(1));
    assert_eq!(demux_route(&sessions, 5), Some(0));
    assert_eq!(demux_route(&sessions, 7), None);
}
