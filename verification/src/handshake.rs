//! The HTTP/1.1 CONNECT handshake, ingress and egress.
//!
//! Both sides are decision functions on parsed messages: the surrounding
//! program reads the bytes, hands the parsed message in, performs the I/O the
//! decision calls for, and drives the `Context` transitions it names.

use vstd::prelude::*;

use crate::ProxyError;
use crate::addr::{parse_target, parse_target_spec, target_text, TargetAddress};
use crate::context::{CallbackKind, Feature};
use crate::http::{
    header_or, http11, HeaderView, HttpRequest, HttpResponse, RequestView, ResponseView,
};
use crate::text::{
    bytes_eq_ignore_case, dec_digits, dec_value, eq_ignore_case, format_dec, is_dec_string,
    parse_dec, subvec,
};

verus! {

/// The keyword `CONNECT`.
pub open spec fn sq_connect() -> Seq<u8> {
    seq!['C' as u8, 'O' as u8, 'N' as u8, 'N' as u8, 'E' as u8, 'C' as u8, 'T' as u8]
}

/// Executable copy of [`sq_connect`].
pub fn kw_connect() -> (r: Vec<u8>)
    ensures
        r@ == sq_connect(),
{
    let r: Vec<u8> = vec!['C' as u8, 'O' as u8, 'N' as u8, 'N' as u8, 'E' as u8, 'C' as u8, 'T' as u8];
    proof {
        assert(r@ =~= sq_connect());
    }
    r
}

/// The text `tcp`.
pub open spec fn sq_tcp() -> Seq<u8> {
    seq!['t' as u8, 'c' as u8, 'p' as u8]
}

/// Executable copy of [`sq_tcp`].
pub fn kw_tcp() -> (r: Vec<u8>)
    ensures
        r@ == sq_tcp(),
{
    let r: Vec<u8> = vec!['t' as u8, 'c' as u8, 'p' as u8];
    proof {
        assert(r@ =~= sq_tcp());
    }
    r
}

/// The text `udp`.
pub open spec fn sq_udp() -> Seq<u8> {
    seq!['u' as u8, 'd' as u8, 'p' as u8]
}

/// Executable copy of [`sq_udp`].
pub fn kw_udp() -> (r: Vec<u8>)
    ensures
        r@ == sq_udp(),
{
    let r: Vec<u8> = vec!['u' as u8, 'd' as u8, 'p' as u8];
    proof {
        assert(r@ =~= sq_udp());
    }
    r
}

/// The text `inline`.
pub open spec fn sq_inline() -> Seq<u8> {
    seq!['i' as u8, 'n' as u8, 'l' as u8, 'i' as u8, 'n' as u8, 'e' as u8]
}

/// Executable copy of [`sq_inline`].
pub fn kw_inline() -> (r: Vec<u8>)
    ensures
        r@ == sq_inline(),
{
    let r: Vec<u8> = vec!['i' as u8, 'n' as u8, 'l' as u8, 'i' as u8, 'n' as u8, 'e' as u8];
    proof {
        assert(r@ =~= sq_inline());
    }
    r
}

/// The text `Proxy-Protocol`.
pub open spec fn sq_proxy_protocol() -> Seq<u8> {
    seq!['P' as u8, 'r' as u8, 'o' as u8, 'x' as u8, 'y' as u8, '-' as u8, 'P' as u8, 'r' as u8, 'o' as u8, 't' as u8, 'o' as u8, 'c' as u8, 'o' as u8, 'l' as u8]
}

/// Executable copy of [`sq_proxy_protocol`].
pub fn kw_proxy_protocol() -> (r: Vec<u8>)
    ensures
        r@ == sq_proxy_protocol(),
{
    let r: Vec<u8> = vec!['P' as u8, 'r' as u8, 'o' as u8, 'x' as u8, 'y' as u8, '-' as u8, 'P' as u8, 'r' as u8, 'o' as u8, 't' as u8, 'o' as u8, 'c' as u8, 'o' as u8, 'l' as u8];
    proof {
        assert(r@ =~= sq_proxy_protocol());
    }
    r
}

/// The text `Proxy-Channel`.
pub open spec fn sq_proxy_channel() -> Seq<u8> {
    seq!['P' as u8, 'r' as u8, 'o' as u8, 'x' as u8, 'y' as u8, '-' as u8, 'C' as u8, 'h' as u8, 'a' as u8, 'n' as u8, 'n' as u8, 'e' as u8, 'l' as u8]
}

/// Executable copy of [`sq_proxy_channel`].
pub fn kw_proxy_channel() -> (r: Vec<u8>)
    ensures
        r@ == sq_proxy_channel(),
{
    let r: Vec<u8> = vec!['P' as u8, 'r' as u8, 'o' as u8, 'x' as u8, 'y' as u8, '-' as u8, 'C' as u8, 'h' as u8, 'a' as u8, 'n' as u8, 'n' as u8, 'e' as u8, 'l' as u8];
    proof {
        assert(r@ =~= sq_proxy_channel());
    }
    r
}

/// The text `Session-Id`.
pub open spec fn sq_session_id() -> Seq<u8> {
    seq!['S' as u8, 'e' as u8, 's' as u8, 's' as u8, 'i' as u8, 'o' as u8, 'n' as u8, '-' as u8, 'I' as u8, 'd' as u8]
}

/// Executable copy of [`sq_session_id`].
pub fn kw_session_id() -> (r: Vec<u8>)
    ensures
        r@ == sq_session_id(),
{
    let r: Vec<u8> = vec!['S' as u8, 'e' as u8, 's' as u8, 's' as u8, 'i' as u8, 'o' as u8, 'n' as u8, '-' as u8, 'I' as u8, 'd' as u8];
    proof {
        assert(r@ =~= sq_session_id());
    }
    r
}

/// The text `Host`.
pub open spec fn sq_host() -> Seq<u8> {
    seq!['H' as u8, 'o' as u8, 's' as u8, 't' as u8]
}

/// Executable copy of [`sq_host`].
pub fn kw_host() -> (r: Vec<u8>)
    ensures
        r@ == sq_host(),
{
    let r: Vec<u8> = vec!['H' as u8, 'o' as u8, 's' as u8, 't' as u8];
    proof {
        assert(r@ =~= sq_host());
    }
    r
}

/// The text `Connection established`.
pub open spec fn sq_established() -> Seq<u8> {
    seq!['C' as u8, 'o' as u8, 'n' as u8, 'n' as u8, 'e' as u8, 'c' as u8, 't' as u8, 'i' as u8, 'o' as u8, 'n' as u8, ' ' as u8, 'e' as u8, 's' as u8, 't' as u8, 'a' as u8, 'b' as u8, 'l' as u8, 'i' as u8, 's' as u8, 'h' as u8, 'e' as u8, 'd' as u8]
}

/// Executable copy of [`sq_established`].
pub fn kw_established() -> (r: Vec<u8>)
    ensures
        r@ == sq_established(),
{
    let r: Vec<u8> = vec!['C' as u8, 'o' as u8, 'n' as u8, 'n' as u8, 'e' as u8, 'c' as u8, 't' as u8, 'i' as u8, 'o' as u8, 'n' as u8, ' ' as u8, 'e' as u8, 's' as u8, 't' as u8, 'a' as u8, 'b' as u8, 'l' as u8, 'i' as u8, 's' as u8, 'h' as u8, 'e' as u8, 'd' as u8];
    proof {
        assert(r@ =~= sq_established());
    }
    r
}

/// The text `Bad Request`.
pub open spec fn sq_bad_request() -> Seq<u8> {
    seq!['B' as u8, 'a' as u8, 'd' as u8, ' ' as u8, 'R' as u8, 'e' as u8, 'q' as u8, 'u' as u8, 'e' as u8, 's' as u8, 't' as u8]
}

/// Executable copy of [`sq_bad_request`].
pub fn kw_bad_request() -> (r: Vec<u8>)
    ensures
        r@ == sq_bad_request(),
{
    let r: Vec<u8> = vec!['B' as u8, 'a' as u8, 'd' as u8, ' ' as u8, 'R' as u8, 'e' as u8, 'q' as u8, 'u' as u8, 'e' as u8, 's' as u8, 't' as u8];
    proof {
        assert(r@ =~= sq_bad_request());
    }
    r
}

/// The text `Service unavailable`.
pub open spec fn sq_unavailable() -> Seq<u8> {
    seq!['S' as u8, 'e' as u8, 'r' as u8, 'v' as u8, 'i' as u8, 'c' as u8, 'e' as u8, ' ' as u8, 'u' as u8, 'n' as u8, 'a' as u8, 'v' as u8, 'a' as u8, 'i' as u8, 'l' as u8, 'a' as u8, 'b' as u8, 'l' as u8, 'e' as u8]
}

/// Executable copy of [`sq_unavailable`].
pub fn kw_unavailable() -> (r: Vec<u8>)
    ensures
        r@ == sq_unavailable(),
{
    let r: Vec<u8> = vec!['S' as u8, 'e' as u8, 'r' as u8, 'v' as u8, 'i' as u8, 'c' as u8, 'e' as u8, ' ' as u8, 'u' as u8, 'n' as u8, 'a' as u8, 'v' as u8, 'a' as u8, 'i' as u8, 'l' as u8, 'a' as u8, 'b' as u8, 'l' as u8, 'e' as u8];
    proof {
        assert(r@ =~= sq_unavailable());
    }
    r
}

/// The text `Content-Type`.
pub open spec fn sq_content_type() -> Seq<u8> {
    seq!['C' as u8, 'o' as u8, 'n' as u8, 't' as u8, 'e' as u8, 'n' as u8, 't' as u8, '-' as u8, 'T' as u8, 'y' as u8, 'p' as u8, 'e' as u8]
}

/// Executable copy of [`sq_content_type`].
pub fn kw_content_type() -> (r: Vec<u8>)
    ensures
        r@ == sq_content_type(),
{
    let r: Vec<u8> = vec!['C' as u8, 'o' as u8, 'n' as u8, 't' as u8, 'e' as u8, 'n' as u8, 't' as u8, '-' as u8, 'T' as u8, 'y' as u8, 'p' as u8, 'e' as u8];
    proof {
        assert(r@ =~= sq_content_type());
    }
    r
}

/// The text `text/plain`.
pub open spec fn sq_text_plain() -> Seq<u8> {
    seq!['t' as u8, 'e' as u8, 'x' as u8, 't' as u8, '/' as u8, 'p' as u8, 'l' as u8, 'a' as u8, 'i' as u8, 'n' as u8]
}

/// Executable copy of [`sq_text_plain`].
pub fn kw_text_plain() -> (r: Vec<u8>)
    ensures
        r@ == sq_text_plain(),
{
    let r: Vec<u8> = vec!['t' as u8, 'e' as u8, 'x' as u8, 't' as u8, '/' as u8, 'p' as u8, 'l' as u8, 'a' as u8, 'i' as u8, 'n' as u8];
    proof {
        assert(r@ =~= sq_text_plain());
    }
    r
}

/// The text `Content-Length`.
pub open spec fn sq_content_length() -> Seq<u8> {
    seq!['C' as u8, 'o' as u8, 'n' as u8, 't' as u8, 'e' as u8, 'n' as u8, 't' as u8, '-' as u8, 'L' as u8, 'e' as u8, 'n' as u8, 'g' as u8, 't' as u8, 'h' as u8]
}

/// Executable copy of [`sq_content_length`].
pub fn kw_content_length() -> (r: Vec<u8>)
    ensures
        r@ == sq_content_length(),
{
    let r: Vec<u8> = vec!['C' as u8, 'o' as u8, 'n' as u8, 't' as u8, 'e' as u8, 'n' as u8, 't' as u8, '-' as u8, 'L' as u8, 'e' as u8, 'n' as u8, 'g' as u8, 't' as u8, 'h' as u8];
    proof {
        assert(r@ =~= sq_content_length());
    }
    r
}

/// The text `0`.
pub open spec fn sq_zero() -> Seq<u8> {
    seq!['0' as u8]
}

/// Executable copy of [`sq_zero`].
pub fn kw_zero() -> (r: Vec<u8>)
    ensures
        r@ == sq_zero(),
{
    let r: Vec<u8> = vec!['0' as u8];
    proof {
        assert(r@ =~= sq_zero());
    }
    r
}

/// The `400 Bad Request` response, no headers, no body.
pub open spec fn bad_request_view() -> ResponseView {
    ResponseView { version: http11(), code: 400, status: sq_bad_request(), headers: Seq::empty() }
}

/// Build the `400 Bad Request` response.
pub fn bad_request_response() -> (r: HttpResponse)
    ensures
        r@ == bad_request_view(),
{
    let r = HttpResponse::new(400, kw_bad_request());
    proof {
        assert(r@ =~= bad_request_view());
    }
    r
}

/// The `200 Connection established` response of the plain CONNECT callback.
pub open spec fn connect_response_view() -> ResponseView {
    ResponseView { version: http11(), code: 200, status: sq_established(), headers: Seq::empty() }
}

/// Build the `200 Connection established` response.
pub fn connect_response() -> (r: HttpResponse)
    ensures
        r@ == connect_response_view(),
{
    let r = HttpResponse::new(200, kw_established());
    proof {
        assert(r@ =~= connect_response_view());
    }
    r
}

/// The `200` response of the frame-channel callback: it carries the session
/// id so the peer can label its datagrams.
pub open spec fn frame_channel_response_view(session_id: u32) -> ResponseView {
    ResponseView {
        version: http11(),
        code: 200,
        status: sq_established(),
        headers: seq![
            HeaderView { name: sq_session_id(), value: dec_digits(session_id as nat) },
        ],
    }
}

/// Build the `200` response with the `Session-Id` header.
pub fn frame_channel_response(session_id: u32) -> (r: HttpResponse)
    ensures
        r@ == frame_channel_response_view(session_id),
{
    let r = HttpResponse::new(200, kw_established()).with_header(
        kw_session_id(),
        format_dec(session_id),
    );
    proof {
        assert(r@ =~= frame_channel_response_view(session_id));
    }
    r
}

/// The `503 Service unavailable` response for a plain-text error body of
/// `body_len` bytes.
pub open spec fn error_response_view(body_len: nat) -> ResponseView {
    ResponseView {
        version: http11(),
        code: 503,
        status: sq_unavailable(),
        headers: seq![
            HeaderView { name: sq_content_type(), value: sq_text_plain() },
            HeaderView { name: sq_content_length(), value: dec_digits(body_len) },
        ],
    }
}

/// Build the `503 Service unavailable` response announcing a plain-text body
/// of `body_len` bytes; the body itself carries the error and its causes.
pub fn error_response(body_len: u32) -> (r: HttpResponse)
    ensures
        r@ == error_response_view(body_len as nat),
{
    let r = HttpResponse::new(503, kw_unavailable()).with_header(
        kw_content_type(),
        kw_text_plain(),
    ).with_header(kw_content_length(), format_dec(body_len));
    proof {
        assert(r@ =~= error_response_view(body_len as nat));
    }
    r
}

/// What the ingress handshake decided.
pub enum IngressOutcome {
    /// The request is a valid CONNECT: install target, feature and callback
    /// on the `Context`, then enqueue it. `channel` is the frame channel the
    /// client asked for; it matters only to UDP sessions.
    Accept { target: TargetAddress, feature: Feature, callback: CallbackKind, channel: Vec<u8> },
    /// The request is refused: write `response` to the client and fail the
    /// session with `error`. No `Context` is enqueued.
    Reject { response: HttpResponse, error: ProxyError },
}

/// Server side of the CONNECT handshake, as a decision on the parsed request.
///
/// `session_id` is a fresh identifier from the process-wide counter; it names
/// the session's frame channel and is used only when the client asks for UDP.
///
/// A non-CONNECT method, an unparsable target, and an unknown `Proxy-Protocol`
/// are each rejected with `400 Bad Request`; `Proxy-Protocol: tcp` (the
/// default) yields a TCP-forward session with the plain CONNECT callback;
/// `Proxy-Protocol: udp` yields a UDP-forward session with the frame-channel
/// callback, inline exactly when the `Proxy-Channel` header (default
/// `inline`) says so.
pub fn h11c_handshake(request: &HttpRequest, session_id: u32) -> (r: IngressOutcome)
    ensures
        ({
            let m_ok = eq_ignore_case(request@.method, sq_connect());
            let tgt = parse_target_spec(request@.resource);
            let proto = header_or(request@.headers, sq_proxy_protocol(), sq_tcp());
            let chan = header_or(request@.headers, sq_proxy_channel(), sq_inline());
            &&& !m_ok ==> (r matches IngressOutcome::Reject { response, error }
                && response@ == bad_request_view() && error == ProxyError::InvalidMethod)
            &&& m_ok && tgt is None ==> (r matches IngressOutcome::Reject { response, error }
                && response@ == bad_request_view() && error == ProxyError::InvalidTarget)
            &&& m_ok && tgt is Some && eq_ignore_case(proto, sq_tcp())
                ==> (r matches IngressOutcome::Accept { target, feature, callback, channel }
                && target@ == tgt.unwrap() && target.wf() && feature == Feature::TcpForward
                && callback == CallbackKind::TcpConnect && channel@ == chan)
            &&& m_ok && tgt is Some && !eq_ignore_case(proto, sq_tcp()) && eq_ignore_case(
                proto,
                sq_udp(),
            ) ==> (r matches IngressOutcome::Accept { target, feature, callback, channel }
                && target@ == tgt.unwrap() && target.wf() && feature == Feature::UdpForward
                && callback == (CallbackKind::FrameChannel {
                    session_id,
                    inline: eq_ignore_case(chan, sq_inline()),
                }) && channel@ == chan)
            &&& m_ok && tgt is Some && !eq_ignore_case(proto, sq_tcp()) && !eq_ignore_case(
                proto,
                sq_udp(),
            ) ==> (r matches IngressOutcome::Reject { response, error }
                && response@ == bad_request_view() && error == ProxyError::InvalidProtocol)
        }),
{
    let connect = kw_connect();
    if !bytes_eq_ignore_case(request.method.as_slice(), connect.as_slice()) {
        return IngressOutcome::Reject {
            response: bad_request_response(),
            error: ProxyError::InvalidMethod,
        };
    }
    let target = match parse_target(request.resource.as_slice()) {
        Some(t) => t,
        None => {
            return IngressOutcome::Reject {
                response: bad_request_response(),
                error: ProxyError::InvalidTarget,
            };
        },
    };
    let proto_name = kw_proxy_protocol();
    let tcp = kw_tcp();
    let proto = request.header(proto_name.as_slice(), tcp.as_slice());
    let chan_name = kw_proxy_channel();
    let inline_kw = kw_inline();
    let channel = request.header(chan_name.as_slice(), inline_kw.as_slice());
    if bytes_eq_ignore_case(proto.as_slice(), tcp.as_slice()) {
        IngressOutcome::Accept {
            target,
            feature: Feature::TcpForward,
            callback: CallbackKind::TcpConnect,
            channel,
        }
    } else {
        let udp = kw_udp();
        if bytes_eq_ignore_case(proto.as_slice(), udp.as_slice()) {
            let inline = bytes_eq_ignore_case(channel.as_slice(), inline_kw.as_slice());
            IngressOutcome::Accept {
                target,
                feature: Feature::UdpForward,
                callback: CallbackKind::FrameChannel { session_id, inline },
                channel,
            }
        } else {
            IngressOutcome::Reject {
                response: bad_request_response(),
                error: ProxyError::InvalidProtocol,
            }
        }
    }
}

/// How the egress handshake wires the upstream side of the `Context`.
#[derive(Debug, Clone, PartialEq, Eq, Structural)]
pub enum EgressAction {
    /// Install the upstream stream as the server stream.
    UseStream,
    /// Install server frames for `session_id`: reframe the upstream stream
    /// when `inline`, ask the out-of-band frame factory when not.
    UseFrames { session_id: u32, inline: bool },
}

/// Build the CONNECT request the client side sends to an upstream proxy.
///
/// TCP forwarding asks for a plain tunnel; UDP forwarding adds the
/// `Proxy-Protocol: udp` and `Proxy-Channel` headers. Any other feature is
/// refused.
pub fn h11c_connect_request(target: &TargetAddress, feature: Feature, frame_channel: &[u8]) -> (r:
    Result<HttpRequest, ProxyError>)
    requires
        target.wf(),
    ensures
        feature == Feature::TcpForward ==> (r matches Ok(req) && req@ == (RequestView {
            method: sq_connect(),
            resource: target_text(target@),
            version: http11(),
            headers: seq![HeaderView { name: sq_host(), value: target_text(target@) }],
        })),
        feature == Feature::UdpForward ==> (r matches Ok(req) && req@ == (RequestView {
            method: sq_connect(),
            resource: target_text(target@),
            version: http11(),
            headers: seq![
                HeaderView { name: sq_host(), value: target_text(target@) },
                HeaderView { name: sq_proxy_protocol(), value: sq_udp() },
                HeaderView { name: sq_proxy_channel(), value: frame_channel@ },
            ],
        })),
        feature != Feature::TcpForward && feature != Feature::UdpForward ==> r == Err::<
            HttpRequest,
            ProxyError,
        >(ProxyError::UnsupportedFeature),
{
    match feature {
        Feature::TcpForward => {
            let req = HttpRequest::new(kw_connect(), target.display()).with_header(
                kw_host(),
                target.display(),
            );
            proof {
                assert(req@.headers =~= seq![
                    HeaderView { name: sq_host(), value: target_text(target@) },
                ]);
                assert(req@ =~= (RequestView {
                    method: sq_connect(),
                    resource: target_text(target@),
                    version: http11(),
                    headers: seq![HeaderView { name: sq_host(), value: target_text(target@) }],
                }));
            }
            Ok(req)
        },
        Feature::UdpForward => {
            let chan = subvec(frame_channel, 0, frame_channel.len());
            proof {
                assert(chan@ =~= frame_channel@);
            }
            let req = HttpRequest::new(kw_connect(), target.display()).with_header(
                kw_host(),
                target.display(),
            ).with_header(kw_proxy_protocol(), kw_udp()).with_header(kw_proxy_channel(), chan);
            proof {
                assert(req@.headers =~= seq![
                    HeaderView { name: sq_host(), value: target_text(target@) },
                    HeaderView { name: sq_proxy_protocol(), value: sq_udp() },
                    HeaderView { name: sq_proxy_channel(), value: frame_channel@ },
                ]);
                assert(req@ =~= (RequestView {
                    method: sq_connect(),
                    resource: target_text(target@),
                    version: http11(),
                    headers: seq![
                        HeaderView { name: sq_host(), value: target_text(target@) },
                        HeaderView { name: sq_proxy_protocol(), value: sq_udp() },
                        HeaderView { name: sq_proxy_channel(), value: frame_channel@ },
                    ],
                }));
            }
            Ok(req)
        },
        _ => Err(ProxyError::UnsupportedFeature),
    }
}

/// Client side of the CONNECT handshake: decide from the upstream response
/// how to wire the server side of the session.
///
/// Any response but `200` refuses the tunnel. For UDP the upstream names the
/// session in the `Session-Id` header (default `0`); a `Session-Id` that is
/// not a decimal 32-bit number is refused as an invalid protocol answer.
pub fn h11c_connect_decide(feature: Feature, resp: &HttpResponse, frame_channel: &[u8]) -> (r:
    Result<EgressAction, ProxyError>)
    ensures
        ({
            let sid = header_or(resp@.headers, sq_session_id(), sq_zero());
            &&& feature != Feature::TcpForward && feature != Feature::UdpForward ==> r == Err::<
                EgressAction,
                ProxyError,
            >(ProxyError::UnsupportedFeature)
            &&& (feature == Feature::TcpForward || feature == Feature::UdpForward) && resp@.code
                != 200 ==> r == Err::<EgressAction, ProxyError>(ProxyError::UpstreamRefused)
            &&& feature == Feature::TcpForward && resp@.code == 200 ==> r == Ok::<
                EgressAction,
                ProxyError,
            >(EgressAction::UseStream)
            &&& feature == Feature::UdpForward && resp@.code == 200 && is_dec_string(sid)
                && dec_value(sid) <= u32::MAX ==> r == Ok::<EgressAction, ProxyError>(
                EgressAction::UseFrames {
                    session_id: dec_value(sid) as u32,
                    inline: eq_ignore_case(frame_channel@, sq_inline()),
                },
            )
            &&& feature == Feature::UdpForward && resp@.code == 200 && !(is_dec_string(sid)
                && dec_value(sid) <= u32::MAX) ==> r == Err::<EgressAction, ProxyError>(
                ProxyError::InvalidProtocol,
            )
        }),
{
    match feature {
        Feature::TcpForward => {
            if resp.code != 200 {
                Err(ProxyError::UpstreamRefused)
            } else {
                Ok(EgressAction::UseStream)
            }
        },
        Feature::UdpForward => {
            if resp.code != 200 {
                return Err(ProxyError::UpstreamRefused);
            }
            let sid_name = kw_session_id();
            let zero = kw_zero();
            let sid_txt = resp.header(sid_name.as_slice(), zero.as_slice());
            let session_id = match parse_dec(sid_txt.as_slice(), u32::MAX) {
                Some(n) => n,
                None => {
                    return Err(ProxyError::InvalidProtocol);
                },
            };
            let inline_kw = kw_inline();
            let inline = bytes_eq_ignore_case(frame_channel, inline_kw.as_slice());
            Ok(EgressAction::UseFrames { session_id, inline })
        },
        _ => Err(ProxyError::UnsupportedFeature),
    }
}

} // verus!
