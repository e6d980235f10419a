//! Verified core of a multi-protocol forward proxy.
//!
//! The library models the lifecycle of one proxied session: the HTTP/1.1
//! CONNECT handshake on both the ingress and the egress side, the per-session
//! `Context` state machine with its at-most-once callbacks, the length-prefixed
//! frame format used for UDP-over-CONNECT sessions, the rule-driven dispatcher
//! that picks the first matching connector, and the configuration checks that
//! reject duplicate or reserved connector names.
//!
//! All I/O (socket handling, TLS, the async runtime) lives outside the
//! library; it hands plain values in and takes plain values back.

use vstd::prelude::*;

pub mod addr;
pub mod config;
pub mod context;
pub mod frames;
pub mod handshake;
pub mod http;
pub mod rules;
pub mod text;

verus! {

/// Error kinds of the proxy core. Errors are plain values: the surrounding
/// program turns them into its own chained error type when it reports them.
#[derive(Debug, Clone, Copy, PartialEq, Eq, Structural)]
pub enum ProxyError {
    /// Configuration is rejected: duplicate name, reserved name, unknown type,
    /// or a rule whose target no connector provides.
    ConfigError,
    /// A listener could not bind its socket.
    BindError,
    /// A listener failed while accepting a connection.
    AcceptError,
    /// TLS setup or handshake failure.
    TlsError,
    /// The ingress request was not a CONNECT request.
    InvalidMethod,
    /// The CONNECT resource could not be parsed as a target address.
    InvalidTarget,
    /// The `Proxy-Protocol` header named an unknown protocol.
    InvalidProtocol,
    /// The upstream proxy answered the egress CONNECT with a non-200 code.
    UpstreamRefused,
    /// The session's feature is not supported by the handshake in use.
    UnsupportedFeature,
    /// No rule matched the session.
    NoMatchingRule,
    /// The chosen connector does not support the session's feature.
    FeatureUnsupported,
    /// A read, write or flush on a transport failed.
    TransportError,
    /// A rule predicate failed to evaluate.
    EvalError,
}

} // verus!
