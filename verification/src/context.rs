//! Per-session state: the `Context`, its lifecycle, and session identifiers.
//!
//! A `Context` is created by a listener, completes the ingress handshake, is
//! dispatched to a connector, and ends connected or failed. The ghost trace of
//! lifecycle states proves that the two completion callbacks — connect and
//! error — fire at most once each and never both.

use vstd::prelude::*;

use crate::addr::{target_text, TargetAddress, TargetView};
use crate::text::copy_u16s;

verus! {

/// What kind of traffic a session carries.
#[derive(Debug, Clone, Copy, PartialEq, Eq, Structural)]
pub enum Feature {
    TcpForward,
    TcpBind,
    UdpForward,
    UdpBind,
}

impl Default for Feature {
    /// The default feature is plain TCP forwarding.
    fn default() -> (r: Self)
        ensures
            r == Feature::TcpForward,
    {
        Feature::TcpForward
    }
}

/// One end of an IP transport: address and port.
#[derive(Debug, Clone, PartialEq, Eq)]
pub enum IpAddress {
    /// Four octets.
    V4 { a: u8, b: u8, c: u8, d: u8 },
    /// Eight 16-bit groups.
    V6 { groups: Vec<u16> },
}

impl IpAddress {
    /// An IPv6 address has exactly eight groups.
    pub open spec fn wf(&self) -> bool {
        match self {
            IpAddress::V6 { groups } => groups@.len() == 8,
            _ => true,
        }
    }

    /// This is an IPv4-mapped IPv6 address `::ffff:a.b.c.d`.
    pub open spec fn is_v4_mapped(&self) -> bool {
        match self {
            IpAddress::V6 { groups } => groups@.len() == 8 && groups@[0] == 0 && groups@[1] == 0
                && groups@[2] == 0 && groups@[3] == 0 && groups@[4] == 0 && groups@[5] == 0xffffu16,
            _ => false,
        }
    }
}

/// A socket address: IP address plus port.
#[derive(Debug, Clone, PartialEq, Eq)]
pub struct SockAddr {
    pub ip: IpAddress,
    pub port: u16,
}

impl SockAddr {
    pub open spec fn wf(&self) -> bool {
        self.ip.wf()
    }
}

/// A copy of an IP address with the same value.
fn copy_ip(ip: &IpAddress) -> (r: IpAddress)
    ensures
        match (r, ip) {
            (IpAddress::V4 { a, b, c, d }, IpAddress::V4 { a: a2, b: b2, c: c2, d: d2 }) => a == a2
                && b == b2 && c == c2 && d == d2,
            (IpAddress::V6 { groups }, IpAddress::V6 { groups: g2 }) => groups@ == g2@,
            _ => false,
        },
{
    match ip {
        IpAddress::V4 { a, b, c, d } => IpAddress::V4 { a: *a, b: *b, c: *c, d: *d },
        IpAddress::V6 { groups } => IpAddress::V6 { groups: copy_u16s(groups.as_slice()) },
    }
}

/// The socket address seen as a displayable host and port.
pub open spec fn sock_view(sa: SockAddr) -> TargetView {
    match sa.ip {
        IpAddress::V4 { a, b, c, d } => TargetView::V4 { a, b, c, d, port: sa.port },
        IpAddress::V6 { groups } => TargetView::V6 { groups: groups@, port: sa.port },
    }
}

impl SockAddr {
    /// The address as a target value, for display and rule evaluation.
    pub fn to_target(&self) -> (r: TargetAddress)
        requires
            self.wf(),
        ensures
            r@ == sock_view(*self),
            r.wf(),
    {
        match &self.ip {
            IpAddress::V4 { a, b, c, d } => TargetAddress::V4 {
                a: *a,
                b: *b,
                c: *c,
                d: *d,
                port: self.port,
            },
            IpAddress::V6 { groups } => TargetAddress::V6 {
                groups: copy_u16s(groups.as_slice()),
                port: self.port,
            },
        }
    }

    /// Canonical `host:port` text of the address, IPv6 bracketed.
    pub fn display(&self) -> (r: Vec<u8>)
        requires
            self.wf(),
        ensures
            r@ == target_text(sock_view(*self)),
    {
        self.to_target().display()
    }
}

/// Normalize an IPv4-mapped IPv6 address to the IPv4 address it carries;
/// leave every other address unchanged.
pub fn try_map_v4_addr(sa: SockAddr) -> (r: SockAddr)
    requires
        sa.wf(),
    ensures
        r.wf(),
        r.port == sa.port,
        sa.ip.is_v4_mapped() ==> match (r.ip, sa.ip) {
            (IpAddress::V4 { a, b, c, d }, IpAddress::V6 { groups }) => {
                &&& a == groups@[6] / 256
                &&& b == groups@[6] % 256
                &&& c == groups@[7] / 256
                &&& d == groups@[7] % 256
            },
            _ => false,
        },
        !sa.ip.is_v4_mapped() ==> r == sa,
{
    match &sa.ip {
        IpAddress::V6 { groups } => {
            if groups[0] == 0 && groups[1] == 0 && groups[2] == 0 && groups[3] == 0 && groups[4]
                == 0 && groups[5] == 0xffff {
                let g6 = groups[6];
                let g7 = groups[7];
                SockAddr {
                    ip: IpAddress::V4 {
                        a: (g6 / 256) as u8,
                        b: (g6 % 256) as u8,
                        c: (g7 / 256) as u8,
                        d: (g7 % 256) as u8,
                    },
                    port: sa.port,
                }
            } else {
                sa
            }
        },
        _ => sa,
    }
}

/// Allocator of process-unique identifiers: a monotonic counter together with
/// the ghost history of everything it has issued.
pub struct IdGen {
    /// The next identifier to issue.
    pub next: u32,
    /// Every identifier issued so far, in order of issue.
    pub issued: Ghost<Seq<u32>>,
}

impl IdGen {
    /// Issued identifiers are strictly increasing and below `next`.
    pub open spec fn wf(&self) -> bool {
        &&& forall|i: int| 0 <= i < self.issued@.len() ==> #[trigger] self.issued@[i] < self.next
        &&& forall|i: int, j: int|
            0 <= i < j < self.issued@.len() ==> self.issued@[i] < self.issued@[j]
    }

    /// A fresh allocator that has issued nothing.
    pub fn new() -> (r: Self)
        ensures
            r.wf(),
            r.issued@.len() == 0,
            r.next == 0,
    {
        IdGen { next: 0, issued: Ghost(Seq::empty()) }
    }

    /// Issue the next identifier: different from everything issued before.
    pub fn fresh(&mut self) -> (id: u32)
        requires
            old(self).wf(),
            old(self).next < u32::MAX,
        ensures
            final(self).wf(),
            id == old(self).next,
            final(self).next == old(self).next + 1,
            final(self).issued@ == old(self).issued@.push(id),
            forall|i: int| 0 <= i < old(self).issued@.len() ==> #[trigger] old(self).issued@[i] != id,
    {
        let id = self.next;
        self.next = self.next + 1;
        proof {
            self.issued@ = self.issued@.push(id);
        }
        id
    }
}

/// Identifiers issued by one allocator are pairwise distinct: uniqueness of
/// session ids over any finite run.
pub proof fn lemma_ids_distinct(g: IdGen)
    requires
        g.wf(),
    ensures
        forall|i: int, j: int|
            0 <= i < g.issued@.len() && 0 <= j < g.issued@.len() && i != j ==> g.issued@[i]
                != g.issued@[j],
{
}

/// The lifecycle states of a session.
#[derive(Debug, Clone, Copy, PartialEq, Eq, Structural)]
pub enum Lifecycle {
    /// Created by a listener; the ingress handshake has not finished.
    Created,
    /// The ingress handshake succeeded; waiting in the dispatch queue.
    HandshakeComplete,
    /// Received by the dispatcher; a connector is working on it.
    Dispatched,
    /// The connector succeeded and the connect callback fired.
    Connected,
    /// The connector failed and the error callback fired.
    Failed,
    /// Both sides are closed.
    Terminal,
}

/// The allowed lifecycle transitions.
pub open spec fn lifecycle_step(a: Lifecycle, b: Lifecycle) -> bool {
    match (a, b) {
        (Lifecycle::Created, Lifecycle::HandshakeComplete) => true,
        (Lifecycle::HandshakeComplete, Lifecycle::Dispatched) => true,
        (Lifecycle::Dispatched, Lifecycle::Connected) => true,
        (Lifecycle::Dispatched, Lifecycle::Failed) => true,
        (Lifecycle::Connected, Lifecycle::Terminal) => true,
        (Lifecycle::Failed, Lifecycle::Terminal) => true,
        _ => false,
    }
}

/// A lifecycle history: starts at `Created`, every move is an allowed step.
pub open spec fn is_trace(t: Seq<Lifecycle>) -> bool {
    &&& t.len() > 0
    &&& t[0] == Lifecycle::Created
    &&& forall|i: int| 0 <= i < t.len() - 1 ==> lifecycle_step(#[trigger] t[i], t[i + 1])
}

/// Position in the lifecycle order.
pub open spec fn lifecycle_rank(s: Lifecycle) -> int {
    match s {
        Lifecycle::Created => 0,
        Lifecycle::HandshakeComplete => 1,
        Lifecycle::Dispatched => 2,
        Lifecycle::Connected => 3,
        Lifecycle::Failed => 3,
        Lifecycle::Terminal => 4,
    }
}

/// The connect callback fires at move `i` of the trace.
pub open spec fn connect_fires(t: Seq<Lifecycle>, i: int) -> bool {
    0 <= i < t.len() - 1 && t[i] == Lifecycle::Dispatched && t[i + 1] == Lifecycle::Connected
}

/// The error callback fires at move `i` of the trace.
pub open spec fn error_fires(t: Seq<Lifecycle>, i: int) -> bool {
    0 <= i < t.len() - 1 && t[i] == Lifecycle::Dispatched && t[i + 1] == Lifecycle::Failed
}

/// In a trace, the state at position `i` has rank `i`: the lifecycle never
/// revisits a state.
pub proof fn lemma_trace_rank(t: Seq<Lifecycle>, i: int)
    requires
        is_trace(t),
        0 <= i < t.len(),
    ensures
        lifecycle_rank(t[i]) == i,
    decreases i,
{
    if i > 0 {
        lemma_trace_rank(t, i - 1);
        assert(lifecycle_step(t[i - 1], t[i]));
    }
}

/// The connect and error callbacks together fire at most once in any session:
/// any two firing moves are the same move.
pub proof fn lemma_callbacks_at_most_once(t: Seq<Lifecycle>, i: int, j: int)
    requires
        is_trace(t),
        connect_fires(t, i) || error_fires(t, i),
        connect_fires(t, j) || error_fires(t, j),
    ensures
        i == j,
{
    lemma_trace_rank(t, i);
    lemma_trace_rank(t, j);
}

/// The connect and error callbacks are mutually exclusive: no session fires
/// both.
pub proof fn lemma_callbacks_exclusive(t: Seq<Lifecycle>, i: int, j: int)
    requires
        is_trace(t),
        connect_fires(t, i),
    ensures
        !error_fires(t, j),
{
    if error_fires(t, j) {
        lemma_callbacks_at_most_once(t, i, j);
        assert(t[i + 1] == Lifecycle::Connected && t[i + 1] == Lifecycle::Failed);
    }
}

/// For every session: over its whole history, the connect and error
/// callbacks together fire at most once — two firings are the same move —
/// and they are mutually exclusive.
pub proof fn lemma_context_callbacks(ctx: Context, i: int, j: int)
    requires
        ctx.wf(),
        connect_fires(ctx.history@, i) || error_fires(ctx.history@, i),
        connect_fires(ctx.history@, j) || error_fires(ctx.history@, j),
    ensures
        i == j,
        connect_fires(ctx.history@, i) ==> !error_fires(ctx.history@, j),
{
    lemma_callbacks_at_most_once(ctx.history@, i, j);
    if connect_fires(ctx.history@, i) {
        lemma_callbacks_exclusive(ctx.history@, i, j);
    }
}

/// Which transport object a side of the session holds.
#[derive(Debug, Clone, Copy, PartialEq, Eq, Structural)]
pub enum SideState {
    /// Nothing installed yet.
    Empty,
    /// A buffered byte stream.
    Stream,
    /// A frame endpoint for datagrams.
    Frames,
}

/// The completion callback installed by the ingress handshake.
#[derive(Debug, Clone, Copy, PartialEq, Eq, Structural)]
pub enum CallbackKind {
    /// Plain CONNECT: answer `200 Connection established`.
    TcpConnect,
    /// UDP-over-CONNECT: answer `200` with a `Session-Id` header; when
    /// `inline`, reframe the client stream as length-prefixed datagrams.
    FrameChannel { session_id: u32, inline: bool },
}

/// The immutable snapshot of a session that rule predicates see.
#[derive(Debug, Clone, PartialEq, Eq)]
pub struct ContextProps {
    pub id: u32,
    pub listener: Vec<u8>,
    pub source: SockAddr,
    pub target: Option<TargetAddress>,
}

impl ContextProps {
    pub open spec fn wf(&self) -> bool {
        &&& self.source.wf()
        &&& match self.target {
            Some(t) => t.wf(),
            None => true,
        }
    }
}

/// The per-session state object, threaded from listener through dispatcher to
/// connector. Its ghost `history` records every lifecycle state it has been
/// in, so the at-most-once callback lemmas apply to every `Context`.
pub struct Context {
    pub id: u32,
    pub listener: Vec<u8>,
    pub source: SockAddr,
    pub local_addr: Option<SockAddr>,
    pub server_addr: Option<SockAddr>,
    pub target: Option<TargetAddress>,
    pub feature: Feature,
    pub lifecycle: Lifecycle,
    pub client: SideState,
    pub server: SideState,
    pub callback: Option<CallbackKind>,
    /// Every lifecycle state this session has been in, in order.
    pub history: Ghost<Seq<Lifecycle>>,
}

impl Context {
    /// Callback kind and feature agree: a plain CONNECT callback serves TCP
    /// forwarding, a frame-channel callback serves UDP forwarding.
    pub open spec fn callback_consistent(&self) -> bool {
        match self.callback {
            Some(CallbackKind::TcpConnect) => self.feature == Feature::TcpForward,
            Some(CallbackKind::FrameChannel { .. }) => self.feature == Feature::UdpForward,
            None => false,
        }
    }

    /// Session invariant, preserved by every transition.
    pub open spec fn wf(&self) -> bool {
        &&& is_trace(self.history@)
        &&& self.history@.last() == self.lifecycle
        &&& self.source.wf()
        &&& match self.target {
            Some(t) => t.wf(),
            None => true,
        }
        &&& match self.local_addr {
            Some(a) => a.wf(),
            None => true,
        }
        &&& match self.server_addr {
            Some(a) => a.wf(),
            None => true,
        }
        &&& self.lifecycle != Lifecycle::Created ==> {
            &&& self.callback_consistent()
            &&& self.target is Some
            &&& self.client != SideState::Empty
        }
        &&& self.lifecycle == Lifecycle::Connected ==> {
            &&& self.feature == Feature::TcpForward ==> self.client == SideState::Stream
                && self.server == SideState::Stream
            &&& self.feature == Feature::UdpForward ==> self.client == SideState::Frames
                && self.server == SideState::Frames
        }
    }

    /// A new session produced by listener `listener` for a client at `source`,
    /// with a fresh id.
    pub fn new(listener: Vec<u8>, source: SockAddr, gen: &mut IdGen) -> (r: Self)
        requires
            old(gen).wf(),
            old(gen).next < u32::MAX,
            source.wf(),
        ensures
            final(gen).wf(),
            final(gen).issued@ == old(gen).issued@.push(r.id),
            r.wf(),
            r.id == old(gen).next,
            r.listener@ == listener@,
            r.source == source,
            r.lifecycle == Lifecycle::Created,
            r.client == SideState::Empty,
            r.server == SideState::Empty,
            r.target is None,
            r.callback is None,
            r.feature == Feature::TcpForward,
            r.history@ == seq![Lifecycle::Created],
    {
        let id = gen.fresh();
        Context {
            id,
            listener,
            source,
            local_addr: None,
            server_addr: None,
            target: None,
            feature: Feature::TcpForward,
            lifecycle: Lifecycle::Created,
            client: SideState::Empty,
            server: SideState::Empty,
            callback: None,
            history: Ghost(Seq::empty().push(Lifecycle::Created)),
        }
    }

    /// Install the accepted client connection as the client stream.
    pub fn set_client_stream(&mut self)
        requires
            old(self).wf(),
            old(self).lifecycle == Lifecycle::Created,
        ensures
            final(self).wf(),
            *final(self) == (Context { client: SideState::Stream, ..*old(self) }),
    {
        self.client = SideState::Stream;
    }

    /// Record a successful ingress handshake: target, feature and callback are
    /// set and the session is ready for the dispatch queue.
    ///
    /// For a frame channel over a separate transport (`inline == false`) the
    /// client side becomes the already-installed frame endpoint; otherwise the
    /// client stream stays in place.
    pub fn complete_handshake(
        &mut self,
        target: TargetAddress,
        feature: Feature,
        callback: CallbackKind,
    )
        requires
            old(self).wf(),
            old(self).lifecycle == Lifecycle::Created,
            old(self).client == SideState::Stream,
            target.wf(),
            match callback {
                CallbackKind::TcpConnect => feature == Feature::TcpForward,
                CallbackKind::FrameChannel { .. } => feature == Feature::UdpForward,
            },
        ensures
            final(self).wf(),
            *final(self) == (Context {
                lifecycle: Lifecycle::HandshakeComplete,
                target: Some(target),
                feature,
                callback: Some(callback),
                client: final(self).client,
                history: final(self).history,
                ..*old(self)
            }),
            final(self).client == (match callback {
                CallbackKind::FrameChannel { inline: false, .. } => SideState::Frames,
                _ => SideState::Stream,
            }),
            final(self).history@ == old(self).history@.push(Lifecycle::HandshakeComplete),
    {
        self.target = Some(target);
        self.feature = feature;
        match callback {
            CallbackKind::FrameChannel { inline: false, .. } => {
                self.client = SideState::Frames;
            },
            _ => {},
        }
        self.callback = Some(callback);
        self.lifecycle = Lifecycle::HandshakeComplete;
        proof {
            self.history@ = self.history@.push(Lifecycle::HandshakeComplete);
        }
    }

    /// The dispatcher has received the session from the queue.
    pub fn mark_dispatched(&mut self)
        requires
            old(self).wf(),
            old(self).lifecycle == Lifecycle::HandshakeComplete,
        ensures
            final(self).wf(),
            *final(self) == (Context {
                lifecycle: Lifecycle::Dispatched,
                history: final(self).history,
                ..*old(self)
            }),
            final(self).history@ == old(self).history@.push(Lifecycle::Dispatched),
    {
        self.lifecycle = Lifecycle::Dispatched;
        proof {
            self.history@ = self.history@.push(Lifecycle::Dispatched);
        }
    }

    /// The connector dialed upstream over TCP: record the stream and the
    /// socket addresses.
    pub fn set_server_stream(&mut self, local: SockAddr, remote: SockAddr)
        requires
            old(self).wf(),
            old(self).lifecycle == Lifecycle::Dispatched,
            old(self).feature == Feature::TcpForward,
            local.wf(),
            remote.wf(),
        ensures
            final(self).wf(),
            *final(self) == (Context {
                server: SideState::Stream,
                local_addr: Some(local),
                server_addr: Some(remote),
                ..*old(self)
            }),
    {
        self.server = SideState::Stream;
        self.local_addr = Some(local);
        self.server_addr = Some(remote);
    }

    /// The connector set up an upstream frame channel: record the frame
    /// endpoint and the socket addresses.
    pub fn set_server_frames(&mut self, local: SockAddr, remote: SockAddr)
        requires
            old(self).wf(),
            old(self).lifecycle == Lifecycle::Dispatched,
            old(self).feature == Feature::UdpForward,
            local.wf(),
            remote.wf(),
        ensures
            final(self).wf(),
            *final(self) == (Context {
                server: SideState::Frames,
                local_addr: Some(local),
                server_addr: Some(remote),
                ..*old(self)
            }),
    {
        self.server = SideState::Frames;
        self.local_addr = Some(local);
        self.server_addr = Some(remote);
    }

    /// The connect callback fires: the session is connected. For a UDP session
    /// the client stream is taken over by the frame layer.
    ///
    /// It can only fire on a dispatched session, so it fires at most once, and
    /// a session that has fired the error callback can never fire it.
    pub fn fire_connect(&mut self)
        requires
            old(self).wf(),
            old(self).lifecycle == Lifecycle::Dispatched,
            old(self).feature == Feature::TcpForward || old(self).feature == Feature::UdpForward,
            old(self).feature == Feature::TcpForward ==> old(self).server == SideState::Stream
                && old(self).client == SideState::Stream,
            old(self).feature == Feature::UdpForward ==> old(self).server == SideState::Frames,
        ensures
            final(self).wf(),
            final(self).lifecycle == Lifecycle::Connected,
            final(self).history@ == old(self).history@.push(Lifecycle::Connected),
            connect_fires(final(self).history@, old(self).history@.len() - 1),
    {
        match self.feature {
            Feature::UdpForward => {
                self.client = SideState::Frames;
            },
            _ => {},
        }
        self.lifecycle = Lifecycle::Connected;
        proof {
            self.history@ = self.history@.push(Lifecycle::Connected);
        }
    }

    /// The error callback fires: the session has failed.
    ///
    /// It can only fire on a dispatched session, so it fires at most once, and
    /// a session that has fired the connect callback can never fire it.
    pub fn fire_error(&mut self)
        requires
            old(self).wf(),
            old(self).lifecycle == Lifecycle::Dispatched,
        ensures
            final(self).wf(),
            final(self).lifecycle == Lifecycle::Failed,
            final(self).history@ == old(self).history@.push(Lifecycle::Failed),
            error_fires(final(self).history@, old(self).history@.len() - 1),
    {
        self.lifecycle = Lifecycle::Failed;
        proof {
            self.history@ = self.history@.push(Lifecycle::Failed);
        }
    }

    /// The immutable snapshot rule predicates evaluate against: id, listener,
    /// client address and target of the session.
    pub fn props(&self) -> (r: ContextProps)
        requires
            self.wf(),
        ensures
            r.wf(),
            r.id == self.id,
            r.listener@ == self.listener@,
            sock_view(r.source) == sock_view(self.source),
            match (r.target, self.target) {
                (Some(a), Some(b)) => a@ == b@,
                (None, None) => true,
                _ => false,
            },
    {
        let listener = crate::text::subvec(self.listener.as_slice(), 0, self.listener.len());
        proof {
            assert(listener@ =~= self.listener@);
        }
        let source = SockAddr { ip: copy_ip(&self.source.ip), port: self.source.port };
        let target = match &self.target {
            Some(t) => Some(t.duplicate()),
            None => None,
        };
        ContextProps { id: self.id, listener, source, target }
    }

    /// Both sides are closed; the session is over.
    pub fn finish(&mut self)
        requires
            old(self).wf(),
            old(self).lifecycle == Lifecycle::Connected || old(self).lifecycle
                == Lifecycle::Failed,
        ensures
            final(self).wf(),
            final(self).lifecycle == Lifecycle::Terminal,
            final(self).history@ == old(self).history@.push(Lifecycle::Terminal),
    {
        self.lifecycle = Lifecycle::Terminal;
        proof {
            self.history@ = self.history@.push(Lifecycle::Terminal);
        }
    }
}

} // verus!
