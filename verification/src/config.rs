//! Configuration checks: connector and listener entries.
//!
//! The configuration file itself is parsed outside the library; it hands in
//! one entry per listener or connector, as plain names. The library enforces
//! the rules: an entry's type defaults to its name, the connector name `deny`
//! is reserved, unknown types are refused, and duplicate connector names are
//! a configuration error.

use vstd::prelude::*;

use crate::ProxyError;
use crate::text::bytes_eq;

verus! {

/// The text `deny`.
pub open spec fn sq_deny() -> Seq<u8> {
    seq!['d' as u8, 'e' as u8, 'n' as u8, 'y' as u8]
}

/// Executable copy of [`sq_deny`].
pub fn kw_deny() -> (r: Vec<u8>)
    ensures
        r@ == sq_deny(),
{
    let r: Vec<u8> = vec!['d' as u8, 'e' as u8, 'n' as u8, 'y' as u8];
    proof {
        assert(r@ =~= sq_deny());
    }
    r
}

/// The text `direct`.
pub open spec fn sq_direct() -> Seq<u8> {
    seq!['d' as u8, 'i' as u8, 'r' as u8, 'e' as u8, 'c' as u8, 't' as u8]
}

/// Executable copy of [`sq_direct`].
pub fn kw_direct() -> (r: Vec<u8>)
    ensures
        r@ == sq_direct(),
{
    let r: Vec<u8> = vec!['d' as u8, 'i' as u8, 'r' as u8, 'e' as u8, 'c' as u8, 't' as u8];
    proof {
        assert(r@ =~= sq_direct());
    }
    r
}

/// The text `http`.
pub open spec fn sq_http() -> Seq<u8> {
    seq!['h' as u8, 't' as u8, 't' as u8, 'p' as u8]
}

/// Executable copy of [`sq_http`].
pub fn kw_http() -> (r: Vec<u8>)
    ensures
        r@ == sq_http(),
{
    let r: Vec<u8> = vec!['h' as u8, 't' as u8, 't' as u8, 'p' as u8];
    proof {
        assert(r@ =~= sq_http());
    }
    r
}

/// The text `socks`.
pub open spec fn sq_socks() -> Seq<u8> {
    seq!['s' as u8, 'o' as u8, 'c' as u8, 'k' as u8, 's' as u8]
}

/// Executable copy of [`sq_socks`].
pub fn kw_socks() -> (r: Vec<u8>)
    ensures
        r@ == sq_socks(),
{
    let r: Vec<u8> = vec!['s' as u8, 'o' as u8, 'c' as u8, 'k' as u8, 's' as u8];
    proof {
        assert(r@ =~= sq_socks());
    }
    r
}

/// The text `loadbalance`.
pub open spec fn sq_loadbalance() -> Seq<u8> {
    seq!['l' as u8, 'o' as u8, 'a' as u8, 'd' as u8, 'b' as u8, 'a' as u8, 'l' as u8, 'a' as u8, 'n' as u8, 'c' as u8, 'e' as u8]
}

/// Executable copy of [`sq_loadbalance`].
pub fn kw_loadbalance() -> (r: Vec<u8>)
    ensures
        r@ == sq_loadbalance(),
{
    let r: Vec<u8> = vec!['l' as u8, 'o' as u8, 'a' as u8, 'd' as u8, 'b' as u8, 'a' as u8, 'l' as u8, 'a' as u8, 'n' as u8, 'c' as u8, 'e' as u8];
    proof {
        assert(r@ =~= sq_loadbalance());
    }
    r
}

/// The text `quic`.
pub open spec fn sq_quic() -> Seq<u8> {
    seq!['q' as u8, 'u' as u8, 'i' as u8, 'c' as u8]
}

/// Executable copy of [`sq_quic`].
pub fn kw_quic() -> (r: Vec<u8>)
    ensures
        r@ == sq_quic(),
{
    let r: Vec<u8> = vec!['q' as u8, 'u' as u8, 'i' as u8, 'c' as u8];
    proof {
        assert(r@ =~= sq_quic());
    }
    r
}

/// One connector entry of the configuration: its name, and its type when the
/// configuration names one (the type defaults to the name).
#[derive(Debug, Clone, PartialEq, Eq)]
pub struct ConnectorEntry {
    pub name: Vec<u8>,
    pub kind: Option<Vec<u8>>,
}

/// The connector types this proxy knows.
#[derive(Debug, Clone, Copy, PartialEq, Eq, Structural)]
pub enum ConnectorKind {
    Direct,
    Http,
    Socks,
    LoadBalance,
    Quic,
}

/// A checked connector: a usable name and a known type.
#[derive(Debug, Clone, PartialEq, Eq)]
pub struct ConnectorConf {
    pub name: Vec<u8>,
    pub kind: ConnectorKind,
}

/// The connector type a type name denotes, if any.
pub open spec fn connector_kind_of(t: Seq<u8>) -> Option<ConnectorKind> {
    if t == sq_direct() {
        Some(ConnectorKind::Direct)
    } else if t == sq_http() {
        Some(ConnectorKind::Http)
    } else if t == sq_socks() {
        Some(ConnectorKind::Socks)
    } else if t == sq_loadbalance() {
        Some(ConnectorKind::LoadBalance)
    } else if t == sq_quic() {
        Some(ConnectorKind::Quic)
    } else {
        None
    }
}

/// The type name of an entry: the `type` key, or the entry's name without one.
pub open spec fn entry_type_text(e: ConnectorEntry) -> Seq<u8> {
    match e.kind {
        Some(k) => k@,
        None => e.name@,
    }
}

/// An acceptable connector entry: not the reserved name `deny`, and a type
/// this proxy knows.
pub open spec fn connector_entry_valid(e: ConnectorEntry) -> bool {
    e.name@ != sq_deny() && connector_kind_of(entry_type_text(e)) is Some
}

/// Check one connector entry: refuse the reserved name `deny` and unknown
/// types, both configuration errors.
pub fn from_value(entry: &ConnectorEntry) -> (r: Result<ConnectorConf, ProxyError>)
    ensures
        match r {
            Ok(c) => connector_entry_valid(*entry) && c.name@ == entry.name@ && connector_kind_of(
                entry_type_text(*entry),
            ) == Some(c.kind),
            Err(e) => !connector_entry_valid(*entry) && e == ProxyError::ConfigError,
        },
{
    let deny = kw_deny();
    if bytes_eq(entry.name.as_slice(), deny.as_slice()) {
        return Err(ProxyError::ConfigError);
    }
    let tname: &Vec<u8> = match &entry.kind {
        Some(k) => k,
        None => &entry.name,
    };
    let direct = kw_direct();
    let http = kw_http();
    let socks = kw_socks();
    let loadbalance = kw_loadbalance();
    let quic = kw_quic();
    let kind = if bytes_eq(tname.as_slice(), direct.as_slice()) {
        ConnectorKind::Direct
    } else if bytes_eq(tname.as_slice(), http.as_slice()) {
        ConnectorKind::Http
    } else if bytes_eq(tname.as_slice(), socks.as_slice()) {
        ConnectorKind::Socks
    } else if bytes_eq(tname.as_slice(), loadbalance.as_slice()) {
        ConnectorKind::LoadBalance
    } else if bytes_eq(tname.as_slice(), quic.as_slice()) {
        ConnectorKind::Quic
    } else {
        return Err(ProxyError::ConfigError);
    };
    let name = crate::text::subvec(entry.name.as_slice(), 0, entry.name.len());
    proof {
        assert(name@ =~= entry.name@);
    }
    Ok(ConnectorConf { name, kind })
}

/// Some entry among the first `upto` has this name.
pub open spec fn name_among(entries: Seq<ConnectorEntry>, upto: int, name: Seq<u8>) -> bool {
    exists|j: int| 0 <= j < upto && (#[trigger] entries[j]).name@ == name
}

/// Whether any of the first `upto` entries is named `name`.
fn name_in_prefix(entries: &Vec<ConnectorEntry>, upto: usize, name: &[u8]) -> (r: bool)
    requires
        upto <= entries@.len(),
    ensures
        r == name_among(entries@, upto as int, name@),
{
    let mut j: usize = 0;
    while j < upto
        invariant
            j <= upto <= entries@.len(),
            forall|k: int| 0 <= k < j ==> (#[trigger] entries@[k]).name@ != name@,
        decreases upto - j,
    {
        if bytes_eq(entries[j].name.as_slice(), name) {
            assert(name_among(entries@, upto as int, name@));
            return true;
        }
        j += 1;
    }
    proof {
        if name_among(entries@, upto as int, name@) {
            let k = choose|k: int| 0 <= k < upto && (#[trigger] entries@[k]).name@ == name@;
            assert(entries@[k].name@ != name@);
        }
    }
    false
}

/// Load the connector section: every entry checked, and duplicate connector
/// names refused. Succeeds exactly when every entry is acceptable and the
/// names are pairwise distinct; in particular, any configuration with a
/// duplicate connector name is a configuration error.
pub fn from_config(entries: &Vec<ConnectorEntry>) -> (r: Result<Vec<ConnectorConf>, ProxyError>)
    ensures
        match r {
            Ok(cs) => {
                &&& forall|i: int|
                    0 <= i < entries@.len() ==> connector_entry_valid(#[trigger] entries@[i])
                &&& forall|i: int, j: int|
                    0 <= i < j < entries@.len() ==> entries@[i].name@ != entries@[j].name@
                &&& cs@.len() == entries@.len()
                &&& forall|i: int|
                    0 <= i < entries@.len() ==> (#[trigger] cs@[i]).name@ == entries@[i].name@
                        && connector_kind_of(entry_type_text(entries@[i])) == Some(cs@[i].kind)
            },
            Err(e) => {
                &&& e == ProxyError::ConfigError
                &&& !((forall|i: int|
                    0 <= i < entries@.len() ==> connector_entry_valid(#[trigger] entries@[i]))
                    && (forall|i: int, j: int|
                    0 <= i < j < entries@.len() ==> entries@[i].name@ != entries@[j].name@))
            },
        },
        (exists|i: int, j: int|
            0 <= i < j < entries@.len() && entries@[i].name@ == entries@[j].name@) ==> r
            == Err::<Vec<ConnectorConf>, ProxyError>(ProxyError::ConfigError),
{
    let mut cs: Vec<ConnectorConf> = Vec::new();
    let mut i: usize = 0;
    while i < entries.len()
        invariant
            i <= entries@.len(),
            cs@.len() == i,
            forall|k: int| 0 <= k < i ==> connector_entry_valid(#[trigger] entries@[k]),
            forall|k: int, l: int| 0 <= k < l < i ==> entries@[k].name@ != entries@[l].name@,
            forall|k: int|
                0 <= k < i ==> (#[trigger] cs@[k]).name@ == entries@[k].name@ && connector_kind_of(
                    entry_type_text(entries@[k]),
                ) == Some(cs@[k].kind),
        decreases entries@.len() - i,
    {
        if name_in_prefix(entries, i, entries[i].name.as_slice()) {
            return Err(ProxyError::ConfigError);
        }
        match from_value(&entries[i]) {
            Ok(c) => {
                cs.push(c);
            },
            Err(_) => {
                return Err(ProxyError::ConfigError);
            },
        }
        i += 1;
    }
    Ok(cs)
}

/// One listener entry of the configuration: name, and type when named.
#[derive(Debug, Clone, PartialEq, Eq)]
pub struct ListenerEntry {
    pub name: Vec<u8>,
    pub kind: Option<Vec<u8>>,
}

/// The listener types this proxy knows.
#[derive(Debug, Clone, Copy, PartialEq, Eq, Structural)]
pub enum ListenerKind {
    Http,
    Quic,
}

/// The listener type a type name denotes, if any.
pub open spec fn listener_kind_of(t: Seq<u8>) -> Option<ListenerKind> {
    if t == sq_http() {
        Some(ListenerKind::Http)
    } else if t == sq_quic() {
        Some(ListenerKind::Quic)
    } else {
        None
    }
}

/// The type name of a listener entry: the `type` key, or the name without one.
pub open spec fn listener_type_text(e: ListenerEntry) -> Seq<u8> {
    match e.kind {
        Some(k) => k@,
        None => e.name@,
    }
}

/// Check one listener entry: an unknown type is a configuration error.
pub fn listener_from_value(entry: &ListenerEntry) -> (r: Result<ListenerKind, ProxyError>)
    ensures
        match r {
            Ok(k) => listener_kind_of(listener_type_text(*entry)) == Some(k),
            Err(e) => listener_kind_of(listener_type_text(*entry)) is None && e
                == ProxyError::ConfigError,
        },
{
    let tname: &Vec<u8> = match &entry.kind {
        Some(k) => k,
        None => &entry.name,
    };
    let http = kw_http();
    let quic = kw_quic();
    if bytes_eq(tname.as_slice(), http.as_slice()) {
        Ok(ListenerKind::Http)
    } else if bytes_eq(tname.as_slice(), quic.as_slice()) {
        Ok(ListenerKind::Quic)
    } else {
        Err(ProxyError::ConfigError)
    }
}

/// A listener that accepts TCP connections, optionally under TLS, and runs
/// the CONNECT handshake on each. The TLS material itself lives outside the
/// library.
#[derive(Debug, Clone, PartialEq, Eq)]
pub struct HttpListener {
    /// The listener's name, as rules see it.
    pub name: Vec<u8>,
    /// The `address:port` to bind.
    pub bind: Vec<u8>,
    /// Whether accepted connections are wrapped in TLS.
    pub tls: bool,
}

impl HttpListener {
    /// The listener's name.
    pub fn name(&self) -> (r: &Vec<u8>)
        ensures
            r@ == self.name@,
    {
        &self.name
    }
}

/// A listener that accepts QUIC connections: each bi-directional stream runs
/// the CONNECT handshake, and datagrams carry the sessions' frames.
#[derive(Debug, Clone, PartialEq, Eq)]
pub struct QuicListener {
    /// The listener's name, as rules see it.
    pub name: Vec<u8>,
    /// The `address:port` to bind.
    pub bind: Vec<u8>,
    /// Whether the BBR congestion controller is used.
    pub bbr: bool,
}

impl QuicListener {
    /// The listener's name.
    pub fn name(&self) -> (r: &Vec<u8>)
        ensures
            r@ == self.name@,
    {
        &self.name
    }
}

/// Whether a QUIC listener uses BBR when the configuration does not say:
/// it does.
pub fn default_bbr() -> (r: bool)
    ensures
        r == true,
{
    true
}

} // verus!
