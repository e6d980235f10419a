//! The rule-driven dispatcher and the expression bridge.
//!
//! Rules pair a predicate expression with a connector name and are evaluated
//! in declaration order; the first rule whose predicate holds wins. The
//! expression evaluator itself is outside the library: it receives the
//! predicate results through plain values. The bridge exposes the session
//! snapshot — listener, source, target — to predicates, and `cidr_match`
//! decides whether an address written as text lies in a CIDR block, returning
//! false instead of failing on any malformed input.

use vstd::prelude::*;

use crate::ProxyError;
use crate::addr::{
    find_first, lemma_find_first_is, parse_v4_host, parse_v4_host_spec, parse_v6_host,
    parse_v6_host_exec, target_host_text, target_text, TargetAddress, TargetView,
};
use crate::context::{ContextProps, Feature};
use crate::text::{
    bytes_eq, dec_value, find_byte, is_dec_string, parse_dec, subvec,
};

verus! {

/// The text `listener`.
pub open spec fn sq_listener() -> Seq<u8> {
    seq!['l' as u8, 'i' as u8, 's' as u8, 't' as u8, 'e' as u8, 'n' as u8, 'e' as u8, 'r' as u8]
}

/// Executable copy of [`sq_listener`].
pub fn kw_listener() -> (r: Vec<u8>)
    ensures
        r@ == sq_listener(),
{
    let r: Vec<u8> = vec!['l' as u8, 'i' as u8, 's' as u8, 't' as u8, 'e' as u8, 'n' as u8, 'e' as u8, 'r' as u8];
    proof {
        assert(r@ =~= sq_listener());
    }
    r
}

/// The text `source`.
pub open spec fn sq_source() -> Seq<u8> {
    seq!['s' as u8, 'o' as u8, 'u' as u8, 'r' as u8, 'c' as u8, 'e' as u8]
}

/// Executable copy of [`sq_source`].
pub fn kw_source() -> (r: Vec<u8>)
    ensures
        r@ == sq_source(),
{
    let r: Vec<u8> = vec!['s' as u8, 'o' as u8, 'u' as u8, 'r' as u8, 'c' as u8, 'e' as u8];
    proof {
        assert(r@ =~= sq_source());
    }
    r
}

/// The text `target`.
pub open spec fn sq_target() -> Seq<u8> {
    seq!['t' as u8, 'a' as u8, 'r' as u8, 'g' as u8, 'e' as u8, 't' as u8]
}

/// Executable copy of [`sq_target`].
pub fn kw_target() -> (r: Vec<u8>)
    ensures
        r@ == sq_target(),
{
    let r: Vec<u8> = vec!['t' as u8, 'a' as u8, 'r' as u8, 'g' as u8, 'e' as u8, 't' as u8];
    proof {
        assert(r@ =~= sq_target());
    }
    r
}

/// The text `host`.
pub open spec fn sq_prop_host() -> Seq<u8> {
    seq!['h' as u8, 'o' as u8, 's' as u8, 't' as u8]
}

/// Executable copy of [`sq_prop_host`].
pub fn kw_prop_host() -> (r: Vec<u8>)
    ensures
        r@ == sq_prop_host(),
{
    let r: Vec<u8> = vec!['h' as u8, 'o' as u8, 's' as u8, 't' as u8];
    proof {
        assert(r@ =~= sq_prop_host());
    }
    r
}

/// The text `port`.
pub open spec fn sq_prop_port() -> Seq<u8> {
    seq!['p' as u8, 'o' as u8, 'r' as u8, 't' as u8]
}

/// Executable copy of [`sq_prop_port`].
pub fn kw_prop_port() -> (r: Vec<u8>)
    ensures
        r@ == sq_prop_port(),
{
    let r: Vec<u8> = vec!['p' as u8, 'o' as u8, 'r' as u8, 't' as u8];
    proof {
        assert(r@ =~= sq_prop_port());
    }
    r
}

/// The text `type`.
pub open spec fn sq_prop_type() -> Seq<u8> {
    seq!['t' as u8, 'y' as u8, 'p' as u8, 'e' as u8]
}

/// Executable copy of [`sq_prop_type`].
pub fn kw_prop_type() -> (r: Vec<u8>)
    ensures
        r@ == sq_prop_type(),
{
    let r: Vec<u8> = vec!['t' as u8, 'y' as u8, 'p' as u8, 'e' as u8];
    proof {
        assert(r@ =~= sq_prop_type());
    }
    r
}

/// The text `domain`.
pub open spec fn sq_domain() -> Seq<u8> {
    seq!['d' as u8, 'o' as u8, 'm' as u8, 'a' as u8, 'i' as u8, 'n' as u8]
}

/// Executable copy of [`sq_domain`].
pub fn kw_domain() -> (r: Vec<u8>)
    ensures
        r@ == sq_domain(),
{
    let r: Vec<u8> = vec!['d' as u8, 'o' as u8, 'm' as u8, 'a' as u8, 'i' as u8, 'n' as u8];
    proof {
        assert(r@ =~= sq_domain());
    }
    r
}

/// The text `ipv4`.
pub open spec fn sq_ipv4() -> Seq<u8> {
    seq!['i' as u8, 'p' as u8, 'v' as u8, '4' as u8]
}

/// Executable copy of [`sq_ipv4`].
pub fn kw_ipv4() -> (r: Vec<u8>)
    ensures
        r@ == sq_ipv4(),
{
    let r: Vec<u8> = vec!['i' as u8, 'p' as u8, 'v' as u8, '4' as u8];
    proof {
        assert(r@ =~= sq_ipv4());
    }
    r
}

/// The text `ipv6`.
pub open spec fn sq_ipv6() -> Seq<u8> {
    seq!['i' as u8, 'p' as u8, 'v' as u8, '6' as u8]
}

/// Executable copy of [`sq_ipv6`].
pub fn kw_ipv6() -> (r: Vec<u8>)
    ensures
        r@ == sq_ipv6(),
{
    let r: Vec<u8> = vec!['i' as u8, 'p' as u8, 'v' as u8, '6' as u8];
    proof {
        assert(r@ =~= sq_ipv6());
    }
    r
}

/// One routing rule: a predicate expression and the name of the connector
/// that takes the sessions it matches.
#[derive(Debug, Clone, PartialEq, Eq)]
pub struct Rule {
    /// The predicate expression, handed to the outside evaluator.
    pub filter: Vec<u8>,
    /// The connector the rule routes to.
    pub target_name: Vec<u8>,
}

/// Pick the rule that wins: rules are evaluated in declaration order and the
/// first whose predicate held wins. `evals[i]` is the predicate result of the
/// `i`-th declared rule; an evaluation error counts as not matching.
///
/// Returns the least index whose predicate held, or `None` when none did —
/// the session then fails with no matching rule.
pub fn pick_rule(evals: &Vec<bool>) -> (r: Option<usize>)
    ensures
        match r {
            Some(i) => i < evals@.len() && evals@[i as int] && forall|j: int|
                0 <= j < i ==> !evals@[j],
            None => forall|j: int| 0 <= j < evals@.len() ==> !evals@[j],
        },
{
    let mut i: usize = 0;
    while i < evals.len()
        invariant
            i <= evals@.len(),
            forall|j: int| 0 <= j < i ==> !evals@[j],
        decreases evals@.len() - i,
    {
        if evals[i] {
            return Some(i);
        }
        i += 1;
    }
    None
}

/// Whether a connector whose feature set is `features` accepts a session of
/// feature `f`. The dispatcher refuses the dispatch when it does not.
pub fn has_feature(features: &Vec<Feature>, f: Feature) -> (r: bool)
    ensures
        r == features@.contains(f),
{
    let mut i: usize = 0;
    while i < features.len()
        invariant
            i <= features@.len(),
            forall|j: int| 0 <= j < i ==> features@[j] != f,
        decreases features@.len() - i,
    {
        if features[i] == f {
            assert(features@.contains(f));
            return true;
        }
        i += 1;
    }
    proof {
        if features@.contains(f) {
            let j = choose|j: int| 0 <= j < features@.len() && features@[j] == f;
            assert(features@[j] != f);
        }
    }
    false
}

/// The dispatcher's choice for one session: the first matching rule, or a
/// no-matching-rule failure when every predicate was false.
pub fn dispatch_pick(evals: &Vec<bool>) -> (r: Result<usize, ProxyError>)
    ensures
        match r {
            Ok(i) => i < evals@.len() && evals@[i as int] && forall|j: int|
                0 <= j < i ==> !evals@[j],
            Err(e) => e == ProxyError::NoMatchingRule && forall|j: int|
                0 <= j < evals@.len() ==> !evals@[j],
        },
{
    match pick_rule(evals) {
        Some(i) => Ok(i),
        None => Err(ProxyError::NoMatchingRule),
    }
}

/// The dispatch-time feature check: a connector only receives a session
/// whose feature it supports; otherwise the session fails as feature
/// unsupported.
pub fn check_feature(features: &Vec<Feature>, f: Feature) -> (r: Result<(), ProxyError>)
    ensures
        r is Ok <==> features@.contains(f),
        r is Err ==> r == Err::<(), ProxyError>(ProxyError::FeatureUnsupported),
{
    if has_feature(features, f) {
        Ok(())
    } else {
        Err(ProxyError::FeatureUnsupported)
    }
}

/// Index of the first connector called `name`, or `None` when there is none.
pub fn find_connector(names: &Vec<Vec<u8>>, name: &[u8]) -> (r: Option<usize>)
    ensures
        match r {
            Some(i) => i < names@.len() && names@[i as int]@ == name@ && forall|j: int|
                0 <= j < i ==> names@[j]@ != name@,
            None => forall|j: int| 0 <= j < names@.len() ==> names@[j]@ != name@,
        },
{
    let mut i: usize = 0;
    while i < names.len()
        invariant
            i <= names@.len(),
            forall|j: int| 0 <= j < i ==> names@[j]@ != name@,
        decreases names@.len() - i,
    {
        if bytes_eq(names[i].as_slice(), name) {
            return Some(i);
        }
        i += 1;
    }
    None
}

/// Bind every rule to its connector: rule `i` gets the index of the first
/// connector whose name is the rule's target. Fails with a configuration
/// error exactly when some rule names a connector that does not exist.
pub fn resolve_rules(rules: &Vec<Rule>, names: &Vec<Vec<u8>>) -> (r: Result<Vec<usize>, ProxyError>)
    ensures
        match r {
            Ok(ix) => {
                &&& ix@.len() == rules@.len()
                &&& forall|i: int|
                    0 <= i < rules@.len() ==> #[trigger] ix@[i] < names@.len()
                        && names@[ix@[i] as int]@ == rules@[i].target_name@
            },
            Err(e) => e == ProxyError::ConfigError && exists|i: int|
                0 <= i < rules@.len() && forall|j: int|
                    0 <= j < names@.len() ==> names@[j]@ != (#[trigger] rules@[i]).target_name@,
        },
{
    let mut ix: Vec<usize> = Vec::new();
    let mut i: usize = 0;
    while i < rules.len()
        invariant
            i <= rules@.len(),
            ix@.len() == i,
            forall|k: int|
                0 <= k < i ==> #[trigger] ix@[k] < names@.len() && names@[ix@[k] as int]@
                    == rules@[k].target_name@,
        decreases rules@.len() - i,
    {
        match find_connector(names, rules[i].target_name.as_slice()) {
            Some(j) => {
                ix.push(j);
            },
            None => {
                return Err(ProxyError::ConfigError);
            },
        }
        i += 1;
    }
    Ok(ix)
}

/// A value the expression bridge hands to the evaluator.
#[derive(Debug, Clone, PartialEq, Eq)]
pub enum ScriptValue {
    /// A text value.
    Text(Vec<u8>),
    /// An integer value.
    Int(u64),
    /// A boolean value.
    Bool(bool),
    /// A target address, with its own accessors.
    Target(TargetAddress),
}

/// The static type the bridge reports for a property.
#[derive(Debug, Clone, Copy, PartialEq, Eq, Structural)]
pub enum ScriptType {
    Text,
    Integer,
    Boolean,
}

/// The host object `request` that rule predicates read: a thin adaptor over
/// the session snapshot.
#[derive(Debug, Clone, PartialEq, Eq)]
pub struct ContextAdaptor {
    pub props: ContextProps,
}

impl ContextAdaptor {
    /// Wrap a session snapshot for the evaluator.
    pub fn new(props: ContextProps) -> (r: Self)
        ensures
            r.props == props,
    {
        ContextAdaptor { props }
    }

    /// The properties the adaptor exposes: `listener`, `source`, `target`.
    pub fn names(&self) -> (r: Vec<Vec<u8>>)
        ensures
            r@.len() == 3,
            r@[0]@ == sq_listener(),
            r@[1]@ == sq_source(),
            r@[2]@ == sq_target(),
    {
        let mut r: Vec<Vec<u8>> = Vec::new();
        r.push(kw_listener());
        r.push(kw_source());
        r.push(kw_target());
        r
    }

    /// Read one property: the listener's name, the client address as text, or
    /// the target address. Anything else is an evaluation error, as is the
    /// target before the handshake has set one.
    pub fn get(&self, name: &[u8]) -> (r: Result<ScriptValue, ProxyError>)
        requires
            self.props.wf(),
        ensures
            name@ == sq_listener() ==> (r matches Ok(ScriptValue::Text(v)) && v@
                == self.props.listener@),
            name@ == sq_source() ==> (r matches Ok(ScriptValue::Text(v)) && v@ == target_text(
                crate::context::sock_view(self.props.source),
            )),
            name@ == sq_target() ==> match self.props.target {
                Some(t) => r matches Ok(ScriptValue::Target(u)) && u@ == t@ && u.wf(),
                None => r == Err::<ScriptValue, ProxyError>(ProxyError::EvalError),
            },
            name@ != sq_listener() && name@ != sq_source() && name@ != sq_target() ==> r == Err::<
                ScriptValue,
                ProxyError,
            >(ProxyError::EvalError),
    {
        let listener_kw = kw_listener();
        let source_kw = kw_source();
        let target_kw = kw_target();
        if bytes_eq(name, listener_kw.as_slice()) {
            let v = subvec(self.props.listener.as_slice(), 0, self.props.listener.len());
            proof {
                assert(v@ =~= self.props.listener@);
            }
            Ok(ScriptValue::Text(v))
        } else if bytes_eq(name, source_kw.as_slice()) {
            Ok(ScriptValue::Text(self.props.source.display()))
        } else if bytes_eq(name, target_kw.as_slice()) {
            match &self.props.target {
                Some(t) => Ok(ScriptValue::Target(t.duplicate())),
                None => Err(ProxyError::EvalError),
            }
        } else {
            Err(ProxyError::EvalError)
        }
    }

    /// The static type of one property; reading an unknown property is an
    /// evaluation error.
    pub fn type_of(&self, name: &[u8]) -> (r: Result<ScriptType, ProxyError>)
        ensures
            name@ == sq_listener() || name@ == sq_source() || name@ == sq_target() ==> r == Ok::<
                ScriptType,
                ProxyError,
            >(ScriptType::Text),
            name@ != sq_listener() && name@ != sq_source() && name@ != sq_target() ==> r == Err::<
                ScriptType,
                ProxyError,
            >(ProxyError::EvalError),
    {
        let listener_kw = kw_listener();
        let source_kw = kw_source();
        let target_kw = kw_target();
        if bytes_eq(name, listener_kw.as_slice()) || bytes_eq(name, source_kw.as_slice())
            || bytes_eq(name, target_kw.as_slice()) {
            Ok(ScriptType::Text)
        } else {
            Err(ProxyError::EvalError)
        }
    }
}

/// The evaluation context handed to the expression evaluator: the `request`
/// object. The `cidr_match` builtin stands beside it as [`cidr_match`].
pub struct ScriptContext {
    pub request: ContextAdaptor,
}

/// Build the evaluation context for one session snapshot.
pub fn create_context(props: ContextProps) -> (r: ScriptContext)
    ensures
        r.request.props == props,
{
    ScriptContext { request: ContextAdaptor::new(props) }
}

impl TargetAddress {
    /// The properties a target address exposes: `host`, `port`, `type`.
    pub fn names(&self) -> (r: Vec<Vec<u8>>)
        ensures
            r@.len() == 3,
            r@[0]@ == sq_prop_host(),
            r@[1]@ == sq_prop_port(),
            r@[2]@ == sq_prop_type(),
    {
        let mut r: Vec<Vec<u8>> = Vec::new();
        r.push(kw_prop_host());
        r.push(kw_prop_port());
        r.push(kw_prop_type());
        r
    }

    /// The kind of the host: `domain`, `ipv4` or `ipv6`.
    pub fn kind_text(&self) -> (r: Vec<u8>)
        ensures
            r@ == match self@ {
                TargetView::Domain { .. } => sq_domain(),
                TargetView::V4 { .. } => sq_ipv4(),
                TargetView::V6 { .. } => sq_ipv6(),
            },
    {
        match self {
            TargetAddress::Domain { .. } => kw_domain(),
            TargetAddress::V4 { .. } => kw_ipv4(),
            TargetAddress::V6 { .. } => kw_ipv6(),
        }
    }

    /// Read one property of the address: the host text, the port number, or
    /// the host kind. Anything else is an evaluation error.
    pub fn get(&self, name: &[u8]) -> (r: Result<ScriptValue, ProxyError>)
        requires
            self.wf(),
        ensures
            name@ == sq_prop_host() ==> (r matches Ok(ScriptValue::Text(v)) && v@
                == target_host_text(self@)),
            name@ == sq_prop_port() ==> r == Ok::<ScriptValue, ProxyError>(
                ScriptValue::Int(self@.port() as u64),
            ),
            name@ == sq_prop_type() ==> (r matches Ok(ScriptValue::Text(v)) && v@ == match self@ {
                TargetView::Domain { .. } => sq_domain(),
                TargetView::V4 { .. } => sq_ipv4(),
                TargetView::V6 { .. } => sq_ipv6(),
            }),
            name@ != sq_prop_host() && name@ != sq_prop_port() && name@ != sq_prop_type() ==> r
                == Err::<ScriptValue, ProxyError>(ProxyError::EvalError),
    {
        let host_kw = kw_prop_host();
        let port_kw = kw_prop_port();
        let type_kw = kw_prop_type();
        if bytes_eq(name, host_kw.as_slice()) {
            Ok(ScriptValue::Text(self.host_display()))
        } else if bytes_eq(name, port_kw.as_slice()) {
            Ok(ScriptValue::Int(self.port() as u64))
        } else if bytes_eq(name, type_kw.as_slice()) {
            Ok(ScriptValue::Text(self.kind_text()))
        } else {
            Err(ProxyError::EvalError)
        }
    }

    /// The static type of one property of the address: the host and kind are
    /// text, the port is an integer.
    pub fn type_of(&self, name: &[u8]) -> (r: Result<ScriptType, ProxyError>)
        ensures
            name@ == sq_prop_host() || name@ == sq_prop_type() ==> r == Ok::<
                ScriptType,
                ProxyError,
            >(ScriptType::Text),
            name@ == sq_prop_port() ==> r == Ok::<ScriptType, ProxyError>(ScriptType::Integer),
            name@ != sq_prop_host() && name@ != sq_prop_port() && name@ != sq_prop_type() ==> r
                == Err::<ScriptType, ProxyError>(ProxyError::EvalError),
    {
        let host_kw = kw_prop_host();
        let port_kw = kw_prop_port();
        let type_kw = kw_prop_type();
        if bytes_eq(name, host_kw.as_slice()) || bytes_eq(name, type_kw.as_slice()) {
            Ok(ScriptType::Text)
        } else if bytes_eq(name, port_kw.as_slice()) {
            Ok(ScriptType::Integer)
        } else {
            Err(ProxyError::EvalError)
        }
    }
}

/// The numeric value of an IPv4 address.
pub open spec fn v4_val(a: u8, b: u8, c: u8, d: u8) -> u32 {
    (a * 0x1000000 + b * 0x10000 + c * 0x100 + d) as u32
}

/// An IP address as the `cidr_match` builtin sees it.
#[verifier::ext_equal]
pub enum IpView {
    V4(u32),
    V6(Seq<u16>),
}

/// Executable IP address value, IPv4 as one number, IPv6 as eight groups.
#[derive(Debug, Clone, PartialEq, Eq)]
pub enum ParsedIp {
    V4(u32),
    V6(Vec<u16>),
}

impl View for ParsedIp {
    type V = IpView;

    open spec fn view(&self) -> IpView {
        match self {
            ParsedIp::V4(x) => IpView::V4(*x),
            ParsedIp::V6(gs) => IpView::V6(gs@),
        }
    }
}

/// Parse an IP address written as text: a dotted quad, or eight
/// colon-separated hexadecimal groups.
pub open spec fn parse_ip_spec(s: Seq<u8>) -> Option<IpView> {
    if parse_v4_host_spec(s) is Some {
        let (a, b, c, d) = parse_v4_host_spec(s).unwrap();
        Some(IpView::V4(v4_val(a, b, c, d)))
    } else if parse_v6_host(s) is Some {
        Some(IpView::V6(parse_v6_host(s).unwrap()))
    } else {
        None
    }
}

/// Exact executable counterpart of [`parse_ip_spec`].
pub fn parse_ip(v: &[u8]) -> (r: Option<ParsedIp>)
    ensures
        match r {
            Some(p) => parse_ip_spec(v@) == Some(p@) && (p matches ParsedIp::V6(gs) ==> gs@.len()
                == 8),
            None => parse_ip_spec(v@) is None,
        },
{
    match parse_v4_host(v) {
        Some((a, b, c, d)) => {
            let x = (a as u32) * 0x1000000 + (b as u32) * 0x10000 + (c as u32) * 0x100 + (d as u32);
            Some(ParsedIp::V4(x))
        },
        None => {
            match parse_v6_host_exec(v) {
                Some(gs) => Some(ParsedIp::V6(gs)),
                None => None,
            }
        },
    }
}

/// The top `k` bits of two 16-bit groups agree (all of them when `k >= 16`,
/// trivially when `k <= 0`).
pub open spec fn group_match(x: u16, y: u16, k: int) -> bool {
    if k <= 0 {
        true
    } else if k >= 16 {
        x == y
    } else {
        ((x as u32) >> ((16 - k) as u32)) == ((y as u32) >> ((16 - k) as u32))
    }
}

/// The first `p` bits of two IPv4 addresses agree.
pub open spec fn v4_prefix_match(x: u32, y: u32, p: int) -> bool {
    if p <= 0 {
        true
    } else if p >= 32 {
        x == y
    } else {
        (x >> ((32 - p) as u32)) == (y >> ((32 - p) as u32))
    }
}

/// The first `p` bits of two IPv6 addresses agree, group by group.
pub open spec fn v6_prefix_match(a: Seq<u16>, b: Seq<u16>, p: int) -> bool {
    forall|i: int| 0 <= i < 8 ==> group_match(a[i], b[i], p - 16 * i)
}

/// The network `net` with prefix length `p` contains `ip`; addresses of
/// different families never contain one another.
pub open spec fn prefix_contains(net: IpView, ip: IpView, p: int) -> bool {
    match (net, ip) {
        (IpView::V4(n), IpView::V4(i)) => p <= 32 && v4_prefix_match(i, n, p),
        (IpView::V6(n), IpView::V6(i)) => v6_prefix_match(i, n, p),
        _ => false,
    }
}

/// Executable counterpart of [`v4_prefix_match`].
fn v4_prefix_exec(x: u32, y: u32, p: u32) -> (r: bool)
    requires
        p <= 32,
    ensures
        r == v4_prefix_match(x, y, p as int),
{
    if p == 0 {
        true
    } else if p == 32 {
        x == y
    } else {
        (x >> (32 - p)) == (y >> (32 - p))
    }
}

/// Executable counterpart of [`v6_prefix_match`].
fn v6_prefix_exec(a: &Vec<u16>, b: &Vec<u16>, p: u32) -> (r: bool)
    requires
        a@.len() == 8,
        b@.len() == 8,
        p <= 128,
    ensures
        r == v6_prefix_match(a@, b@, p as int),
{
    let mut i: usize = 0;
    while i < 8
        invariant
            i <= 8,
            a@.len() == 8,
            b@.len() == 8,
            p <= 128,
            forall|j: int| 0 <= j < i ==> group_match(a@[j], b@[j], p as int - 16 * j),
        decreases 8 - i,
    {
        let base = 16 * (i as u32);
        if p > base {
            if p >= base + 16 {
                if a[i] != b[i] {
                    proof {
                        assert(!group_match(a@[i as int], b@[i as int], p as int - 16 * i as int));
                    }
                    return false;
                }
            } else {
                let k = p - base;
                let shift = 16 - k;
                if ((a[i] as u32) >> shift) != ((b[i] as u32) >> shift) {
                    proof {
                        assert(!group_match(a@[i as int], b@[i as int], p as int - 16 * i as int));
                    }
                    return false;
                }
            }
        }
        i += 1;
    }
    true
}

/// Executable counterpart of [`prefix_contains`].
fn prefix_contains_exec(net: &ParsedIp, ip: &ParsedIp, p: u32) -> (r: bool)
    requires
        p <= 128,
        net matches ParsedIp::V4(..) ==> p <= 32,
        net matches ParsedIp::V6(gs) ==> gs@.len() == 8,
        ip matches ParsedIp::V6(gs) ==> gs@.len() == 8,
    ensures
        r == prefix_contains(net@, ip@, p as int),
{
    match (net, ip) {
        (ParsedIp::V4(n), ParsedIp::V4(i)) => v4_prefix_exec(*i, *n, p),
        (ParsedIp::V6(n), ParsedIp::V6(i)) => v6_prefix_exec(i, n, p),
        _ => false,
    }
}

/// Whether `ip_txt` names an address inside the CIDR block `cidr_txt` — the
/// block is an address, optionally followed by `/` and a prefix length; an
/// address alone is a block of one.
pub open spec fn cidr_match_spec(ip_txt: Seq<u8>, cidr_txt: Seq<u8>) -> bool {
    match parse_ip_spec(ip_txt) {
        None => false,
        Some(ipv) => {
            let slash = find_first(cidr_txt, '/' as u8);
            if slash == cidr_txt.len() {
                match parse_ip_spec(cidr_txt) {
                    None => false,
                    Some(netv) => prefix_contains(
                        netv,
                        ipv,
                        match netv {
                            IpView::V4(..) => 32,
                            IpView::V6(..) => 128,
                        },
                    ),
                }
            } else {
                let net_txt = cidr_txt.subrange(0, slash);
                let p_txt = cidr_txt.subrange(slash + 1, cidr_txt.len() as int);
                if !(is_dec_string(p_txt) && dec_value(p_txt) <= 128) {
                    false
                } else {
                    match parse_ip_spec(net_txt) {
                        None => false,
                        Some(netv) => (match netv {
                            IpView::V4(..) => dec_value(p_txt) <= 32,
                            IpView::V6(..) => true,
                        }) && prefix_contains(netv, ipv, dec_value(p_txt)),
                    }
                }
            }
        },
    }
}

/// The `cidr_match` builtin of rule predicates: true exactly when both texts
/// parse and the block contains the address. It never fails: any malformed
/// input, or a mixed address family, yields false.
pub fn cidr_match(ip_txt: &[u8], cidr_txt: &[u8]) -> (r: bool)
    ensures
        r == cidr_match_spec(ip_txt@, cidr_txt@),
{
    let ipv = match parse_ip(ip_txt) {
        Some(p) => p,
        None => {
            return false;
        },
    };
    let slash_byte = '/' as u8;
    match find_byte(cidr_txt, 0, slash_byte) {
        None => {
            proof {
                lemma_find_first_is(cidr_txt@, slash_byte, cidr_txt@.len() as int);
            }
            let netv = match parse_ip(cidr_txt) {
                Some(p) => p,
                None => {
                    return false;
                },
            };
            let full: u32 = match &netv {
                ParsedIp::V4(..) => 32,
                ParsedIp::V6(..) => 128,
            };
            prefix_contains_exec(&netv, &ipv, full)
        },
        Some(slash) => {
            proof {
                lemma_find_first_is(cidr_txt@, slash_byte, slash as int);
            }
            let clen = cidr_txt.len();
            assert(slash < clen);
            let net_txt = subvec(cidr_txt, 0, slash);
            let p_txt = subvec(cidr_txt, slash + 1, clen);
            let p = match parse_dec(p_txt.as_slice(), 128) {
                Some(p) => p,
                None => {
                    return false;
                },
            };
            let netv = match parse_ip(net_txt.as_slice()) {
                Some(p) => p,
                None => {
                    return false;
                },
            };
            match &netv {
                ParsedIp::V4(..) => {
                    if p > 32 {
                        return false;
                    }
                },
                _ => {},
            }
            prefix_contains_exec(&netv, &ipv, p)
        },
    }
}

} // verus!
