//! Target addresses: `host:port` with a domain, IPv4 or IPv6 host.
//!
//! `parse_target` accepts `host:port` where `host` is a bracketed IPv6
//! literal (eight hexadecimal groups, or fewer around one `::`), a
//! dotted-quad IPv4 literal, or a domain name. `display` produces the
//! canonical text: IPv6 bracketed, groups in minimal lower-case hex, no `::`
//! compression. Parsing the display of any parsed address gives the address
//! back.

use vstd::prelude::*;

use crate::text::{
    append_bytes,
    dec_digits, dec_value, find_byte, format_dec, hex_digits, hex_value, is_dec_digit,
    is_dec_string, is_hex_digit,
    copy_u16s, format_hex, is_hex_string, lemma_dec_digits_value, lemma_hex_digits_value,
    parse_dec, parse_hex, subvec,
};

verus! {

/// Index of the first occurrence of `b` in `s`, or `s.len()` if `b` is absent.
pub open spec fn find_first(s: Seq<u8>, b: u8) -> int
    decreases s.len(),
{
    if s.len() == 0 {
        0
    } else if s[0] == b {
        0
    } else {
        1 + find_first(s.drop_first(), b)
    }
}

/// `find_first` returns the first occurrence, or the length when there is none.
pub proof fn lemma_find_first(s: Seq<u8>, b: u8)
    ensures
        0 <= find_first(s, b) <= s.len(),
        find_first(s, b) < s.len() ==> s[find_first(s, b)] == b,
        forall|j: int| 0 <= j < find_first(s, b) ==> s[j] != b,
    decreases s.len(),
{
    if s.len() > 0 && s[0] != b {
        lemma_find_first(s.drop_first(), b);
        assert(forall|j: int|
            0 <= j < find_first(s.drop_first(), b) ==> s.drop_first()[j] != b);
        assert(forall|j: int| 1 <= j < find_first(s, b) ==> s[j] == s.drop_first()[j - 1]);
    }
}

/// Any position with the first-occurrence property is `find_first`.
pub proof fn lemma_find_first_is(s: Seq<u8>, b: u8, n: int)
    requires
        0 <= n <= s.len(),
        n < s.len() ==> s[n] == b,
        n == s.len() ==> forall|j: int| 0 <= j < s.len() ==> s[j] != b,
        forall|j: int| 0 <= j < n ==> s[j] != b,
    ensures
        find_first(s, b) == n,
{
    lemma_find_first(s, b);
    let f = find_first(s, b);
    if f < n {
        assert(s[f] == b);
    } else if n < f {
        assert(s[n] != b);
    }
}

/// The spec-level model of a target address.
#[verifier::ext_equal]
pub enum TargetView {
    /// A domain name and a port.
    Domain { host: Seq<u8>, port: u16 },
    /// An IPv4 address as four octets, and a port.
    V4 { a: u8, b: u8, c: u8, d: u8, port: u16 },
    /// An IPv6 address as eight 16-bit groups, and a port.
    V6 { groups: Seq<u16>, port: u16 },
}

/// A target address: domain, IPv4 or IPv6 host, with a port.
#[derive(Debug, Clone, PartialEq, Eq)]
pub enum TargetAddress {
    /// A domain name and a port.
    Domain { host: Vec<u8>, port: u16 },
    /// An IPv4 address as four octets, and a port.
    V4 { a: u8, b: u8, c: u8, d: u8, port: u16 },
    /// An IPv6 address as eight 16-bit groups, and a port.
    V6 { groups: Vec<u16>, port: u16 },
}

impl View for TargetAddress {
    type V = TargetView;

    open spec fn view(&self) -> TargetView {
        match self {
            TargetAddress::Domain { host, port } => TargetView::Domain {
                host: host@,
                port: *port,
            },
            TargetAddress::V4 { a, b, c, d, port } => TargetView::V4 {
                a: *a,
                b: *b,
                c: *c,
                d: *d,
                port: *port,
            },
            TargetAddress::V6 { groups, port } => TargetView::V6 {
                groups: groups@,
                port: *port,
            },
        }
    }
}

impl TargetAddress {
    /// Structural well-formedness: an IPv6 address has exactly eight groups.
    pub open spec fn wf(&self) -> bool {
        match self {
            TargetAddress::V6 { groups, .. } => groups@.len() == 8,
            _ => true,
        }
    }
}

/// Parse a port: a decimal number of at most 65535.
pub open spec fn parse_port_spec(s: Seq<u8>) -> Option<u16> {
    if is_dec_string(s) && dec_value(s) <= 65535 {
        Some(dec_value(s) as u16)
    } else {
        None
    }
}

/// Parse one dotted-quad octet: a decimal number of at most 255.
pub open spec fn parse_octet_spec(s: Seq<u8>) -> Option<u8> {
    if is_dec_string(s) && dec_value(s) <= 255 {
        Some(dec_value(s) as u8)
    } else {
        None
    }
}

/// Parse a dotted-quad IPv4 host, such as `192.0.2.1`.
pub open spec fn parse_v4_host_spec(s: Seq<u8>) -> Option<(u8, u8, u8, u8)> {
    let i = find_first(s, '.' as u8);
    if i == s.len() {
        None
    } else {
        let s1 = s.subrange(i + 1, s.len() as int);
        let j = find_first(s1, '.' as u8);
        if j == s1.len() {
            None
        } else {
            let s2 = s1.subrange(j + 1, s1.len() as int);
            let k = find_first(s2, '.' as u8);
            if k == s2.len() {
                None
            } else {
                let s3 = s2.subrange(k + 1, s2.len() as int);
                if find_first(s3, '.' as u8) != s3.len() {
                    None
                } else {
                    match (parse_octet_spec(s.subrange(0, i)), parse_octet_spec(
                        s1.subrange(0, j),
                    ), parse_octet_spec(s2.subrange(0, k)), parse_octet_spec(s3)) {
                        (Some(a), Some(b), Some(c), Some(d)) => Some((a, b, c, d)),
                        _ => None,
                    }
                }
            }
        }
    }
}

/// Exact executable counterpart of [`parse_v4_host_spec`].
pub fn parse_v4_host(v: &[u8]) -> (r: Option<(u8, u8, u8, u8)>)
    ensures
        r == parse_v4_host_spec(v@),
{
    proof {
        lemma_find_first(v@, '.' as u8);
    }
    let dot = '.' as u8;
    let i = match find_byte(v, 0, dot) {
        Some(i) => i,
        None => {
            proof {
                lemma_find_first_is(v@, dot, v@.len() as int);
            }
            return None;
        },
    };
    proof {
        lemma_find_first_is(v@, dot, i as int);
    }
    let vlen = v.len();
    assert(i < vlen);
    let s1 = subvec(v, i + 1, vlen);
    let j = match find_byte(s1.as_slice(), 0, dot) {
        Some(j) => j,
        None => {
            proof {
                lemma_find_first_is(s1@, dot, s1@.len() as int);
            }
            return None;
        },
    };
    proof {
        lemma_find_first_is(s1@, dot, j as int);
    }
    let s1len = s1.len();
    assert(j < s1len);
    let s2 = subvec(s1.as_slice(), j + 1, s1len);
    let k = match find_byte(s2.as_slice(), 0, dot) {
        Some(k) => k,
        None => {
            proof {
                lemma_find_first_is(s2@, dot, s2@.len() as int);
            }
            return None;
        },
    };
    proof {
        lemma_find_first_is(s2@, dot, k as int);
    }
    let s2len = s2.len();
    assert(k < s2len);
    let s3 = subvec(s2.as_slice(), k + 1, s2len);
    match find_byte(s3.as_slice(), 0, dot) {
        Some(x) => {
            proof {
                lemma_find_first_is(s3@, dot, x as int);
            }
            return None;
        },
        None => {
            proof {
                lemma_find_first_is(s3@, dot, s3@.len() as int);
            }
        },
    };
    let pa = subvec(v, 0, i);
    let pb = subvec(s1.as_slice(), 0, j);
    let pc = subvec(s2.as_slice(), 0, k);
    let a = parse_dec(pa.as_slice(), 255);
    let b = parse_dec(pb.as_slice(), 255);
    let c = parse_dec(pc.as_slice(), 255);
    let d = parse_dec(s3.as_slice(), 255);
    match (a, b, c, d) {
        (Some(a), Some(b), Some(c), Some(d)) => Some((a as u8, b as u8, c as u8, d as u8)),
        _ => None,
    }
}

/// Parse one or more colon-separated 16-bit hexadecimal groups.
pub open spec fn parse_v6_list(s: Seq<u8>) -> Option<Seq<u16>>
    decreases s.len(),
{
    let i = find_first(s, ':' as u8);
    if i == s.len() {
        if is_hex_string(s) && hex_value(s) <= 0xFFFF {
            Some(seq![hex_value(s) as u16])
        } else {
            None
        }
    } else if i <= 0 || i + 1 > s.len() {
        None
    } else {
        let g = s.subrange(0, i);
        if is_hex_string(g) && hex_value(g) <= 0xFFFF {
            match parse_v6_list(s.subrange(i + 1, s.len() as int)) {
                Some(gs) => Some(seq![hex_value(g) as u16] + gs),
                None => None,
            }
        } else {
            None
        }
    }
}

/// Exact executable counterpart of [`parse_v6_list`].
pub fn parse_v6_list_exec(v: &[u8]) -> (r: Option<Vec<u16>>)
    ensures
        match r {
            Some(gs) => parse_v6_list(v@) == Some(gs@),
            None => parse_v6_list(v@) is None,
        },
    decreases v@.len(),
{
    let colon = ':' as u8;
    let i = match find_byte(v, 0, colon) {
        Some(i) => i,
        None => {
            proof {
                lemma_find_first_is(v@, colon, v@.len() as int);
            }
            match parse_hex(v, 0xFFFF) {
                Some(g) => {
                    let mut gs: Vec<u16> = Vec::new();
                    gs.push(g as u16);
                    proof {
                        assert(gs@ =~= seq![hex_value(v@) as u16]);
                    }
                    return Some(gs);
                },
                None => {
                    return None;
                },
            }
        },
    };
    proof {
        lemma_find_first_is(v@, colon, i as int);
    }
    if i == 0 {
        return None;
    }
    let g = subvec(v, 0, i);
    let gv = match parse_hex(g.as_slice(), 0xFFFF) {
        Some(gv) => gv,
        None => {
            return None;
        },
    };
    let vlen = v.len();
    assert(i < vlen);
    let rest = subvec(v, i + 1, vlen);
    match parse_v6_list_exec(rest.as_slice()) {
        Some(mut gs) => {
            gs.insert(0, gv as u16);
            proof {
                assert(gs@ =~= seq![hex_value(g@) as u16] + gs@.subrange(1, gs@.len() as int));
            }
            Some(gs)
        },
        None => None,
    }
}

/// Positions `j` and `j + 1` of `s` are both colons.
pub open spec fn double_colon_at(s: Seq<u8>, j: int) -> bool {
    0 <= j && j + 1 < s.len() && s[j] == ':' as u8 && s[j + 1] == ':' as u8
}

/// Index of the first `::` in `s`, or `s.len()` when there is none.
pub open spec fn find_double_colon(s: Seq<u8>) -> int
    decreases s.len(),
{
    if s.len() < 2 {
        s.len() as int
    } else if s[0] == ':' as u8 && s[1] == ':' as u8 {
        0
    } else {
        1 + find_double_colon(s.drop_first())
    }
}

/// `find_double_colon` returns the first adjacent pair of colons, or the
/// length when there is none.
pub proof fn lemma_find_double_colon(s: Seq<u8>)
    ensures
        0 <= find_double_colon(s) <= s.len(),
        find_double_colon(s) < s.len() ==> double_colon_at(s, find_double_colon(s)),
        forall|j: int| 0 <= j < find_double_colon(s) ==> !#[trigger] double_colon_at(s, j),
    decreases s.len(),
{
    if s.len() >= 2 && !(s[0] == ':' as u8 && s[1] == ':' as u8) {
        lemma_find_double_colon(s.drop_first());
        let f = find_double_colon(s);
        assert forall|j: int| 0 <= j < f implies !#[trigger] double_colon_at(s, j) by {
            if j == 0 {
                assert(!double_colon_at(s, 0));
            } else if double_colon_at(s, j) {
                assert(s[j] == s.drop_first()[j - 1]);
                assert(s[j + 1] == s.drop_first()[j]);
                assert(double_colon_at(s.drop_first(), j - 1));
            }
        }
        if f < s.len() {
            assert(s[f] == s.drop_first()[f - 1]);
            assert(s[f + 1] == s.drop_first()[f]);
        }
    }
}

/// Any position with the first-double-colon property is `find_double_colon`.
pub proof fn lemma_find_double_colon_is(s: Seq<u8>, n: int)
    requires
        0 <= n <= s.len(),
        n < s.len() ==> double_colon_at(s, n),
        n == s.len() ==> forall|j: int| !#[trigger] double_colon_at(s, j),
        forall|j: int| 0 <= j < n ==> !#[trigger] double_colon_at(s, j),
    ensures
        find_double_colon(s) == n,
{
    lemma_find_double_colon(s);
    let f = find_double_colon(s);
    if f < n {
        assert(double_colon_at(s, f));
    } else if n < f {
        assert(!double_colon_at(s, n));
    }
}

/// Executable counterpart of [`find_double_colon`]: index of the first `::`.
pub fn find_double_colon_exec(v: &[u8]) -> (r: Option<usize>)
    ensures
        match r {
            Some(i) => find_double_colon(v@) == i && i + 1 < v@.len(),
            None => find_double_colon(v@) == v@.len(),
        },
{
    if v.len() < 2 {
        proof {
            lemma_find_double_colon_is(v@, v@.len() as int);
        }
        return None;
    }
    let mut i: usize = 0;
    while i < v.len() - 1
        invariant
            v@.len() >= 2,
            i + 1 <= v@.len(),
            forall|j: int| 0 <= j < i ==> !#[trigger] double_colon_at(v@, j),
        decreases v@.len() - i,
    {
        if v[i] == ':' as u8 && v[i + 1] == ':' as u8 {
            proof {
                assert(double_colon_at(v@, i as int));
                lemma_find_double_colon_is(v@, i as int);
            }
            return Some(i);
        }
        proof {
            assert(!double_colon_at(v@, i as int));
        }
        i += 1;
    }
    proof {
        assert forall|j: int| !#[trigger] double_colon_at(v@, j) by {
            if double_colon_at(v@, j) {
                assert(0 <= j < v@.len() - 1);
            }
        }
        lemma_find_double_colon_is(v@, v@.len() as int);
    }
    None
}

/// `n` zero groups.
pub open spec fn zero_groups(n: nat) -> Seq<u16> {
    Seq::new(n, |i: int| 0u16)
}

/// Parse an IPv6 host: eight colon-separated hexadecimal groups, or two
/// shorter group lists joined by `::`, which stands for the zero groups that
/// bring the count to eight.
pub open spec fn parse_v6_host(s: Seq<u8>) -> Option<Seq<u16>> {
    let d = find_double_colon(s);
    if d == s.len() {
        match parse_v6_list(s) {
            Some(gs) => if gs.len() == 8 {
                Some(gs)
            } else {
                None
            },
            None => None,
        }
    } else {
        let left = s.subrange(0, d);
        let right = s.subrange(d + 2, s.len() as int);
        let lgs = if left.len() == 0 {
            Some(Seq::<u16>::empty())
        } else {
            parse_v6_list(left)
        };
        let rgs = if right.len() == 0 {
            Some(Seq::<u16>::empty())
        } else {
            parse_v6_list(right)
        };
        match (lgs, rgs) {
            (Some(l), Some(r)) => if l.len() + r.len() <= 7 {
                Some(l + zero_groups((8 - l.len() - r.len()) as nat) + r)
            } else {
                None
            },
            _ => None,
        }
    }
}

/// Exact executable counterpart of [`parse_v6_host`].
pub fn parse_v6_host_exec(v: &[u8]) -> (r: Option<Vec<u16>>)
    ensures
        match r {
            Some(gs) => parse_v6_host(v@) == Some(gs@) && gs@.len() == 8,
            None => parse_v6_host(v@) is None,
        },
{
    match find_double_colon_exec(v) {
        None => {
            match parse_v6_list_exec(v) {
                Some(gs) => {
                    if gs.len() == 8 {
                        Some(gs)
                    } else {
                        None
                    }
                },
                None => None,
            }
        },
        Some(d) => {
            let vlen = v.len();
            let left = subvec(v, 0, d);
            let right = subvec(v, d + 2, vlen);
            let l = if left.len() == 0 {
                Vec::new()
            } else {
                match parse_v6_list_exec(left.as_slice()) {
                    Some(l) => l,
                    None => {
                        return None;
                    },
                }
            };
            let r = if right.len() == 0 {
                Vec::new()
            } else {
                match parse_v6_list_exec(right.as_slice()) {
                    Some(r) => r,
                    None => {
                        return None;
                    },
                }
            };
            proof {
                if left.len() == 0 {
                    assert(l@ =~= Seq::<u16>::empty());
                }
                if right.len() == 0 {
                    assert(r@ =~= Seq::<u16>::empty());
                }
            }
            if l.len() > 7 {
                return None;
            }
            if r.len() > 7 - l.len() {
                return None;
            }
            let mut gs = l;
            let mut fill: usize = 8 - gs.len() - r.len();
            let ghost lg = gs@;
            let mut k: usize = 0;
            while k < fill
                invariant
                    k <= fill,
                    gs@ == lg + zero_groups(k as nat),
                decreases fill - k,
            {
                gs.push(0u16);
                proof {
                    assert(gs@ =~= lg + zero_groups((k + 1) as nat));
                }
                k += 1;
            }
            let mut tail = r;
            let ghost mid = gs@;
            let ghost rg = tail@;
            gs.append(&mut tail);
            proof {
                assert(gs@ =~= lg + zero_groups(fill as nat) + rg);
            }
            Some(gs)
        },
    }
}

/// Canonical text of IPv6 groups: minimal lower-case hex, joined by colons.
pub open spec fn v6_groups_text(gs: Seq<u16>) -> Seq<u8>
    decreases gs.len(),
{
    if gs.len() == 0 {
        Seq::empty()
    } else if gs.len() == 1 {
        hex_digits(gs[0] as nat)
    } else {
        hex_digits(gs[0] as nat) + seq![':' as u8] + v6_groups_text(gs.drop_first())
    }
}

/// Emit the canonical text of the groups `gs[from..]`.
pub fn format_v6_groups(gs: &[u16], from: usize) -> (r: Vec<u8>)
    requires
        from < gs@.len(),
    ensures
        r@ == v6_groups_text(gs@.subrange(from as int, gs@.len() as int)),
    decreases gs@.len() - from,
{
    let mut r = format_hex(gs[from]);
    if from + 1 < gs.len() {
        r.push(':' as u8);
        let mut rest = format_v6_groups(gs, from + 1);
        r.append(&mut rest);
        proof {
            let tail = gs@.subrange(from as int, gs@.len() as int);
            assert(tail.drop_first() =~= gs@.subrange(from + 1, gs@.len() as int));
            assert(r@ =~= v6_groups_text(tail));
        }
    } else {
        proof {
            let tail = gs@.subrange(from as int, gs@.len() as int);
            assert(tail.len() == 1 && tail[0] == gs@[from as int]);
        }
    }
    r
}

/// Canonical text of a dotted-quad IPv4 host.
pub open spec fn v4_host_text(a: u8, b: u8, c: u8, d: u8) -> Seq<u8> {
    dec_digits(a as nat) + seq!['.' as u8] + (dec_digits(b as nat) + seq!['.' as u8] + (dec_digits(
        c as nat,
    ) + seq!['.' as u8] + dec_digits(d as nat)))
}

/// Canonical text of the host part alone, IPv6 unbracketed.
pub open spec fn target_host_text(t: TargetView) -> Seq<u8> {
    match t {
        TargetView::Domain { host, .. } => host,
        TargetView::V4 { a, b, c, d, .. } => v4_host_text(a, b, c, d),
        TargetView::V6 { groups, .. } => v6_groups_text(groups),
    }
}

/// Canonical text of a target address.
pub open spec fn target_text(t: TargetView) -> Seq<u8> {
    match t {
        TargetView::Domain { host, port } => host + seq![':' as u8] + dec_digits(port as nat),
        TargetView::V4 { a, b, c, d, port } => v4_host_text(a, b, c, d) + seq![':' as u8]
            + dec_digits(port as nat),
        TargetView::V6 { groups, port } => seq!['[' as u8] + v6_groups_text(groups) + seq![
            ']' as u8,
            ':' as u8,
        ] + dec_digits(port as nat),
    }
}

/// Parse `host:port` into a target address.
///
/// A host starting with `[` is an IPv6 literal of eight hexadecimal groups,
/// closed by `]`; otherwise the text before the first colon is the host, a
/// dotted-quad if it reads as one and a domain name if not, and the text
/// after it is the decimal port.
pub open spec fn parse_target_spec(s: Seq<u8>) -> Option<TargetView> {
    if s.len() == 0 {
        None
    } else if s[0] == '[' as u8 {
        let j = find_first(s, ']' as u8);
        if j == s.len() || j + 2 > s.len() || s[j + 1] != ':' as u8 {
            None
        } else {
            match (parse_v6_host(s.subrange(1, j)), parse_port_spec(
                s.subrange(j + 2, s.len() as int),
            )) {
                (Some(gs), Some(p)) => Some(TargetView::V6 { groups: gs, port: p }),
                _ => None,
            }
        }
    } else {
        let i = find_first(s, ':' as u8);
        if i == s.len() || i == 0 {
            None
        } else {
            let host = s.subrange(0, i);
            match parse_port_spec(s.subrange(i + 1, s.len() as int)) {
                Some(p) => match parse_v4_host_spec(host) {
                    Some((a, b, c, d)) => Some(TargetView::V4 { a, b, c, d, port: p }),
                    None => Some(TargetView::Domain { host, port: p }),
                },
                None => None,
            }
        }
    }
}

/// What every parsed target satisfies; exactly the addresses whose canonical
/// text parses back to the same value.
pub open spec fn valid_target(t: TargetView) -> bool {
    match t {
        TargetView::Domain { host, port } => host.len() > 0 && find_first(host, ':' as u8)
            == host.len() && host[0] != '[' as u8 && parse_v4_host_spec(host) is None,
        TargetView::V4 { .. } => true,
        TargetView::V6 { groups, .. } => groups.len() == 8,
    }
}

/// Every address the parser yields is valid in the sense of [`valid_target`].
pub proof fn lemma_parsed_target_valid(s: Seq<u8>)
    ensures
        parse_target_spec(s) matches Some(t) ==> valid_target(t),
{
    if parse_target_spec(s) is Some && s.len() > 0 {
        if s[0] == '[' as u8 {
            let j = find_first(s, ']' as u8);
            lemma_find_first(s, ']' as u8);
        } else {
            let i = find_first(s, ':' as u8);
            lemma_find_first(s, ':' as u8);
            let host = s.subrange(0, i);
            assert(forall|k: int| 0 <= k < host.len() ==> host[k] == #[trigger] s[k]);
            lemma_find_first_is(host, ':' as u8, host.len() as int);
        }
    }
}

/// Round trip for every parsed address: whatever text the parser accepted,
/// parsing the canonical display of the result gives the same address again.
pub proof fn lemma_parse_display_round_trip(s: Seq<u8>)
    ensures
        parse_target_spec(s) matches Some(t) ==> parse_target_spec(target_text(t)) == Some(t),
{
    lemma_parsed_target_valid(s);
    if parse_target_spec(s) is Some {
        lemma_target_round_trip(parse_target_spec(s).unwrap());
    }
}

/// Parse `host:port` into a target address; see [`parse_target_spec`].
///
/// Every address this returns is valid in the sense of [`valid_target`], so
/// by [`lemma_target_round_trip`] printing it and parsing the print gives the
/// same address back.
pub fn parse_target(v: &[u8]) -> (r: Option<TargetAddress>)
    ensures
        match r {
            Some(t) => parse_target_spec(v@) == Some(t@) && t.wf() && valid_target(t@),
            None => parse_target_spec(v@) is None,
        },
{
    let colon = ':' as u8;
    if v.len() == 0 {
        return None;
    }
    if v[0] == '[' as u8 {
        let close = ']' as u8;
        let j = match find_byte(v, 0, close) {
            Some(j) => j,
            None => {
                proof {
                    lemma_find_first_is(v@, close, v@.len() as int);
                }
                return None;
            },
        };
        proof {
            lemma_find_first_is(v@, close, j as int);
        }
        let vlen = v.len();
        assert(j < vlen);
        if j + 1 == vlen {
            return None;
        }
        if v[j + 1] != colon {
            return None;
        }
        let host = subvec(v, 1, j);
        let gs = match parse_v6_host_exec(host.as_slice()) {
            Some(gs) => gs,
            None => {
                return None;
            },
        };
        let ptext = subvec(v, j + 2, vlen);
        let port = match parse_dec(ptext.as_slice(), 65535) {
            Some(p) => p,
            None => {
                return None;
            },
        };
        Some(TargetAddress::V6 { groups: gs, port: port as u16 })
    } else {
        let i = match find_byte(v, 0, colon) {
            Some(i) => i,
            None => {
                proof {
                    lemma_find_first_is(v@, colon, v@.len() as int);
                }
                return None;
            },
        };
        proof {
            lemma_find_first_is(v@, colon, i as int);
        }
        if i == 0 {
            return None;
        }
        let host = subvec(v, 0, i);
        let vlen = v.len();
        assert(i < vlen);
        let ptext = subvec(v, i + 1, vlen);
        let port = match parse_dec(ptext.as_slice(), 65535) {
            Some(p) => p,
            None => {
                return None;
            },
        };
        match parse_v4_host(host.as_slice()) {
            Some((a, b, c, d)) => Some(TargetAddress::V4 { a, b, c, d, port: port as u16 }),
            None => {
                proof {
                    lemma_find_first(v@, colon);
                    lemma_find_first_is(host@, colon, host@.len() as int);
                }
                Some(TargetAddress::Domain { host, port: port as u16 })
            },
        }
    }
}

impl TargetAddress {
    /// The port of the address.
    pub fn port(&self) -> (r: u16)
        ensures
            r == self@.port(),
    {
        match self {
            TargetAddress::Domain { port, .. } => *port,
            TargetAddress::V4 { port, .. } => *port,
            TargetAddress::V6 { port, .. } => *port,
        }
    }

    /// Canonical text of the host part alone, IPv6 unbracketed.
    pub fn host_display(&self) -> (r: Vec<u8>)
        requires
            self.wf(),
        ensures
            r@ == target_host_text(self@),
    {
        match self {
            TargetAddress::Domain { host, .. } => {
                let mut r: Vec<u8> = Vec::new();
                append_bytes(&mut r, host.as_slice());
                proof {
                    assert(r@ =~= target_host_text(self@));
                }
                r
            },
            TargetAddress::V4 { a, b, c, d, .. } => {
                let mut r = format_dec(*a as u32);
                r.push('.' as u8);
                let mut rb = format_dec(*b as u32);
                r.append(&mut rb);
                let mut tail = format_dec(*c as u32);
                tail.push('.' as u8);
                let mut rd = format_dec(*d as u32);
                tail.append(&mut rd);
                r.push('.' as u8);
                r.append(&mut tail);
                proof {
                    assert(r@ =~= target_host_text(self@));
                }
                r
            },
            TargetAddress::V6 { groups, .. } => {
                proof {
                    assert(groups@.subrange(0, groups@.len() as int) =~= groups@);
                }
                format_v6_groups(groups.as_slice(), 0)
            },
        }
    }

    /// Canonical `host:port` text: IPv6 hosts bracketed, ports in decimal.
    pub fn display(&self) -> (r: Vec<u8>)
        requires
            self.wf(),
        ensures
            r@ == target_text(self@),
    {
        match self {
            TargetAddress::V6 { groups, port } => {
                let mut r: Vec<u8> = Vec::new();
                r.push('[' as u8);
                let mut g = format_v6_groups(groups.as_slice(), 0);
                proof {
                    assert(groups@.subrange(0, groups@.len() as int) =~= groups@);
                }
                r.append(&mut g);
                r.push(']' as u8);
                r.push(':' as u8);
                let mut p = format_dec(*port as u32);
                r.append(&mut p);
                proof {
                    assert(r@ =~= target_text(self@));
                }
                r
            },
            _ => {
                let mut r = self.host_display();
                r.push(':' as u8);
                let mut p = format_dec(self.port() as u32);
                r.append(&mut p);
                proof {
                    assert(r@ =~= target_text(self@));
                }
                r
            },
        }
    }
}

impl TargetAddress {
    /// A copy of the address with the same value.
    pub fn duplicate(&self) -> (r: Self)
        ensures
            r@ == self@,
            self.wf() ==> r.wf(),
    {
        match self {
            TargetAddress::Domain { host, port } => {
                let h = subvec(host.as_slice(), 0, host.len());
                proof {
                    assert(h@ =~= host@);
                }
                TargetAddress::Domain { host: h, port: *port }
            },
            TargetAddress::V4 { a, b, c, d, port } => TargetAddress::V4 {
                a: *a,
                b: *b,
                c: *c,
                d: *d,
                port: *port,
            },
            TargetAddress::V6 { groups, port } => TargetAddress::V6 {
                groups: copy_u16s(groups.as_slice()),
                port: *port,
            },
        }
    }
}

impl TargetView {
    /// The port of the address.
    pub open spec fn port(self) -> u16 {
        match self {
            TargetView::Domain { port, .. } => port,
            TargetView::V4 { port, .. } => port,
            TargetView::V6 { port, .. } => port,
        }
    }
}

/// Every byte of the canonical group text is a hex digit or a colon.
proof fn lemma_v6_text_bytes(gs: Seq<u16>)
    ensures
        forall|i: int|
            0 <= i < v6_groups_text(gs).len() ==> is_hex_digit(#[trigger] v6_groups_text(gs)[i])
                || v6_groups_text(gs)[i] == ':' as u8,
    decreases gs.len(),
{
    if gs.len() == 1 {
        lemma_hex_digits_value(gs[0] as nat);
    } else if gs.len() > 1 {
        lemma_hex_digits_value(gs[0] as nat);
        lemma_v6_text_bytes(gs.drop_first());
        let h = hex_digits(gs[0] as nat);
        let rest = v6_groups_text(gs.drop_first());
        let t = v6_groups_text(gs);
        assert(t =~= h + seq![':' as u8] + rest);
        assert forall|i: int| 0 <= i < t.len() implies is_hex_digit(#[trigger] t[i]) || t[i]
            == ':' as u8 by {
            if i < h.len() {
                assert(t[i] == h[i]);
            } else if i == h.len() {
                assert(t[i] == ':' as u8);
            } else {
                assert(t[i] == rest[i - h.len() - 1]);
            }
        }
    }
}

/// Parsing the canonical group text gives the groups back.
proof fn lemma_v6_list_round_trip(gs: Seq<u16>)
    requires
        gs.len() >= 1,
    ensures
        parse_v6_list(v6_groups_text(gs)) == Some(gs),
    decreases gs.len(),
{
    let colon = ':' as u8;
    if gs.len() == 1 {
        let t = v6_groups_text(gs);
        lemma_hex_digits_value(gs[0] as nat);
        assert(forall|j: int| 0 <= j < t.len() ==> #[trigger] t[j] != colon);
        lemma_find_first_is(t, colon, t.len() as int);
        assert(seq![hex_value(t) as u16] =~= gs);
    } else {
        let h = hex_digits(gs[0] as nat);
        let rest = v6_groups_text(gs.drop_first());
        let t = v6_groups_text(gs);
        assert(t =~= h + seq![colon] + rest);
        lemma_hex_digits_value(gs[0] as nat);
        assert(t[h.len() as int] == colon);
        assert(forall|j: int| 0 <= j < h.len() ==> t[j] == #[trigger] h[j]);
        lemma_find_first_is(t, colon, h.len() as int);
        let i = find_first(t, colon);
        assert(t.subrange(0, i) =~= h);
        assert(t.subrange(i + 1, t.len() as int) =~= rest);
        lemma_v6_list_round_trip(gs.drop_first());
        assert(parse_v6_list(t) == Some(seq![hex_value(h) as u16] + gs.drop_first()));
        assert(seq![hex_value(h) as u16] + gs.drop_first() =~= gs);
    }
}

/// The canonical group text never holds two adjacent colons: every group has
/// at least one digit.
proof fn lemma_v6_text_head(gs: Seq<u16>)
    requires
        gs.len() >= 1,
    ensures
        v6_groups_text(gs).len() > 0,
        is_hex_digit(v6_groups_text(gs)[0]),
    decreases gs.len(),
{
    lemma_hex_digits_value(gs[0] as nat);
    if gs.len() > 1 {
        let h = hex_digits(gs[0] as nat);
        let t = v6_groups_text(gs);
        assert(t =~= h + seq![':' as u8] + v6_groups_text(gs.drop_first()));
        assert(t[0] == h[0]);
    }
}

/// No `::` occurs in the canonical group text.
proof fn lemma_v6_text_no_double(gs: Seq<u16>)
    requires
        gs.len() >= 1,
    ensures
        forall|i: int| !#[trigger] double_colon_at(v6_groups_text(gs), i),
    decreases gs.len(),
{
    let colon = ':' as u8;
    let t = v6_groups_text(gs);
    lemma_hex_digits_value(gs[0] as nat);
    if gs.len() == 1 {
        assert forall|i: int| !#[trigger] double_colon_at(t, i) by {
            if double_colon_at(t, i) {
                assert(is_hex_digit(t[i]));
            }
        }
    } else {
        let h = hex_digits(gs[0] as nat);
        let rest = v6_groups_text(gs.drop_first());
        assert(t =~= h + seq![colon] + rest);
        lemma_v6_text_no_double(gs.drop_first());
        lemma_v6_text_head(gs.drop_first());
        assert forall|i: int| !#[trigger] double_colon_at(t, i) by {
            if double_colon_at(t, i) {
                if i < h.len() {
                    assert(t[i] == h[i]);
                    assert(is_hex_digit(t[i]));
                } else if i == h.len() {
                    assert(t[i + 1] == rest[0]);
                    assert(is_hex_digit(rest[0]));
                } else {
                    assert(t[i] == rest[i - h.len() - 1]);
                    assert(t[i + 1] == rest[i - h.len()]);
                    assert(double_colon_at(rest, i - h.len() - 1));
                }
            }
        }
    }
}

/// Parsing the canonical text of eight groups gives the groups back.
proof fn lemma_v6_host_round_trip(gs: Seq<u16>)
    requires
        gs.len() == 8,
    ensures
        parse_v6_host(v6_groups_text(gs)) == Some(gs),
{
    let t = v6_groups_text(gs);
    lemma_v6_text_no_double(gs);
    lemma_find_double_colon_is(t, t.len() as int);
    lemma_v6_list_round_trip(gs);
}

/// Parsing the canonical dotted-quad text gives the octets back; its bytes
/// are digits and dots, starting with a digit.
proof fn lemma_v4_host_round_trip(a: u8, b: u8, c: u8, d: u8)
    ensures
        parse_v4_host_spec(v4_host_text(a, b, c, d)) == Some((a, b, c, d)),
        v4_host_text(a, b, c, d).len() > 0,
        is_dec_digit(v4_host_text(a, b, c, d)[0]),
        forall|i: int|
            0 <= i < v4_host_text(a, b, c, d).len() ==> is_dec_digit(
                #[trigger] v4_host_text(a, b, c, d)[i],
            ) || v4_host_text(a, b, c, d)[i] == '.' as u8,
{
    let dot = '.' as u8;
    let ta = dec_digits(a as nat);
    let tb = dec_digits(b as nat);
    let tc = dec_digits(c as nat);
    let td = dec_digits(d as nat);
    lemma_dec_digits_value(a as nat);
    lemma_dec_digits_value(b as nat);
    lemma_dec_digits_value(c as nat);
    lemma_dec_digits_value(d as nat);
    let t = v4_host_text(a, b, c, d);
    let r1 = tb + seq![dot] + (tc + seq![dot] + td);
    let r2 = tc + seq![dot] + td;
    assert(t =~= ta + seq![dot] + r1);
    assert(t[ta.len() as int] == dot);
    assert(forall|j: int| 0 <= j < ta.len() ==> t[j] == #[trigger] ta[j]);
    lemma_find_first_is(t, dot, ta.len() as int);
    let i = find_first(t, dot);
    assert(t.subrange(0, i) =~= ta);
    assert(t.subrange(i + 1, t.len() as int) =~= r1);
    assert(r1[tb.len() as int] == dot);
    assert(forall|j: int| 0 <= j < tb.len() ==> r1[j] == #[trigger] tb[j]);
    lemma_find_first_is(r1, dot, tb.len() as int);
    let j = find_first(r1, dot);
    assert(r1.subrange(0, j) =~= tb);
    assert(r1.subrange(j + 1, r1.len() as int) =~= r2);
    assert(r2[tc.len() as int] == dot);
    assert(forall|j2: int| 0 <= j2 < tc.len() ==> r2[j2] == #[trigger] tc[j2]);
    lemma_find_first_is(r2, dot, tc.len() as int);
    let k = find_first(r2, dot);
    assert(r2.subrange(0, k) =~= tc);
    assert(r2.subrange(k + 1, r2.len() as int) =~= td);
    assert(forall|j2: int| 0 <= j2 < td.len() ==> #[trigger] td[j2] != dot);
    lemma_find_first_is(td, dot, td.len() as int);
    assert(parse_octet_spec(ta) == Some(a));
    assert(parse_octet_spec(tb) == Some(b));
    assert(parse_octet_spec(tc) == Some(c));
    assert(parse_octet_spec(td) == Some(d));
    assert forall|i2: int| 0 <= i2 < t.len() implies is_dec_digit(#[trigger] t[i2]) || t[i2]
        == dot by {
        if i2 < ta.len() {
            assert(t[i2] == ta[i2]);
        } else if i2 == ta.len() {
        } else {
            let x = i2 - ta.len() - 1;
            assert(t[i2] == r1[x]);
            if x < tb.len() {
                assert(r1[x] == tb[x]);
            } else if x == tb.len() {
            } else {
                let y = x - tb.len() - 1;
                assert(r1[x] == r2[y]);
                if y < tc.len() {
                    assert(r2[y] == tc[y]);
                } else if y == tc.len() {
                } else {
                    assert(r2[y] == td[y - tc.len() - 1]);
                }
            }
        }
    }
}

/// Round trip: parsing the canonical text of a valid target address gives the
/// same address back. Every address `parse_target` returns is valid, so for
/// all parsed addresses, parse of display is the identity.
pub proof fn lemma_target_round_trip(t: TargetView)
    requires
        valid_target(t),
    ensures
        parse_target_spec(target_text(t)) == Some(t),
{
    let colon = ':' as u8;
    let s = target_text(t);
    match t {
        TargetView::Domain { host, port } => {
            let p = dec_digits(port as nat);
            lemma_dec_digits_value(port as nat);
            lemma_find_first(host, colon);
            assert(s =~= host + seq![colon] + p);
            assert(s[0] == host[0]);
            assert(s[host.len() as int] == colon);
            assert(forall|j: int| 0 <= j < host.len() ==> s[j] == #[trigger] host[j]);
            lemma_find_first_is(s, colon, host.len() as int);
            let i = find_first(s, colon);
            assert(s.subrange(0, i) =~= host);
            assert(s.subrange(i + 1, s.len() as int) =~= p);
            assert(parse_port_spec(p) == Some(port));
            assert(parse_target_spec(s) == Some(TargetView::Domain { host: s.subrange(0, i), port }));
            assert(TargetView::Domain { host: s.subrange(0, i), port } =~= t);
        },
        TargetView::V4 { a, b, c, d, port } => {
            let h = v4_host_text(a, b, c, d);
            let p = dec_digits(port as nat);
            lemma_dec_digits_value(port as nat);
            lemma_v4_host_round_trip(a, b, c, d);
            assert(s =~= h + seq![colon] + p);
            assert(s[0] == h[0]);
            assert(!is_dec_digit('[' as u8));
            assert(s[h.len() as int] == colon);
            assert(forall|j: int| 0 <= j < h.len() ==> s[j] == #[trigger] h[j]);
            assert(forall|j: int| 0 <= j < h.len() ==> s[j] != colon);
            lemma_find_first_is(s, colon, h.len() as int);
            let i = find_first(s, colon);
            assert(s.subrange(0, i) =~= h);
            assert(s.subrange(i + 1, s.len() as int) =~= p);
            assert(parse_port_spec(p) == Some(port));
            assert(parse_target_spec(s) == Some(TargetView::V4 { a, b, c, d, port }));
        },
        TargetView::V6 { groups, port } => {
            let close = ']' as u8;
            let g = v6_groups_text(groups);
            let p = dec_digits(port as nat);
            lemma_dec_digits_value(port as nat);
            lemma_v6_text_bytes(groups);
            lemma_v6_host_round_trip(groups);
            assert(s =~= seq!['[' as u8] + g + seq![close, colon] + p);
            assert(s[0] == '[' as u8);
            assert(s[g.len() as int + 1] == close);
            assert(forall|j: int| 1 <= j < g.len() + 1 ==> s[j] == #[trigger] g[j - 1]);
            assert(forall|j: int| 0 <= j < g.len() + 1 ==> s[j] != close);
            lemma_find_first_is(s, close, g.len() as int + 1);
            let j = find_first(s, close);
            assert(j + 2 <= s.len());
            assert(s[j + 1] == colon);
            assert(s.subrange(1, j) =~= g);
            assert(s.subrange(j + 2, s.len() as int) =~= p);
            assert(parse_port_spec(p) == Some(port));
            assert(parse_v6_host(s.subrange(1, j)) == Some(groups));
            assert(parse_target_spec(s) == Some(TargetView::V6 { groups, port }));
        },
    }
}

} // verus!
