//! HTTP/1.1 message codec: request and response lines with ordered headers.
//!
//! Messages are parsed from and serialized to byte strings. Headers keep
//! their insertion order, lookup is case-insensitive and returns the first
//! match, duplicates are allowed. Parsing the serialized form of a
//! well-formed message gives the message back, header order included.

use vstd::prelude::*;

use crate::text::{
    append_bytes, bytes_eq_ignore_case, dec_digits, dec_value, eq_ignore_case, find_byte,
    format_dec, is_dec_string, lemma_dec_digits_value, parse_dec, subvec,
};
use crate::addr::{find_first, lemma_find_first_is};

verus! {

pub const CR: u8 = 13;

pub const LF: u8 = 10;

pub const SP: u8 = 32;

pub const HT: u8 = 9;

pub const COLON: u8 = 58;

/// Horizontal whitespace.
pub open spec fn is_ws(b: u8) -> bool {
    b == SP || b == HT
}

/// A protocol token: non-empty, no space, no line break.
pub open spec fn token_ok(s: Seq<u8>) -> bool {
    s.len() > 0 && forall|i: int| 0 <= i < s.len() ==> #[trigger] s[i] != SP && s[i] != CR && s[i]
        != LF
}

/// Free text on one line: no line break (spaces allowed).
pub open spec fn line_ok(s: Seq<u8>) -> bool {
    forall|i: int| 0 <= i < s.len() ==> #[trigger] s[i] != CR && s[i] != LF
}

/// No leading or trailing horizontal whitespace.
pub open spec fn trimmed(s: Seq<u8>) -> bool {
    s.len() == 0 || (!is_ws(s[0]) && !is_ws(s.last()))
}

/// One message header.
#[derive(Debug, Clone, PartialEq, Eq)]
pub struct Header {
    pub name: Vec<u8>,
    pub value: Vec<u8>,
}

/// Spec-level model of one header.
#[verifier::ext_equal]
pub struct HeaderView {
    pub name: Seq<u8>,
    pub value: Seq<u8>,
}

impl View for Header {
    type V = HeaderView;

    open spec fn view(&self) -> HeaderView {
        HeaderView { name: self.name@, value: self.value@ }
    }
}

impl HeaderView {
    /// A header that serializes and parses back to itself: the name is
    /// non-empty with no colon and no line break; the value is one line of
    /// text with no whitespace at either end.
    pub open spec fn wf(&self) -> bool {
        &&& self.name.len() > 0
        &&& forall|i: int|
            0 <= i < self.name.len() ==> #[trigger] self.name[i] != COLON && self.name[i] != CR
                && self.name[i] != LF
        &&& line_ok(self.value)
        &&& trimmed(self.value)
    }
}

/// The views of a header list, in order.
pub open spec fn headers_view(hs: Seq<Header>) -> Seq<HeaderView> {
    hs.map_values(|h: Header| h@)
}

/// Serialized form of one header: `name: value` and a line break.
pub open spec fn header_text(h: HeaderView) -> Seq<u8> {
    h.name + seq![COLON, SP] + h.value + seq![CR, LF]
}

/// Serialized form of a header list, in order.
pub open spec fn headers_text(hs: Seq<HeaderView>) -> Seq<u8>
    decreases hs.len(),
{
    if hs.len() == 0 {
        Seq::empty()
    } else {
        header_text(hs[0]) + headers_text(hs.drop_first())
    }
}

/// Appending a header appends its text.
pub proof fn lemma_headers_text_push(hs: Seq<HeaderView>, h: HeaderView)
    ensures
        headers_text(hs.push(h)) == headers_text(hs) + header_text(h),
    decreases hs.len(),
{
    reveal_with_fuel(headers_text, 3);
    if hs.len() == 0 {
        assert(hs.push(h).drop_first() =~= Seq::<HeaderView>::empty());
        assert(hs.push(h)[0] == h);
        assert(headers_text(hs.push(h)) =~= header_text(h));
        assert(headers_text(hs) + header_text(h) =~= header_text(h));
    } else {
        lemma_headers_text_push(hs.drop_first(), h);
        assert(hs.push(h).drop_first() =~= hs.drop_first().push(h));
        assert(headers_text(hs.push(h)) == header_text(hs[0]) + headers_text(
            hs.drop_first().push(h),
        ));
        assert(header_text(hs[0]) + (headers_text(hs.drop_first()) + header_text(h)) =~= (
        header_text(hs[0]) + headers_text(hs.drop_first())) + header_text(h));
    }
}

/// First value among `hs` whose name equals `name` up to ASCII case.
pub open spec fn lookup(hs: Seq<HeaderView>, name: Seq<u8>) -> Option<Seq<u8>>
    decreases hs.len(),
{
    if hs.len() == 0 {
        None
    } else if eq_ignore_case(hs[0].name, name) {
        Some(hs[0].value)
    } else {
        lookup(hs.drop_first(), name)
    }
}

/// The first value of `name` among `hs`, or `default` when it is absent.
pub open spec fn header_or(hs: Seq<HeaderView>, name: Seq<u8>, default: Seq<u8>) -> Seq<u8> {
    match lookup(hs, name) {
        Some(v) => v,
        None => default,
    }
}

/// Look up `name` in an ordered header list, first match wins, names compared
/// without regard to ASCII case.
pub fn lookup_header<'a>(hs: &'a Vec<Header>, name: &[u8]) -> (r: Option<&'a Vec<u8>>)
    ensures
        match r {
            Some(v) => lookup(headers_view(hs@), name@) == Some(v@),
            None => lookup(headers_view(hs@), name@) is None,
        },
{
    let mut i: usize = 0;
    proof {
        assert(headers_view(hs@).subrange(0, hs@.len() as int) =~= headers_view(hs@));
    }
    while i < hs.len()
        invariant
            i <= hs@.len(),
            lookup(headers_view(hs@), name@) == lookup(
                headers_view(hs@).subrange(i as int, hs@.len() as int),
                name@,
            ),
        decreases hs@.len() - i,
    {
        proof {
            let tail = headers_view(hs@).subrange(i as int, hs@.len() as int);
            assert(tail[0] == hs@[i as int]@);
            assert(tail.drop_first() =~= headers_view(hs@).subrange(i + 1, hs@.len() as int));
        }
        if bytes_eq_ignore_case(hs[i].name.as_slice(), name) {
            return Some(&hs[i].value);
        }
        i += 1;
    }
    proof {
        assert(headers_view(hs@).subrange(i as int, hs@.len() as int) =~= Seq::<
            HeaderView,
        >::empty());
    }
    None
}

/// An HTTP request: method, resource, version, ordered headers.
#[derive(Debug, Clone, PartialEq, Eq)]
pub struct HttpRequest {
    pub method: Vec<u8>,
    pub resource: Vec<u8>,
    pub version: Vec<u8>,
    pub headers: Vec<Header>,
}

/// Spec-level model of a request.
#[verifier::ext_equal]
pub struct RequestView {
    pub method: Seq<u8>,
    pub resource: Seq<u8>,
    pub version: Seq<u8>,
    pub headers: Seq<HeaderView>,
}

impl View for HttpRequest {
    type V = RequestView;

    open spec fn view(&self) -> RequestView {
        RequestView {
            method: self.method@,
            resource: self.resource@,
            version: self.version@,
            headers: headers_view(self.headers@),
        }
    }
}

impl RequestView {
    /// A request that serializes and parses back to itself.
    pub open spec fn wf(&self) -> bool {
        &&& token_ok(self.method)
        &&& token_ok(self.resource)
        &&& token_ok(self.version)
        &&& forall|i: int| 0 <= i < self.headers.len() ==> (#[trigger] self.headers[i]).wf()
    }
}

/// Serialized form of a request: request line, headers, blank line.
pub open spec fn request_text(r: RequestView) -> Seq<u8> {
    r.method + seq![SP] + r.resource + seq![SP] + r.version + seq![CR, LF] + headers_text(r.headers)
        + seq![CR, LF]
}

/// An HTTP response: version, status code, status text, ordered headers.
#[derive(Debug, Clone, PartialEq, Eq)]
pub struct HttpResponse {
    pub version: Vec<u8>,
    pub code: u16,
    pub status: Vec<u8>,
    pub headers: Vec<Header>,
}

/// Spec-level model of a response.
#[verifier::ext_equal]
pub struct ResponseView {
    pub version: Seq<u8>,
    pub code: u16,
    pub status: Seq<u8>,
    pub headers: Seq<HeaderView>,
}

impl View for HttpResponse {
    type V = ResponseView;

    open spec fn view(&self) -> ResponseView {
        ResponseView {
            version: self.version@,
            code: self.code,
            status: self.status@,
            headers: headers_view(self.headers@),
        }
    }
}

impl ResponseView {
    /// A response that serializes and parses back to itself.
    pub open spec fn wf(&self) -> bool {
        &&& token_ok(self.version)
        &&& line_ok(self.status)
        &&& forall|i: int| 0 <= i < self.headers.len() ==> (#[trigger] self.headers[i]).wf()
    }
}

/// Serialized form of a response: status line, headers, blank line.
pub open spec fn response_text(r: ResponseView) -> Seq<u8> {
    r.version + seq![SP] + dec_digits(r.code as nat) + seq![SP] + r.status + seq![CR, LF]
        + headers_text(r.headers) + seq![CR, LF]
}

/// Serialize the headers of a message.
fn encode_headers(hs: &Vec<Header>, out: &mut Vec<u8>)
    ensures
        final(out)@ == old(out)@ + headers_text(headers_view(hs@)),
{
    let mut i: usize = 0;
    proof {
        assert(headers_view(hs@).subrange(0, 0) =~= Seq::<HeaderView>::empty());
        assert(out@ =~= out@ + headers_text(headers_view(hs@).subrange(0, 0)));
    }
    while i < hs.len()
        invariant
            i <= hs@.len(),
            out@ == old(out)@ + headers_text(headers_view(hs@).subrange(0, i as int)),
        decreases hs@.len() - i,
    {
        append_bytes(out, hs[i].name.as_slice());
        out.push(COLON);
        out.push(SP);
        append_bytes(out, hs[i].value.as_slice());
        out.push(CR);
        out.push(LF);
        proof {
            let pre = headers_view(hs@).subrange(0, i as int);
            let hv = hs@[i as int]@;
            lemma_headers_text_push(pre, hv);
            assert(pre.push(hv) =~= headers_view(hs@).subrange(0, i + 1));
            assert(out@ =~= old(out)@ + (headers_text(pre) + header_text(hv)));
        }
        i += 1;
    }
    proof {
        assert(headers_view(hs@).subrange(0, hs@.len() as int) =~= headers_view(hs@));
    }
}

impl HttpRequest {
    /// A request with the given method and resource, version `HTTP/1.1`, and
    /// no headers yet.
    pub fn new(method: Vec<u8>, resource: Vec<u8>) -> (r: Self)
        ensures
            r@.method == method@,
            r@.resource == resource@,
            r@.version == http11(),
            r@.headers == Seq::<HeaderView>::empty(),
    {
        let version = http11_bytes();
        let r = HttpRequest { method, resource, version, headers: Vec::new() };
        proof {
            assert(headers_view(r.headers@) =~= Seq::<HeaderView>::empty());
        }
        r
    }

    /// Append one header, keeping order.
    pub fn with_header(self, name: Vec<u8>, value: Vec<u8>) -> (r: Self)
        ensures
            r@.method == self@.method,
            r@.resource == self@.resource,
            r@.version == self@.version,
            r@.headers == self@.headers.push(HeaderView { name: name@, value: value@ }),
    {
        let mut headers = self.headers;
        headers.push(Header { name, value });
        let r = HttpRequest {
            method: self.method,
            resource: self.resource,
            version: self.version,
            headers,
        };
        proof {
            assert(headers_view(r.headers@) =~= headers_view(self.headers@).push(
                r.headers@.last()@,
            ));
        }
        r
    }

    /// The first value of the named header, the default when it is absent.
    pub fn header(&self, name: &[u8], default: &[u8]) -> (r: Vec<u8>)
        ensures
            r@ == match lookup(self@.headers, name@) {
                Some(v) => v,
                None => default@,
            },
    {
        match lookup_header(&self.headers, name) {
            Some(v) => subvec(v.as_slice(), 0, v.len()),
            None => subvec(default, 0, default.len()),
        }
    }

    /// The canonical serialized form.
    pub fn encode(&self) -> (r: Vec<u8>)
        ensures
            r@ == request_text(self@),
    {
        let mut out: Vec<u8> = Vec::new();
        append_bytes(&mut out, self.method.as_slice());
        out.push(SP);
        append_bytes(&mut out, self.resource.as_slice());
        out.push(SP);
        append_bytes(&mut out, self.version.as_slice());
        out.push(CR);
        out.push(LF);
        encode_headers(&self.headers, &mut out);
        out.push(CR);
        out.push(LF);
        proof {
            assert(out@ =~= request_text(self@));
        }
        out
    }
}

impl HttpResponse {
    /// A response with the given code and status, version `HTTP/1.1`, and no
    /// headers yet.
    pub fn new(code: u16, status: Vec<u8>) -> (r: Self)
        ensures
            r@.code == code,
            r@.status == status@,
            r@.version == http11(),
            r@.headers == Seq::<HeaderView>::empty(),
    {
        let version = http11_bytes();
        let r = HttpResponse { version, code, status, headers: Vec::new() };
        proof {
            assert(headers_view(r.headers@) =~= Seq::<HeaderView>::empty());
        }
        r
    }

    /// Append one header, keeping order.
    pub fn with_header(self, name: Vec<u8>, value: Vec<u8>) -> (r: Self)
        ensures
            r@.version == self@.version,
            r@.code == self@.code,
            r@.status == self@.status,
            r@.headers == self@.headers.push(HeaderView { name: name@, value: value@ }),
    {
        let mut headers = self.headers;
        headers.push(Header { name, value });
        let r = HttpResponse {
            version: self.version,
            code: self.code,
            status: self.status,
            headers,
        };
        proof {
            assert(headers_view(r.headers@) =~= headers_view(self.headers@).push(
                r.headers@.last()@,
            ));
        }
        r
    }

    /// The first value of the named header, the default when it is absent.
    pub fn header(&self, name: &[u8], default: &[u8]) -> (r: Vec<u8>)
        ensures
            r@ == match lookup(self@.headers, name@) {
                Some(v) => v,
                None => default@,
            },
    {
        match lookup_header(&self.headers, name) {
            Some(v) => subvec(v.as_slice(), 0, v.len()),
            None => subvec(default, 0, default.len()),
        }
    }

    /// The canonical serialized form.
    pub fn encode(&self) -> (r: Vec<u8>)
        ensures
            r@ == response_text(self@),
    {
        let mut out: Vec<u8> = Vec::new();
        append_bytes(&mut out, self.version.as_slice());
        out.push(SP);
        let mut code = format_dec(self.code as u32);
        out.append(&mut code);
        out.push(SP);
        append_bytes(&mut out, self.status.as_slice());
        out.push(CR);
        out.push(LF);
        encode_headers(&self.headers, &mut out);
        out.push(CR);
        out.push(LF);
        proof {
            assert(out@ =~= response_text(self@));
        }
        out
    }

    /// The serialized form followed by the verbatim body.
    pub fn encode_with_body(&self, body: &[u8]) -> (r: Vec<u8>)
        ensures
            r@ == response_text(self@) + body@,
    {
        let mut out = self.encode();
        append_bytes(&mut out, body);
        out
    }
}

/// Drop leading horizontal whitespace.
pub open spec fn trim_left(s: Seq<u8>) -> Seq<u8>
    decreases s.len(),
{
    if s.len() == 0 {
        s
    } else if is_ws(s[0]) {
        trim_left(s.drop_first())
    } else {
        s
    }
}

/// Drop trailing horizontal whitespace.
pub open spec fn trim_right(s: Seq<u8>) -> Seq<u8>
    decreases s.len(),
{
    if s.len() == 0 {
        s
    } else if is_ws(s.last()) {
        trim_right(s.drop_last())
    } else {
        s
    }
}

/// Drop horizontal whitespace at both ends.
pub open spec fn trim(s: Seq<u8>) -> Seq<u8> {
    trim_right(trim_left(s))
}

/// Trimming a single leading space off a trimmed string gives it back.
pub proof fn lemma_trim_sp(v: Seq<u8>)
    requires
        trimmed(v),
    ensures
        trim(seq![SP] + v) == v,
{
    assert((seq![SP] + v).drop_first() =~= v);
    assert(trim_left(seq![SP] + v) == trim_left(v));
}

/// Where the leading whitespace ends, `trim_left` cuts.
proof fn lemma_trim_left_is(s: Seq<u8>, a: int)
    requires
        0 <= a <= s.len(),
        forall|j: int| 0 <= j < a ==> is_ws(#[trigger] s[j]),
        a < s.len() ==> !is_ws(s[a]),
    ensures
        trim_left(s) == s.subrange(a, s.len() as int),
    decreases a,
{
    if a == 0 {
        assert(s.subrange(0, s.len() as int) =~= s);
    } else {
        lemma_trim_left_is(s.drop_first(), a - 1);
        assert(s.drop_first().subrange(a - 1, s.drop_first().len() as int) =~= s.subrange(
            a,
            s.len() as int,
        ));
    }
}

/// Where the trailing whitespace starts, `trim_right` cuts.
proof fn lemma_trim_right_is(s: Seq<u8>, b: int)
    requires
        0 <= b <= s.len(),
        forall|j: int| b <= j < s.len() ==> is_ws(#[trigger] s[j]),
        b > 0 ==> !is_ws(s[b - 1]),
    ensures
        trim_right(s) == s.subrange(0, b),
    decreases s.len() - b,
{
    if b == s.len() {
        assert(s.subrange(0, b) =~= s);
    } else {
        lemma_trim_right_is(s.drop_last(), b);
        assert(s.drop_last().subrange(0, b) =~= s.subrange(0, b));
    }
}

/// Copy of `v` with horizontal whitespace removed from both ends.
pub fn trim_bytes(v: &[u8]) -> (r: Vec<u8>)
    ensures
        r@ == trim(v@),
{
    let mut a: usize = 0;
    while a < v.len() && (v[a] == SP || v[a] == HT)
        invariant
            a <= v@.len(),
            forall|j: int| 0 <= j < a ==> is_ws(#[trigger] v@[j]),
        decreases v@.len() - a,
    {
        a += 1;
    }
    proof {
        lemma_trim_left_is(v@, a as int);
    }
    let mut b: usize = v.len();
    while b > a && (v[b - 1] == SP || v[b - 1] == HT)
        invariant
            a <= b <= v@.len(),
            forall|j: int| b <= j < v@.len() ==> is_ws(#[trigger] v@[j]),
        decreases b,
    {
        b -= 1;
    }
    let r = subvec(v, a, b);
    proof {
        let m = v@.subrange(a as int, v@.len() as int);
        lemma_trim_right_is(m, b - a);
        assert(m.subrange(0, b - a) =~= v@.subrange(a as int, b as int));
    }
    r
}

/// Parse a header block terminated by a blank line, consuming all of `s`:
/// one `name: value` line per header, values trimmed, order kept.
pub open spec fn parse_headers_spec(s: Seq<u8>) -> Option<Seq<HeaderView>>
    decreases s.len(),
{
    if s.len() == 2 && s[0] == CR && s[1] == LF {
        Some(Seq::empty())
    } else {
        let e = find_first(s, CR);
        if e <= 0 || e + 2 > s.len() || s[e + 1] != LF {
            None
        } else {
            let line = s.subrange(0, e);
            let i = find_first(line, COLON);
            if i == 0 || i >= line.len() {
                None
            } else {
                let name = line.subrange(0, i);
                let value = trim(line.subrange(i + 1, line.len() as int));
                match parse_headers_spec(s.subrange(e + 2, s.len() as int)) {
                    Some(hs) => Some(seq![HeaderView { name, value }] + hs),
                    None => None,
                }
            }
        }
    }
}

/// Parse a request: request line `METHOD SP RESOURCE SP VERSION`, then the
/// header block, consuming all of `s`.
pub open spec fn parse_request_spec(s: Seq<u8>) -> Option<RequestView> {
    let e = find_first(s, CR);
    if e <= 0 || e + 2 > s.len() || s[e + 1] != LF {
        None
    } else {
        let line = s.subrange(0, e);
        let i = find_first(line, SP);
        if i == 0 || i >= line.len() {
            None
        } else {
            let rest = line.subrange(i + 1, line.len() as int);
            let j = find_first(rest, SP);
            if j == 0 || j >= rest.len() || j + 1 >= rest.len() {
                None
            } else {
                match parse_headers_spec(s.subrange(e + 2, s.len() as int)) {
                    Some(hs) => Some(
                        RequestView {
                            method: line.subrange(0, i),
                            resource: rest.subrange(0, j),
                            version: rest.subrange(j + 1, rest.len() as int),
                            headers: hs,
                        },
                    ),
                    None => None,
                }
            }
        }
    }
}

/// Parse a response: status line `VERSION SP CODE SP STATUS`, then the header
/// block, consuming all of `s`.
pub open spec fn parse_response_spec(s: Seq<u8>) -> Option<ResponseView> {
    let e = find_first(s, CR);
    if e <= 0 || e + 2 > s.len() || s[e + 1] != LF {
        None
    } else {
        let line = s.subrange(0, e);
        let i = find_first(line, SP);
        if i == 0 || i >= line.len() {
            None
        } else {
            let rest = line.subrange(i + 1, line.len() as int);
            let j = find_first(rest, SP);
            if j == 0 || j >= rest.len() {
                None
            } else {
                let code_txt = rest.subrange(0, j);
                if !(is_dec_string(code_txt) && dec_value(code_txt) <= 65535) {
                    None
                } else {
                    match parse_headers_spec(s.subrange(e + 2, s.len() as int)) {
                        Some(hs) => Some(
                            ResponseView {
                                version: line.subrange(0, i),
                                code: dec_value(code_txt) as u16,
                                status: rest.subrange(j + 1, rest.len() as int),
                                headers: hs,
                            },
                        ),
                        None => None,
                    }
                }
            }
        }
    }
}

/// Exact executable counterpart of [`parse_headers_spec`].
pub fn parse_headers(v: &[u8]) -> (r: Option<Vec<Header>>)
    ensures
        match r {
            Some(hs) => parse_headers_spec(v@) == Some(headers_view(hs@)),
            None => parse_headers_spec(v@) is None,
        },
    decreases v@.len(),
{
    if v.len() == 2 && v[0] == CR && v[1] == LF {
        let hs: Vec<Header> = Vec::new();
        proof {
            assert(headers_view(hs@) =~= Seq::<HeaderView>::empty());
        }
        return Some(hs);
    }
    let e = match find_byte(v, 0, CR) {
        Some(e) => e,
        None => {
            proof {
                lemma_find_first_is(v@, CR, v@.len() as int);
            }
            return None;
        },
    };
    proof {
        lemma_find_first_is(v@, CR, e as int);
    }
    let vlen = v.len();
    assert(e < vlen);
    if e == 0 || e + 1 == vlen {
        return None;
    }
    if v[e + 1] != LF {
        return None;
    }
    let line = subvec(v, 0, e);
    let i = match find_byte(line.as_slice(), 0, COLON) {
        Some(i) => i,
        None => {
            proof {
                lemma_find_first_is(line@, COLON, line@.len() as int);
            }
            return None;
        },
    };
    proof {
        lemma_find_first_is(line@, COLON, i as int);
    }
    if i == 0 {
        return None;
    }
    let name = subvec(line.as_slice(), 0, i);
    let llen = line.len();
    assert(i < llen);
    let raw = subvec(line.as_slice(), i + 1, llen);
    let value = trim_bytes(raw.as_slice());
    let tail = subvec(v, e + 2, vlen);
    match parse_headers(tail.as_slice()) {
        Some(mut hs) => {
            let ghost old_hs = hs@;
            hs.insert(0, Header { name, value });
            proof {
                assert(headers_view(hs@) =~= seq![hs@[0]@] + headers_view(old_hs));
            }
            Some(hs)
        },
        None => None,
    }
}

impl HttpRequest {
    /// Exact executable counterpart of [`parse_request_spec`].
    pub fn parse(v: &[u8]) -> (r: Option<HttpRequest>)
        ensures
            match r {
                Some(req) => parse_request_spec(v@) == Some(req@),
                None => parse_request_spec(v@) is None,
            },
    {
        let e = match find_byte(v, 0, CR) {
            Some(e) => e,
            None => {
                proof {
                    lemma_find_first_is(v@, CR, v@.len() as int);
                }
                return None;
            },
        };
        proof {
            lemma_find_first_is(v@, CR, e as int);
        }
        let vlen = v.len();
        assert(e < vlen);
        if e == 0 || e + 1 == vlen {
            return None;
        }
        if v[e + 1] != LF {
            return None;
        }
        let line = subvec(v, 0, e);
        let i = match find_byte(line.as_slice(), 0, SP) {
            Some(i) => i,
            None => {
                proof {
                    lemma_find_first_is(line@, SP, line@.len() as int);
                }
                return None;
            },
        };
        proof {
            lemma_find_first_is(line@, SP, i as int);
        }
        if i == 0 {
            return None;
        }
        let llen = line.len();
        assert(i < llen);
        let rest = subvec(line.as_slice(), i + 1, llen);
        let j = match find_byte(rest.as_slice(), 0, SP) {
            Some(j) => j,
            None => {
                proof {
                    lemma_find_first_is(rest@, SP, rest@.len() as int);
                }
                return None;
            },
        };
        proof {
            lemma_find_first_is(rest@, SP, j as int);
        }
        let rlen = rest.len();
        assert(j < rlen);
        if j == 0 || j + 1 == rlen {
            return None;
        }
        let tail = subvec(v, e + 2, vlen);
        match parse_headers(tail.as_slice()) {
            Some(hs) => Some(
                HttpRequest {
                    method: subvec(line.as_slice(), 0, i),
                    resource: subvec(rest.as_slice(), 0, j),
                    version: subvec(rest.as_slice(), j + 1, rlen),
                    headers: hs,
                },
            ),
            None => None,
        }
    }
}

impl HttpResponse {
    /// Exact executable counterpart of [`parse_response_spec`].
    pub fn parse(v: &[u8]) -> (r: Option<HttpResponse>)
        ensures
            match r {
                Some(resp) => parse_response_spec(v@) == Some(resp@),
                None => parse_response_spec(v@) is None,
            },
    {
        let e = match find_byte(v, 0, CR) {
            Some(e) => e,
            None => {
                proof {
                    lemma_find_first_is(v@, CR, v@.len() as int);
                }
                return None;
            },
        };
        proof {
            lemma_find_first_is(v@, CR, e as int);
        }
        let vlen = v.len();
        assert(e < vlen);
        if e == 0 || e + 1 == vlen {
            return None;
        }
        if v[e + 1] != LF {
            return None;
        }
        let line = subvec(v, 0, e);
        let i = match find_byte(line.as_slice(), 0, SP) {
            Some(i) => i,
            None => {
                proof {
                    lemma_find_first_is(line@, SP, line@.len() as int);
                }
                return None;
            },
        };
        proof {
            lemma_find_first_is(line@, SP, i as int);
        }
        if i == 0 {
            return None;
        }
        let llen = line.len();
        assert(i < llen);
        let rest = subvec(line.as_slice(), i + 1, llen);
        let j = match find_byte(rest.as_slice(), 0, SP) {
            Some(j) => j,
            None => {
                proof {
                    lemma_find_first_is(rest@, SP, rest@.len() as int);
                }
                return None;
            },
        };
        proof {
            lemma_find_first_is(rest@, SP, j as int);
        }
        if j == 0 {
            return None;
        }
        let rlen = rest.len();
        assert(j < rlen);
        let code_txt = subvec(rest.as_slice(), 0, j);
        let code = match parse_dec(code_txt.as_slice(), 65535) {
            Some(c) => c,
            None => {
                return None;
            },
        };
        let tail = subvec(v, e + 2, vlen);
        match parse_headers(tail.as_slice()) {
            Some(hs) => Some(
                HttpResponse {
                    version: subvec(line.as_slice(), 0, i),
                    code: code as u16,
                    status: subvec(rest.as_slice(), j + 1, rlen),
                    headers: hs,
                },
            ),
            None => None,
        }
    }
}

/// Round trip for header blocks: parsing the serialized block gives the
/// headers back, in order.
pub proof fn lemma_headers_round_trip(hs: Seq<HeaderView>)
    requires
        forall|i: int| 0 <= i < hs.len() ==> (#[trigger] hs[i]).wf(),
    ensures
        parse_headers_spec(headers_text(hs) + seq![CR, LF]) == Some(hs),
    decreases hs.len(),
{
    let s = headers_text(hs) + seq![CR, LF];
    if hs.len() == 0 {
        assert(s =~= seq![CR, LF]);
        assert(parse_headers_spec(s) == Some(Seq::<HeaderView>::empty()));
        assert(Seq::<HeaderView>::empty() =~= hs);
    } else {
        let h = hs[0];
        assert(h.wf());
        let ht = header_text(h);
        let tail = headers_text(hs.drop_first()) + seq![CR, LF];
        assert(s =~= ht + tail);
        let e0 = h.name.len() + 2 + h.value.len();
        assert(s.len() > 2);
        assert(s[e0 as int] == CR);
        assert forall|j: int| 0 <= j < e0 implies s[j] != CR by {
            if j < h.name.len() {
                assert(s[j] == h.name[j]);
            } else if j == h.name.len() {
                assert(s[j] == COLON);
            } else if j == h.name.len() + 1 {
                assert(s[j] == SP);
            } else {
                assert(s[j] == h.value[j - h.name.len() - 2]);
            }
        }
        lemma_find_first_is(s, CR, e0 as int);
        let e = find_first(s, CR);
        assert(e == e0);
        assert(s[e + 1] == LF);
        let line = s.subrange(0, e);
        assert(line =~= h.name + seq![COLON, SP] + h.value);
        assert(line[h.name.len() as int] == COLON);
        assert(forall|j: int| 0 <= j < h.name.len() ==> line[j] == #[trigger] h.name[j]);
        lemma_find_first_is(line, COLON, h.name.len() as int);
        let i = find_first(line, COLON);
        assert(line.subrange(0, i) =~= h.name);
        assert(line.subrange(i + 1, line.len() as int) =~= seq![SP] + h.value);
        lemma_trim_sp(h.value);
        assert(s.subrange(e + 2, s.len() as int) =~= tail);
        lemma_headers_round_trip(hs.drop_first());
        assert(parse_headers_spec(s) == Some(
            seq![HeaderView { name: h.name, value: h.value }] + hs.drop_first(),
        ));
        assert(HeaderView { name: h.name, value: h.value } =~= h);
        assert(seq![h] + hs.drop_first() =~= hs);
    }
}

/// Round trip: parsing the serialized form of a well-formed request gives the
/// request back — method, resource, version, and the headers in order.
pub proof fn lemma_request_round_trip(r: RequestView)
    requires
        r.wf(),
    ensures
        parse_request_spec(request_text(r)) == Some(r),
{
    let s = request_text(r);
    let lin = r.method + seq![SP] + r.resource + seq![SP] + r.version;
    let tail = headers_text(r.headers) + seq![CR, LF];
    assert(s =~= lin + seq![CR, LF] + tail);
    let e0 = lin.len() as int;
    assert(s[e0] == CR);
    assert forall|j: int| 0 <= j < e0 implies s[j] != CR by {
        assert(s[j] == lin[j]);
        if j < r.method.len() {
            assert(lin[j] == r.method[j]);
        } else if j == r.method.len() {
            assert(lin[j] == SP);
        } else if j < r.method.len() + 1 + r.resource.len() {
            assert(lin[j] == r.resource[j - r.method.len() - 1]);
        } else if j == r.method.len() + 1 + r.resource.len() {
            assert(lin[j] == SP);
        } else {
            assert(lin[j] == r.version[j - r.method.len() - r.resource.len() - 2]);
        }
    }
    lemma_find_first_is(s, CR, e0);
    let e = find_first(s, CR);
    assert(s[e + 1] == LF);
    let line = s.subrange(0, e);
    assert(line =~= lin);
    assert(line[r.method.len() as int] == SP);
    assert(forall|j: int| 0 <= j < r.method.len() ==> line[j] == #[trigger] r.method[j]);
    lemma_find_first_is(line, SP, r.method.len() as int);
    let i = find_first(line, SP);
    assert(line.subrange(0, i) =~= r.method);
    let rest = line.subrange(i + 1, line.len() as int);
    assert(rest =~= r.resource + seq![SP] + r.version);
    assert(rest[r.resource.len() as int] == SP);
    assert(forall|j: int| 0 <= j < r.resource.len() ==> rest[j] == #[trigger] r.resource[j]);
    lemma_find_first_is(rest, SP, r.resource.len() as int);
    let j = find_first(rest, SP);
    assert(rest.subrange(0, j) =~= r.resource);
    assert(rest.subrange(j + 1, rest.len() as int) =~= r.version);
    assert(s.subrange(e + 2, s.len() as int) =~= tail);
    lemma_headers_round_trip(r.headers);
    assert(parse_request_spec(s) == Some(
        RequestView {
            method: line.subrange(0, i),
            resource: rest.subrange(0, j),
            version: rest.subrange(j + 1, rest.len() as int),
            headers: r.headers,
        },
    ));
    assert(RequestView {
        method: line.subrange(0, i),
        resource: rest.subrange(0, j),
        version: rest.subrange(j + 1, rest.len() as int),
        headers: r.headers,
    } =~= r);
}

/// Round trip: parsing the serialized form of a well-formed response gives
/// the response back — version, code, status, and the headers in order.
pub proof fn lemma_response_round_trip(r: ResponseView)
    requires
        r.wf(),
    ensures
        parse_response_spec(response_text(r)) == Some(r),
{
    let s = response_text(r);
    let ct = dec_digits(r.code as nat);
    lemma_dec_digits_value(r.code as nat);
    let lin = r.version + seq![SP] + ct + seq![SP] + r.status;
    let tail = headers_text(r.headers) + seq![CR, LF];
    assert(s =~= lin + seq![CR, LF] + tail);
    let e0 = lin.len() as int;
    assert(s[e0] == CR);
    assert forall|j: int| 0 <= j < e0 implies s[j] != CR by {
        assert(s[j] == lin[j]);
        if j < r.version.len() {
            assert(lin[j] == r.version[j]);
        } else if j == r.version.len() {
            assert(lin[j] == SP);
        } else if j < r.version.len() + 1 + ct.len() {
            assert(lin[j] == ct[j - r.version.len() - 1]);
        } else if j == r.version.len() + 1 + ct.len() {
            assert(lin[j] == SP);
        } else {
            assert(lin[j] == r.status[j - r.version.len() - ct.len() - 2]);
        }
    }
    lemma_find_first_is(s, CR, e0);
    let e = find_first(s, CR);
    assert(s[e + 1] == LF);
    let line = s.subrange(0, e);
    assert(line =~= lin);
    assert(line[r.version.len() as int] == SP);
    assert(forall|j: int| 0 <= j < r.version.len() ==> line[j] == #[trigger] r.version[j]);
    lemma_find_first_is(line, SP, r.version.len() as int);
    let i = find_first(line, SP);
    assert(line.subrange(0, i) =~= r.version);
    let rest = line.subrange(i + 1, line.len() as int);
    assert(rest =~= ct + seq![SP] + r.status);
    assert(rest[ct.len() as int] == SP);
    assert(forall|j: int| 0 <= j < ct.len() ==> rest[j] == #[trigger] ct[j]);
    lemma_find_first_is(rest, SP, ct.len() as int);
    let j = find_first(rest, SP);
    assert(rest.subrange(0, j) =~= ct);
    assert(rest.subrange(j + 1, rest.len() as int) =~= r.status);
    assert(s.subrange(e + 2, s.len() as int) =~= tail);
    lemma_headers_round_trip(r.headers);
    assert(parse_response_spec(s) == Some(
        ResponseView {
            version: line.subrange(0, i),
            code: dec_value(ct) as u16,
            status: rest.subrange(j + 1, rest.len() as int),
            headers: r.headers,
        },
    ));
    assert(ResponseView {
        version: line.subrange(0, i),
        code: dec_value(ct) as u16,
        status: rest.subrange(j + 1, rest.len() as int),
        headers: r.headers,
    } =~= r);
}

/// The protocol version this codec speaks.
pub open spec fn http11() -> Seq<u8> {
    seq!['H' as u8, 'T' as u8, 'T' as u8, 'P' as u8, '/' as u8, '1' as u8, '.' as u8, '1' as u8]
}

/// Executable copy of [`http11`].
pub fn http11_bytes() -> (r: Vec<u8>)
    ensures
        r@ == http11(),
{
    let mut v: Vec<u8> = Vec::new();
    v.push('H' as u8);
    v.push('T' as u8);
    v.push('T' as u8);
    v.push('P' as u8);
    v.push('/' as u8);
    v.push('1' as u8);
    v.push('.' as u8);
    v.push('1' as u8);
    proof {
        assert(v@ =~= http11());
    }
    v
}

} // verus!
