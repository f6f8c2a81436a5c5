//! HTTP request construction: a consuming builder that lays the method
//! line, the `Date` header, the optional authentication, `Depth` and
//! content-type headers, and last the `Content-Length` header, the blank
//! line and the body. The byte image of every step is stated exactly, so
//! that what goes on the wire is pinned down by the inputs and the date.

use base64::Engine;
use vstd::prelude::*;
use vstd::string::StringSliceAdditionalSpecFns;
use vstd::utf8::is_ascii_chars;

use crate::framer::spec_crlf;
use crate::framer::crlf_bytes;
use crate::scan::{
    append_bytes, decimal_bytes, find_from, find_sub, lemma_find_from_props,
    lemma_find_from_none, lemma_find_from_unique, lemma_find_shift, matches_at, no_crlf, no_sp,
    spec_decimal,
    spec_find, slice_part,
};

verus! {

/// One ASCII space.
pub open spec fn sp() -> Seq<u8> {
    " ".spec_bytes()
}

pub open spec fn spec_http11() -> Seq<u8> {
    "HTTP/1.1".spec_bytes()
}

/// `METHOD URI HTTP/1.1\r\n`.
pub open spec fn spec_request_line(m: Seq<u8>, u: Seq<u8>, v: Seq<u8>) -> Seq<u8> {
    m + sp() + u + sp() + v + spec_crlf()
}

/// `Date: <stamp> GMT\r\n`.
pub open spec fn spec_date_header(d: Seq<u8>) -> Seq<u8> {
    "Date: ".spec_bytes() + d + " GMT".spec_bytes() + spec_crlf()
}

/// Request line followed by the date header: what every request starts with.
pub open spec fn spec_request_head(m: Seq<u8>, u: Seq<u8>, v: Seq<u8>, d: Seq<u8>) -> Seq<u8> {
    spec_request_line(m, u, v) + spec_date_header(d)
}

pub open spec fn spec_content_type_xml() -> Seq<u8> {
    "Content-Type: application/xml; charset=utf-8".spec_bytes() + spec_crlf()
}

pub open spec fn spec_content_type_vcard() -> Seq<u8> {
    "Content-Type: text/vcard; charset=utf-8".spec_bytes() + spec_crlf()
}

pub open spec fn spec_basic_auth_header(cred: Seq<u8>) -> Seq<u8> {
    "Authorization: Basic ".spec_bytes() + cred + spec_crlf()
}

pub open spec fn spec_bearer_auth_header(token: Seq<u8>) -> Seq<u8> {
    "Authorization: Bearer ".spec_bytes() + token + spec_crlf()
}

pub open spec fn spec_depth_header(d: Seq<u8>) -> Seq<u8> {
    "Depth: ".spec_bytes() + d + spec_crlf()
}

/// `Content-Length: <n>\r\n\r\n<body>`: always the last part of a request.
pub open spec fn spec_body_section(body: Seq<u8>) -> Seq<u8> {
    "Content-Length: ".spec_bytes() + spec_decimal(body.len()) + spec_crlf() + spec_crlf() + body
}

/// Relies on chrono's `Utc::now` and `DateTime::format` with a fixed
/// RFC-1123-style picture: the stamp is text with neither CR nor LF.
#[verifier::external_body]
fn http_date_now() -> (r: Vec<u8>)
    ensures
        no_crlf(r@),
{
    chrono::Utc::now().format("%a, %d %b %Y %T").to_string().into_bytes()
}

/// What `base64::engine::general_purpose::STANDARD.encode` returns for a
/// given input; it depends on the input bytes alone.
pub uninterp spec fn base64_of(s: Seq<u8>) -> Seq<u8>;

/// A byte of the standard base64 alphabet, or its padding.
pub open spec fn is_base64_byte(b: u8) -> bool {
    (65 <= b <= 90) || (97 <= b <= 122) || (48 <= b <= 57) || b == 43 || b == 47 || b == 61
}

/// Relies on base64's `STANDARD` engine: the encoding of the input with
/// the alphabet `A-Z a-z 0-9 + /` and `=` padding, without line breaks.
#[verifier::external_body]
fn base64_encode(input: &[u8]) -> (r: Vec<u8>)
    ensures
        r@ == base64_of(input@),
        forall|i: int| 0 <= i < r@.len() ==> is_base64_byte(#[trigger] r@[i]),
{
    base64::engine::general_purpose::STANDARD.encode(input).into_bytes()
}

/// An HTTP request under construction. `bytes` is the exact wire image so
/// far; `date` records the stamp the `Date` header was written with, and
/// `finished` turns once the body is appended, after which no header may
/// be added.
pub struct Request {
    pub bytes: Vec<u8>,
    pub date: Ghost<Seq<u8>>,
    pub finished: Ghost<bool>,
}

impl Request {
    /// Start a request whose target is given as raw bytes.
    pub fn new_raw(method: &str, uri: &[u8]) -> (r: Self)
        ensures
            r.bytes@ == spec_request_head(method.spec_bytes(), uri@, spec_http11(), r.date@),
            no_crlf(r.date@),
            !r.finished@,
    {
        let mut bytes: Vec<u8> = Vec::new();
        let crlf = crlf_bytes();
        append_bytes(&mut bytes, method.as_bytes());
        append_bytes(&mut bytes, " ".as_bytes());
        append_bytes(&mut bytes, uri);
        append_bytes(&mut bytes, " ".as_bytes());
        append_bytes(&mut bytes, "HTTP/1.1".as_bytes());
        append_bytes(&mut bytes, crlf.as_slice());
        append_bytes(&mut bytes, "Date: ".as_bytes());
        let date = http_date_now();
        append_bytes(&mut bytes, date.as_slice());
        append_bytes(&mut bytes, " GMT".as_bytes());
        append_bytes(&mut bytes, crlf.as_slice());
        let r = Request { bytes, date: Ghost(date@), finished: Ghost(false) };
        proof {
            assert(r.bytes@ =~= spec_request_head(
                method.spec_bytes(),
                uri@,
                spec_http11(),
                date@,
            ));
        }
        r
    }

    pub fn new(method: &str, uri: &str) -> (r: Self)
        ensures
            r.bytes@ == spec_request_head(
                method.spec_bytes(),
                uri.spec_bytes(),
                spec_http11(),
                r.date@,
            ),
            no_crlf(r.date@),
            !r.finished@,
    {
        Self::new_raw(method, uri.as_bytes())
    }

    pub fn propfind(uri: &str) -> (r: Self)
        ensures
            r.bytes@ == spec_request_head(
                "PROPFIND".spec_bytes(),
                uri.spec_bytes(),
                spec_http11(),
                r.date@,
            ),
            no_crlf(r.date@),
            !r.finished@,
    {
        Self::new("PROPFIND", uri)
    }

    pub fn report(uri: &str) -> (r: Self)
        ensures
            r.bytes@ == spec_request_head(
                "REPORT".spec_bytes(),
                uri.spec_bytes(),
                spec_http11(),
                r.date@,
            ),
            no_crlf(r.date@),
            !r.finished@,
    {
        Self::new("REPORT", uri)
    }

    pub fn mkcol(uri: &str) -> (r: Self)
        ensures
            r.bytes@ == spec_request_head(
                "MKCOL".spec_bytes(),
                uri.spec_bytes(),
                spec_http11(),
                r.date@,
            ),
            no_crlf(r.date@),
            !r.finished@,
    {
        Self::new("MKCOL", uri)
    }

    pub fn proppatch(uri: &str) -> (r: Self)
        ensures
            r.bytes@ == spec_request_head(
                "PROPPATCH".spec_bytes(),
                uri.spec_bytes(),
                spec_http11(),
                r.date@,
            ),
            no_crlf(r.date@),
            !r.finished@,
    {
        Self::new("PROPPATCH", uri)
    }

    pub fn put(uri: &str) -> (r: Self)
        ensures
            r.bytes@ == spec_request_head(
                "PUT".spec_bytes(),
                uri.spec_bytes(),
                spec_http11(),
                r.date@,
            ),
            no_crlf(r.date@),
            !r.finished@,
    {
        Self::new("PUT", uri)
    }

    pub fn delete(uri: &str) -> (r: Self)
        ensures
            r.bytes@ == spec_request_head(
                "DELETE".spec_bytes(),
                uri.spec_bytes(),
                spec_http11(),
                r.date@,
            ),
            no_crlf(r.date@),
            !r.finished@,
    {
        Self::new("DELETE", uri)
    }

    pub fn get(uri: &str) -> (r: Self)
        ensures
            r.bytes@ == spec_request_head(
                "GET".spec_bytes(),
                uri.spec_bytes(),
                spec_http11(),
                r.date@,
            ),
            no_crlf(r.date@),
            !r.finished@,
    {
        Self::new("GET", uri)
    }

    pub fn content_type_xml(self) -> (r: Self)
        requires
            !self.finished@,
        ensures
            r.bytes@ == self.bytes@ + spec_content_type_xml(),
            r.date == self.date,
            !r.finished@,
    {
        let mut bytes = self.bytes;
        append_bytes(&mut bytes, "Content-Type: application/xml; charset=utf-8".as_bytes());
        let crlf = crlf_bytes();
        append_bytes(&mut bytes, crlf.as_slice());
        let r = Request { bytes, date: self.date, finished: Ghost(false) };
        proof {
            assert(r.bytes@ =~= self.bytes@ + spec_content_type_xml());
        }
        r
    }

    pub fn content_type_vcard(self) -> (r: Self)
        requires
            !self.finished@,
        ensures
            r.bytes@ == self.bytes@ + spec_content_type_vcard(),
            r.date == self.date,
            !r.finished@,
    {
        let mut bytes = self.bytes;
        append_bytes(&mut bytes, "Content-Type: text/vcard; charset=utf-8".as_bytes());
        let crlf = crlf_bytes();
        append_bytes(&mut bytes, crlf.as_slice());
        let r = Request { bytes, date: self.date, finished: Ghost(false) };
        proof {
            assert(r.bytes@ =~= self.bytes@ + spec_content_type_vcard());
        }
        r
    }

    /// `Authorization: Basic <base64(user:pass)>`.
    pub fn basic_auth(self, user: &str, pass: &str) -> (r: Self)
        requires
            !self.finished@,
        ensures
            r.bytes@ == self.bytes@ + spec_basic_auth_header(
                base64_of(user.spec_bytes() + ":".spec_bytes() + pass.spec_bytes()),
            ),
            r.date == self.date,
            !r.finished@,
    {
        let mut plain: Vec<u8> = Vec::new();
        append_bytes(&mut plain, user.as_bytes());
        append_bytes(&mut plain, ":".as_bytes());
        append_bytes(&mut plain, pass.as_bytes());
        let cred = base64_encode(plain.as_slice());
        let mut bytes = self.bytes;
        append_bytes(&mut bytes, "Authorization: Basic ".as_bytes());
        append_bytes(&mut bytes, cred.as_slice());
        let crlf = crlf_bytes();
        append_bytes(&mut bytes, crlf.as_slice());
        let r = Request { bytes, date: self.date, finished: Ghost(false) };
        proof {
            assert(r.bytes@ =~= self.bytes@ + spec_basic_auth_header(
                base64_of(user.spec_bytes() + ":".spec_bytes() + pass.spec_bytes()),
            ));
        }
        r
    }

    /// `Authorization: Bearer <token>`.
    pub fn bearer_auth(self, token: &str) -> (r: Self)
        requires
            !self.finished@,
        ensures
            r.bytes@ == self.bytes@ + spec_bearer_auth_header(token.spec_bytes()),
            r.date == self.date,
            !r.finished@,
    {
        let mut bytes = self.bytes;
        append_bytes(&mut bytes, "Authorization: Bearer ".as_bytes());
        append_bytes(&mut bytes, token.as_bytes());
        let crlf = crlf_bytes();
        append_bytes(&mut bytes, crlf.as_slice());
        let r = Request { bytes, date: self.date, finished: Ghost(false) };
        proof {
            assert(r.bytes@ =~= self.bytes@ + spec_bearer_auth_header(token.spec_bytes()));
        }
        r
    }

    pub fn depth(self, depth: &str) -> (r: Self)
        requires
            !self.finished@,
        ensures
            r.bytes@ == self.bytes@ + spec_depth_header(depth.spec_bytes()),
            r.date == self.date,
            !r.finished@,
    {
        let mut bytes = self.bytes;
        append_bytes(&mut bytes, "Depth: ".as_bytes());
        append_bytes(&mut bytes, depth.as_bytes());
        let crlf = crlf_bytes();
        append_bytes(&mut bytes, crlf.as_slice());
        let r = Request { bytes, date: self.date, finished: Ghost(false) };
        proof {
            assert(r.bytes@ =~= self.bytes@ + spec_depth_header(depth.spec_bytes()));
        }
        r
    }

    /// Append `Content-Length`, the blank line and the body itself, as
    /// raw bytes. The builder is finished afterwards: no header may
    /// follow the body.
    pub fn body_bytes(self, body: &[u8]) -> (r: Self)
        requires
            !self.finished@,
        ensures
            r.bytes@ == self.bytes@ + spec_body_section(body@),
            r.date == self.date,
            r.finished@,
    {
        let mut bytes = self.bytes;
        append_bytes(&mut bytes, "Content-Length: ".as_bytes());
        let blen = body.len();
        let digits = decimal_bytes(blen as u64);
        append_bytes(&mut bytes, digits.as_slice());
        let crlf = crlf_bytes();
        append_bytes(&mut bytes, crlf.as_slice());
        append_bytes(&mut bytes, crlf.as_slice());
        append_bytes(&mut bytes, body);
        let r = Request { bytes, date: self.date, finished: Ghost(true) };
        proof {
            assert(r.bytes@ =~= self.bytes@ + spec_body_section(body@));
        }
        r
    }

    /// Append `Content-Length`, the blank line and the body itself. The
    /// builder is finished afterwards: no header may follow the body.
    pub fn body(self, body: &str) -> (r: Self)
        requires
            !self.finished@,
        ensures
            r.bytes@ == self.bytes@ + spec_body_section(body.spec_bytes()),
            r.date == self.date,
            r.finished@,
    {
        self.body_bytes(body.as_bytes())
    }

    /// The wire image of the request.
    pub fn into_bytes(self) -> (r: Vec<u8>)
        ensures
            r@ == self.bytes@,
    {
        self.bytes
    }
}

/// The space byte, concretely.
pub proof fn lemma_sp_bytes()
    ensures
        sp() =~= seq![32u8],
{
    let s = " ";
    reveal_strlit(" ");
    assert(is_ascii_chars(s@)) by {
        assert forall|i: int| 0 <= i < s@.len() implies '\0' <= #[trigger] s@[i] <= '\u{7f}' by {}
    }
    vstd::string::is_ascii_spec_bytes(s);
}

/// The method parsed back from a request image: the bytes before the
/// first space.
pub open spec fn spec_parsed_method(b: Seq<u8>) -> Option<Seq<u8>> {
    match spec_find(b, sp()) {
        None => None,
        Some(i) => Some(b.subrange(0, i)),
    }
}

/// The URI parsed back from a request image: the bytes between the first
/// and the second space.
pub open spec fn spec_parsed_uri(b: Seq<u8>) -> Option<Seq<u8>> {
    match spec_find(b, sp()) {
        None => None,
        Some(i) => match find_from(b, sp(), i + 1) {
            None => None,
            Some(j) => Some(b.subrange(i + 1, j)),
        },
    }
}

pub fn parsed_method(b: &[u8]) -> (r: Option<Vec<u8>>)
    ensures
        match r {
            Some(v) => spec_parsed_method(b@) == Some(v@),
            None => spec_parsed_method(b@) is None,
        },
{
    let mut space: Vec<u8> = Vec::new();
    space.push(32u8);
    proof {
        lemma_sp_bytes();
        assert(space@ =~= sp());
    }
    match find_sub(b, space.as_slice()) {
        None => None,
        Some(i) => {
            proof {
                lemma_find_from_props(b@, sp(), 0);
            }
            Some(crate::scan::bytes_of(slice_part(b, 0, i)))
        },
    }
}

pub fn parsed_uri(b: &[u8]) -> (r: Option<Vec<u8>>)
    ensures
        match r {
            Some(v) => spec_parsed_uri(b@) == Some(v@),
            None => spec_parsed_uri(b@) is None,
        },
{
    let mut space: Vec<u8> = Vec::new();
    space.push(32u8);
    proof {
        lemma_sp_bytes();
        assert(space@ =~= sp());
    }
    let blen = b.len();
    let i = match find_sub(b, space.as_slice()) {
        None => {
            return None;
        },
        Some(i) => i,
    };
    proof {
        lemma_find_from_props(b@, sp(), 0);
        assert(i + 1 <= blen);
    }
    let rest = slice_part(b, i + 1, b.len());
    match find_sub(rest, space.as_slice()) {
        None => {
            proof {
                lemma_find_shift(b@, sp(), i as int + 1);
            }
            None
        },
        Some(j_rel) => {
            proof {
                lemma_find_shift(b@, sp(), i as int + 1);
                lemma_find_from_props(b@, sp(), i as int + 1);
                assert(b@.subrange(i as int + 1, i as int + 1 + j_rel as int) =~= b@.subrange(
                    i as int + 1,
                    b@.len() as int,
                ).subrange(0, j_rel as int));
            }
            Some(crate::scan::bytes_of(slice_part(b, i + 1, i + 1 + j_rel)))
        },
    }
}

/// A request image starts with its method: parsing the bytes back gives
/// the method the request was built with, for any method free of spaces.
pub proof fn lemma_method_round_trip(m: Seq<u8>, u: Seq<u8>, v: Seq<u8>, rest: Seq<u8>)
    requires
        no_sp(m),
    ensures
        spec_parsed_method(spec_request_line(m, u, v) + rest) == Some(m),
{
    lemma_sp_bytes();
    let b = spec_request_line(m, u, v) + rest;
    assert(b.subrange(m.len() as int, m.len() as int + 1) =~= sp());
    assert(matches_at(b, sp(), m.len() as int));
    assert forall|k: int| 0 <= k < m.len() implies !matches_at(b, sp(), k) by {
        assert(b[k] == m[k]);
        if matches_at(b, sp(), k) {
            assert(b.subrange(k, k + 1)[0] == b[k]);
        }
    }
    lemma_find_from_unique(b, sp(), 0, m.len() as int);
    assert(b.subrange(0, m.len() as int) =~= m);
}

/// After the method and its space comes the URI, closed by the second
/// space: parsing the bytes back gives the URI the request was built
/// with, for any method and URI free of spaces.
pub proof fn lemma_uri_round_trip(m: Seq<u8>, u: Seq<u8>, v: Seq<u8>, rest: Seq<u8>)
    requires
        no_sp(m),
        no_sp(u),
    ensures
        spec_parsed_uri(spec_request_line(m, u, v) + rest) == Some(u),
{
    lemma_sp_bytes();
    let b = spec_request_line(m, u, v) + rest;
    let i = m.len() as int;
    let j = i + 1 + u.len();
    assert(b.subrange(i, i + 1) =~= sp());
    assert(matches_at(b, sp(), i));
    assert forall|k: int| 0 <= k < i implies !matches_at(b, sp(), k) by {
        assert(b[k] == m[k]);
        if matches_at(b, sp(), k) {
            assert(b.subrange(k, k + 1)[0] == b[k]);
        }
    }
    lemma_find_from_unique(b, sp(), 0, i);
    assert(b.subrange(j, j + 1) =~= sp());
    assert(matches_at(b, sp(), j));
    assert forall|k: int| i + 1 <= k < j implies !matches_at(b, sp(), k) by {
        assert(b[k] == u[k - i - 1]);
        if matches_at(b, sp(), k) {
            assert(b.subrange(k, k + 1)[0] == b[k]);
        }
    }
    lemma_find_from_unique(b, sp(), i + 1, j);
    assert(b.subrange(i + 1, j) =~= u);
}

/// Looking a header up skips a whole leading line: a needle that starts
/// with CRLF can neither start inside a CR-free line nor on its line
/// feed, so the search continues right after the line break — or stops
/// there, when the next line begins with the name.
pub proof fn lemma_needle_skip_line(a: Seq<u8>, h1: Seq<u8>, name: Seq<u8>)
    requires
        no_crlf(a),
        name.len() > 0,
    ensures
        h1.len() >= name.len() && h1.subrange(0, name.len() as int) == name ==> spec_find(
            a + spec_crlf() + h1,
            spec_crlf() + name,
        ) == Some(a.len() as int),
        !(h1.len() >= name.len() && h1.subrange(0, name.len() as int) == name) ==> spec_find(
            a + spec_crlf() + h1,
            spec_crlf() + name,
        ) == match spec_find(h1, spec_crlf() + name) {
            Some(k) => Some(a.len() + 2 + k),
            None => None::<int>,
        },
{
    let b = a + spec_crlf() + h1;
    let n = spec_crlf() + name;
    assert forall|k: int| 0 <= k < a.len() implies !matches_at(b, n, k) by {
        assert(b[k] == a[k]);
        if matches_at(b, n, k) {
            assert(b.subrange(k, k + n.len() as int)[0] == b[k]);
        }
    }
    if matches_at(b, n, a.len() as int) {
        assert(b.subrange(a.len() as int, (a.len() + n.len()) as int) == n);
        assert(n.subrange(2, n.len() as int) =~= name);
        assert(h1.subrange(0, name.len() as int) =~= b.subrange(
            a.len() as int,
            (a.len() + n.len()) as int,
        ).subrange(2, n.len() as int));
    }
    if h1.len() >= name.len() && h1.subrange(0, name.len() as int) == name {
        assert(b.subrange(a.len() as int, (a.len() + n.len()) as int) =~= n);
        assert(matches_at(b, n, a.len() as int));
        lemma_find_from_unique(b, n, 0, a.len() as int);
    } else {
        assert(!matches_at(b, n, a.len() as int));
        assert(!matches_at(b, n, a.len() + 1 as int)) by {
            if matches_at(b, n, a.len() + 1 as int) {
                assert(b.subrange(a.len() + 1 as int, (a.len() + 1 + n.len()) as int)[0] == b[a.len() + 1 as int]);
                assert(b[a.len() + 1 as int] == 10);
            }
        }
        assert forall|k: int| 0 <= k && k + n.len() <= h1.len() implies matches_at(h1, n, k)
            == matches_at(b, n, a.len() + 2 + k) by {
            assert(h1.subrange(k, k + n.len() as int) =~= b.subrange(
                a.len() + 2 + k,
                a.len() + 2 + k + n.len(),
            ));
        }
        lemma_find_from_props(h1, n, 0);
        match spec_find(h1, n) {
            Some(k) => {
                assert(matches_at(b, n, a.len() + 2 + k));
                assert forall|m: int| 0 <= m < a.len() + 2 + k implies !matches_at(b, n, m) by {
                    if a.len() + 2 <= m {
                        assert(!matches_at(h1, n, m - a.len() - 2));
                    }
                }
                lemma_find_from_unique(b, n, 0, a.len() + 2 + k);
            },
            None => {
                assert forall|m: int| 0 <= m implies !matches_at(b, n, m) by {
                    if a.len() + 2 <= m && m + n.len() <= b.len() {
                        assert(!matches_at(h1, n, m - a.len() - 2));
                    }
                }
                lemma_find_from_none(b, n, 0);
            },
        }
    }
}

/// Once the needle's position is known, the header's value is the text
/// after the colon and the blank, up to the line's end, trimmed.
pub proof fn lemma_header_value_extract(b: Seq<u8>, name: Seq<u8>, j: int, core: Seq<u8>)
    requires
        spec_find(b, spec_crlf() + name) == Some(j),
        0 <= j,
        j + 2 + name.len() + 2 + core.len() + 2 <= b.len(),
        b[j + 2 + name.len() + 1] == 32,
        b.subrange(j + 2 + name.len() + 2, j + 2 + name.len() + 2 + core.len()) == core,
        no_crlf(core),
        b.subrange(
            j + 2 + name.len() + 2 + core.len(),
            j + 2 + name.len() + 2 + core.len() + 2,
        ) == spec_crlf(),
        crate::scan::spec_trim(core) == core,
    ensures
        crate::framer::spec_header_value(b, name) == Some(core),
{
    let vstart = j + 2 + name.len() + 1;
    let e = vstart + 1 + core.len();
    assert(matches_at(b, spec_crlf(), e)) by {
        assert(b.subrange(e, e + 2) == spec_crlf());
    }
    assert forall|k: int| vstart <= k < e implies !matches_at(b, spec_crlf(), k) by {
        if k == vstart {
            assert(b[k] == 32);
        } else {
            assert(b[k] == core[k - vstart - 1]) by {
                assert(b.subrange(vstart + 1, vstart + 1 + core.len() as int)[k - vstart - 1]
                    == b[k]);
            }
        }
        if matches_at(b, spec_crlf(), k) {
            assert(b.subrange(k, k + 2)[0] == b[k]);
        }
    }
    lemma_find_from_unique(b, spec_crlf(), vstart, e);
    let value = b.subrange(vstart, e);
    assert(value =~= seq![32u8] + core);
    assert(value.drop_first() =~= core);
    assert(crate::scan::spec_trim(value) == crate::scan::spec_trim(core)) by {
        assert(value[0] == 32);
        assert(crate::scan::is_space(value[0]));
    }
}

/// No CR and no LF in a concatenation whose parts have none.
pub proof fn lemma_no_crlf_concat(a: Seq<u8>, b: Seq<u8>)
    requires
        no_crlf(a),
        no_crlf(b),
    ensures
        no_crlf(a + b),
{
    assert forall|i: int| 0 <= i < (a + b).len() implies #[trigger] (a + b)[i] != 13 && (a + b)[i]
        != 10 by {
        if i < a.len() {
            assert((a + b)[i] == a[i]);
        } else {
            assert((a + b)[i] == b[i - a.len()]);
        }
    }
}

/// Parsing the `Date` header back out of a built request yields exactly
/// the stamp it was written with, followed by the fixed ` GMT` mark —
/// the header-value round trip for the one header every request has.
pub proof fn lemma_date_header_round_trip(m: Seq<u8>, u: Seq<u8>, d: Seq<u8>, rest: Seq<u8>)
    requires
        no_crlf(m),
        no_crlf(u),
        no_crlf(d),
        d.len() > 0,
        !crate::scan::is_space(d[0]),
    ensures
        crate::framer::spec_header_value(
            spec_request_head(m, u, spec_http11(), d) + rest,
            "Date".spec_bytes(),
        ) == Some(d + " GMT".spec_bytes()),
{
    lemma_sp_bytes();
    reveal_strlit("Date");
    reveal_strlit("Date: ");
    reveal_strlit(" GMT");
    reveal_strlit("HTTP/1.1");
    assert(is_ascii_chars("Date"@)) by {
        assert forall|i: int| 0 <= i < "Date"@.len() implies '\0' <= #[trigger] "Date"@[i]
            <= '\u{7f}' by {}
    }
    assert(is_ascii_chars("Date: "@)) by {
        assert forall|i: int| 0 <= i < "Date: "@.len() implies '\0' <= #[trigger] "Date: "@[i]
            <= '\u{7f}' by {}
    }
    assert(is_ascii_chars(" GMT"@)) by {
        assert forall|i: int| 0 <= i < " GMT"@.len() implies '\0' <= #[trigger] " GMT"@[i]
            <= '\u{7f}' by {}
    }
    assert(is_ascii_chars("HTTP/1.1"@)) by {
        assert forall|i: int| 0 <= i < "HTTP/1.1"@.len() implies '\0' <= #[trigger] "HTTP/1.1"@[i]
            <= '\u{7f}' by {}
    }
    vstd::string::is_ascii_spec_bytes("Date");
    vstd::string::is_ascii_spec_bytes("Date: ");
    vstd::string::is_ascii_spec_bytes(" GMT");
    vstd::string::is_ascii_spec_bytes("HTTP/1.1");
    let name = "Date".spec_bytes();
    assert(name =~= seq![68u8, 97u8, 116u8, 101u8]);
    let dp = "Date: ".spec_bytes();
    assert(dp =~= seq![68u8, 97u8, 116u8, 101u8, 58u8, 32u8]);
    let gm = " GMT".spec_bytes();
    assert(gm =~= seq![32u8, 71u8, 77u8, 84u8]);
    let v = spec_http11();
    assert(v =~= seq![72u8, 84u8, 84u8, 80u8, 47u8, 49u8, 46u8, 49u8]);
    let b = spec_request_head(m, u, v, d) + rest;
    let needle = crate::framer::spec_crlf() + name;
    assert(b =~= m + sp() + u + sp() + v + crate::framer::spec_crlf() + dp + d + gm
        + crate::framer::spec_crlf() + rest);
    let l1 = m.len() + 1 + u.len() + 1 + 8;
    // the needle matches right at the end of the request line
    assert(b.subrange(l1 as int, (l1 + 6) as int) =~= needle);
    assert(matches_at(b, needle, l1 as int));
    // and nowhere earlier: everything before is free of carriage returns
    assert forall|k: int| 0 <= k < l1 implies !matches_at(b, needle, k) by {
        assert(b[k] != 13);
        if matches_at(b, needle, k) {
            assert(b.subrange(k, k + 6)[0] == b[k]);
        }
    }
    lemma_find_from_unique(b, needle, 0, l1 as int);
    let vstart = l1 + 7;
    // the value runs to the end of the date line
    let e = l1 + 12 + d.len();
    assert(b.subrange(e as int, (e + 2) as int) =~= crate::framer::spec_crlf());
    assert(matches_at(b, crate::framer::spec_crlf(), e as int));
    assert forall|k: int| vstart <= k < e implies !matches_at(
        b,
        crate::framer::spec_crlf(),
        k,
    ) by {
        assert(b[k] != 13);
        if matches_at(b, crate::framer::spec_crlf(), k) {
            assert(b.subrange(k, k + 2)[0] == b[k]);
        }
    }
    lemma_find_from_unique(b, crate::framer::spec_crlf(), vstart as int, e as int);
    let value = b.subrange(vstart as int, e as int);
    assert(value =~= seq![32u8] + d + gm);
    assert(value.drop_first() =~= d + gm);
    assert(crate::scan::spec_trim(value) == crate::scan::spec_trim(d + gm)) by {
        assert(value[0] == 32);
        assert(crate::scan::is_space(value[0]));
    }
    crate::scan::lemma_trim_clean(d + gm);
    assert((d + gm)[0] == d[0]);
    assert((d + gm).last() == 84);
}

/// Requests built from the same inputs are byte-identical but for the
/// date stamp: each decomposes as the same prefix, its own stamp, and
/// the same suffix.
pub proof fn lemma_request_date_independence(
    m: Seq<u8>,
    u: Seq<u8>,
    v: Seq<u8>,
    d1: Seq<u8>,
    d2: Seq<u8>,
    suffix: Seq<u8>,
)
    ensures
        spec_request_head(m, u, v, d1) + suffix == (spec_request_line(m, u, v)
            + "Date: ".spec_bytes()) + d1 + (" GMT".spec_bytes() + spec_crlf() + suffix),
        spec_request_head(m, u, v, d2) + suffix == (spec_request_line(m, u, v)
            + "Date: ".spec_bytes()) + d2 + (" GMT".spec_bytes() + spec_crlf() + suffix),
{
    assert(spec_request_head(m, u, v, d1) + suffix =~= (spec_request_line(m, u, v)
        + "Date: ".spec_bytes()) + d1 + (" GMT".spec_bytes() + spec_crlf() + suffix));
    assert(spec_request_head(m, u, v, d2) + suffix =~= (spec_request_line(m, u, v)
        + "Date: ".spec_bytes()) + d2 + (" GMT".spec_bytes() + spec_crlf() + suffix));
}

} // verus!
