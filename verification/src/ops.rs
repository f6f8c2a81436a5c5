//! The per-operation CardDAV flows. Each one is a thin specialization of
//! the shared exchange engine: it picks the WebDAV method, the target
//! path, the request body, and the reading of the response, and leaves
//! all framing to `SendReceiveFlow`.

use vstd::prelude::*;
use vstd::string::StringSliceAdditionalSpecFns;

use crate::flow::{HttpResponse, ProtocolError, SendReceiveFlow, State};
use crate::model::{
    addressbooks_of, cards_of, spec_addressbooks, spec_cards, Addressbook, Card,
};
use crate::request::{
    spec_basic_auth_header, spec_bearer_auth_header, spec_body_section, spec_content_type_vcard,
    spec_content_type_xml, spec_depth_header, spec_http11, spec_request_head, base64_of, Request,
};
use crate::scan::{append_bytes, no_crlf, string_bytes};
use crate::xml::parse_multistatus;

verus! {

/// A resolved authentication mode: credential lookup (keyrings, shell
/// commands) happens before the engine is involved.
#[derive(Clone)]
pub enum Auth {
    Plain,
    Basic { username: String, password: String },
    Bearer { token: String },
}

/// What one authentication mode adds to a request.
pub open spec fn spec_auth_suffix(a: Auth) -> Seq<u8> {
    match a {
        Auth::Plain => Seq::<u8>::empty(),
        Auth::Basic { username, password } => spec_basic_auth_header(
            base64_of(string_bytes(username) + ":".spec_bytes() + string_bytes(password)),
        ),
        Auth::Bearer { token } => spec_bearer_auth_header(string_bytes(token)),
    }
}

/// Connection target: the addressbook home path on the server, and how
/// to authenticate. The transport itself belongs to the driver.
pub struct CarddavConfig {
    pub home_path: String,
    pub auth: Auth,
}

fn apply_auth(req: Request, auth: &Auth) -> (r: Request)
    requires
        !req.finished@,
    ensures
        r.bytes@ == req.bytes@ + spec_auth_suffix(*auth),
        r.date == req.date,
        !r.finished@,
{
    match auth {
        Auth::Plain => {
            proof {
                assert(req.bytes@ =~= req.bytes@ + Seq::<u8>::empty());
            }
            req
        },
        Auth::Basic { username, password } => req.basic_auth(username.as_str(), password.as_str()),
        Auth::Bearer { token } => req.bearer_auth(token.as_str()),
    }
}

/// Which media type a request announces for its body.
#[derive(Clone, Copy)]
pub enum ContentKind {
    Xml,
    Vcard,
    Bare,
}

pub open spec fn spec_ct_header(k: ContentKind) -> Seq<u8> {
    match k {
        ContentKind::Xml => spec_content_type_xml(),
        ContentKind::Vcard => spec_content_type_vcard(),
        ContentKind::Bare => Seq::<u8>::empty(),
    }
}

pub open spec fn spec_depth_part(depth: Option<&str>) -> Seq<u8> {
    match depth {
        None => Seq::<u8>::empty(),
        Some(d) => spec_depth_header(d.spec_bytes()),
    }
}

/// The full wire image of one operation's request: request line and date,
/// then content type, authentication and depth where the operation uses
/// them, and last the length-prefixed body.
pub open spec fn spec_op_request(
    method: Seq<u8>,
    uri: Seq<u8>,
    d: Seq<u8>,
    ct: Seq<u8>,
    auth: Seq<u8>,
    depth: Seq<u8>,
    body: Seq<u8>,
) -> Seq<u8> {
    spec_request_head(method, uri, spec_http11(), d) + ct + auth + depth + spec_body_section(body)
}

pub(crate) fn build_op_request(
    method: &str,
    uri: &[u8],
    kind: ContentKind,
    auth: &Auth,
    depth: Option<&str>,
    body: &[u8],
) -> (r: Request)
    ensures
        r.finished@,
        no_crlf(r.date@),
        r.bytes@ == spec_op_request(
            method.spec_bytes(),
            uri@,
            r.date@,
            spec_ct_header(kind),
            spec_auth_suffix(*auth),
            spec_depth_part(depth),
            body@,
        ),
{
    let req = Request::new_raw(method, uri);
    let req = match kind {
        ContentKind::Xml => req.content_type_xml(),
        ContentKind::Vcard => req.content_type_vcard(),
        ContentKind::Bare => {
            proof {
                assert(req.bytes@ =~= req.bytes@ + Seq::<u8>::empty());
            }
            req
        },
    };
    let req = apply_auth(req, auth);
    let req = match depth {
        None => {
            proof {
                assert(req.bytes@ =~= req.bytes@ + Seq::<u8>::empty());
            }
            req
        },
        Some(d) => req.depth(d),
    };
    let req = req.body_bytes(body);
    proof {
        assert(req.bytes@ =~= spec_op_request(
            method.spec_bytes(),
            uri@,
            req.date@,
            spec_ct_header(kind),
            spec_auth_suffix(*auth),
            spec_depth_part(depth),
            body@,
        ));
    }
    req
}

/// `base` + `/` + `seg`.
pub fn join_path(base: &str, seg: &[u8]) -> (r: Vec<u8>)
    ensures
        r@ == base.spec_bytes() + seq![47u8] + seg@,
{
    let mut v: Vec<u8> = Vec::new();
    append_bytes(&mut v, base.as_bytes());
    v.push(47u8);
    let ghost mid = v@;
    append_bytes(&mut v, seg);
    proof {
        assert(mid =~= base.spec_bytes() + seq![47u8]);
    }
    v
}

/// `base` + `/` + `abid` + `/` + `cid` + `.vcf`.
pub fn join_card_path(base: &str, abid: &[u8], cid: &[u8]) -> (r: Vec<u8>)
    ensures
        r@ == base.spec_bytes() + seq![47u8] + abid@ + seq![47u8] + cid@ + ".vcf".spec_bytes(),
{
    let mut v: Vec<u8> = Vec::new();
    append_bytes(&mut v, base.as_bytes());
    v.push(47u8);
    proof {
        assert(v@ =~= base.spec_bytes() + seq![47u8]);
    }
    append_bytes(&mut v, abid);
    v.push(47u8);
    proof {
        assert(v@ =~= base.spec_bytes() + seq![47u8] + abid@ + seq![47u8]);
    }
    append_bytes(&mut v, cid);
    let ghost mid = v@;
    append_bytes(&mut v, ".vcf".as_bytes());
    proof {
        assert(v@ =~= base.spec_bytes() + seq![47u8] + abid@ + seq![47u8] + cid@
            + ".vcf".spec_bytes());
    }
    v
}

/// A fresh exchange loaded with the given request.
pub open spec fn flow_starts_with(f: SendReceiveFlow, req_bytes: Seq<u8>) -> bool {
    &&& f.wf()
    &&& f.state == Some(State::SerializeHttpRequest)
    &&& f.framer.bytes@ == Seq::<u8>::empty()
    &&& !f.eof
    &&& f.output is None
    &&& f.write_buffer@ == req_bytes
}

/// An HTTP success.
pub open spec fn success_status(code: u16) -> bool {
    200 <= code < 300
}

/// The XML body asking for `resourcetype`, `displayname`, description
/// and color of every member of the home collection.
pub open spec fn list_addressbooks_body() -> Seq<u8> {
    "<?xml version=\"1.0\" encoding=\"utf-8\" ?><propfind xmlns=\"DAV:\" xmlns:C=\"urn:ietf:params:xml:ns:carddav\" xmlns:I=\"http://inf-it.com/ns/ab/\"><prop><resourcetype /><displayname /><C:addressbook-description /><I:addressbook-color /></prop></propfind>".spec_bytes()
}

/// How a list-addressbooks exchange outcome reads: a non-success status
/// is a protocol error, a body that is no multistatus is a parse error,
/// and otherwise the outcome is exactly the addressbooks the body lists.
pub open spec fn list_addressbooks_outcome(
    resp: HttpResponse,
    out: Result<Vec<Addressbook>, ProtocolError>,
) -> bool {
    if !success_status(resp.status) {
        out == Err::<Vec<Addressbook>, ProtocolError>(ProtocolError::UnexpectedStatus(resp.status))
    } else {
        match crate::xml::spec_parse_multistatus(resp.body@) {
            None => out == Err::<Vec<Addressbook>, ProtocolError>(ProtocolError::MalformedXml),
            Some(ms) => match out {
                Ok(v) => v@.map_values(|a: Addressbook| a@) == spec_addressbooks(ms.responses),
                Err(_) => false,
            },
        }
    }
}

/// The header literals of an operation request, as concrete bytes.
proof fn lemma_header_literals()
    ensures
        "Date: ".spec_bytes() =~= seq![68u8, 97u8, 116u8, 101u8, 58u8, 32u8],
        " GMT".spec_bytes() =~= seq![32u8, 71u8, 77u8, 84u8],
        "HTTP/1.1".spec_bytes() =~= seq![72u8, 84u8, 84u8, 80u8, 47u8, 49u8, 46u8, 49u8],
        "Content-Type: application/xml; charset=utf-8".spec_bytes() =~= seq![
            67u8, 111u8, 110u8, 116u8, 101u8, 110u8, 116u8, 45u8, 84u8, 121u8, 112u8, 101u8,
            58u8, 32u8, 97u8, 112u8, 112u8, 108u8, 105u8, 99u8, 97u8, 116u8, 105u8, 111u8,
            110u8, 47u8, 120u8, 109u8, 108u8, 59u8, 32u8, 99u8, 104u8, 97u8, 114u8, 115u8,
            101u8, 116u8, 61u8, 117u8, 116u8, 102u8, 45u8, 56u8,
        ],
        "Authorization: Basic ".spec_bytes() =~= seq![
            65u8, 117u8, 116u8, 104u8, 111u8, 114u8, 105u8, 122u8, 97u8, 116u8, 105u8, 111u8,
            110u8, 58u8, 32u8, 66u8, 97u8, 115u8, 105u8, 99u8, 32u8,
        ],
        "Authorization".spec_bytes() =~= seq![
            65u8, 117u8, 116u8, 104u8, 111u8, 114u8, 105u8, 122u8, 97u8, 116u8, 105u8, 111u8,
            110u8,
        ],
        "Basic ".spec_bytes() =~= seq![66u8, 97u8, 115u8, 105u8, 99u8, 32u8],
        "Depth: ".spec_bytes() =~= seq![68u8, 101u8, 112u8, 116u8, 104u8, 58u8, 32u8],
        "Depth".spec_bytes() =~= seq![68u8, 101u8, 112u8, 116u8, 104u8],
        "Content-Length: ".spec_bytes() =~= seq![
            67u8, 111u8, 110u8, 116u8, 101u8, 110u8, 116u8, 45u8, 76u8, 101u8, 110u8, 103u8,
            116u8, 104u8, 58u8, 32u8,
        ],
        "Content-Length".spec_bytes() =~= seq![
            67u8, 111u8, 110u8, 116u8, 101u8, 110u8, 116u8, 45u8, 76u8, 101u8, 110u8, 103u8,
            116u8, 104u8,
        ],
        " ".spec_bytes() =~= seq![32u8],
{
    reveal_strlit("Date: ");
    reveal_strlit(" GMT");
    reveal_strlit("HTTP/1.1");
    reveal_strlit("Content-Type: application/xml; charset=utf-8");
    reveal_strlit("Authorization: Basic ");
    reveal_strlit("Authorization");
    reveal_strlit("Basic ");
    reveal_strlit("Depth: ");
    reveal_strlit("Depth");
    reveal_strlit("Content-Length: ");
    reveal_strlit("Content-Length");
    reveal_strlit(" ");
    lemma_literal_ascii("Date: ");
    lemma_literal_ascii(" GMT");
    lemma_literal_ascii("HTTP/1.1");
    lemma_literal_ascii("Content-Type: application/xml; charset=utf-8");
    lemma_literal_ascii("Authorization: Basic ");
    lemma_literal_ascii("Authorization");
    lemma_literal_ascii("Basic ");
    lemma_literal_ascii("Depth: ");
    lemma_literal_ascii("Depth");
    lemma_literal_ascii("Content-Length: ");
    lemma_literal_ascii("Content-Length");
    lemma_literal_ascii(" ");
}

/// An all-ASCII string's bytes are its characters, byte for byte.
proof fn lemma_literal_ascii(s: &str)
    requires
        forall|i: int| 0 <= i < s@.len() ==> '\0' <= #[trigger] s@[i] <= '\u{7f}',
    ensures
        s.spec_bytes().len() == s@.len(),
        forall|i: int| 0 <= i < s@.len() ==> #[trigger] s.spec_bytes()[i] == s@[i] as u8,
{
    assert(vstd::utf8::is_ascii_chars(s@));
    vstd::string::is_ascii_spec_bytes(s);
}

/// The common layout of one operation request: the XML content type,
/// basic credentials, a depth header and the length-prefixed body.
pub open spec fn spec_canonical_request(
    m: Seq<u8>,
    u: Seq<u8>,
    d: Seq<u8>,
    cred: Seq<u8>,
    dep: Seq<u8>,
    body: Seq<u8>,
) -> Seq<u8> {
    spec_op_request(
        m,
        u,
        d,
        spec_content_type_xml(),
        spec_basic_auth_header(cred),
        spec_depth_header(dep),
        body,
    )
}

/// What a canonical request looks like, line by line.
proof fn lemma_canonical_layout(
    m: Seq<u8>,
    u: Seq<u8>,
    d: Seq<u8>,
    cred: Seq<u8>,
    dep: Seq<u8>,
    body: Seq<u8>,
)
    ensures
        spec_canonical_request(m, u, d, cred, dep, body) =~= (m + crate::request::sp() + u
            + crate::request::sp() + spec_http11()) + crate::framer::spec_crlf() + ((
        "Date: ".spec_bytes() + d + " GMT".spec_bytes()) + crate::framer::spec_crlf() + ((
        "Content-Type: application/xml; charset=utf-8".spec_bytes())
            + crate::framer::spec_crlf() + (("Authorization: Basic ".spec_bytes() + cred)
            + crate::framer::spec_crlf() + (("Depth: ".spec_bytes() + dep)
            + crate::framer::spec_crlf() + (("Content-Length: ".spec_bytes() + crate::scan::spec_decimal(
            body.len(),
        )) + crate::framer::spec_crlf() + (crate::framer::spec_crlf() + body)))))),
{
}

/// Parsing the `Authorization` header back out of a canonical request
/// yields `Basic` and exactly the credential it was built with.
pub proof fn lemma_auth_header_round_trip(
    m: Seq<u8>,
    u: Seq<u8>,
    d: Seq<u8>,
    cred: Seq<u8>,
    dep: Seq<u8>,
    body: Seq<u8>,
)
    requires
        no_crlf(m),
        no_crlf(u),
        no_crlf(d),
        no_crlf(cred),
        cred.len() > 0,
        !crate::scan::is_space(cred.last()),
    ensures
        crate::framer::spec_header_value(
            spec_canonical_request(m, u, d, cred, dep, body),
            "Authorization".spec_bytes(),
        ) == Some("Basic ".spec_bytes() + cred),
{
    lemma_header_literals();
    crate::request::lemma_sp_bytes();
    lemma_canonical_layout(m, u, d, cred, dep, body);
    let b = spec_canonical_request(m, u, d, cred, dep, body);
    let crlf = crate::framer::spec_crlf();
    let name = "Authorization".spec_bytes();
    let line1 = m + crate::request::sp() + u + crate::request::sp() + spec_http11();
    let dateint = "Date: ".spec_bytes() + d + " GMT".spec_bytes();
    let ctint = "Content-Type: application/xml; charset=utf-8".spec_bytes();
    let authint = "Authorization: Basic ".spec_bytes() + cred;
    let depint = "Depth: ".spec_bytes() + dep;
    let clint = "Content-Length: ".spec_bytes() + crate::scan::spec_decimal(body.len());
    let rest5 = clint + crlf + (crlf + body);
    let rest4 = depint + crlf + rest5;
    let rest3 = authint + crlf + rest4;
    let rest2 = ctint + crlf + rest3;
    let rest1 = dateint + crlf + rest2;
    assert(b == line1 + crlf + rest1) by {
        assert(b =~= line1 + crlf + rest1);
    }
    crate::request::lemma_no_crlf_concat(m, crate::request::sp());
    crate::request::lemma_no_crlf_concat(m + crate::request::sp(), u);
    crate::request::lemma_no_crlf_concat(m + crate::request::sp() + u, crate::request::sp());
    crate::request::lemma_no_crlf_concat(
        m + crate::request::sp() + u + crate::request::sp(),
        spec_http11(),
    );
    crate::request::lemma_no_crlf_concat("Date: ".spec_bytes(), d);
    crate::request::lemma_no_crlf_concat("Date: ".spec_bytes() + d, " GMT".spec_bytes());
    // the needle does not start inside the request line, the date line
    // or the content-type line, and the authorization line begins with
    // the name itself
    assert(rest1[1] == 97) by {
        assert(rest1[1] == dateint[1]);
    }
    assert(!(rest1.len() >= 13 && rest1.subrange(0, 13) == name)) by {
        if rest1.len() >= 13 && rest1.subrange(0, 13) == name {
            assert(rest1.subrange(0, 13)[1] == rest1[1]);
        }
    }
    crate::request::lemma_needle_skip_line(line1, rest1, name);
    assert(rest2[0] == 67) by {
        assert(rest2[0] == ctint[0]);
    }
    assert(!(rest2.len() >= 13 && rest2.subrange(0, 13) == name)) by {
        if rest2.len() >= 13 && rest2.subrange(0, 13) == name {
            assert(rest2.subrange(0, 13)[0] == rest2[0]);
        }
    }
    crate::request::lemma_needle_skip_line(dateint, rest2, name);
    assert(rest3.len() >= 13 && rest3.subrange(0, 13) == name) by {
        assert(rest3.subrange(0, 13) =~= name);
    }
    crate::request::lemma_needle_skip_line(ctint, rest3, name);
    let j: int = (line1.len() + 2 + dateint.len() + 2 + ctint.len()) as int;
    assert(crate::scan::spec_find(b, crlf + name) == Some(j));
    // the value sits right after `Authorization: `
    let core = "Basic ".spec_bytes() + cred;
    let tail = crlf + authint + crlf + rest4;
    assert(b.subrange(j, b.len() as int) =~= tail);
    assert(b[j + 2 + 13 + 1] == 32) by {
        assert(tail[16] == b[j + 16]) by {
            assert(b.subrange(j, b.len() as int)[16] == b[j + 16]);
        }
        assert(tail[16] == 32);
    }
    assert(b.subrange(j + 17, j + 17 + core.len()) =~= core) by {
        assert forall|k: int| 0 <= k < core.len() implies b.subrange(
            j + 17,
            j + 17 + core.len(),
        )[k] == core[k] by {
            assert(b.subrange(j, b.len() as int)[17 + k] == b[j + 17 + k]);
            assert(tail[17 + k] == core[k]);
        }
    }
    assert(b.subrange(j + 17 + core.len(), j + 17 + core.len() + 2) =~= crlf) by {
        assert forall|k: int| 0 <= k < 2 implies b.subrange(
            j + 17 + core.len(),
            j + 17 + core.len() + 2,
        )[k] == crlf[k] by {
            assert(b.subrange(j, b.len() as int)[17 + core.len() + k] == b[j + 17
                + core.len() + k]);
            assert(tail[17 + core.len() + k] == crlf[k]);
        }
    }
    assert(crate::scan::spec_trim(core) == core) by {
        assert(core[0] == 66);
        assert(core.last() == cred.last());
        crate::scan::lemma_trim_clean(core);
    }
    crate::request::lemma_header_value_extract(b, name, j, core);
}

/// Parsing the `Depth` header back out of a canonical request yields
/// exactly the depth it was built with.
pub proof fn lemma_depth_header_round_trip(
    m: Seq<u8>,
    u: Seq<u8>,
    d: Seq<u8>,
    cred: Seq<u8>,
    dep: Seq<u8>,
    body: Seq<u8>,
)
    requires
        no_crlf(m),
        no_crlf(u),
        no_crlf(d),
        no_crlf(cred),
        no_crlf(dep),
        crate::scan::spec_trim(dep) == dep,
    ensures
        crate::framer::spec_header_value(
            spec_canonical_request(m, u, d, cred, dep, body),
            "Depth".spec_bytes(),
        ) == Some(dep),
{
    lemma_header_literals();
    crate::request::lemma_sp_bytes();
    lemma_canonical_layout(m, u, d, cred, dep, body);
    let b = spec_canonical_request(m, u, d, cred, dep, body);
    let crlf = crate::framer::spec_crlf();
    let name = "Depth".spec_bytes();
    let line1 = m + crate::request::sp() + u + crate::request::sp() + spec_http11();
    let dateint = "Date: ".spec_bytes() + d + " GMT".spec_bytes();
    let ctint = "Content-Type: application/xml; charset=utf-8".spec_bytes();
    let authint = "Authorization: Basic ".spec_bytes() + cred;
    let depint = "Depth: ".spec_bytes() + dep;
    let clint = "Content-Length: ".spec_bytes() + crate::scan::spec_decimal(body.len());
    let rest5 = clint + crlf + (crlf + body);
    let rest4 = depint + crlf + rest5;
    let rest3 = authint + crlf + rest4;
    let rest2 = ctint + crlf + rest3;
    let rest1 = dateint + crlf + rest2;
    assert(b == line1 + crlf + rest1) by {
        assert(b =~= line1 + crlf + rest1);
    }
    crate::request::lemma_no_crlf_concat(m, crate::request::sp());
    crate::request::lemma_no_crlf_concat(m + crate::request::sp(), u);
    crate::request::lemma_no_crlf_concat(m + crate::request::sp() + u, crate::request::sp());
    crate::request::lemma_no_crlf_concat(
        m + crate::request::sp() + u + crate::request::sp(),
        spec_http11(),
    );
    crate::request::lemma_no_crlf_concat("Date: ".spec_bytes(), d);
    crate::request::lemma_no_crlf_concat("Date: ".spec_bytes() + d, " GMT".spec_bytes());
    crate::request::lemma_no_crlf_concat("Authorization: Basic ".spec_bytes(), cred);
    assert(rest1[1] == 97) by {
        assert(rest1[1] == dateint[1]);
    }
    assert(!(rest1.len() >= 5 && rest1.subrange(0, 5) == name)) by {
        if rest1.len() >= 5 && rest1.subrange(0, 5) == name {
            assert(rest1.subrange(0, 5)[1] == rest1[1]);
        }
    }
    crate::request::lemma_needle_skip_line(line1, rest1, name);
    assert(rest2[0] == 67) by {
        assert(rest2[0] == ctint[0]);
    }
    assert(!(rest2.len() >= 5 && rest2.subrange(0, 5) == name)) by {
        if rest2.len() >= 5 && rest2.subrange(0, 5) == name {
            assert(rest2.subrange(0, 5)[0] == rest2[0]);
        }
    }
    crate::request::lemma_needle_skip_line(dateint, rest2, name);
    assert(rest3[0] == 65) by {
        assert(rest3[0] == authint[0]);
        assert(authint[0] == "Authorization: Basic ".spec_bytes()[0]);
    }
    assert(!(rest3.len() >= 5 && rest3.subrange(0, 5) == name)) by {
        if rest3.len() >= 5 && rest3.subrange(0, 5) == name {
            assert(rest3.subrange(0, 5)[0] == rest3[0]);
        }
    }
    crate::request::lemma_needle_skip_line(ctint, rest3, name);
    assert(rest4.len() >= 5 && rest4.subrange(0, 5) == name) by {
        assert forall|k: int| 0 <= k < 5 implies rest4.subrange(0, 5)[k] == name[k] by {
            assert(rest4[k] == depint[k]);
            assert(depint[k] == "Depth: ".spec_bytes()[k]);
        }
        assert(rest4.subrange(0, 5) =~= name);
    }
    crate::request::lemma_needle_skip_line(authint, rest4, name);
    let j: int = (line1.len() + 2 + dateint.len() + 2 + ctint.len() + 2 + authint.len()) as int;
    assert(crate::scan::spec_find(b, crlf + name) == Some(j));
    let tail = crlf + depint + crlf + rest5;
    assert(b.subrange(j, b.len() as int) =~= tail);
    assert(b[j + 2 + 5 + 1] == 32) by {
        assert(b.subrange(j, b.len() as int)[8] == b[j + 8]);
        assert(tail[8] == 32) by {
            assert(tail[8] == depint[6]);
        }
    }
    assert(b.subrange(j + 9, j + 9 + dep.len()) =~= dep) by {
        assert forall|k: int| 0 <= k < dep.len() implies b.subrange(
            j + 9,
            j + 9 + dep.len(),
        )[k] == dep[k] by {
            assert(b.subrange(j, b.len() as int)[9 + k] == b[j + 9 + k]);
            assert(tail[9 + k] == depint[7 + k]);
            assert(depint[7 + k] == dep[k]);
        }
    }
    assert(b.subrange(j + 9 + dep.len(), j + 9 + dep.len() + 2) =~= crlf) by {
        assert forall|k: int| 0 <= k < 2 implies b.subrange(
            j + 9 + dep.len(),
            j + 9 + dep.len() + 2,
        )[k] == crlf[k] by {
            assert(b.subrange(j, b.len() as int)[9 + dep.len() + k] == b[j + 9 + dep.len() + k]);
            assert(tail[9 + dep.len() + k] == crlf[k]);
        }
    }
    crate::request::lemma_header_value_extract(b, name, j, dep);
}

/// Parsing the `Content-Length` header back out of a canonical request
/// yields the decimal rendering of the body's byte length — which, by
/// the decimal round trip, reads back as exactly that length.
pub proof fn lemma_content_length_round_trip(
    m: Seq<u8>,
    u: Seq<u8>,
    d: Seq<u8>,
    cred: Seq<u8>,
    dep: Seq<u8>,
    body: Seq<u8>,
)
    requires
        no_crlf(m),
        no_crlf(u),
        no_crlf(d),
        no_crlf(cred),
        no_crlf(dep),
    ensures
        crate::framer::spec_header_value(
            spec_canonical_request(m, u, d, cred, dep, body),
            "Content-Length".spec_bytes(),
        ) == Some(crate::scan::spec_decimal(body.len())),
{
    lemma_header_literals();
    crate::request::lemma_sp_bytes();
    lemma_canonical_layout(m, u, d, cred, dep, body);
    crate::scan::lemma_spec_decimal_digits(body.len());
    let b = spec_canonical_request(m, u, d, cred, dep, body);
    let crlf = crate::framer::spec_crlf();
    let name = "Content-Length".spec_bytes();
    let digits = crate::scan::spec_decimal(body.len());
    let line1 = m + crate::request::sp() + u + crate::request::sp() + spec_http11();
    let dateint = "Date: ".spec_bytes() + d + " GMT".spec_bytes();
    let ctint = "Content-Type: application/xml; charset=utf-8".spec_bytes();
    let authint = "Authorization: Basic ".spec_bytes() + cred;
    let depint = "Depth: ".spec_bytes() + dep;
    let clint = "Content-Length: ".spec_bytes() + digits;
    let rest5 = clint + crlf + (crlf + body);
    let rest4 = depint + crlf + rest5;
    let rest3 = authint + crlf + rest4;
    let rest2 = ctint + crlf + rest3;
    let rest1 = dateint + crlf + rest2;
    assert(b == line1 + crlf + rest1) by {
        assert(b =~= line1 + crlf + rest1);
    }
    crate::request::lemma_no_crlf_concat(m, crate::request::sp());
    crate::request::lemma_no_crlf_concat(m + crate::request::sp(), u);
    crate::request::lemma_no_crlf_concat(m + crate::request::sp() + u, crate::request::sp());
    crate::request::lemma_no_crlf_concat(
        m + crate::request::sp() + u + crate::request::sp(),
        spec_http11(),
    );
    crate::request::lemma_no_crlf_concat("Date: ".spec_bytes(), d);
    crate::request::lemma_no_crlf_concat("Date: ".spec_bytes() + d, " GMT".spec_bytes());
    crate::request::lemma_no_crlf_concat("Authorization: Basic ".spec_bytes(), cred);
    crate::request::lemma_no_crlf_concat("Depth: ".spec_bytes(), dep);
    assert(rest1[0] == 68) by {
        assert(rest1[0] == dateint[0]);
    }
    assert(!(rest1.len() >= 14 && rest1.subrange(0, 14) == name)) by {
        if rest1.len() >= 14 && rest1.subrange(0, 14) == name {
            assert(rest1.subrange(0, 14)[0] == rest1[0]);
        }
    }
    crate::request::lemma_needle_skip_line(line1, rest1, name);
    assert(rest2[8] == 84) by {
        assert(rest2[8] == ctint[8]);
    }
    assert(!(rest2.len() >= 14 && rest2.subrange(0, 14) == name)) by {
        if rest2.len() >= 14 && rest2.subrange(0, 14) == name {
            assert(rest2.subrange(0, 14)[8] == rest2[8]);
        }
    }
    crate::request::lemma_needle_skip_line(dateint, rest2, name);
    assert(rest3[0] == 65) by {
        assert(rest3[0] == authint[0]);
        assert(authint[0] == "Authorization: Basic ".spec_bytes()[0]);
    }
    assert(!(rest3.len() >= 14 && rest3.subrange(0, 14) == name)) by {
        if rest3.len() >= 14 && rest3.subrange(0, 14) == name {
            assert(rest3.subrange(0, 14)[0] == rest3[0]);
        }
    }
    crate::request::lemma_needle_skip_line(ctint, rest3, name);
    assert(rest4[0] == 68) by {
        assert(rest4[0] == depint[0]);
        assert(depint[0] == "Depth: ".spec_bytes()[0]);
    }
    assert(!(rest4.len() >= 14 && rest4.subrange(0, 14) == name)) by {
        if rest4.len() >= 14 && rest4.subrange(0, 14) == name {
            assert(rest4.subrange(0, 14)[0] == rest4[0]);
        }
    }
    crate::request::lemma_needle_skip_line(authint, rest4, name);
    assert(rest5.len() >= 14 && rest5.subrange(0, 14) == name) by {
        assert forall|k: int| 0 <= k < 14 implies rest5.subrange(0, 14)[k] == name[k] by {
            assert(rest5[k] == clint[k]);
            assert(clint[k] == "Content-Length: ".spec_bytes()[k]);
        }
        assert(rest5.subrange(0, 14) =~= name);
    }
    crate::request::lemma_needle_skip_line(depint, rest5, name);
    let j: int = (line1.len() + 2 + dateint.len() + 2 + ctint.len() + 2 + authint.len() + 2
        + depint.len()) as int;
    assert(crate::scan::spec_find(b, crlf + name) == Some(j));
    let tail = crlf + clint + crlf + (crlf + body);
    assert(b.subrange(j, b.len() as int) =~= tail);
    assert(b[j + 2 + 14 + 1] == 32) by {
        assert(b.subrange(j, b.len() as int)[17] == b[j + 17]);
        assert(tail[17] == 32) by {
            assert(tail[17] == clint[15]);
        }
    }
    assert(b.subrange(j + 18, j + 18 + digits.len()) =~= digits) by {
        assert forall|k: int| 0 <= k < digits.len() implies b.subrange(
            j + 18,
            j + 18 + digits.len(),
        )[k] == digits[k] by {
            assert(b.subrange(j, b.len() as int)[18 + k] == b[j + 18 + k]);
            assert(tail[18 + k] == clint[16 + k]);
            assert(clint[16 + k] == digits[k]);
        }
    }
    assert(b.subrange(j + 18 + digits.len(), j + 18 + digits.len() + 2) =~= crlf) by {
        assert forall|k: int| 0 <= k < 2 implies b.subrange(
            j + 18 + digits.len(),
            j + 18 + digits.len() + 2,
        )[k] == crlf[k] by {
            assert(b.subrange(j, b.len() as int)[18 + digits.len() + k] == b[j + 18 + digits.len()
                + k]);
            assert(tail[18 + digits.len() + k] == crlf[k]);
        }
    }
    assert(crate::scan::spec_trim(digits) == digits) by {
        assert(crate::scan::is_digit(digits[0]));
        assert(crate::scan::is_digit(digits.last()));
        crate::scan::lemma_trim_clean(digits);
    }
    assert(no_crlf(digits)) by {
        assert forall|i: int| 0 <= i < digits.len() implies #[trigger] digits[i] != 13
            && digits[i] != 10 by {
            assert(crate::scan::is_digit(digits[i]));
        }
    }
    crate::request::lemma_header_value_extract(b, name, j, digits);
}

/// List the addressbooks under the home path: `PROPFIND` with depth 1,
/// answered by a multistatus body.
pub struct ListAddressbooksFlow {
    pub http: SendReceiveFlow,
    pub date: Ghost<Seq<u8>>,
}

impl ListAddressbooksFlow {
    pub fn new(config: &CarddavConfig) -> (r: Self)
        ensures
            no_crlf(r.date@),
            flow_starts_with(
                r.http,
                spec_op_request(
                    "PROPFIND".spec_bytes(),
                    string_bytes(config.home_path),
                    r.date@,
                    spec_content_type_xml(),
                    spec_auth_suffix(config.auth),
                    spec_depth_header("1".spec_bytes()),
                    list_addressbooks_body(),
                ),
            ),
    {
        let body = "<?xml version=\"1.0\" encoding=\"utf-8\" ?><propfind xmlns=\"DAV:\" xmlns:C=\"urn:ietf:params:xml:ns:carddav\" xmlns:I=\"http://inf-it.com/ns/ab/\"><prop><resourcetype /><displayname /><C:addressbook-description /><I:addressbook-color /></prop></propfind>";
        let req = build_op_request(
            "PROPFIND",
            config.home_path.as_str().as_bytes(),
            ContentKind::Xml,
            &config.auth,
            Some("1"),
            body.as_bytes(),
        );
        let date = Ghost(req.date@);
        ListAddressbooksFlow { http: SendReceiveFlow::new(req), date }
    }

    /// The addressbooks the exchange produced, once the flow finished.
    pub fn output(self) -> (r: Option<Result<Vec<Addressbook>, ProtocolError>>)
        ensures
            match self.http.output {
                None => r is None,
                Some(Err(e)) => r == Some(Err::<Vec<Addressbook>, ProtocolError>(e)),
                Some(Ok(resp)) => match r {
                    Some(out) => list_addressbooks_outcome(resp, out),
                    None => false,
                },
            },
    {
        match self.http.output {
            None => None,
            Some(Err(e)) => Some(Err(e)),
            Some(Ok(resp)) => {
                if !(resp.status >= 200 && resp.status < 300) {
                    Some(Err(ProtocolError::UnexpectedStatus(resp.status)))
                } else {
                    match parse_multistatus(resp.body.as_slice()) {
                        None => Some(Err(ProtocolError::MalformedXml)),
                        Some(ms) => Some(Ok(addressbooks_of(&ms))),
                    }
                }
            },
        }
    }
}

/// The body of a MKCOL request creating an addressbook with the given
/// display name, color and description fragments.
pub open spec fn mkcol_body(ab: crate::model::AddressbookV) -> Seq<u8> {
    "<?xml version=\"1.0\" encoding=\"utf-8\" ?><mkcol xmlns=\"DAV:\" xmlns:C=\"urn:ietf:params:xml:ns:carddav\" xmlns:I=\"http://inf-it.com/ns/ab/\"><set><prop><resourcetype><collection /><C:addressbook /></resourcetype>".spec_bytes()
        + prop_fragment(ab) + "</prop></set></mkcol>".spec_bytes()
}

/// The editable properties of an addressbook, as XML fragments.
pub open spec fn prop_fragment(ab: crate::model::AddressbookV) -> Seq<u8> {
    (match ab.display_name {
        None => Seq::<u8>::empty(),
        Some(n) => "<displayname>".spec_bytes() + n + "</displayname>".spec_bytes(),
    }) + (match ab.color {
        None => Seq::<u8>::empty(),
        Some(c) => "<I:addressbook-color>".spec_bytes() + c + "</I:addressbook-color>".spec_bytes(),
    }) + (match ab.description {
        None => Seq::<u8>::empty(),
        Some(d) => "<C:addressbook-description>".spec_bytes() + d
            + "</C:addressbook-description>".spec_bytes(),
    })
}

fn prop_fragment_bytes(ab: &Addressbook) -> (r: Vec<u8>)
    ensures
        r@ == prop_fragment(ab@),
{
    let mut v: Vec<u8> = Vec::new();
    match &ab.display_name {
        None => {},
        Some(n) => {
            append_bytes(&mut v, "<displayname>".as_bytes());
            append_bytes(&mut v, n.as_slice());
            append_bytes(&mut v, "</displayname>".as_bytes());
        },
    }
    let ghost after_name = v@;
    match &ab.color {
        None => {},
        Some(c) => {
            append_bytes(&mut v, "<I:addressbook-color>".as_bytes());
            append_bytes(&mut v, c.as_slice());
            append_bytes(&mut v, "</I:addressbook-color>".as_bytes());
        },
    }
    let ghost after_color = v@;
    match &ab.description {
        None => {},
        Some(d) => {
            append_bytes(&mut v, "<C:addressbook-description>".as_bytes());
            append_bytes(&mut v, d.as_slice());
            append_bytes(&mut v, "</C:addressbook-description>".as_bytes());
        },
    }
    proof {
        assert(v@ =~= prop_fragment(ab@));
    }
    v
}

/// An outcome decided by the HTTP status alone: success or the error
/// that names the status.
pub open spec fn unit_outcome(resp: HttpResponse, out: Result<(), ProtocolError>) -> bool {
    if success_status(resp.status) {
        out == Ok::<(), ProtocolError>(())
    } else {
        out == Err::<(), ProtocolError>(ProtocolError::UnexpectedStatus(resp.status))
    }
}

/// Create an addressbook: `MKCOL` on the home path extended by the
/// addressbook's fresh identifier. Repeated flows with fresh records
/// create distinct collections.
pub struct CreateAddressbookFlow {
    pub http: SendReceiveFlow,
    pub date: Ghost<Seq<u8>>,
}

impl CreateAddressbookFlow {
    pub fn new(config: &CarddavConfig, addressbook: &Addressbook) -> (r: Self)
        ensures
            no_crlf(r.date@),
            flow_starts_with(
                r.http,
                spec_op_request(
                    "MKCOL".spec_bytes(),
                    string_bytes(config.home_path) + seq![47u8] + addressbook@.id,
                    r.date@,
                    spec_content_type_xml(),
                    spec_auth_suffix(config.auth),
                    Seq::<u8>::empty(),
                    mkcol_body(addressbook@),
                ),
            ),
    {
        let uri = join_path(config.home_path.as_str(), addressbook.id.as_slice());
        let mut body: Vec<u8> = Vec::new();
        append_bytes(
            &mut body,
            "<?xml version=\"1.0\" encoding=\"utf-8\" ?><mkcol xmlns=\"DAV:\" xmlns:C=\"urn:ietf:params:xml:ns:carddav\" xmlns:I=\"http://inf-it.com/ns/ab/\"><set><prop><resourcetype><collection /><C:addressbook /></resourcetype>".as_bytes(),
        );
        let frag = prop_fragment_bytes(addressbook);
        append_bytes(&mut body, frag.as_slice());
        append_bytes(&mut body, "</prop></set></mkcol>".as_bytes());
        proof {
            assert(body@ =~= mkcol_body(addressbook@));
        }
        let req = build_op_request(
            "MKCOL",
            uri.as_slice(),
            ContentKind::Xml,
            &config.auth,
            None,
            body.as_slice(),
        );
        let date = Ghost(req.date@);
        CreateAddressbookFlow { http: SendReceiveFlow::new(req), date }
    }

    pub fn output(self) -> (r: Option<Result<(), ProtocolError>>)
        ensures
            match self.http.output {
                None => r is None,
                Some(Err(e)) => r == Some(Err::<(), ProtocolError>(e)),
                Some(Ok(resp)) => match r {
                    Some(out) => unit_outcome(resp, out),
                    None => false,
                },
            },
    {
        match self.http.output {
            None => None,
            Some(Err(e)) => Some(Err(e)),
            Some(Ok(resp)) => {
                if resp.status >= 200 && resp.status < 300 {
                    Some(Ok(()))
                } else {
                    Some(Err(ProtocolError::UnexpectedStatus(resp.status)))
                }
            },
        }
    }
}

/// The body of a PROPPATCH request updating an addressbook.
pub open spec fn proppatch_body(ab: crate::model::AddressbookV) -> Seq<u8> {
    "<?xml version=\"1.0\" encoding=\"utf-8\" ?><propertyupdate xmlns=\"DAV:\" xmlns:C=\"urn:ietf:params:xml:ns:carddav\" xmlns:I=\"http://inf-it.com/ns/ab/\"><set><prop>".spec_bytes()
        + prop_fragment(ab) + "</prop></set></propertyupdate>".spec_bytes()
}

/// Update an addressbook's properties: `PROPPATCH` on its collection.
pub struct UpdateAddressbookFlow {
    pub http: SendReceiveFlow,
    pub date: Ghost<Seq<u8>>,
}

impl UpdateAddressbookFlow {
    pub fn new(config: &CarddavConfig, addressbook: &Addressbook) -> (r: Self)
        ensures
            no_crlf(r.date@),
            flow_starts_with(
                r.http,
                spec_op_request(
                    "PROPPATCH".spec_bytes(),
                    string_bytes(config.home_path) + seq![47u8] + addressbook@.id,
                    r.date@,
                    spec_content_type_xml(),
                    spec_auth_suffix(config.auth),
                    Seq::<u8>::empty(),
                    proppatch_body(addressbook@),
                ),
            ),
    {
        let uri = join_path(config.home_path.as_str(), addressbook.id.as_slice());
        let mut body: Vec<u8> = Vec::new();
        append_bytes(
            &mut body,
            "<?xml version=\"1.0\" encoding=\"utf-8\" ?><propertyupdate xmlns=\"DAV:\" xmlns:C=\"urn:ietf:params:xml:ns:carddav\" xmlns:I=\"http://inf-it.com/ns/ab/\"><set><prop>".as_bytes(),
        );
        let frag = prop_fragment_bytes(addressbook);
        append_bytes(&mut body, frag.as_slice());
        append_bytes(&mut body, "</prop></set></propertyupdate>".as_bytes());
        proof {
            assert(body@ =~= proppatch_body(addressbook@));
        }
        let req = build_op_request(
            "PROPPATCH",
            uri.as_slice(),
            ContentKind::Xml,
            &config.auth,
            None,
            body.as_slice(),
        );
        let date = Ghost(req.date@);
        UpdateAddressbookFlow { http: SendReceiveFlow::new(req), date }
    }

    pub fn output(self) -> (r: Option<Result<(), ProtocolError>>)
        ensures
            match self.http.output {
                None => r is None,
                Some(Err(e)) => r == Some(Err::<(), ProtocolError>(e)),
                Some(Ok(resp)) => match r {
                    Some(out) => unit_outcome(resp, out),
                    None => false,
                },
            },
    {
        match self.http.output {
            None => None,
            Some(Err(e)) => Some(Err(e)),
            Some(Ok(resp)) => {
                if resp.status >= 200 && resp.status < 300 {
                    Some(Ok(()))
                } else {
                    Some(Err(ProtocolError::UnexpectedStatus(resp.status)))
                }
            },
        }
    }
}

/// A deletion outcome: success deletes, a not-found counts as nothing
/// to delete, anything else is a protocol error.
pub open spec fn delete_outcome(resp: HttpResponse, out: Result<bool, ProtocolError>) -> bool {
    if success_status(resp.status) {
        out == Ok::<bool, ProtocolError>(true)
    } else if resp.status == 404 {
        out == Ok::<bool, ProtocolError>(false)
    } else {
        out == Err::<bool, ProtocolError>(ProtocolError::UnexpectedStatus(resp.status))
    }
}

/// Delete an addressbook: `DELETE` on its collection. A missing
/// collection is tolerated, so concurrent deletion cannot fail the flow.
pub struct DeleteAddressbookFlow {
    pub http: SendReceiveFlow,
    pub date: Ghost<Seq<u8>>,
}

impl DeleteAddressbookFlow {
    pub fn new(config: &CarddavConfig, id: &[u8]) -> (r: Self)
        ensures
            no_crlf(r.date@),
            flow_starts_with(
                r.http,
                spec_op_request(
                    "DELETE".spec_bytes(),
                    string_bytes(config.home_path) + seq![47u8] + id@,
                    r.date@,
                    spec_content_type_xml(),
                    spec_auth_suffix(config.auth),
                    Seq::<u8>::empty(),
                    Seq::<u8>::empty(),
                ),
            ),
    {
        let uri = join_path(config.home_path.as_str(), id);
        let body: Vec<u8> = Vec::new();
        proof {
            assert(body@ =~= Seq::<u8>::empty());
        }
        let req = build_op_request(
            "DELETE",
            uri.as_slice(),
            ContentKind::Xml,
            &config.auth,
            None,
            body.as_slice(),
        );
        let date = Ghost(req.date@);
        DeleteAddressbookFlow { http: SendReceiveFlow::new(req), date }
    }

    pub fn output(self) -> (r: Option<Result<bool, ProtocolError>>)
        ensures
            match self.http.output {
                None => r is None,
                Some(Err(e)) => r == Some(Err::<bool, ProtocolError>(e)),
                Some(Ok(resp)) => match r {
                    Some(out) => delete_outcome(resp, out),
                    None => false,
                },
            },
    {
        match self.http.output {
            None => None,
            Some(Err(e)) => Some(Err(e)),
            Some(Ok(resp)) => {
                if resp.status >= 200 && resp.status < 300 {
                    Some(Ok(true))
                } else if resp.status == 404 {
                    Some(Ok(false))
                } else {
                    Some(Err(ProtocolError::UnexpectedStatus(resp.status)))
                }
            },
        }
    }
}

/// The `addressbook-query` body asking for the `address-data` of every
/// card in a collection.
pub open spec fn list_cards_body() -> Seq<u8> {
    "<?xml version=\"1.0\" encoding=\"utf-8\" ?><C:addressbook-query xmlns=\"DAV:\" xmlns:C=\"urn:ietf:params:xml:ns:carddav\"><prop><C:address-data /></prop></C:addressbook-query>".spec_bytes()
}

/// How a list-cards exchange outcome reads.
pub open spec fn list_cards_outcome(
    resp: HttpResponse,
    abid: Seq<u8>,
    out: Result<Vec<Card>, ProtocolError>,
) -> bool {
    if !success_status(resp.status) {
        out == Err::<Vec<Card>, ProtocolError>(ProtocolError::UnexpectedStatus(resp.status))
    } else {
        match crate::xml::spec_parse_multistatus(resp.body@) {
            None => out == Err::<Vec<Card>, ProtocolError>(ProtocolError::MalformedXml),
            Some(ms) => match out {
                Ok(v) => v@.map_values(|c: Card| c@) == spec_cards(ms.responses, abid),
                Err(_) => false,
            },
        }
    }
}

/// List the cards of one addressbook: `REPORT` with depth 1, answered
/// by a multistatus body carrying `address-data`.
pub struct ListCardsFlow {
    pub http: SendReceiveFlow,
    pub addressbook_id: Vec<u8>,
    pub date: Ghost<Seq<u8>>,
}

impl ListCardsFlow {
    pub fn new(config: &CarddavConfig, addressbook_id: &[u8]) -> (r: Self)
        ensures
            no_crlf(r.date@),
            r.addressbook_id@ == addressbook_id@,
            flow_starts_with(
                r.http,
                spec_op_request(
                    "REPORT".spec_bytes(),
                    string_bytes(config.home_path) + seq![47u8] + addressbook_id@,
                    r.date@,
                    spec_content_type_xml(),
                    spec_auth_suffix(config.auth),
                    spec_depth_header("1".spec_bytes()),
                    list_cards_body(),
                ),
            ),
    {
        let uri = join_path(config.home_path.as_str(), addressbook_id);
        let body = "<?xml version=\"1.0\" encoding=\"utf-8\" ?><C:addressbook-query xmlns=\"DAV:\" xmlns:C=\"urn:ietf:params:xml:ns:carddav\"><prop><C:address-data /></prop></C:addressbook-query>";
        let req = build_op_request(
            "REPORT",
            uri.as_slice(),
            ContentKind::Xml,
            &config.auth,
            Some("1"),
            body.as_bytes(),
        );
        let date = Ghost(req.date@);
        ListCardsFlow {
            http: SendReceiveFlow::new(req),
            addressbook_id: crate::scan::bytes_of(addressbook_id),
            date,
        }
    }

    pub fn output(self) -> (r: Option<Result<Vec<Card>, ProtocolError>>)
        ensures
            match self.http.output {
                None => r is None,
                Some(Err(e)) => r == Some(Err::<Vec<Card>, ProtocolError>(e)),
                Some(Ok(resp)) => match r {
                    Some(out) => list_cards_outcome(resp, self.addressbook_id@, out),
                    None => false,
                },
            },
    {
        match self.http.output {
            None => None,
            Some(Err(e)) => Some(Err(e)),
            Some(Ok(resp)) => {
                if !(resp.status >= 200 && resp.status < 300) {
                    Some(Err(ProtocolError::UnexpectedStatus(resp.status)))
                } else {
                    match parse_multistatus(resp.body.as_slice()) {
                        None => Some(Err(ProtocolError::MalformedXml)),
                        Some(ms) => Some(Ok(cards_of(&ms, self.addressbook_id.as_slice()))),
                    }
                }
            },
        }
    }
}

/// A card-write outcome: on success the very card that was sent comes
/// back, untouched; the response body is never parsed.
pub open spec fn card_write_outcome(
    resp: HttpResponse,
    card: Card,
    out: Result<Card, ProtocolError>,
) -> bool {
    if success_status(resp.status) {
        match out {
            Ok(c) => c == card,
            Err(_) => false,
        }
    } else {
        out == Err::<Card, ProtocolError>(ProtocolError::UnexpectedStatus(resp.status))
    }
}

/// Create a card: `PUT` of the literal vCard text onto the card path.
/// Success is decided by the HTTP status alone.
pub struct CreateCardFlow {
    pub http: SendReceiveFlow,
    pub card: Card,
    pub date: Ghost<Seq<u8>>,
}

impl CreateCardFlow {
    pub fn new(config: &CarddavConfig, card: Card) -> (r: Self)
        ensures
            no_crlf(r.date@),
            r.card == card,
            flow_starts_with(
                r.http,
                spec_op_request(
                    "PUT".spec_bytes(),
                    string_bytes(config.home_path) + seq![47u8] + card@.addressbook_id
                        + seq![47u8] + card@.id + ".vcf".spec_bytes(),
                    r.date@,
                    spec_content_type_vcard(),
                    spec_auth_suffix(config.auth),
                    Seq::<u8>::empty(),
                    card@.content,
                ),
            ),
    {
        let uri = join_card_path(
            config.home_path.as_str(),
            card.addressbook_id.as_slice(),
            card.id.as_slice(),
        );
        let req = build_op_request(
            "PUT",
            uri.as_slice(),
            ContentKind::Vcard,
            &config.auth,
            None,
            card.content.as_slice(),
        );
        let date = Ghost(req.date@);
        CreateCardFlow { http: SendReceiveFlow::new(req), card, date }
    }

    pub fn output(self) -> (r: Option<Result<Card, ProtocolError>>)
        ensures
            match self.http.output {
                None => r is None,
                Some(Err(e)) => match r {
                    Some(out) => out == Err::<Card, ProtocolError>(e),
                    None => false,
                },
                Some(Ok(resp)) => match r {
                    Some(out) => card_write_outcome(resp, self.card, out),
                    None => false,
                },
            },
    {
        match self.http.output {
            None => None,
            Some(Err(e)) => Some(Err(e)),
            Some(Ok(resp)) => {
                if resp.status >= 200 && resp.status < 300 {
                    Some(Ok(self.card))
                } else {
                    Some(Err(ProtocolError::UnexpectedStatus(resp.status)))
                }
            },
        }
    }
}

/// Updating a card is the same `PUT` exchange as creating one.
pub type UpdateCardFlow = CreateCardFlow;

/// A card-read outcome: on success, the card is the response body taken
/// as raw vCard text under the requested identifiers.
pub open spec fn card_read_outcome(
    resp: HttpResponse,
    abid: Seq<u8>,
    cid: Seq<u8>,
    out: Result<Card, ProtocolError>,
) -> bool {
    if success_status(resp.status) {
        match out {
            Ok(c) => c@.id == cid && c@.addressbook_id == abid && c@.content == resp.body@,
            Err(_) => false,
        }
    } else {
        out == Err::<Card, ProtocolError>(ProtocolError::UnexpectedStatus(resp.status))
    }
}

/// Read one card: `GET` on its path; the body is the vCard text.
pub struct ReadCardFlow {
    pub http: SendReceiveFlow,
    pub addressbook_id: Vec<u8>,
    pub card_id: Vec<u8>,
    pub date: Ghost<Seq<u8>>,
}

impl ReadCardFlow {
    pub fn new(config: &CarddavConfig, addressbook_id: &[u8], card_id: &[u8]) -> (r: Self)
        ensures
            no_crlf(r.date@),
            r.addressbook_id@ == addressbook_id@,
            r.card_id@ == card_id@,
            flow_starts_with(
                r.http,
                spec_op_request(
                    "GET".spec_bytes(),
                    string_bytes(config.home_path) + seq![47u8] + addressbook_id@
                        + seq![47u8] + card_id@ + ".vcf".spec_bytes(),
                    r.date@,
                    Seq::<u8>::empty(),
                    spec_auth_suffix(config.auth),
                    Seq::<u8>::empty(),
                    Seq::<u8>::empty(),
                ),
            ),
    {
        let uri = join_card_path(config.home_path.as_str(), addressbook_id, card_id);
        let body: Vec<u8> = Vec::new();
        proof {
            assert(body@ =~= Seq::<u8>::empty());
        }
        let req = build_op_request(
            "GET",
            uri.as_slice(),
            ContentKind::Bare,
            &config.auth,
            None,
            body.as_slice(),
        );
        let date = Ghost(req.date@);
        ReadCardFlow {
            http: SendReceiveFlow::new(req),
            addressbook_id: crate::scan::bytes_of(addressbook_id),
            card_id: crate::scan::bytes_of(card_id),
            date,
        }
    }

    pub fn output(self) -> (r: Option<Result<Card, ProtocolError>>)
        ensures
            match self.http.output {
                None => r is None,
                Some(Err(e)) => match r {
                    Some(out) => out == Err::<Card, ProtocolError>(e),
                    None => false,
                },
                Some(Ok(resp)) => match r {
                    Some(out) => card_read_outcome(resp, self.addressbook_id@, self.card_id@, out),
                    None => false,
                },
            },
    {
        match self.http.output {
            None => None,
            Some(Err(e)) => Some(Err(e)),
            Some(Ok(resp)) => {
                if resp.status >= 200 && resp.status < 300 {
                    Some(
                        Ok(
                            Card {
                                id: self.card_id,
                                addressbook_id: self.addressbook_id,
                                content: resp.body,
                            },
                        ),
                    )
                } else {
                    Some(Err(ProtocolError::UnexpectedStatus(resp.status)))
                }
            },
        }
    }
}

/// Delete a card: `DELETE` on its path, with the same tolerance for a
/// missing card as addressbook deletion has.
pub struct DeleteCardFlow {
    pub http: SendReceiveFlow,
    pub date: Ghost<Seq<u8>>,
}

impl DeleteCardFlow {
    pub fn new(config: &CarddavConfig, addressbook_id: &[u8], card_id: &[u8]) -> (r: Self)
        ensures
            no_crlf(r.date@),
            flow_starts_with(
                r.http,
                spec_op_request(
                    "DELETE".spec_bytes(),
                    string_bytes(config.home_path) + seq![47u8] + addressbook_id@
                        + seq![47u8] + card_id@ + ".vcf".spec_bytes(),
                    r.date@,
                    spec_content_type_xml(),
                    spec_auth_suffix(config.auth),
                    Seq::<u8>::empty(),
                    Seq::<u8>::empty(),
                ),
            ),
    {
        let uri = join_card_path(config.home_path.as_str(), addressbook_id, card_id);
        let body: Vec<u8> = Vec::new();
        proof {
            assert(body@ =~= Seq::<u8>::empty());
        }
        let req = build_op_request(
            "DELETE",
            uri.as_slice(),
            ContentKind::Xml,
            &config.auth,
            None,
            body.as_slice(),
        );
        let date = Ghost(req.date@);
        DeleteCardFlow { http: SendReceiveFlow::new(req), date }
    }

    pub fn output(self) -> (r: Option<Result<bool, ProtocolError>>)
        ensures
            match self.http.output {
                None => r is None,
                Some(Err(e)) => r == Some(Err::<bool, ProtocolError>(e)),
                Some(Ok(resp)) => match r {
                    Some(out) => delete_outcome(resp, out),
                    None => false,
                },
            },
    {
        match self.http.output {
            None => None,
            Some(Err(e)) => Some(Err(e)),
            Some(Ok(resp)) => {
                if resp.status >= 200 && resp.status < 300 {
                    Some(Ok(true))
                } else if resp.status == 404 {
                    Some(Ok(false))
                } else {
                    Some(Err(ProtocolError::UnexpectedStatus(resp.status)))
                }
            },
        }
    }
}

} // verus!
