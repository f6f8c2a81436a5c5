//! Discovery of the addressbook home: the well-known bootstrap, the
//! `current-user-principal` and `addressbook-home-set` lookups, and the
//! redirect policy that decides, at every hop, whether the driver must
//! tear the connection down and connect to the redirect target afresh.

use vstd::prelude::*;
use vstd::string::StringSliceAdditionalSpecFns;

use crate::flow::{Io, ProtocolError, SendReceiveFlow, State};
use crate::framer::{
    spec_body, spec_frame_status, spec_head, spec_keep_alive, spec_location, spec_status_code,
    FrameStatus,
};
use crate::model::spec_first_href_prop;
use crate::ops::{
    build_op_request, spec_auth_suffix, spec_op_request, Auth, ContentKind, flow_starts_with,
};
use crate::request::spec_content_type_xml;
use crate::scan::{
    append_bytes, bytes_of, decimal_bytes, find_sub, lemma_find_from_props, no_crlf, slice_part,
    spec_decimal, spec_find, string_bytes,
};
use crate::xml::{parse_multistatus, spec_parse_multistatus};

verus! {

/// A resolved request target: where to connect and which path to ask.
pub struct Uri {
    pub scheme: Vec<u8>,
    pub authority: Vec<u8>,
    pub path: Vec<u8>,
}

pub struct UriV {
    pub scheme: Seq<u8>,
    pub authority: Seq<u8>,
    pub path: Seq<u8>,
}

impl View for Uri {
    type V = UriV;

    open spec fn view(&self) -> UriV {
        UriV { scheme: self.scheme@, authority: self.authority@, path: self.path@ }
    }
}

impl Uri {
    pub fn duplicate(&self) -> (r: Uri)
        ensures
            r@ == self@,
    {
        Uri {
            scheme: bytes_of(self.scheme.as_slice()),
            authority: bytes_of(self.authority.as_slice()),
            path: bytes_of(self.path.as_slice()),
        }
    }
}

/// A redirect target as a server writes it: a full URI, or only a path
/// to rewrite on the current one.
pub enum UriRef {
    Absolute(Uri),
    PathOnly(Vec<u8>),
}

pub enum UriRefV {
    Absolute(UriV),
    PathOnly(Seq<u8>),
}

impl View for UriRef {
    type V = UriRefV;

    open spec fn view(&self) -> UriRefV {
        match self {
            UriRef::Absolute(u) => UriRefV::Absolute(u@),
            UriRef::PathOnly(p) => UriRefV::PathOnly(p@),
        }
    }
}

/// `://`, the marker of an absolute URI.
pub open spec fn scheme_sep() -> Seq<u8> {
    seq![58u8, 47u8, 47u8]
}

/// How location bytes read as a redirect target: an absolute URI splits
/// into scheme, authority and path (a missing path is the root), and
/// anything without `://` is a path hint.
pub open spec fn spec_parse_uri_ref(b: Seq<u8>) -> UriRefV {
    match spec_find(b, scheme_sep()) {
        None => UriRefV::PathOnly(b),
        Some(i) => if 0 <= i && i + 3 <= b.len() {
            let scheme = b.subrange(0, i);
            let rest = b.subrange(i + 3, b.len() as int);
            match spec_find(rest, seq![47u8]) {
                None => UriRefV::Absolute(
                    UriV { scheme, authority: rest, path: seq![47u8] },
                ),
                Some(j) => if 0 <= j <= rest.len() {
                    UriRefV::Absolute(
                        UriV {
                            scheme,
                            authority: rest.subrange(0, j),
                            path: rest.subrange(j, rest.len() as int),
                        },
                    )
                } else {
                    UriRefV::PathOnly(b)
                },
            }
        } else {
            UriRefV::PathOnly(b)
        },
    }
}

pub fn parse_uri_ref(b: &[u8]) -> (r: UriRef)
    ensures
        r@ == spec_parse_uri_ref(b@),
{
    let mut sep: Vec<u8> = Vec::new();
    sep.push(58u8);
    sep.push(47u8);
    sep.push(47u8);
    proof {
        assert(sep@ =~= scheme_sep());
    }
    let blen = b.len();
    let i = match find_sub(b, sep.as_slice()) {
        None => {
            return UriRef::PathOnly(bytes_of(b));
        },
        Some(i) => i,
    };
    proof {
        lemma_find_from_props(b@, scheme_sep(), 0);
        assert(i + 3 <= blen);
    }
    let scheme = bytes_of(slice_part(b, 0, i));
    let rest = slice_part(b, i + 3, b.len());
    let mut slash: Vec<u8> = Vec::new();
    slash.push(47u8);
    proof {
        assert(slash@ =~= seq![47u8]);
    }
    match find_sub(rest, slash.as_slice()) {
        None => {
            let mut path: Vec<u8> = Vec::new();
            path.push(47u8);
            proof {
                assert(path@ =~= seq![47u8]);
            }
            UriRef::Absolute(Uri { scheme, authority: bytes_of(rest), path })
        },
        Some(j) => {
            proof {
                lemma_find_from_props(rest@, seq![47u8], 0);
            }
            let authority = bytes_of(slice_part(rest, 0, j));
            let path = bytes_of(slice_part(rest, j, rest.len()));
            UriRef::Absolute(Uri { scheme, authority, path })
        },
    }
}

/// The target a redirect leads to, and whether it keeps the origin: a
/// path hint rewrites the path on the current URI and stays on origin;
/// an absolute target is its own URI, on the same origin exactly when
/// scheme and authority both agree with the current one.
pub open spec fn spec_apply_redirect(cur: UriV, loc: Seq<u8>) -> (UriV, bool) {
    match spec_parse_uri_ref(loc) {
        UriRefV::PathOnly(p) => (UriV { scheme: cur.scheme, authority: cur.authority, path: p }, true),
        UriRefV::Absolute(u) => (u, u.scheme == cur.scheme && u.authority == cur.authority),
    }
}

pub fn apply_redirect(cur: &Uri, loc: &[u8]) -> (r: (Uri, bool))
    ensures
        (r.0@, r.1) == spec_apply_redirect(cur@, loc@),
{
    match parse_uri_ref(loc) {
        UriRef::PathOnly(p) => {
            let u = Uri {
                scheme: bytes_of(cur.scheme.as_slice()),
                authority: bytes_of(cur.authority.as_slice()),
                path: p,
            };
            (u, true)
        },
        UriRef::Absolute(u) => {
            let same = crate::scan::bytes_eq(u.scheme.as_slice(), cur.scheme.as_slice())
                && crate::scan::bytes_eq(u.authority.as_slice(), cur.authority.as_slice());
            (u, same)
        },
    }
}

/// The connection must be torn down and re-established when the server
/// asked to close it or the target changed scheme or authority. This is
/// evaluated anew at every redirect hop.
pub open spec fn spec_must_reconnect(same_origin: bool, keep_alive: bool) -> bool {
    !keep_alive || !same_origin
}

pub fn must_reconnect(same_origin: bool, keep_alive: bool) -> (r: bool)
    ensures
        r == spec_must_reconnect(same_origin, keep_alive),
{
    !keep_alive || !same_origin
}

/// Discovery bootstrap parameters: only a host is required; scheme
/// defaults to `https` and the request method to `GET`.
pub struct DiscoveryConfig {
    pub host: String,
    pub port: Option<u16>,
    pub scheme: Option<String>,
    pub method: Option<String>,
}

/// Which of the configuration options decides where operations go.
#[derive(Clone, Copy, Debug, PartialEq, Eq, Structural)]
pub enum DiscoverySource {
    /// A home URI is configured: no discovery at all.
    HomeUri,
    /// A server URI is configured: start at the principal lookup.
    ServerUri,
    /// Only discovery parameters: start at the well-known lookup.
    WellKnown,
}

/// The precedence among the configuration options, highest specificity
/// first: a configured home URI wins over a server URI, which wins over
/// discovery parameters; with none of the three, discovery fails hard.
pub fn discovery_plan(has_home: bool, has_server: bool, has_discover: bool) -> (r: Result<
    DiscoverySource,
    ProtocolError,
>)
    ensures
        has_home ==> r == Ok::<DiscoverySource, ProtocolError>(DiscoverySource::HomeUri),
        !has_home && has_server ==> r == Ok::<DiscoverySource, ProtocolError>(
            DiscoverySource::ServerUri,
        ),
        !has_home && !has_server && has_discover ==> r == Ok::<DiscoverySource, ProtocolError>(
            DiscoverySource::WellKnown,
        ),
        !has_home && !has_server && !has_discover ==> r == Err::<DiscoverySource, ProtocolError>(
            ProtocolError::MissingConfig,
        ),
{
    if has_home {
        Ok(DiscoverySource::HomeUri)
    } else if has_server {
        Ok(DiscoverySource::ServerUri)
    } else if has_discover {
        Ok(DiscoverySource::WellKnown)
    } else {
        Err(ProtocolError::MissingConfig)
    }
}

/// The authority the discovery parameters name: `host`, with `:port`
/// when one is given.
pub open spec fn spec_discovery_authority(host: Seq<char>, port: Option<u16>) -> Seq<u8> {
    match port {
        None => vstd::utf8::encode_utf8(host),
        Some(p) => vstd::utf8::encode_utf8(host) + seq![58u8] + spec_decimal(p as nat),
    }
}

/// The well-known bootstrap target for the discovery parameters:
/// scheme (default `https`), authority, and the `.well-known` path.
pub fn well_known_origin(config: &DiscoveryConfig) -> (r: Uri)
    ensures
        r@.scheme == match config.scheme {
            None => "https".spec_bytes(),
            Some(ref s) => string_bytes(*s),
        },
        r@.authority == spec_discovery_authority(config.host@, config.port),
        r@.path == "/.well-known/carddav".spec_bytes(),
{
    let scheme: Vec<u8> = match &config.scheme {
        None => {
            let mut v: Vec<u8> = Vec::new();
            append_bytes(&mut v, "https".as_bytes());
            proof {
                assert(v@ =~= "https".spec_bytes());
            }
            v
        },
        Some(s) => {
            let mut v: Vec<u8> = Vec::new();
            append_bytes(&mut v, s.as_str().as_bytes());
            proof {
                assert(v@ =~= string_bytes(*s));
            }
            v
        },
    };
    let mut authority: Vec<u8> = Vec::new();
    append_bytes(&mut authority, config.host.as_str().as_bytes());
    match config.port {
        None => {},
        Some(p) => {
            authority.push(58u8);
            let ghost mid = authority@;
            let digits = decimal_bytes(p as u64);
            append_bytes(&mut authority, digits.as_slice());
            proof {
                assert(authority@ =~= vstd::utf8::encode_utf8(config.host@) + seq![58u8]
                    + spec_decimal(p as nat));
            }
        },
    }
    let mut path: Vec<u8> = Vec::new();
    append_bytes(&mut path, "/.well-known/carddav".as_bytes());
    proof {
        assert(path@ =~= "/.well-known/carddav".spec_bytes());
    }
    Uri { scheme, authority, path }
}

/// What a well-known lookup concludes: the URI discovery continues at,
/// and whether the connection may be reused to reach it.
pub struct WellKnownOutcome {
    pub uri: Uri,
    pub keep_alive: bool,
}

/// How the outcome of a well-known exchange reads off the wire image: a
/// non-redirect status refuses the bootstrap, a redirect without a
/// location is an error, and otherwise the location lands on the
/// current URI under the redirect policy, with connection reuse only on
/// a kept-alive same-origin target.
pub open spec fn well_known_outcome_matches(
    b: Seq<u8>,
    cur: UriV,
    out: Result<WellKnownOutcome, ProtocolError>,
) -> bool {
    match spec_status_code(spec_head(b)) {
        None => out == Err::<WellKnownOutcome, ProtocolError>(ProtocolError::InvalidStatusLine),
        Some(code) => if !(300 <= code < 400) {
            out == Err::<WellKnownOutcome, ProtocolError>(
                ProtocolError::NotRedirected(code as u16),
            )
        } else {
            match spec_location(spec_head(b)) {
                None => out == Err::<WellKnownOutcome, ProtocolError>(
                    ProtocolError::MissingLocation,
                ),
                Some(loc) => {
                    let (u, same) = spec_apply_redirect(cur, loc);
                    match out {
                        Ok(o) => o.uri@ == u && o.keep_alive == (spec_keep_alive(spec_head(b))
                            && same),
                        Err(_) => false,
                    }
                },
            }
        },
    }
}

/// The well-known bootstrap: one exchange against
/// `/.well-known/carddav`, expected to answer with a redirect to the
/// CardDAV service.
pub struct WellKnownFlow {
    pub http: SendReceiveFlow,
    pub uri: Uri,
    pub output: Option<Result<WellKnownOutcome, ProtocolError>>,
    pub date: Ghost<Seq<u8>>,
}

impl WellKnownFlow {
    pub open spec fn wf(self) -> bool {
        self.http.wf()
    }

    pub fn new(config: &DiscoveryConfig, auth: &Auth) -> (r: Self)
        ensures
            r.wf(),
            r.output is None,
            no_crlf(r.date@),
            r.uri@.path == "/.well-known/carddav".spec_bytes(),
            r.uri@.authority == spec_discovery_authority(config.host@, config.port),
            flow_starts_with(
                r.http,
                spec_op_request(
                    match config.method {
                        None => "GET".spec_bytes(),
                        Some(ref m) => string_bytes(*m),
                    },
                    "/.well-known/carddav".spec_bytes(),
                    r.date@,
                    Seq::<u8>::empty(),
                    spec_auth_suffix(*auth),
                    Seq::<u8>::empty(),
                    Seq::<u8>::empty(),
                ),
            ),
    {
        let uri = well_known_origin(config);
        let body: Vec<u8> = Vec::new();
        proof {
            assert(body@ =~= Seq::<u8>::empty());
        }
        let req = match &config.method {
            None => build_op_request(
                "GET",
                uri.path.as_slice(),
                ContentKind::Bare,
                auth,
                None,
                body.as_slice(),
            ),
            Some(m) => build_op_request(
                m.as_str(),
                uri.path.as_slice(),
                ContentKind::Bare,
                auth,
                None,
                body.as_slice(),
            ),
        };
        let date = Ghost(req.date@);
        WellKnownFlow { http: SendReceiveFlow::new(req), uri, output: None, date }
    }

    /// One step of the bootstrap; `None` means the flow finished and
    /// `output` holds what the lookup concluded.
    pub fn next(&mut self) -> (r: Option<Io>)
        requires
            old(self).wf(),
        ensures
            final(self).wf(),
            final(self).uri == old(self).uri,
            match old(self).http.state {
                None => r is None,
                Some(State::SerializeHttpRequest) => r == Some(Io::Write) && final(self).output
                    == old(self).output,
                Some(State::SendHttpRequest) => r == Some(Io::Read) && final(self).output == old(
                    self,
                ).output,
                Some(State::ReceiveHttpResponse) => {
                    let b = old(self).http.framer.bytes@;
                    match spec_frame_status(b) {
                        FrameStatus::Incomplete => if old(self).http.eof {
                            r is None && final(self).output == Some(
                                Err::<WellKnownOutcome, ProtocolError>(
                                    ProtocolError::ConnectionClosed,
                                ),
                            )
                        } else {
                            r == Some(Io::Read) && final(self).output == old(self).output
                        },
                        FrameStatus::MissingContentLength => r is None && final(self).output
                            == Some(
                            Err::<WellKnownOutcome, ProtocolError>(
                                ProtocolError::MissingContentLength,
                            ),
                        ),
                        FrameStatus::InvalidContentLength => r is None && final(self).output
                            == Some(
                            Err::<WellKnownOutcome, ProtocolError>(
                                ProtocolError::InvalidContentLength,
                            ),
                        ),
                        FrameStatus::Complete => r is None && match final(self).output {
                            Some(out) => well_known_outcome_matches(b, old(self).uri@, out),
                            None => false,
                        },
                    }
                },
                Some(State::DeserializeHttpResponse) => r is None,
            },
    {
        match self.http.next() {
            Some(io) => Some(io),
            None => {
                match self.http.output() {
                    None => {
                        self.output = None;
                        None
                    },
                    Some(Err(e)) => {
                        self.output = Some(Err(e));
                        None
                    },
                    Some(Ok(resp)) => {
                        if !(resp.status >= 300 && resp.status < 400) {
                            self.output = Some(
                                Err(ProtocolError::NotRedirected(resp.status)),
                            );
                            None
                        } else {
                            match resp.location {
                                None => {
                                    self.output = Some(Err(ProtocolError::MissingLocation));
                                    None
                                },
                                Some(loc) => {
                                    let (u, same) = apply_redirect(&self.uri, loc.as_slice());
                                    let keep_alive = resp.keep_alive && same;
                                    self.output = Some(
                                        Ok(WellKnownOutcome { uri: u, keep_alive }),
                                    );
                                    None
                                },
                            }
                        }
                    },
                }
            },
        }
    }

    /// Hand the pending request bytes to the driver.
    pub fn take_request_bytes(&mut self) -> (r: Vec<u8>)
        requires
            old(self).wf(),
        ensures
            final(self).wf(),
            r@ == old(self).http.write_buffer@,
            final(self).uri == old(self).uri,
            final(self).output == old(self).output,
            final(self).http.state == old(self).http.state,
            final(self).http.framer == old(self).http.framer,
            final(self).http.eof == old(self).http.eof,
    {
        self.http.take_request_bytes()
    }

    /// Accept the bytes one transport read delivered.
    pub fn enqueue_response_bytes(&mut self, chunk: &[u8])
        requires
            old(self).wf(),
        ensures
            final(self).wf(),
            final(self).http.framer.bytes@ == old(self).http.framer.bytes@ + chunk@,
            final(self).uri == old(self).uri,
            final(self).output == old(self).output,
            final(self).http.state == old(self).http.state,
    {
        self.http.enqueue_response_bytes(chunk)
    }

    /// The outcome, once the flow finished; it can be taken once.
    pub fn output(&mut self) -> (r: Option<Result<WellKnownOutcome, ProtocolError>>)
        ensures
            r == old(self).output,
            final(self).output is None,
            final(self).http == old(self).http,
            final(self).uri == old(self).uri,
    {
        self.output.take()
    }
}

/// Which WebDAV property a discovery lookup resolves.
#[derive(Clone, Copy, Debug, PartialEq, Eq, Structural)]
pub enum DiscoveryTarget {
    CurrentUserPrincipal,
    AddressbookHomeSet,
}

/// The property name a lookup reads out of the multistatus answer.
pub open spec fn target_prop_name(t: DiscoveryTarget) -> Seq<u8> {
    match t {
        DiscoveryTarget::CurrentUserPrincipal => "current-user-principal".spec_bytes(),
        DiscoveryTarget::AddressbookHomeSet => "addressbook-home-set".spec_bytes(),
    }
}

/// The `PROPFIND` body a lookup sends.
pub open spec fn target_body(t: DiscoveryTarget) -> Seq<u8> {
    match t {
        DiscoveryTarget::CurrentUserPrincipal => "<?xml version=\"1.0\" encoding=\"utf-8\" ?><propfind xmlns=\"DAV:\"><prop><current-user-principal /></prop></propfind>".spec_bytes(),
        DiscoveryTarget::AddressbookHomeSet => "<?xml version=\"1.0\" encoding=\"utf-8\" ?><propfind xmlns=\"DAV:\" xmlns:C=\"urn:ietf:params:xml:ns:carddav\"><prop><C:addressbook-home-set /></prop></propfind>".spec_bytes(),
    }
}

fn target_body_bytes(t: DiscoveryTarget) -> (r: Vec<u8>)
    ensures
        r@ == target_body(t),
{
    let mut v: Vec<u8> = Vec::new();
    match t {
        DiscoveryTarget::CurrentUserPrincipal => {
            append_bytes(
                &mut v,
                "<?xml version=\"1.0\" encoding=\"utf-8\" ?><propfind xmlns=\"DAV:\"><prop><current-user-principal /></prop></propfind>".as_bytes(),
            );
            proof {
                assert(v@ =~= target_body(t));
            }
        },
        DiscoveryTarget::AddressbookHomeSet => {
            append_bytes(
                &mut v,
                "<?xml version=\"1.0\" encoding=\"utf-8\" ?><propfind xmlns=\"DAV:\" xmlns:C=\"urn:ietf:params:xml:ns:carddav\"><prop><C:addressbook-home-set /></prop></propfind>".as_bytes(),
            );
            proof {
                assert(v@ =~= target_body(t));
            }
        },
    }
    v
}

/// The request one lookup hop sends against the current URI.
pub open spec fn target_request(t: DiscoveryTarget, u: UriV, auth: Auth, d: Seq<u8>) -> Seq<u8> {
    spec_op_request(
        "PROPFIND".spec_bytes(),
        u.path,
        d,
        spec_content_type_xml(),
        spec_auth_suffix(auth),
        Seq::<u8>::empty(),
        target_body(t),
    )
}

/// What one lookup hop concludes.
pub struct DiscoveryOutcome {
    pub href: Option<Vec<u8>>,
    pub keep_alive: bool,
}

/// How a finished lookup exchange reads off the wire image when its
/// status is a success: the answer is the property's href out of the
/// multistatus body, with the connection policy of the response.
pub open spec fn discovery_done_matches(
    b: Seq<u8>,
    t: DiscoveryTarget,
    out: Result<DiscoveryOutcome, ProtocolError>,
) -> bool {
    match spec_status_code(spec_head(b)) {
        None => out == Err::<DiscoveryOutcome, ProtocolError>(ProtocolError::InvalidStatusLine),
        Some(code) => if 300 <= code < 400 {
            true  // redirects never finish a lookup; they restart it
        } else if !(200 <= code < 300) {
            out == Err::<DiscoveryOutcome, ProtocolError>(
                ProtocolError::UnexpectedStatus(code as u16),
            )
        } else {
            match spec_parse_multistatus(spec_body(b)) {
                None => out == Err::<DiscoveryOutcome, ProtocolError>(ProtocolError::MalformedXml),
                Some(ms) => match out {
                    Ok(o) => {
                        &&& match spec_first_href_prop(ms.responses, target_prop_name(t)) {
                            None => o.href is None,
                            Some(h) => match o.href {
                                None => false,
                                Some(ref v) => v@ == h,
                            },
                        }
                        &&& o.keep_alive == spec_keep_alive(spec_head(b))
                    },
                    Err(_) => false,
                },
            }
        },
    }
}

/// What one step of a lookup hands its driver: plain I/O, or the order
/// to connect afresh to the given URI before going on.
pub enum DiscoveryIo {
    Io(Io),
    Reset(Uri),
}

/// One discovery lookup (`current-user-principal` or
/// `addressbook-home-set`): a `PROPFIND` against the current URI that
/// follows redirects, reconnecting whenever the redirect policy says
/// the connection cannot be reused, until a success answers with the
/// property's href.
pub struct HrefDiscoveryFlow {
    pub target: DiscoveryTarget,
    pub uri: Uri,
    pub auth: Auth,
    pub http: SendReceiveFlow,
    pub output: Option<Result<DiscoveryOutcome, ProtocolError>>,
    pub date: Ghost<Seq<u8>>,
}

impl HrefDiscoveryFlow {
    pub open spec fn wf(self) -> bool {
        &&& self.http.wf()
        &&& (self.http.state is None ==> self.http.output is None)
    }

    pub fn new(target: DiscoveryTarget, uri: Uri, auth: Auth) -> (r: Self)
        ensures
            r.wf(),
            r.output is None,
            r.target == target,
            r.uri@ == uri@,
            no_crlf(r.date@),
            flow_starts_with(r.http, target_request(target, uri@, auth, r.date@)),
    {
        let body = target_body_bytes(target);
        let req = build_op_request(
            "PROPFIND",
            uri.path.as_slice(),
            ContentKind::Xml,
            &auth,
            None,
            body.as_slice(),
        );
        let date = Ghost(req.date@);
        HrefDiscoveryFlow { target, uri, auth, http: SendReceiveFlow::new(req), output: None, date }
    }

    /// One step of the lookup. A redirect reloads the flow with a fresh
    /// request against the redirect target: `Reset` orders the driver
    /// to reconnect there first, plain I/O continues on the same
    /// connection. `None` means the lookup finished and `output` holds
    /// its conclusion.
    #[verifier::rlimit(100)]
    pub fn next(&mut self) -> (r: Option<DiscoveryIo>)
        requires
            old(self).wf(),
        ensures
            final(self).wf(),
            final(self).target == old(self).target,
            match old(self).http.state {
                None => r is None,
                Some(State::SerializeHttpRequest) => (match r {
                    Some(DiscoveryIo::Io(io)) => io == Io::Write,
                    _ => false,
                }) && final(self).output == old(self).output && final(self).uri == old(self).uri,
                Some(State::SendHttpRequest) => (match r {
                    Some(DiscoveryIo::Io(io)) => io == Io::Read,
                    _ => false,
                }) && final(self).output == old(self).output && final(self).uri == old(self).uri,
                Some(State::ReceiveHttpResponse) => {
                    let b = old(self).http.framer.bytes@;
                    match spec_frame_status(b) {
                        FrameStatus::Incomplete => if old(self).http.eof {
                            r is None && final(self).output == Some(
                                Err::<DiscoveryOutcome, ProtocolError>(
                                    ProtocolError::ConnectionClosed,
                                ),
                            )
                        } else {
                            (match r {
                                Some(DiscoveryIo::Io(io)) => io == Io::Read,
                                _ => false,
                            }) && final(self).output == old(self).output && final(self).uri == old(
                                self,
                            ).uri
                        },
                        FrameStatus::MissingContentLength => r is None && final(self).output
                            == Some(
                            Err::<DiscoveryOutcome, ProtocolError>(
                                ProtocolError::MissingContentLength,
                            ),
                        ),
                        FrameStatus::InvalidContentLength => r is None && final(self).output
                            == Some(
                            Err::<DiscoveryOutcome, ProtocolError>(
                                ProtocolError::InvalidContentLength,
                            ),
                        ),
                        FrameStatus::Complete => final(self).complete_step_post(b, old(self).uri@, r),
                    }
                },
                Some(State::DeserializeHttpResponse) => true,
            },
    {
        match self.http.next() {
            Some(io) => Some(DiscoveryIo::Io(io)),
            None => {
                match self.http.output() {
                    None => None,
                    Some(Err(e)) => {
                        self.output = Some(Err(e));
                        None
                    },
                    Some(Ok(resp)) => {
                        if resp.status >= 300 && resp.status < 400 {
                            match resp.location {
                                None => {
                                    self.output = Some(Err(ProtocolError::MissingLocation));
                                    None
                                },
                                Some(loc) => {
                                    let (u, same) = apply_redirect(&self.uri, loc.as_slice());
                                    let reset = must_reconnect(same, resp.keep_alive);
                                    self.uri = u;
                                    let body = target_body_bytes(self.target);
                                    let req = build_op_request(
                                        "PROPFIND",
                                        self.uri.path.as_slice(),
                                        ContentKind::Xml,
                                        &self.auth,
                                        None,
                                        body.as_slice(),
                                    );
                                    self.date = Ghost(req.date@);
                                    self.http = SendReceiveFlow::new(req);
                                    self.output = None;
                                    if reset {
                                        Some(DiscoveryIo::Reset(self.uri.duplicate()))
                                    } else {
                                        match self.http.next() {
                                            Some(io) => Some(DiscoveryIo::Io(io)),
                                            None => None,
                                        }
                                    }
                                },
                            }
                        } else if resp.status >= 200 && resp.status < 300 {
                            match parse_multistatus(resp.body.as_slice()) {
                                None => {
                                    self.output = Some(Err(ProtocolError::MalformedXml));
                                    None
                                },
                                Some(ms) => {
                                    let mut pname: Vec<u8> = Vec::new();
                                    match self.target {
                                        DiscoveryTarget::CurrentUserPrincipal => {
                                            append_bytes(
                                                &mut pname,
                                                "current-user-principal".as_bytes(),
                                            );
                                            proof {
                                                assert(pname@ =~= target_prop_name(self.target));
                                            }
                                        },
                                        DiscoveryTarget::AddressbookHomeSet => {
                                            append_bytes(
                                                &mut pname,
                                                "addressbook-home-set".as_bytes(),
                                            );
                                            proof {
                                                assert(pname@ =~= target_prop_name(self.target));
                                            }
                                        },
                                    }
                                    let href = crate::model::first_href_prop(
                                        &ms,
                                        pname.as_slice(),
                                    );
                                    self.output = Some(
                                        Ok(
                                            DiscoveryOutcome {
                                                href,
                                                keep_alive: resp.keep_alive,
                                            },
                                        ),
                                    );
                                    None
                                },
                            }
                        } else {
                            self.output = Some(
                                Err(ProtocolError::UnexpectedStatus(resp.status)),
                            );
                            None
                        }
                    },
                }
            },
        }
    }

    /// What holds after a step that saw a complete response: a redirect
    /// reloads the flow against the redirect target of the old URI and
    /// orders a reconnect exactly when the policy demands one; anything
    /// else finishes the lookup with the outcome the wire image gives.
    pub open spec fn complete_step_post(
        self,
        b: Seq<u8>,
        old_uri: UriV,
        r: Option<DiscoveryIo>,
    ) -> bool {
        match spec_status_code(spec_head(b)) {
            None => r is None && self.output == Some(
                Err::<DiscoveryOutcome, ProtocolError>(ProtocolError::InvalidStatusLine),
            ),
            Some(code) => if 300 <= code < 400 {
                match spec_location(spec_head(b)) {
                    None => r is None && self.output == Some(
                        Err::<DiscoveryOutcome, ProtocolError>(ProtocolError::MissingLocation),
                    ),
                    Some(loc) => {
                        let (u, same) = spec_apply_redirect(old_uri, loc);
                        let reset = spec_must_reconnect(same, spec_keep_alive(spec_head(b)));
                        &&& self.uri@ == u
                        &&& self.output is None
                        &&& no_crlf(self.date@)
                        &&& self.http.write_buffer@ == target_request(
                            self.target,
                            u,
                            self.auth,
                            self.date@,
                        )
                        &&& self.http.framer.bytes@ == Seq::<u8>::empty()
                        &&& !self.http.eof
                        &&& self.http.output is None
                        &&& if reset {
                            (match r {
                                Some(DiscoveryIo::Reset(ru)) => ru@ == u,
                                _ => false,
                            }) && self.http.state == Some(State::SerializeHttpRequest)
                        } else {
                            (match r {
                                Some(DiscoveryIo::Io(io)) => io == Io::Write,
                                _ => false,
                            }) && self.http.state == Some(State::SendHttpRequest)
                        }
                    },
                }
            } else {
                r is None && match self.output {
                    Some(out) => discovery_done_matches(b, self.target, out),
                    None => false,
                }
            },
        }
    }

    /// Hand the pending request bytes to the driver.
    pub fn take_request_bytes(&mut self) -> (r: Vec<u8>)
        requires
            old(self).wf(),
        ensures
            final(self).wf(),
            r@ == old(self).http.write_buffer@,
            final(self).uri == old(self).uri,
            final(self).output == old(self).output,
            final(self).target == old(self).target,
            final(self).http.state == old(self).http.state,
            final(self).http.framer == old(self).http.framer,
            final(self).http.eof == old(self).http.eof,
    {
        self.http.take_request_bytes()
    }

    /// Accept the bytes one transport read delivered.
    pub fn enqueue_response_bytes(&mut self, chunk: &[u8])
        requires
            old(self).wf(),
        ensures
            final(self).wf(),
            final(self).http.framer.bytes@ == old(self).http.framer.bytes@ + chunk@,
            final(self).uri == old(self).uri,
            final(self).output == old(self).output,
            final(self).target == old(self).target,
            final(self).http.state == old(self).http.state,
    {
        self.http.enqueue_response_bytes(chunk)
    }

    /// The conclusion, once the lookup finished; it can be taken once.
    pub fn output(&mut self) -> (r: Option<Result<DiscoveryOutcome, ProtocolError>>)
        ensures
            r == old(self).output,
            final(self).output is None,
            final(self).http == old(self).http,
            final(self).uri == old(self).uri,
            final(self).target == old(self).target,
    {
        self.output.take()
    }
}

} // verus!
