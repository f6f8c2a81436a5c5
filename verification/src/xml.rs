//! The WebDAV XML document model: a tokenizer for the element/text
//! structure of `multistatus` bodies and a shape parser into typed
//! records. Namespace prefixes (`D:`, `C:`, none at all) are stripped, so
//! the model only ever speaks of local names. Parsing never succeeds
//! partially: a body either parses as a whole or the parse fails.

use vstd::prelude::*;
use vstd::string::StringSliceAdditionalSpecFns;

use crate::scan::{bytes_eq, bytes_of, find_sub, lemma_find_from_props, slice_part, spec_find};

verus! {

/// XML whitespace.
pub open spec fn is_ws(b: u8) -> bool {
    b == 32 || b == 9 || b == 13 || b == 10
}

pub open spec fn all_ws(s: Seq<u8>) -> bool {
    forall|i: int| 0 <= i < s.len() ==> is_ws(#[trigger] s[i])
}

/// Index of the first whitespace byte, or the length when there is none.
pub open spec fn first_ws(s: Seq<u8>) -> int
    decreases s.len(),
{
    if s.len() == 0 {
        0
    } else if is_ws(s[0]) {
        0
    } else {
        1 + first_ws(s.drop_first())
    }
}

pub proof fn lemma_first_ws_unique(s: Seq<u8>, i: int)
    requires
        0 <= i <= s.len(),
        forall|k: int| 0 <= k < i ==> !is_ws(#[trigger] s[k]),
        i < s.len() ==> is_ws(s[i]),
    ensures
        first_ws(s) == i,
    decreases s.len(),
{
    if s.len() > 0 && !is_ws(s[0]) {
        assert forall|k: int| 0 <= k < i - 1 implies !is_ws(#[trigger] s.drop_first()[k]) by {
            assert(s.drop_first()[k] == s[k + 1]);
        }
        if i - 1 < s.drop_first().len() {
            assert(s.drop_first()[i - 1] == s[i]);
        }
        lemma_first_ws_unique(s.drop_first(), i - 1);
    }
}

/// Index of the first colon, or the length when there is none.
pub open spec fn first_colon(s: Seq<u8>) -> int
    decreases s.len(),
{
    if s.len() == 0 {
        0
    } else if s[0] == 58 {
        0
    } else {
        1 + first_colon(s.drop_first())
    }
}

pub proof fn lemma_first_colon_unique(s: Seq<u8>, i: int)
    requires
        0 <= i <= s.len(),
        forall|k: int| 0 <= k < i ==> #[trigger] s[k] != 58,
        i < s.len() ==> s[i] == 58,
    ensures
        first_colon(s) == i,
    decreases s.len(),
{
    if s.len() > 0 && s[0] != 58 {
        assert forall|k: int| 0 <= k < i - 1 implies #[trigger] s.drop_first()[k] != 58 by {
            assert(s.drop_first()[k] == s[k + 1]);
        }
        if i - 1 < s.drop_first().len() {
            assert(s.drop_first()[i - 1] == s[i]);
        }
        lemma_first_colon_unique(s.drop_first(), i - 1);
    }
}

/// The local part of a possibly prefixed XML name: what follows the
/// first colon, or the whole name when it has no prefix.
pub open spec fn local_of(n: Seq<u8>) -> Seq<u8> {
    if first_colon(n) == n.len() {
        n
    } else {
        n.subrange(first_colon(n) + 1, n.len() as int)
    }
}

/// The local name of a tag: the first whitespace-delimited word of its
/// inside, attributes dropped, prefix stripped.
pub open spec fn tag_name(inside: Seq<u8>) -> Seq<u8> {
    local_of(inside.subrange(0, first_ws(inside)))
}

pub fn local_name(n: &[u8]) -> (r: Vec<u8>)
    ensures
        r@ == local_of(n@),
{
    let mut i: usize = 0;
    while i < n.len() && n[i] != 58
        invariant
            0 <= i <= n@.len(),
            forall|k: int| 0 <= k < i ==> #[trigger] n@[k] != 58,
        decreases n@.len() - i,
    {
        i = i + 1;
    }
    proof {
        lemma_first_colon_unique(n@, i as int);
    }
    if i == n.len() {
        bytes_of(n)
    } else {
        bytes_of(slice_part(n, i + 1, n.len()))
    }
}

pub fn extract_tag_name(inside: &[u8]) -> (r: Vec<u8>)
    ensures
        r@ == tag_name(inside@),
{
    let mut i: usize = 0;
    while i < inside.len() && !(inside[i] == 32 || inside[i] == 9 || inside[i] == 13
        || inside[i] == 10)
        invariant
            0 <= i <= inside@.len(),
            forall|k: int| 0 <= k < i ==> !is_ws(#[trigger] inside@[k]),
        decreases inside@.len() - i,
    {
        i = i + 1;
    }
    proof {
        lemma_first_ws_unique(inside@, i as int);
    }
    local_name(slice_part(inside, 0, i))
}

/// One structural piece of an XML document, with its local name.
#[derive(Debug)]
pub enum XmlToken {
    Open(Vec<u8>),
    Close(Vec<u8>),
    Empty(Vec<u8>),
    Text(Vec<u8>),
}

/// The ghost image of a token.
pub enum TokV {
    Open(Seq<u8>),
    Close(Seq<u8>),
    Empty(Seq<u8>),
    Text(Seq<u8>),
}

impl View for XmlToken {
    type V = TokV;

    open spec fn view(&self) -> TokV {
        match self {
            XmlToken::Open(n) => TokV::Open(n@),
            XmlToken::Close(n) => TokV::Close(n@),
            XmlToken::Empty(n) => TokV::Empty(n@),
            XmlToken::Text(n) => TokV::Text(n@),
        }
    }
}

/// The ghost image of a token list.
pub open spec fn toks_view(ts: Seq<XmlToken>) -> Seq<TokV> {
    ts.map_values(|t: XmlToken| t@)
}

/// Tokenize a document: tags become `Open`, `Close` or `Empty` carrying
/// their local name, text runs that are not pure whitespace become
/// `Text`, the `<?...?>` prolog is dropped, and anything that breaks the
/// tag structure fails the whole tokenization.
pub open spec fn spec_tokenize(b: Seq<u8>) -> Option<Seq<TokV>>
    decreases b.len(),
{
    if b.len() == 0 {
        Some(Seq::<TokV>::empty())
    } else if b[0] == 60 {
        if b.len() >= 2 && b[1] == 63 {
            // prolog: skip to the closing `?>`
            match spec_find(b, seq![63u8, 62u8]) {
                None => None,
                Some(q) => if 0 <= q && q + 2 <= b.len() {
                    spec_tokenize(b.subrange(q + 2, b.len() as int))
                } else {
                    None
                },
            }
        } else if b.len() >= 2 && b[1] == 47 {
            match spec_find(b, seq![62u8]) {
                None => None,
                Some(g) => if 2 <= g && g + 1 <= b.len() {
                    let name = tag_name(b.subrange(2, g));
                    if name.len() == 0 {
                        None
                    } else {
                        match spec_tokenize(b.subrange(g + 1, b.len() as int)) {
                            None => None,
                            Some(rest) => Some(seq![TokV::Close(name)] + rest),
                        }
                    }
                } else {
                    None
                },
            }
        } else {
            match spec_find(b, seq![62u8]) {
                None => None,
                Some(g) => if 1 <= g && g + 1 <= b.len() {
                    let inside = b.subrange(1, g);
                    if inside.len() > 0 && inside.last() == 47 {
                        let name = tag_name(inside.drop_last());
                        if name.len() == 0 {
                            None
                        } else {
                            match spec_tokenize(b.subrange(g + 1, b.len() as int)) {
                                None => None,
                                Some(rest) => Some(seq![TokV::Empty(name)] + rest),
                            }
                        }
                    } else {
                        let name = tag_name(inside);
                        if name.len() == 0 {
                            None
                        } else {
                            match spec_tokenize(b.subrange(g + 1, b.len() as int)) {
                                None => None,
                                Some(rest) => Some(seq![TokV::Open(name)] + rest),
                            }
                        }
                    }
                } else {
                    None
                },
            }
        }
    } else {
        match spec_find(b, seq![60u8]) {
            None => {
                if all_ws(b) {
                    Some(Seq::<TokV>::empty())
                } else {
                    Some(seq![TokV::Text(b)])
                }
            },
            Some(t) => if 1 <= t && t <= b.len() {
                let txt = b.subrange(0, t);
                match spec_tokenize(b.subrange(t, b.len() as int)) {
                    None => None,
                    Some(rest) => if all_ws(txt) {
                        Some(rest)
                    } else {
                        Some(seq![TokV::Text(txt)] + rest)
                    },
                }
            } else {
                None
            },
        }
    }
}

pub fn is_all_ws(s: &[u8]) -> (r: bool)
    ensures
        r == all_ws(s@),
{
    let mut i: usize = 0;
    while i < s.len()
        invariant
            0 <= i <= s@.len(),
            forall|k: int| 0 <= k < i ==> is_ws(#[trigger] s@[k]),
        decreases s@.len() - i,
    {
        let b = s[i];
        if !(b == 32 || b == 9 || b == 13 || b == 10) {
            proof {
                assert(!is_ws(s@[i as int]));
            }
            return false;
        }
        i = i + 1;
    }
    true
}

fn tokenize_from(b: &[u8], i: usize) -> (r: Option<Vec<XmlToken>>)
    requires
        i <= b@.len(),
    ensures
        match r {
            Some(ts) => spec_tokenize(b@.subrange(i as int, b@.len() as int)) == Some(
                toks_view(ts@),
            ),
            None => spec_tokenize(b@.subrange(i as int, b@.len() as int)) is None,
        },
    decreases b@.len() - i,
{
    let suf = slice_part(b, i, b.len());
    let ghost sv = b@.subrange(i as int, b@.len() as int);
    let slen = suf.len();
    if slen == 0 {
        let ts: Vec<XmlToken> = Vec::new();
        proof {
            assert(toks_view(ts@) =~= Seq::<TokV>::empty());
        }
        return Some(ts);
    }
    if suf[0] == 60 {
        if slen >= 2 && suf[1] == 63 {
            let mut qgt: Vec<u8> = Vec::new();
            qgt.push(63u8);
            qgt.push(62u8);
            proof {
                assert(qgt@ =~= seq![63u8, 62u8]);
            }
            match find_sub(suf, qgt.as_slice()) {
                None => None,
                Some(q) => {
                    proof {
                        lemma_find_from_props(sv, seq![63u8, 62u8], 0);
                    }
                    let rest = tokenize_from(b, i + q + 2);
                    proof {
                        assert(sv.subrange(q as int + 2, sv.len() as int) =~= b@.subrange(
                            i as int + q as int + 2,
                            b@.len() as int,
                        ));
                    }
                    rest
                },
            }
        } else if slen >= 2 && suf[1] == 47 {
            let mut gt: Vec<u8> = Vec::new();
            gt.push(62u8);
            proof {
                assert(gt@ =~= seq![62u8]);
            }
            match find_sub(suf, gt.as_slice()) {
                None => None,
                Some(g) => {
                    proof {
                        lemma_find_from_props(sv, seq![62u8], 0);
                    }
                    if g < 2 {
                        return None;
                    }
                    let name = extract_tag_name(slice_part(suf, 2, g));
                    if name.len() == 0 {
                        return None;
                    }
                    match tokenize_from(b, i + g + 1) {
                        None => {
                            proof {
                                assert(sv.subrange(g as int + 1, sv.len() as int) =~= b@.subrange(
                                    i as int + g as int + 1,
                                    b@.len() as int,
                                ));
                            }
                            None
                        },
                        Some(rest) => {
                            let mut ts = rest;
                            let ghost rest_view = toks_view(ts@);
                            ts.insert(0, XmlToken::Close(name));
                            proof {
                                assert(sv.subrange(g as int + 1, sv.len() as int) =~= b@.subrange(
                                    i as int + g as int + 1,
                                    b@.len() as int,
                                ));
                                assert(toks_view(ts@) =~= seq![TokV::Close(tag_name(sv.subrange(2, g as int)))]
                                    + rest_view);
                            }
                            Some(ts)
                        },
                    }
                },
            }
        } else {
            let mut gt: Vec<u8> = Vec::new();
            gt.push(62u8);
            proof {
                assert(gt@ =~= seq![62u8]);
            }
            match find_sub(suf, gt.as_slice()) {
                None => None,
                Some(g) => {
                    proof {
                        lemma_find_from_props(sv, seq![62u8], 0);
                        if g < 1 {
                            assert(sv.subrange(0, 1)[0] == sv[0]);
                        }
                    }
                    let ghost inside = sv.subrange(1, g as int);
                    if g > 1 && suf[g - 1] == 47 {
                        proof {
                            assert(inside.last() == sv[g as int - 1]);
                            assert(inside.drop_last() =~= sv.subrange(1, g as int - 1));
                        }
                        let name = extract_tag_name(slice_part(suf, 1, g - 1));
                        if name.len() == 0 {
                            return None;
                        }
                        match tokenize_from(b, i + g + 1) {
                            None => {
                                proof {
                                    assert(sv.subrange(g as int + 1, sv.len() as int)
                                        =~= b@.subrange(
                                        i as int + g as int + 1,
                                        b@.len() as int,
                                    ));
                                }
                                None
                            },
                            Some(rest) => {
                                let mut ts = rest;
                                let ghost rest_view = toks_view(ts@);
                                ts.insert(0, XmlToken::Empty(name));
                                proof {
                                    assert(sv.subrange(g as int + 1, sv.len() as int)
                                        =~= b@.subrange(
                                        i as int + g as int + 1,
                                        b@.len() as int,
                                    ));
                                    assert(toks_view(ts@) =~= seq![TokV::Empty(tag_name(inside.drop_last()))]
                                        + rest_view);
                                }
                                Some(ts)
                            },
                        }
                    } else {
                        proof {
                            if inside.len() > 0 && inside.last() == 47 {
                                assert(sv[g as int - 1] == inside.last());
                            }
                        }
                        let name = extract_tag_name(slice_part(suf, 1, g));
                        if name.len() == 0 {
                            return None;
                        }
                        match tokenize_from(b, i + g + 1) {
                            None => {
                                proof {
                                    assert(sv.subrange(g as int + 1, sv.len() as int)
                                        =~= b@.subrange(
                                        i as int + g as int + 1,
                                        b@.len() as int,
                                    ));
                                }
                                None
                            },
                            Some(rest) => {
                                let mut ts = rest;
                                let ghost rest_view = toks_view(ts@);
                                ts.insert(0, XmlToken::Open(name));
                                proof {
                                    assert(sv.subrange(g as int + 1, sv.len() as int)
                                        =~= b@.subrange(
                                        i as int + g as int + 1,
                                        b@.len() as int,
                                    ));
                                    assert(toks_view(ts@) =~= seq![TokV::Open(tag_name(inside))]
                                        + rest_view);
                                }
                                Some(ts)
                            },
                        }
                    }
                },
            }
        }
    } else {
        let mut lt: Vec<u8> = Vec::new();
        lt.push(60u8);
        proof {
            assert(lt@ =~= seq![60u8]);
        }
        match find_sub(suf, lt.as_slice()) {
            None => {
                if is_all_ws(suf) {
                    let ts: Vec<XmlToken> = Vec::new();
                    proof {
                        assert(toks_view(ts@) =~= Seq::<TokV>::empty());
                    }
                    Some(ts)
                } else {
                    let mut ts: Vec<XmlToken> = Vec::new();
                    ts.push(XmlToken::Text(bytes_of(suf)));
                    proof {
                        assert(toks_view(ts@) =~= seq![TokV::Text(sv)]);
                    }
                    Some(ts)
                }
            },
            Some(t) => {
                proof {
                    lemma_find_from_props(sv, seq![60u8], 0);
                    if t == 0 {
                        assert(sv.subrange(0, 1)[0] == sv[0]);
                    }
                }
                let txt = slice_part(suf, 0, t);
                match tokenize_from(b, i + t) {
                    None => {
                        proof {
                            assert(sv.subrange(t as int, sv.len() as int) =~= b@.subrange(
                                i as int + t as int,
                                b@.len() as int,
                            ));
                        }
                        None
                    },
                    Some(rest) => {
                        proof {
                            assert(sv.subrange(t as int, sv.len() as int) =~= b@.subrange(
                                i as int + t as int,
                                b@.len() as int,
                            ));
                        }
                        if is_all_ws(txt) {
                            Some(rest)
                        } else {
                            let mut ts = rest;
                            let ghost rest_view = toks_view(ts@);
                            ts.insert(0, XmlToken::Text(bytes_of(txt)));
                            proof {
                                assert(toks_view(ts@) =~= seq![TokV::Text(sv.subrange(0, t as int))]
                                    + rest_view);
                            }
                            Some(ts)
                        }
                    },
                }
            },
        }
    }
}

/// A direct child element of a `prop` entry: its local name and its
/// immediate text, as in the `href` inside `current-user-principal` or
/// the bare `addressbook` marker inside `resourcetype`.
pub struct PropChild {
    pub name: Vec<u8>,
    pub text: Vec<u8>,
}

/// One property inside `prop`: its local name, its immediate text, and
/// its direct child elements.
pub struct PropEntry {
    pub name: Vec<u8>,
    pub text: Vec<u8>,
    pub children: Vec<PropChild>,
}

/// A `propstat`: a set of properties and the status of retrieving them.
pub struct Propstat {
    pub props: Vec<PropEntry>,
    pub status: Vec<u8>,
}

/// A `response` entry of a multistatus body: its `href`, an optional
/// per-response status, and its `propstat` entries, in document order.
pub struct Response {
    pub href: Vec<u8>,
    pub status: Option<Vec<u8>>,
    pub propstats: Vec<Propstat>,
}

/// A parsed `multistatus` body: its `response` entries in document order.
pub struct Multistatus {
    pub responses: Vec<Response>,
}

pub struct PropChildV {
    pub name: Seq<u8>,
    pub text: Seq<u8>,
}

pub struct PropEntryV {
    pub name: Seq<u8>,
    pub text: Seq<u8>,
    pub children: Seq<PropChildV>,
}

pub struct PropstatV {
    pub props: Seq<PropEntryV>,
    pub status: Seq<u8>,
}

pub struct ResponseV {
    pub href: Seq<u8>,
    pub status: Option<Seq<u8>>,
    pub propstats: Seq<PropstatV>,
}

pub struct MultistatusV {
    pub responses: Seq<ResponseV>,
}

impl View for PropChild {
    type V = PropChildV;

    open spec fn view(&self) -> PropChildV {
        PropChildV { name: self.name@, text: self.text@ }
    }
}

impl View for PropEntry {
    type V = PropEntryV;

    open spec fn view(&self) -> PropEntryV {
        PropEntryV {
            name: self.name@,
            text: self.text@,
            children: self.children@.map_values(|c: PropChild| c@),
        }
    }
}

impl View for Propstat {
    type V = PropstatV;

    open spec fn view(&self) -> PropstatV {
        PropstatV {
            props: self.props@.map_values(|p: PropEntry| p@),
            status: self.status@,
        }
    }
}

impl View for Response {
    type V = ResponseV;

    open spec fn view(&self) -> ResponseV {
        ResponseV {
            href: self.href@,
            status: match self.status {
                None => None,
                Some(s) => Some(s@),
            },
            propstats: self.propstats@.map_values(|p: Propstat| p@),
        }
    }
}

impl View for Multistatus {
    type V = MultistatusV;

    open spec fn view(&self) -> MultistatusV {
        MultistatusV { responses: self.responses@.map_values(|r: Response| r@) }
    }
}

/// The local name of an element token, if the token opens one.
pub open spec fn tok_elem_name(t: TokV) -> Option<Seq<u8>> {
    match t {
        TokV::Open(n) => Some(n),
        TokV::Empty(n) => Some(n),
        _ => None,
    }
}

/// Position right after the balanced element whose content starts at
/// `k`, counting opens and closes; `depth` is the current nesting.
pub open spec fn scan_close(toks: Seq<TokV>, k: int, depth: int) -> Option<int>
    decreases toks.len() - k,
{
    if k < 0 || k >= toks.len() {
        None
    } else {
        match toks[k] {
            TokV::Open(_) => scan_close(toks, k + 1, depth + 1),
            TokV::Close(_) => if depth == 0 {
                Some(k + 1)
            } else {
                scan_close(toks, k + 1, depth - 1)
            },
            _ => scan_close(toks, k + 1, depth),
        }
    }
}

/// Position right after the element (or text) starting at `i`.
pub open spec fn sp_skip_element(toks: Seq<TokV>, i: int) -> Option<int> {
    if i < 0 || i >= toks.len() {
        None
    } else {
        match toks[i] {
            TokV::Empty(_) => Some(i + 1),
            TokV::Text(_) => Some(i + 1),
            TokV::Close(_) => None,
            TokV::Open(_) => scan_close(toks, i + 1, 0),
        }
    }
}

/// A simple element at `i`: `<n/>`, `<n></n>` or `<n>text</n>`; gives
/// its name, its text and the position after it.
pub open spec fn sp_parse_simple(toks: Seq<TokV>, i: int) -> Option<(Seq<u8>, Seq<u8>, int)> {
    if i < 0 || i >= toks.len() {
        None
    } else {
        match toks[i] {
            TokV::Empty(n) => Some((n, Seq::<u8>::empty(), i + 1)),
            TokV::Open(n) => if i + 1 < toks.len() {
                match toks[i + 1] {
                    TokV::Close(_) => Some((n, Seq::<u8>::empty(), i + 2)),
                    TokV::Text(t) => if i + 2 < toks.len() {
                        match toks[i + 2] {
                            TokV::Close(_) => Some((n, t, i + 3)),
                            _ => None,
                        }
                    } else {
                        None
                    },
                    _ => None,
                }
            } else {
                None
            },
            _ => None,
        }
    }
}

/// A direct child of a property: a simple element, or any element whose
/// deeper content is skipped.
pub open spec fn sp_parse_prop_child(toks: Seq<TokV>, i: int) -> Option<(PropChildV, int)> {
    if i < 0 || i >= toks.len() {
        None
    } else {
        match toks[i] {
            TokV::Empty(n) => Some((PropChildV { name: n, text: Seq::<u8>::empty() }, i + 1)),
            TokV::Open(n) => match sp_parse_simple(toks, i) {
                Some((n2, t, j)) => Some((PropChildV { name: n2, text: t }, j)),
                None => match sp_skip_element(toks, i) {
                    None => None,
                    Some(j) => Some((PropChildV { name: n, text: Seq::<u8>::empty() }, j)),
                },
            },
            _ => None,
        }
    }
}

/// The content of a property element: its immediate text (first run)
/// and its direct children, up to the matching close.
pub open spec fn sp_parse_entry_items(toks: Seq<TokV>, i: int) -> Option<
    (Option<Seq<u8>>, Seq<PropChildV>, int),
>
    decreases toks.len() - i,
{
    if i < 0 || i >= toks.len() {
        None
    } else {
        match toks[i] {
            TokV::Close(_) => Some((None, Seq::<PropChildV>::empty(), i + 1)),
            TokV::Text(t) => match sp_parse_entry_items(toks, i + 1) {
                None => None,
                Some((_, cs, j)) => Some((Some(t), cs, j)),
            },
            _ => match sp_parse_prop_child(toks, i) {
                None => None,
                Some((c, j)) => if i < j <= toks.len() {
                    match sp_parse_entry_items(toks, j) {
                        None => None,
                        Some((txt, cs, j2)) => Some((txt, seq![c] + cs, j2)),
                    }
                } else {
                    None
                },
            },
        }
    }
}

/// One property inside `prop`.
pub open spec fn sp_parse_prop_entry(toks: Seq<TokV>, i: int) -> Option<(PropEntryV, int)> {
    if i < 0 || i >= toks.len() {
        None
    } else {
        match toks[i] {
            TokV::Empty(n) => Some(
                (
                    PropEntryV {
                        name: n,
                        text: Seq::<u8>::empty(),
                        children: Seq::<PropChildV>::empty(),
                    },
                    i + 1,
                ),
            ),
            TokV::Open(n) => match sp_parse_entry_items(toks, i + 1) {
                None => None,
                Some((txt, cs, j)) => Some(
                    (
                        PropEntryV {
                            name: n,
                            text: match txt {
                                None => Seq::<u8>::empty(),
                                Some(t) => t,
                            },
                            children: cs,
                        },
                        j,
                    ),
                ),
            },
            _ => None,
        }
    }
}

/// The entries of a `prop` element, up to its close.
pub open spec fn sp_parse_prop_items(toks: Seq<TokV>, i: int) -> Option<(Seq<PropEntryV>, int)>
    decreases toks.len() - i,
{
    if i < 0 || i >= toks.len() {
        None
    } else {
        match toks[i] {
            TokV::Close(_) => Some((Seq::<PropEntryV>::empty(), i + 1)),
            TokV::Text(_) => sp_parse_prop_items(toks, i + 1),
            _ => match sp_parse_prop_entry(toks, i) {
                None => None,
                Some((e, j)) => if i < j <= toks.len() {
                    match sp_parse_prop_items(toks, j) {
                        None => None,
                        Some((es, j2)) => Some((seq![e] + es, j2)),
                    }
                } else {
                    None
                },
            },
        }
    }
}

/// A `prop` element.
pub open spec fn sp_parse_prop(toks: Seq<TokV>, i: int) -> Option<(Seq<PropEntryV>, int)> {
    if i < 0 || i >= toks.len() {
        None
    } else {
        match toks[i] {
            TokV::Empty(_) => Some((Seq::<PropEntryV>::empty(), i + 1)),
            TokV::Open(_) => sp_parse_prop_items(toks, i + 1),
            _ => None,
        }
    }
}

/// The children of a `propstat`: its `prop` and its `status`.
pub open spec fn sp_parse_propstat_items(toks: Seq<TokV>, i: int) -> Option<
    (Option<Seq<PropEntryV>>, Option<Seq<u8>>, int),
>
    decreases toks.len() - i,
{
    if i < 0 || i >= toks.len() {
        None
    } else {
        match toks[i] {
            TokV::Close(_) => Some((None, None, i + 1)),
            TokV::Text(_) => sp_parse_propstat_items(toks, i + 1),
            _ => match tok_elem_name(toks[i]) {
                None => None,
                Some(name) => if name == "prop".spec_bytes() {
                    match sp_parse_prop(toks, i) {
                        None => None,
                        Some((props, j)) => if i < j <= toks.len() {
                            match sp_parse_propstat_items(toks, j) {
                                None => None,
                                Some((_, st, j2)) => Some((Some(props), st, j2)),
                            }
                        } else {
                            None
                        },
                    }
                } else if name == "status".spec_bytes() {
                    match sp_parse_simple(toks, i) {
                        None => None,
                        Some((_, t, j)) => if i < j <= toks.len() {
                            match sp_parse_propstat_items(toks, j) {
                                None => None,
                                Some((props, _, j2)) => Some((props, Some(t), j2)),
                            }
                        } else {
                            None
                        },
                    }
                } else {
                    match sp_skip_element(toks, i) {
                        None => None,
                        Some(j) => if i < j <= toks.len() {
                            sp_parse_propstat_items(toks, j)
                        } else {
                            None
                        },
                    }
                },
            },
        }
    }
}

/// A `propstat` element: it must carry both a `prop` and a `status`.
pub open spec fn sp_parse_propstat(toks: Seq<TokV>, i: int) -> Option<(PropstatV, int)> {
    if i < 0 || i >= toks.len() {
        None
    } else {
        match toks[i] {
            TokV::Open(_) => match sp_parse_propstat_items(toks, i + 1) {
                None => None,
                Some((props, st, j)) => match (props, st) {
                    (Some(props), Some(st)) => Some((PropstatV { props, status: st }, j)),
                    _ => None,
                },
            },
            _ => None,
        }
    }
}

/// The children of a `response`: its `href`, an optional `status`, and
/// its `propstat` entries in order.
pub open spec fn sp_parse_response_items(toks: Seq<TokV>, i: int) -> Option<
    (Option<Seq<u8>>, Option<Seq<u8>>, Seq<PropstatV>, int),
>
    decreases toks.len() - i,
{
    if i < 0 || i >= toks.len() {
        None
    } else {
        match toks[i] {
            TokV::Close(_) => Some((None, None, Seq::<PropstatV>::empty(), i + 1)),
            TokV::Text(_) => sp_parse_response_items(toks, i + 1),
            _ => match tok_elem_name(toks[i]) {
                None => None,
                Some(name) => if name == "href".spec_bytes() {
                    match sp_parse_simple(toks, i) {
                        None => None,
                        Some((_, t, j)) => if i < j <= toks.len() {
                            match sp_parse_response_items(toks, j) {
                                None => None,
                                Some((_, st, ps, j2)) => Some((Some(t), st, ps, j2)),
                            }
                        } else {
                            None
                        },
                    }
                } else if name == "status".spec_bytes() {
                    match sp_parse_simple(toks, i) {
                        None => None,
                        Some((_, t, j)) => if i < j <= toks.len() {
                            match sp_parse_response_items(toks, j) {
                                None => None,
                                Some((h, _, ps, j2)) => Some((h, Some(t), ps, j2)),
                            }
                        } else {
                            None
                        },
                    }
                } else if name == "propstat".spec_bytes() {
                    match sp_parse_propstat(toks, i) {
                        None => None,
                        Some((p, j)) => if i < j <= toks.len() {
                            match sp_parse_response_items(toks, j) {
                                None => None,
                                Some((h, st, ps, j2)) => Some((h, st, seq![p] + ps, j2)),
                            }
                        } else {
                            None
                        },
                    }
                } else {
                    match sp_skip_element(toks, i) {
                        None => None,
                        Some(j) => if i < j <= toks.len() {
                            sp_parse_response_items(toks, j)
                        } else {
                            None
                        },
                    }
                },
            },
        }
    }
}

/// A `response` element: its `href` is required.
pub open spec fn sp_parse_response(toks: Seq<TokV>, i: int) -> Option<(ResponseV, int)> {
    if i < 0 || i >= toks.len() {
        None
    } else {
        match toks[i] {
            TokV::Open(_) => match sp_parse_response_items(toks, i + 1) {
                None => None,
                Some((h, st, ps, j)) => match h {
                    None => None,
                    Some(h) => Some((ResponseV { href: h, status: st, propstats: ps }, j)),
                },
            },
            _ => None,
        }
    }
}

/// The children of `multistatus`: its `response` entries in order.
pub open spec fn sp_parse_ms_items(toks: Seq<TokV>, i: int) -> Option<(Seq<ResponseV>, int)>
    decreases toks.len() - i,
{
    if i < 0 || i >= toks.len() {
        None
    } else {
        match toks[i] {
            TokV::Close(_) => Some((Seq::<ResponseV>::empty(), i + 1)),
            TokV::Text(_) => sp_parse_ms_items(toks, i + 1),
            _ => match tok_elem_name(toks[i]) {
                None => None,
                Some(name) => if name == "response".spec_bytes() {
                    match sp_parse_response(toks, i) {
                        None => None,
                        Some((r, j)) => if i < j <= toks.len() {
                            match sp_parse_ms_items(toks, j) {
                                None => None,
                                Some((rs, j2)) => Some((seq![r] + rs, j2)),
                            }
                        } else {
                            None
                        },
                    }
                } else {
                    match sp_skip_element(toks, i) {
                        None => None,
                        Some(j) => if i < j <= toks.len() {
                            sp_parse_ms_items(toks, j)
                        } else {
                            None
                        },
                    }
                },
            },
        }
    }
}

/// A whole token stream as one `multistatus` document.
pub open spec fn sp_parse_multistatus(toks: Seq<TokV>) -> Option<MultistatusV> {
    if toks.len() == 0 {
        None
    } else {
        match toks[0] {
            TokV::Empty(n) => if n == "multistatus".spec_bytes() && toks.len() == 1 {
                Some(MultistatusV { responses: Seq::<ResponseV>::empty() })
            } else {
                None
            },
            TokV::Open(n) => if n == "multistatus".spec_bytes() {
                match sp_parse_ms_items(toks, 1) {
                    None => None,
                    Some((rs, j)) => if j == toks.len() {
                        Some(MultistatusV { responses: rs })
                    } else {
                        None
                    },
                }
            } else {
                None
            },
            _ => None,
        }
    }
}

/// A whole body as one `multistatus` document: either the bytes
/// tokenize and the tokens have the multistatus shape, or the parse
/// fails as a unit.
pub open spec fn spec_parse_multistatus(b: Seq<u8>) -> Option<MultistatusV> {
    match spec_tokenize(b) {
        None => None,
        Some(toks) => sp_parse_multistatus(toks),
    }
}

fn skip_element_x(toks: &Vec<XmlToken>, i: usize) -> (r: Option<usize>)
    ensures
        match r {
            Some(j) => sp_skip_element(toks_view(toks@), i as int) == Some(j as int) && i < j
                <= toks@.len(),
            None => sp_skip_element(toks_view(toks@), i as int) is None,
        },
{
    let ghost tv = toks_view(toks@);
    if i >= toks.len() {
        return None;
    }
    proof {
        assert(tv[i as int] == toks@[i as int]@);
    }
    match &toks[i] {
        XmlToken::Empty(_) => Some(i + 1),
        XmlToken::Text(_) => Some(i + 1),
        XmlToken::Close(_) => None,
        XmlToken::Open(_) => {
            let mut k: usize = i + 1;
            let mut depth: usize = 0;
            while k < toks.len()
                invariant
                    i + 1 <= k <= toks@.len(),
                    depth <= k - i - 1,
                    tv == toks_view(toks@),
                    tv.len() == toks@.len(),
                    sp_skip_element(tv, i as int) == scan_close(tv, i as int + 1, 0),
                    scan_close(tv, i as int + 1, 0) == scan_close(tv, k as int, depth as int),
                decreases toks@.len() - k,
            {
                proof {
                    assert(tv[k as int] == toks@[k as int]@);
                }
                match &toks[k] {
                    XmlToken::Open(_) => {
                        depth = depth + 1;
                        k = k + 1;
                    },
                    XmlToken::Close(_) => {
                        if depth == 0 {
                            proof {
                                assert(scan_close(tv, k as int, 0) == Some(k as int + 1));
                                assert(sp_skip_element(tv, i as int) == Some(k as int + 1));
                            }
                            return Some(k + 1);
                        } else {
                            depth = depth - 1;
                            k = k + 1;
                        }
                    },
                    _ => {
                        k = k + 1;
                    },
                }
            }
            None
        },
    }
}

fn parse_simple_x(toks: &Vec<XmlToken>, i: usize) -> (r: Option<(Vec<u8>, Vec<u8>, usize)>)
    ensures
        match r {
            Some(v) => sp_parse_simple(toks_view(toks@), i as int) == Some(
                (v.0@, v.1@, v.2 as int),
            ) && i < v.2 <= toks@.len(),
            None => sp_parse_simple(toks_view(toks@), i as int) is None,
        },
{
    let ghost tv = toks_view(toks@);
    if i >= toks.len() {
        return None;
    }
    proof {
        assert(tv[i as int] == toks@[i as int]@);
    }
    match &toks[i] {
        XmlToken::Empty(n) => {
            let name = bytes_of(n.as_slice());
            let text: Vec<u8> = Vec::new();
            proof {
                assert(text@ =~= Seq::<u8>::empty());
            }
            Some((name, text, i + 1))
        },
        XmlToken::Open(n) => {
            if i + 1 >= toks.len() {
                return None;
            }
            proof {
                assert(tv[i as int + 1] == toks@[i as int + 1]@);
            }
            match &toks[i + 1] {
                XmlToken::Close(_) => {
                    let name = bytes_of(n.as_slice());
                    let text: Vec<u8> = Vec::new();
                    proof {
                        assert(text@ =~= Seq::<u8>::empty());
                    }
                    Some((name, text, i + 2))
                },
                XmlToken::Text(t) => {
                    if i + 2 >= toks.len() {
                        return None;
                    }
                    proof {
                        assert(tv[i as int + 2] == toks@[i as int + 2]@);
                    }
                    match &toks[i + 2] {
                        XmlToken::Close(_) => {
                            let name = bytes_of(n.as_slice());
                            let text = bytes_of(t.as_slice());
                            Some((name, text, i + 3))
                        },
                        _ => None,
                    }
                },
                _ => None,
            }
        },
        _ => None,
    }
}

fn parse_prop_child_x(toks: &Vec<XmlToken>, i: usize) -> (r: Option<(PropChild, usize)>)
    ensures
        match r {
            Some(v) => sp_parse_prop_child(toks_view(toks@), i as int) == Some(
                (v.0@, v.1 as int),
            ) && i < v.1 <= toks@.len(),
            None => sp_parse_prop_child(toks_view(toks@), i as int) is None,
        },
{
    let ghost tv = toks_view(toks@);
    if i >= toks.len() {
        return None;
    }
    proof {
        assert(tv[i as int] == toks@[i as int]@);
    }
    match &toks[i] {
        XmlToken::Empty(n) => {
            let name = bytes_of(n.as_slice());
            let text: Vec<u8> = Vec::new();
            proof {
                assert(text@ =~= Seq::<u8>::empty());
            }
            Some((PropChild { name, text }, i + 1))
        },
        XmlToken::Open(n) => {
            match parse_simple_x(toks, i) {
                Some((name, text, j)) => Some((PropChild { name, text }, j)),
                None => {
                    match skip_element_x(toks, i) {
                        None => None,
                        Some(j) => {
                            let name = bytes_of(n.as_slice());
                            let text: Vec<u8> = Vec::new();
                            proof {
                                assert(text@ =~= Seq::<u8>::empty());
                            }
                            Some((PropChild { name, text }, j))
                        },
                    }
                },
            }
        },
        _ => None,
    }
}

fn parse_entry_items_x(toks: &Vec<XmlToken>, i: usize) -> (r: Option<
    (Option<Vec<u8>>, Vec<PropChild>, usize),
>)
    ensures
        match r {
            Some(v) => sp_parse_entry_items(toks_view(toks@), i as int) == Some(
                (
                    match v.0 {
                        None => None::<Seq<u8>>,
                        Some(t) => Some(t@),
                    },
                    v.1@.map_values(|c: PropChild| c@),
                    v.2 as int,
                ),
            ) && i < v.2 <= toks@.len(),
            None => sp_parse_entry_items(toks_view(toks@), i as int) is None,
        },
    decreases toks@.len() - i,
{
    let ghost tv = toks_view(toks@);
    if i >= toks.len() {
        return None;
    }
    proof {
        assert(tv[i as int] == toks@[i as int]@);
    }
    match &toks[i] {
        XmlToken::Close(_) => {
            let cs: Vec<PropChild> = Vec::new();
            proof {
                assert(cs@.map_values(|c: PropChild| c@) =~= Seq::<PropChildV>::empty());
            }
            Some((None, cs, i + 1))
        },
        XmlToken::Text(t) => {
            match parse_entry_items_x(toks, i + 1) {
                None => None,
                Some((_, cs, j)) => {
                    let text = bytes_of(t.as_slice());
                    Some((Some(text), cs, j))
                },
            }
        },
        _ => {
            match parse_prop_child_x(toks, i) {
                None => None,
                Some((c, j)) => {
                    match parse_entry_items_x(toks, j) {
                        None => None,
                        Some((txt, cs, j2)) => {
                            let ghost cv = c@;
                            let ghost cs_view = cs@.map_values(|x: PropChild| x@);
                            let mut cs2 = cs;
                            cs2.insert(0, c);
                            proof {
                                assert(cs2@.map_values(|x: PropChild| x@) =~= seq![cv] + cs_view);
                            }
                            Some((txt, cs2, j2))
                        },
                    }
                },
            }
        },
    }
}

fn parse_prop_entry_x(toks: &Vec<XmlToken>, i: usize) -> (r: Option<(PropEntry, usize)>)
    ensures
        match r {
            Some(v) => sp_parse_prop_entry(toks_view(toks@), i as int) == Some(
                (v.0@, v.1 as int),
            ) && i < v.1 <= toks@.len(),
            None => sp_parse_prop_entry(toks_view(toks@), i as int) is None,
        },
{
    let ghost tv = toks_view(toks@);
    if i >= toks.len() {
        return None;
    }
    proof {
        assert(tv[i as int] == toks@[i as int]@);
    }
    match &toks[i] {
        XmlToken::Empty(n) => {
            let name = bytes_of(n.as_slice());
            let text: Vec<u8> = Vec::new();
            let children: Vec<PropChild> = Vec::new();
            let e = PropEntry { name, text, children };
            proof {
                assert(e@.text =~= Seq::<u8>::empty());
                assert(e@.children =~= Seq::<PropChildV>::empty());
            }
            Some((e, i + 1))
        },
        XmlToken::Open(n) => {
            match parse_entry_items_x(toks, i + 1) {
                None => None,
                Some((txt, cs, j)) => {
                    let name = bytes_of(n.as_slice());
                    let text = match txt {
                        None => {
                            let t0: Vec<u8> = Vec::new();
                            proof {
                                assert(t0@ =~= Seq::<u8>::empty());
                            }
                            t0
                        },
                        Some(t) => t,
                    };
                    let e = PropEntry { name, text, children: cs };
                    Some((e, j))
                },
            }
        },
        _ => None,
    }
}

fn parse_prop_items_x(toks: &Vec<XmlToken>, i: usize) -> (r: Option<(Vec<PropEntry>, usize)>)
    ensures
        match r {
            Some(v) => sp_parse_prop_items(toks_view(toks@), i as int) == Some(
                (v.0@.map_values(|e: PropEntry| e@), v.1 as int),
            ) && i < v.1 <= toks@.len(),
            None => sp_parse_prop_items(toks_view(toks@), i as int) is None,
        },
    decreases toks@.len() - i,
{
    let ghost tv = toks_view(toks@);
    if i >= toks.len() {
        return None;
    }
    proof {
        assert(tv[i as int] == toks@[i as int]@);
    }
    match &toks[i] {
        XmlToken::Close(_) => {
            let es: Vec<PropEntry> = Vec::new();
            proof {
                assert(es@.map_values(|e: PropEntry| e@) =~= Seq::<PropEntryV>::empty());
            }
            Some((es, i + 1))
        },
        XmlToken::Text(_) => parse_prop_items_x(toks, i + 1),
        _ => {
            match parse_prop_entry_x(toks, i) {
                None => None,
                Some((e, j)) => {
                    match parse_prop_items_x(toks, j) {
                        None => None,
                        Some((es, j2)) => {
                            let ghost ev = e@;
                            let ghost es_view = es@.map_values(|x: PropEntry| x@);
                            let mut es2 = es;
                            es2.insert(0, e);
                            proof {
                                assert(es2@.map_values(|x: PropEntry| x@) =~= seq![ev] + es_view);
                            }
                            Some((es2, j2))
                        },
                    }
                },
            }
        },
    }
}

fn parse_prop_x(toks: &Vec<XmlToken>, i: usize) -> (r: Option<(Vec<PropEntry>, usize)>)
    ensures
        match r {
            Some(v) => sp_parse_prop(toks_view(toks@), i as int) == Some(
                (v.0@.map_values(|e: PropEntry| e@), v.1 as int),
            ) && i < v.1 <= toks@.len(),
            None => sp_parse_prop(toks_view(toks@), i as int) is None,
        },
{
    let ghost tv = toks_view(toks@);
    if i >= toks.len() {
        return None;
    }
    proof {
        assert(tv[i as int] == toks@[i as int]@);
    }
    match &toks[i] {
        XmlToken::Empty(_) => {
            let es: Vec<PropEntry> = Vec::new();
            proof {
                assert(es@.map_values(|e: PropEntry| e@) =~= Seq::<PropEntryV>::empty());
            }
            Some((es, i + 1))
        },
        XmlToken::Open(_) => parse_prop_items_x(toks, i + 1),
        _ => None,
    }
}

fn parse_propstat_items_x(toks: &Vec<XmlToken>, i: usize) -> (r: Option<
    (Option<Vec<PropEntry>>, Option<Vec<u8>>, usize),
>)
    ensures
        match r {
            Some(v) => sp_parse_propstat_items(toks_view(toks@), i as int) == Some(
                (
                    match v.0 {
                        None => None::<Seq<PropEntryV>>,
                        Some(ps) => Some(ps@.map_values(|e: PropEntry| e@)),
                    },
                    match v.1 {
                        None => None::<Seq<u8>>,
                        Some(s) => Some(s@),
                    },
                    v.2 as int,
                ),
            ) && i < v.2 <= toks@.len(),
            None => sp_parse_propstat_items(toks_view(toks@), i as int) is None,
        },
    decreases toks@.len() - i,
{
    let ghost tv = toks_view(toks@);
    if i >= toks.len() {
        return None;
    }
    proof {
        assert(tv[i as int] == toks@[i as int]@);
    }
    match &toks[i] {
        XmlToken::Close(_) => Some((None, None, i + 1)),
        XmlToken::Text(_) => parse_propstat_items_x(toks, i + 1),
        XmlToken::Open(n) => parse_propstat_items_named(toks, i, n),
        XmlToken::Empty(n) => parse_propstat_items_named(toks, i, n),
    }
}

/// The element-dispatch arm of `parse_propstat_items_x`.
fn parse_propstat_items_named(toks: &Vec<XmlToken>, i: usize, n: &Vec<u8>) -> (r: Option<
    (Option<Vec<PropEntry>>, Option<Vec<u8>>, usize),
>)
    requires
        i < toks@.len(),
        tok_elem_name(toks_view(toks@)[i as int]) == Some(n@),
    ensures
        match r {
            Some(v) => sp_parse_propstat_items(toks_view(toks@), i as int) == Some(
                (
                    match v.0 {
                        None => None::<Seq<PropEntryV>>,
                        Some(ps) => Some(ps@.map_values(|e: PropEntry| e@)),
                    },
                    match v.1 {
                        None => None::<Seq<u8>>,
                        Some(s) => Some(s@),
                    },
                    v.2 as int,
                ),
            ) && i < v.2 <= toks@.len(),
            None => sp_parse_propstat_items(toks_view(toks@), i as int) is None,
        },
    decreases toks@.len() - i, 0nat,
{
    let ghost tv = toks_view(toks@);
    if bytes_eq(n.as_slice(), "prop".as_bytes()) {
        match parse_prop_x(toks, i) {
            None => None,
            Some((props, j)) => {
                match parse_propstat_items_x(toks, j) {
                    None => None,
                    Some((_, st, j2)) => Some((Some(props), st, j2)),
                }
            },
        }
    } else if bytes_eq(n.as_slice(), "status".as_bytes()) {
        match parse_simple_x(toks, i) {
            None => None,
            Some((_, t, j)) => {
                match parse_propstat_items_x(toks, j) {
                    None => None,
                    Some((props, _, j2)) => Some((props, Some(t), j2)),
                }
            },
        }
    } else {
        match skip_element_x(toks, i) {
            None => None,
            Some(j) => parse_propstat_items_x(toks, j),
        }
    }
}

fn parse_propstat_x(toks: &Vec<XmlToken>, i: usize) -> (r: Option<(Propstat, usize)>)
    ensures
        match r {
            Some(v) => sp_parse_propstat(toks_view(toks@), i as int) == Some(
                (v.0@, v.1 as int),
            ) && i < v.1 <= toks@.len(),
            None => sp_parse_propstat(toks_view(toks@), i as int) is None,
        },
{
    let ghost tv = toks_view(toks@);
    if i >= toks.len() {
        return None;
    }
    proof {
        assert(tv[i as int] == toks@[i as int]@);
    }
    match &toks[i] {
        XmlToken::Open(_) => {
            match parse_propstat_items_x(toks, i + 1) {
                None => None,
                Some((props_opt, st_opt, j)) => {
                    match (props_opt, st_opt) {
                        (Some(props), Some(st)) => Some((Propstat { props, status: st }, j)),
                        _ => None,
                    }
                },
            }
        },
        _ => None,
    }
}

fn parse_response_items_x(toks: &Vec<XmlToken>, i: usize) -> (r: Option<
    (Option<Vec<u8>>, Option<Vec<u8>>, Vec<Propstat>, usize),
>)
    ensures
        match r {
            Some(v) => sp_parse_response_items(toks_view(toks@), i as int) == Some(
                (
                    match v.0 {
                        None => None::<Seq<u8>>,
                        Some(h) => Some(h@),
                    },
                    match v.1 {
                        None => None::<Seq<u8>>,
                        Some(s) => Some(s@),
                    },
                    v.2@.map_values(|p: Propstat| p@),
                    v.3 as int,
                ),
            ) && i < v.3 <= toks@.len(),
            None => sp_parse_response_items(toks_view(toks@), i as int) is None,
        },
    decreases toks@.len() - i,
{
    let ghost tv = toks_view(toks@);
    if i >= toks.len() {
        return None;
    }
    proof {
        assert(tv[i as int] == toks@[i as int]@);
    }
    match &toks[i] {
        XmlToken::Close(_) => {
            let ps: Vec<Propstat> = Vec::new();
            proof {
                assert(ps@.map_values(|p: Propstat| p@) =~= Seq::<PropstatV>::empty());
            }
            Some((None, None, ps, i + 1))
        },
        XmlToken::Text(_) => parse_response_items_x(toks, i + 1),
        XmlToken::Open(n) => parse_response_items_named(toks, i, n),
        XmlToken::Empty(n) => parse_response_items_named(toks, i, n),
    }
}

/// The element-dispatch arm of `parse_response_items_x`.
fn parse_response_items_named(toks: &Vec<XmlToken>, i: usize, n: &Vec<u8>) -> (r: Option<
    (Option<Vec<u8>>, Option<Vec<u8>>, Vec<Propstat>, usize),
>)
    requires
        i < toks@.len(),
        tok_elem_name(toks_view(toks@)[i as int]) == Some(n@),
    ensures
        match r {
            Some(v) => sp_parse_response_items(toks_view(toks@), i as int) == Some(
                (
                    match v.0 {
                        None => None::<Seq<u8>>,
                        Some(h) => Some(h@),
                    },
                    match v.1 {
                        None => None::<Seq<u8>>,
                        Some(s) => Some(s@),
                    },
                    v.2@.map_values(|p: Propstat| p@),
                    v.3 as int,
                ),
            ) && i < v.3 <= toks@.len(),
            None => sp_parse_response_items(toks_view(toks@), i as int) is None,
        },
    decreases toks@.len() - i, 0nat,
{
    let ghost tv = toks_view(toks@);
    if bytes_eq(n.as_slice(), "href".as_bytes()) {
        match parse_simple_x(toks, i) {
            None => None,
            Some((_, t, j)) => {
                match parse_response_items_x(toks, j) {
                    None => None,
                    Some((_, st, ps, j2)) => Some((Some(t), st, ps, j2)),
                }
            },
        }
    } else if bytes_eq(n.as_slice(), "status".as_bytes()) {
        match parse_simple_x(toks, i) {
            None => None,
            Some((_, t, j)) => {
                match parse_response_items_x(toks, j) {
                    None => None,
                    Some((h, _, ps, j2)) => Some((h, Some(t), ps, j2)),
                }
            },
        }
    } else if bytes_eq(n.as_slice(), "propstat".as_bytes()) {
        match parse_propstat_x(toks, i) {
            None => None,
            Some((p, j)) => {
                match parse_response_items_x(toks, j) {
                    None => None,
                    Some((h, st, ps, j2)) => {
                        let ghost pv = p@;
                        let ghost ps_view = ps@.map_values(|x: Propstat| x@);
                        let mut ps2 = ps;
                        ps2.insert(0, p);
                        proof {
                            assert(ps2@.map_values(|x: Propstat| x@) =~= seq![pv] + ps_view);
                        }
                        Some((h, st, ps2, j2))
                    },
                }
            },
        }
    } else {
        match skip_element_x(toks, i) {
            None => None,
            Some(j) => parse_response_items_x(toks, j),
        }
    }
}

fn parse_response_x(toks: &Vec<XmlToken>, i: usize) -> (r: Option<(Response, usize)>)
    ensures
        match r {
            Some(v) => sp_parse_response(toks_view(toks@), i as int) == Some(
                (v.0@, v.1 as int),
            ) && i < v.1 <= toks@.len(),
            None => sp_parse_response(toks_view(toks@), i as int) is None,
        },
{
    let ghost tv = toks_view(toks@);
    if i >= toks.len() {
        return None;
    }
    proof {
        assert(tv[i as int] == toks@[i as int]@);
    }
    match &toks[i] {
        XmlToken::Open(_) => {
            match parse_response_items_x(toks, i + 1) {
                None => None,
                Some((h_opt, st, ps, j)) => {
                    match h_opt {
                        None => None,
                        Some(h) => Some((Response { href: h, status: st, propstats: ps }, j)),
                    }
                },
            }
        },
        _ => None,
    }
}

fn parse_ms_items_x(toks: &Vec<XmlToken>, i: usize) -> (r: Option<(Vec<Response>, usize)>)
    ensures
        match r {
            Some(v) => sp_parse_ms_items(toks_view(toks@), i as int) == Some(
                (v.0@.map_values(|x: Response| x@), v.1 as int),
            ) && i < v.1 <= toks@.len(),
            None => sp_parse_ms_items(toks_view(toks@), i as int) is None,
        },
    decreases toks@.len() - i,
{
    let ghost tv = toks_view(toks@);
    if i >= toks.len() {
        return None;
    }
    proof {
        assert(tv[i as int] == toks@[i as int]@);
    }
    match &toks[i] {
        XmlToken::Close(_) => {
            let rs: Vec<Response> = Vec::new();
            proof {
                assert(rs@.map_values(|x: Response| x@) =~= Seq::<ResponseV>::empty());
            }
            Some((rs, i + 1))
        },
        XmlToken::Text(_) => parse_ms_items_x(toks, i + 1),
        XmlToken::Open(n) => parse_ms_items_named(toks, i, n),
        XmlToken::Empty(n) => parse_ms_items_named(toks, i, n),
    }
}

/// The element-dispatch arm of `parse_ms_items_x`.
fn parse_ms_items_named(toks: &Vec<XmlToken>, i: usize, n: &Vec<u8>) -> (r: Option<
    (Vec<Response>, usize),
>)
    requires
        i < toks@.len(),
        tok_elem_name(toks_view(toks@)[i as int]) == Some(n@),
    ensures
        match r {
            Some(v) => sp_parse_ms_items(toks_view(toks@), i as int) == Some(
                (v.0@.map_values(|x: Response| x@), v.1 as int),
            ) && i < v.1 <= toks@.len(),
            None => sp_parse_ms_items(toks_view(toks@), i as int) is None,
        },
    decreases toks@.len() - i, 0nat,
{
    let ghost tv = toks_view(toks@);
    if bytes_eq(n.as_slice(), "response".as_bytes()) {
        match parse_response_x(toks, i) {
            None => None,
            Some((resp, j)) => {
                match parse_ms_items_x(toks, j) {
                    None => None,
                    Some((rs, j2)) => {
                        let ghost rv = resp@;
                        let ghost rs_view = rs@.map_values(|x: Response| x@);
                        let mut rs2 = rs;
                        rs2.insert(0, resp);
                        proof {
                            assert(rs2@.map_values(|x: Response| x@) =~= seq![rv] + rs_view);
                        }
                        Some((rs2, j2))
                    },
                }
            },
        }
    } else {
        match skip_element_x(toks, i) {
            None => None,
            Some(j) => parse_ms_items_x(toks, j),
        }
    }
}

/// Parse a whole body as a `multistatus` document: the typed result, or
/// `None` when the body does not have the expected shape as a whole.
pub fn parse_multistatus(b: &[u8]) -> (r: Option<Multistatus>)
    ensures
        match r {
            Some(ms) => spec_parse_multistatus(b@) == Some(ms@),
            None => spec_parse_multistatus(b@) is None,
        },
{
    let toks = match tokenize(b) {
        None => {
            return None;
        },
        Some(toks) => toks,
    };
    let ghost tv = toks_view(toks@);
    if toks.len() == 0 {
        return None;
    }
    proof {
        assert(tv[0] == toks@[0]@);
    }
    match &toks[0] {
        XmlToken::Empty(n) => {
            if bytes_eq(n.as_slice(), "multistatus".as_bytes()) && toks.len() == 1 {
                let rs: Vec<Response> = Vec::new();
                let ms = Multistatus { responses: rs };
                proof {
                    assert(ms@.responses =~= Seq::<ResponseV>::empty());
                }
                Some(ms)
            } else {
                None
            }
        },
        XmlToken::Open(n) => {
            if bytes_eq(n.as_slice(), "multistatus".as_bytes()) {
                match parse_ms_items_x(&toks, 1) {
                    None => None,
                    Some((rs, j)) => {
                        if j == toks.len() {
                            Some(Multistatus { responses: rs })
                        } else {
                            None
                        }
                    },
                }
            } else {
                None
            }
        },
        _ => None,
    }
}

/// The canonical token image of a simple element: empty when its text
/// is empty, an open/text/close triple otherwise.
pub open spec fn render_simple(name: Seq<u8>, text: Seq<u8>) -> Seq<TokV> {
    if text.len() == 0 {
        seq![TokV::Empty(name)]
    } else {
        seq![TokV::Open(name), TokV::Text(text), TokV::Close(name)]
    }
}

pub open spec fn render_child(c: PropChildV) -> Seq<TokV> {
    render_simple(c.name, c.text)
}

pub open spec fn render_children(cs: Seq<PropChildV>) -> Seq<TokV>
    decreases cs.len(),
{
    if cs.len() == 0 {
        Seq::<TokV>::empty()
    } else {
        render_child(cs[0]) + render_children(cs.drop_first())
    }
}

pub open spec fn render_entry(e: PropEntryV) -> Seq<TokV> {
    if e.text.len() == 0 && e.children.len() == 0 {
        seq![TokV::Empty(e.name)]
    } else {
        seq![TokV::Open(e.name)] + (if e.text.len() > 0 {
            seq![TokV::Text(e.text)]
        } else {
            Seq::<TokV>::empty()
        }) + render_children(e.children) + seq![TokV::Close(e.name)]
    }
}

pub open spec fn render_entries(es: Seq<PropEntryV>) -> Seq<TokV>
    decreases es.len(),
{
    if es.len() == 0 {
        Seq::<TokV>::empty()
    } else {
        render_entry(es[0]) + render_entries(es.drop_first())
    }
}

pub open spec fn render_propstat(p: PropstatV) -> Seq<TokV> {
    seq![TokV::Open("propstat".spec_bytes()), TokV::Open("prop".spec_bytes())]
        + render_entries(p.props) + seq![TokV::Close("prop".spec_bytes())] + render_simple(
        "status".spec_bytes(),
        p.status,
    ) + seq![TokV::Close("propstat".spec_bytes())]
}

pub open spec fn render_propstats(ps: Seq<PropstatV>) -> Seq<TokV>
    decreases ps.len(),
{
    if ps.len() == 0 {
        Seq::<TokV>::empty()
    } else {
        render_propstat(ps[0]) + render_propstats(ps.drop_first())
    }
}

pub open spec fn render_response(r: ResponseV) -> Seq<TokV> {
    seq![TokV::Open("response".spec_bytes())] + render_simple("href".spec_bytes(), r.href) + (
    match r.status {
        None => Seq::<TokV>::empty(),
        Some(s) => render_simple("status".spec_bytes(), s),
    }) + render_propstats(r.propstats) + seq![TokV::Close("response".spec_bytes())]
}

pub open spec fn render_responses(rs: Seq<ResponseV>) -> Seq<TokV>
    decreases rs.len(),
{
    if rs.len() == 0 {
        Seq::<TokV>::empty()
    } else {
        render_response(rs[0]) + render_responses(rs.drop_first())
    }
}

/// The canonical token image of a whole multistatus document.
pub open spec fn render_multistatus(ms: MultistatusV) -> Seq<TokV> {
    seq![TokV::Open("multistatus".spec_bytes())] + render_responses(ms.responses) + seq![
        TokV::Close("multistatus".spec_bytes()),
    ]
}

/// The structural element names, as concrete bytes: they are pairwise
/// distinct, which the shape parser's dispatch rests on.
proof fn lemma_xml_names()
    ensures
        "prop".spec_bytes() =~= seq![112u8, 114u8, 111u8, 112u8],
        "status".spec_bytes() =~= seq![115u8, 116u8, 97u8, 116u8, 117u8, 115u8],
        "href".spec_bytes() =~= seq![104u8, 114u8, 101u8, 102u8],
        "propstat".spec_bytes() =~= seq![112u8, 114u8, 111u8, 112u8, 115u8, 116u8, 97u8, 116u8],
        "response".spec_bytes() =~= seq![114u8, 101u8, 115u8, 112u8, 111u8, 110u8, 115u8, 101u8],
        "multistatus".spec_bytes() =~= seq![
            109u8, 117u8, 108u8, 116u8, 105u8, 115u8, 116u8, 97u8, 116u8, 117u8, 115u8,
        ],
{
    reveal_strlit("prop");
    reveal_strlit("status");
    reveal_strlit("href");
    reveal_strlit("propstat");
    reveal_strlit("response");
    reveal_strlit("multistatus");
    assert(vstd::utf8::is_ascii_chars("prop"@)) by {
        assert forall|i: int| 0 <= i < "prop"@.len() implies '\0' <= #[trigger] "prop"@[i]
            <= '\u{7f}' by {}
    }
    assert(vstd::utf8::is_ascii_chars("status"@)) by {
        assert forall|i: int| 0 <= i < "status"@.len() implies '\0' <= #[trigger] "status"@[i]
            <= '\u{7f}' by {}
    }
    assert(vstd::utf8::is_ascii_chars("href"@)) by {
        assert forall|i: int| 0 <= i < "href"@.len() implies '\0' <= #[trigger] "href"@[i]
            <= '\u{7f}' by {}
    }
    assert(vstd::utf8::is_ascii_chars("propstat"@)) by {
        assert forall|i: int| 0 <= i < "propstat"@.len() implies '\0' <= #[trigger] "propstat"@[i]
            <= '\u{7f}' by {}
    }
    assert(vstd::utf8::is_ascii_chars("response"@)) by {
        assert forall|i: int| 0 <= i < "response"@.len() implies '\0' <= #[trigger] "response"@[i]
            <= '\u{7f}' by {}
    }
    assert(vstd::utf8::is_ascii_chars("multistatus"@)) by {
        assert forall|i: int|
            0 <= i < "multistatus"@.len() implies '\0' <= #[trigger] "multistatus"@[i]
            <= '\u{7f}' by {}
    }
    vstd::string::is_ascii_spec_bytes("prop");
    vstd::string::is_ascii_spec_bytes("status");
    vstd::string::is_ascii_spec_bytes("href");
    vstd::string::is_ascii_spec_bytes("propstat");
    vstd::string::is_ascii_spec_bytes("response");
    vstd::string::is_ascii_spec_bytes("multistatus");
}

proof fn lemma_parse_simple_render(toks: Seq<TokV>, i: int, name: Seq<u8>, text: Seq<u8>)
    requires
        0 <= i,
        i + render_simple(name, text).len() <= toks.len(),
        toks.subrange(i, i + render_simple(name, text).len()) == render_simple(name, text),
    ensures
        sp_parse_simple(toks, i) == Some((name, text, i + render_simple(name, text).len())),
{
    let rt = render_simple(name, text);
    let sub = toks.subrange(i, i + rt.len());
    if text.len() == 0 {
        assert(toks[i] == sub[0]);
    } else {
        assert(toks[i] == sub[0]);
        assert(toks[i + 1] == sub[1]);
        assert(toks[i + 2] == sub[2]);
    }
}

proof fn lemma_parse_child_render(toks: Seq<TokV>, i: int, c: PropChildV)
    requires
        0 <= i,
        i + render_child(c).len() <= toks.len(),
        toks.subrange(i, i + render_child(c).len()) == render_child(c),
    ensures
        sp_parse_prop_child(toks, i) == Some((c, i + render_child(c).len())),
{
    let rt = render_child(c);
    let sub = toks.subrange(i, i + rt.len());
    lemma_parse_simple_render(toks, i, c.name, c.text);
    if c.text.len() == 0 {
        assert(toks[i] == sub[0]);
    } else {
        assert(toks[i] == sub[0]);
    }
}

proof fn lemma_parse_children_close(toks: Seq<TokV>, i: int, cs: Seq<PropChildV>, nm: Seq<u8>)
    requires
        0 <= i,
        i + render_children(cs).len() + 1 <= toks.len(),
        toks.subrange(i, i + render_children(cs).len() + 1) == render_children(cs) + seq![
            TokV::Close(nm),
        ],
    ensures
        sp_parse_entry_items(toks, i) == Some(
            (None::<Seq<u8>>, cs, i + render_children(cs).len() + 1),
        ),
    decreases cs.len(),
{
    let rc = render_children(cs);
    let sub = toks.subrange(i, i + rc.len() + 1);
    if cs.len() == 0 {
        assert(toks[i] == sub[0]);
    } else {
        let c0 = cs[0];
        let r0 = render_child(c0);
        assert(sub =~= r0 + (render_children(cs.drop_first()) + seq![TokV::Close(nm)]));
        assert(toks.subrange(i, i + r0.len()) =~= r0) by {
            assert forall|k: int| 0 <= k < r0.len() implies toks.subrange(i, i + r0.len())[k]
                == r0[k] by {
                assert(toks[i + k] == sub[k]);
                assert(sub[k] == r0[k]);
            }
        }
        lemma_parse_child_render(toks, i, c0);
        let j = i + r0.len();
        assert(toks.subrange(j, j + render_children(cs.drop_first()).len() + 1)
            =~= render_children(cs.drop_first()) + seq![TokV::Close(nm)]) by {
            assert forall|k: int|
                0 <= k < render_children(cs.drop_first()).len() + 1 implies toks.subrange(
                j,
                j + render_children(cs.drop_first()).len() + 1,
            )[k] == (render_children(cs.drop_first()) + seq![TokV::Close(nm)])[k] by {
                assert(toks[j + k] == sub[r0.len() + k]);
            }
        }
        lemma_parse_children_close(toks, j, cs.drop_first(), nm);
        assert(toks[i] == sub[0]);
        match toks[i] {
            TokV::Close(_) => {
                assert(false);
            },
            TokV::Text(_) => {
                assert(false);
            },
            _ => {},
        }
        assert(seq![c0] + cs.drop_first() =~= cs);
    }
}

proof fn lemma_parse_entry_items_render(
    toks: Seq<TokV>,
    i: int,
    text: Seq<u8>,
    cs: Seq<PropChildV>,
    nm: Seq<u8>,
)
    requires
        0 <= i,
        i + entry_content_len(text, cs) <= toks.len(),
        toks.subrange(i, i + entry_content_len(text, cs)) == entry_content(text, cs, nm),
    ensures
        sp_parse_entry_items(toks, i) == Some(
            (
                if text.len() > 0 {
                    Some(text)
                } else {
                    None::<Seq<u8>>
                },
                cs,
                i + entry_content_len(text, cs),
            ),
        ),
{
    let sub = toks.subrange(i, i + entry_content_len(text, cs));
    if text.len() > 0 {
        assert(toks[i] == sub[0]);
        assert(toks.subrange(i + 1, i + 1 + render_children(cs).len() + 1) =~= render_children(cs)
            + seq![TokV::Close(nm)]) by {
            assert forall|k: int| 0 <= k < render_children(cs).len() + 1 implies toks.subrange(
                i + 1,
                i + 1 + render_children(cs).len() + 1,
            )[k] == (render_children(cs) + seq![TokV::Close(nm)])[k] by {
                assert(toks[i + 1 + k] == sub[1 + k]);
            }
        }
        lemma_parse_children_close(toks, i + 1, cs, nm);
    } else {
        lemma_parse_children_close(toks, i, cs, nm);
    }
}

/// The token content of a non-empty property entry, before its close.
pub open spec fn entry_content(text: Seq<u8>, cs: Seq<PropChildV>, nm: Seq<u8>) -> Seq<TokV> {
    (if text.len() > 0 {
        seq![TokV::Text(text)]
    } else {
        Seq::<TokV>::empty()
    }) + render_children(cs) + seq![TokV::Close(nm)]
}

pub open spec fn entry_content_len(text: Seq<u8>, cs: Seq<PropChildV>) -> int {
    (if text.len() > 0 {
        1int
    } else {
        0int
    }) + render_children(cs).len() + 1
}

proof fn lemma_parse_entry_render(toks: Seq<TokV>, i: int, e: PropEntryV)
    requires
        0 <= i,
        i + render_entry(e).len() <= toks.len(),
        toks.subrange(i, i + render_entry(e).len()) == render_entry(e),
    ensures
        sp_parse_prop_entry(toks, i) == Some((e, i + render_entry(e).len())),
{
    let rt = render_entry(e);
    let sub = toks.subrange(i, i + rt.len());
    assert(e.text.len() == 0 ==> e.text =~= Seq::<u8>::empty());
    assert(e.children.len() == 0 ==> e.children =~= Seq::<PropChildV>::empty());
    if e.text.len() == 0 && e.children.len() == 0 {
        assert(toks[i] == sub[0]);
        match sp_parse_prop_entry(toks, i) {
            Some(v) => {
                assert(v.0.name == e.name && v.0.text == e.text && v.0.children == e.children);
                assert(v.0 == e);
            },
            None => {
                assert(false);
            },
        }
    } else {
        assert(toks[i] == sub[0]);
        assert(rt =~= seq![TokV::Open(e.name)] + entry_content(e.text, e.children, e.name));
        assert(toks.subrange(i + 1, i + 1 + entry_content_len(e.text, e.children))
            =~= entry_content(e.text, e.children, e.name)) by {
            assert forall|k: int|
                0 <= k < entry_content_len(e.text, e.children) implies toks.subrange(
                i + 1,
                i + 1 + entry_content_len(e.text, e.children),
            )[k] == entry_content(e.text, e.children, e.name)[k] by {
                assert(toks[i + 1 + k] == sub[1 + k]);
            }
        }
        lemma_parse_entry_items_render(toks, i + 1, e.text, e.children, e.name);
        match sp_parse_prop_entry(toks, i) {
            Some(v) => {
                assert(v.0.name == e.name && v.0.text == e.text && v.0.children == e.children);
                assert(v.0 == e);
            },
            None => {
                assert(false);
            },
        }
    }
}

proof fn lemma_parse_entries_close(toks: Seq<TokV>, i: int, es: Seq<PropEntryV>, nm: Seq<u8>)
    requires
        0 <= i,
        i + render_entries(es).len() + 1 <= toks.len(),
        toks.subrange(i, i + render_entries(es).len() + 1) == render_entries(es) + seq![
            TokV::Close(nm),
        ],
    ensures
        sp_parse_prop_items(toks, i) == Some((es, i + render_entries(es).len() + 1)),
    decreases es.len(),
{
    let re = render_entries(es);
    let sub = toks.subrange(i, i + re.len() + 1);
    if es.len() == 0 {
        assert(toks[i] == sub[0]);
    } else {
        let e0 = es[0];
        let r0 = render_entry(e0);
        assert(sub =~= r0 + (render_entries(es.drop_first()) + seq![TokV::Close(nm)]));
        assert(toks.subrange(i, i + r0.len()) =~= r0) by {
            assert forall|k: int| 0 <= k < r0.len() implies toks.subrange(i, i + r0.len())[k]
                == r0[k] by {
                assert(toks[i + k] == sub[k]);
            }
        }
        lemma_parse_entry_render(toks, i, e0);
        let j = i + r0.len();
        assert(toks.subrange(j, j + render_entries(es.drop_first()).len() + 1)
            =~= render_entries(es.drop_first()) + seq![TokV::Close(nm)]) by {
            assert forall|k: int|
                0 <= k < render_entries(es.drop_first()).len() + 1 implies toks.subrange(
                j,
                j + render_entries(es.drop_first()).len() + 1,
            )[k] == (render_entries(es.drop_first()) + seq![TokV::Close(nm)])[k] by {
                assert(toks[j + k] == sub[r0.len() + k]);
            }
        }
        lemma_parse_entries_close(toks, j, es.drop_first(), nm);
        assert(toks[i] == sub[0]);
        match toks[i] {
            TokV::Close(_) => {
                assert(false);
            },
            TokV::Text(_) => {
                assert(false);
            },
            _ => {},
        }
        assert(seq![e0] + es.drop_first() =~= es);
    }
}

proof fn lemma_parse_propstat_render(toks: Seq<TokV>, i: int, p: PropstatV)
    requires
        0 <= i,
        i + render_propstat(p).len() <= toks.len(),
        toks.subrange(i, i + render_propstat(p).len()) == render_propstat(p),
    ensures
        sp_parse_propstat(toks, i) == Some((p, i + render_propstat(p).len())),
{
    lemma_xml_names();
    let rt = render_propstat(p);
    let sub = toks.subrange(i, i + rt.len());
    assert(toks[i] == sub[0]);
    assert(toks[i + 1] == sub[1]);
    // the prop element
    let pe = render_entries(p.props).len();
    assert(toks.subrange(i + 2, i + 2 + pe + 1) =~= render_entries(p.props) + seq![
        TokV::Close("prop".spec_bytes()),
    ]) by {
        assert forall|k: int| 0 <= k < pe + 1 implies toks.subrange(i + 2, i + 2 + pe + 1)[k] == (
        render_entries(p.props) + seq![TokV::Close("prop".spec_bytes())])[k] by {
            assert(toks[i + 2 + k] == sub[2 + k]);
        }
    }
    lemma_parse_entries_close(toks, i + 2, p.props, "prop".spec_bytes());
    assert(sp_parse_prop(toks, i + 1) == Some((p.props, i + 3 + pe)));
    // the status element
    let st = render_simple("status".spec_bytes(), p.status);
    let j = i + 3 + pe;
    assert(toks.subrange(j, j + st.len()) =~= st) by {
        assert forall|k: int| 0 <= k < st.len() implies toks.subrange(j, j + st.len())[k]
            == st[k] by {
            assert(toks[j + k] == sub[3 + pe + k]);
        }
    }
    lemma_parse_simple_render(toks, j, "status".spec_bytes(), p.status);
    let j2 = j + st.len();
    assert(toks[j2] == sub.last());
    // walk the propstat items: prop, then status, then the close
    assert(sp_parse_propstat_items(toks, j2) == Some(
        (None::<Seq<PropEntryV>>, None::<Seq<u8>>, j2 + 1),
    ));
    assert(tok_elem_name(toks[j]) == Some("status".spec_bytes())) by {
        assert(toks[j] == sub[(3 + pe) as int]);
    }
    assert(sp_parse_propstat_items(toks, j) == Some(
        (None::<Seq<PropEntryV>>, Some(p.status), j2 + 1),
    ));
    assert(tok_elem_name(toks[i + 1]) == Some("prop".spec_bytes()));
    assert(sp_parse_propstat_items(toks, i + 1) == Some(
        (Some(p.props), Some(p.status), j2 + 1),
    ));
}

proof fn lemma_parse_propstats_tail(
    toks: Seq<TokV>,
    i: int,
    ps: Seq<PropstatV>,
    nm: Seq<u8>,
)
    requires
        0 <= i,
        i + render_propstats(ps).len() + 1 <= toks.len(),
        toks.subrange(i, i + render_propstats(ps).len() + 1) == render_propstats(ps) + seq![
            TokV::Close(nm),
        ],
    ensures
        sp_parse_response_items(toks, i) == Some(
            (
                None::<Seq<u8>>,
                None::<Seq<u8>>,
                ps,
                i + render_propstats(ps).len() + 1,
            ),
        ),
    decreases ps.len(),
{
    lemma_xml_names();
    let rp = render_propstats(ps);
    let sub = toks.subrange(i, i + rp.len() + 1);
    if ps.len() == 0 {
        assert(toks[i] == sub[0]);
    } else {
        let p0 = ps[0];
        let r0 = render_propstat(p0);
        assert(sub =~= r0 + (render_propstats(ps.drop_first()) + seq![TokV::Close(nm)]));
        assert(toks.subrange(i, i + r0.len()) =~= r0) by {
            assert forall|k: int| 0 <= k < r0.len() implies toks.subrange(i, i + r0.len())[k]
                == r0[k] by {
                assert(toks[i + k] == sub[k]);
            }
        }
        lemma_parse_propstat_render(toks, i, p0);
        let j = i + r0.len();
        assert(toks.subrange(j, j + render_propstats(ps.drop_first()).len() + 1)
            =~= render_propstats(ps.drop_first()) + seq![TokV::Close(nm)]) by {
            assert forall|k: int|
                0 <= k < render_propstats(ps.drop_first()).len() + 1 implies toks.subrange(
                j,
                j + render_propstats(ps.drop_first()).len() + 1,
            )[k] == (render_propstats(ps.drop_first()) + seq![TokV::Close(nm)])[k] by {
                assert(toks[j + k] == sub[r0.len() + k]);
            }
        }
        lemma_parse_propstats_tail(toks, j, ps.drop_first(), nm);
        assert(toks[i] == sub[0]);
        assert(tok_elem_name(toks[i]) == Some("propstat".spec_bytes()));
        assert(seq![p0] + ps.drop_first() =~= ps);
    }
}

proof fn lemma_parse_response_render(toks: Seq<TokV>, i: int, r: ResponseV)
    requires
        0 <= i,
        i + render_response(r).len() <= toks.len(),
        toks.subrange(i, i + render_response(r).len()) == render_response(r),
    ensures
        sp_parse_response(toks, i) == Some((r, i + render_response(r).len())),
{
    lemma_xml_names();
    let rt = render_response(r);
    let sub = toks.subrange(i, i + rt.len());
    assert(toks[i] == sub[0]);
    let hs = render_simple("href".spec_bytes(), r.href);
    assert(toks.subrange(i + 1, i + 1 + hs.len()) =~= hs) by {
        assert forall|k: int| 0 <= k < hs.len() implies toks.subrange(i + 1, i + 1 + hs.len())[k]
            == hs[k] by {
            assert(toks[i + 1 + k] == sub[1 + k]);
        }
    }
    lemma_parse_simple_render(toks, i + 1, "href".spec_bytes(), r.href);
    let j = i + 1 + hs.len();
    let ss = match r.status {
        None => Seq::<TokV>::empty(),
        Some(s) => render_simple("status".spec_bytes(), s),
    };
    let j2 = j + ss.len();
    assert(toks.subrange(j2, j2 + render_propstats(r.propstats).len() + 1) =~= render_propstats(
        r.propstats,
    ) + seq![TokV::Close("response".spec_bytes())]) by {
        assert forall|k: int|
            0 <= k < render_propstats(r.propstats).len() + 1 implies toks.subrange(
            j2,
            j2 + render_propstats(r.propstats).len() + 1,
        )[k] == (render_propstats(r.propstats) + seq![TokV::Close("response".spec_bytes())])[k] by {
            assert(toks[j2 + k] == sub[1 + hs.len() + ss.len() + k]);
        }
    }
    lemma_parse_propstats_tail(toks, j2, r.propstats, "response".spec_bytes());
    match r.status {
        None => {},
        Some(s) => {
            assert(toks.subrange(j, j + ss.len()) =~= ss) by {
                assert forall|k: int| 0 <= k < ss.len() implies toks.subrange(j, j + ss.len())[k]
                    == ss[k] by {
                    assert(toks[j + k] == sub[1 + hs.len() + k]);
                }
            }
            lemma_parse_simple_render(toks, j, "status".spec_bytes(), s);
            assert(tok_elem_name(toks[j]) == Some("status".spec_bytes())) by {
                assert(toks[j] == sub[(1 + hs.len()) as int]);
            }
            assert(sp_parse_response_items(toks, j) == Some(
                (None::<Seq<u8>>, Some(s), r.propstats, i + rt.len()),
            ));
        },
    }
    assert(tok_elem_name(toks[i + 1]) == Some("href".spec_bytes())) by {
        assert(toks[i + 1] == sub[1]);
    }
    assert(sp_parse_response_items(toks, i + 1) == Some(
        (Some(r.href), r.status, r.propstats, i + rt.len()),
    ));
    match sp_parse_response(toks, i) {
        Some(v) => {
            let got = v.0;
            assert(got.href == r.href && got.status == r.status && got.propstats == r.propstats);
            assert(got == r);
        },
        None => {
            assert(false);
        },
    }
}

proof fn lemma_parse_responses_tail(toks: Seq<TokV>, i: int, rs: Seq<ResponseV>, nm: Seq<u8>)
    requires
        0 <= i,
        i + render_responses(rs).len() + 1 <= toks.len(),
        toks.subrange(i, i + render_responses(rs).len() + 1) == render_responses(rs) + seq![
            TokV::Close(nm),
        ],
    ensures
        sp_parse_ms_items(toks, i) == Some((rs, i + render_responses(rs).len() + 1)),
    decreases rs.len(),
{
    lemma_xml_names();
    let rr = render_responses(rs);
    let sub = toks.subrange(i, i + rr.len() + 1);
    if rs.len() == 0 {
        assert(toks[i] == sub[0]);
    } else {
        let r0 = rs[0];
        let t0 = render_response(r0);
        assert(sub =~= t0 + (render_responses(rs.drop_first()) + seq![TokV::Close(nm)]));
        assert(toks.subrange(i, i + t0.len()) =~= t0) by {
            assert forall|k: int| 0 <= k < t0.len() implies toks.subrange(i, i + t0.len())[k]
                == t0[k] by {
                assert(toks[i + k] == sub[k]);
            }
        }
        lemma_parse_response_render(toks, i, r0);
        let j = i + t0.len();
        assert(toks.subrange(j, j + render_responses(rs.drop_first()).len() + 1)
            =~= render_responses(rs.drop_first()) + seq![TokV::Close(nm)]) by {
            assert forall|k: int|
                0 <= k < render_responses(rs.drop_first()).len() + 1 implies toks.subrange(
                j,
                j + render_responses(rs.drop_first()).len() + 1,
            )[k] == (render_responses(rs.drop_first()) + seq![TokV::Close(nm)])[k] by {
                assert(toks[j + k] == sub[t0.len() + k]);
            }
        }
        lemma_parse_responses_tail(toks, j, rs.drop_first(), nm);
        assert(toks[i] == sub[0]);
        assert(tok_elem_name(toks[i]) == Some("response".spec_bytes()));
        assert(seq![r0] + rs.drop_first() =~= rs);
    }
}

/// Order preservation, as a round trip: a well-formed multistatus
/// document, token by token, parses back to exactly the records it
/// renders — its response entries in document order, each with its
/// propstats in document order. In particular, however the server
/// ordered the propstats, the parse keeps the entries as received.
pub proof fn lemma_multistatus_round_trip(ms: MultistatusV)
    ensures
        sp_parse_multistatus(render_multistatus(ms)) == Some(ms),
{
    let toks = render_multistatus(ms);
    let rr = render_responses(ms.responses);
    assert(toks[0] == TokV::Open("multistatus".spec_bytes()));
    assert(toks.subrange(1, (1 + rr.len() + 1) as int) =~= rr + seq![
        TokV::Close("multistatus".spec_bytes()),
    ]);
    lemma_parse_responses_tail(toks, 1, ms.responses, "multistatus".spec_bytes());
    let got = sp_parse_multistatus(toks)->0;
    assert(got.responses == ms.responses);
}

/// Tokenize a whole document.
pub fn tokenize(b: &[u8]) -> (r: Option<Vec<XmlToken>>)
    ensures
        match r {
            Some(ts) => spec_tokenize(b@) == Some(toks_view(ts@)),
            None => spec_tokenize(b@) is None,
        },
{
    let r = tokenize_from(b, 0);
    proof {
        assert(b@.subrange(0, b@.len() as int) =~= b@);
    }
    r
}

} // verus!
