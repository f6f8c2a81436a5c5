//! The CardDAV data model and the rules that read typed records out of
//! parsed multistatus documents: which response entries count as
//! addressbooks, where a card's identifier sits inside its `href`, and
//! which property texts carry names, descriptions, colors and card data.

use vstd::prelude::*;
use vstd::string::StringSliceAdditionalSpecFns;

use crate::scan::{find_sub, spec_find, spec_trim, trim_bytes, bytes_of, slice_part};
use crate::xml::{
    Multistatus, PropChild, PropChildV, PropEntry, PropEntryV, Propstat, PropstatV, Response,
    ResponseV,
};

verus! {

/// An addressbook collection, as this client sees it.
pub struct Addressbook {
    pub id: Vec<u8>,
    pub display_name: Option<Vec<u8>>,
    pub description: Option<Vec<u8>>,
    pub color: Option<Vec<u8>>,
}

pub struct AddressbookV {
    pub id: Seq<u8>,
    pub display_name: Option<Seq<u8>>,
    pub description: Option<Seq<u8>>,
    pub color: Option<Seq<u8>>,
}

impl View for Addressbook {
    type V = AddressbookV;

    open spec fn view(&self) -> AddressbookV {
        AddressbookV {
            id: self.id@,
            display_name: match self.display_name {
                None => None,
                Some(ref v) => Some(v@),
            },
            description: match self.description {
                None => None,
                Some(ref v) => Some(v@),
            },
            color: match self.color {
                None => None,
                Some(ref v) => Some(v@),
            },
        }
    }
}

/// A contact card: its identifier, the addressbook it belongs to, and
/// its raw vCard text. The engine never interprets the vCard itself.
pub struct Card {
    pub id: Vec<u8>,
    pub addressbook_id: Vec<u8>,
    pub content: Vec<u8>,
}

pub struct CardV {
    pub id: Seq<u8>,
    pub addressbook_id: Seq<u8>,
    pub content: Seq<u8>,
}

impl View for Card {
    type V = CardV;

    open spec fn view(&self) -> CardV {
        CardV { id: self.id@, addressbook_id: self.addressbook_id@, content: self.content@ }
    }
}

/// A byte of a freshly drawn collection identifier: lowercase
/// hexadecimal or a hyphen, so it is safe inside a URI path segment.
pub open spec fn is_uuid_byte(b: u8) -> bool {
    (48 <= b <= 57) || (97 <= b <= 102) || b == 45
}

/// Relies on uuid's `Uuid::new_v4` and its hyphenated `Display` form:
/// 36 ASCII bytes, lowercase hexadecimal digits and hyphens.
#[verifier::external_body]
pub(crate) fn new_uuid_bytes() -> (r: Vec<u8>)
    ensures
        r@.len() == 36,
        forall|i: int| 0 <= i < r@.len() ==> is_uuid_byte(#[trigger] r@[i]),
{
    uuid::Uuid::new_v4().to_string().into_bytes()
}

impl Addressbook {
    /// A fresh addressbook with a newly drawn, URI-safe identifier:
    /// repeated calls name distinct collections.
    pub fn new() -> (r: Self)
        ensures
            r@.id.len() == 36,
            forall|i: int| 0 <= i < r@.id.len() ==> is_uuid_byte(#[trigger] r@.id[i]),
            r@.display_name is None,
            r@.description is None,
            r@.color is None,
    {
        Addressbook { id: new_uuid_bytes(), display_name: None, description: None, color: None }
    }
}

/// A WebDAV status text counts as success when it carries a space
/// followed by a `2`, as in `HTTP/1.1 200 OK`.
pub open spec fn spec_status_success(s: Seq<u8>) -> bool {
    spec_find(s, seq![32u8, 50u8]) is Some
}

pub fn status_success(s: &[u8]) -> (r: bool)
    ensures
        r == spec_status_success(s@),
{
    let mut needle: Vec<u8> = Vec::new();
    needle.push(32u8);
    needle.push(50u8);
    proof {
        assert(needle@ =~= seq![32u8, 50u8]);
    }
    match find_sub(s, needle.as_slice()) {
        Some(_) => true,
        None => false,
    }
}

/// `s` without its trailing slashes.
pub open spec fn strip_slashes(s: Seq<u8>) -> Seq<u8>
    decreases s.len(),
{
    if s.len() > 0 && s.last() == 47 {
        strip_slashes(s.drop_last())
    } else {
        s
    }
}

/// Index of the last occurrence of `b`, or `-1` when there is none.
pub open spec fn last_byte_pos(s: Seq<u8>, b: u8) -> int
    decreases s.len(),
{
    if s.len() == 0 {
        -1
    } else if s.last() == b {
        s.len() - 1
    } else {
        last_byte_pos(s.drop_last(), b)
    }
}

pub proof fn lemma_last_byte_pos_unique(s: Seq<u8>, b: u8, j: int)
    requires
        -1 <= j < s.len(),
        j >= 0 ==> s[j] == b,
        forall|m: int| j < m < s.len() ==> #[trigger] s[m] != b,
    ensures
        last_byte_pos(s, b) == j,
    decreases s.len(),
{
    if s.len() > 0 && s.last() != b {
        assert forall|m: int| j < m < s.drop_last().len() implies #[trigger] s.drop_last()[m]
            != b by {
            assert(s.drop_last()[m] == s[m]);
        }
        if j >= 0 {
            assert(s.drop_last()[j] == s[j]);
        }
        lemma_last_byte_pos_unique(s.drop_last(), b, j);
    }
}

/// Index of the last `.` or `/`, or `-1` when there is none.
pub open spec fn last_delim_pos(s: Seq<u8>) -> int
    decreases s.len(),
{
    if s.len() == 0 {
        -1
    } else if s.last() == 46 || s.last() == 47 {
        s.len() - 1
    } else {
        last_delim_pos(s.drop_last())
    }
}

pub proof fn lemma_last_delim_pos_unique(s: Seq<u8>, j: int)
    requires
        -1 <= j < s.len(),
        j >= 0 ==> s[j] == 46 || s[j] == 47,
        forall|m: int| j < m < s.len() ==> #[trigger] s[m] != 46 && s[m] != 47,
    ensures
        last_delim_pos(s) == j,
    decreases s.len(),
{
    if s.len() > 0 && !(s.last() == 46 || s.last() == 47) {
        assert forall|m: int| j < m < s.drop_last().len() implies #[trigger] s.drop_last()[m] != 46
            && s.drop_last()[m] != 47 by {
            assert(s.drop_last()[m] == s[m]);
        }
        if j >= 0 {
            assert(s.drop_last()[j] == s[j]);
        }
        lemma_last_delim_pos_unique(s.drop_last(), j);
    }
}

/// Strip trailing slashes of a byte string, in place of the owned copy.
pub fn strip_slashes_exec(s: &[u8]) -> (r: Vec<u8>)
    ensures
        r@ == strip_slashes(s@),
{
    let mut hi: usize = s.len();
    proof {
        assert(s@.subrange(0, s@.len() as int) =~= s@);
    }
    while hi > 0 && s[hi - 1] == 47
        invariant
            0 <= hi <= s@.len(),
            strip_slashes(s@) == strip_slashes(s@.subrange(0, hi as int)),
        decreases hi,
    {
        proof {
            let sub = s@.subrange(0, hi as int);
            assert(sub.last() == s@[hi as int - 1]);
            assert(sub.drop_last() =~= s@.subrange(0, hi as int - 1));
        }
        hi = hi - 1;
    }
    proof {
        let sub = s@.subrange(0, hi as int);
        if sub.len() > 0 {
            assert(sub.last() == s@[hi as int - 1]);
        }
        assert(strip_slashes(sub) == sub);
    }
    bytes_of(slice_part(s, 0, hi))
}

/// The identifier an addressbook `href` names: its last path segment,
/// trailing slashes ignored.
pub open spec fn spec_href_id(h: Seq<u8>) -> Seq<u8> {
    let t = strip_slashes(h);
    t.subrange(last_byte_pos(t, 47) + 1, t.len() as int)
}

pub fn href_id(h: &[u8]) -> (r: Vec<u8>)
    ensures
        r@ == spec_href_id(h@),
{
    let t = strip_slashes_exec(h);
    let mut k: usize = t.len();
    while k > 0 && t.as_slice()[k - 1] != 47
        invariant
            0 <= k <= t@.len(),
            forall|m: int| k <= m < t@.len() ==> #[trigger] t@[m] != 47,
        decreases k,
    {
        k = k - 1;
    }
    proof {
        lemma_last_byte_pos_unique(t@, 47, k as int - 1);
    }
    bytes_of(slice_part(t.as_slice(), k, t.len()))
}

/// The identifier a card `href` names: the segment between the last two
/// delimiters (`.` or `/`), which drops the `.vcf` extension. A href
/// without any delimiter names no card.
pub open spec fn spec_card_id(h: Seq<u8>) -> Option<Seq<u8>> {
    let t = strip_slashes(h);
    let a = last_delim_pos(t);
    if a < 0 {
        None
    } else {
        let b = last_delim_pos(t.subrange(0, a));
        Some(t.subrange(b + 1, a))
    }
}

pub fn card_id(h: &[u8]) -> (r: Option<Vec<u8>>)
    ensures
        match r {
            Some(v) => spec_card_id(h@) == Some(v@),
            None => spec_card_id(h@) is None,
        },
{
    let t = strip_slashes_exec(h);
    let mut a: usize = t.len();
    while a > 0 && t.as_slice()[a - 1] != 46 && t.as_slice()[a - 1] != 47
        invariant
            0 <= a <= t@.len(),
            forall|m: int| a <= m < t@.len() ==> #[trigger] t@[m] != 46 && t@[m] != 47,
        decreases a,
    {
        a = a - 1;
    }
    proof {
        lemma_last_delim_pos_unique(t@, a as int - 1);
    }
    if a == 0 {
        return None;
    }
    let hi = a - 1;
    let mut b: usize = hi;
    while b > 0 && t.as_slice()[b - 1] != 46 && t.as_slice()[b - 1] != 47
        invariant
            0 <= b <= hi,
            hi < t@.len(),
            forall|m: int| b <= m < hi ==> #[trigger] t@[m] != 46 && t@[m] != 47,
        decreases b,
    {
        b = b - 1;
    }
    proof {
        let pre = t@.subrange(0, hi as int);
        assert forall|m: int| b as int - 1 < m < pre.len() implies #[trigger] pre[m] != 46
            && pre[m] != 47 by {
            assert(pre[m] == t@[m]);
        }
        if b > 0 {
            assert(pre[b as int - 1] == t@[b as int - 1]);
        }
        lemma_last_delim_pos_unique(pre, b as int - 1);
        assert(t@.subrange(b as int, hi as int) =~= pre.subrange(b as int, pre.len() as int));
    }
    Some(bytes_of(slice_part(t.as_slice(), b, hi)))
}

/// The first property of that local name, in document order.
pub open spec fn first_entry(props: Seq<PropEntryV>, name: Seq<u8>) -> Option<PropEntryV>
    decreases props.len(),
{
    if props.len() == 0 {
        None
    } else if props[0].name == name {
        Some(props[0])
    } else {
        first_entry(props.drop_first(), name)
    }
}

pub proof fn lemma_first_entry_unique(props: Seq<PropEntryV>, name: Seq<u8>, k: int)
    requires
        0 <= k < props.len(),
        props[k].name == name,
        forall|m: int| 0 <= m < k ==> #[trigger] props[m].name != name,
    ensures
        first_entry(props, name) == Some(props[k]),
    decreases k,
{
    if k > 0 {
        assert forall|m: int| 0 <= m < k - 1 implies #[trigger] props.drop_first()[m].name
            != name by {
            assert(props.drop_first()[m] == props[m + 1]);
        }
        assert(props.drop_first()[k - 1] == props[k]);
        lemma_first_entry_unique(props.drop_first(), name, k - 1);
    }
}

pub proof fn lemma_first_entry_none(props: Seq<PropEntryV>, name: Seq<u8>)
    requires
        forall|m: int| 0 <= m < props.len() ==> #[trigger] props[m].name != name,
    ensures
        first_entry(props, name) is None,
    decreases props.len(),
{
    if props.len() > 0 {
        assert forall|m: int| 0 <= m < props.drop_first().len() implies #[trigger] props.drop_first()[m].name
            != name by {
            assert(props.drop_first()[m] == props[m + 1]);
        }
        lemma_first_entry_none(props.drop_first(), name);
    }
}

/// Index of the first property of that local name.
pub fn first_entry_idx(props: &Vec<PropEntry>, name: &[u8]) -> (r: Option<usize>)
    ensures
        match r {
            Some(k) => k < props@.len() && props@.map_values(|e: PropEntry| e@)[k as int].name
                == name@ && first_entry(props@.map_values(|e: PropEntry| e@), name@) == Some(
                props@.map_values(|e: PropEntry| e@)[k as int],
            ),
            None => first_entry(props@.map_values(|e: PropEntry| e@), name@) is None,
        },
{
    let ghost pv = props@.map_values(|e: PropEntry| e@);
    let mut i: usize = 0;
    while i < props.len()
        invariant
            0 <= i <= props@.len(),
            pv == props@.map_values(|e: PropEntry| e@),
            pv.len() == props@.len(),
            forall|m: int| 0 <= m < i ==> #[trigger] pv[m].name != name@,
        decreases props@.len() - i,
    {
        proof {
            assert(pv[i as int] == props@[i as int]@);
        }
        if crate::scan::bytes_eq(props[i].name.as_slice(), name) {
            proof {
                lemma_first_entry_unique(pv, name@, i as int);
            }
            return Some(i);
        }
        i = i + 1;
    }
    proof {
        lemma_first_entry_none(pv, name@);
    }
    None
}

/// Whether a property has a direct child element of that local name.
pub open spec fn entry_has_child(e: PropEntryV, cname: Seq<u8>) -> bool {
    exists|i: int| 0 <= i < e.children.len() && #[trigger] e.children[i].name == cname
}

/// The first direct child of that local name.
pub open spec fn first_child(e: PropEntryV, cname: Seq<u8>) -> Option<PropChildV>
    decreases e.children.len(),
{
    first_child_in(e.children, cname)
}

pub open spec fn first_child_in(cs: Seq<PropChildV>, cname: Seq<u8>) -> Option<PropChildV>
    decreases cs.len(),
{
    if cs.len() == 0 {
        None
    } else if cs[0].name == cname {
        Some(cs[0])
    } else {
        first_child_in(cs.drop_first(), cname)
    }
}

pub proof fn lemma_first_child_in_unique(cs: Seq<PropChildV>, cname: Seq<u8>, k: int)
    requires
        0 <= k < cs.len(),
        cs[k].name == cname,
        forall|m: int| 0 <= m < k ==> #[trigger] cs[m].name != cname,
    ensures
        first_child_in(cs, cname) == Some(cs[k]),
    decreases k,
{
    if k > 0 {
        assert forall|m: int| 0 <= m < k - 1 implies #[trigger] cs.drop_first()[m].name
            != cname by {
            assert(cs.drop_first()[m] == cs[m + 1]);
        }
        assert(cs.drop_first()[k - 1] == cs[k]);
        lemma_first_child_in_unique(cs.drop_first(), cname, k - 1);
    }
}

pub proof fn lemma_first_child_in_none(cs: Seq<PropChildV>, cname: Seq<u8>)
    requires
        forall|m: int| 0 <= m < cs.len() ==> #[trigger] cs[m].name != cname,
    ensures
        first_child_in(cs, cname) is None,
    decreases cs.len(),
{
    if cs.len() > 0 {
        assert forall|m: int| 0 <= m < cs.drop_first().len() implies #[trigger] cs.drop_first()[m].name
            != cname by {
            assert(cs.drop_first()[m] == cs[m + 1]);
        }
        lemma_first_child_in_none(cs.drop_first(), cname);
    }
}

pub fn first_child_idx(cs: &Vec<PropChild>, cname: &[u8]) -> (r: Option<usize>)
    ensures
        match r {
            Some(k) => k < cs@.len() && cs@.map_values(|c: PropChild| c@)[k as int].name == cname@
                && first_child_in(cs@.map_values(|c: PropChild| c@), cname@) == Some(
                cs@.map_values(|c: PropChild| c@)[k as int],
            ),
            None => first_child_in(cs@.map_values(|c: PropChild| c@), cname@) is None,
        },
{
    let ghost cv = cs@.map_values(|c: PropChild| c@);
    let mut i: usize = 0;
    while i < cs.len()
        invariant
            0 <= i <= cs@.len(),
            cv == cs@.map_values(|c: PropChild| c@),
            cv.len() == cs@.len(),
            forall|m: int| 0 <= m < i ==> #[trigger] cv[m].name != cname@,
        decreases cs@.len() - i,
    {
        proof {
            assert(cv[i as int] == cs@[i as int]@);
        }
        if crate::scan::bytes_eq(cs[i].name.as_slice(), cname) {
            proof {
                lemma_first_child_in_unique(cv, cname@, i as int);
            }
            return Some(i);
        }
        i = i + 1;
    }
    proof {
        lemma_first_child_in_none(cv, cname@);
    }
    None
}

/// A `propstat` whose own status is a success.
pub open spec fn propstat_ok(p: PropstatV) -> bool {
    spec_status_success(p.status)
}

/// A successful `propstat` whose `resourcetype` carries the CardDAV
/// `addressbook` marker.
pub open spec fn propstat_marks_addressbook(p: PropstatV) -> bool {
    propstat_ok(p) && match first_entry(p.props, "resourcetype".spec_bytes()) {
        Some(e) => entry_has_child(e, "addressbook".spec_bytes()),
        None => false,
    }
}

/// A response entry that names an addressbook: its own status, when
/// present, is a success, and some successful `propstat` marks it.
pub open spec fn resp_is_addressbook(r: ResponseV) -> bool {
    &&& match r.status {
        None => true,
        Some(s) => spec_status_success(s),
    }
    &&& exists|i: int|
        0 <= i < r.propstats.len() && propstat_marks_addressbook(#[trigger] r.propstats[i])
}

fn propstat_marks_addressbook_x(p: &Propstat) -> (r: bool)
    ensures
        r == propstat_marks_addressbook(p@),
{
    if !status_success(p.status.as_slice()) {
        return false;
    }
    match first_entry_idx(&p.props, "resourcetype".as_bytes()) {
        None => false,
        Some(k) => {
            let ghost e = first_entry(p@.props, "resourcetype".spec_bytes())->0;
            match first_child_idx(&p.props[k].children, "addressbook".as_bytes()) {
                Some(c) => {
                    proof {
                        let cv = p.props@[k as int]@.children;
                        assert(e.children == cv);
                        assert(cv[c as int].name == "addressbook".spec_bytes());
                        assert(entry_has_child(e, "addressbook".spec_bytes()));
                    }
                    true
                },
                None => {
                    proof {
                        let cv = p.props@[k as int]@.children;
                        assert(e.children == cv);
                        if entry_has_child(e, "addressbook".spec_bytes()) {
                            let w = choose|i: int|
                                0 <= i < cv.len() && #[trigger] cv[i].name
                                    == "addressbook".spec_bytes();
                            assert(first_child_in(cv, "addressbook".spec_bytes()) is None);
                            lemma_first_child_in_some_of_witness(cv, "addressbook".spec_bytes(), w);
                        }
                    }
                    false
                },
            }
        },
    }
}

/// A witness in the children makes the first-child search succeed.
pub proof fn lemma_first_child_in_some_of_witness(cs: Seq<PropChildV>, cname: Seq<u8>, w: int)
    requires
        0 <= w < cs.len(),
        cs[w].name == cname,
    ensures
        first_child_in(cs, cname) is Some,
    decreases w,
{
    if cs[0].name != cname {
        assert(cs.drop_first()[w - 1] == cs[w]);
        lemma_first_child_in_some_of_witness(cs.drop_first(), cname, w - 1);
    }
}

fn resp_is_addressbook_x(resp: &Response) -> (r: bool)
    ensures
        r == resp_is_addressbook(resp@),
{
    match &resp.status {
        Some(s) => {
            if !status_success(s.as_slice()) {
                return false;
            }
        },
        None => {},
    }
    let ghost psv = resp@.propstats;
    let mut i: usize = 0;
    while i < resp.propstats.len()
        invariant
            0 <= i <= resp.propstats@.len(),
            psv == resp@.propstats,
            psv.len() == resp.propstats@.len(),
            match resp@.status {
                None => true,
                Some(s) => spec_status_success(s),
            },
            forall|m: int| 0 <= m < i ==> !propstat_marks_addressbook(#[trigger] psv[m]),
        decreases resp.propstats@.len() - i,
    {
        proof {
            assert(psv[i as int] == resp.propstats@[i as int]@);
        }
        if propstat_marks_addressbook_x(&resp.propstats[i]) {
            proof {
                assert(propstat_marks_addressbook(psv[i as int]));
            }
            return true;
        }
        i = i + 1;
    }
    false
}

/// The text of the named property in the last successful `propstat`
/// that carries it with a non-blank value; the server's later values
/// override earlier ones.
pub open spec fn find_prop_text_last(ps: Seq<PropstatV>, name: Seq<u8>) -> Option<Seq<u8>>
    decreases ps.len(),
{
    if ps.len() == 0 {
        None
    } else {
        let p = ps.last();
        if propstat_ok(p) && match first_entry(p.props, name) {
            Some(e) => spec_trim(e.text).len() > 0,
            None => false,
        } {
            Some(first_entry(p.props, name)->0.text)
        } else {
            find_prop_text_last(ps.drop_last(), name)
        }
    }
}

fn find_prop_text_last_x(ps: &Vec<Propstat>, name: &[u8]) -> (r: Option<Vec<u8>>)
    ensures
        match r {
            Some(v) => find_prop_text_last(ps@.map_values(|p: Propstat| p@), name@) == Some(v@),
            None => find_prop_text_last(ps@.map_values(|p: Propstat| p@), name@) is None,
        },
{
    let ghost psv = ps@.map_values(|p: Propstat| p@);
    let mut cur: Option<Vec<u8>> = None;
    let mut i: usize = 0;
    proof {
        assert(psv.take(0) =~= Seq::<PropstatV>::empty());
    }
    while i < ps.len()
        invariant
            0 <= i <= ps@.len(),
            psv == ps@.map_values(|p: Propstat| p@),
            psv.len() == ps@.len(),
            match cur {
                Some(ref v) => find_prop_text_last(psv.take(i as int), name@) == Some(v@),
                None => find_prop_text_last(psv.take(i as int), name@) is None,
            },
        decreases ps@.len() - i,
    {
        proof {
            assert(psv[i as int] == ps@[i as int]@);
            assert(psv.take(i as int + 1).drop_last() =~= psv.take(i as int));
            assert(psv.take(i as int + 1).last() == psv[i as int]);
        }
        let p = &ps[i];
        if status_success(p.status.as_slice()) {
            match first_entry_idx(&p.props, name) {
                Some(k) => {
                    let text = &p.props[k].text;
                    let trimmed = trim_bytes(text.as_slice());
                    if trimmed.len() > 0 {
                        cur = Some(bytes_of(text.as_slice()));
                    }
                },
                None => {},
            }
        }
        i = i + 1;
    }
    proof {
        assert(psv.take(psv.len() as int) =~= psv);
    }
    cur
}

/// The addressbook record a response entry describes.
pub open spec fn abook_of(r: ResponseV) -> AddressbookV {
    AddressbookV {
        id: spec_href_id(r.href),
        display_name: find_prop_text_last(r.propstats, "displayname".spec_bytes()),
        description: find_prop_text_last(r.propstats, "addressbook-description".spec_bytes()),
        color: find_prop_text_last(r.propstats, "addressbook-color".spec_bytes()),
    }
}

/// The addressbooks a multistatus body lists: exactly the marked
/// response entries, in document order.
pub open spec fn spec_addressbooks(rs: Seq<ResponseV>) -> Seq<AddressbookV>
    decreases rs.len(),
{
    if rs.len() == 0 {
        Seq::<AddressbookV>::empty()
    } else {
        spec_addressbooks(rs.drop_last()) + if resp_is_addressbook(rs.last()) {
            seq![abook_of(rs.last())]
        } else {
            Seq::<AddressbookV>::empty()
        }
    }
}

/// Read the addressbooks out of a parsed multistatus body: one record
/// for each response entry whose `resourcetype` carries the addressbook
/// marker, in document order, with the display name, description and
/// color texts the document gives them.
pub fn addressbooks_of(ms: &Multistatus) -> (r: Vec<Addressbook>)
    ensures
        r@.map_values(|a: Addressbook| a@) == spec_addressbooks(ms@.responses),
{
    let ghost rsv = ms@.responses;
    let mut out: Vec<Addressbook> = Vec::new();
    let mut i: usize = 0;
    proof {
        assert(rsv.take(0) =~= Seq::<ResponseV>::empty());
        assert(out@.map_values(|a: Addressbook| a@) =~= spec_addressbooks(rsv.take(0)));
    }
    while i < ms.responses.len()
        invariant
            0 <= i <= ms.responses@.len(),
            rsv == ms@.responses,
            rsv.len() == ms.responses@.len(),
            out@.map_values(|a: Addressbook| a@) == spec_addressbooks(rsv.take(i as int)),
        decreases ms.responses@.len() - i,
    {
        proof {
            assert(rsv[i as int] == ms.responses@[i as int]@);
            assert(rsv.take(i as int + 1).drop_last() =~= rsv.take(i as int));
            assert(rsv.take(i as int + 1).last() == rsv[i as int]);
        }
        let resp = &ms.responses[i];
        if resp_is_addressbook_x(resp) {
            let id = href_id(resp.href.as_slice());
            let display_name = find_prop_text_last_x(&resp.propstats, "displayname".as_bytes());
            let description = find_prop_text_last_x(
                &resp.propstats,
                "addressbook-description".as_bytes(),
            );
            let color = find_prop_text_last_x(&resp.propstats, "addressbook-color".as_bytes());
            let ghost before = out@.map_values(|a: Addressbook| a@);
            let a = Addressbook { id, display_name, description, color };
            proof {
                assert(a@ == abook_of(rsv[i as int]));
            }
            out.push(a);
            proof {
                assert(out@.map_values(|x: Addressbook| x@) =~= before + seq![
                    abook_of(rsv[i as int]),
                ]);
            }
        } else {
            proof {
                assert(out@.map_values(|x: Addressbook| x@) =~= out@.map_values(
                    |x: Addressbook| x@,
                ) + Seq::<AddressbookV>::empty());
            }
        }
        i = i + 1;
    }
    proof {
        assert(rsv.take(rsv.len() as int) =~= rsv);
    }
    out
}

/// The vCard text of a response entry: the `address-data` text of its
/// first successful `propstat` that carries that property.
pub open spec fn card_content(ps: Seq<PropstatV>) -> Option<Seq<u8>>
    decreases ps.len(),
{
    if ps.len() == 0 {
        None
    } else {
        let p = ps[0];
        if propstat_ok(p) && first_entry(p.props, "address-data".spec_bytes()) is Some {
            Some(first_entry(p.props, "address-data".spec_bytes())->0.text)
        } else {
            card_content(ps.drop_first())
        }
    }
}

fn card_content_x(ps: &Vec<Propstat>) -> (r: Option<Vec<u8>>)
    ensures
        match r {
            Some(v) => card_content(ps@.map_values(|p: Propstat| p@)) == Some(v@),
            None => card_content(ps@.map_values(|p: Propstat| p@)) is None,
        },
{
    let ghost psv = ps@.map_values(|p: Propstat| p@);
    let mut i: usize = 0;
    proof {
        assert(psv.subrange(0, psv.len() as int) =~= psv);
    }
    while i < ps.len()
        invariant
            0 <= i <= ps@.len(),
            psv == ps@.map_values(|p: Propstat| p@),
            psv.len() == ps@.len(),
            card_content(psv) == card_content(psv.subrange(i as int, psv.len() as int)),
        decreases ps@.len() - i,
    {
        proof {
            assert(psv[i as int] == ps@[i as int]@);
            let suf = psv.subrange(i as int, psv.len() as int);
            assert(suf[0] == psv[i as int]);
            assert(suf.drop_first() =~= psv.subrange(i as int + 1, psv.len() as int));
        }
        let p = &ps[i];
        if status_success(p.status.as_slice()) {
            match first_entry_idx(&p.props, "address-data".as_bytes()) {
                Some(k) => {
                    return Some(bytes_of(p.props[k].text.as_slice()));
                },
                None => {},
            }
        }
        i = i + 1;
    }
    proof {
        assert(psv.subrange(psv.len() as int, psv.len() as int) =~= Seq::<PropstatV>::empty());
    }
    None
}

/// Whether a response entry yields a card, and which.
pub open spec fn resp_card(r: ResponseV, abid: Seq<u8>) -> Option<CardV> {
    if (match r.status {
        None => true,
        Some(s) => spec_status_success(s),
    }) {
        match spec_card_id(r.href) {
            None => None,
            Some(id) => match card_content(r.propstats) {
                None => None,
                Some(content) => Some(CardV { id, addressbook_id: abid, content }),
            },
        }
    } else {
        None
    }
}

/// The cards a multistatus body lists, in document order.
pub open spec fn spec_cards(rs: Seq<ResponseV>, abid: Seq<u8>) -> Seq<CardV>
    decreases rs.len(),
{
    if rs.len() == 0 {
        Seq::<CardV>::empty()
    } else {
        spec_cards(rs.drop_last(), abid) + match resp_card(rs.last(), abid) {
            None => Seq::<CardV>::empty(),
            Some(c) => seq![c],
        }
    }
}

/// Read the cards out of a parsed multistatus body: one for each
/// response entry that carries `address-data` in a successful
/// `propstat`, identified by the segment before `.vcf` in its href, in
/// document order.
pub fn cards_of(ms: &Multistatus, addressbook_id: &[u8]) -> (r: Vec<Card>)
    ensures
        r@.map_values(|c: Card| c@) == spec_cards(ms@.responses, addressbook_id@),
{
    let ghost rsv = ms@.responses;
    let mut out: Vec<Card> = Vec::new();
    let mut i: usize = 0;
    proof {
        assert(rsv.take(0) =~= Seq::<ResponseV>::empty());
        assert(out@.map_values(|c: Card| c@) =~= spec_cards(rsv.take(0), addressbook_id@));
    }
    while i < ms.responses.len()
        invariant
            0 <= i <= ms.responses@.len(),
            rsv == ms@.responses,
            rsv.len() == ms.responses@.len(),
            out@.map_values(|c: Card| c@) == spec_cards(rsv.take(i as int), addressbook_id@),
        decreases ms.responses@.len() - i,
    {
        proof {
            assert(rsv[i as int] == ms.responses@[i as int]@);
            assert(rsv.take(i as int + 1).drop_last() =~= rsv.take(i as int));
            assert(rsv.take(i as int + 1).last() == rsv[i as int]);
        }
        let resp = &ms.responses[i];
        let ok = match &resp.status {
            Some(s) => status_success(s.as_slice()),
            None => true,
        };
        let ghost before = out@.map_values(|c: Card| c@);
        if ok {
            match card_id(resp.href.as_slice()) {
                None => {
                    proof {
                        assert(before =~= before + Seq::<CardV>::empty());
                    }
                },
                Some(id) => {
                    match card_content_x(&resp.propstats) {
                        None => {
                            proof {
                                assert(before =~= before + Seq::<CardV>::empty());
                            }
                        },
                        Some(content) => {
                            let c = Card {
                                id,
                                addressbook_id: bytes_of(addressbook_id),
                                content,
                            };
                            proof {
                                assert(resp_card(rsv[i as int], addressbook_id@) == Some(c@));
                            }
                            out.push(c);
                            proof {
                                assert(out@.map_values(|x: Card| x@) =~= before + seq![c@]);
                            }
                        },
                    }
                },
            }
        } else {
            proof {
                assert(before =~= before + Seq::<CardV>::empty());
            }
        }
        i = i + 1;
    }
    proof {
        assert(rsv.take(rsv.len() as int) =~= rsv);
    }
    out
}

/// The href text the named property carries in the first successful
/// `propstat` of the document that has it: how `current-user-principal`
/// and `addressbook-home-set` answers are read.
pub open spec fn href_in_propstats(ps: Seq<PropstatV>, pname: Seq<u8>) -> Option<Seq<u8>>
    decreases ps.len(),
{
    if ps.len() == 0 {
        None
    } else {
        let p = ps[0];
        if propstat_ok(p) && match first_entry(p.props, pname) {
            Some(e) => first_child(e, "href".spec_bytes()) is Some,
            None => false,
        } {
            Some(first_child(first_entry(p.props, pname)->0, "href".spec_bytes())->0.text)
        } else {
            href_in_propstats(ps.drop_first(), pname)
        }
    }
}

pub open spec fn spec_first_href_prop(rs: Seq<ResponseV>, pname: Seq<u8>) -> Option<Seq<u8>>
    decreases rs.len(),
{
    if rs.len() == 0 {
        None
    } else {
        let r = rs[0];
        if (match r.status {
            None => true,
            Some(s) => spec_status_success(s),
        }) && href_in_propstats(r.propstats, pname) is Some {
            href_in_propstats(r.propstats, pname)
        } else {
            spec_first_href_prop(rs.drop_first(), pname)
        }
    }
}

fn href_in_propstats_x(ps: &Vec<Propstat>, pname: &[u8]) -> (r: Option<Vec<u8>>)
    ensures
        match r {
            Some(v) => href_in_propstats(ps@.map_values(|p: Propstat| p@), pname@) == Some(v@),
            None => href_in_propstats(ps@.map_values(|p: Propstat| p@), pname@) is None,
        },
{
    let ghost psv = ps@.map_values(|p: Propstat| p@);
    let mut i: usize = 0;
    proof {
        assert(psv.subrange(0, psv.len() as int) =~= psv);
    }
    while i < ps.len()
        invariant
            0 <= i <= ps@.len(),
            psv == ps@.map_values(|p: Propstat| p@),
            psv.len() == ps@.len(),
            href_in_propstats(psv, pname@) == href_in_propstats(
                psv.subrange(i as int, psv.len() as int),
                pname@,
            ),
        decreases ps@.len() - i,
    {
        proof {
            assert(psv[i as int] == ps@[i as int]@);
            let suf = psv.subrange(i as int, psv.len() as int);
            assert(suf[0] == psv[i as int]);
            assert(suf.drop_first() =~= psv.subrange(i as int + 1, psv.len() as int));
        }
        let p = &ps[i];
        if status_success(p.status.as_slice()) {
            match first_entry_idx(&p.props, pname) {
                Some(k) => {
                    match first_child_idx(&p.props[k].children, "href".as_bytes()) {
                        Some(c) => {
                            return Some(bytes_of(p.props[k].children[c].text.as_slice()));
                        },
                        None => {},
                    }
                },
                None => {},
            }
        }
        i = i + 1;
    }
    proof {
        assert(psv.subrange(psv.len() as int, psv.len() as int) =~= Seq::<PropstatV>::empty());
    }
    None
}

/// Read the href the named property points at out of a parsed
/// multistatus body: the first successful `propstat` of the first
/// successful response entry that carries it decides.
pub fn first_href_prop(ms: &Multistatus, pname: &[u8]) -> (r: Option<Vec<u8>>)
    ensures
        match r {
            Some(v) => spec_first_href_prop(ms@.responses, pname@) == Some(v@),
            None => spec_first_href_prop(ms@.responses, pname@) is None,
        },
{
    let ghost rsv = ms@.responses;
    let mut i: usize = 0;
    proof {
        assert(rsv.subrange(0, rsv.len() as int) =~= rsv);
    }
    while i < ms.responses.len()
        invariant
            0 <= i <= ms.responses@.len(),
            rsv == ms@.responses,
            rsv.len() == ms.responses@.len(),
            spec_first_href_prop(rsv, pname@) == spec_first_href_prop(
                rsv.subrange(i as int, rsv.len() as int),
                pname@,
            ),
        decreases ms.responses@.len() - i,
    {
        proof {
            assert(rsv[i as int] == ms.responses@[i as int]@);
            let suf = rsv.subrange(i as int, rsv.len() as int);
            assert(suf[0] == rsv[i as int]);
            assert(suf.drop_first() =~= rsv.subrange(i as int + 1, rsv.len() as int));
        }
        let resp = &ms.responses[i];
        let ok = match &resp.status {
            Some(s) => status_success(s.as_slice()),
            None => true,
        };
        if ok {
            match href_in_propstats_x(&resp.propstats, pname) {
                Some(v) => {
                    return Some(v);
                },
                None => {},
            }
        }
        i = i + 1;
    }
    proof {
        assert(rsv.subrange(rsv.len() as int, rsv.len() as int) =~= Seq::<ResponseV>::empty());
    }
    None
}

} // verus!
