//! Incremental HTTP response framing: the framer accumulates the byte
//! chunks a transport delivers, locates the header/body boundary, extracts
//! the declared `Content-Length`, and decides when the response is complete.
//! Every decision is a function of the accumulated bytes alone, so the way
//! the stream is chunked can never change the outcome.

use vstd::prelude::*;

use crate::scan::{
    all_digits, bytes_eq, digits_val, find_from, find_sub, lemma_find_extend,
    lemma_find_from_props, lemma_find_shift, parse_decimal, spec_find, spec_parse_decimal,
    spec_trim, trim_bytes,
};

verus! {

pub open spec fn spec_crlf() -> Seq<u8> {
    seq![13u8, 10u8]
}

/// The blank line that separates an HTTP head from its body.
pub open spec fn spec_boundary() -> Seq<u8> {
    seq![13u8, 10u8, 13u8, 10u8]
}

pub open spec fn name_content_length() -> Seq<u8> {
    seq![
        'C' as u8, 'o' as u8, 'n' as u8, 't' as u8, 'e' as u8, 'n' as u8, 't' as u8,
        '-' as u8, 'L' as u8, 'e' as u8, 'n' as u8, 'g' as u8, 't' as u8, 'h' as u8,
    ]
}

pub open spec fn name_connection() -> Seq<u8> {
    seq![
        'C' as u8, 'o' as u8, 'n' as u8, 'n' as u8, 'e' as u8, 'c' as u8, 't' as u8,
        'i' as u8, 'o' as u8, 'n' as u8,
    ]
}

pub open spec fn name_location() -> Seq<u8> {
    seq!['L' as u8, 'o' as u8, 'c' as u8, 'a' as u8, 't' as u8, 'i' as u8, 'o' as u8, 'n' as u8]
}

pub open spec fn spec_close() -> Seq<u8> {
    seq!['c' as u8, 'l' as u8, 'o' as u8, 's' as u8, 'e' as u8]
}

pub fn crlf_bytes() -> (r: Vec<u8>)
    ensures
        r@ == spec_crlf(),
{
    let mut v: Vec<u8> = Vec::new();
    v.push(13u8);
    v.push(10u8);
    proof {
        assert(v@ =~= spec_crlf());
    }
    v
}

pub fn boundary_bytes() -> (r: Vec<u8>)
    ensures
        r@ == spec_boundary(),
{
    let mut v: Vec<u8> = Vec::new();
    v.push(13u8);
    v.push(10u8);
    v.push(13u8);
    v.push(10u8);
    proof {
        assert(v@ =~= spec_boundary());
    }
    v
}

pub fn content_length_name() -> (r: Vec<u8>)
    ensures
        r@ == name_content_length(),
{
    let mut v: Vec<u8> = Vec::new();
    v.push('C' as u8);
    v.push('o' as u8);
    v.push('n' as u8);
    v.push('t' as u8);
    v.push('e' as u8);
    v.push('n' as u8);
    v.push('t' as u8);
    v.push('-' as u8);
    v.push('L' as u8);
    v.push('e' as u8);
    v.push('n' as u8);
    v.push('g' as u8);
    v.push('t' as u8);
    v.push('h' as u8);
    proof {
        assert(v@ =~= name_content_length());
    }
    v
}

pub fn connection_name() -> (r: Vec<u8>)
    ensures
        r@ == name_connection(),
{
    let mut v: Vec<u8> = Vec::new();
    v.push('C' as u8);
    v.push('o' as u8);
    v.push('n' as u8);
    v.push('n' as u8);
    v.push('e' as u8);
    v.push('c' as u8);
    v.push('t' as u8);
    v.push('i' as u8);
    v.push('o' as u8);
    v.push('n' as u8);
    proof {
        assert(v@ =~= name_connection());
    }
    v
}

pub fn location_name() -> (r: Vec<u8>)
    ensures
        r@ == name_location(),
{
    let mut v: Vec<u8> = Vec::new();
    v.push('L' as u8);
    v.push('o' as u8);
    v.push('c' as u8);
    v.push('a' as u8);
    v.push('t' as u8);
    v.push('i' as u8);
    v.push('o' as u8);
    v.push('n' as u8);
    proof {
        assert(v@ =~= name_location());
    }
    v
}

pub fn close_bytes() -> (r: Vec<u8>)
    ensures
        r@ == spec_close(),
{
    let mut v: Vec<u8> = Vec::new();
    v.push('c' as u8);
    v.push('l' as u8);
    v.push('o' as u8);
    v.push('s' as u8);
    v.push('e' as u8);
    proof {
        assert(v@ =~= spec_close());
    }
    v
}

/// Value of the first header named `name` in `head`, trimmed of blanks.
/// The lookup follows the framing convention of this engine: the first
/// occurrence of `\r\n` + name is taken, the single byte after the name
/// (the colon) is skipped, and the value runs to the next `\r\n`.
pub open spec fn spec_header_value(head: Seq<u8>, name: Seq<u8>) -> Option<Seq<u8>> {
    match spec_find(head, spec_crlf() + name) {
        None => None,
        Some(j) => {
            let vstart = j + 2 + name.len() + 1;
            if vstart > head.len() {
                None
            } else {
                match find_from(head, spec_crlf(), vstart) {
                    None => None,
                    Some(e) => Some(spec_trim(head.subrange(vstart, e))),
                }
            }
        },
    }
}

pub fn header_value(head: &[u8], name: &[u8]) -> (r: Option<Vec<u8>>)
    requires
        name@.len() > 0,
    ensures
        match r {
            Some(v) => spec_header_value(head@, name@) == Some(v@),
            None => spec_header_value(head@, name@) is None,
        },
{
    let mut needle = crlf_bytes();
    needle.extend_from_slice(name);
    proof {
        assert(needle@ =~= spec_crlf() + name@);
    }
    let j = match find_sub(head, needle.as_slice()) {
        None => {
            return None;
        },
        Some(j) => j,
    };
    let hlen = head.len();
    proof {
        lemma_find_from_props(head@, spec_crlf() + name@, 0);
        assert(j + 2 + name@.len() <= hlen);
    }
    let base = j + 2 + name.len();
    if base >= head.len() {
        return None;
    }
    let vstart = base + 1;
    let tail = crate::scan::slice_part(head, vstart, head.len());
    let crlf = crlf_bytes();
    let e_rel = match find_sub(tail, crlf.as_slice()) {
        None => {
            proof {
                lemma_find_shift(head@, spec_crlf(), vstart as int);
            }
            return None;
        },
        Some(e) => e,
    };
    proof {
        lemma_find_shift(head@, spec_crlf(), vstart as int);
        lemma_find_from_props(head@, spec_crlf(), vstart as int);
    }
    let value = crate::scan::slice_part(head, vstart, vstart + e_rel);
    let trimmed = trim_bytes(value);
    proof {
        assert(head@.subrange(vstart as int, vstart as int + e_rel as int) =~= head@.subrange(
            vstart as int,
            head@.len() as int,
        ).subrange(0, e_rel as int));
    }
    Some(trimmed)
}

/// Position right after the head/body boundary, if the boundary arrived.
pub open spec fn spec_body_start(b: Seq<u8>) -> Option<int> {
    match spec_find(b, spec_boundary()) {
        None => None,
        Some(j) => Some(j + 4),
    }
}

/// The head: everything up to and including the blank line.
pub open spec fn spec_head(b: Seq<u8>) -> Seq<u8> {
    b.subrange(0, spec_body_start(b)->0)
}

/// The declared `Content-Length` of a complete head, when present and valid.
pub open spec fn spec_content_length(head: Seq<u8>) -> Option<nat> {
    match spec_header_value(head, name_content_length()) {
        None => None,
        Some(v) => spec_parse_decimal(v),
    }
}

#[derive(Clone, Copy, Debug, PartialEq, Eq, Structural)]
pub enum FrameStatus {
    /// More bytes are needed before the response is complete.
    Incomplete,
    /// The head arrived without any `Content-Length` header.
    MissingContentLength,
    /// The head carries a `Content-Length` that is not a plain decimal.
    InvalidContentLength,
    /// Head and declared body have fully arrived.
    Complete,
}

/// The framing decision over the accumulated bytes.
pub open spec fn spec_frame_status(b: Seq<u8>) -> FrameStatus {
    match spec_body_start(b) {
        None => FrameStatus::Incomplete,
        Some(bs) => {
            let head = b.subrange(0, bs);
            match spec_header_value(head, name_content_length()) {
                None => FrameStatus::MissingContentLength,
                Some(v) => match spec_parse_decimal(v) {
                    None => FrameStatus::InvalidContentLength,
                    Some(len) => if b.len() - bs >= len {
                        FrameStatus::Complete
                    } else {
                        FrameStatus::Incomplete
                    },
                },
            }
        },
    }
}

/// The body of a complete response: exactly the declared number of bytes
/// after the boundary.
pub open spec fn spec_body(b: Seq<u8>) -> Seq<u8> {
    let bs = spec_body_start(b)->0;
    let len = spec_content_length(b.subrange(0, bs))->0;
    b.subrange(bs, bs + len)
}

/// Cached outcome of the `Content-Length` scan, filled in as soon as the
/// boundary is seen.
#[derive(Clone, Copy, Debug, PartialEq, Eq, Structural)]
pub enum LengthCache {
    Missing,
    Invalid,
    Declared(u64),
}

/// Accumulates response bytes and tracks the head/body boundary and the
/// declared body length, exactly as `spec_frame_status` describes.
pub struct ResponseFramer {
    pub bytes: Vec<u8>,
    pub body_start: Option<usize>,
    pub declared: Option<LengthCache>,
}

impl ResponseFramer {
    /// The caches agree with what a scan of the accumulated bytes gives.
    pub open spec fn wf(self) -> bool {
        &&& match self.body_start {
            None => spec_body_start(self.bytes@) is None,
            Some(bs) => spec_body_start(self.bytes@) == Some(bs as int),
        }
        &&& match self.body_start {
            None => self.declared is None,
            Some(bs) => match self.declared {
                None => false,
                Some(LengthCache::Missing) => spec_header_value(
                    self.bytes@.subrange(0, bs as int),
                    name_content_length(),
                ) is None,
                Some(LengthCache::Invalid) => {
                    let v = spec_header_value(
                        self.bytes@.subrange(0, bs as int),
                        name_content_length(),
                    );
                    v is Some && spec_parse_decimal(v->0) is None
                },
                Some(LengthCache::Declared(n)) => {
                    let v = spec_header_value(
                        self.bytes@.subrange(0, bs as int),
                        name_content_length(),
                    );
                    v is Some && spec_parse_decimal(v->0) == Some(n as nat)
                },
            },
        }
    }

    pub fn new() -> (r: Self)
        ensures
            r.wf(),
            r.bytes@ == Seq::<u8>::empty(),
    {
        let r = ResponseFramer { bytes: Vec::new(), body_start: None, declared: None };
        proof {
            lemma_find_from_props(r.bytes@, spec_boundary(), 0);
        }
        r
    }

    /// Append one chunk as delivered by the transport and refresh the
    /// cached offsets. The chunking has no influence: afterwards the
    /// framer's whole state is a function of the accumulated bytes.
    pub fn feed(&mut self, chunk: &[u8])
        requires
            old(self).wf(),
        ensures
            final(self).wf(),
            final(self).bytes@ == old(self).bytes@ + chunk@,
    {
        let ghost old_bytes = self.bytes@;
        crate::scan::append_bytes(&mut self.bytes, chunk);
        let blen = self.bytes.len();
        match self.body_start {
            Some(bs) => {
                proof {
                    lemma_find_from_props(old_bytes, spec_boundary(), 0);
                    lemma_find_extend(old_bytes, chunk@, spec_boundary());
                    assert(self.bytes@.subrange(0, bs as int) =~= old_bytes.subrange(0, bs as int));
                }
            },
            None => {
                let boundary = boundary_bytes();
                match find_sub(self.bytes.as_slice(), boundary.as_slice()) {
                    None => {
                    },
                    Some(j) => {
                        proof {
                            lemma_find_from_props(self.bytes@, spec_boundary(), 0);
                            assert(j + 4 <= blen);
                        }
                        let bs = j + 4;
                        self.body_start = Some(bs);
                        let head = crate::scan::slice_part(self.bytes.as_slice(), 0, bs);
                        let name = content_length_name();
                        match header_value(head, name.as_slice()) {
                            None => {
                                self.declared = Some(LengthCache::Missing);
                            },
                            Some(v) => match parse_decimal(v.as_slice()) {
                                None => {
                                    self.declared = Some(LengthCache::Invalid);
                                },
                                Some(n) => {
                                    self.declared = Some(LengthCache::Declared(n));
                                },
                            },
                        }
                    },
                }
            },
        }
    }

    /// The framing decision for the bytes accumulated so far.
    pub fn status(&self) -> (r: FrameStatus)
        requires
            self.wf(),
        ensures
            r == spec_frame_status(self.bytes@),
    {
        match self.body_start {
            None => FrameStatus::Incomplete,
            Some(bs) => match self.declared {
                None => FrameStatus::Incomplete,
                Some(LengthCache::Missing) => FrameStatus::MissingContentLength,
                Some(LengthCache::Invalid) => FrameStatus::InvalidContentLength,
                Some(LengthCache::Declared(n)) => {
                    proof {
                        lemma_find_from_props(self.bytes@, spec_boundary(), 0);
                    }
                    if (self.bytes.len() - bs) as u64 >= n {
                        FrameStatus::Complete
                    } else {
                        FrameStatus::Incomplete
                    }
                },
            },
        }
    }

    /// The complete head, boundary included.
    pub fn head(&self) -> (r: Vec<u8>)
        requires
            self.wf(),
            self.body_start is Some,
        ensures
            r@ == spec_head(self.bytes@),
    {
        proof {
            lemma_find_from_props(self.bytes@, spec_boundary(), 0);
        }
        let bs = match self.body_start {
            Some(bs) => bs,
            None => 0,
        };
        let head = crate::scan::slice_part(self.bytes.as_slice(), 0, bs);
        crate::scan::bytes_of(head)
    }

    /// The body of a complete response, cut to the declared length.
    pub fn body(&self) -> (r: Vec<u8>)
        requires
            self.wf(),
            spec_frame_status(self.bytes@) == FrameStatus::Complete,
        ensures
            r@ == spec_body(self.bytes@),
    {
        proof {
            lemma_find_from_props(self.bytes@, spec_boundary(), 0);
        }
        let blen = self.bytes.len();
        let bs = match self.body_start {
            Some(bs) => bs,
            None => 0,
        };
        let n = match self.declared {
            Some(LengthCache::Declared(n)) => n,
            _ => 0,
        };
        proof {
            let b = self.bytes@;
            let sbs = spec_body_start(b)->0;
            let head = b.subrange(0, sbs);
            assert(bs as int == sbs);
            assert(spec_frame_status(b) == FrameStatus::Complete);
            assert(spec_content_length(head) == Some(n as nat));
            assert(b.len() - bs >= n);
        }
        let n_us = n as usize;
        let body = crate::scan::slice_part(self.bytes.as_slice(), bs, bs + n_us);
        crate::scan::bytes_of(body)
    }
}

/// Chunk boundaries never affect framing: the framer's whole decision —
/// status and body — is a function of the accumulated bytes alone, so
/// any two deliveries whose chunks concatenate to the same stream agree.
/// Together with `feed`, which only ever appends the chunk it is given,
/// this says that even one-byte-at-a-time delivery reaches the same
/// outcome as a single full delivery.
pub proof fn lemma_chunking_irrelevant(c1: Seq<Seq<u8>>, c2: Seq<Seq<u8>>)
    requires
        c1.flatten() == c2.flatten(),
    ensures
        spec_frame_status(c1.flatten()) == spec_frame_status(c2.flatten()),
        spec_body(c1.flatten()) == spec_body(c2.flatten()),
{
}

/// A response that declares `Content-Length: 0` is complete as soon as
/// the head boundary is found, with an empty body.
pub proof fn lemma_zero_length_completes(b: Seq<u8>)
    requires
        spec_body_start(b) is Some,
        spec_content_length(spec_head(b)) == Some(0nat),
    ensures
        spec_frame_status(b) == FrameStatus::Complete,
        spec_body(b) == Seq::<u8>::empty(),
{
    lemma_find_from_props(b, spec_boundary(), 0);
    let bs = spec_body_start(b)->0;
    assert(b.subrange(bs, bs) =~= Seq::<u8>::empty());
}

/// The HTTP status code of a response head: the three digits after the
/// first space of its first line.
pub open spec fn spec_status_code(head: Seq<u8>) -> Option<nat> {
    match spec_find(head, seq![32u8]) {
        None => None,
        Some(sp) => {
            if sp + 4 <= head.len() && all_digits(head.subrange(sp + 1, sp + 4)) {
                Some(digits_val(head.subrange(sp + 1, sp + 4)))
            } else {
                None
            }
        },
    }
}

pub fn status_code(head: &[u8]) -> (r: Option<u16>)
    ensures
        match r {
            Some(c) => spec_status_code(head@) == Some(c as nat),
            None => spec_status_code(head@) is None,
        },
{
    let mut space: Vec<u8> = Vec::new();
    space.push(32u8);
    proof {
        assert(space@ =~= seq![32u8]);
    }
    let sp = match find_sub(head, space.as_slice()) {
        None => {
            return None;
        },
        Some(sp) => sp,
    };
    proof {
        lemma_find_from_props(head@, seq![32u8], 0);
    }
    if head.len() - sp < 4 {
        proof {
            assert(sp + 4 > head@.len());
        }
        return None;
    }
    let d1 = head[sp + 1];
    let d2 = head[sp + 2];
    let d3 = head[sp + 3];
    let ghost code = head@.subrange(sp as int + 1, sp as int + 4);
    if d1 < 48 || d1 > 57 || d2 < 48 || d2 > 57 || d3 < 48 || d3 > 57 {
        proof {
            assert(code[0] == d1 && code[1] == d2 && code[2] == d3);
        }
        return None;
    }
    let v: u16 = ((d1 - 48) as u16) * 100 + ((d2 - 48) as u16) * 10 + ((d3 - 48) as u16);
    proof {
        reveal_with_fuel(digits_val, 4);
        assert(code[0] == d1 && code[1] == d2 && code[2] == d3);
        assert(all_digits(code));
        assert(code.drop_last() =~= seq![d1, d2]);
        assert(seq![d1, d2].drop_last() =~= seq![d1]);
        assert(seq![d1].drop_last() =~= Seq::<u8>::empty());
        assert(digits_val(seq![d1]) == (d1 - 48) as nat);
        assert(digits_val(seq![d1, d2]) == (d1 - 48) * 10 + (d2 - 48));
        assert(digits_val(code) == v as nat);
    }
    Some(v)
}

/// A response keeps the connection open unless its head says `close`.
pub open spec fn spec_keep_alive(head: Seq<u8>) -> bool {
    match spec_header_value(head, name_connection()) {
        None => true,
        Some(v) => v != spec_close(),
    }
}

pub fn keep_alive(head: &[u8]) -> (r: bool)
    ensures
        r == spec_keep_alive(head@),
{
    let name = connection_name();
    match header_value(head, name.as_slice()) {
        None => true,
        Some(v) => {
            let close = close_bytes();
            let eq = bytes_eq(v.as_slice(), close.as_slice());
            !eq
        },
    }
}

/// The redirect target of a response head, when one is declared.
pub open spec fn spec_location(head: Seq<u8>) -> Option<Seq<u8>> {
    spec_header_value(head, name_location())
}

pub fn location(head: &[u8]) -> (r: Option<Vec<u8>>)
    ensures
        match r {
            Some(v) => spec_location(head@) == Some(v@),
            None => spec_location(head@) is None,
        },
{
    let name = location_name();
    header_value(head, name.as_slice())
}

} // verus!
