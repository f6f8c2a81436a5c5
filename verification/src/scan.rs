//! Byte-level scanning primitives shared by the request builder and the
//! response framer: first-occurrence substring search, ASCII whitespace
//! trimming and decimal parsing, each with an exact specification.

use vstd::prelude::*;

verus! {

/// The needle `n` occurs in `h` at position `i`.
pub open spec fn matches_at(h: Seq<u8>, n: Seq<u8>, i: int) -> bool {
    0 <= i && i + n.len() <= h.len() && h.subrange(i, i + n.len() as int) == n
}

/// First occurrence of `n` in `h` at or after position `i`, if any.
pub open spec fn find_from(h: Seq<u8>, n: Seq<u8>, i: int) -> Option<int>
    decreases h.len() - i + 1,
{
    if i < 0 {
        None
    } else if i + n.len() > h.len() {
        None
    } else if h.subrange(i, i + n.len() as int) == n {
        Some(i)
    } else {
        find_from(h, n, i + 1)
    }
}

/// First occurrence of `n` in `h`, if any.
pub open spec fn spec_find(h: Seq<u8>, n: Seq<u8>) -> Option<int> {
    find_from(h, n, 0)
}

/// What `find_from` returns is the first match at or after `i`.
pub proof fn lemma_find_from_props(h: Seq<u8>, n: Seq<u8>, i: int)
    requires
        0 <= i,
    ensures
        match find_from(h, n, i) {
            Some(j) => i <= j && matches_at(h, n, j) && forall|k: int|
                i <= k < j ==> !matches_at(h, n, k),
            None => forall|k: int| i <= k ==> !matches_at(h, n, k),
        },
    decreases h.len() - i + 1,
{
    if i + n.len() > h.len() {
        assert forall|k: int| i <= k implies !matches_at(h, n, k) by {}
    } else if h.subrange(i, i + n.len() as int) == n {
    } else {
        lemma_find_from_props(h, n, i + 1);
    }
}

/// A position that matches, with no earlier match, is what `find_from` returns.
pub proof fn lemma_find_from_unique(h: Seq<u8>, n: Seq<u8>, i: int, j: int)
    requires
        0 <= i <= j,
        matches_at(h, n, j),
        forall|k: int| i <= k < j ==> !matches_at(h, n, k),
    ensures
        find_from(h, n, i) == Some(j),
    decreases j - i,
{
    if i == j {
    } else {
        assert(!matches_at(h, n, i));
        lemma_find_from_unique(h, n, i + 1, j);
    }
}

/// Where nothing at or after `i` matches, the search from `i` fails.
pub proof fn lemma_find_from_none(h: Seq<u8>, n: Seq<u8>, i: int)
    requires
        0 <= i,
        forall|k: int| i <= k ==> !matches_at(h, n, k),
    ensures
        find_from(h, n, i) is None,
    decreases h.len() - i + 1,
{
    if i + n.len() > h.len() {
    } else {
        assert(!matches_at(h, n, i));
        lemma_find_from_none(h, n, i + 1);
    }
}

/// Searching from offset `i` is searching the suffix that starts at `i`.
pub proof fn lemma_find_shift(h: Seq<u8>, n: Seq<u8>, i: int)
    requires
        0 <= i <= h.len(),
    ensures
        find_from(h, n, i) == match spec_find(h.subrange(i, h.len() as int), n) {
            Some(k) => Some(k + i),
            None => None::<int>,
        },
{
    let sub = h.subrange(i, h.len() as int);
    lemma_find_from_props(sub, n, 0);
    assert forall|k: int| 0 <= k && k + n.len() <= sub.len() implies matches_at(sub, n, k)
        == matches_at(h, n, k + i) by {
        assert(sub.subrange(k, k + n.len() as int) =~= h.subrange(k + i, k + i + n.len() as int));
    }
    match spec_find(sub, n) {
        Some(k) => {
            assert(matches_at(h, n, k + i));
            assert forall|m: int| i <= m < k + i implies !matches_at(h, n, m) by {
                assert(!matches_at(sub, n, m - i));
            }
            lemma_find_from_unique(h, n, i, k + i);
        },
        None => {
            assert forall|m: int| i <= m implies !matches_at(h, n, m) by {
                if m + n.len() <= h.len() {
                    assert(!matches_at(sub, n, m - i));
                }
            }
            lemma_find_from_none(h, n, i);
        },
    }
}

/// A match inside a prefix is still a match after more bytes are appended.
pub proof fn lemma_matches_at_extend(h1: Seq<u8>, h2: Seq<u8>, n: Seq<u8>, k: int)
    requires
        0 <= k,
        k + n.len() <= h1.len(),
    ensures
        matches_at(h1, n, k) == matches_at(h1 + h2, n, k),
{
    assert(h1.subrange(k, k + n.len() as int) =~= (h1 + h2).subrange(k, k + n.len() as int));
}

/// Appending bytes never moves an already-found first occurrence.
pub proof fn lemma_find_extend(h1: Seq<u8>, h2: Seq<u8>, n: Seq<u8>)
    requires
        spec_find(h1, n) is Some,
    ensures
        spec_find(h1 + h2, n) == spec_find(h1, n),
{
    let j = spec_find(h1, n)->0;
    lemma_find_from_props(h1, n, 0);
    lemma_matches_at_extend(h1, h2, n, j);
    assert forall|k: int| 0 <= k < j implies !matches_at(h1 + h2, n, k) by {
        lemma_matches_at_extend(h1, h2, n, k);
    }
    lemma_find_from_unique(h1 + h2, n, 0, j);
}

/// Relies on `memchr::memmem::find`: it returns the index of the first
/// occurrence of the needle in the haystack, or `None` when the needle
/// does not occur.
#[verifier::external_body]
pub(crate) fn find_sub(haystack: &[u8], needle: &[u8]) -> (r: Option<usize>)
    requires
        needle@.len() > 0,
    ensures
        match r {
            Some(i) => spec_find(haystack@, needle@) == Some(i as int),
            None => spec_find(haystack@, needle@) is None,
        },
{
    memchr::memmem::find(haystack, needle)
}

/// ASCII space or horizontal tab.
pub open spec fn is_space(b: u8) -> bool {
    b == 32 || b == 9
}

/// `s` with leading and trailing ASCII spaces and tabs removed.
pub open spec fn spec_trim(s: Seq<u8>) -> Seq<u8>
    decreases s.len(),
{
    if s.len() > 0 && is_space(s[0]) {
        spec_trim(s.drop_first())
    } else if s.len() > 0 && is_space(s.last()) {
        spec_trim(s.drop_last())
    } else {
        s
    }
}

/// Trimming a sequence without marginal whitespace leaves it unchanged.
pub proof fn lemma_trim_clean(s: Seq<u8>)
    requires
        s.len() > 0 ==> !is_space(s[0]) && !is_space(s.last()),
    ensures
        spec_trim(s) == s,
{
}

pub fn trim_bytes(s: &[u8]) -> (r: Vec<u8>)
    ensures
        r@ == spec_trim(s@),
{
    let mut lo: usize = 0;
    let mut hi: usize = s.len();
    proof {
        assert(s@.subrange(0, s@.len() as int) =~= s@);
    }
    while lo < hi && (s[lo] == 32 || s[lo] == 9)
        invariant
            0 <= lo <= hi <= s@.len(),
            hi == s@.len(),
            spec_trim(s@) == spec_trim(s@.subrange(lo as int, hi as int)),
        decreases hi - lo,
    {
        proof {
            let sub = s@.subrange(lo as int, hi as int);
            assert(sub[0] == s@[lo as int]);
            assert(is_space(sub[0]));
            assert(sub.drop_first() =~= s@.subrange(lo as int + 1, hi as int));
            assert(spec_trim(sub) == spec_trim(sub.drop_first()));
        }
        lo = lo + 1;
    }
    while lo < hi && (s[hi - 1] == 32 || s[hi - 1] == 9)
        invariant
            0 <= lo <= hi <= s@.len(),
            lo < hi ==> !is_space(s@[lo as int]),
            spec_trim(s@) == spec_trim(s@.subrange(lo as int, hi as int)),
        decreases hi - lo,
    {
        proof {
            let sub = s@.subrange(lo as int, hi as int);
            assert(sub.last() == s@[hi as int - 1]);
            assert(is_space(sub.last()));
            assert(!is_space(sub[0]));
            assert(sub.drop_last() =~= s@.subrange(lo as int, hi as int - 1));
            assert(spec_trim(sub) == spec_trim(sub.drop_last()));
        }
        hi = hi - 1;
    }
    let mut r: Vec<u8> = Vec::new();
    let mut i: usize = lo;
    while i < hi
        invariant
            lo <= i <= hi <= s@.len(),
            r@ =~= s@.subrange(lo as int, i as int),
        decreases hi - i,
    {
        r.push(s[i]);
        i = i + 1;
    }
    proof {
        let core = s@.subrange(lo as int, hi as int);
        lemma_trim_clean(core);
        assert(r@ =~= core);
    }
    r
}

/// ASCII decimal digit.
pub open spec fn is_digit(b: u8) -> bool {
    48 <= b <= 57
}

pub open spec fn all_digits(s: Seq<u8>) -> bool {
    forall|i: int| 0 <= i < s.len() ==> is_digit(#[trigger] s[i])
}

/// Value of an all-digit byte sequence read as decimal.
pub open spec fn digits_val(s: Seq<u8>) -> nat
    decreases s.len(),
{
    if s.len() == 0 {
        0
    } else {
        (digits_val(s.drop_last()) * 10 + (s.last() - 48)) as nat
    }
}

pub open spec fn pow10(n: nat) -> nat
    decreases n,
{
    if n == 0 {
        1
    } else {
        pow10((n - 1) as nat) * 10
    }
}

/// Every byte of a decimal rendering is a digit, and there is at least
/// one.
pub proof fn lemma_spec_decimal_digits(n: nat)
    ensures
        all_digits(spec_decimal(n)),
        spec_decimal(n).len() >= 1,
    decreases n,
{
    if n < 10 {
    } else {
        lemma_spec_decimal_digits(n / 10);
        let pre = spec_decimal(n / 10);
        let whole = spec_decimal(n);
        assert(whole == pre + seq![(48 + n % 10) as u8]);
        assert forall|i: int| 0 <= i < whole.len() implies is_digit(#[trigger] whole[i]) by {
            if i < pre.len() {
                assert(whole[i] == pre[i]);
            }
        }
    }
}

/// A number below `pow10(k)` renders in at most `k` digits.
pub proof fn lemma_spec_decimal_len(n: nat, k: nat)
    requires
        1 <= k,
        n < pow10(k),
    ensures
        spec_decimal(n).len() <= k,
    decreases n,
{
    if n < 10 {
    } else {
        assert(pow10(k) == pow10((k - 1) as nat) * 10);
        assert(n / 10 < pow10((k - 1) as nat)) by {
            assert(n / 10 * 10 <= n);
        }
        assert(k - 1 >= 1) by {
            reveal_with_fuel(pow10, 2);
            if k == 1 {
                assert(pow10(1nat) == 10);
            }
        }
        lemma_spec_decimal_len(n / 10, (k - 1) as nat);
    }
}

/// Rendering a number and parsing the digits back returns the number:
/// the decimal forms are inverse to one another.
pub proof fn lemma_decimal_round_trip(n: nat)
    requires
        n < pow10(19),
    ensures
        spec_parse_decimal(spec_decimal(n)) == Some(n),
    decreases n,
{
    lemma_spec_decimal_digits(n);
    lemma_spec_decimal_len(n, 19);
    lemma_digits_val_of_decimal(n);
}

/// The decimal digits of `n` read back as `n`.
pub proof fn lemma_digits_val_of_decimal(n: nat)
    ensures
        digits_val(spec_decimal(n)) == n,
    decreases n,
{
    if n < 10 {
        let s = spec_decimal(n);
        assert(s == seq![(48 + n) as u8]);
        assert(s.drop_last() =~= Seq::<u8>::empty());
        assert(digits_val(s.drop_last()) == 0);
        assert(s.last() == (48 + n) as u8);
    } else {
        lemma_digits_val_of_decimal(n / 10);
        let pre = spec_decimal(n / 10);
        let whole = spec_decimal(n);
        assert(whole.drop_last() =~= pre);
        assert(whole.last() == (48 + n % 10) as u8);
        assert(n / 10 * 10 + n % 10 == n);
    }
}

/// A decimal byte sequence parses when it is non-empty, at most 19 digits
/// long (so that its value fits the machine) and made of digits only.
pub open spec fn spec_parse_decimal(s: Seq<u8>) -> Option<nat> {
    if s.len() > 0 && s.len() <= 19 && all_digits(s) {
        Some(digits_val(s))
    } else {
        None
    }
}

pub fn parse_decimal(s: &[u8]) -> (r: Option<u64>)
    ensures
        match r {
            Some(v) => spec_parse_decimal(s@) == Some(v as nat),
            None => spec_parse_decimal(s@) is None,
        },
{
    if s.len() == 0 || s.len() > 19 {
        return None;
    }
    let mut acc: u64 = 0;
    let mut i: usize = 0;
    while i < s.len()
        invariant
            0 <= i <= s@.len(),
            s@.len() <= 19,
            all_digits(s@.subrange(0, i as int)),
            acc == digits_val(s@.subrange(0, i as int)),
            acc < pow10(i as nat),
        decreases s@.len() - i,
    {
        let b = s[i];
        if b < 48 || b > 57 {
            proof {
                assert(!is_digit(s@[i as int]));
            }
            return None;
        }
        proof {
            assert(pow10(i as nat) <= pow10(18)) by {
                lemma_pow10_mono(i as nat, 18);
            }
            lemma_pow10_18_value();
        }
        acc = acc * 10 + ((b - 48) as u64);
        proof {
            let pre = s@.subrange(0, i as int);
            let cur = s@.subrange(0, i as int + 1);
            assert(cur.drop_last() =~= pre);
            assert(cur.last() == s@[i as int]);
        }
        i = i + 1;
    }
    proof {
        assert(s@.subrange(0, s@.len() as int) =~= s@);
    }
    Some(acc)
}

pub proof fn lemma_pow10_18_value()
    ensures
        pow10(18) == 1000000000000000000,
{
    reveal_with_fuel(pow10, 20);
}

pub proof fn lemma_pow10_mono(a: nat, b: nat)
    requires
        a <= b,
    ensures
        pow10(a) <= pow10(b),
    decreases b,
{
    if a < b {
        lemma_pow10_mono(a, (b - 1) as nat);
    }
}

/// The UTF-8 bytes of an owned string.
pub open spec fn string_bytes(s: String) -> Seq<u8> {
    vstd::utf8::encode_utf8(s@)
}

/// No carriage return and no line feed anywhere in `s`.
pub open spec fn no_crlf(s: Seq<u8>) -> bool {
    forall|i: int| 0 <= i < s.len() ==> #[trigger] s[i] != 13 && s[i] != 10
}

/// No ASCII space anywhere in `s`.
pub open spec fn no_sp(s: Seq<u8>) -> bool {
    forall|i: int| 0 <= i < s.len() ==> #[trigger] s[i] != 32
}

/// Decimal rendering of a number, most significant digit first.
pub open spec fn spec_decimal(n: nat) -> Seq<u8>
    decreases n,
{
    if n < 10 {
        seq![(48 + n) as u8]
    } else {
        spec_decimal(n / 10) + seq![(48 + n % 10) as u8]
    }
}

pub fn decimal_bytes(n: u64) -> (r: Vec<u8>)
    ensures
        r@ == spec_decimal(n as nat),
    decreases n,
{
    if n < 10 {
        let mut v: Vec<u8> = Vec::new();
        v.push(48 + (n as u8));
        proof {
            assert(v@ =~= spec_decimal(n as nat));
        }
        v
    } else {
        let mut v = decimal_bytes(n / 10);
        v.push(48 + ((n % 10) as u8));
        proof {
            assert(v@ =~= spec_decimal((n / 10) as nat) + seq![(48 + (n as nat) % 10) as u8]);
        }
        v
    }
}

/// The part of a byte slice between two positions.
pub fn slice_part<'a>(s: &'a [u8], i: usize, j: usize) -> (r: &'a [u8])
    requires
        0 <= i <= j <= s@.len(),
    ensures
        r@ == s@.subrange(i as int, j as int),
{
    vstd::slice::slice_subrange(s, i, j)
}

/// Append a byte slice to an owned buffer.
pub fn append_bytes(v: &mut Vec<u8>, s: &[u8])
    ensures
        final(v)@ == old(v)@ + s@,
{
    let ghost before = v@;
    v.extend_from_slice(s);
    proof {
        assert(v@ =~= before + s@);
    }
}

/// An owned copy of a byte slice.
pub fn bytes_of(s: &[u8]) -> (r: Vec<u8>)
    ensures
        r@ == s@,
{
    vstd::slice::slice_to_vec(s)
}

/// Exact equality of two byte slices.
pub fn bytes_eq(a: &[u8], b: &[u8]) -> (r: bool)
    ensures
        r == (a@ =~= b@),
{
    if a.len() != b.len() {
        return false;
    }
    let mut i: usize = 0;
    while i < a.len()
        invariant
            0 <= i <= a@.len(),
            a@.len() == b@.len(),
            forall|k: int| 0 <= k < i ==> a@[k] == b@[k],
        decreases a@.len() - i,
    {
        if a[i] != b[i] {
            return false;
        }
        i = i + 1;
    }
    true
}

} // verus!
