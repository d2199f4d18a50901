//! Byte-sequence helpers: substring search and comparisons.

use vstd::prelude::*;

verus! {

/// The needle `n` occurs in `h` at position `i`.
pub open spec fn match_at(h: Seq<u8>, n: Seq<u8>, i: int) -> bool {
    0 <= i && i + n.len() <= h.len() && h.subrange(i, i + n.len() as int) == n
}

/// The needle `n` occurs somewhere in `h`.
pub open spec fn contains_seq(h: Seq<u8>, n: Seq<u8>) -> bool {
    exists|i: int| match_at(h, n, i)
}

/// The position of the first occurrence of a non-empty needle `n` in
/// `h` at or after `i`.
pub open spec fn first_match_from(h: Seq<u8>, n: Seq<u8>, i: int) -> Option<int>
    decreases h.len() - i when 0 <= i <= h.len()
{
    if n.len() == 0 || i < 0 || i + n.len() > h.len() {
        None
    } else if h.subrange(i, i + n.len() as int) == n {
        Some(i)
    } else {
        first_match_from(h, n, i + 1)
    }
}

/// The position of the first occurrence of `n` in `h`.
pub open spec fn first_match(h: Seq<u8>, n: Seq<u8>) -> Option<int> {
    first_match_from(h, n, 0)
}

/// `first_match_from` finds exactly the first match at or after `from`.
pub proof fn lemma_first_match_from(h: Seq<u8>, n: Seq<u8>, from: int)
    requires
        0 <= from <= h.len(),
        n.len() > 0,
    ensures
        match first_match_from(h, n, from) {
            Some(i) => match_at(h, n, i) && from <= i && forall|j: int|
                from <= j < i ==> !match_at(h, n, j),
            None => forall|j: int| j >= from ==> !match_at(h, n, j),
        },
    decreases h.len() - from,
{
    if from + n.len() > h.len() {
        assert forall|j: int| j >= from implies !match_at(h, n, j) by {}
    } else if h.subrange(from, from + n.len() as int) == n {
    } else {
        assert(from + 1 <= h.len());
        lemma_first_match_from(h, n, from + 1);
        assert(!match_at(h, n, from));
    }
}

/// `first_match` finds exactly the first match.
pub proof fn lemma_first_match(h: Seq<u8>, n: Seq<u8>)
    requires
        n.len() > 0,
    ensures
        match first_match(h, n) {
            Some(i) => match_at(h, n, i) && forall|j: int| 0 <= j < i ==> !match_at(h, n, j),
            None => !contains_seq(h, n),
        },
{
    lemma_first_match_from(h, n, 0);
    if first_match(h, n) is None {
        assert forall|i: int| !match_at(h, n, i) by {
            if 0 <= i {
                assert(!match_at(h, n, i));
            }
        }
    }
}

/// Relies on `twoway::find_bytes`: it returns the index of the first
/// occurrence of `pattern` in `text`, or `None` when `pattern` does not
/// occur in `text`.
#[verifier::external_body]
pub fn find_bytes(text: &[u8], pattern: &[u8]) -> (r: Option<usize>)
    requires
        pattern@.len() > 0,
    ensures
        match r {
            Some(i) => first_match(text@, pattern@) == Some(i as int),
            None => first_match(text@, pattern@) is None,
        },
{
    twoway::find_bytes(text, pattern)
}

/// Byte-exact comparison of two slices.
pub fn eq_bytes(a: &[u8], b: &[u8]) -> (r: bool)
    ensures
        r == (a@ == b@),
{
    if a.len() != b.len() {
        assert(a@ != b@);
        return false;
    }
    let n = a.len();
    let mut i: usize = 0;
    while i < n
        invariant
            n == a@.len() == b@.len(),
            0 <= i <= n,
            forall|j: int| 0 <= j < i ==> a@[j] == b@[j],
        decreases n - i,
    {
        if a[i] != b[i] {
            return false;
        }
        i += 1;
    }
    assert(a@ =~= b@);
    true
}

/// The UTF-8 bytes of a string; string literals in contracts are
/// compared through this form.
pub open spec fn lit(s: Seq<char>) -> Seq<u8> {
    vstd::utf8::encode_utf8(s)
}

/// `a` is what remains of `b` after consuming a prefix.
pub open spec fn is_suffix_of(a: Seq<u8>, b: Seq<u8>) -> bool {
    exists|k: int| 0 <= k <= b.len() && a == b.skip(k)
}

/// Every sequence is a suffix of itself.
pub proof fn lemma_suffix_refl(b: Seq<u8>)
    ensures
        is_suffix_of(b, b),
{
    assert(b.skip(0) =~= b);
    assert(0 <= 0 <= b.len() && b == b.skip(0));
}

/// Consuming a prefix leaves a suffix.
pub proof fn lemma_skip_suffix(b: Seq<u8>, k: int)
    requires
        0 <= k <= b.len(),
    ensures
        is_suffix_of(b.skip(k), b),
{
    assert(0 <= k <= b.len() && b.skip(k) == b.skip(k));
}

/// A suffix of a suffix is a suffix.
pub proof fn lemma_suffix_trans(a: Seq<u8>, b: Seq<u8>, c: Seq<u8>)
    requires
        is_suffix_of(a, b),
        is_suffix_of(b, c),
    ensures
        is_suffix_of(a, c),
{
    let k1 = choose|k: int| 0 <= k <= b.len() && a == b.skip(k);
    let k2 = choose|k: int| 0 <= k <= c.len() && b == c.skip(k);
    assert(c.skip(k2).skip(k1) =~= c.skip(k1 + k2));
    assert(a == c.skip(k1 + k2));
}

/// Relies on `String::from_utf8`: ASCII bytes are valid UTF-8 and
/// decode to one character per byte.
#[verifier::external_body]
pub fn ascii_to_string(b: Vec<u8>) -> (r: String)
    requires
        forall|i: int| 0 <= i < b@.len() ==> b@[i] < 128,
    ensures
        r@.len() == b@.len(),
        forall|i: int| 0 <= i < b@.len() ==> r@[i] == b@[i] as char,
{
    String::from_utf8(b).unwrap_or_default()
}

/// Relies on `core::str::from_utf8`: it succeeds exactly on valid UTF-8
/// input, and the returned string slice has the input as its bytes.
#[verifier::external_body]
pub fn str_from_utf8(src: &[u8]) -> (r: Option<&str>)
    ensures
        match r {
            Some(s) => vstd::string::StringSliceAdditionalSpecFns::spec_bytes(s) == src@
                && vstd::utf8::valid_utf8(src@),
            None => !vstd::utf8::valid_utf8(src@),
        },
{
    core::str::from_utf8(src).ok()
}

} // verus!
