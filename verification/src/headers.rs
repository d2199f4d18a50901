//! Per-part headers: an ordered list of raw name/value pairs with
//! case-insensitive lookup, parsed from the header block of a part.

use vstd::prelude::*;

verus! {

/// The greatest number of headers accepted in one part.
pub const MAX_HEADERS: usize = 32;

/// A byte mapped to its ASCII lower-case form.
pub open spec fn lower_byte(b: u8) -> u8 {
    if 65 <= b <= 90 {
        (b + 32) as u8
    } else {
        b
    }
}

/// ASCII case-insensitive equality of two byte sequences.
pub open spec fn eq_ci(a: Seq<u8>, b: Seq<u8>) -> bool {
    a.len() == b.len() && forall|i: int| 0 <= i < a.len() ==> lower_byte(a[i]) == lower_byte(b[i])
}

/// ASCII case-insensitive comparison of two byte slices.
pub fn eq_bytes_ci(a: &[u8], b: &[u8]) -> (r: bool)
    ensures
        r == eq_ci(a@, b@),
{
    if a.len() != b.len() {
        return false;
    }
    let n = a.len();
    let mut i: usize = 0;
    while i < n
        invariant
            n == a@.len() == b@.len(),
            0 <= i <= n,
            forall|j: int| 0 <= j < i ==> lower_byte(a@[j]) == lower_byte(b@[j]),
        decreases n - i,
    {
        let x = a[i];
        let y = b[i];
        let xl = if 65 <= x && x <= 90 {
            x + 32
        } else {
            x
        };
        let yl = if 65 <= y && y <= 90 {
            y + 32
        } else {
            y
        };
        if xl != yl {
            return false;
        }
        i += 1;
    }
    true
}

/// One raw header: a name and a value, both as the bytes that appeared
/// on the wire.
pub struct HeaderEntry {
    pub name: Vec<u8>,
    pub value: Vec<u8>,
}

impl View for HeaderEntry {
    type V = (Seq<u8>, Seq<u8>);

    open spec fn view(&self) -> (Seq<u8>, Seq<u8>) {
        (self.name@, self.value@)
    }
}

/// The headers of one part, in the order they appeared.
pub struct Headers {
    pub entries: Vec<HeaderEntry>,
}

impl View for Headers {
    type V = Seq<(Seq<u8>, Seq<u8>)>;

    open spec fn view(&self) -> Seq<(Seq<u8>, Seq<u8>)> {
        Seq::new(self.entries@.len(), |i: int| self.entries@[i]@)
    }
}

/// The value of the first header at or after position `i` whose name
/// equals `name` up to ASCII case.
pub open spec fn lookup_from(hs: Seq<(Seq<u8>, Seq<u8>)>, name: Seq<u8>, i: int) -> Option<Seq<u8>>
    decreases hs.len() - i when 0 <= i <= hs.len()
{
    if i < 0 || i >= hs.len() {
        None
    } else if eq_ci(hs[i].0, name) {
        Some(hs[i].1)
    } else {
        lookup_from(hs, name, i + 1)
    }
}

/// The value of the first header whose name equals `name` up to ASCII
/// case.
pub open spec fn lookup(hs: Seq<(Seq<u8>, Seq<u8>)>, name: Seq<u8>) -> Option<Seq<u8>> {
    lookup_from(hs, name, 0)
}

impl Headers {
    /// An empty header list.
    pub fn new() -> (r: Headers)
        ensures
            r@ == Seq::<(Seq<u8>, Seq<u8>)>::empty(),
    {
        let h = Headers { entries: Vec::new() };
        proof {
            assert(h@ =~= Seq::<(Seq<u8>, Seq<u8>)>::empty());
        }
        h
    }

    /// The number of headers.
    pub fn len(&self) -> (r: usize)
        ensures
            r == self@.len(),
    {
        self.entries.len()
    }

    /// The value of the first header whose name matches `name` up to
    /// ASCII case, copied out.
    pub fn get(&self, name: &[u8]) -> (r: Option<Vec<u8>>)
        ensures
            match r {
                Some(v) => lookup(self@, name@) == Some(v@),
                None => lookup(self@, name@) is None,
            },
    {
        let n = self.entries.len();
        let mut i: usize = 0;
        while i < n
            invariant
                n == self.entries@.len(),
                0 <= i <= n,
                lookup(self@, name@) == lookup_from(self@, name@, i as int),
            decreases n - i,
        {
            if eq_bytes_ci(self.entries[i].name.as_slice(), name) {
                return Some(vstd::slice::slice_to_vec(self.entries[i].value.as_slice()));
            }
            i += 1;
        }
        None
    }
}

/// What `httparse` makes of a header block: the parsed name/value pairs,
/// or nothing when the block is malformed, truncated, or holds more than
/// `max` headers.
pub uninterp spec fn parsed_headers(src: Seq<u8>, max: int) -> Option<Seq<(Seq<u8>, Seq<u8>)>>;

/// Relies on `httparse::parse_headers`: it parses a block of HTTP
/// headers terminated by an empty line into at most `max` name/value
/// pairs, returning an error or a partial status (both collapsed to
/// `None` here) when the block is malformed, unterminated, or too long.
/// The outcome is a function of the input bytes and `max` alone.
#[verifier::external_body]
pub(crate) fn parse_header_block(src: &[u8], max: usize) -> (r: Option<Headers>)
    ensures
        match r {
            Some(h) => parsed_headers(src@, max as int) == Some(h@),
            None => parsed_headers(src@, max as int) is None,
        },
{
    let mut slots = vec![httparse::EMPTY_HEADER; max];
    match httparse::parse_headers(src, &mut slots) {
        Ok(httparse::Status::Complete((_, parsed))) => Some(Headers {
            entries: parsed
                .iter()
                .map(|h| HeaderEntry { name: h.name.as_bytes().to_vec(), value: h.value.to_vec() })
                .collect(),
        }),
        _ => None,
    }
}

/// Whether every byte is an ASCII decimal digit.
pub open spec fn all_digits(s: Seq<u8>) -> bool {
    forall|i: int| 0 <= i < s.len() ==> 48 <= #[trigger] s[i] <= 57
}

/// The value of a sequence of ASCII decimal digits.
pub open spec fn dec_value(s: Seq<u8>) -> int
    decreases s.len(),
{
    if s.len() == 0 {
        0
    } else {
        dec_value(s.drop_last()) * 10 + (s.last() - 48)
    }
}

proof fn lemma_dec_value_nonneg(s: Seq<u8>)
    requires
        all_digits(s),
    ensures
        dec_value(s) >= 0,
    decreases s.len(),
{
    if s.len() > 0 {
        assert(all_digits(s.drop_last()));
        lemma_dec_value_nonneg(s.drop_last());
    }
}

/// Parse a non-empty, all-digit byte sequence as a decimal number.
/// Returns `None` when the input is empty, holds a non-digit, or does
/// not fit in a `u64`.
pub fn parse_u64(s: &[u8]) -> (r: Option<u64>)
    ensures
        match r {
            Some(v) => s@.len() > 0 && all_digits(s@) && v == dec_value(s@),
            None => s@.len() == 0 || !all_digits(s@) || dec_value(s@) > u64::MAX,
        },
{
    if s.len() == 0 {
        return None;
    }
    let n = s.len();
    let mut acc: u64 = 0;
    let mut i: usize = 0;
    while i < n
        invariant
            n == s@.len(),
            0 <= i <= n,
            all_digits(s@.take(i as int)),
            acc == dec_value(s@.take(i as int)),
        decreases n - i,
    {
        let b = s[i];
        if b < 48 || b > 57 {
            assert(!all_digits(s@));
            return None;
        }
        let d = (b - 48) as u64;
        proof {
            assert(s@.take(i + 1).drop_last() =~= s@.take(i as int));
            assert(all_digits(s@.take(i + 1)));
        }
        let next = match acc.checked_mul(10) {
            Some(m) => match m.checked_add(d) {
                Some(v) => v,
                None => {
                    proof {
                        lemma_dec_too_big(s@, i as int);
                    }
                    return None;
                },
            },
            None => {
                proof {
                    lemma_dec_too_big(s@, i as int);
                }
                return None;
            },
        };
        acc = next;
        i += 1;
    }
    proof {
        assert(s@.take(n as int) =~= s@);
    }
    Some(acc)
}

/// When one digit step already exceeds `u64::MAX`, the value of the
/// whole digit string does too.
proof fn lemma_dec_too_big(s: Seq<u8>, i: int)
    requires
        0 <= i < s.len(),
        all_digits(s.take(i + 1)),
        dec_value(s.take(i)) * 10 + (s[i] - 48) > u64::MAX,
    ensures
        !all_digits(s) || dec_value(s) > u64::MAX,
{
    if all_digits(s) {
        assert(s.take(i + 1).drop_last() =~= s.take(i));
        assert(s.take(i + 1).last() == s[i]);
        assert(dec_value(s.take(i + 1)) > u64::MAX);
        lemma_dec_value_grows(s, i + 1);
    }
}

/// For an all-digit string, the value of a prefix never exceeds the
/// value of the whole.
proof fn lemma_dec_value_grows(s: Seq<u8>, i: int)
    requires
        all_digits(s),
        0 <= i <= s.len(),
    ensures
        dec_value(s) >= dec_value(s.take(i)),
    decreases s.len() - i,
{
    if i < s.len() {
        assert(all_digits(s.take(i)));
        lemma_dec_value_nonneg(s.take(i));
        assert(s.take(i + 1).drop_last() =~= s.take(i));
        assert(dec_value(s.take(i + 1)) == dec_value(s.take(i)) * 10 + (s[i] - 48));
        assert(dec_value(s.take(i + 1)) >= dec_value(s.take(i)));
        lemma_dec_value_grows(s, i + 1);
        assert(s.take(s.len() as int) =~= s);
    } else {
        assert(s.take(s.len() as int) =~= s);
    }
}

} // verus!
