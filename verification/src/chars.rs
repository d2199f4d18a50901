//! Character-level helpers for header parsing: whitespace trimming,
//! ASCII case-insensitive comparison, and character search.

use vstd::prelude::*;

verus! {

/// ASCII whitespace, as trimmed from header tokens and values.
pub open spec fn ws(c: char) -> bool {
    c == ' ' || c == '\t' || c == '\r' || c == '\n' || c == '\u{b}' || c == '\u{c}'
}

/// A code point mapped to its ASCII lower-case form.
pub open spec fn lower32(x: u32) -> u32 {
    if 65 <= x <= 90 {
        (x + 32) as u32
    } else {
        x
    }
}

/// ASCII case-insensitive equality of two character sequences.
pub open spec fn eq_ci_chars(a: Seq<char>, b: Seq<char>) -> bool {
    a.len() == b.len() && forall|i: int|
        0 <= i < a.len() ==> lower32(#[trigger] a[i] as u32) == lower32(b[i] as u32)
}

/// The position of the first occurrence of `c` in `s` at or after `i`.
pub open spec fn find_char_from(s: Seq<char>, c: char, i: int) -> Option<int>
    decreases s.len() - i when 0 <= i <= s.len()
{
    if i < 0 || i >= s.len() {
        None
    } else if s[i] == c {
        Some(i)
    } else {
        find_char_from(s, c, i + 1)
    }
}

/// `find_char_from` finds exactly the first occurrence at or after
/// `from`.
pub proof fn lemma_find_char_from(s: Seq<char>, c: char, from: int)
    requires
        0 <= from <= s.len(),
    ensures
        match find_char_from(s, c, from) {
            Some(i) => from <= i < s.len() && s[i] == c && forall|j: int|
                from <= j < i ==> s[j] != c,
            None => forall|j: int| from <= j < s.len() ==> s[j] != c,
        },
    decreases s.len() - from,
{
    if from < s.len() && s[from] != c {
        lemma_find_char_from(s, c, from + 1);
    }
}

/// The position of the first non-whitespace character at or after `i`,
/// or the length when there is none.
pub open spec fn first_non_ws(s: Seq<char>, i: int) -> int
    decreases s.len() - i when 0 <= i <= s.len()
{
    if i < 0 || i >= s.len() {
        s.len() as int
    } else if !ws(s[i]) {
        i
    } else {
        first_non_ws(s, i + 1)
    }
}

/// One past the position of the last non-whitespace character strictly
/// before `i`, or zero when there is none.
pub open spec fn last_non_ws(s: Seq<char>, i: int) -> int
    decreases i when 0 <= i <= s.len()
{
    if i <= 0 {
        0
    } else if !ws(s[i - 1]) {
        i
    } else {
        last_non_ws(s, i - 1)
    }
}

/// Everything before the first non-whitespace position is whitespace.
pub proof fn lemma_first_non_ws(s: Seq<char>, from: int)
    requires
        0 <= from <= s.len(),
    ensures
        from <= first_non_ws(s, from) <= s.len(),
        forall|j: int| from <= j < first_non_ws(s, from) ==> ws(s[j]),
        first_non_ws(s, from) < s.len() ==> !ws(s[first_non_ws(s, from)]),
    decreases s.len() - from,
{
    if from < s.len() && ws(s[from]) {
        lemma_first_non_ws(s, from + 1);
    }
}

/// Scanning backwards over whitespace-only territory reaches zero.
pub proof fn lemma_last_non_ws_all_ws(s: Seq<char>, i: int)
    requires
        0 <= i <= s.len(),
        forall|j: int| 0 <= j < i ==> ws(s[j]),
    ensures
        last_non_ws(s, i) == 0,
    decreases i,
{
    if i > 0 {
        lemma_last_non_ws_all_ws(s, i - 1);
    }
}

/// `s` with leading and trailing ASCII whitespace removed.
pub open spec fn trim(s: Seq<char>) -> Seq<char> {
    let a = first_non_ws(s, 0);
    let b = last_non_ws(s, s.len() as int);
    if a >= b {
        Seq::<char>::empty()
    } else {
        s.subrange(a, b)
    }
}

/// The position of the first occurrence of `c` in `s` at or after
/// `from`.
pub fn find_char(s: &str, c: char, from: usize) -> (r: Option<usize>)
    requires
        from <= s@.len(),
    ensures
        match r {
            Some(i) => find_char_from(s@, c, from as int) == Some(i as int) && from <= i < s@.len(),
            None => find_char_from(s@, c, from as int) is None,
        },
{
    let n = s.unicode_len();
    let mut i: usize = from;
    while i < n
        invariant
            n == s@.len(),
            from <= i <= n,
            find_char_from(s@, c, from as int) == find_char_from(s@, c, i as int),
        decreases n - i,
    {
        if s.get_char(i) == c {
            return Some(i);
        }
        i += 1;
    }
    None
}

/// ASCII case-insensitive comparison of two strings.
pub fn eq_ci_str(a: &str, b: &str) -> (r: bool)
    ensures
        r == eq_ci_chars(a@, b@),
{
    let na = a.unicode_len();
    let nb = b.unicode_len();
    if na != nb {
        return false;
    }
    let mut i: usize = 0;
    while i < na
        invariant
            na == a@.len() == b@.len(),
            0 <= i <= na,
            forall|j: int| 0 <= j < i ==> lower32(#[trigger] a@[j] as u32) == lower32(b@[j] as u32),
        decreases na - i,
    {
        let x = a.get_char(i) as u32;
        let y = b.get_char(i) as u32;
        let xl = if 65 <= x && x <= 90 {
            x + 32
        } else {
            x
        };
        let yl = if 65 <= y && y <= 90 {
            y + 32
        } else {
            y
        };
        if xl != yl {
            return false;
        }
        i += 1;
    }
    true
}

/// `s` with leading and trailing ASCII whitespace removed, as an owned
/// string.
pub fn trim_str(s: &str) -> (r: String)
    ensures
        r@ == trim(s@),
{
    let n = s.unicode_len();
    let mut a: usize = 0;
    while a < n && is_ws(s.get_char(a))
        invariant
            n == s@.len(),
            0 <= a <= n,
            first_non_ws(s@, 0) == first_non_ws(s@, a as int),
        decreases n - a,
    {
        a += 1;
    }
    assert(first_non_ws(s@, 0) == a as int);
    let mut b: usize = n;
    while b > a && is_ws(s.get_char(b - 1))
        invariant
            n == s@.len(),
            a <= b <= n,
            a == first_non_ws(s@, 0),
            last_non_ws(s@, n as int) == last_non_ws(s@, b as int),
        decreases b,
    {
        b -= 1;
    }
    if a >= b {
        proof {
            lemma_first_non_ws(s@, 0);
            lemma_last_non_ws_all_ws(s@, a as int);
        }
        String::new()
    } else {
        assert(!ws(s@[b - 1]));
        assert(last_non_ws(s@, n as int) == b as int);
        let sub = s.substring_char(a, b);
        sub.to_owned()
    }
}

/// Whether `c` is ASCII whitespace.
pub fn is_ws(c: char) -> (r: bool)
    ensures
        r == ws(c),
{
    c == ' ' || c == '\t' || c == '\r' || c == '\n' || c == '\u{b}' || c == '\u{c}'
}

} // verus!
