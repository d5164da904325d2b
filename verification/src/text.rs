//! Text primitives: the library's case policy, substring search, and
//! splicing, on character vectors with exact sequence-level specifications.

use vstd::prelude::*;

verus! {

// ---------------------------------------------------------------------------
// Case policy: ASCII lower-casing, applied character by character.
// ---------------------------------------------------------------------------

/// ASCII lower-casing of a single character.
pub open spec fn lower_char(c: char) -> char {
    if 65 <= c as u32 && c as u32 <= 90 {
        ((c as u32 + 32) as u8) as char
    } else {
        c
    }
}

/// ASCII lower-casing of a character sequence.
pub open spec fn lower_seq(s: Seq<char>) -> Seq<char> {
    Seq::new(s.len(), |i: int| lower_char(s[i]))
}

/// A decimal digit.
pub open spec fn is_digit_char(c: char) -> bool {
    48 <= c as u32 && c as u32 <= 57
}

/// An ASCII alphanumeric character.
pub open spec fn is_alnum_char(c: char) -> bool {
    is_digit_char(c) || (65 <= c as u32 && c as u32 <= 90) || (97 <= c as u32 && c as u32 <= 122)
}

/// Non-empty and ASCII-alphanumeric throughout: the shape of a usable
/// reference name.
pub open spec fn is_alnum_seq(s: Seq<char>) -> bool {
    s.len() > 0 && forall|i: int| 0 <= i < s.len() ==> is_alnum_char(s[i])
}

fn lower_char_x(c: char) -> (r: char)
    ensures
        r == lower_char(c),
{
    let u = c as u32;
    if 65 <= u && u <= 90 {
        ((u + 32) as u8) as char
    } else {
        c
    }
}

fn is_alnum_char_x(c: char) -> (r: bool)
    ensures
        r == is_alnum_char(c),
{
    let u = c as u32;
    (48 <= u && u <= 57) || (65 <= u && u <= 90) || (97 <= u && u <= 122)
}

fn is_digit_char_x(c: char) -> (r: bool)
    ensures
        r == is_digit_char(c),
{
    let u = c as u32;
    48 <= u && u <= 57
}

/// ASCII lower-casing of a whole character vector.
pub fn lower_chars(s: &Vec<char>) -> (r: Vec<char>)
    ensures
        r@ == lower_seq(s@),
{
    let mut r: Vec<char> = Vec::new();
    let mut i: usize = 0;
    while i < s.len()
        invariant
            i <= s@.len(),
            r@.len() == i as int,
            forall|k: int| 0 <= k < i ==> r@[k] == lower_char(s@[k]),
        decreases s@.len() - i,
    {
        r.push(lower_char_x(s[i]));
        i = i + 1;
    }
    assert(r@ =~= lower_seq(s@));
    r
}

// ---------------------------------------------------------------------------
// Boundary conversions between strings and character vectors.
// ---------------------------------------------------------------------------

/// The characters of a string slice, in order.
pub fn to_chars(s: &str) -> (r: Vec<char>)
    ensures
        r@ == s@,
{
    let n = s.unicode_len();
    let mut r: Vec<char> = Vec::new();
    let mut i: usize = 0;
    while i < n
        invariant
            i <= n,
            n == s@.len(),
            r@ =~= s@.subrange(0, i as int),
        decreases n - i,
    {
        r.push(s.get_char(i));
        i = i + 1;
    }
    assert(r@ =~= s@);
    r
}

/// Relies on `String`'s `FromIterator` over characters: collecting the
/// characters of a vector yields the string of exactly those characters.
#[verifier::external_body]
pub fn chars_to_string(v: &Vec<char>) -> (r: String)
    ensures
        r@ == v@,
{
    v.iter().collect()
}

// ---------------------------------------------------------------------------
// Substring search.
// ---------------------------------------------------------------------------

/// `pat` occurs in `text` starting at position `i`.
pub open spec fn matches_at(text: Seq<char>, pat: Seq<char>, i: int) -> bool {
    0 <= i && i + pat.len() <= text.len() && text.subrange(i, i + pat.len()) == pat
}

/// The first occurrence of `pat` in `text` at or after position `from`.
pub open spec fn spec_find(text: Seq<char>, pat: Seq<char>, from: int) -> Option<int>
    decreases text.len() - from,
{
    if from < 0 || from + pat.len() > text.len() {
        None
    } else if matches_at(text, pat, from) {
        Some(from)
    } else if from >= text.len() {
        None
    } else {
        spec_find(text, pat, from + 1)
    }
}

/// A found position lies at or after `from`, matches, and is the first such;
/// a miss means no position at or after `from` matches.
pub proof fn lemma_find_props(text: Seq<char>, pat: Seq<char>, from: int)
    requires
        0 <= from,
    ensures
        match spec_find(text, pat, from) {
            Some(i) => from <= i && i + pat.len() <= text.len() && matches_at(text, pat, i)
                && forall|j: int| from <= j < i ==> !matches_at(text, pat, j),
            None => forall|j: int| from <= j ==> !matches_at(text, pat, j),
        },
    decreases text.len() - from,
{
    if from + pat.len() > text.len() {
    } else if matches_at(text, pat, from) {
    } else if from >= text.len() {
    } else {
        lemma_find_props(text, pat, from + 1);
    }
}

/// `Some`-position as a mathematical option.
pub open spec fn opt_int(o: Option<usize>) -> Option<int> {
    match o {
        Some(i) => Some(i as int),
        None => None,
    }
}

fn matches_at_x(text: &Vec<char>, pat: &Vec<char>, i: usize) -> (r: bool)
    requires
        i + pat@.len() <= text@.len(),
    ensures
        r == matches_at(text@, pat@, i as int),
{
    let n = text.len();
    let m = pat.len();
    let mut j: usize = 0;
    while j < m
        invariant
            j <= m,
            m == pat@.len(),
            n == text@.len(),
            i + m <= n,
            forall|k: int| 0 <= k < j ==> text@[i + k] == pat@[k],
        decreases m - j,
    {
        if text[i + j] != pat[j] {
            assert(text@.subrange(i as int, i + pat@.len())[j as int] != pat@[j as int]);
            return false;
        }
        j = j + 1;
    }
    assert(text@.subrange(i as int, i + pat@.len()) =~= pat@);
    true
}

/// First occurrence of `pat` in `text` at or after `from`.
pub fn find_at(text: &Vec<char>, pat: &Vec<char>, from: usize) -> (r: Option<usize>)
    ensures
        opt_int(r) == spec_find(text@, pat@, from as int),
    decreases text@.len() - from,
{
    if from > text.len() || pat.len() > text.len() - from {
        return None;
    }
    if matches_at_x(text, pat, from) {
        Some(from)
    } else {
        proof {
            if pat@.len() == 0 {
                assert(text@.subrange(from as int, from as int) =~= pat@);
            }
        }
        find_at(text, pat, from + 1)
    }
}

/// Case-insensitive first occurrence: search in the lower-cased text for the
/// lower-cased pattern.
pub fn find_at_ci(text: &Vec<char>, pat: &Vec<char>, from: usize) -> (r: Option<usize>)
    ensures
        opt_int(r) == spec_find(lower_seq(text@), lower_seq(pat@), from as int),
{
    let lt = lower_chars(text);
    let lp = lower_chars(pat);
    find_at(&lt, &lp, from)
}

// ---------------------------------------------------------------------------
// Slicing and splicing.
// ---------------------------------------------------------------------------

/// The characters of `text` from `i` (inclusive) to `j` (exclusive).
pub fn subrange_chars(text: &Vec<char>, i: usize, j: usize) -> (r: Vec<char>)
    requires
        i <= j && j <= text@.len(),
    ensures
        r@ == text@.subrange(i as int, j as int),
{
    let mut r: Vec<char> = Vec::new();
    let mut k: usize = i;
    while k < j
        invariant
            i <= k <= j <= text@.len(),
            r@ =~= text@.subrange(i as int, k as int),
        decreases j - k,
    {
        r.push(text[k]);
        assert(r@ =~= text@.subrange(i as int, k + 1 as int));
        k = k + 1;
    }
    r
}

/// `a` followed by `b`.
pub fn concat_chars(a: &Vec<char>, b: &Vec<char>) -> (r: Vec<char>)
    ensures
        r@ == a@ + b@,
{
    let mut r: Vec<char> = Vec::new();
    let mut k: usize = 0;
    while k < a.len()
        invariant
            k <= a@.len(),
            r@ =~= a@.subrange(0, k as int),
        decreases a@.len() - k,
    {
        r.push(a[k]);
        assert(r@ =~= a@.subrange(0, k + 1 as int));
        k = k + 1;
    }
    let mut k2: usize = 0;
    while k2 < b.len()
        invariant
            k2 <= b@.len(),
            r@ =~= a@ + b@.subrange(0, k2 as int),
        decreases b@.len() - k2,
    {
        r.push(b[k2]);
        assert(r@ =~= a@ + b@.subrange(0, k2 + 1 as int));
        k2 = k2 + 1;
    }
    assert(r@ =~= a@ + b@);
    r
}

/// `text` with the range `i..j` replaced by `rep`.
pub fn splice_chars(text: &Vec<char>, i: usize, j: usize, rep: &Vec<char>) -> (r: Vec<char>)
    requires
        i <= j && j <= text@.len(),
    ensures
        r@ == text@.subrange(0, i as int) + rep@ + text@.subrange(j as int, text@.len() as int),
{
    let pre = subrange_chars(text, 0, i);
    let post = subrange_chars(text, j, text.len());
    let front = concat_chars(&pre, rep);
    concat_chars(&front, &post)
}

/// Non-empty and ASCII-alphanumeric throughout.
pub fn is_alnum_chars(s: &Vec<char>) -> (r: bool)
    ensures
        r == is_alnum_seq(s@),
{
    if s.len() == 0 {
        return false;
    }
    let mut i: usize = 0;
    while i < s.len()
        invariant
            i <= s@.len(),
            forall|k: int| 0 <= k < i ==> is_alnum_char(s@[k]),
        decreases s@.len() - i,
    {
        if !is_alnum_char_x(s[i]) {
            return false;
        }
        i = i + 1;
    }
    true
}

/// The first position at or after `from` holding a non-digit (or the end).
pub open spec fn spec_digits_end(text: Seq<char>, from: int) -> int
    decreases text.len() - from,
{
    if from < 0 || from >= text.len() {
        from
    } else if is_digit_char(text[from]) {
        spec_digits_end(text, from + 1)
    } else {
        from
    }
}

/// Scanning digits only moves forward, and never past the end.
pub proof fn lemma_digits_end_bounds(text: Seq<char>, from: int)
    requires
        0 <= from <= text.len(),
    ensures
        from <= spec_digits_end(text, from) <= text.len(),
    decreases text.len() - from,
{
    if from < text.len() && is_digit_char(text[from]) {
        lemma_digits_end_bounds(text, from + 1);
    }
}

/// First non-digit position at or after `from`.
pub fn digits_end(text: &Vec<char>, from: usize) -> (r: usize)
    requires
        from <= text@.len(),
    ensures
        r == spec_digits_end(text@, from as int),
        from <= r <= text@.len(),
    decreases text@.len() - from,
{
    proof {
        lemma_digits_end_bounds(text@, from as int);
    }
    if from >= text.len() {
        return from;
    }
    if is_digit_char_x(text[from]) {
        digits_end(text, from + 1)
    } else {
        from
    }
}

} // verus!
