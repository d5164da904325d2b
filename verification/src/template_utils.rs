//! Shared scanning helpers of the templating language: reference-name
//! checking, the matching-brace rule for block close tags, removal of unused
//! slot keys, and first-occurrence case-insensitive replacement.

use vstd::prelude::*;
use crate::text::{
    lower_seq, is_alnum_seq, matches_at, spec_find, spec_digits_end, opt_int, lemma_find_props,
    lemma_digits_end_bounds, to_chars, chars_to_string, find_at, find_at_ci, lower_chars,
    subrange_chars, concat_chars, splice_chars, is_alnum_chars, digits_end,
};

verus! {

// ---------------------------------------------------------------------------
// Token spellings.
// ---------------------------------------------------------------------------

/// The marker that opens a slot key or a slot block body: everything between
/// this marker and the closing braces, with an optional digit run, names a
/// slot.
pub open spec fn slot_key_marker() -> Seq<char> {
    "{{$HTMLPLACEHOLDER"@
}

/// The two closing braces of any token.
pub open spec fn braces_close() -> Seq<char> {
    "}}"@
}

pub(crate) fn slot_key_marker_vec() -> (r: Vec<char>)
    ensures
        r@ == slot_key_marker(),
{
    to_chars("{{$HTMLPLACEHOLDER")
}

pub(crate) fn braces_close_vec() -> (r: Vec<char>)
    ensures
        r@ == braces_close(),
{
    to_chars("}}")
}

// ---------------------------------------------------------------------------
// Equality of character vectors, case-sensitive and case-insensitive.
// ---------------------------------------------------------------------------

/// Equality of two character vectors.
pub fn chars_eq(a: &Vec<char>, b: &Vec<char>) -> (r: bool)
    ensures
        r == (a@ == b@),
{
    if a.len() != b.len() {
        return false;
    }
    let mut i: usize = 0;
    while i < a.len()
        invariant
            i <= a@.len(),
            a@.len() == b@.len(),
            forall|k: int| 0 <= k < i ==> a@[k] == b@[k],
        decreases a@.len() - i,
    {
        if a[i] != b[i] {
            return false;
        }
        i = i + 1;
    }
    assert(a@ =~= b@);
    true
}

/// Case-insensitive equality under the library's ASCII case policy.
pub fn chars_eq_ci(a: &Vec<char>, b: &Vec<char>) -> (r: bool)
    ensures
        r == (lower_seq(a@) == lower_seq(b@)),
{
    let la = lower_chars(a);
    let lb = lower_chars(b);
    chars_eq(&la, &lb)
}

// ---------------------------------------------------------------------------
// The matching-brace rule.
// ---------------------------------------------------------------------------

/// The position of the close tag that matches an already-open tag, scanning
/// from `pos` with `count` opens outstanding: a nested open of the same name
/// raises the count, a close lowers it, and the close that brings it to zero
/// is the match.
pub open spec fn spec_find_close(
    text: Seq<char>,
    open: Seq<char>,
    close: Seq<char>,
    pos: int,
    count: nat,
) -> Option<int>
    decreases text.len() - pos,
    when 0 < open.len() && 0 < close.len() && 0 <= pos
    via spec_find_close_dec
{
    match spec_find(text, close, pos) {
        None => None,
        Some(c) => {
            match spec_find(text, open, pos) {
                Some(o) => {
                    if o < c {
                        spec_find_close(text, open, close, o + open.len(), count + 1)
                    } else if count <= 1 {
                        Some(c)
                    } else {
                        spec_find_close(text, open, close, c + close.len(), (count - 1) as nat)
                    }
                },
                None => {
                    if count <= 1 {
                        Some(c)
                    } else {
                        spec_find_close(text, open, close, c + close.len(), (count - 1) as nat)
                    }
                },
            }
        },
    }
}

#[via_fn]
proof fn spec_find_close_dec(text: Seq<char>, open: Seq<char>, close: Seq<char>, pos: int, count: nat) {
    lemma_find_props(text, close, pos);
    lemma_find_props(text, open, pos);
}

/// A matched close tag lies at or after the scan start and really is an
/// occurrence of the close tag.
pub proof fn lemma_find_close_props(
    text: Seq<char>,
    open: Seq<char>,
    close: Seq<char>,
    pos: int,
    count: nat,
)
    requires
        0 < open.len(),
        0 < close.len(),
        0 <= pos,
    ensures
        match spec_find_close(text, open, close, pos, count) {
            Some(c) => pos <= c && matches_at(text, close, c),
            None => true,
        },
    decreases text.len() - pos,
{
    lemma_find_props(text, close, pos);
    lemma_find_props(text, open, pos);
    match spec_find(text, close, pos) {
        None => {},
        Some(c) => {
            match spec_find(text, open, pos) {
                Some(o) => {
                    if o < c {
                        lemma_find_close_props(text, open, close, o + open.len(), count + 1);
                    } else if count > 1 {
                        lemma_find_close_props(text, open, close, c + close.len(), (count - 1) as nat);
                    }
                },
                None => {
                    if count > 1 {
                        lemma_find_close_props(text, open, close, c + close.len(), (count - 1) as nat);
                    }
                },
            }
        },
    }
}

pub(crate) fn find_close_from(
    text: &Vec<char>,
    open: &Vec<char>,
    close: &Vec<char>,
    pos: usize,
    count: usize,
) -> (r: Option<usize>)
    requires
        0 < open@.len(),
        0 < close@.len(),
        1 <= count,
        count <= pos + 1,
    ensures
        opt_int(r) == spec_find_close(text@, open@, close@, pos as int, count as nat),
    decreases text@.len() - pos,
{
    let n = text.len();
    proof {
        lemma_find_props(text@, close@, pos as int);
        lemma_find_props(text@, open@, pos as int);
    }
    let nc = find_at(text, close, pos);
    match nc {
        None => None,
        Some(c) => {
            let no = find_at(text, open, pos);
            match no {
                Some(o) => {
                    if o < c {
                        assert(count + 1 <= c + 1 && c + close@.len() <= n);
                        find_close_from(text, open, close, o + open.len(), count + 1)
                    } else if count <= 1 {
                        Some(c)
                    } else {
                        find_close_from(text, open, close, c + close.len(), count - 1)
                    }
                },
                None => {
                    if count <= 1 {
                        Some(c)
                    } else {
                        find_close_from(text, open, close, c + close.len(), count - 1)
                    }
                },
            }
        },
    }
}

// ---------------------------------------------------------------------------
// Removing unused slot keys.
// ---------------------------------------------------------------------------

/// The text with every slot key (`{{$HTMLPLACEHOLDER}}`, with an optional
/// digit run before the braces) removed, scanning from `pos`; a marker not
/// closed by braces right after its digits is skipped.
pub open spec fn spec_remove_slot_keys(text: Seq<char>, pos: int) -> Seq<char>
    decreases text.len(), text.len() - pos,
    when 0 <= pos
    via spec_remove_slot_keys_dec
{
    match spec_find(text, slot_key_marker(), pos) {
        None => text,
        Some(i) => {
            let d = spec_digits_end(text, i + slot_key_marker().len());
            if matches_at(text, braces_close(), d) {
                spec_remove_slot_keys(
                    text.subrange(0, i) + text.subrange(d + 2, text.len() as int),
                    pos,
                )
            } else {
                spec_remove_slot_keys(text, i + 1)
            }
        },
    }
}

#[via_fn]
proof fn spec_remove_slot_keys_dec(text: Seq<char>, pos: int) {
    reveal_strlit("{{$HTMLPLACEHOLDER");
    reveal_strlit("}}");
    lemma_find_props(text, slot_key_marker(), pos);
    match spec_find(text, slot_key_marker(), pos) {
        None => {},
        Some(i) => {
            lemma_digits_end_bounds(text, i + slot_key_marker().len());
        },
    }
}

pub(crate) fn remove_slot_keys_chars(text: &Vec<char>, pos: usize) -> (r: Vec<char>)
    ensures
        r@ == spec_remove_slot_keys(text@, pos as int),
    decreases text@.len(), text@.len() - pos,
{
    let n = text.len();
    let marker = slot_key_marker_vec();
    let braces = braces_close_vec();
    proof {
        reveal_strlit("}}");
        reveal_strlit("{{$HTMLPLACEHOLDER");
        lemma_find_props(text@, marker@, pos as int);
    }
    match find_at(text, &marker, pos) {
        None => text.clone(),
        Some(i) => {
            proof {
                lemma_digits_end_bounds(text@, i + marker@.len());
            }
            let d = digits_end(text, i + marker.len());
            if n - d >= 2 {
                let br = subrange_chars(text, d, d + 2);
                if chars_eq(&br, &braces) {
                    let next = splice_chars(text, i, d + 2, &Vec::new());
                    assert(next@ =~= text@.subrange(0, i as int) + text@.subrange(
                        d + 2,
                        text@.len() as int,
                    ));
                    return remove_slot_keys_chars(&next, pos);
                }
                assert(!matches_at(text@, braces_close(), d as int));
                remove_slot_keys_chars(text, i + 1)
            } else {
                assert(!matches_at(text@, braces_close(), d as int));
                remove_slot_keys_chars(text, i + 1)
            }
        },
    }
}

// ---------------------------------------------------------------------------
// First-occurrence case-insensitive replacement.
// ---------------------------------------------------------------------------

/// The text with the first case-insensitive occurrence of `pat` replaced by
/// `rep`; the text is unchanged when `pat` does not occur.
pub open spec fn spec_replace_first_ci(text: Seq<char>, pat: Seq<char>, rep: Seq<char>) -> Seq<
    char,
> {
    match spec_find(lower_seq(text), lower_seq(pat), 0) {
        Some(i) => text.subrange(0, i) + rep + text.subrange(i + pat.len(), text.len() as int),
        None => text,
    }
}

pub(crate) fn replace_first_ci_chars(text: &Vec<char>, pat: &Vec<char>, rep: &Vec<char>) -> (r:
    Vec<char>)
    ensures
        r@ == spec_replace_first_ci(text@, pat@, rep@),
{
    let n = text.len();
    proof {
        lemma_find_props(lower_seq(text@), lower_seq(pat@), 0);
    }
    match find_at_ci(text, pat, 0) {
        Some(i) => {
            assert(i + pat@.len() <= n);
            splice_chars(text, i, i + pat.len(), rep)
        },
        None => text.clone(),
    }
}

// ---------------------------------------------------------------------------
// The public helpers.
// ---------------------------------------------------------------------------

pub struct TemplateUtils;

impl TemplateUtils {
    /// Non-empty and ASCII-alphanumeric throughout: the shape of a usable
    /// reference name.
    pub fn is_alphanumeric(str_: &str) -> (r: bool)
        ensures
            r == is_alnum_seq(str_@),
    {
        let v = to_chars(str_);
        is_alnum_chars(&v)
    }

    /// The character position of the close tag matching one open tag already
    /// seen before `start_pos`, under the matching-brace rule.
    pub fn find_matching_close_tag(
        content: &str,
        start_pos: usize,
        open_tag: &str,
        close_tag: &str,
    ) -> (r: Option<usize>)
        requires
            open_tag@.len() > 0,
            close_tag@.len() > 0,
        ensures
            opt_int(r) == spec_find_close(content@, open_tag@, close_tag@, start_pos as int, 1),
    {
        let text = to_chars(content);
        let open = to_chars(open_tag);
        let close = to_chars(close_tag);
        find_close_from(&text, &open, &close, start_pos, 1)
    }

    /// The text with every remaining slot key removed.
    pub fn remove_remaining_slot_placeholders(html: &str) -> (r: String)
        ensures
            r@ == spec_remove_slot_keys(html@, 0),
    {
        let text = to_chars(html);
        let out = remove_slot_keys_chars(&text, 0);
        chars_to_string(&out)
    }

    /// The text with the first case-insensitive occurrence of `from` replaced
    /// by `to`.
    pub fn replace_case_insensitive(text: &str, from: &str, to: &str) -> (r: String)
        ensures
            r@ == spec_replace_first_ci(text@, from@, to@),
    {
        let t = to_chars(text);
        let f = to_chars(from);
        let o = to_chars(to);
        let out = replace_first_ci_chars(&t, &f, &o);
        chars_to_string(&out)
    }
}

} // verus!
