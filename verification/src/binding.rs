//! JSON binding: array-block expansion, conditional blocks, empty-array
//! blocks and scalar substitution. Both engines evaluate bindings through
//! these functions, against one specification.

use vstd::prelude::*;
use crate::text::{
    lower_seq, matches_at, spec_find, opt_int, lemma_find_props, to_chars, find_at, find_at_ci,
    lower_chars, subrange_chars, concat_chars, splice_chars,
};
use crate::json::{
    JsonValue, JsonArray, JsonObject, spec_value_text, spec_truthy, spec_obj_get, spec_obj_get_ci,
    value_text, truthy,
};

verus! {

// ---------------------------------------------------------------------------
// Token spellings.
// ---------------------------------------------------------------------------

/// `{{$Key}}`: a scalar placeholder.
pub open spec fn scalar_token(k: Seq<char>) -> Seq<char> {
    seq!['{', '{', '$'] + k + seq!['}', '}']
}

/// `{{Name}}`: a simple reference.
pub open spec fn simple_token(k: Seq<char>) -> Seq<char> {
    seq!['{', '{'] + k + seq!['}', '}']
}

/// `{{@Tag}}`: an array or conditional block opener.
pub open spec fn block_open_tag(t: Seq<char>) -> Seq<char> {
    seq!['{', '{', '@'] + t + seq!['}', '}']
}

/// `{{/Tag}}`: a block closer.
pub open spec fn block_close_tag(t: Seq<char>) -> Seq<char> {
    seq!['{', '{', '/'] + t + seq!['}', '}']
}

/// `{{ /Tag}}`: the accepted spaced spelling of a block closer.
pub open spec fn block_close_tag_spaced(t: Seq<char>) -> Seq<char> {
    seq!['{', '{', ' ', '/'] + t + seq!['}', '}']
}

/// `{{^Tag}}`: an empty-array block opener.
pub open spec fn empty_open_tag(t: Seq<char>) -> Seq<char> {
    seq!['{', '{', '^'] + t + seq!['}', '}']
}

/// `{{#Name}}`: a slotted reference opener.
pub open spec fn slotted_open_tag(t: Seq<char>) -> Seq<char> {
    seq!['{', '{', '#'] + t + seq!['}', '}']
}

fn affix_tag(open: char, mid: Option<char>, t: &Vec<char>) -> (r: Vec<char>)
    ensures
        r@ == match mid {
            Some(m) => seq!['{', '{', open, m] + t@ + seq!['}', '}'],
            None => seq!['{', '{', open] + t@ + seq!['}', '}'],
        },
{
    let mut head: Vec<char> = Vec::new();
    head.push('{');
    head.push('{');
    head.push(open);
    match mid {
        Some(m) => head.push(m),
        None => (),
    }
    let mut out = concat_chars(&head, t);
    out.push('}');
    out.push('}');
    proof {
        match mid {
            Some(m) => {
                assert(out@ =~= seq!['{', '{', open, m] + t@ + seq!['}', '}']);
            },
            None => {
                assert(out@ =~= seq!['{', '{', open] + t@ + seq!['}', '}']);
            },
        }
    }
    out
}

pub(crate) fn scalar_token_vec(k: &Vec<char>) -> (r: Vec<char>)
    ensures
        r@ == scalar_token(k@),
{
    affix_tag('$', None, k)
}

pub(crate) fn simple_token_vec(k: &Vec<char>) -> (r: Vec<char>)
    ensures
        r@ == simple_token(k@),
{
    let mut head: Vec<char> = Vec::new();
    head.push('{');
    head.push('{');
    let mut out = concat_chars(&head, k);
    out.push('}');
    out.push('}');
    assert(out@ =~= simple_token(k@));
    out
}

pub(crate) fn block_open_tag_vec(t: &Vec<char>) -> (r: Vec<char>)
    ensures
        r@ == block_open_tag(t@),
{
    affix_tag('@', None, t)
}

pub(crate) fn block_close_tag_vec(t: &Vec<char>) -> (r: Vec<char>)
    ensures
        r@ == block_close_tag(t@),
{
    affix_tag('/', None, t)
}

pub(crate) fn block_close_tag_spaced_vec(t: &Vec<char>) -> (r: Vec<char>)
    ensures
        r@ == block_close_tag_spaced(t@),
{
    affix_tag(' ', Some('/'), t)
}

pub(crate) fn empty_open_tag_vec(t: &Vec<char>) -> (r: Vec<char>)
    ensures
        r@ == empty_open_tag(t@),
{
    affix_tag('^', None, t)
}

pub(crate) fn slotted_open_tag_vec(t: &Vec<char>) -> (r: Vec<char>)
    ensures
        r@ == slotted_open_tag(t@),
{
    affix_tag('#', None, t)
}

// ---------------------------------------------------------------------------
// Trimming.
// ---------------------------------------------------------------------------

/// An ASCII whitespace character.
pub open spec fn is_space_char(c: char) -> bool {
    c == ' ' || c == '\t' || c == '\n' || c == '\r'
}

/// The first non-whitespace position at or after `i`.
pub open spec fn spec_trim_start(s: Seq<char>, i: int) -> int
    decreases s.len() - i,
{
    if i < 0 || i >= s.len() {
        i
    } else if is_space_char(s[i]) {
        spec_trim_start(s, i + 1)
    } else {
        i
    }
}

/// The position just past the last non-whitespace character before `j`.
pub open spec fn spec_trim_end(s: Seq<char>, j: int) -> int
    decreases j,
{
    if j <= 0 {
        0
    } else if is_space_char(s[j - 1]) {
        spec_trim_end(s, j - 1)
    } else {
        j
    }
}

/// The text with leading and trailing ASCII whitespace removed.
pub open spec fn spec_trim(s: Seq<char>) -> Seq<char> {
    let a = spec_trim_start(s, 0);
    if a >= s.len() {
        Seq::<char>::empty()
    } else {
        s.subrange(a, spec_trim_end(s, s.len() as int))
    }
}

proof fn lemma_trim_start_bounds(s: Seq<char>, i: int)
    requires
        0 <= i <= s.len(),
    ensures
        i <= spec_trim_start(s, i) <= s.len(),
        spec_trim_start(s, i) < s.len() ==> !is_space_char(s[spec_trim_start(s, i)]),
    decreases s.len() - i,
{
    if i < s.len() && is_space_char(s[i]) {
        lemma_trim_start_bounds(s, i + 1);
    }
}

proof fn lemma_trim_end_bounds(s: Seq<char>, j: int, a: int)
    requires
        0 <= a < j <= s.len(),
        !is_space_char(s[a]),
    ensures
        a < spec_trim_end(s, j) <= j,
    decreases j,
{
    if is_space_char(s[j - 1]) {
        if a < j - 1 {
            lemma_trim_end_bounds(s, j - 1, a);
        }
    }
}

fn trim_start_x(s: &Vec<char>, i: usize) -> (r: usize)
    requires
        i <= s@.len(),
    ensures
        r == spec_trim_start(s@, i as int),
        i <= r <= s@.len(),
    decreases s@.len() - i,
{
    proof {
        lemma_trim_start_bounds(s@, i as int);
    }
    if i >= s.len() {
        i
    } else {
        let c = s[i];
        if c == ' ' || c == '\t' || c == '\n' || c == '\r' {
            trim_start_x(s, i + 1)
        } else {
            i
        }
    }
}

fn trim_end_x(s: &Vec<char>, j: usize) -> (r: usize)
    requires
        j <= s@.len(),
    ensures
        r == spec_trim_end(s@, j as int),
        r <= j,
    decreases j,
{
    if j == 0 {
        0
    } else {
        let c = s[j - 1];
        if c == ' ' || c == '\t' || c == '\n' || c == '\r' {
            trim_end_x(s, j - 1)
        } else {
            j
        }
    }
}

/// The text with leading and trailing ASCII whitespace removed.
pub(crate) fn trim_chars(s: &Vec<char>) -> (r: Vec<char>)
    ensures
        r@ == spec_trim(s@),
{
    proof {
        lemma_trim_start_bounds(s@, 0);
    }
    let a = trim_start_x(s, 0);
    if a >= s.len() {
        Vec::new()
    } else {
        proof {
            lemma_trim_end_bounds(s@, s@.len() as int, a as int);
        }
        let b = trim_end_x(s, s.len());
        subrange_chars(s, a, b)
    }
}

// ---------------------------------------------------------------------------
// Replace-all, case-sensitive and case-insensitive.
// ---------------------------------------------------------------------------

/// The text with every occurrence of `pat` replaced by `rep`, scanning left
/// to right; a replacement is not rescanned.
pub open spec fn spec_replace_all(text: Seq<char>, pat: Seq<char>, rep: Seq<char>) -> Seq<char>
    decreases text.len(),
    when pat.len() > 0
    via spec_replace_all_dec
{
    match spec_find(text, pat, 0) {
        None => text,
        Some(i) => text.subrange(0, i) + rep + spec_replace_all(
            text.subrange(i + pat.len(), text.len() as int),
            pat,
            rep,
        ),
    }
}

#[via_fn]
proof fn spec_replace_all_dec(text: Seq<char>, pat: Seq<char>, rep: Seq<char>) {
    lemma_find_props(text, pat, 0);
}

/// The text with every case-insensitive occurrence of `pat` replaced by
/// `rep`, scanning left to right; a replacement is not rescanned.
pub open spec fn spec_replace_all_ci(text: Seq<char>, pat: Seq<char>, rep: Seq<char>) -> Seq<char>
    decreases text.len(),
    when pat.len() > 0
    via spec_replace_all_ci_dec
{
    match spec_find(lower_seq(text), lower_seq(pat), 0) {
        None => text,
        Some(i) => text.subrange(0, i) + rep + spec_replace_all_ci(
            text.subrange(i + pat.len(), text.len() as int),
            pat,
            rep,
        ),
    }
}

#[via_fn]
proof fn spec_replace_all_ci_dec(text: Seq<char>, pat: Seq<char>, rep: Seq<char>) {
    lemma_find_props(lower_seq(text), lower_seq(pat), 0);
}

/// The text with every occurrence of `pat` replaced by `rep`.
pub(crate) fn replace_all_chars(text: &Vec<char>, pat: &Vec<char>, rep: &Vec<char>) -> (r: Vec<
    char,
>)
    requires
        pat@.len() > 0,
    ensures
        r@ == spec_replace_all(text@, pat@, rep@),
    decreases text@.len(),
{
    let n = text.len();
    proof {
        lemma_find_props(text@, pat@, 0);
    }
    match find_at(text, pat, 0) {
        None => text.clone(),
        Some(i) => {
            let suffix = subrange_chars(text, i + pat.len(), n);
            let rest = replace_all_chars(&suffix, pat, rep);
            let pre = subrange_chars(text, 0, i);
            let front = concat_chars(&pre, rep);
            concat_chars(&front, &rest)
        },
    }
}

/// The text with every case-insensitive occurrence of `pat` replaced by
/// `rep`.
pub(crate) fn replace_all_ci_chars(text: &Vec<char>, pat: &Vec<char>, rep: &Vec<char>) -> (r: Vec<
    char,
>)
    requires
        pat@.len() > 0,
    ensures
        r@ == spec_replace_all_ci(text@, pat@, rep@),
    decreases text@.len(),
{
    let n = text.len();
    proof {
        lemma_find_props(lower_seq(text@), lower_seq(pat@), 0);
    }
    match find_at_ci(text, pat, 0) {
        None => text.clone(),
        Some(i) => {
            let suffix = subrange_chars(text, i + pat.len(), n);
            let rest = replace_all_ci_chars(&suffix, pat, rep);
            let pre = subrange_chars(text, 0, i);
            let front = concat_chars(&pre, rep);
            concat_chars(&front, &rest)
        },
    }
}

/// Whether `pat` occurs in `text`.
pub(crate) fn contains_chars(text: &Vec<char>, pat: &Vec<char>) -> (r: bool)
    ensures
        r == (spec_find(text@, pat@, 0) is Some),
{
    match find_at(text, pat, 0) {
        Some(_) => true,
        None => false,
    }
}

/// Whether `pat` occurs in `text` case-insensitively.
pub(crate) fn contains_ci_chars(text: &Vec<char>, pat: &Vec<char>) -> (r: bool)
    ensures
        r == (spec_find(lower_seq(text@), lower_seq(pat@), 0) is Some),
{
    match find_at_ci(text, pat, 0) {
        Some(_) => true,
        None => false,
    }
}

// ---------------------------------------------------------------------------
// Conditional blocks.
// ---------------------------------------------------------------------------

/// The three characters that open any block tag.
pub open spec fn cond_marker() -> Seq<char> {
    seq!['{', '{', '@']
}

/// The closing braces.
pub open spec fn braces_pair() -> Seq<char> {
    seq!['}', '}']
}

/// The views of a vector of character vectors.
pub open spec fn seq_views(s: Seq<Vec<char>>) -> Seq<Seq<char>> {
    s.map(|i: int, v: Vec<char>| v@)
}

/// The candidate conditional keys named by `{{@…}}` tags, in order of
/// occurrence from `pos`, each trimmed; a tag without closing braces ends
/// the scan.
pub open spec fn spec_cond_keys(text: Seq<char>, pos: int) -> Seq<Seq<char>>
    decreases text.len() - pos,
    when 0 <= pos
    via spec_cond_keys_dec
{
    match spec_find(lower_seq(text), lower_seq(cond_marker()), pos) {
        None => Seq::empty(),
        Some(i) => match spec_find(text, braces_pair(), i) {
            None => Seq::empty(),
            Some(e) => seq![spec_trim(text.subrange(i + 3, e))] + spec_cond_keys(text, e + 2),
        },
    }
}

#[via_fn]
proof fn spec_cond_keys_dec(text: Seq<char>, pos: int) {
    lemma_find_props(lower_seq(text), lower_seq(cond_marker()), pos);
    match spec_find(lower_seq(text), lower_seq(cond_marker()), pos) {
        None => {},
        Some(i) => {
            lemma_find_props(text, braces_pair(), i);
        },
    }
}

fn cond_marker_vec() -> (r: Vec<char>)
    ensures
        r@ == cond_marker(),
{
    let mut v: Vec<char> = Vec::new();
    v.push('{');
    v.push('{');
    v.push('@');
    assert(v@ =~= cond_marker());
    v
}

fn braces_pair_vec() -> (r: Vec<char>)
    ensures
        r@ == braces_pair(),
{
    let mut v: Vec<char> = Vec::new();
    v.push('}');
    v.push('}');
    assert(v@ =~= braces_pair());
    v
}

/// A block-tag marker found at `i` is followed by its closing braces no
/// earlier than three characters later.
proof fn lemma_marker_brace_gap(text: Seq<char>, i: int, e: int)
    requires
        matches_at(lower_seq(text), lower_seq(cond_marker()), i),
        matches_at(text, braces_pair(), e),
        i <= e,
    ensures
        i + 3 <= e,
{
    let lt = lower_seq(text);
    let lm = lower_seq(cond_marker());
    assert(lm.len() == 3);
    assert(lm[0] == '{' && lm[1] == '{' && lm[2] == '@');
    assert(lt.subrange(i, i + 3) == lm);
    assert(lt[i] == lm[0] && lt[i + 1] == lm[1] && lt[i + 2] == lm[2]) by {
        assert(lt.subrange(i, i + 3)[0] == lt[i]);
        assert(lt.subrange(i, i + 3)[1] == lt[i + 1]);
        assert(lt.subrange(i, i + 3)[2] == lt[i + 2]);
    }
    assert(text.subrange(e, e + 2) == braces_pair());
    assert(text[e] == '}') by {
        assert(text.subrange(e, e + 2)[0] == text[e]);
    }
    assert(lt[e] == '}');
}

/// The conditional keys named in the text, in order of occurrence.
pub(crate) fn cond_keys_chars(text: &Vec<char>) -> (r: Vec<Vec<char>>)
    ensures
        seq_views(r@) == spec_cond_keys(text@, 0),
{
    let marker = cond_marker_vec();
    let braces = braces_pair_vec();
    let mut acc: Vec<Vec<char>> = Vec::new();
    let mut pos: usize = 0;
    let n = text.len();
    loop
        invariant
            pos <= n,
            n == text@.len(),
            marker@ == cond_marker(),
            braces@ == braces_pair(),
            seq_views(acc@) + spec_cond_keys(text@, pos as int) == spec_cond_keys(text@, 0),
        decreases n - pos,
    {
        proof {
            lemma_find_props(lower_seq(text@), lower_seq(marker@), pos as int);
        }
        match find_at_ci(text, &marker, pos) {
            None => {
                assert(seq_views(acc@) =~= seq_views(acc@) + spec_cond_keys(text@, pos as int));
                return acc;
            },
            Some(i) => {
                proof {
                    lemma_find_props(text@, braces@, i as int);
                }
                match find_at(text, &braces, i) {
                    None => {
                        assert(seq_views(acc@) =~= seq_views(acc@) + spec_cond_keys(
                            text@,
                            pos as int,
                        ));
                        return acc;
                    },
                    Some(e) => {
                        proof {
                            lemma_marker_brace_gap(text@, i as int, e as int);
                        }
                        let raw = subrange_chars(text, i + 3, e);
                        let key = trim_chars(&raw);
                        let ghost old_acc = acc@;
                        acc.push(key);
                        proof {
                            assert(seq_views(acc@) =~= seq_views(old_acc) + seq![spec_trim(
                                text@.subrange(i + 3, e as int),
                            )]);
                        }
                        pos = e + 2;
                    },
                }
            },
        }
    }
}

/// One pass that resolves every block of one opener/closer pair: the inner
/// text is kept when the condition holds and dropped otherwise, and the tags
/// themselves always go.
pub open spec fn spec_cond_pass(
    text: Seq<char>,
    open: Seq<char>,
    close: Seq<char>,
    cond: bool,
) -> Seq<char>
    decreases text.len(),
    when open.len() > 0 && close.len() > 0
    via spec_cond_pass_dec
{
    match spec_find(lower_seq(text), lower_seq(open), 0) {
        None => text,
        Some(s) => match spec_find(lower_seq(text), lower_seq(close), s + open.len()) {
            None => text,
            Some(e) => spec_cond_pass(
                text.subrange(0, s) + (if cond {
                    text.subrange(s + open.len(), e)
                } else {
                    Seq::<char>::empty()
                }) + text.subrange(e + close.len(), text.len() as int),
                open,
                close,
                cond,
            ),
        },
    }
}

#[via_fn]
proof fn spec_cond_pass_dec(text: Seq<char>, open: Seq<char>, close: Seq<char>, cond: bool) {
    lemma_find_props(lower_seq(text), lower_seq(open), 0);
    match spec_find(lower_seq(text), lower_seq(open), 0) {
        None => {},
        Some(s) => {
            lemma_find_props(lower_seq(text), lower_seq(close), s + open.len());
        },
    }
}

pub(crate) fn cond_pass_chars(
    text: &Vec<char>,
    open: &Vec<char>,
    close: &Vec<char>,
    cond: bool,
) -> (r: Vec<char>)
    requires
        open@.len() > 0,
        close@.len() > 0,
    ensures
        r@ == spec_cond_pass(text@, open@, close@, cond),
    decreases text@.len(),
{
    let n = text.len();
    proof {
        lemma_find_props(lower_seq(text@), lower_seq(open@), 0);
    }
    match find_at_ci(text, open, 0) {
        None => text.clone(),
        Some(s) => {
            proof {
                lemma_find_props(lower_seq(text@), lower_seq(close@), s + open@.len());
            }
            match find_at_ci(text, close, s + open.len()) {
                None => text.clone(),
                Some(e) => {
                    let kept = if cond {
                        subrange_chars(text, s + open.len(), e)
                    } else {
                        Vec::new()
                    };
                    let next = splice_chars(text, s, e + close.len(), &kept);
                    cond_pass_chars(&next, open, close, cond)
                },
            }
        },
    }
}

/// The truthiness of an item's field under a conditional key: the field is
/// looked up exactly first, then case-insensitively; a missing field is
/// false.
pub open spec fn spec_cond_value(item: JsonObject, key: Seq<char>) -> bool {
    match spec_obj_get(item, key) {
        Some(v) => spec_truthy(v),
        None => match spec_obj_get_ci(item, key) {
            Some(v) => spec_truthy(v),
            None => false,
        },
    }
}

pub(crate) fn cond_value_chars(item: &JsonObject, key: &Vec<char>) -> (r: bool)
    ensures
        r == spec_cond_value(*item, key@),
{
    match item.get_chars(key) {
        Some(v) => truthy(v),
        None => match item.get_ci_chars(key) {
            Some(v) => truthy(v),
            None => false,
        },
    }
}

/// Both accepted closer spellings of one conditional key, applied in turn.
pub open spec fn spec_cond_both(text: Seq<char>, key: Seq<char>, item: JsonObject) -> Seq<char> {
    let c = spec_cond_value(item, key);
    spec_cond_pass(
        spec_cond_pass(text, block_open_tag(key), block_close_tag_spaced(key), c),
        block_open_tag(key),
        block_close_tag(key),
        c,
    )
}

/// Conditional resolution for each key of `keys` in turn.
pub open spec fn spec_apply_conds(
    text: Seq<char>,
    keys: Seq<Seq<char>>,
    item: JsonObject,
    i: int,
) -> Seq<char>
    decreases keys.len() - i,
{
    if i < 0 || i >= keys.len() {
        text
    } else {
        spec_apply_conds(spec_cond_both(text, keys[i], item), keys, item, i + 1)
    }
}

/// Every conditional block in the text, evaluated against an item.
pub open spec fn spec_process_conditionals(text: Seq<char>, item: JsonObject) -> Seq<char> {
    spec_apply_conds(text, spec_cond_keys(text, 0), item, 0)
}

/// Every conditional block in the text, evaluated against an item.
pub(crate) fn process_conditionals_chars(text: &Vec<char>, item: &JsonObject) -> (r: Vec<char>)
    ensures
        r@ == spec_process_conditionals(text@, *item),
{
    let keys = cond_keys_chars(text);
    let mut cur: Vec<char> = text.clone();
    let mut i: usize = 0;
    while i < keys.len()
        invariant
            i <= keys@.len(),
            spec_apply_conds(cur@, seq_views(keys@), *item, i as int) == spec_apply_conds(
                text@,
                seq_views(keys@),
                *item,
                0,
            ),
            seq_views(keys@) == spec_cond_keys(text@, 0),
        decreases keys@.len() - i,
    {
        let key = &keys[i];
        let c = cond_value_chars(item, key);
        let open = block_open_tag_vec(key);
        let close_spaced = block_close_tag_spaced_vec(key);
        let close_plain = block_close_tag_vec(key);
        assert(open@.len() > 0 && close_spaced@.len() > 0 && close_plain@.len() > 0);
        let mid = cond_pass_chars(&cur, &open, &close_spaced, c);
        cur = cond_pass_chars(&mid, &open, &close_plain, c);
        assert(seq_views(keys@)[i as int] == keys@[i as int]@);
        i = i + 1;
    }
    cur
}

// ---------------------------------------------------------------------------
// Expanding one array block.
// ---------------------------------------------------------------------------

/// One item's instance of a block: every field substituted for its scalar
/// token case-insensitively, then every conditional block evaluated against
/// the item.
pub open spec fn spec_bind_fields(
    block: Seq<char>,
    entries: Seq<(String, JsonValue)>,
    i: int,
) -> Seq<char>
    decreases entries.len() - i,
{
    if i < 0 || i >= entries.len() {
        block
    } else {
        let bound = spec_replace_all_ci(
            block,
            scalar_token(entries[i].0@),
            spec_value_text(entries[i].1),
        );
        spec_bind_fields(bound, entries, i + 1)
    }
}

pub(crate) fn bind_fields_chars(block: &Vec<char>, item: &JsonObject) -> (r: Vec<char>)
    ensures
        r@ == spec_bind_fields(block@, item.entries@, 0),
{
    let mut cur: Vec<char> = block.clone();
    let mut i: usize = 0;
    while i < item.entries.len()
        invariant
            i <= item.entries@.len(),
            spec_bind_fields(cur@, item.entries@, i as int) == spec_bind_fields(
                block@,
                item.entries@,
                0,
            ),
        decreases item.entries@.len() - i,
    {
        let pair = &item.entries[i];
        let kv = to_chars(pair.0.as_str());
        let tok = scalar_token_vec(&kv);
        assert(tok@.len() > 0);
        let val = value_text(&pair.1);
        let vv = to_chars(val.as_str());
        cur = replace_all_ci_chars(&cur, &tok, &vv);
        i = i + 1;
    }
    cur
}

/// One item's instance of a block.
pub open spec fn spec_item_text(block: Seq<char>, item: JsonObject) -> Seq<char> {
    spec_process_conditionals(spec_bind_fields(block, item.entries@, 0), item)
}

pub(crate) fn item_text_chars(block: &Vec<char>, item: &JsonObject) -> (r: Vec<char>)
    ensures
        r@ == spec_item_text(block@, *item),
{
    let bound = bind_fields_chars(block, item);
    process_conditionals_chars(&bound, item)
}

/// The concatenation of one instance of the block per object item; an item
/// that is not an object contributes nothing.
pub open spec fn spec_expand_items(block: Seq<char>, items: Seq<JsonValue>, i: int) -> Seq<char>
    decreases items.len() - i,
{
    if i < 0 || i >= items.len() {
        Seq::<char>::empty()
    } else {
        (match items[i] {
            JsonValue::Object(o) => spec_item_text(block, o),
            _ => Seq::<char>::empty(),
        }) + spec_expand_items(block, items, i + 1)
    }
}

/// The block instantiated once per object item of the array.
pub(crate) fn expand_items_chars(block: &Vec<char>, arr: &JsonArray) -> (r: Vec<char>)
    ensures
        r@ == spec_expand_items(block@, arr.items@, 0),
{
    let mut acc: Vec<char> = Vec::new();
    let mut i: usize = 0;
    while i < arr.items.len()
        invariant
            i <= arr.items@.len(),
            acc@ + spec_expand_items(block@, arr.items@, i as int) == spec_expand_items(
                block@,
                arr.items@,
                0,
            ),
        decreases arr.items@.len() - i,
    {
        match &arr.items[i] {
            JsonValue::Object(o) => {
                let piece = item_text_chars(block, o);
                acc = concat_chars(&acc, &piece);
            },
            _ => {
                proof {
                    assert(acc@ + spec_expand_items(block@, arr.items@, i as int) =~= acc@
                        + spec_expand_items(block@, arr.items@, i + 1));
                }
            },
        }
        i = i + 1;
    }
    assert(acc@ =~= acc@ + spec_expand_items(block@, arr.items@, arr.items@.len() as int));
    acc
}

// ---------------------------------------------------------------------------
// Locating the block bound to an array key.
// ---------------------------------------------------------------------------

/// The key with every trailing `s` removed.
pub open spec fn spec_strip_trailing_s(k: Seq<char>) -> Seq<char>
    decreases k.len(),
{
    if k.len() > 0 && k[k.len() - 1] == 's' {
        spec_strip_trailing_s(k.drop_last())
    } else {
        k
    }
}

/// The block tags a key may bind, in the order they are tried: the key
/// itself, then its singular when the key ends in `s`, or else its plural.
pub open spec fn spec_tag_candidates(k: Seq<char>) -> Seq<Seq<char>> {
    if k.len() > 0 && k[k.len() - 1] == 's' {
        seq![k, spec_strip_trailing_s(k)]
    } else {
        seq![k, k + seq!['s']]
    }
}

fn strip_trailing_s_chars(k: &Vec<char>) -> (r: Vec<char>)
    ensures
        r@ == spec_strip_trailing_s(k@),
    decreases k@.len(),
{
    if k.len() > 0 && k[k.len() - 1] == 's' {
        let sub = subrange_chars(k, 0, k.len() - 1);
        assert(sub@ =~= k@.drop_last());
        strip_trailing_s_chars(&sub)
    } else {
        k.clone()
    }
}

pub(crate) fn tag_candidates_chars(k: &Vec<char>) -> (r: Vec<Vec<char>>)
    ensures
        seq_views(r@) == spec_tag_candidates(k@),
{
    let mut out: Vec<Vec<char>> = Vec::new();
    out.push(k.clone());
    if k.len() > 0 && k[k.len() - 1] == 's' {
        out.push(strip_trailing_s_chars(k));
        assert(seq_views(out@) =~= spec_tag_candidates(k@));
    } else {
        let mut plural = k.clone();
        plural.push('s');
        assert(plural@ =~= k@ + seq!['s']);
        out.push(plural);
        assert(seq_views(out@) =~= spec_tag_candidates(k@));
    }
    out
}

/// The first block of an opener/closer pair: the opener's position and the
/// closer's position after it, both case-insensitive.
pub open spec fn spec_find_block(text: Seq<char>, open: Seq<char>, close: Seq<char>) -> Option<
    (int, int),
> {
    match spec_find(lower_seq(text), lower_seq(open), 0) {
        None => None,
        Some(s) => match spec_find(lower_seq(text), lower_seq(close), s + open.len()) {
            None => None,
            Some(e) => Some((s, e)),
        },
    }
}

fn find_block_chars(text: &Vec<char>, open: &Vec<char>, close: &Vec<char>) -> (r: Option<
    (usize, usize),
>)
    ensures
        match r {
            Some(p) => spec_find_block(text@, open@, close@) == Some((p.0 as int, p.1 as int)),
            None => spec_find_block(text@, open@, close@) is None,
        },
{
    let n = text.len();
    proof {
        lemma_find_props(lower_seq(text@), lower_seq(open@), 0);
    }
    match find_at_ci(text, open, 0) {
        None => None,
        Some(s) => {
            assert(s + open@.len() <= n);
            match find_at_ci(text, close, s + open.len()) {
                None => None,
                Some(e) => Some((s, e)),
            }
        },
    }
}

/// The first candidate tag whose block occurs in the text, with its block's
/// opener and closer positions. The opener is `{{@Tag}}`, or `{{^Tag}}` for
/// the empty-array flavor; the closer is `{{/Tag}}`.
pub open spec fn spec_pick_block(
    text: Seq<char>,
    cands: Seq<Seq<char>>,
    i: int,
    empty_flavor: bool,
) -> Option<(Seq<char>, int, int)>
    decreases cands.len() - i,
{
    if i < 0 || i >= cands.len() {
        None
    } else {
        let open = if empty_flavor {
            empty_open_tag(cands[i])
        } else {
            block_open_tag(cands[i])
        };
        match spec_find_block(text, open, block_close_tag(cands[i])) {
            Some(p) => Some((cands[i], p.0, p.1)),
            None => spec_pick_block(text, cands, i + 1, empty_flavor),
        }
    }
}

/// A picked block lies inside the text: the opener starts at `s`, its
/// content ends at `e`, and the closer fits before the end.
pub proof fn lemma_pick_block_props(
    text: Seq<char>,
    cands: Seq<Seq<char>>,
    i: int,
    empty_flavor: bool,
)
    ensures
        match spec_pick_block(text, cands, i, empty_flavor) {
            Some(p) => 0 <= p.1 && p.1 + p.0.len() + 5 <= p.2 && p.2 + p.0.len() + 5 <= text.len(),
            None => true,
        },
    decreases cands.len() - i,
{
    if i < 0 || i >= cands.len() {
    } else {
        let open = if empty_flavor {
            empty_open_tag(cands[i])
        } else {
            block_open_tag(cands[i])
        };
        let close = block_close_tag(cands[i]);
        lemma_find_props(lower_seq(text), lower_seq(open), 0);
        match spec_find(lower_seq(text), lower_seq(open), 0) {
            None => {
                lemma_pick_block_props(text, cands, i + 1, empty_flavor);
            },
            Some(s) => {
                lemma_find_props(lower_seq(text), lower_seq(close), s + open.len());
                match spec_find(lower_seq(text), lower_seq(close), s + open.len()) {
                    None => {
                        lemma_pick_block_props(text, cands, i + 1, empty_flavor);
                    },
                    Some(_) => {},
                }
            },
        }
    }
}

pub(crate) fn pick_block_chars(text: &Vec<char>, cands: &Vec<Vec<char>>, i: usize, empty_flavor: bool) -> (r:
    Option<(Vec<char>, usize, usize)>)
    requires
        i <= cands@.len(),
    ensures
        match r {
            Some(p) => spec_pick_block(text@, seq_views(cands@), i as int, empty_flavor) == Some(
                (p.0@, p.1 as int, p.2 as int),
            ),
            None => spec_pick_block(text@, seq_views(cands@), i as int, empty_flavor) is None,
        },
    decreases cands@.len() - i,
{
    if i >= cands.len() {
        return None;
    }
    let cand = &cands[i];
    let open = if empty_flavor {
        empty_open_tag_vec(cand)
    } else {
        block_open_tag_vec(cand)
    };
    let close = block_close_tag_vec(cand);
    assert(seq_views(cands@)[i as int] == cands@[i as int]@);
    match find_block_chars(text, &open, &close) {
        Some(p) => Some((cand.clone(), p.0, p.1)),
        None => pick_block_chars(text, cands, i + 1, empty_flavor),
    }
}

// ---------------------------------------------------------------------------
// The three binding passes.
// ---------------------------------------------------------------------------

/// One array-expansion step: the first entry holding an array whose block
/// tag occurs in the text has that block replaced by its expansion.
pub open spec fn spec_array_step(
    text: Seq<char>,
    entries: Seq<(String, JsonValue)>,
    i: int,
) -> Option<Seq<char>>
    decreases entries.len() - i,
{
    if i < 0 || i >= entries.len() {
        None
    } else {
        match entries[i].1 {
            JsonValue::Array(arr) => {
                match spec_pick_block(
                    text,
                    spec_tag_candidates(lower_seq(entries[i].0@)),
                    0,
                    false,
                ) {
                    Some(p) => {
                        let taglen = p.0.len() + 5;
                        let inner = text.subrange(p.1 + taglen, p.2);
                        Some(
                            text.subrange(0, p.1) + spec_expand_items(inner, arr.items@, 0)
                                + text.subrange(p.2 + taglen, text.len() as int),
                        )
                    },
                    None => spec_array_step(text, entries, i + 1),
                }
            },
            _ => spec_array_step(text, entries, i + 1),
        }
    }
}

fn array_step_chars(text: &Vec<char>, obj: &JsonObject, i: usize) -> (r: Option<Vec<char>>)
    requires
        i <= obj.entries@.len(),
    ensures
        match r {
            Some(t) => spec_array_step(text@, obj.entries@, i as int) == Some(t@),
            None => spec_array_step(text@, obj.entries@, i as int) is None,
        },
    decreases obj.entries@.len() - i,
{
    if i >= obj.entries.len() {
        return None;
    }
    let pair = &obj.entries[i];
    match &pair.1 {
        JsonValue::Array(arr) => {
            let kv = to_chars(pair.0.as_str());
            let kl = lower_chars(&kv);
            let cands = tag_candidates_chars(&kl);
            proof {
                lemma_pick_block_props(text@, seq_views(cands@), 0, false);
            }
            match pick_block_chars(text, &cands, 0, false) {
                Some(p) => {
                    let n = text.len();
                    assert(p.1 + p.0@.len() + 5 <= p.2 && p.2 + p.0@.len() + 5 <= n);
                    let taglen = p.0.len() + 5;
                    let inner = subrange_chars(text, p.1 + taglen, p.2);
                    let expanded = expand_items_chars(&inner, arr);
                    Some(splice_chars(text, p.1, p.2 + taglen, &expanded))
                },
                None => array_step_chars(text, obj, i + 1),
            }
        },
        _ => array_step_chars(text, obj, i + 1),
    }
}

/// How many array-expansion steps a merge will take at most; expansion stops
/// early as soon as no block resolves.
pub const ARRAY_EXPANSION_PASSES: usize = 100;

/// Array expansion run to a fixed point, or until the pass bound is spent:
/// one block is expanded per step.
pub open spec fn spec_array_expand(
    text: Seq<char>,
    entries: Seq<(String, JsonValue)>,
    fuel: nat,
) -> Seq<char>
    decreases fuel,
{
    if fuel == 0 {
        text
    } else {
        match spec_array_step(text, entries, 0) {
            None => text,
            Some(t) => spec_array_expand(t, entries, (fuel - 1) as nat),
        }
    }
}

pub(crate) fn array_expand_chars(text: &Vec<char>, obj: &JsonObject) -> (r: Vec<char>)
    ensures
        r@ == spec_array_expand(text@, obj.entries@, ARRAY_EXPANSION_PASSES as nat),
{
    let mut cur: Vec<char> = text.clone();
    let mut fuel: usize = ARRAY_EXPANSION_PASSES;
    while fuel > 0
        invariant
            spec_array_expand(cur@, obj.entries@, fuel as nat) == spec_array_expand(
                text@,
                obj.entries@,
                ARRAY_EXPANSION_PASSES as nat,
            ),
        decreases fuel,
    {
        match array_step_chars(&cur, obj, 0) {
            None => {
                return cur;
            },
            Some(t) => {
                cur = t;
            },
        }
        fuel = fuel - 1;
    }
    cur
}

/// The empty-array pass: for each entry holding an array, the first
/// `{{^Tag}}…{{/Tag}}` block for a candidate tag emits its inner text when
/// the array is empty and nothing otherwise.
pub open spec fn spec_empty_pass(
    text: Seq<char>,
    entries: Seq<(String, JsonValue)>,
    i: int,
) -> Seq<char>
    decreases entries.len() - i,
{
    if i < 0 || i >= entries.len() {
        text
    } else {
        let t2 = match entries[i].1 {
            JsonValue::Array(arr) => {
                match spec_pick_block(
                    text,
                    spec_tag_candidates(lower_seq(entries[i].0@)),
                    0,
                    true,
                ) {
                    Some(p) => {
                        let taglen = p.0.len() + 5;
                        if arr.items@.len() == 0 {
                            text.subrange(0, p.1) + text.subrange(p.1 + taglen, p.2)
                                + text.subrange(p.2 + taglen, text.len() as int)
                        } else {
                            text.subrange(0, p.1) + text.subrange(
                                p.2 + taglen,
                                text.len() as int,
                            )
                        }
                    },
                    None => text,
                }
            },
            _ => text,
        };
        spec_empty_pass(t2, entries, i + 1)
    }
}

pub(crate) fn empty_pass_chars(text: &Vec<char>, obj: &JsonObject) -> (r: Vec<char>)
    ensures
        r@ == spec_empty_pass(text@, obj.entries@, 0),
{
    let mut cur: Vec<char> = text.clone();
    let mut i: usize = 0;
    while i < obj.entries.len()
        invariant
            i <= obj.entries@.len(),
            spec_empty_pass(cur@, obj.entries@, i as int) == spec_empty_pass(
                text@,
                obj.entries@,
                0,
            ),
        decreases obj.entries@.len() - i,
    {
        let pair = &obj.entries[i];
        match &pair.1 {
            JsonValue::Array(arr) => {
                let kv = to_chars(pair.0.as_str());
                let kl = lower_chars(&kv);
                let cands = tag_candidates_chars(&kl);
                proof {
                    lemma_pick_block_props(cur@, seq_views(cands@), 0, true);
                }
                match pick_block_chars(&cur, &cands, 0, true) {
                    Some(p) => {
                        let n = cur.len();
                        assert(p.1 + p.0@.len() + 5 <= p.2 && p.2 + p.0@.len() + 5 <= n);
                        let taglen = p.0.len() + 5;
                        if arr.is_empty() {
                            let inner = subrange_chars(&cur, p.1 + taglen, p.2);
                            cur = splice_chars(&cur, p.1, p.2 + taglen, &inner);
                        } else {
                            let nothing: Vec<char> = Vec::new();
                            cur = splice_chars(&cur, p.1, p.2 + taglen, &nothing);
                        }
                    },
                    None => {},
                }
            },
            _ => {},
        }
        i = i + 1;
    }
    cur
}

/// A value a scalar token substitutes.
pub open spec fn spec_is_scalar(v: JsonValue) -> bool {
    v matches JsonValue::String(_) || v matches JsonValue::Integer(_) || v
        matches JsonValue::Number(_) || v matches JsonValue::Bool(_)
}

/// The scalar pass: for each entry holding a scalar, every occurrence of its
/// `{{$Key}}` token is substituted, exactly when the exact spelling occurs
/// and case-insensitively otherwise.
pub open spec fn spec_scalar_pass(
    text: Seq<char>,
    entries: Seq<(String, JsonValue)>,
    i: int,
) -> Seq<char>
    decreases entries.len() - i,
{
    if i < 0 || i >= entries.len() {
        text
    } else {
        let t2 = if spec_is_scalar(entries[i].1) {
            let tok = scalar_token(entries[i].0@);
            if spec_find(text, tok, 0) is Some {
                spec_replace_all(text, tok, spec_value_text(entries[i].1))
            } else {
                spec_replace_all_ci(text, tok, spec_value_text(entries[i].1))
            }
        } else {
            text
        };
        spec_scalar_pass(t2, entries, i + 1)
    }
}

pub(crate) fn scalar_pass_chars(text: &Vec<char>, obj: &JsonObject) -> (r: Vec<char>)
    ensures
        r@ == spec_scalar_pass(text@, obj.entries@, 0),
{
    let mut cur: Vec<char> = text.clone();
    let mut i: usize = 0;
    while i < obj.entries.len()
        invariant
            i <= obj.entries@.len(),
            spec_scalar_pass(cur@, obj.entries@, i as int) == spec_scalar_pass(
                text@,
                obj.entries@,
                0,
            ),
        decreases obj.entries@.len() - i,
    {
        let pair = &obj.entries[i];
        let scalar = match &pair.1 {
            JsonValue::String(_) => true,
            JsonValue::Integer(_) => true,
            JsonValue::Number(_) => true,
            JsonValue::Bool(_) => true,
            _ => false,
        };
        if scalar {
            let kv = to_chars(pair.0.as_str());
            let tok = scalar_token_vec(&kv);
            assert(tok@.len() > 0);
            let val = value_text(&pair.1);
            let vv = to_chars(val.as_str());
            if contains_chars(&cur, &tok) {
                cur = replace_all_chars(&cur, &tok, &vv);
            } else {
                cur = replace_all_ci_chars(&cur, &tok, &vv);
            }
        }
        i = i + 1;
    }
    cur
}

/// A template merged with its JSON object: array blocks expanded to a fixed
/// point, then empty-array blocks resolved, then scalar tokens substituted.
pub open spec fn spec_merge_with_json(template: Seq<char>, obj: JsonObject) -> Seq<char> {
    spec_scalar_pass(
        spec_empty_pass(
            spec_array_expand(template, obj.entries@, ARRAY_EXPANSION_PASSES as nat),
            obj.entries@,
            0,
        ),
        obj.entries@,
        0,
    )
}

/// A template merged with its JSON object.
pub(crate) fn merge_with_json_chars(template: &Vec<char>, obj: &JsonObject) -> (r: Vec<char>)
    ensures
        r@ == spec_merge_with_json(template@, *obj),
{
    let a = array_expand_chars(template, obj);
    let b = empty_pass_chars(&a, obj);
    scalar_pass_chars(&b, obj)
}

} // verus!
