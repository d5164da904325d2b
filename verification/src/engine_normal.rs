//! The scan engine: resolves simple references, slotted references and JSON
//! bindings on demand, repeating passes until the text settles.

use vstd::prelude::*;
use crate::text::{
    lower_seq, is_alnum_seq, matches_at, spec_find, spec_digits_end, lemma_find_props,
    lemma_digits_end_bounds, to_chars, chars_to_string, find_at, lower_chars, subrange_chars,
    concat_chars, splice_chars, is_alnum_chars, digits_end,
};
use crate::template_utils::{
    spec_find_close, spec_remove_slot_keys, spec_replace_first_ci, lemma_find_close_props,
    find_close_from, remove_slot_keys_chars, replace_first_ci_chars, chars_eq, chars_eq_ci,
    braces_close_vec,
};
use crate::binding::{
    braces_pair, spec_trim, trim_chars, spec_replace_all, replace_all_chars,
    spec_merge_with_json, merge_with_json_chars,
};
use crate::json::{JsonValue, JsonObject, JsonConverter, parsed_json};

verus! {

// ---------------------------------------------------------------------------
// The template store.
// ---------------------------------------------------------------------------

/// One fragment of a site: its lookup key, its HTML source, and its sibling
/// JSON document when one exists.
pub struct TemplateEntry {
    pub key: String,
    pub html: String,
    pub json: Option<String>,
}

/// The fragments of one site, in a fixed order; keys are built as
/// `lowercase(site) + "_" + lowercase(file-stem)`.
pub struct SiteTemplates {
    pub entries: Vec<TemplateEntry>,
}

/// The mathematical content of one entry: key, HTML, and optional JSON text.
pub open spec fn entry_view(e: TemplateEntry) -> (Seq<char>, Seq<char>, Option<Seq<char>>) {
    (
        e.key@,
        e.html@,
        match e.json {
            Some(j) => Some(j@),
            None => None,
        },
    )
}

/// The mathematical content of a store.
pub open spec fn store_view(s: Seq<TemplateEntry>) -> Seq<(Seq<char>, Seq<char>, Option<Seq<char>>)> {
    s.map(|i: int, e: TemplateEntry| entry_view(e))
}

/// The lookup key of a reference: lower-cased site, an underscore, and the
/// lower-cased name.
pub open spec fn template_key(site: Seq<char>, name: Seq<char>) -> Seq<char> {
    lower_seq(site) + seq!['_'] + lower_seq(name)
}

pub(crate) fn template_key_chars(site: &Vec<char>, name: &Vec<char>) -> (r: Vec<char>)
    ensures
        r@ == template_key(site@, name@),
{
    let mut out = lower_chars(site);
    out.push('_');
    let nl = lower_chars(name);
    let r = concat_chars(&out, &nl);
    assert(r@ =~= template_key(site@, name@));
    r
}

/// The first entry whose key equals `key` case-insensitively, in a processed
/// store of (key, content) pairs.
pub open spec fn spec_store_get(
    ts: Seq<(Seq<char>, Seq<char>)>,
    key: Seq<char>,
    i: int,
) -> Option<Seq<char>>
    decreases ts.len() - i,
{
    if i < 0 || i >= ts.len() {
        None
    } else if lower_seq(ts[i].0) == lower_seq(key) {
        Some(ts[i].1)
    } else {
        spec_store_get(ts, key, i + 1)
    }
}

/// The first entry whose key equals `key` case-insensitively, in a raw store.
pub open spec fn spec_store_get_raw(
    ts: Seq<(Seq<char>, Seq<char>, Option<Seq<char>>)>,
    key: Seq<char>,
    i: int,
) -> Option<(Seq<char>, Option<Seq<char>>)>
    decreases ts.len() - i,
{
    if i < 0 || i >= ts.len() {
        None
    } else if lower_seq(ts[i].0) == lower_seq(key) {
        Some((ts[i].1, ts[i].2))
    } else {
        spec_store_get_raw(ts, key, i + 1)
    }
}

/// View-fallback resolution over processed contents: when a view is given,
/// the engine's view prefix is non-empty, and the name contains the prefix
/// case-insensitively, the key built from the name with its first prefix
/// occurrence replaced by the view is tried first; then the plain key.
pub open spec fn spec_get_template(
    ts: Seq<(Seq<char>, Seq<char>)>,
    site: Seq<char>,
    name: Seq<char>,
    view: Option<Seq<char>>,
    prefix: Seq<char>,
) -> Option<Seq<char>> {
    let primary = spec_store_get(ts, template_key(site, name), 0);
    match view {
        Some(v) => {
            if prefix.len() > 0 && spec_find(lower_seq(name), lower_seq(prefix), 0) is Some {
                match spec_store_get(ts, template_key(site, spec_replace_first_ci(name, prefix, v)), 0) {
                    Some(c) => Some(c),
                    None => primary,
                }
            } else {
                primary
            }
        },
        None => primary,
    }
}

/// View-fallback resolution over a raw store.
pub open spec fn spec_get_template_raw(
    ts: Seq<(Seq<char>, Seq<char>, Option<Seq<char>>)>,
    site: Seq<char>,
    name: Seq<char>,
    view: Option<Seq<char>>,
    prefix: Seq<char>,
) -> Option<(Seq<char>, Option<Seq<char>>)> {
    let primary = spec_store_get_raw(ts, template_key(site, name), 0);
    match view {
        Some(v) => {
            if prefix.len() > 0 && spec_find(lower_seq(name), lower_seq(prefix), 0) is Some {
                match spec_store_get_raw(ts, template_key(site, spec_replace_first_ci(name, prefix, v)), 0) {
                    Some(c) => Some(c),
                    None => primary,
                }
            } else {
                primary
            }
        },
        None => primary,
    }
}

// ---------------------------------------------------------------------------
// The scalar pool.
// ---------------------------------------------------------------------------

/// The value at the first pool entry with exactly this key.
pub open spec fn spec_pool_get(
    pool: Seq<(Seq<char>, Seq<char>)>,
    key: Seq<char>,
    i: int,
) -> Option<Seq<char>>
    decreases pool.len() - i,
{
    if i < 0 || i >= pool.len() {
        None
    } else if pool[i].0 == key {
        Some(pool[i].1)
    } else {
        spec_pool_get(pool, key, i + 1)
    }
}

/// The index of the first pool entry with exactly this key.
pub open spec fn spec_pool_index(
    pool: Seq<(Seq<char>, Seq<char>)>,
    key: Seq<char>,
    i: int,
) -> Option<int>
    decreases pool.len() - i,
{
    if i < 0 || i >= pool.len() {
        None
    } else if pool[i].0 == key {
        Some(i)
    } else {
        spec_pool_index(pool, key, i + 1)
    }
}

/// The pool with `key` bound to `val`: the first entry with that key is
/// replaced, or a new entry is appended.
pub open spec fn spec_pool_put(
    pool: Seq<(Seq<char>, Seq<char>)>,
    key: Seq<char>,
    val: Seq<char>,
) -> Seq<(Seq<char>, Seq<char>)> {
    match spec_pool_index(pool, key, 0) {
        Some(i) => pool.update(i, (key, val)),
        None => pool.push((key, val)),
    }
}

/// The views of a vector of (key, value) character-vector pairs.
pub open spec fn pair_views(s: Seq<(Vec<char>, Vec<char>)>) -> Seq<(Seq<char>, Seq<char>)> {
    s.map(|i: int, p: (Vec<char>, Vec<char>)| (p.0@, p.1@))
}

fn pool_get_chars(pool: &Vec<(Vec<char>, Vec<char>)>, key: &Vec<char>, i: usize) -> (r: Option<
    Vec<char>,
>)
    requires
        i <= pool@.len(),
    ensures
        match r {
            Some(v) => spec_pool_get(pair_views(pool@), key@, i as int) == Some(v@),
            None => spec_pool_get(pair_views(pool@), key@, i as int) is None,
        },
    decreases pool@.len() - i,
{
    if i >= pool.len() {
        return None;
    }
    assert(pair_views(pool@)[i as int] == (pool@[i as int].0@, pool@[i as int].1@));
    if chars_eq(&pool[i].0, key) {
        Some(pool[i].1.clone())
    } else {
        pool_get_chars(pool, key, i + 1)
    }
}

fn pool_index_chars(pool: &Vec<(Vec<char>, Vec<char>)>, key: &Vec<char>, i: usize) -> (r: Option<
    usize,
>)
    requires
        i <= pool@.len(),
    ensures
        match r {
            Some(j) => spec_pool_index(pair_views(pool@), key@, i as int) == Some(j as int) && j
                < pool@.len(),
            None => spec_pool_index(pair_views(pool@), key@, i as int) is None,
        },
    decreases pool@.len() - i,
{
    if i >= pool.len() {
        return None;
    }
    assert(pair_views(pool@)[i as int] == (pool@[i as int].0@, pool@[i as int].1@));
    if chars_eq(&pool[i].0, key) {
        Some(i)
    } else {
        pool_index_chars(pool, key, i + 1)
    }
}

fn pool_put_chars(pool: &mut Vec<(Vec<char>, Vec<char>)>, key: Vec<char>, val: Vec<char>)
    ensures
        pair_views(final(pool)@) == spec_pool_put(pair_views(old(pool)@), key@, val@),
{
    match pool_index_chars(pool, &key, 0) {
        Some(i) => {
            pool.remove(i);
            pool.insert(i, (key, val));
            assert(pair_views(pool@) =~= pair_views(old(pool)@).update(
                spec_pool_index(pair_views(old(pool)@), key@, 0).unwrap(),
                (key@, val@),
            ));
        },
        None => {
            pool.push((key, val));
            assert(pair_views(pool@) =~= pair_views(old(pool)@).push((key@, val@)));
        },
    }
}

// ---------------------------------------------------------------------------
// Slots.
// ---------------------------------------------------------------------------

/// The slot word.
pub open spec fn ph_word() -> Seq<char> {
    "HTMLPLACEHOLDER"@
}

/// `{{@HTMLPLACEHOLDER`: what opens a slot block, before its digits.
pub open spec fn slot_block_marker() -> Seq<char> {
    seq!['{', '{', '@'] + ph_word()
}

/// `{{@HTMLPLACEHOLDERn}}`: a slot block opener.
pub open spec fn slot_open_of(num: Seq<char>) -> Seq<char> {
    seq!['{', '{', '@'] + ph_word() + num + seq!['}', '}']
}

/// `{{/HTMLPLACEHOLDERn}}`: a slot block closer.
pub open spec fn slot_close_of(num: Seq<char>) -> Seq<char> {
    seq!['{', '{', '/'] + ph_word() + num + seq!['}', '}']
}

/// `{{$HTMLPLACEHOLDERn}}`: the slot key the referenced fragment carries.
pub open spec fn slot_key_of(num: Seq<char>) -> Seq<char> {
    seq!['{', '{', '$'] + ph_word() + num + seq!['}', '}']
}

fn ph_word_vec() -> (r: Vec<char>)
    ensures
        r@ == ph_word(),
        r@.len() == 15,
{
    proof {
        reveal_strlit("HTMLPLACEHOLDER");
    }
    to_chars("HTMLPLACEHOLDER")
}

pub(crate) fn slot_marker_vec() -> (r: Vec<char>)
    ensures
        r@ == slot_block_marker(),
        r@.len() == 18,
{
    let mut head: Vec<char> = Vec::new();
    head.push('{');
    head.push('{');
    head.push('@');
    let word = ph_word_vec();
    let r = concat_chars(&head, &word);
    assert(r@ =~= slot_block_marker());
    r
}

pub(crate) fn slot_tag_vec(c: char, num: &Vec<char>) -> (r: Vec<char>)
    ensures
        r@ == seq!['{', '{', c] + ph_word() + num@ + seq!['}', '}'],
        r@.len() == num@.len() + 20,
{
    let mut head: Vec<char> = Vec::new();
    head.push('{');
    head.push('{');
    head.push(c);
    let word = ph_word_vec();
    let mid = concat_chars(&head, &word);
    let mut r = concat_chars(&mid, num);
    r.push('}');
    r.push('}');
    assert(r@ =~= seq!['{', '{', c] + ph_word() + num@ + seq!['}', '}']);
    r
}

/// The slots of a slotted reference's inner content, in order of occurrence:
/// each is the slot key to substitute and the raw content between the slot
/// block's tags.
pub open spec fn spec_extract_slots(inner: Seq<char>, pos: int) -> Seq<(Seq<char>, Seq<char>)>
    decreases inner.len(), inner.len() - pos,
    when 0 <= pos
    via spec_extract_slots_dec
{
    match spec_find(inner, slot_block_marker(), pos) {
        None => Seq::empty(),
        Some(m) => {
            let d = spec_digits_end(inner, m + slot_block_marker().len());
            if !matches_at(inner, braces_pair(), d) {
                spec_extract_slots(inner, m + 1)
            } else {
                let num = inner.subrange(m + slot_block_marker().len(), d);
                match spec_find_close(inner, slot_open_of(num), slot_close_of(num), d + 2, 1) {
                    None => spec_extract_slots(inner, m + 1),
                    Some(ce) => seq![(slot_key_of(num), inner.subrange(d + 2, ce))]
                        + spec_extract_slots(inner, ce + slot_close_of(num).len()),
                }
            }
        },
    }
}

#[via_fn]
proof fn spec_extract_slots_dec(inner: Seq<char>, pos: int) {
    lemma_find_props(inner, slot_block_marker(), pos);
    match spec_find(inner, slot_block_marker(), pos) {
        None => {},
        Some(m) => {
            lemma_digits_end_bounds(inner, m + slot_block_marker().len());
            let d = spec_digits_end(inner, m + slot_block_marker().len());
            if matches_at(inner, braces_pair(), d) {
                let num = inner.subrange(m + slot_block_marker().len(), d);
                lemma_find_close_props(inner, slot_open_of(num), slot_close_of(num), d + 2, 1);
            }
        },
    }
}

/// The slots of a slotted reference's inner content.
fn extract_slots_chars(inner: &Vec<char>) -> (r: Vec<(Vec<char>, Vec<char>)>)
    ensures
        pair_views(r@) == spec_extract_slots(inner@, 0),
{
    let marker = slot_marker_vec();
    let braces = braces_close_vec();
    let n = inner.len();
    let mut acc: Vec<(Vec<char>, Vec<char>)> = Vec::new();
    let mut pos: usize = 0;
    loop
        invariant
            pos <= n,
            n == inner@.len(),
            marker@ == slot_block_marker(),
            braces@ == crate::template_utils::braces_close(),
            pair_views(acc@) + spec_extract_slots(inner@, pos as int) == spec_extract_slots(
                inner@,
                0,
            ),
        decreases n - pos,
    {
        proof {
            reveal_strlit("}}");
            lemma_find_props(inner@, marker@, pos as int);
        }
        assert(crate::template_utils::braces_close() =~= braces_pair());
        match find_at(inner, &marker, pos) {
            None => {
                assert(pair_views(acc@) =~= pair_views(acc@) + spec_extract_slots(
                    inner@,
                    pos as int,
                ));
                return acc;
            },
            Some(m) => {
                proof {
                    lemma_digits_end_bounds(inner@, m + marker@.len());
                }
                let d = digits_end(inner, m + marker.len());
                let mut closed = false;
                if n - d >= 2 {
                    let br = subrange_chars(inner, d, d + 2);
                    if chars_eq(&br, &braces) {
                        closed = true;
                    }
                }
                if !closed {
                    assert(!matches_at(inner@, braces_pair(), d as int));
                    pos = m + 1;
                } else {
                    assert(matches_at(inner@, braces_pair(), d as int));
                    let num = subrange_chars(inner, m + marker.len(), d);
                    let open_tag = slot_tag_vec('@', &num);
                    let close_tag = slot_tag_vec('/', &num);
                    assert(open_tag@ =~= slot_open_of(num@));
                    assert(close_tag@ =~= slot_close_of(num@));
                    proof {
                        lemma_find_close_props(inner@, slot_open_of(num@), slot_close_of(num@), d + 2, 1);
                    }
                    match find_close_from(inner, &open_tag, &close_tag, d + 2, 1) {
                        None => {
                            pos = m + 1;
                        },
                        Some(ce) => {
                            let key = slot_tag_vec('$', &num);
                            assert(key@ =~= slot_key_of(num@));
                            let content = subrange_chars(inner, d + 2, ce);
                            let ghost old_acc = acc@;
                            acc.push((key, content));
                            proof {
                                assert(pair_views(acc@) =~= pair_views(old_acc) + seq![
                                    (slot_key_of(num@), inner@.subrange(d + 2, ce as int)),
                                ]);
                            }
                            pos = ce + close_tag.len();
                        },
                    }
                }
            },
        }
    }
}

/// The referenced fragment with each slot key substituted by its slot's
/// content, first slot first; a slot with an empty key is skipped.
pub open spec fn spec_fill_slots(
    tpl: Seq<char>,
    slots: Seq<(Seq<char>, Seq<char>)>,
    i: int,
) -> Seq<char>
    decreases slots.len() - i,
{
    if i < 0 || i >= slots.len() {
        tpl
    } else if slots[i].0.len() == 0 {
        spec_fill_slots(tpl, slots, i + 1)
    } else {
        spec_fill_slots(spec_replace_all(tpl, slots[i].0, slots[i].1), slots, i + 1)
    }
}

fn fill_slots_chars(tpl: &Vec<char>, slots: &Vec<(Vec<char>, Vec<char>)>) -> (r: Vec<char>)
    ensures
        r@ == spec_fill_slots(tpl@, pair_views(slots@), 0),
{
    let mut cur: Vec<char> = tpl.clone();
    let mut i: usize = 0;
    while i < slots.len()
        invariant
            i <= slots@.len(),
            spec_fill_slots(cur@, pair_views(slots@), i as int) == spec_fill_slots(
                tpl@,
                pair_views(slots@),
                0,
            ),
        decreases slots@.len() - i,
    {
        assert(pair_views(slots@)[i as int] == (slots@[i as int].0@, slots@[i as int].1@));
        if slots[i].0.len() > 0 {
            cur = replace_all_chars(&cur, &slots[i].0, &slots[i].1);
        }
        i = i + 1;
    }
    cur
}

/// `{{#`: what opens a slotted reference.
pub open spec fn slotted_marker() -> Seq<char> {
    seq!['{', '{', '#']
}

/// One slot pass: each slotted reference whose name resolves is replaced by
/// the referenced fragment with its slots filled from the reference's inner
/// content; with no explicit slots, a non-blank inner content fills the
/// unnumbered slot; unused slot keys are removed.
pub open spec fn spec_slot_pass(
    text: Seq<char>,
    pos: int,
    ts: Seq<(Seq<char>, Seq<char>)>,
    site: Seq<char>,
    view: Option<Seq<char>>,
    prefix: Seq<char>,
) -> Seq<char>
    decreases text.len() - pos,
    when 0 <= pos
    via spec_slot_pass_dec
{
    match spec_find(text, slotted_marker(), pos) {
        None => text,
        Some(o) => match spec_find(text, braces_pair(), o + 3) {
            None => text,
            Some(c) => {
                let name = spec_trim(text.subrange(o + 3, c));
                if !is_alnum_seq(name) {
                    spec_slot_pass(text, o + 1, ts, site, view, prefix)
                } else {
                    match spec_find_close(
                        text,
                        crate::binding::slotted_open_tag(name),
                        crate::binding::block_close_tag(name),
                        c + 2,
                        1,
                    ) {
                        None => spec_slot_pass(text, o + 1, ts, site, view, prefix),
                        Some(ce) => match spec_get_template(ts, site, name, view, prefix) {
                            None => spec_slot_pass(text, o + 1, ts, site, view, prefix),
                            Some(tpl) => {
                                let inner = text.subrange(c + 2, ce);
                                let slots = spec_extract_slots(inner, 0);
                                let filled = if slots.len() == 0 && spec_trim(inner).len() > 0 {
                                    spec_replace_all(
                                        spec_fill_slots(tpl, slots, 0),
                                        slot_key_of(Seq::<char>::empty()),
                                        spec_trim(inner),
                                    )
                                } else {
                                    spec_fill_slots(tpl, slots, 0)
                                };
                                let cleaned = spec_remove_slot_keys(filled, 0);
                                let text2 = text.subrange(0, o) + cleaned + text.subrange(
                                    ce + crate::binding::block_close_tag(name).len(),
                                    text.len() as int,
                                );
                                spec_slot_pass(text2, o + cleaned.len(), ts, site, view, prefix)
                            },
                        },
                    }
                }
            },
        },
    }
}

#[via_fn]
proof fn spec_slot_pass_dec(
    text: Seq<char>,
    pos: int,
    ts: Seq<(Seq<char>, Seq<char>)>,
    site: Seq<char>,
    view: Option<Seq<char>>,
    prefix: Seq<char>,
) {
    lemma_find_props(text, slotted_marker(), pos);
    match spec_find(text, slotted_marker(), pos) {
        None => {},
        Some(o) => {
            lemma_find_props(text, braces_pair(), o + 3);
            match spec_find(text, braces_pair(), o + 3) {
                None => {},
                Some(c) => {
                    let name = spec_trim(text.subrange(o + 3, c));
                    lemma_find_close_props(
                        text,
                        crate::binding::slotted_open_tag(name),
                        crate::binding::block_close_tag(name),
                        c + 2,
                        1,
                    );
                },
            }
        },
    }
}

fn slotted_marker_vec() -> (r: Vec<char>)
    ensures
        r@ == slotted_marker(),
{
    let mut v: Vec<char> = Vec::new();
    v.push('{');
    v.push('{');
    v.push('#');
    assert(v@ =~= slotted_marker());
    v
}

/// One slot pass over the text.
fn slot_pass_chars(
    text: &Vec<char>,
    pos: usize,
    ts: &Vec<(Vec<char>, Vec<char>)>,
    site: &Vec<char>,
    view: Option<&Vec<char>>,
    prefix: &Vec<char>,
) -> (r: Vec<char>)
    ensures
        r@ == spec_slot_pass(
            text@,
            pos as int,
            pair_views(ts@),
            site@,
            match view {
                Some(v) => Some(v@),
                None => None,
            },
            prefix@,
        ),
    decreases text@.len() - pos,
{
    let marker = slotted_marker_vec();
    let braces = braces_pair_vec2();
    let n = text.len();
    proof {
        lemma_find_props(text@, marker@, pos as int);
    }
    match find_at(text, &marker, pos) {
        None => text.clone(),
        Some(o) => {
            proof {
                lemma_find_props(text@, braces@, o + 3);
            }
            match find_at(text, &braces, o + 3) {
                None => text.clone(),
                Some(c) => {
                    let raw = subrange_chars(text, o + 3, c);
                    let name = trim_chars(&raw);
                    if !is_alnum_chars(&name) {
                        slot_pass_chars(text, o + 1, ts, site, view, prefix)
                    } else {
                        let open_tag = crate::binding::slotted_open_tag_vec(&name);
                        let close_tag = crate::binding::block_close_tag_vec(&name);
                        assert(open_tag@.len() > 0 && close_tag@.len() > 0);
                        proof {
                            lemma_find_close_props(text@, open_tag@, close_tag@, c + 2, 1);
                        }
                        match find_close_from(text, &open_tag, &close_tag, c + 2, 1) {
                            None => slot_pass_chars(text, o + 1, ts, site, view, prefix),
                            Some(ce) => {
                                match get_template_chars(ts, site, &name, view, prefix) {
                                    None => slot_pass_chars(text, o + 1, ts, site, view, prefix),
                                    Some(tpl) => {
                                        let inner = subrange_chars(text, c + 2, ce);
                                        let slots = extract_slots_chars(&inner);
                                        let mut filled = fill_slots_chars(&tpl, &slots);
                                        if slots.len() == 0 {
                                            let trimmed = trim_chars(&inner);
                                            if trimmed.len() > 0 {
                                                let empty_num: Vec<char> = Vec::new();
                                                let default_key = slot_tag_vec('$', &empty_num);
                                                assert(default_key@ =~= slot_key_of(
                                                    Seq::<char>::empty(),
                                                ));
                                                filled = replace_all_chars(
                                                    &filled,
                                                    &default_key,
                                                    &trimmed,
                                                );
                                            }
                                        }
                                        let cleaned = remove_slot_keys_chars(&filled, 0);
                                        let text2 = splice_chars(
                                            text,
                                            o,
                                            ce + close_tag.len(),
                                            &cleaned,
                                        );
                                        let n2 = text2.len();
                                        assert(o + cleaned@.len() <= n2);
                                        slot_pass_chars(&text2, o + cleaned.len(), ts, site, view, prefix)
                                    },
                                }
                            },
                        }
                    }
                },
            }
        },
    }
}

fn braces_pair_vec2() -> (r: Vec<char>)
    ensures
        r@ == braces_pair(),
{
    let mut v: Vec<char> = Vec::new();
    v.push('}');
    v.push('}');
    assert(v@ =~= braces_pair());
    v
}

// ---------------------------------------------------------------------------
// The engine.
// ---------------------------------------------------------------------------

/// `{{`: what opens any token.
pub open spec fn braces_open() -> Seq<char> {
    seq!['{', '{']
}

/// One placeholder pass: each `{{…}}` token not opening a block is resolved
/// against the scalar pool (for a `$`-token, by the key after the `$`) or,
/// for an alphanumeric name, against the fragments under view fallback and
/// then the pool; the first match is spliced in and an unresolved token is
/// left in place.
pub open spec fn spec_ph_pass(
    text: Seq<char>,
    pos: int,
    ts: Seq<(Seq<char>, Seq<char>)>,
    pool: Seq<(Seq<char>, Seq<char>)>,
    site: Seq<char>,
    view: Option<Seq<char>>,
    prefix: Seq<char>,
) -> Seq<char>
    decreases text.len() - pos,
    when 0 <= pos
    via spec_ph_pass_dec
{
    match spec_find(text, braces_open(), pos) {
        None => text,
        Some(o) => {
            if o + 2 < text.len() && (text[o + 2] == '#' || text[o + 2] == '@' || text[o + 2]
                == '/') {
                spec_ph_pass(text, o + 2, ts, pool, site, view, prefix)
            } else {
                match spec_find(text, braces_pair(), o + 2) {
                    None => text,
                    Some(c) => {
                        let name = spec_trim(text.subrange(o + 2, c));
                        if name.len() == 0 {
                            spec_ph_pass(text, o + 2, ts, pool, site, view, prefix)
                        } else {
                            let rep = if name[0] == '$' {
                                spec_pool_get(pool, name.subrange(1, name.len() as int), 0)
                            } else if is_alnum_seq(name) {
                                match spec_get_template(ts, site, name, view, prefix) {
                                    Some(t) => Some(t),
                                    None => spec_pool_get(pool, name, 0),
                                }
                            } else {
                                None
                            };
                            match rep {
                                Some(r) => spec_ph_pass(
                                    text.subrange(0, o) + r + text.subrange(
                                        c + 2,
                                        text.len() as int,
                                    ),
                                    o + r.len(),
                                    ts,
                                    pool,
                                    site,
                                    view,
                                    prefix,
                                ),
                                None => spec_ph_pass(text, c + 2, ts, pool, site, view, prefix),
                            }
                        }
                    },
                }
            }
        },
    }
}

#[via_fn]
proof fn spec_ph_pass_dec(
    text: Seq<char>,
    pos: int,
    ts: Seq<(Seq<char>, Seq<char>)>,
    pool: Seq<(Seq<char>, Seq<char>)>,
    site: Seq<char>,
    view: Option<Seq<char>>,
    prefix: Seq<char>,
) {
    lemma_find_props(text, braces_open(), pos);
    match spec_find(text, braces_open(), pos) {
        None => {},
        Some(o) => {
            lemma_find_props(text, braces_pair(), o + 2);
        },
    }
}

fn braces_open_vec() -> (r: Vec<char>)
    ensures
        r@ == braces_open(),
{
    let mut v: Vec<char> = Vec::new();
    v.push('{');
    v.push('{');
    assert(v@ =~= braces_open());
    v
}

/// One placeholder pass over the text.
fn ph_pass_chars(
    text: &Vec<char>,
    pos: usize,
    ts: &Vec<(Vec<char>, Vec<char>)>,
    pool: &Vec<(Vec<char>, Vec<char>)>,
    site: &Vec<char>,
    view: Option<&Vec<char>>,
    prefix: &Vec<char>,
) -> (r: Vec<char>)
    ensures
        r@ == spec_ph_pass(
            text@,
            pos as int,
            pair_views(ts@),
            pair_views(pool@),
            site@,
            match view {
                Some(v) => Some(v@),
                None => None,
            },
            prefix@,
        ),
    decreases text@.len() - pos,
{
    let marker = braces_open_vec();
    let braces = braces_pair_vec2();
    let n = text.len();
    proof {
        lemma_find_props(text@, marker@, pos as int);
    }
    match find_at(text, &marker, pos) {
        None => text.clone(),
        Some(o) => {
            if o + 2 < n && (text[o + 2] == '#' || text[o + 2] == '@' || text[o + 2] == '/') {
                return ph_pass_chars(text, o + 2, ts, pool, site, view, prefix);
            }
            proof {
                lemma_find_props(text@, braces@, o + 2);
            }
            match find_at(text, &braces, o + 2) {
                None => text.clone(),
                Some(c) => {
                    let raw = subrange_chars(text, o + 2, c);
                    let name = trim_chars(&raw);
                    if name.len() == 0 {
                        return ph_pass_chars(text, o + 2, ts, pool, site, view, prefix);
                    }
                    let rep: Option<Vec<char>> = if name[0] == '$' {
                        let key = subrange_chars(&name, 1, name.len());
                        pool_get_chars(pool, &key, 0)
                    } else if is_alnum_chars(&name) {
                        match get_template_chars(ts, site, &name, view, prefix) {
                            Some(t) => Some(t),
                            None => pool_get_chars(pool, &name, 0),
                        }
                    } else {
                        None
                    };
                    match rep {
                        Some(rv) => {
                            let text2 = splice_chars(text, o, c + 2, &rv);
                            let n2 = text2.len();
                            assert(o + rv@.len() <= n2);
                            ph_pass_chars(&text2, o + rv.len(), ts, pool, site, view, prefix)
                        },
                        None => ph_pass_chars(text, c + 2, ts, pool, site, view, prefix),
                    }
                },
            }
        },
    }
}

// ---------------------------------------------------------------------------
// Fixed-point iteration.
// ---------------------------------------------------------------------------

/// How many passes a merge will take at most; iteration stops early as soon
/// as a pass leaves the text unchanged.
pub const MERGE_PASSES: usize = 50;

/// Slot passes repeated until the text settles or the bound is spent.
pub open spec fn spec_slot_fix(
    text: Seq<char>,
    ts: Seq<(Seq<char>, Seq<char>)>,
    site: Seq<char>,
    view: Option<Seq<char>>,
    prefix: Seq<char>,
    fuel: nat,
) -> Seq<char>
    decreases fuel,
{
    if fuel == 0 {
        text
    } else {
        let t2 = spec_slot_pass(text, 0, ts, site, view, prefix);
        if t2 == text {
            text
        } else {
            spec_slot_fix(t2, ts, site, view, prefix, (fuel - 1) as nat)
        }
    }
}

fn slot_fix_chars(
    text: &Vec<char>,
    ts: &Vec<(Vec<char>, Vec<char>)>,
    site: &Vec<char>,
    view: Option<&Vec<char>>,
    prefix: &Vec<char>,
) -> (r: Vec<char>)
    ensures
        r@ == spec_slot_fix(
            text@,
            pair_views(ts@),
            site@,
            match view {
                Some(v) => Some(v@),
                None => None,
            },
            prefix@,
            MERGE_PASSES as nat,
        ),
{
    let mut cur: Vec<char> = text.clone();
    let mut fuel: usize = MERGE_PASSES;
    while fuel > 0
        invariant
            spec_slot_fix(
                cur@,
                pair_views(ts@),
                site@,
                match view {
                    Some(v) => Some(v@),
                    None => None,
                },
                prefix@,
                fuel as nat,
            ) == spec_slot_fix(
                text@,
                pair_views(ts@),
                site@,
                match view {
                    Some(v) => Some(v@),
                    None => None,
                },
                prefix@,
                MERGE_PASSES as nat,
            ),
        decreases fuel,
    {
        let next = slot_pass_chars(&cur, 0, ts, site, view, prefix);
        if chars_eq(&next, &cur) {
            assert(next@ == cur@);
            return cur;
        }
        cur = next;
        fuel = fuel - 1;
    }
    cur
}

/// One full pass of the scan engine: slot passes to a settled text, then one
/// placeholder pass.
pub open spec fn spec_scan_pass(
    text: Seq<char>,
    ts: Seq<(Seq<char>, Seq<char>)>,
    pool: Seq<(Seq<char>, Seq<char>)>,
    site: Seq<char>,
    view: Option<Seq<char>>,
    prefix: Seq<char>,
) -> Seq<char> {
    spec_ph_pass(
        spec_slot_fix(text, ts, site, view, prefix, MERGE_PASSES as nat),
        0,
        ts,
        pool,
        site,
        view,
        prefix,
    )
}

/// Scan passes repeated until the text settles or the bound is spent.
pub open spec fn spec_scan_fix(
    text: Seq<char>,
    ts: Seq<(Seq<char>, Seq<char>)>,
    pool: Seq<(Seq<char>, Seq<char>)>,
    site: Seq<char>,
    view: Option<Seq<char>>,
    prefix: Seq<char>,
    fuel: nat,
) -> Seq<char>
    decreases fuel,
{
    if fuel == 0 {
        text
    } else {
        let t2 = spec_scan_pass(text, ts, pool, site, view, prefix);
        if t2 == text {
            text
        } else {
            spec_scan_fix(t2, ts, pool, site, view, prefix, (fuel - 1) as nat)
        }
    }
}

/// Idempotence of the resolution engine: a text that one full pass leaves
/// unchanged is returned unchanged by the whole iteration, for any pass
/// bound. A merge output that settled before the pass bound therefore merges
/// to itself.
pub proof fn lemma_scan_idempotent(
    text: Seq<char>,
    ts: Seq<(Seq<char>, Seq<char>)>,
    pool: Seq<(Seq<char>, Seq<char>)>,
    site: Seq<char>,
    view: Option<Seq<char>>,
    prefix: Seq<char>,
    fuel: nat,
)
    requires
        spec_scan_pass(text, ts, pool, site, view, prefix) == text,
    ensures
        spec_scan_fix(text, ts, pool, site, view, prefix, fuel) == text,
{
}

// ---------------------------------------------------------------------------
// The scalar pool and the processed store.
// ---------------------------------------------------------------------------

/// The pool extended with the top-level string entries of one JSON object,
/// in entry order; a later binding of a key replaces an earlier one.
pub open spec fn spec_pool_add_obj(
    pool: Seq<(Seq<char>, Seq<char>)>,
    entries: Seq<(String, JsonValue)>,
    j: int,
) -> Seq<(Seq<char>, Seq<char>)>
    decreases entries.len() - j,
{
    if j < 0 || j >= entries.len() {
        pool
    } else {
        let p2 = match entries[j].1 {
            JsonValue::String(s) => spec_pool_put(pool, entries[j].0@, s@),
            _ => pool,
        };
        spec_pool_add_obj(p2, entries, j + 1)
    }
}

/// The scalar pool of a site: the union of all fragments' top-level JSON
/// string entries, in store order; a later fragment overwrites an earlier
/// one on key collision.
pub open spec fn spec_pool_of(
    ts: Seq<(Seq<char>, Seq<char>, Option<Seq<char>>)>,
    i: int,
    pool: Seq<(Seq<char>, Seq<char>)>,
) -> Seq<(Seq<char>, Seq<char>)>
    decreases ts.len() - i,
{
    if i < 0 || i >= ts.len() {
        pool
    } else {
        let p2 = match ts[i].2 {
            Some(j) => spec_pool_add_obj(pool, parsed_json(j).entries@, 0),
            None => pool,
        };
        spec_pool_of(ts, i + 1, p2)
    }
}

fn pool_add_obj_chars(pool: &mut Vec<(Vec<char>, Vec<char>)>, obj: &JsonObject)
    ensures
        pair_views(final(pool)@) == spec_pool_add_obj(pair_views(old(pool)@), obj.entries@, 0),
{
    let mut j: usize = 0;
    while j < obj.entries.len()
        invariant
            j <= obj.entries@.len(),
            spec_pool_add_obj(pair_views(pool@), obj.entries@, j as int) == spec_pool_add_obj(
                pair_views(old(pool)@),
                obj.entries@,
                0,
            ),
        decreases obj.entries@.len() - j,
    {
        let pair = &obj.entries[j];
        match &pair.1 {
            JsonValue::String(s) => {
                let kv = to_chars(pair.0.as_str());
                let vv = to_chars(s.as_str());
                pool_put_chars(pool, kv, vv);
            },
            _ => {},
        }
        j = j + 1;
    }
}

fn build_pool(ts: &SiteTemplates) -> (r: Vec<(Vec<char>, Vec<char>)>)
    ensures
        pair_views(r@) == spec_pool_of(store_view(ts.entries@), 0, Seq::empty()),
{
    let mut pool: Vec<(Vec<char>, Vec<char>)> = Vec::new();
    assert(pair_views(pool@) =~= Seq::<(Seq<char>, Seq<char>)>::empty());
    let mut i: usize = 0;
    while i < ts.entries.len()
        invariant
            i <= ts.entries@.len(),
            spec_pool_of(store_view(ts.entries@), i as int, pair_views(pool@)) == spec_pool_of(
                store_view(ts.entries@),
                0,
                Seq::empty(),
            ),
        decreases ts.entries@.len() - i,
    {
        let e = &ts.entries[i];
        assert(store_view(ts.entries@)[i as int] == entry_view(ts.entries@[i as int]));
        match &e.json {
            Some(j) => {
                let obj = JsonConverter::parse_json_string(j.as_str());
                pool_add_obj_chars(&mut pool, &obj);
            },
            None => {},
        }
        i = i + 1;
    }
    pool
}

/// Each fragment's content after its own JSON binding: a fragment with a
/// JSON document is merged with it when JSON processing is enabled, and kept
/// as is otherwise.
pub open spec fn spec_processed_store(
    ts: Seq<(Seq<char>, Seq<char>, Option<Seq<char>>)>,
    enable: bool,
) -> Seq<(Seq<char>, Seq<char>)> {
    ts.map(
        |i: int, e: (Seq<char>, Seq<char>, Option<Seq<char>>)|
            (
                e.0,
                match e.2 {
                    Some(j) => if enable {
                        spec_merge_with_json(e.1, parsed_json(j))
                    } else {
                        e.1
                    },
                    None => e.1,
                },
            ),
    )
}

fn build_processed_store(ts: &SiteTemplates, enable: bool) -> (r: Vec<(Vec<char>, Vec<char>)>)
    ensures
        pair_views(r@) == spec_processed_store(store_view(ts.entries@), enable),
{
    let mut out: Vec<(Vec<char>, Vec<char>)> = Vec::new();
    let mut i: usize = 0;
    while i < ts.entries.len()
        invariant
            i <= ts.entries@.len(),
            pair_views(out@).len() == i as int,
            forall|k: int|
                0 <= k < i ==> pair_views(out@)[k] == spec_processed_store(
                    store_view(ts.entries@),
                    enable,
                )[k],
        decreases ts.entries@.len() - i,
    {
        let e = &ts.entries[i];
        assert(store_view(ts.entries@)[i as int] == entry_view(ts.entries@[i as int]));
        let kv = to_chars(e.key.as_str());
        let hv = to_chars(e.html.as_str());
        let content = match &e.json {
            Some(j) => {
                if enable {
                    let obj = JsonConverter::parse_json_string(j.as_str());
                    merge_with_json_chars(&hv, &obj)
                } else {
                    hv
                }
            },
            None => hv,
        };
        let ghost old_out = out@;
        out.push((kv, content));
        proof {
            assert forall|k: int| 0 <= k < i + 1 implies pair_views(out@)[k]
                == spec_processed_store(store_view(ts.entries@), enable)[k] by {
                assert(pair_views(out@)[k] == (out@[k].0@, out@[k].1@));
                if k < i {
                    assert(out@[k] == old_out[k]);
                    assert(pair_views(old_out)[k] == (old_out[k].0@, old_out[k].1@));
                }
            }
        }
        i = i + 1;
    }
    assert(pair_views(out@) =~= spec_processed_store(store_view(ts.entries@), enable));
    out
}

// ---------------------------------------------------------------------------
// The engine.
// ---------------------------------------------------------------------------

/// The whole merge: the entry fragment is resolved under view fallback,
/// bound to its own JSON when enabled, and then rewritten by slot and
/// placeholder passes against the site's JSON-bound fragments and scalar
/// pool until it settles or the pass bound is spent. An empty store, or an
/// entry that does not resolve, yields the empty string.
pub open spec fn spec_merge_templates(
    ts: Seq<(Seq<char>, Seq<char>, Option<Seq<char>>)>,
    site: Seq<char>,
    file: Seq<char>,
    view: Option<Seq<char>>,
    prefix: Seq<char>,
    enable: bool,
) -> Seq<char> {
    if ts.len() == 0 {
        Seq::<char>::empty()
    } else {
        match spec_get_template_raw(ts, site, file, view, prefix) {
            None => Seq::<char>::empty(),
            Some(m) => {
                let content0 = match m.1 {
                    Some(j) => if enable {
                        spec_merge_with_json(m.0, parsed_json(j))
                    } else {
                        m.0
                    },
                    None => m.0,
                };
                let pool = if enable {
                    spec_pool_of(ts, 0, Seq::empty())
                } else {
                    Seq::<(Seq<char>, Seq<char>)>::empty()
                };
                spec_scan_fix(
                    content0,
                    spec_processed_store(ts, enable),
                    pool,
                    site,
                    view,
                    prefix,
                    MERGE_PASSES as nat,
                )
            },
        }
    }
}

/// The scan engine. It holds only the view prefix; merging is stateless
/// across calls.
pub struct EngineNormal {
    pub app_view_prefix: String,
}

impl EngineNormal {
    /// An engine with the given view prefix.
    pub fn new(prefix: String) -> (r: EngineNormal)
        ensures
            r.app_view_prefix@ == prefix@,
    {
        EngineNormal { app_view_prefix: prefix }
    }

    /// The engine's view prefix.
    pub fn app_view_prefix(&self) -> (r: &str)
        ensures
            r@ == self.app_view_prefix@,
    {
        self.app_view_prefix.as_str()
    }

    /// Replace the engine's view prefix.
    pub fn set_app_view_prefix(&mut self, prefix: String)
        ensures
            final(self).app_view_prefix@ == prefix@,
    {
        self.app_view_prefix = prefix;
    }

    /// Merge the entry fragment of a site under an optional view, resolving
    /// simple references, slotted references and JSON bindings until the
    /// text settles or the pass bound is spent.
    #[verifier::loop_isolation(false)]
    pub fn merge_templates(
        &self,
        app_site: &str,
        app_file: &str,
        app_view: Option<&str>,
        templates: &SiteTemplates,
        enable_json_processing: bool,
    ) -> (r: String)
        ensures
            r@ == spec_merge_templates(
                store_view(templates.entries@),
                app_site@,
                app_file@,
                match app_view {
                    Some(v) => Some(v@),
                    None => None,
                },
                self.app_view_prefix@,
                enable_json_processing,
            ),
    {
        let empty: Vec<char> = Vec::new();
        if templates.entries.len() == 0 {
            return chars_to_string(&empty);
        }
        let site = to_chars(app_site);
        let file = to_chars(app_file);
        let prefix = to_chars(self.app_view_prefix.as_str());
        let view_chars: Option<Vec<char>> = match app_view {
            Some(v) => Some(to_chars(v)),
            None => None,
        };
        let view_ref: Option<&Vec<char>> = match &view_chars {
            Some(v) => Some(v),
            None => None,
        };
        let main = get_template_raw(templates, &site, &file, view_ref, &prefix);
        match main {
            None => chars_to_string(&empty),
            Some(m) => {
                let content0 = match &m.1 {
                    Some(j) => {
                        if enable_json_processing {
                            let obj = JsonConverter::parse_json_string(j.as_str());
                            merge_with_json_chars(&m.0, &obj)
                        } else {
                            m.0
                        }
                    },
                    None => m.0,
                };
                let pool: Vec<(Vec<char>, Vec<char>)> = if enable_json_processing {
                    build_pool(templates)
                } else {
                    let p: Vec<(Vec<char>, Vec<char>)> = Vec::new();
                    assert(pair_views(p@) =~= Seq::<(Seq<char>, Seq<char>)>::empty());
                    p
                };
                let pts = build_processed_store(templates, enable_json_processing);
                let mut cur = content0;
                let mut fuel: usize = MERGE_PASSES;
                while fuel > 0
                    invariant
                        spec_scan_fix(
                            cur@,
                            pair_views(pts@),
                            pair_views(pool@),
                            site@,
                            match view_chars {
                                Some(v) => Some(v@),
                                None => None,
                            },
                            prefix@,
                            fuel as nat,
                        ) == spec_scan_fix(
                            spec_merge_templates_start(
                                store_view(templates.entries@),
                                site@,
                                file@,
                                match view_chars {
                                    Some(v) => Some(v@),
                                    None => None,
                                },
                                prefix@,
                                enable_json_processing,
                            ),
                            pair_views(pts@),
                            pair_views(pool@),
                            site@,
                            match view_chars {
                                Some(v) => Some(v@),
                                None => None,
                            },
                            prefix@,
                            MERGE_PASSES as nat,
                        ),
                        pair_views(pts@) == spec_processed_store(
                            store_view(templates.entries@),
                            enable_json_processing,
                        ),
                        pair_views(pool@) == (if enable_json_processing {
                            spec_pool_of(store_view(templates.entries@), 0, Seq::empty())
                        } else {
                            Seq::<(Seq<char>, Seq<char>)>::empty()
                        }),
                        site@ == app_site@,
                        prefix@ == self.app_view_prefix@,
                        (match view_chars {
                            Some(v) => Some(v@),
                            None => None,
                        }) == (match app_view {
                            Some(v) => Some(v@),
                            None => None,
                        }),
                    decreases fuel,
                {
                    let view_ref2: Option<&Vec<char>> = match &view_chars {
                        Some(v) => Some(v),
                        None => None,
                    };
                    let slotted = slot_fix_chars(&cur, &pts, &site, view_ref2, &prefix);
                    let next = ph_pass_chars(&slotted, 0, &pts, &pool, &site, view_ref2, &prefix);
                    if chars_eq(&next, &cur) {
                        assert(next@ == cur@);
                        return chars_to_string(&cur);
                    }
                    cur = next;
                    fuel = fuel - 1;
                }
                chars_to_string(&cur)
            },
        }
    }
}

/// The entry fragment's content after its own JSON binding: the text the
/// scan iteration starts from.
pub open spec fn spec_merge_templates_start(
    ts: Seq<(Seq<char>, Seq<char>, Option<Seq<char>>)>,
    site: Seq<char>,
    file: Seq<char>,
    view: Option<Seq<char>>,
    prefix: Seq<char>,
    enable: bool,
) -> Seq<char> {
    match spec_get_template_raw(ts, site, file, view, prefix) {
        None => Seq::<char>::empty(),
        Some(m) => match m.1 {
            Some(j) => if enable {
                spec_merge_with_json(m.0, parsed_json(j))
            } else {
                m.0
            },
            None => m.0,
        },
    }
}

/// Case-insensitive store lookup over processed (key, content) pairs.
fn store_get_chars(ts: &Vec<(Vec<char>, Vec<char>)>, key: &Vec<char>, i: usize) -> (r: Option<
    Vec<char>,
>)
    requires
        i <= ts@.len(),
    ensures
        match r {
            Some(v) => spec_store_get(pair_views(ts@), key@, i as int) == Some(v@),
            None => spec_store_get(pair_views(ts@), key@, i as int) is None,
        },
    decreases ts@.len() - i,
{
    if i >= ts.len() {
        return None;
    }
    assert(pair_views(ts@)[i as int] == (ts@[i as int].0@, ts@[i as int].1@));
    if chars_eq_ci(&ts[i].0, key) {
        Some(ts[i].1.clone())
    } else {
        store_get_chars(ts, key, i + 1)
    }
}

/// Case-insensitive raw store lookup.
fn store_get_raw(ts: &SiteTemplates, key: &Vec<char>, i: usize) -> (r: Option<
    (Vec<char>, Option<String>),
>)
    requires
        i <= ts.entries@.len(),
    ensures
        match r {
            Some(p) => spec_store_get_raw(store_view(ts.entries@), key@, i as int) == Some(
                (
                    p.0@,
                    match p.1 {
                        Some(j) => Some(j@),
                        None => None,
                    },
                ),
            ),
            None => spec_store_get_raw(store_view(ts.entries@), key@, i as int) is None,
        },
    decreases ts.entries@.len() - i,
{
    if i >= ts.entries.len() {
        return None;
    }
    let e = &ts.entries[i];
    assert(store_view(ts.entries@)[i as int] == entry_view(ts.entries@[i as int]));
    let ek = to_chars(e.key.as_str());
    if chars_eq_ci(&ek, key) {
        let html = to_chars(e.html.as_str());
        let json = match &e.json {
            Some(j) => Some(j.clone()),
            None => None,
        };
        Some((html, json))
    } else {
        store_get_raw(ts, key, i + 1)
    }
}

/// View-fallback resolution over processed contents.
pub(crate) fn get_template_chars(
    ts: &Vec<(Vec<char>, Vec<char>)>,
    site: &Vec<char>,
    name: &Vec<char>,
    view: Option<&Vec<char>>,
    prefix: &Vec<char>,
) -> (r: Option<Vec<char>>)
    ensures
        match r {
            Some(v) => spec_get_template(
                pair_views(ts@),
                site@,
                name@,
                match view {
                    Some(v2) => Some(v2@),
                    None => None,
                },
                prefix@,
            ) == Some(v@),
            None => spec_get_template(
                pair_views(ts@),
                site@,
                name@,
                match view {
                    Some(v2) => Some(v2@),
                    None => None,
                },
                prefix@,
            ) is None,
        },
{
    match view {
        Some(v) => {
            if prefix.len() > 0 && crate::binding::contains_ci_chars(name, prefix) {
                let cand = crate::template_utils::replace_first_ci_chars(name, prefix, v);
                let fk = template_key_chars(site, &cand);
                match store_get_chars(ts, &fk, 0) {
                    Some(c) => Some(c),
                    None => {
                        let pk = template_key_chars(site, name);
                        store_get_chars(ts, &pk, 0)
                    },
                }
            } else {
                let pk = template_key_chars(site, name);
                store_get_chars(ts, &pk, 0)
            }
        },
        None => {
            let pk = template_key_chars(site, name);
            store_get_chars(ts, &pk, 0)
        },
    }
}

/// View-fallback resolution over the raw store.
fn get_template_raw(
    ts: &SiteTemplates,
    site: &Vec<char>,
    name: &Vec<char>,
    view: Option<&Vec<char>>,
    prefix: &Vec<char>,
) -> (r: Option<(Vec<char>, Option<String>)>)
    ensures
        ({
            let sv = spec_get_template_raw(
                store_view(ts.entries@),
                site@,
                name@,
                match view {
                    Some(v2) => Some(v2@),
                    None => None,
                },
                prefix@,
            );
            match r {
                Some(p) => sv == Some(
                    (
                        p.0@,
                        match p.1 {
                            Some(j) => Some(j@),
                            None => None,
                        },
                    ),
                ),
                None => sv is None,
            }
        }),
{
    match view {
        Some(v) => {
            if prefix.len() > 0 && crate::binding::contains_ci_chars(name, prefix) {
                let cand = crate::template_utils::replace_first_ci_chars(name, prefix, v);
                let fk = template_key_chars(site, &cand);
                match store_get_raw(ts, &fk, 0) {
                    Some(c) => Some(c),
                    None => {
                        let pk = template_key_chars(site, name);
                        store_get_raw(ts, &pk, 0)
                    },
                }
            } else {
                let pk = template_key_chars(site, name);
                store_get_raw(ts, &pk, 0)
            }
        },
        None => {
            let pk = template_key_chars(site, name);
            store_get_raw(ts, &pk, 0)
        },
    }
}

} // verus!
