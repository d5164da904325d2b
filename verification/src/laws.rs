//! The engine's general laws, stated over the same specification functions
//! that the executable functions' contracts use.

use vstd::prelude::*;
use crate::text::{
    lower_seq, lower_char, is_alnum_seq, matches_at, spec_find, lemma_find_props,
};
use crate::template_utils::{spec_find_close, spec_replace_first_ci};
use crate::binding::{
    braces_pair, spec_trim, spec_tag_candidates, spec_strip_trailing_s, slotted_open_tag,
    block_close_tag, block_open_tag,
};
use crate::engine_normal::{
    braces_open, slotted_marker, template_key, spec_get_template, spec_store_get, spec_pool_get,
    spec_ph_pass, spec_slot_pass, spec_slot_fix, spec_scan_pass, spec_scan_fix,
    lemma_scan_idempotent, MERGE_PASSES,
};
use crate::engine_preprocess::{
    spec_pre_get_content, spec_content_get, spec_exec_pass, spec_exec_fix, lemma_exec_idempotent,
};
use crate::model_preprocess::PreTemplateV;
use crate::binding::{spec_cond_pass, spec_cond_value};
use crate::json::JsonObject;

verus! {

// ---------------------------------------------------------------------------
// Missing-reference preservation.
// ---------------------------------------------------------------------------

/// Whether the `{{…}}` token opening at `o` resolves: a `$`-token by its key
/// in the scalar pool, an alphanumeric name by a fragment under view
/// fallback or by the pool.
pub open spec fn spec_token_resolves(
    text: Seq<char>,
    o: int,
    ts: Seq<(Seq<char>, Seq<char>)>,
    pool: Seq<(Seq<char>, Seq<char>)>,
    site: Seq<char>,
    view: Option<Seq<char>>,
    prefix: Seq<char>,
) -> bool {
    &&& matches_at(text, braces_open(), o)
    &&& match spec_find(text, braces_pair(), o + 2) {
        None => false,
        Some(c) => {
            let name = spec_trim(text.subrange(o + 2, c));
            &&& name.len() > 0
            &&& if name[0] == '$' {
                spec_pool_get(pool, name.subrange(1, name.len() as int), 0) is Some
            } else if is_alnum_seq(name) {
                spec_get_template(ts, site, name, view, prefix) is Some || spec_pool_get(
                    pool,
                    name,
                    0,
                ) is Some
            } else {
                false
            }
        },
    }
}

/// Whether the slotted reference opening at `o` resolves: a well-formed
/// `{{#Name}}…{{/Name}}` block whose name resolves to a fragment.
pub open spec fn spec_slot_ref_resolves(
    text: Seq<char>,
    o: int,
    ts: Seq<(Seq<char>, Seq<char>)>,
    site: Seq<char>,
    view: Option<Seq<char>>,
    prefix: Seq<char>,
) -> bool {
    &&& matches_at(text, slotted_marker(), o)
    &&& match spec_find(text, braces_pair(), o + 3) {
        None => false,
        Some(c) => {
            let name = spec_trim(text.subrange(o + 3, c));
            &&& is_alnum_seq(name)
            &&& spec_find_close(text, slotted_open_tag(name), block_close_tag(name), c + 2, 1)
                is Some
            &&& spec_get_template(ts, site, name, view, prefix) is Some
        },
    }
}

proof fn lemma_unresolved_ph_pass(
    text: Seq<char>,
    pos: int,
    ts: Seq<(Seq<char>, Seq<char>)>,
    pool: Seq<(Seq<char>, Seq<char>)>,
    site: Seq<char>,
    view: Option<Seq<char>>,
    prefix: Seq<char>,
)
    requires
        0 <= pos,
        forall|o: int| !spec_token_resolves(text, o, ts, pool, site, view, prefix),
    ensures
        spec_ph_pass(text, pos, ts, pool, site, view, prefix) == text,
    decreases text.len() - pos,
{
    lemma_find_props(text, braces_open(), pos);
    match spec_find(text, braces_open(), pos) {
        None => {},
        Some(o) => {
            if o + 2 < text.len() && (text[o + 2] == '#' || text[o + 2] == '@' || text[o + 2]
                == '/') {
                lemma_unresolved_ph_pass(text, o + 2, ts, pool, site, view, prefix);
            } else {
                lemma_find_props(text, braces_pair(), o + 2);
                match spec_find(text, braces_pair(), o + 2) {
                    None => {},
                    Some(c) => {
                        let name = spec_trim(text.subrange(o + 2, c));
                        if name.len() == 0 {
                            lemma_unresolved_ph_pass(text, o + 2, ts, pool, site, view, prefix);
                        } else {
                            assert(!spec_token_resolves(text, o, ts, pool, site, view, prefix));
                            lemma_unresolved_ph_pass(text, c + 2, ts, pool, site, view, prefix);
                        }
                    },
                }
            }
        },
    }
}

proof fn lemma_unresolved_slot_pass(
    text: Seq<char>,
    pos: int,
    ts: Seq<(Seq<char>, Seq<char>)>,
    site: Seq<char>,
    view: Option<Seq<char>>,
    prefix: Seq<char>,
)
    requires
        0 <= pos,
        forall|o: int| !spec_slot_ref_resolves(text, o, ts, site, view, prefix),
    ensures
        spec_slot_pass(text, pos, ts, site, view, prefix) == text,
    decreases text.len() - pos,
{
    lemma_find_props(text, slotted_marker(), pos);
    match spec_find(text, slotted_marker(), pos) {
        None => {},
        Some(o) => {
            lemma_find_props(text, braces_pair(), o + 3);
            match spec_find(text, braces_pair(), o + 3) {
                None => {},
                Some(c) => {
                    let name = spec_trim(text.subrange(o + 3, c));
                    assert(!spec_slot_ref_resolves(text, o, ts, site, view, prefix));
                    lemma_unresolved_slot_pass(text, o + 1, ts, site, view, prefix);
                },
            }
        },
    }
}

/// Missing-reference preservation: a text in which no simple or `$` token
/// and no slotted reference resolves is returned by the scan iteration
/// verbatim — every token stays at its original position.
pub proof fn missing_references_preserved(
    text: Seq<char>,
    ts: Seq<(Seq<char>, Seq<char>)>,
    pool: Seq<(Seq<char>, Seq<char>)>,
    site: Seq<char>,
    view: Option<Seq<char>>,
    prefix: Seq<char>,
    fuel: nat,
)
    requires
        forall|o: int| !spec_token_resolves(text, o, ts, pool, site, view, prefix),
        forall|o: int| !spec_slot_ref_resolves(text, o, ts, site, view, prefix),
    ensures
        spec_scan_fix(text, ts, pool, site, view, prefix, fuel) == text,
{
    lemma_unresolved_slot_pass(text, 0, ts, site, view, prefix);
    assert(spec_slot_fix(text, ts, site, view, prefix, MERGE_PASSES as nat) == text);
    lemma_unresolved_ph_pass(text, 0, ts, pool, site, view, prefix);
    assert(spec_scan_pass(text, ts, pool, site, view, prefix) == text);
    lemma_scan_idempotent(text, ts, pool, site, view, prefix, fuel);
}

// ---------------------------------------------------------------------------
// Singular/plural symmetry.
// ---------------------------------------------------------------------------

/// Singular/plural symmetry of block-tag matching: for a stem that does not
/// itself end in `s`, the key spelled as the plural tries the singular tag,
/// and the key spelled as the singular tries the plural tag — so a JSON key
/// `items` binds a block `{{@item}}…{{/item}}` and vice versa.
pub proof fn singular_plural_symmetry(base: Seq<char>)
    requires
        base.len() > 0,
        base[base.len() - 1] != 's',
    ensures
        spec_tag_candidates(base + seq!['s'])[1] == base,
        spec_tag_candidates(base)[1] == base + seq!['s'],
        spec_tag_candidates(base + seq!['s']).contains(base),
        spec_tag_candidates(base).contains(base + seq!['s']),
{
    let plural = base + seq!['s'];
    assert(plural[plural.len() - 1] == 's');
    assert(plural.drop_last() =~= base);
    assert(spec_strip_trailing_s(plural) == spec_strip_trailing_s(base));
    assert(spec_strip_trailing_s(base) == base);
    assert(spec_tag_candidates(plural)[1] == base);
    assert(spec_tag_candidates(base)[1] == plural);
    assert(0 <= 1 < spec_tag_candidates(plural).len());
    assert(0 <= 1 < spec_tag_candidates(base).len());
}

proof fn lemma_exec_pass_identity(
    text: Seq<char>,
    tpls: Seq<(Seq<char>, PreTemplateV)>,
    i: int,
    enable: bool,
    contents: Seq<(Seq<char>, Seq<char>)>,
    view: Option<Seq<char>>,
    prefix: Seq<char>,
)
    requires
        0 <= i,
        forall|t: int|
            0 <= t < tpls.len() ==> (#[trigger] tpls[t]).1.replacement_mappings.len() == 0
                && tpls[t].1.json_placeholders.len() == 0,
    ensures
        spec_exec_pass(text, tpls, i, enable, contents, view, prefix) == text,
    decreases tpls.len() - i,
{
    if i < tpls.len() {
        lemma_exec_pass_identity(text, tpls, i + 1, enable, contents, view, prefix);
    }
}

/// Missing-reference preservation for the preprocess engine: a fragment for
/// which no template of the site carries a replacement mapping or a scalar
/// binding is returned by the executor verbatim — every token stays at its
/// original position.
pub proof fn missing_references_preserved_pre(
    text: Seq<char>,
    tpls: Seq<(Seq<char>, PreTemplateV)>,
    enable: bool,
    contents: Seq<(Seq<char>, Seq<char>)>,
    view: Option<Seq<char>>,
    prefix: Seq<char>,
    fuel: nat,
)
    requires
        forall|t: int|
            0 <= t < tpls.len() ==> (#[trigger] tpls[t]).1.replacement_mappings.len() == 0
                && tpls[t].1.json_placeholders.len() == 0,
    ensures
        spec_exec_fix(text, tpls, enable, contents, view, prefix, fuel) == text,
{
    lemma_exec_pass_identity(text, tpls, 0, enable, contents, view, prefix);
    lemma_exec_idempotent(text, tpls, enable, contents, view, prefix, fuel);
}

// ---------------------------------------------------------------------------
// Idempotence.
// ---------------------------------------------------------------------------

/// Idempotence of the scan engine: when a merge settles — one more full pass
/// leaves its output unchanged, which holds whenever the pass bound was not
/// exhausted — running the engine's iteration again on that output returns
/// it unchanged, whatever pass bound the second run gets.
pub proof fn scan_merge_idempotent(
    text: Seq<char>,
    ts: Seq<(Seq<char>, Seq<char>)>,
    pool: Seq<(Seq<char>, Seq<char>)>,
    site: Seq<char>,
    view: Option<Seq<char>>,
    prefix: Seq<char>,
    fuel: nat,
    fuel2: nat,
)
    requires
        spec_scan_pass(
            spec_scan_fix(text, ts, pool, site, view, prefix, fuel),
            ts,
            pool,
            site,
            view,
            prefix,
        ) == spec_scan_fix(text, ts, pool, site, view, prefix, fuel),
    ensures
        spec_scan_fix(
            spec_scan_fix(text, ts, pool, site, view, prefix, fuel),
            ts,
            pool,
            site,
            view,
            prefix,
            fuel2,
        ) == spec_scan_fix(text, ts, pool, site, view, prefix, fuel),
{
    lemma_scan_idempotent(
        spec_scan_fix(text, ts, pool, site, view, prefix, fuel),
        ts,
        pool,
        site,
        view,
        prefix,
        fuel2,
    );
}

// ---------------------------------------------------------------------------
// Conditional exclusivity.
// ---------------------------------------------------------------------------

/// Lower-casing distributes over concatenation.
proof fn lemma_lower_concat(a: Seq<char>, b: Seq<char>)
    ensures
        lower_seq(a + b) =~= lower_seq(a) + lower_seq(b),
{
}

/// Conditional exclusivity: a text that is exactly one conditional block —
/// whose inner text neither contains an opening tag of the same key nor
/// contains or straddles a closing tag — resolves to its inner text exactly
/// when the item's field is truthy, and to nothing otherwise.
pub proof fn conditional_exclusivity(inner: Seq<char>, key: Seq<char>, item: JsonObject)
    requires
        forall|j: int|
            block_open_tag(key).len() <= j < block_open_tag(key).len() + inner.len()
                ==> !matches_at(
                lower_seq(block_open_tag(key) + inner + block_close_tag(key)),
                lower_seq(block_close_tag(key)),
                j,
            ),
        forall|j: int| !matches_at(lower_seq(inner), lower_seq(block_open_tag(key)), j),
    ensures
        spec_cond_pass(
            block_open_tag(key) + inner + block_close_tag(key),
            block_open_tag(key),
            block_close_tag(key),
            spec_cond_value(item, key),
        ) == if spec_cond_value(item, key) {
            inner
        } else {
            Seq::<char>::empty()
        },
{
    let open = block_open_tag(key);
    let close = block_close_tag(key);
    let cond = spec_cond_value(item, key);
    let text = open + inner + close;
    let lt = lower_seq(text);
    lemma_lower_concat(open + inner, close);
    lemma_lower_concat(open, inner);
    assert(lt =~= lower_seq(open) + lower_seq(inner) + lower_seq(close));
    assert(matches_at(lt, lower_seq(open), 0)) by {
        assert(lt.subrange(0, open.len() as int) =~= lower_seq(open));
    }
    assert(spec_find(lt, lower_seq(open), 0) == Some(0int));
    let e = open.len() + inner.len();
    assert(matches_at(lt, lower_seq(close), e as int)) by {
        assert(lt.subrange(e as int, (e + close.len()) as int) =~= lower_seq(close));
    }
    lemma_find_props(lt, lower_seq(close), open.len() as int);
    match spec_find(lt, lower_seq(close), open.len() as int) {
        None => {
            assert(false);
        },
        Some(i) => {
            assert(i == e) by {
                if i < e {
                    assert(!matches_at(lt, lower_seq(close), i));
                }
            }
        },
    }
    let kept = if cond {
        inner
    } else {
        Seq::<char>::empty()
    };
    let text2 = text.subrange(0, 0) + (if cond {
        text.subrange(open.len() as int, e as int)
    } else {
        Seq::<char>::empty()
    }) + text.subrange((e + close.len()) as int, text.len() as int);
    assert(text.subrange(open.len() as int, e as int) =~= inner);
    assert(text2 =~= kept);
    assert(spec_cond_pass(text, open, close, cond) == spec_cond_pass(kept, open, close, cond));
    lemma_find_props(lower_seq(kept), lower_seq(open), 0);
    match spec_find(lower_seq(kept), lower_seq(open), 0) {
        None => {},
        Some(i2) => {
            assert(matches_at(lower_seq(kept), lower_seq(open), i2));
            if cond {
                assert(!matches_at(lower_seq(inner), lower_seq(open), i2));
            } else {
                assert(lower_seq(kept).len() == 0);
            }
            assert(false);
        },
    }
    assert(spec_cond_pass(kept, open, close, cond) == kept);
}

// ---------------------------------------------------------------------------
// Agreement of the two engines' fragment resolution.
// ---------------------------------------------------------------------------

/// Lower-casing is idempotent on sequences.
proof fn lemma_lower_idempotent(s: Seq<char>)
    ensures
        lower_seq(lower_seq(s)) =~= lower_seq(s),
{
    assert forall|i: int| 0 <= i < s.len() implies lower_char(lower_char(s[i])) == lower_char(
        s[i],
    ) by {
        let c = s[i];
        if 65 <= c as u32 && c as u32 <= 90 {
            assert(lower_char(c) == ((c as u32 + 32) as u8) as char);
        }
    }
}

/// A constructed template key is already lower-case.
proof fn lemma_template_key_lower(site: Seq<char>, name: Seq<char>)
    ensures
        lower_seq(template_key(site, name)) =~= template_key(site, name),
{
    lemma_lower_idempotent(site);
    lemma_lower_idempotent(name);
    assert forall|i: int| 0 <= i < template_key(site, name).len() implies lower_char(
        template_key(site, name)[i],
    ) == template_key(site, name)[i] by {
        let k = template_key(site, name);
        if i < lower_seq(site).len() {
            assert(k[i] == lower_seq(site)[i]);
            assert(lower_seq(lower_seq(site))[i] == lower_char(lower_seq(site)[i]));
        } else if i == lower_seq(site).len() {
            assert(k[i] == '_');
        } else {
            let j = i - lower_seq(site).len() - 1;
            assert(k[i] == lower_seq(name)[j]);
            assert(lower_seq(lower_seq(name))[j] == lower_char(lower_seq(name)[j]));
        }
    }
}

proof fn lemma_store_get_agree(
    contents: Seq<(Seq<char>, Seq<char>)>,
    key: Seq<char>,
    i: int,
)
    requires
        forall|k: int|
            0 <= k < contents.len() ==> lower_seq(#[trigger] contents[k].0) == contents[k].0,
        lower_seq(key) == key,
        0 <= i,
    ensures
        spec_store_get(contents, key, i) == spec_content_get(contents, key, i),
    decreases contents.len() - i,
{
    if i < contents.len() {
        assert(lower_seq(contents[i].0) == contents[i].0);
        lemma_store_get_agree(contents, key, i + 1);
    }
}

/// The two engines resolve fragments alike: on a store whose keys are
/// lower-case — as both loaders build them — the scan engine's
/// case-insensitive lookup and the preprocess engine's exact lookup return
/// the same fragment for every name, view and prefix.
pub proof fn engines_resolve_alike(
    contents: Seq<(Seq<char>, Seq<char>)>,
    site: Seq<char>,
    name: Seq<char>,
    view: Option<Seq<char>>,
    prefix: Seq<char>,
)
    requires
        forall|k: int|
            0 <= k < contents.len() ==> lower_seq(#[trigger] contents[k].0) == contents[k].0,
    ensures
        spec_get_template(contents, site, name, view, prefix) == spec_pre_get_content(
            contents,
            site,
            name,
            view,
            prefix,
        ),
{
    lemma_template_key_lower(site, name);
    lemma_store_get_agree(contents, template_key(site, name), 0);
    match view {
        Some(v) => {
            if prefix.len() > 0 && spec_find(lower_seq(name), lower_seq(prefix), 0) is Some {
                let cand = spec_replace_first_ci(name, prefix, v);
                lemma_template_key_lower(site, cand);
                lemma_store_get_agree(contents, template_key(site, cand), 0);
            }
        },
        None => {},
    }
}

} // verus!
