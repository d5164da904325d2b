//! The preprocessor: parses each fragment once into placeholders, slotted
//! references and JSON data, then builds the site-wide replacement mappings
//! the preprocess engine applies. Reading files is the host's job.

use vstd::prelude::*;
use crate::text::{
    lower_seq, is_alnum_seq, matches_at, spec_find, spec_digits_end, lemma_find_props,
    lemma_digits_end_bounds, to_chars, chars_to_string, find_at, lower_chars, subrange_chars,
    concat_chars, is_alnum_chars, digits_end,
};
use crate::template_utils::{
    spec_find_close, spec_remove_slot_keys, lemma_find_close_props, find_close_from,
    remove_slot_keys_chars, chars_eq, braces_close_vec,
};
use crate::binding::{
    braces_pair, spec_trim, trim_chars, spec_replace_all, replace_all_chars, spec_replace_all_ci,
    replace_all_ci_chars, spec_expand_items, expand_items_chars, spec_process_conditionals,
    process_conditionals_chars, spec_cond_keys, cond_keys_chars, spec_cond_value,
    cond_value_chars, spec_cond_pass, cond_pass_chars, spec_pick_block, lemma_pick_block_props,
    spec_tag_candidates, tag_candidates_chars, scalar_token, simple_token, scalar_token_vec,
    simple_token_vec, block_open_tag_vec, block_close_tag_vec, block_close_tag_spaced_vec,
    contains_ci_chars, seq_views,
};
use crate::json::{JsonValue, JsonArray, JsonObject, JsonConverter, parsed_json, spec_value_text};
use crate::engine_normal::{
    slotted_marker, slot_block_marker, slot_open_of, slot_close_of, slot_key_of, pair_views,
    template_key, template_key_chars,
};
use crate::loader_normal::{TemplateFile, spec_cache_index};
use crate::model_preprocess::{
    TemplatePlaceholder, PlaceholderV, SlotPlaceholder, SlotV, SlottedTemplate, SlottedV,
    JsonPlaceholder, JsonPlaceholderV, ReplacementMapping, MappingV, ReplacementType,
    PreprocessedTemplate, PreTemplateV, PreprocessedSiteTemplates,
};

verus! {

// ---------------------------------------------------------------------------
// Views of parsed vectors.
// ---------------------------------------------------------------------------

pub open spec fn ph_views(s: Seq<TemplatePlaceholder>) -> Seq<PlaceholderV> {
    s.map(|i: int, p: TemplatePlaceholder| p@)
}

pub open spec fn slot_views(s: Seq<SlotPlaceholder>) -> Seq<SlotV> {
    s.map(|i: int, p: SlotPlaceholder| p@)
}

pub open spec fn slotted_views(s: Seq<SlottedTemplate>) -> Seq<SlottedV> {
    s.map(|i: int, p: SlottedTemplate| p@)
}

pub open spec fn jph_views(s: Seq<JsonPlaceholder>) -> Seq<JsonPlaceholderV> {
    s.map(|i: int, p: JsonPlaceholder| p@)
}

pub open spec fn mapping_views(s: Seq<ReplacementMapping>) -> Seq<MappingV> {
    s.map(|i: int, p: ReplacementMapping| p@)
}

// ---------------------------------------------------------------------------
// Parsing placeholders.
// ---------------------------------------------------------------------------

/// Whether a placeholder with this name was already collected.
pub open spec fn spec_has_ph_name(acc: Seq<PlaceholderV>, name: Seq<char>, i: int) -> bool
    decreases acc.len() - i,
{
    if i < 0 || i >= acc.len() {
        false
    } else if acc[i].name == name {
        true
    } else {
        spec_has_ph_name(acc, name, i + 1)
    }
}

/// The simple-reference occurrences of a fragment, scanning from `pos`:
/// every alphanumeric `{{Name}}` token, first occurrence of each name only.
pub open spec fn spec_parse_placeholders(
    content: Seq<char>,
    pos: int,
    acc: Seq<PlaceholderV>,
) -> Seq<PlaceholderV>
    decreases content.len() - pos,
    when 0 <= pos
    via spec_parse_placeholders_dec
{
    match spec_find(content, crate::engine_normal::braces_open(), pos) {
        None => acc,
        Some(o) => {
            if o + 2 < content.len() && (content[o + 2] == '#' || content[o + 2] == '@' || content[o
                + 2] == '$' || content[o + 2] == '/') {
                spec_parse_placeholders(content, o + 2, acc)
            } else {
                match spec_find(content, braces_pair(), o + 2) {
                    None => acc,
                    Some(c) => {
                        let name = spec_trim(content.subrange(o + 2, c));
                        if !is_alnum_seq(name) {
                            spec_parse_placeholders(content, o + 2, acc)
                        } else {
                            let acc2 = if spec_has_ph_name(acc, name, 0) {
                                acc
                            } else {
                                acc.push(
                                    PlaceholderV {
                                        name: name,
                                        start_index: o,
                                        end_index: c + 2,
                                        full_match: content.subrange(o, c + 2),
                                        template_key: lower_seq(name),
                                    },
                                )
                            };
                            spec_parse_placeholders(content, c + 2, acc2)
                        }
                    },
                }
            }
        },
    }
}

#[via_fn]
proof fn spec_parse_placeholders_dec(content: Seq<char>, pos: int, acc: Seq<PlaceholderV>) {
    lemma_find_props(content, crate::engine_normal::braces_open(), pos);
    match spec_find(content, crate::engine_normal::braces_open(), pos) {
        None => {},
        Some(o) => {
            lemma_find_props(content, braces_pair(), o + 2);
        },
    }
}

fn has_ph_name(acc: &Vec<TemplatePlaceholder>, name: &Vec<char>, i: usize) -> (r: bool)
    requires
        i <= acc@.len(),
    ensures
        r == spec_has_ph_name(ph_views(acc@), name@, i as int),
    decreases acc@.len() - i,
{
    if i >= acc.len() {
        return false;
    }
    assert(ph_views(acc@)[i as int] == acc@[i as int]@);
    let en = to_chars(acc[i].name.as_str());
    if chars_eq(&en, name) {
        true
    } else {
        has_ph_name(acc, name, i + 1)
    }
}

/// The simple-reference occurrences of a fragment.
pub(crate) fn parse_placeholder_templates(content: &Vec<char>) -> (r: Vec<TemplatePlaceholder>)
    ensures
        ph_views(r@) == spec_parse_placeholders(content@, 0, Seq::empty()),
{
    proof {
        reveal_strlit("}}");
    }
    let braces2 = crate::template_utils::braces_close_vec();
    let n = content.len();
    let mut marker: Vec<char> = Vec::new();
    marker.push('{');
    marker.push('{');
    assert(marker@ =~= crate::engine_normal::braces_open());
    assert(braces2@ =~= braces_pair());
    let mut acc: Vec<TemplatePlaceholder> = Vec::new();
    let mut pos: usize = 0;
    assert(ph_views(acc@) =~= Seq::<PlaceholderV>::empty());
    loop
        invariant
            pos <= n,
            n == content@.len(),
            marker@ == crate::engine_normal::braces_open(),
            braces2@ == braces_pair(),
            spec_parse_placeholders(content@, pos as int, ph_views(acc@))
                == spec_parse_placeholders(content@, 0, Seq::empty()),
        decreases n - pos,
    {
        proof {
            lemma_find_props(content@, marker@, pos as int);
        }
        match find_at(content, &marker, pos) {
            None => {
                return acc;
            },
            Some(o) => {
                if o + 2 < n && (content[o + 2] == '#' || content[o + 2] == '@' || content[o + 2]
                    == '$' || content[o + 2] == '/') {
                    pos = o + 2;
                } else {
                    proof {
                        lemma_find_props(content@, braces2@, o + 2);
                    }
                    match find_at(content, &braces2, o + 2) {
                        None => {
                            return acc;
                        },
                        Some(c) => {
                            let raw = subrange_chars(content, o + 2, c);
                            let name = trim_chars(&raw);
                            if !is_alnum_chars(&name) {
                                pos = o + 2;
                            } else {
                                if !has_ph_name(&acc, &name, 0) {
                                    let fm = subrange_chars(content, o, c + 2);
                                    let lname = lower_chars(&name);
                                    let ghost old_acc = acc@;
                                    acc.push(
                                        TemplatePlaceholder {
                                            name: chars_to_string(&name),
                                            start_index: o,
                                            end_index: c + 2,
                                            full_match: chars_to_string(&fm),
                                            template_key: chars_to_string(&lname),
                                        },
                                    );
                                    proof {
                                        assert(ph_views(acc@) =~= ph_views(old_acc).push(
                                            acc@[old_acc.len() as int]@,
                                        ));
                                    }
                                }
                                pos = c + 2;
                            }
                        },
                    }
                }
            },
        }
    }
}

// ---------------------------------------------------------------------------
// Parsing slots and slotted references.
// ---------------------------------------------------------------------------

/// The slots of a slotted reference's inner content, scanning from `pos`.
pub open spec fn spec_parse_slots(inner: Seq<char>, pos: int, acc: Seq<SlotV>) -> Seq<SlotV>
    decreases inner.len() - pos,
    when 0 <= pos
    via spec_parse_slots_dec
{
    match spec_find(inner, slot_block_marker(), pos) {
        None => acc,
        Some(m) => {
            let d = spec_digits_end(inner, m + slot_block_marker().len());
            if !matches_at(inner, braces_pair(), d) {
                spec_parse_slots(inner, m + 1, acc)
            } else {
                let num = inner.subrange(m + slot_block_marker().len(), d);
                match spec_find_close(inner, slot_open_of(num), slot_close_of(num), d + 2, 1) {
                    None => spec_parse_slots(inner, m + 1, acc),
                    Some(ce) => {
                        let endpos = ce + slot_close_of(num).len();
                        let slot = SlotV {
                            number: num,
                            start_index: m,
                            end_index: endpos,
                            content: inner.subrange(d + 2, ce),
                            slot_key: slot_key_of(num),
                            open_tag: slot_open_of(num),
                            close_tag: slot_close_of(num),
                        };
                        spec_parse_slots(inner, endpos, acc.push(slot))
                    },
                }
            }
        },
    }
}

#[via_fn]
proof fn spec_parse_slots_dec(inner: Seq<char>, pos: int, acc: Seq<SlotV>) {
    lemma_find_props(inner, slot_block_marker(), pos);
    match spec_find(inner, slot_block_marker(), pos) {
        None => {},
        Some(m) => {
            lemma_digits_end_bounds(inner, m + slot_block_marker().len());
            let d = spec_digits_end(inner, m + slot_block_marker().len());
            if matches_at(inner, braces_pair(), d) {
                let num = inner.subrange(m + slot_block_marker().len(), d);
                lemma_find_close_props(inner, slot_open_of(num), slot_close_of(num), d + 2, 1);
            }
        },
    }
}

/// The slots of a slotted reference's inner content.
pub(crate) fn parse_slots(inner: &Vec<char>) -> (r: Vec<SlotPlaceholder>)
    ensures
        slot_views(r@) == spec_parse_slots(inner@, 0, Seq::empty()),
{
    proof {
        reveal_strlit("}}");
    }
    let marker = crate::engine_normal::slot_marker_vec();
    let braces = braces_close_vec();
    let n = inner.len();
    let mut acc: Vec<SlotPlaceholder> = Vec::new();
    let mut pos: usize = 0;
    assert(slot_views(acc@) =~= Seq::<SlotV>::empty());
    loop
        invariant
            pos <= n,
            n == inner@.len(),
            marker@ == slot_block_marker(),
            braces@ == braces_pair(),
            spec_parse_slots(inner@, pos as int, slot_views(acc@)) == spec_parse_slots(
                inner@,
                0,
                Seq::empty(),
            ),
        decreases n - pos,
    {
        proof {
            reveal_strlit("}}");
            lemma_find_props(inner@, marker@, pos as int);
        }
        assert(crate::template_utils::braces_close() =~= braces_pair());
        match find_at(inner, &marker, pos) {
            None => {
                return acc;
            },
            Some(m) => {
                proof {
                    lemma_digits_end_bounds(inner@, m + marker@.len());
                }
                let d = digits_end(inner, m + marker.len());
                let mut closed = false;
                if n - d >= 2 {
                    let br = subrange_chars(inner, d, d + 2);
                    if chars_eq(&br, &braces) {
                        closed = true;
                    }
                }
                if !closed {
                    assert(!matches_at(inner@, braces_pair(), d as int));
                    pos = m + 1;
                } else {
                    assert(matches_at(inner@, braces_pair(), d as int));
                    let num = subrange_chars(inner, m + marker.len(), d);
                    let open_tag = crate::engine_normal::slot_tag_vec('@', &num);
                    let close_tag = crate::engine_normal::slot_tag_vec('/', &num);
                    let key_tag = crate::engine_normal::slot_tag_vec('$', &num);
                    assert(open_tag@ =~= slot_open_of(num@));
                    assert(close_tag@ =~= slot_close_of(num@));
                    assert(key_tag@ =~= slot_key_of(num@));
                    proof {
                        lemma_find_close_props(inner@, slot_open_of(num@), slot_close_of(num@), d + 2, 1);
                    }
                    match find_close_from(inner, &open_tag, &close_tag, d + 2, 1) {
                        None => {
                            pos = m + 1;
                        },
                        Some(ce) => {
                            let content = subrange_chars(inner, d + 2, ce);
                            let endpos = ce + close_tag.len();
                            let ghost old_acc = acc@;
                            acc.push(
                                SlotPlaceholder {
                                    number: chars_to_string(&num),
                                    start_index: m,
                                    end_index: endpos,
                                    content: chars_to_string(&content),
                                    slot_key: chars_to_string(&key_tag),
                                    open_tag: chars_to_string(&open_tag),
                                    close_tag: chars_to_string(&close_tag),
                                },
                            );
                            proof {
                                assert(slot_views(acc@) =~= slot_views(old_acc).push(
                                    acc@[old_acc.len() as int]@,
                                ));
                            }
                            pos = endpos;
                        },
                    }
                }
            },
        }
    }
}

/// Whether a slotted reference with this name was already collected.
pub open spec fn spec_has_slotted_name(acc: Seq<SlottedV>, name: Seq<char>, i: int) -> bool
    decreases acc.len() - i,
{
    if i < 0 || i >= acc.len() {
        false
    } else if acc[i].name == name {
        true
    } else {
        spec_has_slotted_name(acc, name, i + 1)
    }
}

/// The slotted-reference occurrences of a fragment, scanning from `pos`,
/// first occurrence of each name only.
pub open spec fn spec_parse_slotted(
    content: Seq<char>,
    pos: int,
    acc: Seq<SlottedV>,
) -> Seq<SlottedV>
    decreases content.len() - pos,
    when 0 <= pos
    via spec_parse_slotted_dec
{
    match spec_find(content, slotted_marker(), pos) {
        None => acc,
        Some(o) => match spec_find(content, braces_pair(), o + 3) {
            None => acc,
            Some(c) => {
                let name = spec_trim(content.subrange(o + 3, c));
                if !is_alnum_seq(name) {
                    spec_parse_slotted(content, o + 1, acc)
                } else {
                    match spec_find_close(
                        content,
                        crate::binding::slotted_open_tag(name),
                        crate::binding::block_close_tag(name),
                        c + 2,
                        1,
                    ) {
                        None => spec_parse_slotted(content, o + 1, acc),
                        Some(ce) => {
                            let endpos = ce + crate::binding::block_close_tag(name).len();
                            let st = SlottedV {
                                name: name,
                                start_index: o,
                                end_index: endpos,
                                full_match: content.subrange(o, endpos),
                                inner_content: content.subrange(c + 2, ce),
                                slots: spec_parse_slots(
                                    content.subrange(c + 2, ce),
                                    0,
                                    Seq::empty(),
                                ),
                                template_key: lower_seq(name),
                            };
                            let acc2 = if spec_has_slotted_name(acc, name, 0) {
                                acc
                            } else {
                                acc.push(st)
                            };
                            spec_parse_slotted(content, endpos, acc2)
                        },
                    }
                }
            },
        },
    }
}

#[via_fn]
proof fn spec_parse_slotted_dec(content: Seq<char>, pos: int, acc: Seq<SlottedV>) {
    lemma_find_props(content, slotted_marker(), pos);
    match spec_find(content, slotted_marker(), pos) {
        None => {},
        Some(o) => {
            lemma_find_props(content, braces_pair(), o + 3);
            match spec_find(content, braces_pair(), o + 3) {
                None => {},
                Some(c) => {
                    let name = spec_trim(content.subrange(o + 3, c));
                    lemma_find_close_props(
                        content,
                        crate::binding::slotted_open_tag(name),
                        crate::binding::block_close_tag(name),
                        c + 2,
                        1,
                    );
                },
            }
        },
    }
}

fn has_slotted_name(acc: &Vec<SlottedTemplate>, name: &Vec<char>, i: usize) -> (r: bool)
    requires
        i <= acc@.len(),
    ensures
        r == spec_has_slotted_name(slotted_views(acc@), name@, i as int),
    decreases acc@.len() - i,
{
    if i >= acc.len() {
        return false;
    }
    assert(slotted_views(acc@)[i as int] == acc@[i as int]@);
    let en = to_chars(acc[i].name.as_str());
    if chars_eq(&en, name) {
        true
    } else {
        has_slotted_name(acc, name, i + 1)
    }
}

/// The slotted-reference occurrences of a fragment.
pub(crate) fn parse_slotted_templates(content: &Vec<char>) -> (r: Vec<SlottedTemplate>)
    ensures
        slotted_views(r@) == spec_parse_slotted(content@, 0, Seq::empty()),
{
    let n = content.len();
    let mut marker: Vec<char> = Vec::new();
    marker.push('{');
    marker.push('{');
    marker.push('#');
    assert(marker@ =~= slotted_marker());
    proof {
        reveal_strlit("}}");
    }
    let braces = braces_close_vec();
    assert(braces@ =~= braces_pair());
    let mut acc: Vec<SlottedTemplate> = Vec::new();
    let mut pos: usize = 0;
    assert(slotted_views(acc@) =~= Seq::<SlottedV>::empty());
    loop
        invariant
            pos <= n,
            n == content@.len(),
            marker@ == slotted_marker(),
            braces@ == braces_pair(),
            spec_parse_slotted(content@, pos as int, slotted_views(acc@)) == spec_parse_slotted(
                content@,
                0,
                Seq::empty(),
            ),
        decreases n - pos,
    {
        proof {
            lemma_find_props(content@, marker@, pos as int);
        }
        match find_at(content, &marker, pos) {
            None => {
                return acc;
            },
            Some(o) => {
                proof {
                    lemma_find_props(content@, braces@, o + 3);
                }
                match find_at(content, &braces, o + 3) {
                    None => {
                        return acc;
                    },
                    Some(c) => {
                        let raw = subrange_chars(content, o + 3, c);
                        let name = trim_chars(&raw);
                        if !is_alnum_chars(&name) {
                            pos = o + 1;
                        } else {
                            let open_tag = crate::binding::slotted_open_tag_vec(&name);
                            let close_tag = crate::binding::block_close_tag_vec(&name);
                            assert(open_tag@.len() > 0 && close_tag@.len() > 0);
                            proof {
                                lemma_find_close_props(content@, open_tag@, close_tag@, c + 2, 1);
                            }
                            match find_close_from(content, &open_tag, &close_tag, c + 2, 1) {
                                None => {
                                    pos = o + 1;
                                },
                                Some(ce) => {
                                    let endpos = ce + close_tag.len();
                                    if !has_slotted_name(&acc, &name, 0) {
                                        let fm = subrange_chars(content, o, endpos);
                                        let inner = subrange_chars(content, c + 2, ce);
                                        let slots = parse_slots(&inner);
                                        let lname = lower_chars(&name);
                                        let ghost old_acc = acc@;
                                        acc.push(
                                            SlottedTemplate {
                                                name: chars_to_string(&name),
                                                start_index: o,
                                                end_index: endpos,
                                                full_match: chars_to_string(&fm),
                                                inner_content: chars_to_string(&inner),
                                                slots,
                                                template_key: chars_to_string(&lname),
                                            },
                                        );
                                        proof {
                                            assert(slotted_views(acc@) =~= slotted_views(
                                                old_acc,
                                            ).push(acc@[old_acc.len() as int]@));
                                        }
                                    }
                                    pos = endpos;
                                },
                            }
                        }
                    },
                }
            },
        }
    }
}

// ---------------------------------------------------------------------------
// Preprocessing one fragment.
// ---------------------------------------------------------------------------

/// One fragment preprocessed in isolation: its source text kept whole, its
/// references extracted, and its JSON parsed; an empty fragment carries
/// nothing. Replacement mappings are added later, site-wide.
pub fn preprocess_template(content: &str, json_content: Option<&str>) -> (r: PreprocessedTemplate)
    ensures
        r.original_content@ == content@,
        content@.len() > 0 ==> r@.placeholders == spec_parse_placeholders(
            content@,
            0,
            Seq::empty(),
        ),
        content@.len() > 0 ==> r@.slotted_templates == spec_parse_slotted(
            content@,
            0,
            Seq::empty(),
        ),
        content@.len() > 0 ==> r.json_data == (match json_content {
            Some(j) => Some(parsed_json(j@)),
            None => None::<JsonObject>,
        }),
        content@.len() == 0 ==> r@.placeholders.len() == 0 && r@.slotted_templates.len() == 0
            && r.json_data is None,
        r@.json_placeholders.len() == 0,
        r@.replacement_mappings.len() == 0,
{
    let cv = to_chars(content);
    if cv.len() == 0 {
        let out = PreprocessedTemplate {
            original_content: content.to_owned(),
            placeholders: Vec::new(),
            slotted_templates: Vec::new(),
            json_data: None,
            json_placeholders: Vec::new(),
            replacement_mappings: Vec::new(),
            has_placeholders_flag: false,
            has_slotted_templates_flag: false,
            has_json_data_flag: false,
            has_json_placeholders_flag: false,
            has_replacement_mappings_flag: false,
            requires_processing_flag: false,
        };
        assert(out@.placeholders =~= Seq::<PlaceholderV>::empty());
        assert(out@.slotted_templates =~= Seq::<SlottedV>::empty());
        assert(out@.json_placeholders =~= Seq::<JsonPlaceholderV>::empty());
        assert(out@.replacement_mappings =~= Seq::<MappingV>::empty());
        return out;
    }
    let json_data = match json_content {
        Some(j) => Some(JsonConverter::parse_json_string(j)),
        None => None,
    };
    let placeholders = parse_placeholder_templates(&cv);
    let slotted_templates = parse_slotted_templates(&cv);
    let out = PreprocessedTemplate {
        original_content: content.to_owned(),
        placeholders,
        slotted_templates,
        json_data,
        json_placeholders: Vec::new(),
        replacement_mappings: Vec::new(),
        has_placeholders_flag: false,
        has_slotted_templates_flag: false,
        has_json_data_flag: false,
        has_json_placeholders_flag: false,
        has_replacement_mappings_flag: false,
        requires_processing_flag: false,
    };
    assert(out@.placeholders =~= ph_views(out.placeholders@));
    assert(out@.slotted_templates =~= slotted_views(out.slotted_templates@));
    assert(out@.json_placeholders =~= Seq::<JsonPlaceholderV>::empty());
    assert(out@.replacement_mappings =~= Seq::<MappingV>::empty());
    out
}

// ---------------------------------------------------------------------------
// Resolving fragments during mapping creation.
// ---------------------------------------------------------------------------

/// The content of the first fragment with exactly this key.
pub open spec fn spec_tpl_get_exact(
    contents: Seq<(Seq<char>, Seq<char>)>,
    key: Seq<char>,
    i: int,
) -> Option<Seq<char>>
    decreases contents.len() - i,
{
    if i < 0 || i >= contents.len() {
        None
    } else if contents[i].0 == key {
        Some(contents[i].1)
    } else {
        spec_tpl_get_exact(contents, key, i + 1)
    }
}

fn tpl_get_exact(contents: &Vec<(Vec<char>, Vec<char>)>, key: &Vec<char>, i: usize) -> (r: Option<
    Vec<char>,
>)
    requires
        i <= contents@.len(),
    ensures
        match r {
            Some(v) => spec_tpl_get_exact(pair_views(contents@), key@, i as int) == Some(v@),
            None => spec_tpl_get_exact(pair_views(contents@), key@, i as int) is None,
        },
    decreases contents@.len() - i,
{
    if i >= contents.len() {
        return None;
    }
    assert(pair_views(contents@)[i as int] == (contents@[i as int].0@, contents@[i as int].1@));
    if chars_eq(&contents[i].0, key) {
        Some(contents[i].1.clone())
    } else {
        tpl_get_exact(contents, key, i + 1)
    }
}

/// A key prefixed by the lower-cased site name and an underscore.
pub open spec fn site_prefixed(site: Seq<char>, k: Seq<char>) -> Seq<char> {
    lower_seq(site) + seq!['_'] + k
}

fn site_prefixed_chars(site: &Vec<char>, k: &Vec<char>) -> (r: Vec<char>)
    ensures
        r@ == site_prefixed(site@, k@),
{
    let mut out = lower_chars(site);
    out.push('_');
    let r = concat_chars(&out, k);
    assert(r@ =~= site_prefixed(site@, k@));
    r
}

// ---------------------------------------------------------------------------
// Recursively preprocessing a slot's content.
// ---------------------------------------------------------------------------

/// How deep nested slotted references are followed while a slot's content is
/// preprocessed.
pub const NESTING_PASSES: usize = 16;

/// A slot's content with its nested slotted references and nested simple
/// references resolved against the site's fragments; nesting deeper than the
/// fuel is left as it stands.
pub open spec fn spec_slot_content(
    content: Seq<char>,
    contents: Seq<(Seq<char>, Seq<char>)>,
    site: Seq<char>,
    fuel: nat,
) -> Seq<char>
    decreases fuel, 2int, 0int,
{
    if fuel == 0 {
        content
    } else {
        let after = spec_apply_nested_sts(
            content,
            spec_parse_slotted(content, 0, Seq::empty()),
            0,
            contents,
            site,
            fuel,
        );
        spec_apply_nested_phs(
            after,
            spec_parse_placeholders(content, 0, Seq::empty()),
            0,
            contents,
            site,
        )
    }
}

/// Each nested slotted reference replaced by its target fragment with the
/// nested slots filled and unused slot keys removed.
pub open spec fn spec_apply_nested_sts(
    text: Seq<char>,
    sts: Seq<SlottedV>,
    i: int,
    contents: Seq<(Seq<char>, Seq<char>)>,
    site: Seq<char>,
    fuel: nat,
) -> Seq<char>
    decreases fuel, 1int, sts.len() - i,
    when fuel >= 1
{
    if i < 0 || i >= sts.len() {
        text
    } else {
        let t2 = match spec_tpl_get_exact(contents, site_prefixed(site, sts[i].template_key), 0) {
            Some(tc) => {
                let filled = spec_fill_nested_slots(tc, sts[i].slots, 0, contents, site, fuel);
                let cleaned = spec_remove_slot_keys(filled, 0);
                if sts[i].full_match.len() == 0 {
                    text
                } else {
                    spec_replace_all(text, sts[i].full_match, cleaned)
                }
            },
            None => text,
        };
        spec_apply_nested_sts(t2, sts, i + 1, contents, site, fuel)
    }
}

/// A fragment with each nested slot's key replaced by that slot's
/// recursively preprocessed content.
pub open spec fn spec_fill_nested_slots(
    tpl: Seq<char>,
    slots: Seq<SlotV>,
    j: int,
    contents: Seq<(Seq<char>, Seq<char>)>,
    site: Seq<char>,
    fuel: nat,
) -> Seq<char>
    decreases fuel, 0int, slots.len() - j,
    when fuel >= 1
{
    if j < 0 || j >= slots.len() {
        tpl
    } else {
        let processed = spec_slot_content(slots[j].content, contents, site, (fuel - 1) as nat);
        let t2 = if slots[j].slot_key.len() == 0 {
            tpl
        } else {
            spec_replace_all(tpl, slots[j].slot_key, processed)
        };
        spec_fill_nested_slots(t2, slots, j + 1, contents, site, fuel)
    }
}

/// Each nested simple reference replaced by its target fragment's source.
pub open spec fn spec_apply_nested_phs(
    text: Seq<char>,
    phs: Seq<PlaceholderV>,
    i: int,
    contents: Seq<(Seq<char>, Seq<char>)>,
    site: Seq<char>,
) -> Seq<char>
    decreases phs.len() - i,
{
    if i < 0 || i >= phs.len() {
        text
    } else {
        let t2 = match spec_tpl_get_exact(contents, site_prefixed(site, phs[i].template_key), 0) {
            Some(tc) => if phs[i].full_match.len() == 0 {
                text
            } else {
                spec_replace_all(text, phs[i].full_match, tc)
            },
            None => text,
        };
        spec_apply_nested_phs(t2, phs, i + 1, contents, site)
    }
}

fn slot_content_chars(
    content: &Vec<char>,
    contents: &Vec<(Vec<char>, Vec<char>)>,
    site: &Vec<char>,
    fuel: usize,
) -> (r: Vec<char>)
    ensures
        r@ == spec_slot_content(content@, pair_views(contents@), site@, fuel as nat),
    decreases fuel as nat, 2int, 0int,
{
    if fuel == 0 {
        return content.clone();
    }
    let sts = parse_slotted_templates(content);
    let after = apply_nested_sts(content, &sts, 0, contents, site, fuel);
    let phs = parse_placeholder_templates(content);
    apply_nested_phs(&after, &phs, 0, contents, site)
}

fn apply_nested_sts(
    text: &Vec<char>,
    sts: &Vec<SlottedTemplate>,
    i: usize,
    contents: &Vec<(Vec<char>, Vec<char>)>,
    site: &Vec<char>,
    fuel: usize,
) -> (r: Vec<char>)
    requires
        i <= sts@.len(),
        fuel >= 1,
    ensures
        r@ == spec_apply_nested_sts(
            text@,
            slotted_views(sts@),
            i as int,
            pair_views(contents@),
            site@,
            fuel as nat,
        ),
    decreases fuel as nat, 1int, sts@.len() - i,
{
    if i >= sts.len() {
        return text.clone();
    }
    assert(slotted_views(sts@)[i as int] == sts@[i as int]@);
    let st = &sts[i];
    let keyv = to_chars(st.template_key.as_str());
    let full_key = site_prefixed_chars(site, &keyv);
    let t2 = match tpl_get_exact(contents, &full_key, 0) {
        Some(tc) => {
            let filled = fill_nested_slots(&tc, &st.slots, 0, contents, site, fuel);
            let cleaned = remove_slot_keys_chars(&filled, 0);
            let fm = to_chars(st.full_match.as_str());
            if fm.len() == 0 {
                text.clone()
            } else {
                replace_all_chars(text, &fm, &cleaned)
            }
        },
        None => text.clone(),
    };
    apply_nested_sts(&t2, sts, i + 1, contents, site, fuel)
}

fn fill_nested_slots(
    tpl: &Vec<char>,
    slots: &Vec<SlotPlaceholder>,
    j: usize,
    contents: &Vec<(Vec<char>, Vec<char>)>,
    site: &Vec<char>,
    fuel: usize,
) -> (r: Vec<char>)
    requires
        j <= slots@.len(),
        fuel >= 1,
    ensures
        r@ == spec_fill_nested_slots(
            tpl@,
            slot_views(slots@),
            j as int,
            pair_views(contents@),
            site@,
            fuel as nat,
        ),
    decreases fuel as nat, 0int, slots@.len() - j,
{
    if j >= slots.len() {
        return tpl.clone();
    }
    assert(slot_views(slots@)[j as int] == slots@[j as int]@);
    let slot = &slots[j];
    let cv = to_chars(slot.content.as_str());
    let processed = slot_content_chars(&cv, contents, site, fuel - 1);
    let keyv = to_chars(slot.slot_key.as_str());
    let t2 = if keyv.len() == 0 {
        tpl.clone()
    } else {
        replace_all_chars(tpl, &keyv, &processed)
    };
    fill_nested_slots(&t2, slots, j + 1, contents, site, fuel)
}

fn apply_nested_phs(
    text: &Vec<char>,
    phs: &Vec<TemplatePlaceholder>,
    i: usize,
    contents: &Vec<(Vec<char>, Vec<char>)>,
    site: &Vec<char>,
) -> (r: Vec<char>)
    requires
        i <= phs@.len(),
    ensures
        r@ == spec_apply_nested_phs(
            text@,
            ph_views(phs@),
            i as int,
            pair_views(contents@),
            site@,
        ),
    decreases phs@.len() - i,
{
    if i >= phs.len() {
        return text.clone();
    }
    assert(ph_views(phs@)[i as int] == phs@[i as int]@);
    let ph = &phs[i];
    let keyv = to_chars(ph.template_key.as_str());
    let full_key = site_prefixed_chars(site, &keyv);
    let t2 = match tpl_get_exact(contents, &full_key, 0) {
        Some(tc) => {
            let fm = to_chars(ph.full_match.as_str());
            if fm.len() == 0 {
                text.clone()
            } else {
                replace_all_chars(text, &fm, &tc)
            }
        },
        None => text.clone(),
    };
    apply_nested_phs(&t2, phs, i + 1, contents, site)
}

// ---------------------------------------------------------------------------
// The three mapping passes.
// ---------------------------------------------------------------------------

/// Whether `pat` occurs case-insensitively in `text`.
pub open spec fn spec_contains_ci(text: Seq<char>, pat: Seq<char>) -> bool {
    spec_find(lower_seq(text), lower_seq(pat), 0) is Some
}

/// The JSON mappings of one fragment: for each array entry, the first
/// matching `{{@Tag}}…{{/Tag}}` block (under singular/plural fallback) maps
/// to its expansion and the first `{{^Tag}}…{{/Tag}}` block maps to its
/// inner text exactly when the array is empty; for each string entry, its
/// `{{$Key}}` and `{{Key}}` spellings map to the value when the fragment
/// names them.
pub open spec fn spec_json_mappings(
    content: Seq<char>,
    entries: Seq<(String, JsonValue)>,
    i: int,
    acc: Seq<MappingV>,
) -> Seq<MappingV>
    decreases entries.len() - i,
{
    if i < 0 || i >= entries.len() {
        acc
    } else {
        let acc3 = match entries[i].1 {
            JsonValue::Array(arr) => {
                let cands = spec_tag_candidates(lower_seq(entries[i].0@));
                let acc1 = match spec_pick_block(content, cands, 0, false) {
                    Some(p) => acc.push(
                        MappingV {
                            start_index: p.1,
                            end_index: p.2 + p.0.len() + 5,
                            original_text: content.subrange(p.1, p.2 + p.0.len() + 5),
                            replacement_text: spec_expand_items(
                                content.subrange(p.1 + p.0.len() + 5, p.2),
                                arr.items@,
                                0,
                            ),
                            kind: ReplacementType::JsonPlaceholder,
                        },
                    ),
                    None => acc,
                };
                match spec_pick_block(content, cands, 0, true) {
                    Some(p) => acc1.push(
                        MappingV {
                            start_index: p.1,
                            end_index: p.2 + p.0.len() + 5,
                            original_text: content.subrange(p.1, p.2 + p.0.len() + 5),
                            replacement_text: if arr.items@.len() == 0 {
                                content.subrange(p.1 + p.0.len() + 5, p.2)
                            } else {
                                Seq::<char>::empty()
                            },
                            kind: ReplacementType::JsonPlaceholder,
                        },
                    ),
                    None => acc1,
                }
            },
            JsonValue::String(sv) => {
                let tok1 = scalar_token(entries[i].0@);
                let tok2 = simple_token(entries[i].0@);
                let acc1 = if spec_contains_ci(content, tok1) {
                    acc.push(
                        MappingV {
                            start_index: 0,
                            end_index: 0,
                            original_text: tok1,
                            replacement_text: sv@,
                            kind: ReplacementType::JsonPlaceholder,
                        },
                    )
                } else {
                    acc
                };
                if spec_contains_ci(content, tok2) {
                    acc1.push(
                        MappingV {
                            start_index: 0,
                            end_index: 0,
                            original_text: tok2,
                            replacement_text: sv@,
                            kind: ReplacementType::JsonPlaceholder,
                        },
                    )
                } else {
                    acc1
                }
            },
            _ => acc,
        };
        spec_json_mappings(content, entries, i + 1, acc3)
    }
}

/// Whether a scalar binding with this placeholder spelling was collected.
pub open spec fn spec_has_jph(acc: Seq<JsonPlaceholderV>, ph: Seq<char>, i: int) -> bool
    decreases acc.len() - i,
{
    if i < 0 || i >= acc.len() {
        false
    } else if acc[i].placeholder == ph {
        true
    } else {
        spec_has_jph(acc, ph, i + 1)
    }
}

/// The scalar bindings of one fragment, one per distinct placeholder
/// spelling the fragment names.
pub open spec fn spec_json_phs(
    content: Seq<char>,
    entries: Seq<(String, JsonValue)>,
    i: int,
    acc: Seq<JsonPlaceholderV>,
) -> Seq<JsonPlaceholderV>
    decreases entries.len() - i,
{
    if i < 0 || i >= entries.len() {
        acc
    } else {
        let acc3 = match entries[i].1 {
            JsonValue::String(sv) => {
                let tok1 = scalar_token(entries[i].0@);
                let tok2 = simple_token(entries[i].0@);
                let acc1 = if spec_contains_ci(content, tok1) && !spec_has_jph(acc, tok1, 0) {
                    acc.push(
                        JsonPlaceholderV { key: entries[i].0@, placeholder: tok1, value: sv@ },
                    )
                } else {
                    acc
                };
                if spec_contains_ci(content, tok2) && !spec_has_jph(acc1, tok2, 0) {
                    acc1.push(
                        JsonPlaceholderV { key: entries[i].0@, placeholder: tok2, value: sv@ },
                    )
                } else {
                    acc1
                }
            },
            _ => acc,
        };
        spec_json_phs(content, entries, i + 1, acc3)
    }
}

/// The simple-reference mappings of one fragment: each placeholder whose
/// target fragment exists maps to that fragment's source.
pub open spec fn spec_simple_mappings(
    phs: Seq<PlaceholderV>,
    contents: Seq<(Seq<char>, Seq<char>)>,
    site: Seq<char>,
    i: int,
    acc: Seq<MappingV>,
) -> Seq<MappingV>
    decreases phs.len() - i,
{
    if i < 0 || i >= phs.len() {
        acc
    } else {
        let acc2 = match spec_tpl_get_exact(contents, site_prefixed(site, phs[i].template_key), 0) {
            Some(tc) => acc.push(
                MappingV {
                    start_index: phs[i].start_index,
                    end_index: phs[i].end_index,
                    original_text: phs[i].full_match,
                    replacement_text: tc,
                    kind: ReplacementType::SimpleTemplate,
                },
            ),
            None => acc,
        };
        spec_simple_mappings(phs, contents, site, i + 1, acc2)
    }
}

/// The slotted-reference mappings of one fragment: each slotted reference
/// whose target exists maps to the target with its slot keys replaced by the
/// recursively preprocessed slot contents — or, with no explicit slots, by
/// the non-blank trimmed inner content — and unused slot keys removed.
pub open spec fn spec_slotted_mappings(
    sts: Seq<SlottedV>,
    contents: Seq<(Seq<char>, Seq<char>)>,
    site: Seq<char>,
    i: int,
    acc: Seq<MappingV>,
) -> Seq<MappingV>
    decreases sts.len() - i,
{
    if i < 0 || i >= sts.len() {
        acc
    } else {
        let acc2 = match spec_tpl_get_exact(contents, site_prefixed(site, sts[i].template_key), 0) {
            Some(tc) => {
                let filled = spec_fill_nested_slots(
                    tc,
                    sts[i].slots,
                    0,
                    contents,
                    site,
                    NESTING_PASSES as nat,
                );
                let filled2 = if sts[i].slots.len() == 0 && spec_trim(
                    sts[i].inner_content,
                ).len() > 0 {
                    spec_replace_all(
                        filled,
                        slot_key_of(Seq::<char>::empty()),
                        spec_trim(sts[i].inner_content),
                    )
                } else {
                    filled
                };
                acc.push(
                    MappingV {
                        start_index: sts[i].start_index,
                        end_index: sts[i].end_index,
                        original_text: sts[i].full_match,
                        replacement_text: spec_remove_slot_keys(filled2, 0),
                        kind: ReplacementType::SlottedTemplate,
                    },
                )
            },
            None => acc,
        };
        spec_slotted_mappings(sts, contents, site, i + 1, acc2)
    }
}

fn build_json_mappings(
    content: &Vec<char>,
    obj: &JsonObject,
    acc: &mut Vec<ReplacementMapping>,
)
    ensures
        mapping_views(final(acc)@) == spec_json_mappings(
            content@,
            obj.entries@,
            0,
            mapping_views(old(acc)@),
        ),
{
    let mut i: usize = 0;
    while i < obj.entries.len()
        invariant
            i <= obj.entries@.len(),
            spec_json_mappings(content@, obj.entries@, i as int, mapping_views(acc@))
                == spec_json_mappings(content@, obj.entries@, 0, mapping_views(old(acc)@)),
        decreases obj.entries@.len() - i,
    {
        let pair = &obj.entries[i];
        match &pair.1 {
            JsonValue::Array(arr) => {
                let kv = to_chars(pair.0.as_str());
                let kl = lower_chars(&kv);
                let cands = tag_candidates_chars(&kl);
                proof {
                    lemma_pick_block_props(content@, seq_views(cands@), 0, false);
                    lemma_pick_block_props(content@, seq_views(cands@), 0, true);
                }
                let n = content.len();
                match crate::binding::pick_block_chars(content, &cands, 0, false) {
                    Some(p) => {
                        assert(p.1 + p.0@.len() + 5 <= p.2 && p.2 + p.0@.len() + 5 <= n);
                        let taglen = p.0.len() + 5;
                        let full = subrange_chars(content, p.1, p.2 + taglen);
                        let inner = subrange_chars(content, p.1 + taglen, p.2);
                        let expanded = expand_items_chars(&inner, arr);
                        let ghost old_acc = acc@;
                        acc.push(
                            ReplacementMapping {
                                start_index: p.1,
                                end_index: p.2 + taglen,
                                original_text: chars_to_string(&full),
                                replacement_text: chars_to_string(&expanded),
                                kind: ReplacementType::JsonPlaceholder,
                            },
                        );
                        proof {
                            assert(mapping_views(acc@) =~= mapping_views(old_acc).push(
                                acc@[old_acc.len() as int]@,
                            ));
                        }
                    },
                    None => {},
                }
                match crate::binding::pick_block_chars(content, &cands, 0, true) {
                    Some(p) => {
                        assert(p.1 + p.0@.len() + 5 <= p.2 && p.2 + p.0@.len() + 5 <= n);
                        let taglen = p.0.len() + 5;
                        let full = subrange_chars(content, p.1, p.2 + taglen);
                        let replacement = if arr.is_empty() {
                            subrange_chars(content, p.1 + taglen, p.2)
                        } else {
                            Vec::new()
                        };
                        let ghost old_acc = acc@;
                        acc.push(
                            ReplacementMapping {
                                start_index: p.1,
                                end_index: p.2 + taglen,
                                original_text: chars_to_string(&full),
                                replacement_text: chars_to_string(&replacement),
                                kind: ReplacementType::JsonPlaceholder,
                            },
                        );
                        proof {
                            assert(mapping_views(acc@) =~= mapping_views(old_acc).push(
                                acc@[old_acc.len() as int]@,
                            ));
                        }
                    },
                    None => {},
                }
            },
            JsonValue::String(sv) => {
                let kv = to_chars(pair.0.as_str());
                let tok1 = scalar_token_vec(&kv);
                let tok2 = simple_token_vec(&kv);
                let vv = to_chars(sv.as_str());
                if contains_ci_chars(content, &tok1) {
                    let ghost old_acc = acc@;
                    acc.push(
                        ReplacementMapping {
                            start_index: 0,
                            end_index: 0,
                            original_text: chars_to_string(&tok1),
                            replacement_text: chars_to_string(&vv),
                            kind: ReplacementType::JsonPlaceholder,
                        },
                    );
                    proof {
                        assert(mapping_views(acc@) =~= mapping_views(old_acc).push(
                            acc@[old_acc.len() as int]@,
                        ));
                    }
                }
                if contains_ci_chars(content, &tok2) {
                    let ghost old_acc = acc@;
                    acc.push(
                        ReplacementMapping {
                            start_index: 0,
                            end_index: 0,
                            original_text: chars_to_string(&tok2),
                            replacement_text: chars_to_string(&vv),
                            kind: ReplacementType::JsonPlaceholder,
                        },
                    );
                    proof {
                        assert(mapping_views(acc@) =~= mapping_views(old_acc).push(
                            acc@[old_acc.len() as int]@,
                        ));
                    }
                }
            },
            _ => {},
        }
        i = i + 1;
    }
}

fn has_jph(acc: &Vec<JsonPlaceholder>, ph: &Vec<char>, i: usize) -> (r: bool)
    requires
        i <= acc@.len(),
    ensures
        r == spec_has_jph(jph_views(acc@), ph@, i as int),
    decreases acc@.len() - i,
{
    if i >= acc.len() {
        return false;
    }
    assert(jph_views(acc@)[i as int] == acc@[i as int]@);
    let en = to_chars(acc[i].placeholder.as_str());
    if chars_eq(&en, ph) {
        true
    } else {
        has_jph(acc, ph, i + 1)
    }
}

fn build_json_phs(content: &Vec<char>, obj: &JsonObject) -> (r: Vec<JsonPlaceholder>)
    ensures
        jph_views(r@) == spec_json_phs(content@, obj.entries@, 0, Seq::empty()),
{
    let mut acc: Vec<JsonPlaceholder> = Vec::new();
    assert(jph_views(acc@) =~= Seq::<JsonPlaceholderV>::empty());
    let mut i: usize = 0;
    while i < obj.entries.len()
        invariant
            i <= obj.entries@.len(),
            spec_json_phs(content@, obj.entries@, i as int, jph_views(acc@)) == spec_json_phs(
                content@,
                obj.entries@,
                0,
                Seq::empty(),
            ),
        decreases obj.entries@.len() - i,
    {
        let pair = &obj.entries[i];
        match &pair.1 {
            JsonValue::String(sv) => {
                let kv = to_chars(pair.0.as_str());
                let tok1 = scalar_token_vec(&kv);
                let tok2 = simple_token_vec(&kv);
                if contains_ci_chars(content, &tok1) && !has_jph(&acc, &tok1, 0) {
                    let ghost old_acc = acc@;
                    acc.push(
                        JsonPlaceholder {
                            key: pair.0.clone(),
                            placeholder: chars_to_string(&tok1),
                            value: sv.clone(),
                        },
                    );
                    proof {
                        assert(jph_views(acc@) =~= jph_views(old_acc).push(
                            acc@[old_acc.len() as int]@,
                        ));
                    }
                }
                if contains_ci_chars(content, &tok2) && !has_jph(&acc, &tok2, 0) {
                    let ghost old_acc = acc@;
                    acc.push(
                        JsonPlaceholder {
                            key: pair.0.clone(),
                            placeholder: chars_to_string(&tok2),
                            value: sv.clone(),
                        },
                    );
                    proof {
                        assert(jph_views(acc@) =~= jph_views(old_acc).push(
                            acc@[old_acc.len() as int]@,
                        ));
                    }
                }
            },
            _ => {},
        }
        i = i + 1;
    }
    acc
}

fn build_simple_mappings(
    phs: &Vec<TemplatePlaceholder>,
    contents: &Vec<(Vec<char>, Vec<char>)>,
    site: &Vec<char>,
    acc: &mut Vec<ReplacementMapping>,
)
    ensures
        mapping_views(final(acc)@) == spec_simple_mappings(
            ph_views(phs@),
            pair_views(contents@),
            site@,
            0,
            mapping_views(old(acc)@),
        ),
{
    let mut i: usize = 0;
    while i < phs.len()
        invariant
            i <= phs@.len(),
            spec_simple_mappings(
                ph_views(phs@),
                pair_views(contents@),
                site@,
                i as int,
                mapping_views(acc@),
            ) == spec_simple_mappings(
                ph_views(phs@),
                pair_views(contents@),
                site@,
                0,
                mapping_views(old(acc)@),
            ),
        decreases phs@.len() - i,
    {
        assert(ph_views(phs@)[i as int] == phs@[i as int]@);
        let ph = &phs[i];
        let keyv = to_chars(ph.template_key.as_str());
        let full_key = site_prefixed_chars(site, &keyv);
        match tpl_get_exact(contents, &full_key, 0) {
            Some(tc) => {
                let ghost old_acc = acc@;
                acc.push(
                    ReplacementMapping {
                        start_index: ph.start_index,
                        end_index: ph.end_index,
                        original_text: ph.full_match.clone(),
                        replacement_text: chars_to_string(&tc),
                        kind: ReplacementType::SimpleTemplate,
                    },
                );
                proof {
                    assert(mapping_views(acc@) =~= mapping_views(old_acc).push(
                        acc@[old_acc.len() as int]@,
                    ));
                }
            },
            None => {},
        }
        i = i + 1;
    }
}

fn build_slotted_mappings(
    sts: &Vec<SlottedTemplate>,
    contents: &Vec<(Vec<char>, Vec<char>)>,
    site: &Vec<char>,
    acc: &mut Vec<ReplacementMapping>,
)
    ensures
        mapping_views(final(acc)@) == spec_slotted_mappings(
            slotted_views(sts@),
            pair_views(contents@),
            site@,
            0,
            mapping_views(old(acc)@),
        ),
{
    let mut i: usize = 0;
    while i < sts.len()
        invariant
            i <= sts@.len(),
            spec_slotted_mappings(
                slotted_views(sts@),
                pair_views(contents@),
                site@,
                i as int,
                mapping_views(acc@),
            ) == spec_slotted_mappings(
                slotted_views(sts@),
                pair_views(contents@),
                site@,
                0,
                mapping_views(old(acc)@),
            ),
        decreases sts@.len() - i,
    {
        assert(slotted_views(sts@)[i as int] == sts@[i as int]@);
        let st = &sts[i];
        let keyv = to_chars(st.template_key.as_str());
        let full_key = site_prefixed_chars(site, &keyv);
        match tpl_get_exact(contents, &full_key, 0) {
            Some(tc) => {
                let filled = fill_nested_slots(&tc, &st.slots, 0, contents, site, NESTING_PASSES);
                let mut filled2 = filled;
                if st.slots.len() == 0 {
                    let iv = to_chars(st.inner_content.as_str());
                    let trimmed = trim_chars(&iv);
                    if trimmed.len() > 0 {
                        let empty_num: Vec<char> = Vec::new();
                        let default_key = crate::engine_normal::slot_tag_vec('$', &empty_num);
                        assert(default_key@ =~= slot_key_of(Seq::<char>::empty()));
                        filled2 = replace_all_chars(&filled2, &default_key, &trimmed);
                    }
                }
                let cleaned = remove_slot_keys_chars(&filled2, 0);
                let ghost old_acc = acc@;
                acc.push(
                    ReplacementMapping {
                        start_index: st.start_index,
                        end_index: st.end_index,
                        original_text: st.full_match.clone(),
                        replacement_text: chars_to_string(&cleaned),
                        kind: ReplacementType::SlottedTemplate,
                    },
                );
                proof {
                    assert(mapping_views(acc@) =~= mapping_views(old_acc).push(
                        acc@[old_acc.len() as int]@,
                    ));
                }
            },
            None => {},
        }
        i = i + 1;
    }
}

// ---------------------------------------------------------------------------
// Preprocessing a whole site.
// ---------------------------------------------------------------------------

/// The (key, source) pairs a site's files induce.
pub open spec fn spec_contents_of(site: Seq<char>, files: Seq<TemplateFile>) -> Seq<
    (Seq<char>, Seq<char>),
> {
    files.map(|i: int, f: TemplateFile| (template_key(site, f.stem@), f.html@))
}

/// All replacement mappings of one fragment, in the order the passes add
/// them: JSON mappings, then simple-reference mappings, then
/// slotted-reference mappings.
pub open spec fn spec_template_mappings(
    content: Seq<char>,
    json: Option<JsonObject>,
    phs: Seq<PlaceholderV>,
    sts: Seq<SlottedV>,
    contents: Seq<(Seq<char>, Seq<char>)>,
    site: Seq<char>,
) -> Seq<MappingV> {
    let json_maps = match json {
        Some(o) => spec_json_mappings(content, o.entries@, 0, Seq::empty()),
        None => Seq::<MappingV>::empty(),
    };
    spec_slotted_mappings(
        sts,
        contents,
        site,
        0,
        spec_simple_mappings(phs, contents, site, 0, json_maps),
    )
}

/// The scalar bindings of one fragment.
pub open spec fn spec_template_jphs(content: Seq<char>, json: Option<JsonObject>) -> Seq<
    JsonPlaceholderV,
> {
    match json {
        Some(o) => spec_json_phs(content, o.entries@, 0, Seq::empty()),
        None => Seq::<JsonPlaceholderV>::empty(),
    }
}

/// Loader for the preprocess engine: it preprocesses whole sites and caches
/// the results.
pub struct LoaderPreProcess {
    pub cache: Vec<(String, PreprocessedSiteTemplates)>,
}

impl LoaderPreProcess {
    /// A loader with an empty cache.
    pub fn new() -> (r: LoaderPreProcess)
        ensures
            r.cache@.len() == 0,
    {
        LoaderPreProcess { cache: Vec::new() }
    }

    /// The preprocessed site cached under a key.
    pub fn cache_lookup(&self, key: &str) -> (r: Option<&PreprocessedSiteTemplates>)
        ensures
            match r {
                Some(t) => spec_cache_index(self.cache@, key@, 0) matches Some(i) && *t
                    == self.cache@[i].1,
                None => spec_cache_index(self.cache@, key@, 0) is None,
            },
    {
        self.cache_lookup_from(key, 0)
    }

    fn cache_lookup_from(&self, key: &str, i: usize) -> (r: Option<&PreprocessedSiteTemplates>)
        requires
            i <= self.cache@.len(),
        ensures
            match r {
                Some(t) => spec_cache_index(self.cache@, key@, i as int) matches Some(j) && *t
                    == self.cache@[j].1,
                None => spec_cache_index(self.cache@, key@, i as int) is None,
            },
        decreases self.cache@.len() - i,
    {
        if i >= self.cache.len() {
            return None;
        }
        let ek = to_chars(self.cache[i].0.as_str());
        let kv = to_chars(key);
        if chars_eq(&ek, &kv) {
            Some(&self.cache[i].1)
        } else {
            self.cache_lookup_from(key, i + 1)
        }
    }

    /// Cache a preprocessed site under a key.
    pub fn cache_store(&mut self, key: String, site: PreprocessedSiteTemplates)
        ensures
            final(self).cache@ == old(self).cache@.push((key, site)),
    {
        self.cache.push((key, site));
    }

    /// Forget every cached site.
    pub fn clear_cache(&mut self)
        ensures
            final(self).cache@.len() == 0,
    {
        self.cache.clear();
    }

    /// Parse a fragment's JSON document into the assembler's model.
    pub fn preprocess_json_data(json_content: &str) -> (r: Option<JsonObject>)
        ensures
            r == Some(parsed_json(json_content@)),
    {
        Some(JsonConverter::parse_json_string(json_content))
    }

    /// One array block's expansion: the block content instantiated once per
    /// object item of the array.
    pub fn process_array_block_content_safely(block_content: &str, array_data: &JsonArray) -> (r:
        String)
        ensures
            r@ == spec_expand_items(block_content@, array_data.items@, 0),
    {
        let bv = to_chars(block_content);
        let out = expand_items_chars(&bv, array_data);
        chars_to_string(&out)
    }

    /// Every case-insensitive occurrence of `search` replaced by
    /// `replacement`, scanning left to right.
    pub fn replace_all_case_insensitive(input: &str, search: &str, replacement: &str) -> (r:
        String)
        requires
            search@.len() > 0,
        ensures
            r@ == spec_replace_all_ci(input@, search@, replacement@),
    {
        let iv = to_chars(input);
        let sv = to_chars(search);
        let rv = to_chars(replacement);
        let out = replace_all_ci_chars(&iv, &sv, &rv);
        chars_to_string(&out)
    }

    /// Every conditional block of the content evaluated against an item.
    pub fn process_conditional_blocks_safely(content: &str, json_item: &JsonObject) -> (r: String)
        ensures
            r@ == spec_process_conditionals(content@, *json_item),
    {
        let cv = to_chars(content);
        let out = process_conditionals_chars(&cv, json_item);
        chars_to_string(&out)
    }

    /// The conditional keys the content names, in order of occurrence.
    pub fn find_conditional_keys_in_content(content: &str) -> (r: Vec<String>)
        ensures
            r@.map(|i: int, s: String| s@) == spec_cond_keys(content@, 0),
    {
        let cv = to_chars(content);
        let keys = cond_keys_chars(&cv);
        let mut out: Vec<String> = Vec::new();
        let mut i: usize = 0;
        while i < keys.len()
            invariant
                i <= keys@.len(),
                out@.len() == i as int,
                forall|k: int| 0 <= k < i ==> out@[k]@ == seq_views(keys@)[k],
            decreases keys@.len() - i,
        {
            assert(seq_views(keys@)[i as int] == keys@[i as int]@);
            out.push(chars_to_string(&keys[i]));
            i = i + 1;
        }
        assert(out@.map(|i: int, s: String| s@) =~= seq_views(keys@));
        out
    }

    /// The truthiness of an item's field under a conditional key.
    pub fn get_condition_value(item: &JsonObject, cond_key: &str) -> (r: bool)
        ensures
            r == spec_cond_value(*item, cond_key@),
    {
        let kv = to_chars(cond_key);
        cond_value_chars(item, &kv)
    }

    /// One conditional key's blocks resolved under a given condition, in both
    /// accepted closer spellings.
    pub fn process_conditional_block_safely(input: &str, key: &str, condition: bool) -> (r: String)
        ensures
            r@ == spec_cond_pass(
                spec_cond_pass(
                    input@,
                    crate::binding::block_open_tag(key@),
                    crate::binding::block_close_tag_spaced(key@),
                    condition,
                ),
                crate::binding::block_open_tag(key@),
                crate::binding::block_close_tag(key@),
                condition,
            ),
    {
        let iv = to_chars(input);
        let kv = to_chars(key);
        let open = block_open_tag_vec(&kv);
        let spaced = block_close_tag_spaced_vec(&kv);
        let plain = block_close_tag_vec(&kv);
        assert(open@.len() > 0 && spaced@.len() > 0 && plain@.len() > 0);
        let mid = cond_pass_chars(&iv, &open, &spaced, condition);
        let out = cond_pass_chars(&mid, &open, &plain, condition);
        chars_to_string(&out)
    }

    /// Preprocess a whole site: each file is parsed into a preprocessed
    /// fragment under its key, and the site-wide replacement mappings and
    /// scalar bindings are built against the site's fragment sources.
    pub fn preprocess_site(app_site: &str, files: &Vec<TemplateFile>) -> (r:
        PreprocessedSiteTemplates)
        ensures
            r.site_name@ == app_site@,
            r.templates@.len() == files@.len(),
            r.raw_templates@.len() == files@.len(),
            r.template_keys@.len() == files@.len(),
            forall|i: int|
                0 <= i < files@.len() ==> {
                    let t = #[trigger] r.templates@[i].1;
                    let content = files@[i].html@;
                    let json = (match files@[i].json {
                        Some(j) => Some(parsed_json(j@)),
                        None => None::<JsonObject>,
                    });
                    &&& r.templates@[i].0@ == template_key(app_site@, files@[i].stem@)
                    &&& r.raw_templates@[i].0@ == template_key(app_site@, files@[i].stem@)
                    &&& r.raw_templates@[i].1@ == content
                    &&& r.template_keys@[i]@ == template_key(app_site@, files@[i].stem@)
                    &&& t.original_content@ == content
                    &&& (content.len() > 0 ==> t@.placeholders == spec_parse_placeholders(
                        content,
                        0,
                        Seq::empty(),
                    ))
                    &&& (content.len() > 0 ==> t@.slotted_templates == spec_parse_slotted(
                        content,
                        0,
                        Seq::empty(),
                    ))
                    &&& (content.len() > 0 ==> t.json_data == json)
                    &&& (content.len() == 0 ==> t@.placeholders.len() == 0
                        && t@.slotted_templates.len() == 0 && t.json_data is None)
                    &&& t@.replacement_mappings == spec_template_mappings(
                        t.original_content@,
                        t.json_data,
                        t@.placeholders,
                        t@.slotted_templates,
                        spec_contents_of(app_site@, files@),
                        app_site@,
                    )
                    &&& t@.json_placeholders == spec_template_jphs(
                        t.original_content@,
                        t.json_data,
                    )
                    &&& t.has_placeholders_flag == (t@.placeholders.len() > 0)
                    &&& t.has_slotted_templates_flag == (t@.slotted_templates.len() > 0)
                    &&& t.has_json_data_flag == (match t.json_data {
                        Some(o) => o.entries@.len() > 0,
                        None => false,
                    })
                    &&& t.has_json_placeholders_flag == (t@.json_placeholders.len() > 0)
                    &&& t.has_replacement_mappings_flag == (t@.replacement_mappings.len() > 0)
                    &&& t.requires_processing_flag == t.spec_requires_processing()
                },
    {
        let site = to_chars(app_site);
        let mut contents: Vec<(Vec<char>, Vec<char>)> = Vec::new();
        let mut i: usize = 0;
        while i < files.len()
            invariant
                i <= files@.len(),
                site@ == app_site@,
                pair_views(contents@).len() == i as int,
                forall|k: int|
                    0 <= k < i ==> pair_views(contents@)[k] == spec_contents_of(
                        app_site@,
                        files@,
                    )[k],
            decreases files@.len() - i,
        {
            let f = &files[i];
            let stem = to_chars(f.stem.as_str());
            let keyv = template_key_chars(&site, &stem);
            let hv = to_chars(f.html.as_str());
            let ghost old_contents = contents@;
            contents.push((keyv, hv));
            proof {
                assert forall|k: int| 0 <= k < i + 1 implies pair_views(contents@)[k]
                    == spec_contents_of(app_site@, files@)[k] by {
                    assert(pair_views(contents@)[k] == (contents@[k].0@, contents@[k].1@));
                    if k < i {
                        assert(contents@[k] == old_contents[k]);
                        assert(pair_views(old_contents)[k] == (old_contents[k].0@,
                        old_contents[k].1@));
                    }
                }
            }
            i = i + 1;
        }
        assert(pair_views(contents@) =~= spec_contents_of(app_site@, files@));
        let mut templates: Vec<(String, PreprocessedTemplate)> = Vec::new();
        let mut raw_templates: Vec<(String, String)> = Vec::new();
        let mut template_keys: Vec<String> = Vec::new();
        let mut j: usize = 0;
        while j < files.len()
            invariant
                j <= files@.len(),
                site@ == app_site@,
                pair_views(contents@) == spec_contents_of(app_site@, files@),
                templates@.len() == j as int,
                raw_templates@.len() == j as int,
                template_keys@.len() == j as int,
                forall|i2: int|
                    0 <= i2 < j ==> {
                        let t = #[trigger] templates@[i2].1;
                        let content = files@[i2].html@;
                        let json = (match files@[i2].json {
                            Some(jj) => Some(parsed_json(jj@)),
                            None => None::<JsonObject>,
                        });
                        &&& templates@[i2].0@ == template_key(app_site@, files@[i2].stem@)
                        &&& raw_templates@[i2].0@ == template_key(app_site@, files@[i2].stem@)
                        &&& raw_templates@[i2].1@ == content
                        &&& template_keys@[i2]@ == template_key(app_site@, files@[i2].stem@)
                        &&& t.original_content@ == content
                        &&& (content.len() > 0 ==> t@.placeholders == spec_parse_placeholders(
                            content,
                            0,
                            Seq::empty(),
                        ))
                        &&& (content.len() > 0 ==> t@.slotted_templates == spec_parse_slotted(
                            content,
                            0,
                            Seq::empty(),
                        ))
                        &&& (content.len() > 0 ==> t.json_data == json)
                        &&& (content.len() == 0 ==> t@.placeholders.len() == 0
                            && t@.slotted_templates.len() == 0 && t.json_data is None)
                        &&& t@.replacement_mappings == spec_template_mappings(
                            t.original_content@,
                            t.json_data,
                            t@.placeholders,
                            t@.slotted_templates,
                            spec_contents_of(app_site@, files@),
                            app_site@,
                        )
                        &&& t@.json_placeholders == spec_template_jphs(
                            t.original_content@,
                            t.json_data,
                        )
                        &&& t.has_placeholders_flag == (t@.placeholders.len() > 0)
                        &&& t.has_slotted_templates_flag == (t@.slotted_templates.len() > 0)
                        &&& t.has_json_data_flag == (match t.json_data {
                            Some(o) => o.entries@.len() > 0,
                            None => false,
                        })
                        &&& t.has_json_placeholders_flag == (t@.json_placeholders.len() > 0)
                        &&& t.has_replacement_mappings_flag == (t@.replacement_mappings.len() > 0)
                        &&& t.requires_processing_flag == t.spec_requires_processing()
                    },
            decreases files@.len() - j,
        {
            let f = &files[j];
            let stem = to_chars(f.stem.as_str());
            let keyv = template_key_chars(&site, &stem);
            let key_string = chars_to_string(&keyv);
            let json_ref: Option<&str> = match &f.json {
                Some(jj) => Some(jj.as_str()),
                None => None,
            };
            let mut tpl = preprocess_template(f.html.as_str(), json_ref);
            let cv = to_chars(tpl.original_content.as_str());
            let mut mappings: Vec<ReplacementMapping> = Vec::new();
            assert(mapping_views(mappings@) =~= Seq::<MappingV>::empty());
            match &tpl.json_data {
                Some(o) => {
                    build_json_mappings(&cv, o, &mut mappings);
                    tpl.json_placeholders = build_json_phs(&cv, o);
                },
                None => {
                    assert(tpl@.json_placeholders =~= Seq::<JsonPlaceholderV>::empty());
                },
            }
            build_simple_mappings(&tpl.placeholders, &contents, &site, &mut mappings);
            build_slotted_mappings(&tpl.slotted_templates, &contents, &site, &mut mappings);
            tpl.replacement_mappings = mappings;
            tpl.update_flags();
            templates.push((key_string, tpl));
            raw_templates.push((chars_to_string(&keyv), f.html.clone()));
            template_keys.push(chars_to_string(&keyv));
            j = j + 1;
        }
        PreprocessedSiteTemplates {
            site_name: app_site.to_owned(),
            templates,
            raw_templates,
            template_keys,
        }
    }
}

} // verus!
