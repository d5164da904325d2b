//! The preprocess engine: merges by applying the preprocessor's flat
//! replacement mappings to the entry fragment, in kind order, until the text
//! settles or the pass bound is spent.

use vstd::prelude::*;
use crate::text::{
    lower_seq, matches_at, spec_find, lemma_find_props, to_chars, chars_to_string, find_at,
    subrange_chars,
};
use crate::template_utils::{spec_replace_first_ci, replace_first_ci_chars, chars_eq};
use crate::binding::{
    braces_pair, spec_trim, trim_chars, spec_replace_all, replace_all_chars, spec_replace_all_ci,
    replace_all_ci_chars, contains_ci_chars,
};
use crate::engine_normal::{template_key, template_key_chars, braces_open, pair_views};
use crate::model_preprocess::{
    PreprocessedTemplate, PreTemplateV, PreprocessedSiteTemplates, MappingV, JsonPlaceholderV,
    ReplacementType, same_kind,
};

verus! {

/// The mathematical content of a site's preprocessed templates.
pub open spec fn pre_tpl_views(s: Seq<(String, PreprocessedTemplate)>) -> Seq<
    (Seq<char>, PreTemplateV),
> {
    s.map(|i: int, p: (String, PreprocessedTemplate)| (p.0@, p.1@))
}

/// The (key, source) pairs of a site's preprocessed templates.
pub open spec fn pre_contents(tpls: Seq<(Seq<char>, PreTemplateV)>) -> Seq<
    (Seq<char>, Seq<char>),
> {
    tpls.map(|i: int, p: (Seq<char>, PreTemplateV)| (p.0, p.1.original_content))
}

/// The source of the first fragment with exactly this key.
pub open spec fn spec_content_get(
    contents: Seq<(Seq<char>, Seq<char>)>,
    key: Seq<char>,
    i: int,
) -> Option<Seq<char>>
    decreases contents.len() - i,
{
    if i < 0 || i >= contents.len() {
        None
    } else if contents[i].0 == key {
        Some(contents[i].1)
    } else {
        spec_content_get(contents, key, i + 1)
    }
}

/// View-fallback resolution over preprocessed sources: as in the scan
/// engine, but the constructed keys are looked up exactly, as the loader
/// stores them.
pub open spec fn spec_pre_get_content(
    contents: Seq<(Seq<char>, Seq<char>)>,
    site: Seq<char>,
    name: Seq<char>,
    view: Option<Seq<char>>,
    prefix: Seq<char>,
) -> Option<Seq<char>> {
    let primary = spec_content_get(contents, template_key(site, name), 0);
    match view {
        Some(v) => {
            if prefix.len() > 0 && spec_find(lower_seq(name), lower_seq(prefix), 0) is Some {
                match spec_content_get(
                    contents,
                    template_key(site, spec_replace_first_ci(name, prefix, v)),
                    0,
                ) {
                    Some(c) => Some(c),
                    None => primary,
                }
            } else {
                primary
            }
        },
        None => primary,
    }
}

fn content_get(contents: &Vec<(Vec<char>, Vec<char>)>, key: &Vec<char>, i: usize) -> (r: Option<
    Vec<char>,
>)
    requires
        i <= contents@.len(),
    ensures
        match r {
            Some(v) => spec_content_get(pair_views(contents@), key@, i as int) == Some(v@),
            None => spec_content_get(pair_views(contents@), key@, i as int) is None,
        },
    decreases contents@.len() - i,
{
    if i >= contents.len() {
        return None;
    }
    assert(pair_views(contents@)[i as int] == (contents@[i as int].0@, contents@[i as int].1@));
    if chars_eq(&contents[i].0, key) {
        Some(contents[i].1.clone())
    } else {
        content_get(contents, key, i + 1)
    }
}

fn pre_get_content(
    contents: &Vec<(Vec<char>, Vec<char>)>,
    site: &Vec<char>,
    name: &Vec<char>,
    view: Option<&Vec<char>>,
    prefix: &Vec<char>,
) -> (r: Option<Vec<char>>)
    ensures
        ({
            let sv = spec_pre_get_content(
                pair_views(contents@),
                site@,
                name@,
                match view {
                    Some(v) => Some(v@),
                    None => None,
                },
                prefix@,
            );
            match r {
                Some(v) => sv == Some(v@),
                None => sv is None,
            }
        }),
{
    match view {
        Some(v) => {
            if prefix.len() > 0 && contains_ci_chars(name, prefix) {
                let cand = replace_first_ci_chars(name, prefix, v);
                let fk = template_key_chars(site, &cand);
                match content_get(contents, &fk, 0) {
                    Some(c) => Some(c),
                    None => {
                        let pk = template_key_chars(site, name);
                        content_get(contents, &pk, 0)
                    },
                }
            } else {
                let pk = template_key_chars(site, name);
                content_get(contents, &pk, 0)
            }
        },
        None => {
            let pk = template_key_chars(site, name);
            content_get(contents, &pk, 0)
        },
    }
}

// ---------------------------------------------------------------------------
// View-fallback adjustment of a simple replacement.
// ---------------------------------------------------------------------------

/// The name inside a `{{Name}}` token, trimmed; empty when the text is not
/// such a token.
pub open spec fn spec_extract_ph_name(original: Seq<char>) -> Seq<char> {
    if original.len() >= 4 && matches_at(original, braces_open(), 0) && matches_at(
        original,
        braces_pair(),
        original.len() - 2,
    ) {
        spec_trim(original.subrange(2, original.len() - 2))
    } else {
        Seq::<char>::empty()
    }
}

fn extract_placeholder_name_chars(original: &Vec<char>) -> (r: Vec<char>)
    ensures
        r@ == spec_extract_ph_name(original@),
{
    let n = original.len();
    if n >= 4 && original[0] == '{' && original[1] == '{' && original[n - 2] == '}' && original[n
        - 1] == '}' {
        assert(matches_at(original@, braces_open(), 0)) by {
            assert(original@.subrange(0, 2) =~= braces_open());
        }
        assert(matches_at(original@, braces_pair(), original@.len() - 2)) by {
            assert(original@.subrange(original@.len() - 2, original@.len() as int)
                =~= braces_pair());
        }
        let raw = subrange_chars(original, 2, n - 2);
        trim_chars(&raw)
    } else {
        proof {
            if original@.len() >= 4 && matches_at(original@, braces_open(), 0) && matches_at(
                original@,
                braces_pair(),
                original@.len() - 2,
            ) {
                assert(original@.subrange(0, 2)[0] == original@[0]);
                assert(original@.subrange(0, 2)[1] == original@[1]);
                assert(original@.subrange(original@.len() - 2, original@.len() as int)[0]
                    == original@[original@.len() - 2]);
                assert(original@.subrange(original@.len() - 2, original@.len() as int)[1]
                    == original@[original@.len() - 1]);
            }
        }
        Vec::new()
    }
}

/// A simple mapping's replacement under view fallback: when the mapping's
/// token names a fragment that resolves under the view, the resolved
/// fragment's source replaces the recorded replacement; the site name is
/// read from the first template key.
pub open spec fn spec_view_replacement(
    original: Seq<char>,
    replacement: Seq<char>,
    contents: Seq<(Seq<char>, Seq<char>)>,
    view: Option<Seq<char>>,
    prefix: Seq<char>,
) -> Seq<char> {
    let name = spec_extract_ph_name(original);
    if name.len() == 0 || contents.len() == 0 {
        replacement
    } else {
        match spec_find(contents[0].0, seq!['_'], 0) {
            None => replacement,
            Some(u) => {
                let site = contents[0].0.subrange(0, u);
                match spec_pre_get_content(contents, site, name, view, prefix) {
                    Some(c) => c,
                    None => replacement,
                }
            },
        }
    }
}

fn view_replacement(
    original: &Vec<char>,
    replacement: &Vec<char>,
    contents: &Vec<(Vec<char>, Vec<char>)>,
    view: Option<&Vec<char>>,
    prefix: &Vec<char>,
) -> (r: Vec<char>)
    ensures
        r@ == spec_view_replacement(
            original@,
            replacement@,
            pair_views(contents@),
            match view {
                Some(v) => Some(v@),
                None => None,
            },
            prefix@,
        ),
{
    let name = extract_placeholder_name_chars(original);
    if name.len() == 0 || contents.len() == 0 {
        return replacement.clone();
    }
    assert(pair_views(contents@)[0] == (contents@[0].0@, contents@[0].1@));
    let k0 = &contents[0].0;
    let mut underscore: Vec<char> = Vec::new();
    underscore.push('_');
    assert(underscore@ =~= seq!['_']);
    proof {
        lemma_find_props(k0@, underscore@, 0);
    }
    match find_at(k0, &underscore, 0) {
        None => replacement.clone(),
        Some(u) => {
            let site = subrange_chars(k0, 0, u);
            match pre_get_content(contents, &site, &name, view, prefix) {
                Some(c) => c,
                None => replacement.clone(),
            }
        },
    }
}

// ---------------------------------------------------------------------------
// Applying one template's mappings.
// ---------------------------------------------------------------------------

/// One kind's mappings applied in order: each occurring original text is
/// replaced throughout by the recorded replacement.
pub open spec fn spec_apply_plain(
    text: Seq<char>,
    maps: Seq<MappingV>,
    j: int,
    kind: ReplacementType,
) -> Seq<char>
    decreases maps.len() - j,
{
    if j < 0 || j >= maps.len() {
        text
    } else {
        let t2 = if same_kind(maps[j].kind, kind) && maps[j].original_text.len() > 0 {
            spec_replace_all(text, maps[j].original_text, maps[j].replacement_text)
        } else {
            text
        };
        spec_apply_plain(t2, maps, j + 1, kind)
    }
}

/// The simple-reference mappings applied in order, each with its replacement
/// adjusted under view fallback.
pub open spec fn spec_apply_simple(
    text: Seq<char>,
    maps: Seq<MappingV>,
    j: int,
    contents: Seq<(Seq<char>, Seq<char>)>,
    view: Option<Seq<char>>,
    prefix: Seq<char>,
) -> Seq<char>
    decreases maps.len() - j,
{
    if j < 0 || j >= maps.len() {
        text
    } else {
        let t2 = if same_kind(maps[j].kind, ReplacementType::SimpleTemplate)
            && maps[j].original_text.len() > 0 {
            spec_replace_all(
                text,
                maps[j].original_text,
                spec_view_replacement(
                    maps[j].original_text,
                    maps[j].replacement_text,
                    contents,
                    view,
                    prefix,
                ),
            )
        } else {
            text
        };
        spec_apply_simple(t2, maps, j + 1, contents, view, prefix)
    }
}

/// The residual scalar bindings applied case-insensitively, in order.
pub open spec fn spec_apply_jphs(text: Seq<char>, jphs: Seq<JsonPlaceholderV>, k: int) -> Seq<char>
    decreases jphs.len() - k,
{
    if k < 0 || k >= jphs.len() {
        text
    } else {
        let t2 = if jphs[k].placeholder.len() > 0 {
            spec_replace_all_ci(text, jphs[k].placeholder, jphs[k].value)
        } else {
            text
        };
        spec_apply_jphs(t2, jphs, k + 1)
    }
}

/// One template's contribution to a pass: its slotted mappings, then its
/// simple mappings under view fallback, then — when JSON processing is
/// enabled — its JSON mappings and residual scalar bindings.
pub open spec fn spec_apply_one_template(
    text: Seq<char>,
    tpl: PreTemplateV,
    enable: bool,
    contents: Seq<(Seq<char>, Seq<char>)>,
    view: Option<Seq<char>>,
    prefix: Seq<char>,
) -> Seq<char> {
    let a = spec_apply_plain(text, tpl.replacement_mappings, 0, ReplacementType::SlottedTemplate);
    let b = spec_apply_simple(a, tpl.replacement_mappings, 0, contents, view, prefix);
    let c = if enable {
        spec_apply_plain(b, tpl.replacement_mappings, 0, ReplacementType::JsonPlaceholder)
    } else {
        b
    };
    if enable {
        spec_apply_jphs(c, tpl.json_placeholders, 0)
    } else {
        c
    }
}

/// One executor pass: every template's contribution, in store order.
pub open spec fn spec_exec_pass(
    text: Seq<char>,
    tpls: Seq<(Seq<char>, PreTemplateV)>,
    i: int,
    enable: bool,
    contents: Seq<(Seq<char>, Seq<char>)>,
    view: Option<Seq<char>>,
    prefix: Seq<char>,
) -> Seq<char>
    decreases tpls.len() - i,
{
    if i < 0 || i >= tpls.len() {
        text
    } else {
        spec_exec_pass(
            spec_apply_one_template(text, tpls[i].1, enable, contents, view, prefix),
            tpls,
            i + 1,
            enable,
            contents,
            view,
            prefix,
        )
    }
}

/// How many executor passes a merge will take at most; iteration stops early
/// as soon as a pass leaves the text unchanged.
pub const EXECUTOR_PASSES: usize = 10;

/// Executor passes repeated until the text settles or the bound is spent.
pub open spec fn spec_exec_fix(
    text: Seq<char>,
    tpls: Seq<(Seq<char>, PreTemplateV)>,
    enable: bool,
    contents: Seq<(Seq<char>, Seq<char>)>,
    view: Option<Seq<char>>,
    prefix: Seq<char>,
    fuel: nat,
) -> Seq<char>
    decreases fuel,
{
    if fuel == 0 {
        text
    } else {
        let t2 = spec_exec_pass(text, tpls, 0, enable, contents, view, prefix);
        if t2 == text {
            text
        } else {
            spec_exec_fix(t2, tpls, enable, contents, view, prefix, (fuel - 1) as nat)
        }
    }
}

/// Idempotence of the executor: a text that one pass leaves unchanged is
/// returned unchanged by the whole iteration, for any pass bound.
pub proof fn lemma_exec_idempotent(
    text: Seq<char>,
    tpls: Seq<(Seq<char>, PreTemplateV)>,
    enable: bool,
    contents: Seq<(Seq<char>, Seq<char>)>,
    view: Option<Seq<char>>,
    prefix: Seq<char>,
    fuel: nat,
)
    requires
        spec_exec_pass(text, tpls, 0, enable, contents, view, prefix) == text,
    ensures
        spec_exec_fix(text, tpls, enable, contents, view, prefix, fuel) == text,
{
}

/// The whole preprocess merge: the entry fragment is resolved under view
/// fallback and its source is rewritten by executor passes.
pub open spec fn spec_merge_templates_pre(
    tpls: Seq<(Seq<char>, PreTemplateV)>,
    site: Seq<char>,
    file: Seq<char>,
    view: Option<Seq<char>>,
    prefix: Seq<char>,
    enable: bool,
) -> Seq<char> {
    if tpls.len() == 0 {
        Seq::<char>::empty()
    } else {
        match spec_pre_get_content(pre_contents(tpls), site, file, view, prefix) {
            None => Seq::<char>::empty(),
            Some(c) => spec_exec_fix(
                c,
                tpls,
                enable,
                pre_contents(tpls),
                view,
                prefix,
                EXECUTOR_PASSES as nat,
            ),
        }
    }
}

fn same_kind_x(a: &ReplacementType, b: &ReplacementType) -> (r: bool)
    ensures
        r == same_kind(*a, *b),
{
    match (a, b) {
        (ReplacementType::JsonPlaceholder, ReplacementType::JsonPlaceholder) => true,
        (ReplacementType::SimpleTemplate, ReplacementType::SimpleTemplate) => true,
        (ReplacementType::SlottedTemplate, ReplacementType::SlottedTemplate) => true,
        _ => false,
    }
}

fn apply_plain(tpl: &PreprocessedTemplate, text: &Vec<char>, kind: ReplacementType) -> (r: Vec<
    char,
>)
    ensures
        r@ == spec_apply_plain(text@, tpl@.replacement_mappings, 0, kind),
{
    let mut cur: Vec<char> = text.clone();
    let mut j: usize = 0;
    while j < tpl.replacement_mappings.len()
        invariant
            j <= tpl.replacement_mappings@.len(),
            spec_apply_plain(cur@, tpl@.replacement_mappings, j as int, kind) == spec_apply_plain(
                text@,
                tpl@.replacement_mappings,
                0,
                kind,
            ),
        decreases tpl.replacement_mappings@.len() - j,
    {
        assert(tpl@.replacement_mappings[j as int] == tpl.replacement_mappings@[j as int]@);
        let m = &tpl.replacement_mappings[j];
        if same_kind_x(&m.kind, &kind) {
            let ov = to_chars(m.original_text.as_str());
            if ov.len() > 0 {
                let rv = to_chars(m.replacement_text.as_str());
                cur = replace_all_chars(&cur, &ov, &rv);
            }
        }
        j = j + 1;
    }
    cur
}

fn apply_simple(
    tpl: &PreprocessedTemplate,
    text: &Vec<char>,
    contents: &Vec<(Vec<char>, Vec<char>)>,
    view: Option<&Vec<char>>,
    prefix: &Vec<char>,
) -> (r: Vec<char>)
    ensures
        r@ == spec_apply_simple(
            text@,
            tpl@.replacement_mappings,
            0,
            pair_views(contents@),
            match view {
                Some(v) => Some(v@),
                None => None,
            },
            prefix@,
        ),
{
    let mut cur: Vec<char> = text.clone();
    let mut j: usize = 0;
    while j < tpl.replacement_mappings.len()
        invariant
            j <= tpl.replacement_mappings@.len(),
            spec_apply_simple(
                cur@,
                tpl@.replacement_mappings,
                j as int,
                pair_views(contents@),
                match view {
                    Some(v) => Some(v@),
                    None => None,
                },
                prefix@,
            ) == spec_apply_simple(
                text@,
                tpl@.replacement_mappings,
                0,
                pair_views(contents@),
                match view {
                    Some(v) => Some(v@),
                    None => None,
                },
                prefix@,
            ),
        decreases tpl.replacement_mappings@.len() - j,
    {
        assert(tpl@.replacement_mappings[j as int] == tpl.replacement_mappings@[j as int]@);
        let m = &tpl.replacement_mappings[j];
        if same_kind_x(&m.kind, &ReplacementType::SimpleTemplate) {
            let ov = to_chars(m.original_text.as_str());
            if ov.len() > 0 {
                let rv = to_chars(m.replacement_text.as_str());
                let adjusted = view_replacement(&ov, &rv, contents, view, prefix);
                cur = replace_all_chars(&cur, &ov, &adjusted);
            }
        }
        j = j + 1;
    }
    cur
}

fn apply_jphs(tpl: &PreprocessedTemplate, text: &Vec<char>) -> (r: Vec<char>)
    ensures
        r@ == spec_apply_jphs(text@, tpl@.json_placeholders, 0),
{
    let mut cur: Vec<char> = text.clone();
    let mut k: usize = 0;
    while k < tpl.json_placeholders.len()
        invariant
            k <= tpl.json_placeholders@.len(),
            spec_apply_jphs(cur@, tpl@.json_placeholders, k as int) == spec_apply_jphs(
                text@,
                tpl@.json_placeholders,
                0,
            ),
        decreases tpl.json_placeholders@.len() - k,
    {
        assert(tpl@.json_placeholders[k as int] == tpl.json_placeholders@[k as int]@);
        let p = &tpl.json_placeholders[k];
        let pv = to_chars(p.placeholder.as_str());
        if pv.len() > 0 {
            let vv = to_chars(p.value.as_str());
            cur = replace_all_ci_chars(&cur, &pv, &vv);
        }
        k = k + 1;
    }
    cur
}

// ---------------------------------------------------------------------------
// The engine.
// ---------------------------------------------------------------------------

/// The preprocess engine. It holds only the view prefix; all parsing was
/// done by the loader.
pub struct EnginePreProcess {
    pub app_view_prefix: String,
}

impl EnginePreProcess {
    /// An engine with the given view prefix.
    pub fn new(prefix: String) -> (r: EnginePreProcess)
        ensures
            r.app_view_prefix@ == prefix@,
    {
        EnginePreProcess { app_view_prefix: prefix }
    }

    /// The engine's view prefix.
    pub fn app_view_prefix(&self) -> (r: &str)
        ensures
            r@ == self.app_view_prefix@,
    {
        self.app_view_prefix.as_str()
    }

    /// Replace the engine's view prefix.
    pub fn set_app_view_prefix(&mut self, prefix: String)
        ensures
            final(self).app_view_prefix@ == prefix@,
    {
        self.app_view_prefix = prefix;
    }

    /// Merge the entry fragment of a preprocessed site under an optional
    /// view, applying the precomputed replacement mappings until the text
    /// settles or the pass bound is spent.
    #[verifier::loop_isolation(false)]
    pub fn merge_templates(
        &self,
        app_site: &str,
        app_file: &str,
        app_view: Option<&str>,
        preprocessed_templates: &PreprocessedSiteTemplates,
        enable_json_processing: bool,
    ) -> (r: String)
        ensures
            r@ == spec_merge_templates_pre(
                pre_tpl_views(preprocessed_templates.templates@),
                app_site@,
                app_file@,
                match app_view {
                    Some(v) => Some(v@),
                    None => None,
                },
                self.app_view_prefix@,
                enable_json_processing,
            ),
    {
        let empty: Vec<char> = Vec::new();
        if preprocessed_templates.templates.len() == 0 {
            return chars_to_string(&empty);
        }
        let site = to_chars(app_site);
        let file = to_chars(app_file);
        let prefix = to_chars(self.app_view_prefix.as_str());
        let view_chars: Option<Vec<char>> = match app_view {
            Some(v) => Some(to_chars(v)),
            None => None,
        };
        let mut contents: Vec<(Vec<char>, Vec<char>)> = Vec::new();
        let mut i: usize = 0;
        while i < preprocessed_templates.templates.len()
            invariant
                i <= preprocessed_templates.templates@.len(),
                pair_views(contents@).len() == i as int,
                forall|k: int|
                    0 <= k < i ==> pair_views(contents@)[k] == pre_contents(
                        pre_tpl_views(preprocessed_templates.templates@),
                    )[k],
            decreases preprocessed_templates.templates@.len() - i,
        {
            let p = &preprocessed_templates.templates[i];
            let kv = to_chars(p.0.as_str());
            let cv = to_chars(p.1.original_content.as_str());
            let ghost old_contents = contents@;
            contents.push((kv, cv));
            proof {
                assert(pre_tpl_views(preprocessed_templates.templates@)[i as int] == (
                preprocessed_templates.templates@[i as int].0@,
                preprocessed_templates.templates@[i as int].1@,
                ));
                assert forall|k: int| 0 <= k < i + 1 implies pair_views(contents@)[k]
                    == pre_contents(pre_tpl_views(preprocessed_templates.templates@))[k] by {
                    assert(pair_views(contents@)[k] == (contents@[k].0@, contents@[k].1@));
                    if k < i {
                        assert(contents@[k] == old_contents[k]);
                        assert(pair_views(old_contents)[k] == (old_contents[k].0@,
                        old_contents[k].1@));
                    } else {
                        assert(pre_contents(pre_tpl_views(preprocessed_templates.templates@))[k]
                            == (pre_tpl_views(preprocessed_templates.templates@)[k].0,
                        pre_tpl_views(preprocessed_templates.templates@)[k].1.original_content));
                    }
                }
            }
            i = i + 1;
        }
        assert(pair_views(contents@) =~= pre_contents(
            pre_tpl_views(preprocessed_templates.templates@),
        ));
        let view_ref: Option<&Vec<char>> = match &view_chars {
            Some(v) => Some(v),
            None => None,
        };
        let main = pre_get_content(&contents, &site, &file, view_ref, &prefix);
        match main {
            None => chars_to_string(&empty),
            Some(content0) => {
                let mut cur = content0;
                let mut fuel: usize = EXECUTOR_PASSES;
                while fuel > 0
                    invariant
                        spec_exec_fix(
                            cur@,
                            pre_tpl_views(preprocessed_templates.templates@),
                            enable_json_processing,
                            pair_views(contents@),
                            match view_chars {
                                Some(v) => Some(v@),
                                None => None,
                            },
                            prefix@,
                            fuel as nat,
                        ) == spec_merge_templates_pre(
                            pre_tpl_views(preprocessed_templates.templates@),
                            app_site@,
                            app_file@,
                            match app_view {
                                Some(v) => Some(v@),
                                None => None,
                            },
                            self.app_view_prefix@,
                            enable_json_processing,
                        ),
                    decreases fuel,
                {
                    let view_ref2: Option<&Vec<char>> = match &view_chars {
                        Some(v) => Some(v),
                        None => None,
                    };
                    let mut next = cur.clone();
                    let mut t: usize = 0;
                    while t < preprocessed_templates.templates.len()
                        invariant
                            t <= preprocessed_templates.templates@.len(),
                            spec_exec_pass(
                                next@,
                                pre_tpl_views(preprocessed_templates.templates@),
                                t as int,
                                enable_json_processing,
                                pair_views(contents@),
                                match view_chars {
                                    Some(v) => Some(v@),
                                    None => None,
                                },
                                prefix@,
                            ) == spec_exec_pass(
                                cur@,
                                pre_tpl_views(preprocessed_templates.templates@),
                                0,
                                enable_json_processing,
                                pair_views(contents@),
                                match view_chars {
                                    Some(v) => Some(v@),
                                    None => None,
                                },
                                prefix@,
                            ),
                        decreases preprocessed_templates.templates@.len() - t,
                    {
                        let tpl = &preprocessed_templates.templates[t].1;
                        proof {
                            assert(pre_tpl_views(preprocessed_templates.templates@)[t as int] == (
                            preprocessed_templates.templates@[t as int].0@,
                            preprocessed_templates.templates@[t as int].1@,
                            ));
                        }
                        let a = apply_plain(tpl, &next, ReplacementType::SlottedTemplate);
                        let b = apply_simple(tpl, &a, &contents, view_ref2, &prefix);
                        let c = if enable_json_processing {
                            apply_plain(tpl, &b, ReplacementType::JsonPlaceholder)
                        } else {
                            b
                        };
                        next = if enable_json_processing {
                            apply_jphs(tpl, &c)
                        } else {
                            c
                        };
                        t = t + 1;
                    }
                    if chars_eq(&next, &cur) {
                        assert(next@ == cur@);
                        return chars_to_string(&cur);
                    }
                    cur = next;
                    fuel = fuel - 1;
                }
                chars_to_string(&cur)
            },
        }
    }
}

} // verus!
