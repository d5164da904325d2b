use assembler::engine_normal::{EngineNormal, SiteTemplates, TemplateEntry};
use assembler::engine_preprocess::EnginePreProcess;
use assembler::loader_normal::{LoaderNormal, TemplateFile};
use assembler::loader_preprocess::LoaderPreProcess;

fn entry(key: &str, html: &str, json: Option<&str>) -> TemplateEntry {
    TemplateEntry { key: key.to_string(), html: html.to_string(), json: json.map(|s| s.to_string()) }
}

fn store(entries: Vec<TemplateEntry>) -> SiteTemplates {
    SiteTemplates { entries }
}

/// Runs the same site through both engines and checks that they agree on the
/// given expected output.
fn merge_both(
    site: &str,
    file: &str,
    view: Option<&str>,
    prefix: &str,
    entries: Vec<(&str, &str, Option<&str>)>,
    expected: &str,
) {
    let normal_store = store(
        entries.iter().map(|(stem, html, json)| {
            entry(
                &format!("{}_{}", site.to_lowercase(), stem.to_lowercase()),
                html,
                *json,
            )
        }).collect(),
    );
    let engine = EngineNormal::new(prefix.to_string());
    let out_normal = engine.merge_templates(site, file, view, &normal_store, true);
    assert_eq!(out_normal, expected, "scan engine output");

    let files: Vec<TemplateFile> = entries.iter().map(|(stem, html, json)| TemplateFile {
        stem: stem.to_string(),
        html: html.to_string(),
        json: json.map(|s| s.to_string()),
    }).collect();
    let pre = LoaderPreProcess::preprocess_site(site, &files);
    let engine2 = EnginePreProcess::new(prefix.to_string());
    let out_pre = engine2.merge_templates(site, file, view, &pre, true);
    assert_eq!(out_pre, expected, "preprocess engine output");
}

#[test]
fn scalar_substitution() {
    merge_both("x", "a", None, "", vec![("a", "hello {{$who}}", Some("{\"who\":\"world\"}"))], "hello world");
}

#[test]
fn simple_nesting() {
    merge_both(
        "x",
        "a",
        None,
        "",
        vec![("a", "<p>{{b}}</p>", None), ("b", "INNER", None)],
        "<p>INNER</p>",
    );
}

#[test]
fn slots_unnumbered_default() {
    merge_both(
        "x",
        "a",
        None,
        "",
        vec![("outer", "[<{{$HTMLPLACEHOLDER}}>]", None), ("a", "{{#outer}}MID{{/outer}}", None)],
        "[<MID>]",
    );
}

#[test]
fn slots_numbered() {
    merge_both(
        "x",
        "a",
        None,
        "",
        vec![
            ("tpl", "{{$HTMLPLACEHOLDER1}}|{{$HTMLPLACEHOLDER2}}", None),
            (
                "a",
                "{{#tpl}}{{@HTMLPLACEHOLDER1}}A{{/HTMLPLACEHOLDER1}}{{@HTMLPLACEHOLDER2}}B{{/HTMLPLACEHOLDER2}}{{/tpl}}",
                None,
            ),
        ],
        "A|B",
    );
}

#[test]
fn array_with_conditional() {
    merge_both(
        "x",
        "a",
        None,
        "",
        vec![(
            "a",
            "{{@Items}}[{{$n}}{{@on}}!{{/on}}]{{/Items}}",
            Some("{\"Items\":[{\"n\":\"1\",\"on\":true},{\"n\":\"2\",\"on\":false}]}"),
        )],
        "[1!][2]",
    );
}

#[test]
fn view_fallback_scan_engine() {
    let site = store(vec![
        entry("x_a", "{{Html3AContent}}", None),
        entry("x_html3bcontent", "B-VIEW", None),
    ]);
    let engine = EngineNormal::new("Html3A".to_string());
    let out = engine.merge_templates("x", "a", Some("Html3B"), &site, true);
    assert_eq!(out, "B-VIEW");
}

#[test]
fn view_fallback_both_engines_with_both_views() {
    merge_both(
        "x",
        "a",
        Some("Html3B"),
        "Html3A",
        vec![
            ("a", "{{Html3AContent}}", None),
            ("html3acontent", "A-VIEW", None),
            ("html3bcontent", "B-VIEW", None),
        ],
        "B-VIEW",
    );
}

#[test]
fn singular_key_binds_plural_block() {
    merge_both(
        "x",
        "a",
        None,
        "",
        vec![("a", "{{@items}}<{{$n}}>{{/items}}", Some("{\"item\":[{\"n\":\"1\"}]}"))],
        "<1>",
    );
}

#[test]
fn plural_key_binds_singular_block() {
    merge_both(
        "x",
        "a",
        None,
        "",
        vec![("a", "{{@item}}<{{$n}}>{{/item}}", Some("{\"items\":[{\"n\":\"1\"},{\"n\":\"2\"}]}"))],
        "<1><2>",
    );
}

#[test]
fn empty_array_block_emits_inner() {
    merge_both(
        "x",
        "a",
        None,
        "",
        vec![("a", "{{@rows}}X{{/rows}}{{^rows}}none{{/rows}}", Some("{\"rows\":[]}"))],
        "none",
    );
}

#[test]
fn empty_array_block_elided_when_nonempty() {
    merge_both(
        "x",
        "a",
        None,
        "",
        vec![(
            "a",
            "{{@rows}}X{{/rows}}{{^rows}}none{{/rows}}",
            Some("{\"rows\":[{\"k\":\"v\"}]}"),
        )],
        "X",
    );
}

#[test]
fn missing_reference_left_verbatim() {
    merge_both("x", "a", None, "", vec![("a", "pre {{Nothing}} post", None)], "pre {{Nothing}} post");
}

#[test]
fn missing_scalar_left_verbatim() {
    merge_both("x", "a", None, "", vec![("a", "pre {{$gone}} post", None)], "pre {{$gone}} post");
}

#[test]
fn merge_is_idempotent_on_its_output() {
    let site = store(vec![
        entry("x_a", "<p>{{b}}</p>", None),
        entry("x_b", "INNER {{$k}}", Some("{\"k\":\"v\"}")),
    ]);
    let engine = EngineNormal::new(String::new());
    let once = engine.merge_templates("x", "a", None, &site, true);
    assert_eq!(once, "<p>INNER v</p>");
    let again_store = store(vec![
        entry("x_a", &once, None),
        entry("x_b", "INNER {{$k}}", Some("{\"k\":\"v\"}")),
    ]);
    let twice = engine.merge_templates("x", "a", None, &again_store, true);
    assert_eq!(twice, once);
}

#[test]
fn integer_and_number_rendering() {
    merge_both(
        "x",
        "a",
        None,
        "",
        vec![(
            "a",
            "{{@rows}}[{{$i}}:{{$f}}]{{/rows}}",
            Some("{\"rows\":[{\"i\":7,\"f\":2.5},{\"i\":-3,\"f\":0.0}]}"),
        )],
        "[7:2.5][-3:0.0]",
    );
}

#[test]
fn conditional_truthiness_variants() {
    merge_both(
        "x",
        "a",
        None,
        "",
        vec![(
            "a",
            "{{@rows}}({{$n}}{{@c}}+{{/c}}){{/rows}}",
            Some("{\"rows\":[{\"n\":\"a\",\"c\":true},{\"n\":\"b\",\"c\":false},{\"n\":\"c\",\"c\":1},{\"n\":\"d\",\"c\":0},{\"n\":\"e\",\"c\":\"true\"},{\"n\":\"f\",\"c\":\"false\"},{\"n\":\"g\",\"c\":\"yes\"},{\"n\":\"h\",\"c\":\"\"},{\"n\":\"i\",\"c\":null}]}"),
        )],
        "(a+)(b)(c+)(d)(e+)(f)(g+)(h)(i)",
    );
}

#[test]
fn conditional_spaced_close_tag() {
    merge_both(
        "x",
        "a",
        None,
        "",
        vec![(
            "a",
            "{{@rows}}[{{@on}}Y{{ /on}}]{{/rows}}",
            Some("{\"rows\":[{\"on\":true},{\"on\":false}]}"),
        )],
        "[Y][]",
    );
}

#[test]
fn null_and_nested_values_render_empty() {
    merge_both(
        "x",
        "a",
        None,
        "",
        vec![(
            "a",
            "{{@rows}}<{{$v}}>{{/rows}}",
            Some("{\"rows\":[{\"v\":null},{\"v\":[1]},{\"v\":{\"x\":1}}]}"),
        )],
        "<><><>",
    );
}

#[test]
fn empty_store_yields_empty_string() {
    let engine = EngineNormal::new(String::new());
    let out = engine.merge_templates("x", "a", None, &store(vec![]), true);
    assert_eq!(out, "");
    let engine2 = EnginePreProcess::new(String::new());
    let pre = LoaderPreProcess::preprocess_site("x", &Vec::new());
    assert_eq!(engine2.merge_templates("x", "a", None, &pre, true), "");
}

#[test]
fn missing_entry_yields_empty_string() {
    let engine = EngineNormal::new(String::new());
    let out = engine.merge_templates("x", "zzz", None, &store(vec![entry("x_a", "hi", None)]), true);
    assert_eq!(out, "");
}

#[test]
fn json_processing_can_be_disabled() {
    let site = store(vec![entry("x_a", "hello {{$who}}", Some("{\"who\":\"world\"}"))]);
    let engine = EngineNormal::new(String::new());
    let out = engine.merge_templates("x", "a", None, &site, false);
    assert_eq!(out, "hello {{$who}}");
}

#[test]
fn scan_engine_scalar_pool_crosses_fragments() {
    let site = store(vec![
        entry("x_a", "{{$shared}}", None),
        entry("x_b", "unused", Some("{\"shared\":\"from-b\"}")),
    ]);
    let engine = EngineNormal::new(String::new());
    let out = engine.merge_templates("x", "a", None, &site, true);
    assert_eq!(out, "from-b");
}

#[test]
fn key_lookup_is_case_insensitive() {
    merge_both(
        "X",
        "A",
        None,
        "",
        vec![("a", "<p>{{B}}</p>", None), ("b", "INNER", None)],
        "<p>INNER</p>",
    );
}

#[test]
fn loader_builds_lowercase_keys_and_caches() {
    let files = vec![TemplateFile {
        stem: "Page".to_string(),
        html: "<x/>".to_string(),
        json: None,
    }];
    let built = LoaderNormal::build_site_templates("MySite", &files);
    assert_eq!(built.entries.len(), 1);
    assert_eq!(built.entries[0].key, "mysite_page");
    assert_eq!(built.entries[0].html, "<x/>");
    let mut loader = LoaderNormal::new();
    assert!(loader.cache_lookup("k").is_none());
    loader.cache_store("k".to_string(), built);
    assert!(loader.cache_lookup("k").is_some());
    loader.clear_cache();
    assert!(loader.cache_lookup("k").is_none());
}

#[test]
fn preprocess_engine_app_view_prefix_roundtrip() {
    let mut engine = EnginePreProcess::new("A".to_string());
    assert_eq!(engine.app_view_prefix(), "A");
    engine.set_app_view_prefix("B".to_string());
    assert_eq!(engine.app_view_prefix(), "B");
    let mut engine2 = EngineNormal::new("A".to_string());
    assert_eq!(engine2.app_view_prefix(), "A");
    engine2.set_app_view_prefix("B".to_string());
    assert_eq!(engine2.app_view_prefix(), "B");
}

#[test]
fn preprocess_summary_counts() {
    let files = vec![
        TemplateFile { stem: "a".to_string(), html: "{{b}}".to_string(), json: None },
        TemplateFile { stem: "b".to_string(), html: "plain".to_string(), json: None },
        TemplateFile {
            stem: "c".to_string(),
            html: "{{$v}}".to_string(),
            json: Some("{\"v\":\"1\"}".to_string()),
        },
    ];
    let pre = LoaderPreProcess::preprocess_site("s", &files);
    let summary = pre.create_summary();
    assert_eq!(summary.site_name, "s");
    assert_eq!(summary.total_templates, 3);
    assert_eq!(summary.templates_with_placeholders, 1);
    assert_eq!(summary.templates_with_json_data, 1);
    assert_eq!(summary.templates_requiring_processing, 2);
}

#[test]
fn nested_slot_contents() {
    merge_both(
        "x",
        "a",
        None,
        "",
        vec![
            ("outer", "[{{$HTMLPLACEHOLDER}}]", None),
            ("inner", "<{{$HTMLPLACEHOLDER}}>", None),
            (
                "a",
                "{{#outer}}{{@HTMLPLACEHOLDER}}{{#inner}}{{@HTMLPLACEHOLDER}}K{{/HTMLPLACEHOLDER}}{{/inner}}{{/HTMLPLACEHOLDER}}{{/outer}}",
                None,
            ),
        ],
        "[<K>]",
    );
}

#[test]
fn deep_reference_chain() {
    merge_both(
        "x",
        "a",
        None,
        "",
        vec![
            ("a", "1{{b}}", None),
            ("b", "2{{c}}", None),
            ("c", "3{{d}}", None),
            ("d", "4", None),
        ],
        "1234",
    );
}

#[test]
fn unused_slot_keys_are_removed() {
    merge_both(
        "x",
        "a",
        None,
        "",
        vec![
            ("tpl", "<{{$HTMLPLACEHOLDER1}}|{{$HTMLPLACEHOLDER2}}>", None),
            ("a", "{{#tpl}}{{@HTMLPLACEHOLDER1}}only{{/HTMLPLACEHOLDER1}}{{/tpl}}", None),
        ],
        "<only|>",
    );
}

#[test]
fn scan_engine_pool_later_fragment_wins() {
    let site = store(vec![
        entry("x_a", "{{$k}}", None),
        entry("x_b", "unused", Some("{\"k\":\"from-b\"}")),
        entry("x_c", "unused", Some("{\"k\":\"from-c\"}")),
    ]);
    let engine = EngineNormal::new(String::new());
    let out = engine.merge_templates("x", "a", None, &site, true);
    assert_eq!(out, "from-c");
}

#[test]
fn malformed_tokens_left_verbatim() {
    merge_both(
        "x",
        "a",
        None,
        "",
        vec![("a", "a {{no close b {{}} c {{bad name}} d", None)],
        "a {{no close b {{}} c {{bad name}} d",
    );
}

#[test]
fn view_fallback_falls_back_to_primary() {
    // The name contains the prefix, but no view-specific fragment exists:
    // the plain key still resolves.
    merge_both(
        "x",
        "a",
        Some("Html3B"),
        "Html3A",
        vec![("a", "{{Html3AContent}}", None), ("html3acontent", "A-VIEW", None)],
        "A-VIEW",
    );
}

#[test]
fn token_names_are_trimmed() {
    merge_both(
        "x",
        "a",
        None,
        "",
        vec![("a", "<{{ b }}>", None), ("b", "T", None)],
        "<T>",
    );
}

#[test]
fn slotted_reference_with_bad_name_left_alone() {
    merge_both(
        "x",
        "a",
        None,
        "",
        vec![("a", "{{#no name}}X{{/no name}}", None)],
        "{{#no name}}X{{/no name}}",
    );
}

#[test]
fn preprocess_loader_cache() {
    let mut loader = LoaderPreProcess::new();
    assert!(loader.cache_lookup("k").is_none());
    let pre = LoaderPreProcess::preprocess_site("s", &Vec::new());
    loader.cache_store("k".to_string(), pre);
    assert!(loader.cache_lookup("k").is_some());
    loader.clear_cache();
    assert!(loader.cache_lookup("k").is_none());
}
