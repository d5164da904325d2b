use assembler::template_utils::TemplateUtils;
use assembler::json::{JsonConverter, JsonValue, JsonObject, JsonArray, i64_to_string, value_text, truthy};
use assembler::loader_preprocess::LoaderPreProcess;

#[test]
fn is_alphanumeric_accepts_names_and_rejects_symbols() {
    assert!(TemplateUtils::is_alphanumeric("Abc123"));
    assert!(!TemplateUtils::is_alphanumeric(""));
    assert!(!TemplateUtils::is_alphanumeric("a b"));
    assert!(!TemplateUtils::is_alphanumeric("a$b"));
    assert!(!TemplateUtils::is_alphanumeric("a_b"));
}

#[test]
fn find_matching_close_tag_tracks_nesting() {
    //                      0         1         2         3
    //                      0123456789012345678901234567890123
    let content = "xx{{#a}}in{{#a}}deep{{/a}}mid{{/a}}tail";
    let pos = TemplateUtils::find_matching_close_tag(content, 8, "{{#a}}", "{{/a}}");
    assert_eq!(pos, Some(29));
    let none = TemplateUtils::find_matching_close_tag("{{#a}}open only", 6, "{{#a}}", "{{/a}}");
    assert_eq!(none, None);
}

#[test]
fn remove_remaining_slot_placeholders_removes_keys() {
    let out = TemplateUtils::remove_remaining_slot_placeholders(
        "a{{$HTMLPLACEHOLDER}}b{{$HTMLPLACEHOLDER12}}c{{$HTMLPLACEHOLDERx}}d",
    );
    assert_eq!(out, "abc{{$HTMLPLACEHOLDERx}}d");
}

#[test]
fn replace_case_insensitive_replaces_first_only() {
    let out = TemplateUtils::replace_case_insensitive("One ONE one", "one", "two");
    assert_eq!(out, "two ONE one");
    let untouched = TemplateUtils::replace_case_insensitive("abc", "zz", "yy");
    assert_eq!(untouched, "abc");
}

#[test]
fn parse_json_string_builds_the_model() {
    let obj = JsonConverter::parse_json_string("{\"s\":\"v\",\"i\":7,\"f\":1.5,\"b\":true,\"n\":null}");
    assert_eq!(obj.get_string("s"), Some(&"v".to_string()));
    match obj.get("i") {
        Some(JsonValue::Integer(i)) => assert_eq!(*i, 7),
        _ => panic!("expected an integer"),
    }
    match obj.get("f") {
        Some(JsonValue::Number(t)) => assert_eq!(t, "1.5"),
        _ => panic!("expected a number"),
    }
    assert_eq!(obj.get_bool("b"), Some(true));
    assert!(obj.get("n").unwrap().is_null());
    assert!(obj.get("zz").is_none());
}

#[test]
fn parse_json_tolerates_bad_documents() {
    assert!(JsonConverter::parse_json_string("not json").is_empty());
    assert!(JsonConverter::parse_json_string("[1,2]").is_empty());
    assert!(JsonConverter::parse_json_string("").is_empty());
}

#[test]
fn object_insert_replaces_and_appends() {
    let mut obj = JsonObject::new();
    obj.insert("k".to_string(), JsonValue::String("a".to_string()));
    obj.insert("k".to_string(), JsonValue::String("b".to_string()));
    obj.insert("j".to_string(), JsonValue::Integer(1));
    assert_eq!(obj.len(), 2);
    assert_eq!(obj.get_string("k"), Some(&"b".to_string()));
    assert!(obj.contains_key("j"));
    assert!(obj.get_case_insensitive("K").is_some());
}

#[test]
fn integer_rendering_matches_decimal() {
    assert_eq!(i64_to_string(0), "0");
    assert_eq!(i64_to_string(42), "42");
    assert_eq!(i64_to_string(-7), "-7");
    assert_eq!(i64_to_string(i64::MIN), "-9223372036854775808");
}

#[test]
fn value_text_rendering() {
    assert_eq!(value_text(&JsonValue::String("s".to_string())), "s");
    assert_eq!(value_text(&JsonValue::Integer(-12)), "-12");
    assert_eq!(value_text(&JsonValue::Number("2.25".to_string())), "2.25");
    assert_eq!(value_text(&JsonValue::Bool(true)), "true");
    assert_eq!(value_text(&JsonValue::Bool(false)), "false");
    assert_eq!(value_text(&JsonValue::Null), "");
    assert_eq!(value_text(&JsonValue::Array(JsonArray::new())), "");
}

#[test]
fn truthiness_rules() {
    assert!(truthy(&JsonValue::Bool(true)));
    assert!(!truthy(&JsonValue::Bool(false)));
    assert!(truthy(&JsonValue::Integer(-1)));
    assert!(!truthy(&JsonValue::Integer(0)));
    assert!(truthy(&JsonValue::Number("0.001".to_string())));
    assert!(!truthy(&JsonValue::Number("0.0".to_string())));
    assert!(!truthy(&JsonValue::Number("-0.0".to_string())));
    assert!(truthy(&JsonValue::String("true".to_string())));
    assert!(!truthy(&JsonValue::String("false".to_string())));
    assert!(truthy(&JsonValue::String("anything".to_string())));
    assert!(!truthy(&JsonValue::String("".to_string())));
    assert!(!truthy(&JsonValue::Null));
}

#[test]
fn array_block_expansion_per_item() {
    let obj = JsonConverter::parse_json_string("{\"rows\":[{\"n\":\"1\"},{\"n\":\"2\"},4]}");
    let rows = obj.get_array("rows").unwrap();
    let out = LoaderPreProcess::process_array_block_content_safely("<{{$N}}>", rows);
    assert_eq!(out, "<1><2>");
}

#[test]
fn replace_all_case_insensitive_replaces_every_occurrence() {
    let out = LoaderPreProcess::replace_all_case_insensitive("aXbxc", "x", "-");
    assert_eq!(out, "a-b-c");
}

#[test]
fn conditional_keys_in_order() {
    let keys = LoaderPreProcess::find_conditional_keys_in_content("{{@one}}..{{/one}}{{@ two }}{{/two}}");
    assert_eq!(keys, vec!["one".to_string(), "two".to_string()]);
}

#[test]
fn condition_value_falls_back_case_insensitively() {
    let obj = JsonConverter::parse_json_string("{\"Flag\":true,\"other\":0}");
    assert!(LoaderPreProcess::get_condition_value(&obj, "Flag"));
    assert!(LoaderPreProcess::get_condition_value(&obj, "flag"));
    assert!(!LoaderPreProcess::get_condition_value(&obj, "other"));
    assert!(!LoaderPreProcess::get_condition_value(&obj, "missing"));
}

#[test]
fn conditional_block_kept_or_dropped() {
    let kept = LoaderPreProcess::process_conditional_block_safely("a{{@k}}X{{/k}}b", "k", true);
    assert_eq!(kept, "aXb");
    let dropped = LoaderPreProcess::process_conditional_block_safely("a{{@k}}X{{/k}}b", "k", false);
    assert_eq!(dropped, "ab");
}

#[test]
fn conditional_blocks_against_item() {
    let obj = JsonConverter::parse_json_string("{\"on\":true,\"off\":false}");
    let out = LoaderPreProcess::process_conditional_blocks_safely(
        "[{{@on}}A{{/on}}{{@off}}B{{/off}}]",
        &obj,
    );
    assert_eq!(out, "[A]");
}

#[test]
fn preprocess_json_data_parses() {
    let obj = LoaderPreProcess::preprocess_json_data("{\"a\":\"b\"}").unwrap();
    assert_eq!(obj.get_string("a"), Some(&"b".to_string()));
}
