use typastry::intel::{
    enhance_completions, get_trigger_info, is_float_literal_str, is_physical_dimension_context,
    CompletionKind, RawCompletion, RawCompletionKind,
};

fn raw(label: &str, apply: Option<&str>, kind: RawCompletionKind) -> RawCompletion {
    RawCompletion {
        label: label.to_string(),
        apply: apply.map(|s| s.to_string()),
        detail: None,
        kind,
    }
}

#[test]
fn trigger_info_finds_word_and_hash() {
    assert_eq!(get_trigger_info("Hello #te", 9), (6, true));
    assert_eq!(get_trigger_info("size: 12", 8), (6, false));
    assert_eq!(get_trigger_info("", 0), (0, false));
    assert_eq!(get_trigger_info("a.b-c_d", 7), (0, false));
}

#[test]
fn trigger_info_counts_bytes() {
    // 'é' takes two bytes, so the '#' is at byte 2 and the cursor at byte 5.
    assert_eq!(get_trigger_info("é#ab", 5), (2, true));
    assert_eq!(get_trigger_info("éab", 4), (0, false));
    assert_eq!(get_trigger_info("x éa", 5), (2, false));
}

#[test]
fn trigger_info_past_the_end_is_the_cursor() {
    assert_eq!(get_trigger_info("#te", 10), (10, false));
    assert_eq!(get_trigger_info("", 3), (3, false));
    // Inside a character there is no word before the cursor either.
    assert_eq!(get_trigger_info("é", 1), (1, false));
}

#[test]
fn nothing_is_typed_past_the_end() {
    let raws = vec![raw("text", None, RawCompletionKind::Func), raw("rect", None, RawCompletionKind::Func)];
    let out = enhance_completions("#te", 10, &raws);
    assert_eq!(out.len(), 2);
}

#[test]
fn dimension_parameters() {
    assert!(is_physical_dimension_context("#text(size: 1", 12));
    assert!(is_physical_dimension_context("#rect(width :  ", 15));
    assert!(!is_physical_dimension_context("#text(fill: ", 12));
    assert!(!is_physical_dimension_context("size 1", 5));
    assert!(!is_physical_dimension_context(": ", 2));
}

#[test]
fn float_literals() {
    assert!(is_float_literal_str("12"));
    assert!(is_float_literal_str("1.5"));
    assert!(is_float_literal_str("-3e2"));
    assert!(is_float_literal_str(".5"));
    assert!(is_float_literal_str("inf"));
    assert!(is_float_literal_str("NaN"));
    assert!(!is_float_literal_str("12pt"));
    assert!(!is_float_literal_str(""));
    assert!(!is_float_literal_str("."));
}

#[test]
fn prefix_filter_and_plain_apply() {
    let raws = vec![
        raw("Text", Some("text(${})"), RawCompletionKind::Func),
        raw("table", None, RawCompletionKind::Type),
        raw("rect", None, RawCompletionKind::Func),
    ];
    let out = enhance_completions("#te", 3, &raws);
    assert_eq!(out.len(), 1);
    assert_eq!(out[0].label, "Text");
    assert_eq!(out[0].apply, "text()");
    assert_eq!(out[0].kind, CompletionKind::Func);
}

#[test]
fn placeholders_are_dropped() {
    let raws = vec![raw("sym", Some("sym.${}arrow${1:}"), RawCompletionKind::Symbol)];
    let out = enhance_completions("", 0, &raws);
    assert_eq!(out[0].apply, "sym.arrow");
    assert_eq!(out[0].kind, CompletionKind::Symbol);
}

#[test]
fn units_are_coached_first() {
    let raws = vec![raw("12", None, RawCompletionKind::Other)];
    let out = enhance_completions("#text(size: 12", 14, &raws);
    let labels: Vec<&str> = out.iter().map(|c| c.label.as_str()).collect();
    assert_eq!(labels, vec!["12mm", "12cm", "12em", "12pt", "12"]);
    assert_eq!(out[0].kind, CompletionKind::Unit);
    assert_eq!(out[0].detail.as_deref(), Some("Coaching: Insert explicit length (mm)"));
    assert_eq!(out[4].kind, CompletionKind::Text);
}

#[test]
fn no_units_outside_length_parameters() {
    let out = enhance_completions("#text(fill: 12", 14, &vec![]);
    assert!(out.is_empty());
}

#[test]
fn prefix_after_multibyte_text() {
    let raws = vec![
        raw("text", None, RawCompletionKind::Func),
        raw("table", None, RawCompletionKind::Type),
    ];
    let out = enhance_completions("é #tE", 6, &raws);
    assert_eq!(out.len(), 1);
    assert_eq!(out[0].label, "text");
}

#[test]
fn units_after_multibyte_text() {
    let out = enhance_completions("ü #text(size: 3", 16, &vec![]);
    let labels: Vec<&str> = out.iter().map(|c| c.label.as_str()).collect();
    assert_eq!(labels, vec!["3mm", "3cm", "3em", "3pt"]);
}
