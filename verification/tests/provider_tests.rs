use typastry::intel::{CompletionKind, TypastryCompletion};
use typastry::provider::{
    completion_items, is_completion_trigger, offset_to_lsp_position, EditorItemKind,
    EditorPosition,
};

#[test]
fn positions_count_utf16_units() {
    let text = "a\n😀b";
    assert_eq!(offset_to_lsp_position(text, 0), EditorPosition { line: 0, character: 0 });
    assert_eq!(offset_to_lsp_position(text, 2), EditorPosition { line: 1, character: 0 });
    assert_eq!(offset_to_lsp_position(text, 6), EditorPosition { line: 1, character: 2 });
    assert_eq!(offset_to_lsp_position(text, 7), EditorPosition { line: 1, character: 3 });
    assert_eq!(offset_to_lsp_position(text, 50), EditorPosition { line: 1, character: 3 });
}

#[test]
fn trigger_text() {
    assert!(is_completion_trigger("#"));
    assert!(is_completion_trigger("("));
    assert!(is_completion_trigger(","));
    assert!(is_completion_trigger("a"));
    assert!(is_completion_trigger("_"));
    assert!(is_completion_trigger("."));
    assert!(!is_completion_trigger(" "));
    assert!(!is_completion_trigger(")"));
    assert!(!is_completion_trigger(""));
}

#[test]
fn items_keep_hash_except_units() {
    let cs = vec![
        TypastryCompletion {
            label: "text".to_string(),
            apply: "text()".to_string(),
            detail: None,
            kind: CompletionKind::Func,
        },
        TypastryCompletion {
            label: "12pt".to_string(),
            apply: "12pt".to_string(),
            detail: Some("unit".to_string()),
            kind: CompletionKind::Unit,
        },
    ];
    let items = completion_items(&cs, "x #te", 5);
    assert_eq!(items.len(), 2);
    assert_eq!(items[0].new_text, "#text()");
    assert_eq!(items[0].kind, EditorItemKind::Function);
    assert_eq!(items[0].start, EditorPosition { line: 0, character: 2 });
    assert_eq!(items[0].end, EditorPosition { line: 0, character: 5 });
    assert_eq!(items[1].new_text, "12pt");
    assert_eq!(items[1].kind, EditorItemKind::Unit);
    assert_eq!(items[1].detail.as_deref(), Some("unit"));
}

#[test]
fn items_without_hash() {
    let cs = vec![TypastryCompletion {
        label: "fill".to_string(),
        apply: "fill: ".to_string(),
        detail: None,
        kind: CompletionKind::Param,
    }];
    let items = completion_items(&cs, "rect(fi", 7);
    assert_eq!(items[0].new_text, "fill: ");
    assert_eq!(items[0].kind, EditorItemKind::Property);
    assert_eq!(items[0].start, EditorPosition { line: 0, character: 5 });
}

#[test]
fn items_past_the_end_replace_nothing() {
    let cs = vec![TypastryCompletion {
        label: "fill".to_string(),
        apply: "fill: ".to_string(),
        detail: None,
        kind: CompletionKind::Param,
    }];
    let items = completion_items(&cs, "rect(fi", 20);
    assert_eq!(items[0].new_text, "fill: ");
    assert_eq!(items[0].start, EditorPosition { line: 0, character: 7 });
    assert_eq!(items[0].end, EditorPosition { line: 0, character: 7 });
}
