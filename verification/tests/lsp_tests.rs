use typastry::lsp::{
    byte_to_lsp_position, completions_for_scope, get_completions, try_get_completions,
    LspItemKind, LspPosition, ScopeEntry, ScopeValueKind,
};
use typst::{Library, LibraryExt};

fn scope() -> Vec<ScopeEntry> {
    vec![
        ScopeEntry {
            name: "text".to_string(),
            kind: ScopeValueKind::Func,
            docs: Some("Styles text.".to_string()),
        },
        ScopeEntry { name: "sym".to_string(), kind: ScopeValueKind::Module, docs: None },
        ScopeEntry { name: "str".to_string(), kind: ScopeValueKind::Type, docs: None },
        ScopeEntry { name: "none".to_string(), kind: ScopeValueKind::NoneValue, docs: None },
    ]
}

#[test]
fn keywords_and_scope_by_prefix() {
    let items = completions_for_scope("#s", 2, &scope());
    let labels: Vec<&str> = items.iter().map(|i| i.label.as_str()).collect();
    assert_eq!(labels, vec!["set", "show", "sym", "str"]);
    assert_eq!(items[0].kind, LspItemKind::Keyword);
    assert_eq!(items[2].kind, LspItemKind::Module);
    assert_eq!(items[3].kind, LspItemKind::Class);
}

#[test]
fn functions_get_call_snippet() {
    let items = completions_for_scope("#te", 3, &scope());
    assert_eq!(items.len(), 1);
    assert_eq!(items[0].label, "text");
    assert_eq!(items[0].kind, LspItemKind::Function);
    assert_eq!(items[0].insert_text.as_deref(), Some("text($0)"));
    assert_eq!(items[0].detail.as_deref(), Some("Styles text."));
}

#[test]
fn none_is_a_keyword_item() {
    let items = completions_for_scope("#no", 3, &scope());
    let labels: Vec<&str> = items.iter().map(|i| i.label.as_str()).collect();
    assert_eq!(labels, vec!["not", "none"]);
    assert_eq!(items[1].kind, LspItemKind::Keyword);
}

#[test]
fn nothing_after_dot_or_in_string() {
    assert!(completions_for_scope("#sym.ar", 7, &scope()).is_empty());
    assert!(completions_for_scope("#let x = \"se\"", 12, &scope()).is_empty());
    assert!(completions_for_scope("// se", 5, &scope()).is_empty());
}

#[test]
fn library_scope_offers_builtins() {
    let library = Library::default();
    let items = get_completions("#rect", 5, &library);
    assert!(items.iter().any(|i| i.label == "rect" && i.kind == LspItemKind::Function));
    assert!(items.iter().all(|i| i.label.starts_with("rect")));
}

#[test]
fn try_get_completions_refuses_bad_offsets() {
    let library = Library::default();
    assert!(try_get_completions("#é", 2, &library).is_none());
    assert!(try_get_completions("#é", 3, &library).is_some());
    assert!(try_get_completions("ab", 10, &library).is_none());
}

#[test]
fn positions_by_line_and_column() {
    let text = "ab\ncdé\nx";
    assert_eq!(byte_to_lsp_position(text, 0), Some(LspPosition { line: 0, character: 0 }));
    assert_eq!(byte_to_lsp_position(text, 4), Some(LspPosition { line: 1, character: 1 }));
    assert_eq!(byte_to_lsp_position(text, 7), Some(LspPosition { line: 1, character: 3 }));
    assert_eq!(byte_to_lsp_position(text, 6), None);
    assert_eq!(byte_to_lsp_position(text, 100), None);
}

#[test]
fn lsp_positions_count_line_breaks() {
    let text = "a\r\nb\rc\u{2028}d";
    assert_eq!(byte_to_lsp_position(text, 2), Some(LspPosition { line: 0, character: 2 }));
    assert_eq!(byte_to_lsp_position(text, 3), Some(LspPosition { line: 1, character: 0 }));
    assert_eq!(byte_to_lsp_position(text, 5), Some(LspPosition { line: 2, character: 0 }));
    assert_eq!(byte_to_lsp_position(text, 9), Some(LspPosition { line: 3, character: 0 }));
    assert_eq!(byte_to_lsp_position(text, 10), Some(LspPosition { line: 3, character: 1 }));
    assert_eq!(byte_to_lsp_position(text, 7), None);
}
