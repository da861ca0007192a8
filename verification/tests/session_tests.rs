use typastry::session::{CompletionSession, SessionAction};

#[test]
fn hash_opens_and_typing_keeps_session() {
    let mut s: CompletionSession<String> = CompletionSession::new();
    assert_eq!(s.on_text_change("Hi #", 4), SessionAction::Fetch);
    assert_eq!(s.trigger_index(), Some(3));
    assert_eq!(s.on_text_change("Hi #te", 6), SessionAction::Fetch);
    assert_eq!(s.trigger_index(), Some(3));
}

#[test]
fn space_or_bracket_closes_session() {
    let mut s: CompletionSession<String> = CompletionSession::new();
    s.on_text_change("#", 1);
    assert_eq!(s.on_text_change("#text ", 6), SessionAction::Close);
    assert_eq!(s.trigger_index(), None);
    s.on_text_change("#", 1);
    assert_eq!(s.on_text_change("#f)", 3), SessionAction::Close);
}

#[test]
fn moving_before_hash_closes_session() {
    let mut s: CompletionSession<String> = CompletionSession::new();
    s.on_text_change("ab#", 3);
    assert_eq!(s.on_text_change("ab#c", 2), SessionAction::Close);
}

#[test]
fn no_session_leaves_list_alone() {
    let mut s: CompletionSession<String> = CompletionSession::new();
    assert_eq!(s.on_text_change("plain text", 5), SessionAction::Unchanged);
    assert_eq!(s.trigger_index(), None);
}

#[test]
fn list_is_shown_only_while_a_session_is_open() {
    let mut s: CompletionSession<String> = CompletionSession::new();
    assert!(s.completions().is_empty());
    s.set_completions(vec!["text".to_string()]);
    assert!(s.completions().is_empty());
    assert_eq!(s.on_text_change("#", 1), SessionAction::Fetch);
    assert_eq!(s.on_text_change("#t", 2), SessionAction::Fetch);
    s.set_completions(vec!["text".to_string(), "table".to_string()]);
    assert_eq!(s.completions().len(), 2);
    assert_eq!(s.on_text_change("#te", 3), SessionAction::Fetch);
    assert_eq!(s.completions().len(), 2);
    assert_eq!(s.on_text_change("#te ", 4), SessionAction::Close);
    assert_eq!(s.trigger_index(), None);
    assert!(s.completions().is_empty());
}

#[test]
fn closing_clears_the_list() {
    let mut s: CompletionSession<u32> = CompletionSession::new();
    s.on_text_change("#", 1);
    s.set_completions(vec![1, 2]);
    s.close();
    assert_eq!(s.trigger_index(), None);
    assert!(s.completions().is_empty());
}
