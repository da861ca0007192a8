use typastry::intel::{RawCompletion, RawCompletionKind};
use typastry::popup::{completion_popup, popup_replacement};

fn raw(label: &str, apply: Option<&str>) -> RawCompletion {
    RawCompletion {
        label: label.to_string(),
        apply: apply.map(|s| s.to_string()),
        detail: None,
        kind: RawCompletionKind::Func,
    }
}

#[test]
fn popup_filters_by_text_after_the_hash() {
    let raws = vec![raw("Text", Some("text(${})")), raw("table", None), raw("rect", None)];
    let items = completion_popup("Hi #te", 3, 6, &raws);
    assert_eq!(items.len(), 1);
    assert_eq!(items[0].label, "Text");
    assert_eq!(items[0].apply, "text(${})");
    let all = completion_popup("Hi #", 3, 4, &raws);
    assert_eq!(all.len(), 3);
    assert_eq!(all[1].apply, "table");
}

#[test]
fn picking_replaces_from_after_the_hash() {
    let raws = vec![raw("table", None)];
    let items = completion_popup("Hi #ta", 3, 6, &raws);
    let (range, text) = popup_replacement(3, 6, &items[0]);
    assert_eq!(range, 4..6);
    assert_eq!(text, "table");
}
