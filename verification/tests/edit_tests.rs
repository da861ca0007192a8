use typastry::edit::{
    adjust_selection, apply_edit_action, grid_markup_string, try_apply_edit_action, EditAction,
    TextEdit,
};

fn applied(content: &str, edit: &TextEdit) -> String {
    format!(
        "{}{}{}",
        &content[..edit.range.start],
        edit.new_text,
        &content[edit.range.end..]
    )
}

#[test]
fn test_toggle_formatting() {
    let content = "Hello world";

    // 1. Bold the word "world"
    let edit = apply_edit_action(content, 6..11, &EditAction::ToggleBold);
    assert_eq!(edit.new_text, "*world*");
    assert_eq!(edit.range, 6..11);

    let new_content = format!(
        "{}{}{}",
        &content[..edit.range.start],
        edit.new_text,
        &content[edit.range.end..]
    );
    assert_eq!(new_content, "Hello *world*");

    // 2. Unbold it back
    let edit_unwrap = apply_edit_action(&new_content, 7..12, &EditAction::ToggleBold);
    assert_eq!(edit_unwrap.new_text, "world");
    assert_eq!(edit_unwrap.range, 6..13);
}

#[test]
fn test_smart_nesting_prevention() {
    let content = "Hello #text(font: \"Inter\")[world]";

    // Target is "world" which is inside #text(...)
    let size: f64 = 14.0;
    let edit = apply_edit_action(content, 27..32, &EditAction::SetFontSize(format!("{}", size)));

    // It must merge the size parameter rather than wrapping it in `#text(size: 14pt)[...]`
    assert_eq!(edit.new_text, "(font: \"Inter\", size: 14pt)");
    // The edit range must target only the Args node of the parent '#text(...)`
    assert_eq!(edit.range, 11..26);
}

#[test]
fn test_page_set_rules() {
    let content = "Hello reader";

    // 1. Insert paper attribute on a completely empty set-rule space
    let edit = apply_edit_action(content, 0..0, &EditAction::SetPaper("A4".to_string()));
    assert_eq!(edit.new_text, "#set page(paper: \"A4\")\n");
    assert_eq!(edit.range, 0..0);

    // 2. Update existing set rule
    let content_with_page = "#set page(paper: \"A4\")\nHello reader";
    let edit_update = apply_edit_action(
        content_with_page,
        24..30, // reader
        &EditAction::SetFlipped(true),
    );
    assert_eq!(edit_update.new_text, "(paper: \"A4\", flipped: true)");
    assert_eq!(edit_update.range, 9..22);
}

#[test]
fn toggle_italic_wraps_and_unwraps() {
    let content = "Hello world";
    let edit = apply_edit_action(content, 0..5, &EditAction::ToggleItalic);
    assert_eq!(edit.new_text, "_Hello_");
    assert_eq!(edit.range, 0..5);
    assert_eq!(edit.new_selection, 1..6);
    let wrapped = applied(content, &edit);
    assert_eq!(wrapped, "_Hello_ world");
    let back = apply_edit_action(&wrapped, 1..6, &EditAction::ToggleItalic);
    assert_eq!(back.range, 0..7);
    assert_eq!(back.new_text, "Hello");
    assert_eq!(back.new_selection, 0..5);
    assert_eq!(applied(&wrapped, &back), content);
}

#[test]
fn toggle_bold_round_trip_restores_the_text() {
    let content = "a b c";
    let wrap = apply_edit_action(content, 2..3, &EditAction::ToggleBold);
    let once = applied(content, &wrap);
    assert_eq!(once, "a *b* c");
    let unwrap = apply_edit_action(&once, wrap.new_selection.clone(), &EditAction::ToggleBold);
    assert_eq!(applied(&once, &unwrap), content);
    assert_eq!(unwrap.new_selection, 2..3);
}

#[test]
fn unwrap_moves_the_selection_back_one_byte() {
    let edit = apply_edit_action("Hello *world*", 6..12, &EditAction::ToggleBold);
    assert_eq!(edit.range, 6..13);
    assert_eq!(edit.new_text, "world");
    assert_eq!(edit.new_selection, 5..11);
    let edit = apply_edit_action("Hello *world*", 7..12, &EditAction::ToggleBold);
    assert_eq!(edit.new_selection, 6..11);
}

#[test]
fn unwrap_at_start_of_document() {
    let edit = apply_edit_action("*a*", 0..3, &EditAction::ToggleBold);
    assert_eq!(edit.range, 0..3);
    assert_eq!(edit.new_text, "a");
    assert_eq!(edit.new_selection, 0..1);
    let edit = apply_edit_action("*ab*", 0..4, &EditAction::ToggleBold);
    assert_eq!(edit.new_text, "ab");
    assert_eq!(edit.new_selection, 0..2);
}

#[test]
fn selection_is_clamped_to_the_text() {
    let edit = apply_edit_action("ab", 1..99, &EditAction::ToggleBold);
    assert_eq!(edit.range, 1..2);
    assert_eq!(edit.new_text, "*b*");
    assert_eq!(edit.new_selection, 2..3);
}

#[test]
fn reversed_selection_is_refused() {
    assert!(try_apply_edit_action("abcdef", 4..2, &EditAction::ToggleBold).is_none());
}

#[test]
fn set_font_wraps_plain_text() {
    let content = "Hello world";
    let edit = apply_edit_action(content, 6..11, &EditAction::SetFont("Inter".to_string()));
    assert_eq!(edit.range, 6..11);
    assert_eq!(edit.new_text, "#text(font: \"Inter\")[world]");
    let prefix_len = "#text(font: \"Inter\")[".len();
    assert_eq!(edit.new_selection, (6 + prefix_len)..(6 + prefix_len + 5));
}

#[test]
fn set_color_trims_the_selection_before_wrapping() {
    let content = "say  hi  now";
    let edit = apply_edit_action(content, 3..9, &EditAction::SetTextColor("red".to_string()));
    assert_eq!(edit.range, 5..7);
    assert_eq!(edit.new_text, "#text(fill: red)[hi]");
}

#[test]
fn set_font_replaces_an_existing_parameter() {
    let content = "#text(font: \"A\")[x]";
    let edit = apply_edit_action(content, 17..18, &EditAction::SetFont("B".to_string()));
    assert_eq!(edit.range, 5..16);
    assert_eq!(edit.new_text, "(font: \"B\")");
}

#[test]
fn empty_color_unwraps_a_call_with_no_other_parameter() {
    let content = "#text(fill: red)[hi]";
    let edit = apply_edit_action(content, 17..19, &EditAction::SetTextColor(String::new()));
    assert_eq!(edit.range, 1..20);
    assert_eq!(edit.new_text, "hi");
}

#[test]
fn empty_color_removes_only_that_parameter() {
    let content = "#text(fill: red, size: 9pt)[hi]";
    let edit = apply_edit_action(content, 28..30, &EditAction::SetTextColor(String::new()));
    assert_eq!(edit.range, 5..27);
    assert_eq!(edit.new_text, "(size: 9pt)");
}

#[test]
fn insert_grid_at_the_cursor() {
    let content = "ab";
    let edit = apply_edit_action(content, 1..1, &EditAction::InsertGrid { rows: 2, cols: 2 });
    let expected = "\n#grid(\n  columns: (1fr, 1fr),\n  gutter: 1em,\n  [Cell R1C1], [Cell R1C2],\n  [Cell R2C1], [Cell R2C2],\n)\n";
    assert_eq!(edit.new_text, expected);
    assert_eq!(edit.range, 1..1);
    assert_eq!(edit.new_selection, 1..(1 + expected.len()));
}

#[test]
fn grid_markup_with_no_columns() {
    assert_eq!(
        grid_markup_string(1, 0),
        "\n#grid(\n  columns: (),\n  gutter: 1em,\n  ,\n)\n"
    );
}

#[test]
fn grid_cells_count_in_decimal() {
    let g = grid_markup_string(12, 1);
    assert!(g.contains("[Cell R12C1]"));
    assert!(g.contains("[Cell R10C1]"));
}

#[test]
fn set_columns_and_margin_on_existing_rule() {
    let content = "#set page(flipped: false)\nBody";
    let edit = apply_edit_action(content, 26..30, &EditAction::SetColumns(2));
    assert_eq!(edit.new_text, "(flipped: false, columns: 2)");
    assert_eq!(edit.range, 9..25);
    // The selection after the rule shifts by the change in length.
    assert_eq!(edit.new_selection, 38..42);
    let m = apply_edit_action(content, 0..0, &EditAction::SetMargin("x: 1cm".to_string()));
    assert_eq!(m.new_text, "(flipped: false, margin: (x: 1cm))");
}

#[test]
fn bare_set_page_gets_arguments() {
    let content = "#set page\nHi";
    let edit = apply_edit_action(content, 10..12, &EditAction::SetFlipped(false));
    assert_eq!(edit.range, 9..9);
    assert_eq!(edit.new_text, "(flipped: false)");
}

#[test]
fn adjust_selection_shifts_and_keeps() {
    // Edit entirely before the selection: shifted by the change in length.
    assert_eq!(adjust_selection(0..2, 5, 4..6), 7..9);
    // Edit entirely after the selection: unchanged.
    assert_eq!(adjust_selection(10..12, 1, 4..6), 4..6);
    // Selection start inside the edit: moved to the end of the replacement.
    assert_eq!(adjust_selection(2..8, 3, 4..10), 5..7);
    // Both bounds inside the edit: both at the end of the replacement.
    assert_eq!(adjust_selection(1..23, 5, 17..22), 6..6);
}

#[test]
fn detects_bold_at_cursor() {
    let props = typastry::edit::detect_properties_at_offset("Hello *world*", 8);
    assert!(props.is_bold);
    assert!(!props.is_italic);
    assert_eq!(props.size, None);
}

#[test]
fn detects_text_parameters_at_cursor() {
    let content = "A #text(font: \"Inter\", size: 14pt)[big _word_] B";
    let inside = content.find("word").unwrap() + 1;
    let props = typastry::edit::detect_properties_at_offset(content, inside);
    assert!(props.is_italic);
    assert!(!props.is_bold);
    assert_eq!(props.font.as_deref(), Some("\"Inter\""));
    assert_eq!(props.size.as_deref(), Some("14pt"));
    assert_eq!(props.fill, None);
    let outside = typastry::edit::detect_properties_at_offset(content, 1);
    assert_eq!(outside.font, None);
    assert!(!outside.is_italic);
}

#[test]
fn text_call_without_parentheses_gets_arguments_after_the_callee() {
    let content = "#text[world]";
    let edit = apply_edit_action(content, 6..11, &EditAction::SetFontSize("14".to_string()));
    assert_eq!(edit.range, 5..5);
    assert_eq!(edit.new_text, "(size: 14pt)");
    assert_eq!(applied(content, &edit), "#text(size: 14pt)[world]");
    assert_eq!(edit.new_selection, 18..23);
}

#[test]
fn trimming_counts_bytes_after_multibyte_text() {
    let content = "é  hi  x";
    let edit = apply_edit_action(content, 2..8, &EditAction::SetTextColor("red".to_string()));
    assert_eq!(edit.range, 4..6);
    assert_eq!(edit.new_text, "#text(fill: red)[hi]");
    let content = "a\u{3000}hi";
    let edit = apply_edit_action(content, 1..6, &EditAction::SetTextColor("red".to_string()));
    assert_eq!(edit.range, 4..6);
    assert_eq!(applied(content, &edit), "a\u{3000}#text(fill: red)[hi]");
}
