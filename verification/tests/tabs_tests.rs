use typastry::tabs::TabSet;

fn paths(t: &TabSet) -> Vec<String> {
    t.open_files.iter().map(|f| f.path.clone()).collect()
}

#[test]
fn open_adds_tab_and_activates() {
    let mut t = TabSet::new();
    assert!(t.open_file("/docs/main.typ".to_string()));
    assert!(t.open_file("/docs/notes.md".to_string()));
    assert_eq!(paths(&t), vec!["/docs/main.typ", "/docs/notes.md"]);
    assert_eq!(t.active_file_path.as_deref(), Some("/docs/notes.md"));
    assert_eq!(t.open_files[0].language, "typst");
    assert_eq!(t.open_files[1].language, "markdown");
    assert_eq!(t.open_files[0].lsp_version, 1);
    assert!(!t.open_files[0].has_unsaved_changes);
}

#[test]
fn reopening_bumps_version() {
    let mut t = TabSet::new();
    t.open_file("/a.typ".to_string());
    t.open_file("/b.typ".to_string());
    assert!(!t.open_file("/a.typ".to_string()));
    assert_eq!(t.open_files.len(), 2);
    assert_eq!(t.open_files[0].lsp_version, 2);
    assert_eq!(t.active_file_path.as_deref(), Some("/a.typ"));
}

#[test]
fn close_active_moves_to_neighbour() {
    let mut t = TabSet::new();
    t.open_file("/a.typ".to_string());
    t.open_file("/b.typ".to_string());
    t.open_file("/c.typ".to_string());
    t.open_file("/b.typ".to_string());
    assert!(t.close_file("/b.typ"));
    assert_eq!(paths(&t), vec!["/a.typ", "/c.typ"]);
    assert_eq!(t.active_file_path.as_deref(), Some("/c.typ"));
    assert!(t.close_file("/c.typ"));
    assert_eq!(t.active_file_path.as_deref(), Some("/a.typ"));
    assert!(t.close_file("/a.typ"));
    assert_eq!(t.active_file_path, None);
    assert!(!t.close_file("/a.typ"));
}

#[test]
fn close_inactive_keeps_active() {
    let mut t = TabSet::new();
    t.open_file("/a.typ".to_string());
    t.open_file("/b.typ".to_string());
    assert!(t.close_file("/a.typ"));
    assert_eq!(t.active_file_path.as_deref(), Some("/b.typ"));
}

#[test]
fn move_tab_and_back() {
    let mut t = TabSet::new();
    for p in ["/a", "/b", "/c", "/d"] {
        t.open_file(p.to_string());
    }
    t.move_tab(0, 2);
    assert_eq!(paths(&t), vec!["/b", "/c", "/a", "/d"]);
    t.move_tab(2, 0);
    assert_eq!(paths(&t), vec!["/a", "/b", "/c", "/d"]);
}

#[test]
fn new_file_picks_first_free_untitled() {
    let mut t = TabSet::new();
    let p1 = t.new_file("/tmp/");
    assert_eq!(p1, "/tmp/untitled_1.typ");
    let p2 = t.new_file("/tmp/");
    assert_eq!(p2, "/tmp/untitled_2.typ");
    t.close_file("/tmp/untitled_1.typ");
    let p3 = t.new_file("/tmp/");
    assert_eq!(p3, "/tmp/untitled_1.typ");
    assert!(t.open_files.iter().all(|f| f.language == "typst"));
    assert!(t.open_files[0].has_unsaved_changes);
    assert_eq!(t.active_file_path.as_deref(), Some("/tmp/untitled_1.typ"));
}

#[test]
fn save_as_renames_active_tab() {
    let mut t = TabSet::new();
    assert_eq!(
        t.save_file_as("/x.typ".to_string()),
        Err("No active file to save as.".to_string())
    );
    t.new_file("/tmp/");
    assert!(t.mark_active_modified());
    assert_eq!(t.save_file_as("/docs/x.typ".to_string()), Ok(()));
    assert_eq!(paths(&t), vec!["/docs/x.typ"]);
    assert_eq!(t.active_file_path.as_deref(), Some("/docs/x.typ"));
    assert!(!t.open_files[0].has_unsaved_changes);
    assert_eq!(t.open_files[0].lsp_version, 2);
    assert!(t.mark_active_modified());
    assert!(t.open_files[0].has_unsaved_changes);
    assert!(t.mark_active_saved());
    assert!(!t.open_files[0].has_unsaved_changes);
    assert_eq!(t.open_files[0].lsp_version, 3);
}
