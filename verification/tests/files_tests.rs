use typastry::files::{file_items, sorted_file_items, update_tree_item_in_vec, DirEntryInfo, FileTreeItem};

fn entry(id: &str, label: &str, is_dir: bool) -> DirEntryInfo {
    DirEntryInfo { id: id.to_string(), label: label.to_string(), is_dir }
}

fn item(id: &str) -> FileTreeItem {
    FileTreeItem { id: id.to_string(), label: id.to_string(), expanded: false, children: Vec::new() }
}

#[test]
fn folders_first_then_by_label() {
    let entries = vec![
        entry("/p/b.typ", "b.typ", false),
        entry("/p/z", "z", true),
        entry("/p/a.typ", "a.typ", false),
        entry("/p/c", "c", true),
        entry("/p/B.typ", "B.typ", false),
    ];
    let items = sorted_file_items(&entries);
    let labels: Vec<&str> = items.iter().map(|i| i.label.as_str()).collect();
    assert_eq!(labels, vec!["c", "z", "B.typ", "a.typ", "b.typ"]);
    assert!(items.iter().all(|i| !i.expanded && i.children.is_empty()));
}

#[test]
fn equal_labels_keep_their_order() {
    let entries = vec![entry("/1/x", "x", false), entry("/2/x", "x", false)];
    let items = sorted_file_items(&entries);
    assert_eq!(items[0].id, "/1/x");
    assert_eq!(items[1].id, "/2/x");
}

#[test]
fn unsorted_items_keep_order() {
    let entries = vec![entry("/p/b", "b", false), entry("/p/a", "a", true)];
    let items = file_items(&entries);
    assert_eq!(items[0].label, "b");
    assert_eq!(items[1].id, "/p/a");
}

#[test]
fn loaded_children_go_into_nested_folder() {
    let mut inner = item("/p/sub");
    inner.children.push(item("/p/sub/deep"));
    let mut roots = vec![item("/p/a.typ"), inner];
    let kids = vec![item("/p/sub/deep/x.typ")];
    assert!(update_tree_item_in_vec(&mut roots, "/p/sub/deep", &kids));
    let deep = &roots[1].children[0];
    assert!(deep.expanded);
    assert_eq!(deep.label, "/p/sub/deep");
    assert_eq!(deep.children.len(), 1);
    assert_eq!(deep.children[0].id, "/p/sub/deep/x.typ");
    assert!(!roots[1].expanded);
}

#[test]
fn missing_folder_leaves_tree() {
    let mut roots = vec![item("/p/a")];
    assert!(!update_tree_item_in_vec(&mut roots, "/q", &vec![item("/q/x")]));
    assert_eq!(roots.len(), 1);
    assert!(roots[0].children.is_empty());
}
