use typastry::menus::{
    file_menu, file_menu_label, recent_files_menu, theme_menu_names, FileMenuAction, RecentMenuItem,
};

fn pair(k: &str, v: &str) -> (String, String) {
    (k.to_string(), v.to_string())
}

#[test]
fn themes_sorted_with_file_themes() {
    let reg = vec![pair("tokyo", "Tokyo Storm"), pair("ayu", "Ayu Light")];
    let files = vec!["Zenburn".to_string(), "tokyo".to_string()];
    let names = theme_menu_names(&reg, &files);
    assert_eq!(names, vec!["Ayu Light", "Tokyo Storm", "Zenburn"]);
}

#[test]
fn only_default_themes_get_fallbacks() {
    let reg = vec![pair("Default Light", "Default Light"), pair("Default Dark", "Default Dark")];
    let names = theme_menu_names(&reg, &vec![]);
    assert_eq!(
        names,
        vec!["Catppuccin Latte", "Default Dark", "Default Light", "Tokyo Night", "Twilight"]
    );
}

#[test]
fn fallbacks_are_not_repeated() {
    let reg = vec![pair("Default", "Default")];
    let files = vec!["Twilight".to_string()];
    let names = theme_menu_names(&reg, &files);
    assert_eq!(names, vec!["Default", "Twilight"]);
    let reg = vec![pair("Tokyo Night", "Default Tokyo Night")];
    let names = theme_menu_names(&reg, &vec![]);
    assert_eq!(
        names,
        vec!["Catppuccin Latte", "Default Tokyo Night", "Tokyo Night", "Twilight"]
    );
}

#[test]
fn recent_menu_entries() {
    assert_eq!(recent_files_menu(&vec![]), vec![RecentMenuItem::NoRecentFiles]);
    let items = recent_files_menu(&vec!["/docs/a.typ".to_string(), "/".to_string()]);
    assert_eq!(
        items,
        vec![
            RecentMenuItem::Open { label: "a.typ".to_string(), path: "/docs/a.typ".to_string() },
            RecentMenuItem::Open { label: "/".to_string(), path: "/".to_string() },
        ]
    );
}

#[test]
fn file_menu_enables_file_actions_only_with_an_active_file() {
    let closed = file_menu(false);
    assert_eq!(closed.len(), 10);
    let enabled: Vec<FileMenuAction> = closed.iter().filter(|e| e.1).map(|e| e.0).collect();
    assert_eq!(
        enabled,
        vec![
            FileMenuAction::NewFile,
            FileMenuAction::OpenFile,
            FileMenuAction::OpenFolder,
            FileMenuAction::Quit
        ]
    );
    let open = file_menu(true);
    assert!(open.iter().all(|e| e.1 == (e.0 != FileMenuAction::PackageManager)));
    assert_eq!(file_menu_label(FileMenuAction::SaveAs), "Save As...");
    assert_eq!(file_menu_label(FileMenuAction::ExportWord), "Word Document");
}
