use typastry::paths::{
    get_default_save_dir, get_language_from_path, main_virtual_path, tab_name,
    unsaved_main_virtual_path,
};

#[test]
fn language_by_extension() {
    assert_eq!(get_language_from_path("/a/b/main.typ"), "typst");
    assert_eq!(get_language_from_path("INDEX.HTM"), "html");
    assert_eq!(get_language_from_path("lib.RS"), "rust");
    assert_eq!(get_language_from_path("notes.md"), "markdown");
    assert_eq!(get_language_from_path("Cargo.toml"), "toml");
    assert_eq!(get_language_from_path("photo.png"), "text");
    assert_eq!(get_language_from_path("Makefile"), "text");
    assert_eq!(get_language_from_path(".typ"), "text");
}

#[test]
fn tab_names() {
    assert_eq!(tab_name("/docs/report.typ"), "report.typ");
    assert_eq!(tab_name("/"), "untitled");
    assert_eq!(tab_name("/docs/.."), "untitled");
}

#[test]
fn save_dir_choice() {
    assert_eq!(get_default_save_dir(Some("/docs/a.typ"), Some("/last")), "/docs");
    assert_eq!(get_default_save_dir(None, Some("/last")), "/last");
    assert_eq!(get_default_save_dir(None, None), ".");
    assert_eq!(get_default_save_dir(Some("/"), None), ".");
}

#[test]
fn virtual_paths() {
    assert_eq!(main_virtual_path("main.typ"), "/main.typ");
    assert_eq!(main_virtual_path("/main.typ"), "/main.typ");
    assert_eq!(unsaved_main_virtual_path(), "/__main__.typ");
}
