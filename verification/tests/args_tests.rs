use typastry::args::{get_arg_value, merge_args, remove_arg, split_str, trim_str};

#[test]
fn get_arg_value_reads_trimmed_value() {
    assert_eq!(
        get_arg_value("font: \"Inter\", size: 14pt", "size"),
        Some("14pt".to_string())
    );
    assert_eq!(
        get_arg_value("  font :  \"Inter\" ", "font"),
        Some("\"Inter\"".to_string())
    );
    assert_eq!(get_arg_value("font: \"Inter\"", "fill"), None);
    assert_eq!(get_arg_value("", "fill"), None);
}

#[test]
fn get_arg_value_takes_first_entry() {
    assert_eq!(get_arg_value("a: 1, a: 2", "a"), Some("1".to_string()));
}

#[test]
fn remove_arg_drops_key_and_empty_entries() {
    let (rest, empty) = remove_arg("font: \"Inter\", , size: 12pt", "size");
    assert_eq!(rest, "font: \"Inter\"");
    assert!(!empty);
    let (rest, empty) = remove_arg("fill: red", "fill");
    assert_eq!(rest, "");
    assert!(empty);
}

#[test]
fn merge_args_replaces_or_appends() {
    assert_eq!(
        merge_args("font: \"Inter\"", "size", "14pt"),
        "font: \"Inter\", size: 14pt"
    );
    assert_eq!(
        merge_args("size: 10pt, font: \"Inter\"", "size", "14pt"),
        "size: 14pt, font: \"Inter\""
    );
    assert_eq!(merge_args("", "fill", "red"), "fill: red");
}

#[test]
fn read_after_merge_gives_written_value() {
    let merged = merge_args(" a: 1 ,, b : 2", "b", " 3 ");
    assert_eq!(get_arg_value(&merged, "b"), Some("3".to_string()));
}

#[test]
fn read_after_remove_gives_nothing() {
    let (rest, _) = remove_arg("a: 1, b: 2, a: 3", "a");
    assert_eq!(rest, "b: 2");
    assert_eq!(get_arg_value(&rest, "a"), None);
}

#[test]
fn split_and_trim_follow_std() {
    assert_eq!(split_str("a,,b", ','), vec!["a", "", "b"]);
    assert_eq!(split_str("", ','), vec![""]);
    assert_eq!(trim_str("\t x y \n"), "x y");
}

#[test]
fn merging_twice_is_merging_once() {
    for args in ["", "a: 1, size: 2", " size:1 , b: x,", "font: \"A\""] {
        let once = merge_args(args, "size", "3pt");
        assert_eq!(merge_args(&once, "size", "3pt"), once);
    }
    assert_eq!(merge_args("a: 1, size: 2", "size", "3pt"), "a: 1, size: 3pt");
}
