//! File paths as the editor shows them: tab names, the language of a file and
//! where a save dialog starts.
use vstd::prelude::*;
use vstd::string::*;
use crate::text::{ascii_lower, is_ascii_text, lowercase, to_lowercase};

verus! {

broadcast use vstd::string::group_string_axioms;

/// The final component of a path, as `std::path::Path::file_name` finds it.
pub uninterp spec fn path_file_name(path: Seq<char>) -> Option<Seq<char>>;

/// The parent of a path, as `std::path::Path::parent` finds it.
pub uninterp spec fn path_parent(path: Seq<char>) -> Option<Seq<char>>;

/// The index of the last `.` among the first `end` characters of `name`.
pub open spec fn last_dot(name: Seq<char>, end: int) -> Option<int>
    decreases end,
{
    if end <= 0 || end > name.len() {
        None
    } else if name[end - 1] == '.' {
        Some(end - 1)
    } else {
        last_dot(name, end - 1)
    }
}

/// The extension of a file name as `Path::extension` documents it: the part
/// after the last `.`, or `None` where there is no `.` or the only `.` starts
/// the name.
pub open spec fn name_extension(name: Seq<char>) -> Option<Seq<char>> {
    match last_dot(name, name.len() as int) {
        Some(k) => if k > 0 {
            Some(name.skip(k + 1))
        } else {
            None
        },
        None => None,
    }
}

/// The extension of a path: that of its file name.
pub open spec fn path_extension(path: Seq<char>) -> Option<Seq<char>> {
    match path_file_name(path) {
        Some(n) => name_extension(n),
        None => None,
    }
}

/// Calls `Path::file_name` on the path. Claimed: the result is the path's file
/// name (a path made from a `str` has a `str` file name).
#[verifier::external_body]
fn file_name_of(path: &str) -> (r: Option<String>)
    ensures
        r matches Some(n) ==> path_file_name(path@) == Some(n@),
        r is None ==> path_file_name(path@) is None,
{
    std::path::Path::new(path).file_name().and_then(|n| n.to_str()).map(|n| n.to_string())
}

/// Calls `Path::extension` on the path. Claimed: the result is the extension of
/// the file name, as the function's documentation defines it.
#[verifier::external_body]
fn extension_of(path: &str) -> (r: Option<String>)
    ensures
        r matches Some(e) ==> path_extension(path@) == Some(e@),
        r is None ==> path_extension(path@) is None,
{
    std::path::Path::new(path).extension().and_then(|e| e.to_str()).map(|e| e.to_string())
}

/// Calls `Path::parent` on the path. Claimed: the result is the path's parent.
#[verifier::external_body]
fn parent_of(path: &str) -> (r: Option<String>)
    ensures
        r matches Some(p) ==> path_parent(path@) == Some(p@),
        r is None ==> path_parent(path@) is None,
{
    std::path::Path::new(path).parent().and_then(|p| p.to_str()).map(|p| p.to_string())
}

/// The editor language for a lowercase file extension.
pub open spec fn language_of_extension(ext: Seq<char>) -> Seq<char> {
    if ext == "html"@ || ext == "htm"@ {
        "html"@
    } else if ext == "rs"@ {
        "rust"@
    } else if ext == "md"@ {
        "markdown"@
    } else if ext == "toml"@ {
        "toml"@
    } else if ext == "typ"@ {
        "typst"@
    } else {
        "text"@
    }
}

/// The editor language of a path: by its extension, ignoring case, and
/// `text` where there is none.
pub open spec fn language_of_path(path: Seq<char>) -> Seq<char> {
    match path_extension(path) {
        Some(e) => language_of_extension(lowercase(e)),
        None => "text"@,
    }
}

/// The language of an ASCII extension does not depend on the case of its
/// letters.
pub proof fn lemma_language_ignores_ascii_case(e1: Seq<char>, e2: Seq<char>)
    requires
        is_ascii_text(e1),
        is_ascii_text(e2),
        e1.len() == e2.len(),
        forall|i: int| 0 <= i < e1.len() ==> ascii_lower(#[trigger] e1[i]) == ascii_lower(e2[i]),
    ensures
        language_of_extension(lowercase(e1)) == language_of_extension(lowercase(e2)),
{
    assert(lowercase(e1) =~= lowercase(e2));
}

fn is_literal(s: &str, lit: &str) -> (r: bool)
    ensures
        r == (s@ == lit@),
{
    crate::text::str_equal(s, lit)
}

/// Guesses the editor language of a file from its extension.
pub fn get_language_from_path(path: &str) -> (r: String)
    ensures
        r@ == language_of_path(path@),
{
    match extension_of(path) {
        Some(e) => {
            let ext = to_lowercase(e.as_str());
            let e = ext.as_str();
            let lang = if is_literal(e, "html") || is_literal(e, "htm") {
                "html"
            } else if is_literal(e, "rs") {
                "rust"
            } else if is_literal(e, "md") {
                "markdown"
            } else if is_literal(e, "toml") {
                "toml"
            } else if is_literal(e, "typ") {
                "typst"
            } else {
                "text"
            };
            lang.to_string()
        },
        None => "text".to_string(),
    }
}

/// The name shown on a tab: the file name, or `untitled`.
pub open spec fn tab_label(path: Seq<char>) -> Seq<char> {
    match path_file_name(path) {
        Some(n) => n,
        None => "untitled"@,
    }
}

/// The file name of a path, or `fallback` where it has none.
pub fn file_name_or(path: &str, fallback: &str) -> (r: String)
    ensures
        r@ == match path_file_name(path@) {
            Some(n) => n,
            None => fallback@,
        },
{
    match file_name_of(path) {
        Some(n) => n,
        None => String::from_str(fallback),
    }
}

/// The display name of a file's tab (e.g. `main.typ`).
pub fn tab_name(path: &str) -> (r: String)
    ensures
        r@ == tab_label(path@),
{
    file_name_or(path, "untitled")
}

/// The directory a save dialog starts in: the active file's directory, else
/// the last opened folder, else `.`.
pub open spec fn save_dir(active: Option<Seq<char>>, last_folder: Option<Seq<char>>) -> Seq<char> {
    match active {
        Some(p) if path_parent(p) is Some => path_parent(p)->0,
        _ => match last_folder {
            Some(f) => f,
            None => "."@,
        },
    }
}

/// Picks the directory a save or export dialog starts in.
pub fn get_default_save_dir(active_file_path: Option<&str>, last_folder_open: Option<&str>) -> (r: String)
    ensures
        r@ == save_dir(
            match active_file_path {
                Some(p) => Some(p@),
                None => None,
            },
            match last_folder_open {
                Some(f) => Some(f@),
                None => None,
            },
        ),
{
    if let Some(p) = active_file_path {
        if let Some(parent) = parent_of(p) {
            return parent;
        }
    }
    match last_folder_open {
        Some(f) => f.to_string(),
        None => ".".to_string(),
    }
}

/// The virtual path under which the compiler sees the main document: its path
/// relative to the project root, made absolute with a leading `/`.
pub open spec fn rooted_virtual_path(relative: Seq<char>) -> Seq<char> {
    if relative.len() > 0 && relative[0] == '/' {
        relative
    } else {
        "/"@ + relative
    }
}

/// Roots a document path relative to the project root at `/`.
pub fn main_virtual_path(relative: &str) -> (r: String)
    ensures
        r@ == rooted_virtual_path(relative@),
{
    let cs = crate::text::chars_of(relative);
    if cs.len() > 0 && cs[0] == '/' {
        String::from_str(relative)
    } else {
        let mut s = String::from_str("/");
        s.append(relative);
        proof {
            reveal_strlit("/");
        }
        s
    }
}

/// The virtual path of an unsaved main document.
pub fn unsaved_main_virtual_path() -> (r: String)
    ensures
        r@ == "/__main__.typ"@,
{
    String::from_str("/__main__.typ")
}

} // verus!
