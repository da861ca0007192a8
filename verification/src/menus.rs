//! What the application menus list: the theme names and the recent files.
use vstd::prelude::*;
use vstd::string::*;
use crate::files::label_lt;
use crate::intel::starts_with;
use crate::paths::path_file_name;

verus! {

broadcast use vstd::string::group_string_axioms;

/// Themes by key with their display names, in the order keys were added.
pub type ThemeTable = Seq<(Seq<char>, Seq<char>)>;

/// The index of the entry for `key`.
pub open spec fn find_theme(t: ThemeTable, key: Seq<char>, i: int) -> Option<int>
    decreases t.len() - i,
{
    if i < 0 || i >= t.len() {
        None
    } else if t[i].0 == key {
        Some(i)
    } else {
        find_theme(t, key, i + 1)
    }
}

/// The table with `key` set to `name` (`HashMap::insert`).
pub open spec fn table_insert(t: ThemeTable, key: Seq<char>, name: Seq<char>) -> ThemeTable {
    match find_theme(t, key, 0) {
        Some(i) => t.update(i, (key, name)),
        None => t.push((key, name)),
    }
}

/// The registry's themes, by key.
pub open spec fn registry_table(reg: Seq<(Seq<char>, Seq<char>)>) -> ThemeTable
    decreases reg.len(),
{
    if reg.len() == 0 {
        Seq::empty()
    } else {
        table_insert(registry_table(reg.drop_last()), reg.last().0, reg.last().1)
    }
}

/// The table with the themes found in files added under their own names,
/// where no theme has that key yet.
pub open spec fn with_file_themes(t: ThemeTable, names: Seq<Seq<char>>) -> ThemeTable
    decreases names.len(),
{
    if names.len() == 0 {
        t
    } else {
        let r = with_file_themes(t, names.drop_last());
        if find_theme(r, names.last(), 0) is Some {
            r
        } else {
            r.push((names.last(), names.last()))
        }
    }
}

/// The first index at or after `i` of a name that goes after `x`, or the length.
pub open spec fn name_pos(s: Seq<Seq<char>>, x: Seq<char>, i: int) -> int
    decreases s.len() - i,
{
    if i < 0 || i >= s.len() {
        s.len() as int
    } else if label_lt(x, s[i]) {
        i
    } else {
        name_pos(s, x, i + 1)
    }
}

/// The names in ascending order (`sort` on strings).
pub open spec fn sorted_names(s: Seq<Seq<char>>) -> Seq<Seq<char>>
    decreases s.len(),
{
    if s.len() == 0 {
        Seq::empty()
    } else {
        let r = sorted_names(s.drop_last());
        r.insert(name_pos(r, s.last(), 0), s.last())
    }
}

/// The names without a name equal to the one before it (`dedup`).
pub open spec fn dedup_names(s: Seq<Seq<char>>) -> Seq<Seq<char>>
    decreases s.len(),
{
    if s.len() == 0 {
        Seq::empty()
    } else {
        let r = dedup_names(s.drop_last());
        if s.len() >= 2 && s[s.len() - 2] == s.last() {
            r
        } else {
            r.push(s.last())
        }
    }
}

/// Themes offered when only the default themes were found.
pub open spec fn fallback_themes() -> Seq<Seq<char>> {
    seq!["Tokyo Night"@, "Twilight"@, "Catppuccin Latte"@]
}

/// Every name starts with `Default`.
pub open spec fn all_default(s: Seq<Seq<char>>) -> bool {
    forall|i: int| 0 <= i < s.len() ==> starts_with(#[trigger] s[i], "Default"@)
}

/// The theme menu: the display names of the registry's themes and of the
/// themes found in files, sorted; when that leaves at most two names, all
/// starting with `Default`, some well-known themes are added, and the list is
/// sorted again without repeats.
pub open spec fn theme_menu(reg: Seq<(Seq<char>, Seq<char>)>, file_names: Seq<Seq<char>>) -> Seq<Seq<char>> {
    let t = with_file_themes(registry_table(reg), file_names);
    let names = sorted_names(t.map_values(|e: (Seq<char>, Seq<char>)| e.1));
    if names.len() <= 2 && all_default(names) {
        dedup_names(sorted_names(names + fallback_themes()))
    } else {
        names
    }
}

/// The texts of pairs of strings.
pub open spec fn pair_views(v: Seq<(String, String)>) -> ThemeTable {
    v.map_values(|p: (String, String)| (p.0@, p.1@))
}

/// The texts of a sequence of strings.
pub open spec fn name_views(v: Seq<String>) -> Seq<Seq<char>> {
    v.map_values(|s: String| s@)
}

fn find_key(t: &Vec<(String, String)>, key: &str) -> (r: Option<usize>)
    ensures
        r matches Some(i) ==> find_theme(pair_views(t@), key@, 0) == Some(i as int) && i < t.len(),
        r is None ==> find_theme(pair_views(t@), key@, 0) is None,
{
    let mut i: usize = 0;
    while i < t.len()
        invariant
            0 <= i <= t.len(),
            find_theme(pair_views(t@), key@, 0) == find_theme(pair_views(t@), key@, i as int),
        decreases t.len() - i,
    {
        if crate::text::str_equal(t[i].0.as_str(), key) {
            return Some(i);
        }
        i = i + 1;
    }
    None
}

fn insert_name(sorted: &mut Vec<String>, x: String)
    ensures
        name_views(final(sorted)@) == name_views(old(sorted)@).insert(
            name_pos(name_views(old(sorted)@), x@, 0),
            x@,
        ),
{
    let ghost sv = name_views(sorted@);
    let mut p: usize = 0;
    while p < sorted.len() && !crate::files::label_less(x.as_str(), sorted[p].as_str())
        invariant
            0 <= p <= sorted.len(),
            sv == name_views(sorted@),
            name_pos(sv, x@, 0) == name_pos(sv, x@, p as int),
        decreases sorted.len() - p,
    {
        p = p + 1;
    }
    sorted.insert(p, x);
    assert(name_views(sorted@) =~= sv.insert(p as int, x@));
}

fn sort_names(v: Vec<String>) -> (r: Vec<String>)
    ensures
        name_views(r@) == sorted_names(name_views(v@)),
{
    let ghost nv = name_views(v@);
    let mut out: Vec<String> = Vec::new();
    let mut i: usize = 0;
    assert(nv.take(0) =~= Seq::<Seq<char>>::empty());
    while i < v.len()
        invariant
            0 <= i <= v.len(),
            nv == name_views(v@),
            name_views(out@) == sorted_names(nv.take(i as int)),
        decreases v.len() - i,
    {
        assert(nv.take(i + 1).drop_last() =~= nv.take(i as int));
        assert(nv.take(i + 1).last() == v@[i as int]@);
        insert_name(&mut out, v[i].clone());
        i = i + 1;
    }
    assert(nv.take(v.len() as int) =~= nv);
    out
}

fn dedup(v: Vec<String>) -> (r: Vec<String>)
    ensures
        name_views(r@) == dedup_names(name_views(v@)),
{
    let ghost nv = name_views(v@);
    let mut out: Vec<String> = Vec::new();
    let mut i: usize = 0;
    assert(nv.take(0) =~= Seq::<Seq<char>>::empty());
    while i < v.len()
        invariant
            0 <= i <= v.len(),
            nv == name_views(v@),
            name_views(out@) == dedup_names(nv.take(i as int)),
        decreases v.len() - i,
    {
        let ghost t = nv.take(i + 1);
        assert(t.drop_last() =~= nv.take(i as int));
        assert(t.last() == v@[i as int]@);
        if i >= 1 {
            assert(t[t.len() - 2] == v@[i - 1]@);
        }
        if i >= 1 && v[i - 1] == v[i] {
        } else {
            let ghost before = name_views(out@);
            out.push(v[i].clone());
            assert(name_views(out@) =~= before.push(v@[i as int]@));
        }
        i = i + 1;
    }
    assert(nv.take(v.len() as int) =~= nv);
    out
}

/// Lists the themes for the theme menu from the registry's themes (key and
/// display name) and the names of themes found in theme files.
pub fn theme_menu_names(registry: &Vec<(String, String)>, file_theme_names: &Vec<String>) -> (r: Vec<String>)
    ensures
        name_views(r@) == theme_menu(pair_views(registry@), name_views(file_theme_names@)),
{
    let ghost rv = pair_views(registry@);
    let ghost fv = name_views(file_theme_names@);
    let mut table: Vec<(String, String)> = Vec::new();
    let mut i: usize = 0;
    assert(rv.take(0) =~= Seq::<(Seq<char>, Seq<char>)>::empty());
    while i < registry.len()
        invariant
            0 <= i <= registry.len(),
            rv == pair_views(registry@),
            pair_views(table@) == registry_table(rv.take(i as int)),
        decreases registry.len() - i,
    {
        let key = registry[i].0.clone();
        let name = registry[i].1.clone();
        assert(rv.take(i + 1).drop_last() =~= rv.take(i as int));
        assert(rv.take(i + 1).last() == (key@, name@));
        let ghost tv = pair_views(table@);
        match find_key(&table, key.as_str()) {
            Some(k) => {
                table.set(k, (key, name));
                assert(pair_views(table@) =~= tv.update(k as int, (registry@[i as int].0@, registry@[i as int].1@)));
            },
            None => {
                table.push((key, name));
                assert(pair_views(table@) =~= tv.push((registry@[i as int].0@, registry@[i as int].1@)));
            },
        }
        i = i + 1;
    }
    assert(rv.take(registry.len() as int) =~= rv);
    let mut j: usize = 0;
    assert(fv.take(0) =~= Seq::<Seq<char>>::empty());
    while j < file_theme_names.len()
        invariant
            0 <= j <= file_theme_names.len(),
            fv == name_views(file_theme_names@),
            pair_views(table@) == with_file_themes(registry_table(rv), fv.take(j as int)),
        decreases file_theme_names.len() - j,
    {
        let n = &file_theme_names[j];
        assert(fv.take(j + 1).drop_last() =~= fv.take(j as int));
        assert(fv.take(j + 1).last() == n@);
        if find_key(&table, n.as_str()).is_none() {
            let ghost tv = pair_views(table@);
            table.push((n.clone(), n.clone()));
            assert(pair_views(table@) =~= tv.push((n@, n@)));
        }
        j = j + 1;
    }
    assert(fv.take(file_theme_names.len() as int) =~= fv);
    let mut values: Vec<String> = Vec::new();
    let mut k: usize = 0;
    while k < table.len()
        invariant
            0 <= k <= table.len(),
            values.len() == k,
            forall|q: int| 0 <= q < k ==> #[trigger] values@[q]@ == table@[q].1@,
        decreases table.len() - k,
    {
        values.push(table[k].1.clone());
        k = k + 1;
    }
    assert(name_views(values@) =~= pair_views(table@).map_values(|e: (Seq<char>, Seq<char>)| e.1));
    let names = sort_names(values);
    let mut all_default_names = true;
    let mut q: usize = 0;
    while q < names.len()
        invariant
            0 <= q <= names.len(),
            all_default_names == (forall|x: int| 0 <= x < q ==> starts_with(#[trigger] name_views(names@)[x], "Default"@)),
        decreases names.len() - q,
    {
        assert(name_views(names@)[q as int] == names@[q as int]@);
        if !crate::intel::starts_with_str(names[q].as_str(), "Default") {
            all_default_names = false;
        }
        q = q + 1;
    }
    if names.len() <= 2 && all_default_names {
        let ghost before = name_views(names@);
        let mut more = names;
        more.push("Tokyo Night".to_string());
        more.push("Twilight".to_string());
        more.push("Catppuccin Latte".to_string());
        assert(name_views(more@) =~= before + fallback_themes());
        dedup(sort_names(more))
    } else {
        names
    }
}

/// An entry of the recent-files menu.
#[derive(Debug, Clone, PartialEq, Eq)]
pub enum RecentMenuItem {
    /// The disabled placeholder shown when the list is empty.
    NoRecentFiles,
    /// Opens `path`; shows its file name (or the whole path if it has none).
    Open { label: String, path: String },
}

/// The label of a recent file: its file name, or the path itself.
pub open spec fn recent_label(path: Seq<char>) -> Seq<char> {
    match path_file_name(path) {
        Some(n) => n,
        None => path,
    }
}

/// A `RecentMenuItem` as plain values: `None` for the placeholder, else the
/// label and path.
pub open spec fn menu_item_view(m: RecentMenuItem) -> Option<(Seq<char>, Seq<char>)> {
    match m {
        RecentMenuItem::NoRecentFiles => None,
        RecentMenuItem::Open { label, path } => Some((label@, path@)),
    }
}

/// Builds the recent-files menu: one entry per file, in order, or the
/// placeholder when there is none.
pub fn recent_files_menu(recent: &Vec<String>) -> (r: Vec<RecentMenuItem>)
    ensures
        recent.len() == 0 ==> r@ == seq![RecentMenuItem::NoRecentFiles],
        recent.len() > 0 ==> r.len() == recent.len() && forall|i: int| 0 <= i < r.len() ==> menu_item_view(
            #[trigger] r@[i],
        ) == Some((recent_label(recent@[i]@), recent@[i]@)),
{
    let mut out: Vec<RecentMenuItem> = Vec::new();
    if recent.len() == 0 {
        out.push(RecentMenuItem::NoRecentFiles);
        return out;
    }
    let mut i: usize = 0;
    while i < recent.len()
        invariant
            0 <= i <= recent.len(),
            out.len() == i,
            forall|j: int| 0 <= j < i ==> menu_item_view(#[trigger] out@[j]) == Some(
                (recent_label(recent@[j]@), recent@[j]@),
            ),
        decreases recent.len() - i,
    {
        let path = recent[i].clone();
        let label = crate::paths::file_name_or(path.as_str(), path.as_str());
        out.push(RecentMenuItem::Open { label, path });
        i = i + 1;
    }
    out
}

/// The entries of the File menu that run an action, in menu order.
#[derive(Debug, Clone, Copy, PartialEq, Eq, Structural)]
pub enum FileMenuAction {
    NewFile,
    OpenFile,
    OpenFolder,
    Save,
    SaveAs,
    CloseFile,
    PackageManager,
    ExportPdf,
    ExportWord,
    Quit,
}

/// Whether a File-menu entry is enabled: saving, closing and exporting need an
/// active file, the package manager is never enabled, and the rest always are.
pub open spec fn file_action_enabled(a: FileMenuAction, has_active_file: bool) -> bool {
    match a {
        FileMenuAction::Save | FileMenuAction::SaveAs | FileMenuAction::CloseFile
        | FileMenuAction::ExportPdf | FileMenuAction::ExportWord => has_active_file,
        FileMenuAction::PackageManager => false,
        _ => true,
    }
}

/// The label of a File-menu entry.
pub open spec fn file_action_label(a: FileMenuAction) -> Seq<char> {
    match a {
        FileMenuAction::NewFile => "New File"@,
        FileMenuAction::OpenFile => "Open File..."@,
        FileMenuAction::OpenFolder => "Open Folder..."@,
        FileMenuAction::Save => "Save"@,
        FileMenuAction::SaveAs => "Save As..."@,
        FileMenuAction::CloseFile => "Close File"@,
        FileMenuAction::PackageManager => "Package Manager"@,
        FileMenuAction::ExportPdf => "PDF"@,
        FileMenuAction::ExportWord => "Word Document"@,
        FileMenuAction::Quit => "Quit"@,
    }
}

/// The File menu's action entries in menu order (the recent-files submenu and
/// separators aside; the two exports sit in its "Export To" submenu).
pub open spec fn file_menu_order() -> Seq<FileMenuAction> {
    seq![
        FileMenuAction::NewFile,
        FileMenuAction::OpenFile,
        FileMenuAction::OpenFolder,
        FileMenuAction::Save,
        FileMenuAction::SaveAs,
        FileMenuAction::CloseFile,
        FileMenuAction::PackageManager,
        FileMenuAction::ExportPdf,
        FileMenuAction::ExportWord,
        FileMenuAction::Quit,
    ]
}

/// Whether a File-menu entry is enabled, given whether a file is active.
pub fn file_menu_enabled(action: FileMenuAction, has_active_file: bool) -> (r: bool)
    ensures
        r == file_action_enabled(action, has_active_file),
{
    match action {
        FileMenuAction::Save | FileMenuAction::SaveAs | FileMenuAction::CloseFile
        | FileMenuAction::ExportPdf | FileMenuAction::ExportWord => has_active_file,
        FileMenuAction::PackageManager => false,
        _ => true,
    }
}

/// The label of a File-menu entry.
pub fn file_menu_label(action: FileMenuAction) -> (r: String)
    ensures
        r@ == file_action_label(action),
{
    let s = match action {
        FileMenuAction::NewFile => "New File",
        FileMenuAction::OpenFile => "Open File...",
        FileMenuAction::OpenFolder => "Open Folder...",
        FileMenuAction::Save => "Save",
        FileMenuAction::SaveAs => "Save As...",
        FileMenuAction::CloseFile => "Close File",
        FileMenuAction::PackageManager => "Package Manager",
        FileMenuAction::ExportPdf => "PDF",
        FileMenuAction::ExportWord => "Word Document",
        FileMenuAction::Quit => "Quit",
    };
    s.to_string()
}

/// The File menu's action entries in order, each with whether it is enabled.
pub fn file_menu(has_active_file: bool) -> (r: Vec<(FileMenuAction, bool)>)
    ensures
        r.len() == file_menu_order().len(),
        forall|i: int| 0 <= i < r.len() ==> #[trigger] r@[i] == (
            file_menu_order()[i],
            file_action_enabled(file_menu_order()[i], has_active_file),
        ),
{
    let order = [
        FileMenuAction::NewFile,
        FileMenuAction::OpenFile,
        FileMenuAction::OpenFolder,
        FileMenuAction::Save,
        FileMenuAction::SaveAs,
        FileMenuAction::CloseFile,
        FileMenuAction::PackageManager,
        FileMenuAction::ExportPdf,
        FileMenuAction::ExportWord,
        FileMenuAction::Quit,
    ];
    assert(order@ =~= file_menu_order());
    let mut out: Vec<(FileMenuAction, bool)> = Vec::new();
    let mut i: usize = 0;
    while i < 10
        invariant
            0 <= i <= 10,
            order@ == file_menu_order(),
            out.len() == i,
            forall|j: int| 0 <= j < i ==> #[trigger] out@[j] == (
                file_menu_order()[j],
                file_action_enabled(file_menu_order()[j], has_active_file),
            ),
        decreases 10 - i,
    {
        let a = order[i];
        out.push((a, file_menu_enabled(a, has_active_file)));
        i = i + 1;
    }
    out
}

/// With no file active, the only File-menu entries enabled are New File,
/// Open File, Open Folder and Quit; with one active, all but the package
/// manager are.
pub proof fn lemma_file_menu_needs_active_file(a: FileMenuAction, has_active_file: bool)
    ensures
        !has_active_file ==> (file_action_enabled(a, has_active_file) <==> (a == FileMenuAction::NewFile
            || a == FileMenuAction::OpenFile || a == FileMenuAction::OpenFolder || a == FileMenuAction::Quit)),
        has_active_file ==> (file_action_enabled(a, has_active_file) <==> a != FileMenuAction::PackageManager),
{
}

/// No name comes after a name that goes before it.
pub open spec fn names_ascending(s: Seq<Seq<char>>) -> bool {
    forall|i: int, j: int| 0 <= i < j < s.len() ==> !label_lt(#[trigger] s[j], #[trigger] s[i])
}

/// What `name_pos` finds: the first name that `x` goes before.
pub proof fn lemma_name_pos(s: Seq<Seq<char>>, x: Seq<char>, i: int)
    requires
        0 <= i <= s.len(),
    ensures
        i <= name_pos(s, x, i) <= s.len(),
        forall|j: int| i <= j < name_pos(s, x, i) ==> !label_lt(x, #[trigger] s[j]),
        name_pos(s, x, i) < s.len() ==> label_lt(x, s[name_pos(s, x, i)]),
    decreases s.len() - i,
{
    if i < s.len() && !label_lt(x, s[i]) {
        lemma_name_pos(s, x, i + 1);
    }
}

/// The theme names are listed in ascending order.
pub proof fn lemma_sorted_names_ascending(s: Seq<Seq<char>>)
    ensures
        names_ascending(sorted_names(s)),
        sorted_names(s).len() == s.len(),
    decreases s.len(),
{
    if s.len() > 0 {
        lemma_sorted_names_ascending(s.drop_last());
        let r = sorted_names(s.drop_last());
        let x = s.last();
        let p = name_pos(r, x, 0);
        lemma_name_pos(r, x, 0);
        let t = r.insert(p, x);
        assert forall|i: int, j: int| 0 <= i < j < t.len() implies !label_lt(#[trigger] t[j], #[trigger] t[i]) by {
            if j < p {
                assert(t[i] == r[i] && t[j] == r[j]);
            } else if j == p {
                assert(t[j] == x && t[i] == r[i]);
            } else if i < p {
                assert(t[j] == r[j - 1] && t[i] == r[i]);
            } else if i == p {
                assert(t[i] == x && t[j] == r[j - 1]);
                if label_lt(r[j - 1], x) {
                    crate::files::lemma_label_lt_transitive(r[j - 1], x, r[p]);
                    if j - 1 == p {
                        crate::files::lemma_label_lt_irreflexive(r[p]);
                    }
                }
            } else {
                assert(t[i] == r[i - 1] && t[j] == r[j - 1]);
            }
        }
    }
}

/// The theme menu lists its names in ascending order.
pub proof fn lemma_theme_menu_ascending(reg: Seq<(Seq<char>, Seq<char>)>, file_names: Seq<Seq<char>>)
    ensures
        names_ascending(theme_menu(reg, file_names)),
{
    let t = with_file_themes(registry_table(reg), file_names);
    let names = sorted_names(t.map_values(|e: (Seq<char>, Seq<char>)| e.1));
    lemma_sorted_names_ascending(t.map_values(|e: (Seq<char>, Seq<char>)| e.1));
    if names.len() <= 2 && all_default(names) {
        let s2 = sorted_names(names + fallback_themes());
        lemma_sorted_names_ascending(names + fallback_themes());
        lemma_dedup_keeps_order(s2);
    }
}

/// Dropping repeats keeps names in ascending order.
pub proof fn lemma_dedup_keeps_order(s: Seq<Seq<char>>)
    requires
        names_ascending(s),
    ensures
        names_ascending(dedup_names(s)),
        forall|i: int| 0 <= i < dedup_names(s).len() ==> s.contains(#[trigger] dedup_names(s)[i]),
        dedup_names(s).len() > 0 ==> dedup_names(s).last() == s.last(),
    decreases s.len(),
{
    if s.len() > 0 {
        let dl = s.drop_last();
        assert(names_ascending(dl)) by {
            assert forall|i: int, j: int| 0 <= i < j < dl.len() implies !label_lt(#[trigger] dl[j], #[trigger] dl[i]) by {
                assert(dl[i] == s[i] && dl[j] == s[j]);
            }
        }
        lemma_dedup_keeps_order(dl);
        let r = dedup_names(dl);
        assert forall|i: int| 0 <= i < r.len() implies s.contains(#[trigger] r[i]) by {
            let k = choose|k: int| 0 <= k < dl.len() && dl[k] == r[i];
            assert(s[k] == r[i]);
        }
        if !(s.len() >= 2 && s[s.len() - 2] == s.last()) {
            let t = r.push(s.last());
            assert(s[s.len() - 1] == s.last());
            assert forall|i: int, j: int| 0 <= i < j < t.len() implies !label_lt(#[trigger] t[j], #[trigger] t[i]) by {
                if j < r.len() {
                    assert(t[i] == r[i] && t[j] == r[j]);
                } else {
                    assert(t[j] == s.last());
                    assert(t[i] == r[i]);
                    let k = choose|k: int| 0 <= k < s.len() && s[k] == r[i];
                    if k < s.len() - 1 {
                        assert(!label_lt(s[s.len() - 1], s[k]));
                    } else {
                        crate::files::lemma_label_lt_irreflexive(s.last());
                    }
                }
            }
        } else {
            assert(s[s.len() - 2] == dl.last());
        }
    }
}

} // verus!
