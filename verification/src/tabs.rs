//! The editor's open files: one tab per file, in the order the tabs are
//! shown, and the active file.
//!
//! Reading and writing files stays with the caller; these operations decide
//! what the tab list becomes once that work has succeeded.
use vstd::prelude::*;
use vstd::string::*;
use vstd::set_lib::*;
use crate::paths::{get_language_from_path, language_of_path};
use crate::text::{decimal, digit_char, usize_to_string};

verus! {

broadcast use vstd::string::group_string_axioms;

/// An open file: its path, its editor language, whether it has changes that
/// are not saved, and the document version reported to the language server.
#[derive(Debug)]
pub struct OpenTab {
    pub path: String,
    pub language: String,
    pub has_unsaved_changes: bool,
    pub lsp_version: i32,
}

/// An `OpenTab` as plain values.
pub struct TabView {
    pub path: Seq<char>,
    pub language: Seq<char>,
    pub has_unsaved_changes: bool,
    pub lsp_version: i32,
}

impl View for OpenTab {
    type V = TabView;

    open spec fn view(&self) -> TabView {
        TabView {
            path: self.path@,
            language: self.language@,
            has_unsaved_changes: self.has_unsaved_changes,
            lsp_version: self.lsp_version,
        }
    }
}

/// The open files, in tab order, and the path of the active one.
#[derive(Debug)]
pub struct TabSet {
    pub open_files: Vec<OpenTab>,
    pub active_file_path: Option<String>,
}

/// A `TabSet` as plain values.
pub struct TabSetView {
    pub tabs: Seq<TabView>,
    pub active: Option<Seq<char>>,
}

/// The plain values of tabs.
pub open spec fn tab_views(ts: Seq<OpenTab>) -> Seq<TabView> {
    ts.map_values(|t: OpenTab| t@)
}

/// The text of an optional string.
pub open spec fn opt_view(p: Option<String>) -> Option<Seq<char>> {
    match p {
        Some(s) => Some(s@),
        None => None,
    }
}

impl View for TabSet {
    type V = TabSetView;

    open spec fn view(&self) -> TabSetView {
        TabSetView { tabs: tab_views(self.open_files@), active: opt_view(self.active_file_path) }
    }
}

/// The paths of the tabs, in order.
pub open spec fn tab_paths(ts: Seq<TabView>) -> Seq<Seq<char>> {
    ts.map_values(|t: TabView| t.path)
}

/// The first tab at or after `i` whose path is `p`.
pub open spec fn find_path(ts: Seq<TabView>, p: Seq<char>, i: int) -> Option<int>
    decreases ts.len() - i,
{
    if i < 0 || i >= ts.len() {
        None
    } else if ts[i].path == p {
        Some(i)
    } else {
        find_path(ts, p, i + 1)
    }
}

/// The tab with its version raised by one.
pub open spec fn bumped(t: TabView) -> TabView {
    TabView { lsp_version: (t.lsp_version + 1) as i32, ..t }
}

/// The tabs after opening `path`: an open file is found again and its version
/// raised; a new one is added at the end, saved, at version 1. Either way it
/// becomes active.
pub open spec fn after_open(v: TabSetView, path: Seq<char>) -> TabSetView {
    match find_path(v.tabs, path, 0) {
        Some(k) => TabSetView { tabs: v.tabs.update(k, bumped(v.tabs[k])), active: Some(path) },
        None => TabSetView {
            tabs: v.tabs.push(
                TabView {
                    path,
                    language: language_of_path(path),
                    has_unsaved_changes: false,
                    lsp_version: 1,
                },
            ),
            active: Some(path),
        },
    }
}

/// The tabs after closing `path`: its first tab goes; if it was the active
/// file, the tab now at its place (or the last one) becomes active, or none
/// when no tab is left.
pub open spec fn after_close(v: TabSetView, path: Seq<char>) -> TabSetView {
    match find_path(v.tabs, path, 0) {
        None => v,
        Some(k) => {
            let ts = v.tabs.remove(k);
            let active = if v.active == Some(path) {
                if ts.len() == 0 {
                    None
                } else {
                    Some(ts[if k < ts.len() { k } else { ts.len() - 1 }].path)
                }
            } else {
                v.active
            };
            TabSetView { tabs: ts, active }
        },
    }
}

/// The tab sequence with the tab at `from` moved to `to`.
pub open spec fn moved<T>(ts: Seq<T>, from: int, to: int) -> Seq<T> {
    ts.remove(from).insert(to, ts[from])
}

/// The path of the `i`-th untitled file in `dir` (which ends with a separator).
pub open spec fn untitled_path(dir: Seq<char>, i: nat) -> Seq<char> {
    dir + "untitled_"@ + decimal(i) + ".typ"@
}

/// `i` is the first untitled number, from 1, whose path is not open.
pub open spec fn first_free_untitled(ts: Seq<TabView>, dir: Seq<char>, i: nat) -> bool {
    &&& i >= 1
    &&& !tab_paths(ts).contains(untitled_path(dir, i))
    &&& forall|j: nat| 1 <= j < i ==> tab_paths(ts).contains(#[trigger] untitled_path(dir, j))
}

/// The active file's tab index, if the active file has a tab.
pub open spec fn active_index(v: TabSetView) -> Option<int> {
    match v.active {
        Some(a) => find_path(v.tabs, a, 0),
        None => None,
    }
}

/// The version of the tab at `k` can be raised without overflow.
pub open spec fn version_room(v: TabSetView, k: Option<int>) -> bool {
    match k {
        Some(i) => 0 <= i < v.tabs.len() && v.tabs[i].lsp_version < i32::MAX,
        None => true,
    }
}

/// What `find_path` finds: the first tab with the path.
pub proof fn lemma_find_path_found(ts: Seq<TabView>, p: Seq<char>, i: int)
    requires
        0 <= i,
    ensures
        find_path(ts, p, i) matches Some(k) ==> i <= k < ts.len() && ts[k].path == p && forall|j: int|
            i <= j < k ==> ts[j].path != p,
        find_path(ts, p, i) is None ==> forall|j: int| i <= j < ts.len() ==> ts[j].path != p,
    decreases ts.len() - i,
{
    if i < ts.len() && ts[i].path != p {
        lemma_find_path_found(ts, p, i + 1);
    }
}

/// `find_path` from 0 is `None` exactly when no tab has the path.
pub proof fn lemma_find_path_contains(ts: Seq<TabView>, p: Seq<char>)
    ensures
        find_path(ts, p, 0) is None <==> !tab_paths(ts).contains(p),
{
    lemma_find_path_found(ts, p, 0);
    if find_path(ts, p, 0) is None {
        if tab_paths(ts).contains(p) {
            let j = choose|j: int| 0 <= j < tab_paths(ts).len() && tab_paths(ts)[j] == p;
            assert(ts[j].path == p);
        }
    } else {
        let k = find_path(ts, p, 0)->0;
        assert(tab_paths(ts)[k] == p);
    }
}

/// Distinct untitled numbers give distinct paths.
pub proof fn lemma_untitled_path_injective(dir: Seq<char>, i: nat, j: nat)
    requires
        untitled_path(dir, i) == untitled_path(dir, j),
    ensures
        i == j,
{
    let a = dir + "untitled_"@;
    let x = untitled_path(dir, i);
    let y = untitled_path(dir, j);
    assert(x.len() == y.len());
    assert(decimal(i).len() == decimal(j).len());
    assert(decimal(i) =~= x.subrange(a.len() as int, (a.len() + decimal(i).len()) as int));
    assert(decimal(j) =~= y.subrange(a.len() as int, (a.len() + decimal(j).len()) as int));
    lemma_decimal_injective(i, j);
}

/// Decimal texts have a digit, and two from ten on.
pub proof fn lemma_decimal_len(n: nat)
    ensures
        decimal(n).len() >= 1,
        n >= 10 ==> decimal(n).len() >= 2,
    decreases n,
{
    if n >= 10 {
        lemma_decimal_len(n / 10);
    }
}

/// Distinct digits are distinct characters.
pub proof fn lemma_digit_char_injective(a: nat, b: nat)
    requires
        a < 10,
        b < 10,
        digit_char(a) == digit_char(b),
    ensures
        a == b,
{
    assert(digit_char(a) as u32 == 48 + a);
    assert(digit_char(b) as u32 == 48 + b);
}

/// Distinct numbers have distinct decimal texts.
pub proof fn lemma_decimal_injective(n: nat, m: nat)
    requires
        decimal(n) == decimal(m),
    ensures
        n == m,
    decreases n,
{
    lemma_decimal_len(n);
    lemma_decimal_len(m);
    if n < 10 && m < 10 {
        assert(decimal(n) == seq![digit_char(n)]);
        assert(decimal(m) == seq![digit_char(m)]);
        assert(decimal(n)[0] == decimal(m)[0]);
        assert(seq![digit_char(n)][0] == digit_char(n));
        assert(seq![digit_char(m)][0] == digit_char(m));
        lemma_digit_char_injective(n, m);
    } else if n >= 10 && m >= 10 {
        let dn = decimal(n);
        let dm = decimal(m);
        assert(dn.last() == dm.last());
        assert(dn.drop_last() == dm.drop_last());
        assert(decimal(n / 10) =~= dn.drop_last());
        assert(decimal(m / 10) =~= dm.drop_last());
        lemma_decimal_injective(n / 10, m / 10);
        lemma_digit_char_injective(n % 10, m % 10);
    } else {
        assert(decimal(n).len() != decimal(m).len());
    }
}

/// Moving a tab and moving it back restores the tab order.
pub proof fn lemma_move_tab_round_trip<T>(ts: Seq<T>, from: int, to: int)
    requires
        0 <= from < ts.len(),
        0 <= to < ts.len(),
    ensures
        moved(moved(ts, from, to), to, from) == ts,
        moved(ts, from, to).len() == ts.len(),
{
    let m = moved(ts, from, to);
    assert(m[to] == ts[from]);
    assert(m.remove(to) =~= ts.remove(from));
    assert(m.remove(to).insert(from, m[to]) =~= ts);
}

/// After opening a file, it is the active file and has a tab.
pub proof fn lemma_open_makes_active(v: TabSetView, path: Seq<char>)
    ensures
        after_open(v, path).active == Some(path),
        find_path(after_open(v, path).tabs, path, 0) is Some,
        find_path(v.tabs, path, 0) is Some ==> after_open(v, path).tabs.len() == v.tabs.len(),
{
    let w = after_open(v, path);
    lemma_find_path_found(v.tabs, path, 0);
    lemma_find_path_contains(w.tabs, path);
    match find_path(v.tabs, path, 0) {
        Some(k) => {
            assert(tab_paths(w.tabs)[k] == path);
        },
        None => {
            assert(tab_paths(w.tabs)[v.tabs.len() as int] == path);
        },
    }
}

/// Opening a file that is not open and closing it again restores the tabs.
pub proof fn lemma_open_close_restores_tabs(v: TabSetView, path: Seq<char>)
    requires
        find_path(v.tabs, path, 0) is None,
    ensures
        after_close(after_open(v, path), path).tabs == v.tabs,
{
    let w = after_open(v, path);
    lemma_find_path_found(v.tabs, path, 0);
    lemma_find_path_found(w.tabs, path, 0);
    let n = v.tabs.len() as int;
    assert(w.tabs[n].path == path);
    if find_path(w.tabs, path, 0) != Some(n) {
        let k = find_path(w.tabs, path, 0)->0;
        assert(k < n ==> v.tabs[k].path == path);
    }
    assert(w.tabs.remove(n) =~= v.tabs);
}

/// Closing a file that is not open changes nothing.
pub proof fn lemma_close_unopened(v: TabSetView, path: Seq<char>)
    requires
        !tab_paths(v.tabs).contains(path),
    ensures
        after_close(v, path) == v,
{
    lemma_find_path_contains(v.tabs, path);
}

/// No two tabs show the same path.
pub open spec fn paths_distinct(ts: Seq<TabView>) -> bool {
    forall|i: int, j: int| 0 <= i < j < ts.len() ==> #[trigger] ts[i].path != #[trigger] ts[j].path
}

/// Opening a file never gives it a second tab.
pub proof fn lemma_open_keeps_paths_distinct(v: TabSetView, path: Seq<char>)
    requires
        paths_distinct(v.tabs),
    ensures
        paths_distinct(after_open(v, path).tabs),
{
    lemma_find_path_found(v.tabs, path, 0);
    let w = after_open(v, path).tabs;
    assert forall|i: int, j: int| 0 <= i < j < w.len() implies #[trigger] w[i].path != #[trigger] w[j].path by {
        match find_path(v.tabs, path, 0) {
            Some(k) => {
                assert(w[i].path == v.tabs[i].path);
                assert(w[j].path == v.tabs[j].path);
            },
            None => {
                if j == v.tabs.len() {
                    assert(w[j].path == path);
                    assert(w[i] == v.tabs[i]);
                } else {
                    assert(w[i] == v.tabs[i] && w[j] == v.tabs[j]);
                }
            },
        }
    }
}

/// A new untitled file never shares a path with an open one.
pub proof fn lemma_new_file_keeps_paths_distinct(ts: Seq<TabView>, dir: Seq<char>, i: nat)
    requires
        paths_distinct(ts),
        first_free_untitled(ts, dir, i),
    ensures
        paths_distinct(ts.push(TabView { path: untitled_path(dir, i), language: "typst"@, has_unsaved_changes: true, lsp_version: 1 })),
{
    let t = TabView { path: untitled_path(dir, i), language: "typst"@, has_unsaved_changes: true, lsp_version: 1 };
    let w = ts.push(t);
    assert forall|a: int, b: int| 0 <= a < b < w.len() implies #[trigger] w[a].path != #[trigger] w[b].path by {
        if b == ts.len() {
            assert(w[a] == ts[a]);
            assert(tab_paths(ts)[a] == ts[a].path);
        } else {
            assert(w[a] == ts[a] && w[b] == ts[b]);
        }
    }
}

impl TabSet {
    /// No open files.
    pub fn new() -> (s: Self)
        ensures
            s@.tabs.len() == 0,
            s@.active is None,
    {
        TabSet { open_files: Vec::new(), active_file_path: None }
    }

    /// The tab index of a path, if it is open.
    pub fn position_of(&self, path: &str) -> (r: Option<usize>)
        ensures
            r matches Some(k) ==> find_path(self@.tabs, path@, 0) == Some(k as int) && k
                < self.open_files.len(),
            r is None ==> find_path(self@.tabs, path@, 0) is None,
    {
        let mut i: usize = 0;
        while i < self.open_files.len()
            invariant
                0 <= i <= self.open_files.len(),
                find_path(self@.tabs, path@, 0) == find_path(self@.tabs, path@, i as int),
            decreases self.open_files.len() - i,
        {
            if crate::text::str_equal(self.open_files[i].path.as_str(), path) {
                return Some(i);
            }
            i = i + 1;
        }
        None
    }

    /// The index of the active file's tab, if any.
    pub fn active_tab_index(&self) -> (r: Option<usize>)
        ensures
            r matches Some(k) ==> active_index(self@) == Some(k as int) && k < self.open_files.len(),
            r is None ==> active_index(self@) is None,
    {
        match &self.active_file_path {
            Some(a) => self.position_of(a.as_str()),
            None => None,
        }
    }

    fn bump_version(&mut self, k: usize)
        requires
            k < old(self).open_files.len(),
            old(self).open_files@[k as int].lsp_version < i32::MAX,
        ensures
            final(self)@.tabs == old(self)@.tabs.update(k as int, bumped(old(self)@.tabs[k as int])),
            final(self)@.active == old(self)@.active,
    {
        let mut t = self.open_files.remove(k);
        t.lsp_version = t.lsp_version + 1;
        self.open_files.insert(k, t);
        proof {
            assert(tab_views(self.open_files@) =~= tab_views(old(self).open_files@).update(
                k as int,
                bumped(old(self)@.tabs[k as int]),
            ));
        }
    }

    /// Moves the tab at `from` to position `to`.
    pub fn move_tab(&mut self, from: usize, to: usize)
        requires
            from < old(self).open_files.len(),
            to < old(self).open_files.len(),
        ensures
            final(self)@.tabs == moved(old(self)@.tabs, from as int, to as int),
            final(self)@.active == old(self)@.active,
    {
        let file = self.open_files.remove(from);
        self.open_files.insert(to, file);
        proof {
            assert(tab_views(self.open_files@) =~= moved(old(self)@.tabs, from as int, to as int));
        }
    }

    /// Opens `path` (whose text has been read): an open file becomes active
    /// again with its version raised; a new file gets a tab at the end.
    /// Returns whether a tab was added.
    pub fn open_file(&mut self, path: String) -> (added: bool)
        requires
            version_room(old(self)@, find_path(old(self)@.tabs, path@, 0)),
        ensures
            final(self)@ == after_open(old(self)@, path@),
            added == find_path(old(self)@.tabs, path@, 0) is None,
    {
        match self.position_of(path.as_str()) {
            Some(k) => {
                self.bump_version(k);
                self.active_file_path = Some(path);
                false
            },
            None => {
                let language = get_language_from_path(path.as_str());
                let tab = OpenTab {
                    path: path.clone(),
                    language,
                    has_unsaved_changes: false,
                    lsp_version: 1,
                };
                self.open_files.push(tab);
                self.active_file_path = Some(path);
                proof {
                    assert(tab_views(self.open_files@) =~= after_open(old(self)@, path@).tabs);
                }
                true
            },
        }
    }

    /// Closes the first tab of `path`, if it is open; returns whether it was.
    pub fn close_file(&mut self, path: &str) -> (closed: bool)
        ensures
            final(self)@ == after_close(old(self)@, path@),
            closed == find_path(old(self)@.tabs, path@, 0) is Some,
    {
        match self.position_of(path) {
            None => false,
            Some(pos) => {
                let was_active = match &self.active_file_path {
                    Some(a) => crate::text::str_equal(a.as_str(), path),
                    None => false,
                };
                self.open_files.remove(pos);
                proof {
                    assert(tab_views(self.open_files@) =~= old(self)@.tabs.remove(pos as int));
                }
                if was_active {
                    if self.open_files.len() == 0 {
                        self.active_file_path = None;
                    } else {
                        let n = self.open_files.len();
                        let new_pos = if pos < n {
                            pos
                        } else {
                            n - 1
                        };
                        self.active_file_path = Some(self.open_files[new_pos].path.clone());
                    }
                }
                true
            },
        }
    }

    /// Adds a new, unsaved tab for the first `untitled_<i>.typ` in `dir` (from
    /// `i = 1`) that is not open, makes it active and returns its path.
    pub fn new_file(&mut self, dir: &str) -> (p: String)
        requires
            old(self).open_files.len() < usize::MAX,
        ensures
            exists|i: nat| #![auto] first_free_untitled(old(self)@.tabs, dir@, i) && p@ == untitled_path(dir@, i),
            final(self)@.tabs == old(self)@.tabs.push(
                TabView { path: p@, language: "typst"@, has_unsaved_changes: true, lsp_version: 1 },
            ),
            final(self)@.active == Some(p@),
    {
        let ghost ts = self@.tabs;
        let n = self.open_files.len();
        let mut i: usize = 1;
        let ghost mut taken: Set<int> = Set::empty();
        let mut candidate = untitled_string(dir, i);
        proof {
            lemma_int_range(0, n as int);
        }
        loop
            invariant
                ts == self@.tabs,
                n == ts.len(),
                n < usize::MAX,
                1 <= i,
                candidate@ == untitled_path(dir@, i as nat),
                taken.finite(),
                taken.len() == i - 1,
                taken.subset_of(set_int_range(0, n as int)),
                forall|k: int| taken.contains(k) ==> exists|j: nat| 1 <= j < i && #[trigger] ts[k].path == untitled_path(dir@, j),
                forall|j: nat| 1 <= j < i ==> tab_paths(ts).contains(#[trigger] untitled_path(dir@, j)),
                set_int_range(0, n as int).finite(),
                set_int_range(0, n as int).len() == n,
            ensures
                !tab_paths(ts).contains(candidate@),
            decreases n + 1 - i,
        {
            match self.position_of(candidate.as_str()) {
                None => {
                    proof {
                        lemma_find_path_contains(ts, candidate@);
                    }
                    break;
                },
                Some(k) => {
                    proof {
                        lemma_find_path_found(ts, candidate@, 0);
                        assert(tab_paths(ts)[k as int] == candidate@);
                        if taken.contains(k as int) {
                            let j = choose|j: nat| 1 <= j < i && #[trigger] ts[k as int].path == untitled_path(dir@, j);
                            lemma_untitled_path_injective(dir@, j, i as nat);
                        }
                        let t2 = taken.insert(k as int);
                        assert(t2.subset_of(set_int_range(0, n as int)));
                        lemma_len_subset(t2, set_int_range(0, n as int));
                        assert forall|j: nat| 1 <= j < i + 1 implies tab_paths(ts).contains(#[trigger] untitled_path(dir@, j)) by {
                            if j == i {
                                assert(tab_paths(ts)[k as int] == untitled_path(dir@, j));
                            }
                        }
                        assert forall|kk: int| t2.contains(kk) implies exists|j: nat| 1 <= j < i + 1 && #[trigger] ts[kk].path == untitled_path(dir@, j) by {
                            if kk == k as int {
                                assert(ts[kk].path == untitled_path(dir@, i as nat));
                            }
                        }
                        taken = t2;
                    }
                    i = i + 1;
                    candidate = untitled_string(dir, i);
                },
            }
        }
        let tab = OpenTab {
            path: candidate.clone(),
            language: "typst".to_string(),
            has_unsaved_changes: true,
            lsp_version: 1,
        };
        self.open_files.push(tab);
        self.active_file_path = Some(candidate.clone());
        proof {
            assert(first_free_untitled(ts, dir@, i as nat));
            assert(tab_views(self.open_files@) =~= ts.push(
                TabView { path: candidate@, language: "typst"@, has_unsaved_changes: true, lsp_version: 1 },
            ));
        }
        candidate
    }

    /// Records that the active file was written to disk: it has no unsaved
    /// changes and its version is raised. Returns whether there was an active
    /// file with a tab.
    pub fn mark_active_saved(&mut self) -> (r: bool)
        requires
            version_room(old(self)@, active_index(old(self)@)),
        ensures
            r == active_index(old(self)@) is Some,
            match active_index(old(self)@) {
                Some(k) => final(self)@.tabs == old(self)@.tabs.update(
                    k,
                    TabView { has_unsaved_changes: false, ..bumped(old(self)@.tabs[k]) },
                ),
                None => final(self)@.tabs == old(self)@.tabs,
            },
            final(self)@.active == old(self)@.active,
    {
        match self.active_tab_index() {
            None => false,
            Some(k) => {
                let mut t = self.open_files.remove(k);
                t.lsp_version = t.lsp_version + 1;
                t.has_unsaved_changes = false;
                self.open_files.insert(k, t);
                proof {
                    assert(tab_views(self.open_files@) =~= old(self)@.tabs.update(
                        k as int,
                        TabView { has_unsaved_changes: false, ..bumped(old(self)@.tabs[k as int]) },
                    ));
                }
                true
            },
        }
    }

    /// Records that the active file was written to `new_path`: its tab now
    /// shows that path, is saved, and has its version raised, and `new_path`
    /// is the active file. Fails when there is no active file with a tab.
    pub fn save_file_as(&mut self, new_path: String) -> (r: Result<(), String>)
        requires
            version_room(old(self)@, active_index(old(self)@)),
        ensures
            match active_index(old(self)@) {
                Some(k) => r is Ok && final(self)@.tabs == old(self)@.tabs.update(
                    k,
                    TabView {
                        path: new_path@,
                        has_unsaved_changes: false,
                        ..bumped(old(self)@.tabs[k])
                    },
                ) && final(self)@.active == Some(new_path@),
                None => r == Err::<(), String>(r->Err_0) && r->Err_0@ == "No active file to save as."@
                    && final(self)@ == old(self)@,
            },
    {
        match self.active_tab_index() {
            None => Err("No active file to save as.".to_string()),
            Some(k) => {
                let mut t = self.open_files.remove(k);
                t.lsp_version = t.lsp_version + 1;
                t.has_unsaved_changes = false;
                t.path = new_path.clone();
                self.open_files.insert(k, t);
                self.active_file_path = Some(new_path);
                proof {
                    assert(tab_views(self.open_files@) =~= old(self)@.tabs.update(
                        k as int,
                        TabView {
                            path: self.active_file_path->0@,
                            has_unsaved_changes: false,
                            ..bumped(old(self)@.tabs[k as int])
                        },
                    ));
                }
                Ok(())
            },
        }
    }

    /// Records that the active file's text was changed by an edit.
    pub fn mark_active_modified(&mut self) -> (r: bool)
        ensures
            r == active_index(old(self)@) is Some,
            match active_index(old(self)@) {
                Some(k) => final(self)@.tabs == old(self)@.tabs.update(
                    k,
                    TabView { has_unsaved_changes: true, ..old(self)@.tabs[k] },
                ),
                None => final(self)@.tabs == old(self)@.tabs,
            },
            final(self)@.active == old(self)@.active,
    {
        match self.active_tab_index() {
            None => false,
            Some(k) => {
                let mut t = self.open_files.remove(k);
                t.has_unsaved_changes = true;
                self.open_files.insert(k, t);
                proof {
                    assert(tab_views(self.open_files@) =~= old(self)@.tabs.update(
                        k as int,
                        TabView { has_unsaved_changes: true, ..old(self)@.tabs[k as int] },
                    ));
                }
                true
            },
        }
    }
}

/// `dir` followed by `untitled_<i>.typ`.
fn untitled_string(dir: &str, i: usize) -> (s: String)
    ensures
        s@ == untitled_path(dir@, i as nat),
{
    let mut s = String::from_str(dir);
    s.append("untitled_");
    let num = usize_to_string(i);
    s.append(num.as_str());
    s.append(".typ");
    proof {
        assert(s@ =~= untitled_path(dir@, i as nat));
    }
    s
}

} // verus!
