//! Application settings: the recent-files list and its defaults.
use vstd::prelude::*;

verus! {

/// How many entries the recent-files list keeps when the settings do not say.
pub fn default_recent_files_limit() -> (r: usize)
    ensures
        r == 10,
{
    10
}

/// The texts of the recent paths.
pub open spec fn paths_view(v: Seq<String>) -> Seq<Seq<char>> {
    v.map_values(|s: String| s@)
}

/// The list without the entries equal to `p`.
pub open spec fn without(v: Seq<Seq<char>>, p: Seq<char>) -> Seq<Seq<char>>
    decreases v.len(),
{
    if v.len() == 0 {
        Seq::empty()
    } else if v.last() == p {
        without(v.drop_last(), p)
    } else {
        without(v.drop_last(), p).push(v.last())
    }
}

/// The recent-files list after opening `p`: `p` first, then the earlier
/// entries other than `p` in their order, cut to `limit` entries.
pub open spec fn recent_after_open(v: Seq<Seq<char>>, p: Seq<char>, limit: nat) -> Seq<Seq<char>> {
    let l = seq![p] + without(v, p);
    if limit < l.len() {
        l.take(limit as int)
    } else {
        l
    }
}

/// Moves `path` to the top of the recent-files list (removing any other copy
/// of it) and keeps at most `limit` entries.
pub fn update_recent_files(recent: &mut Vec<String>, path: String, limit: usize)
    ensures
        paths_view(final(recent)@) == recent_after_open(paths_view(old(recent)@), path@, limit as nat),
{
    let ghost ov = paths_view(recent@);
    let mut kept: Vec<String> = Vec::new();
    kept.push(path.clone());
    let mut i: usize = 0;
    while i < recent.len()
        invariant
            0 <= i <= recent.len(),
            ov == paths_view(recent@),
            paths_view(kept@) == seq![path@] + without(ov.take(i as int), path@),
        decreases recent.len() - i,
    {
        assert(ov.take(i + 1).drop_last() =~= ov.take(i as int));
        assert(ov.take(i + 1).last() == recent@[i as int]@);
        if recent[i] != path {
            let ghost before = kept@;
            kept.push(recent[i].clone());
            assert(paths_view(kept@) =~= paths_view(before).push(recent@[i as int]@));
        }
        i = i + 1;
    }
    assert(ov.take(recent.len() as int) =~= ov);
    kept.truncate(limit);
    assert(paths_view(kept@) =~= recent_after_open(ov, path@, limit as nat));
    *recent = kept;
}

/// Nothing equal to `p` is left.
pub proof fn lemma_without_free(v: Seq<Seq<char>>, p: Seq<char>)
    ensures
        !without(v, p).contains(p),
        without(v, p).len() <= v.len(),
    decreases v.len(),
{
    if v.len() > 0 {
        lemma_without_free(v.drop_last(), p);
        let w = without(v.drop_last(), p);
        if v.last() != p {
            assert forall|i: int| 0 <= i < w.push(v.last()).len() implies w.push(v.last())[i] != p by {
                if i < w.len() {
                    assert(w.push(v.last())[i] == w[i]);
                    assert(!w.contains(p));
                }
            }
        }
    }
}

/// Removing an absent entry changes nothing.
pub proof fn lemma_without_nothing(v: Seq<Seq<char>>, p: Seq<char>)
    requires
        !v.contains(p),
    ensures
        without(v, p) == v,
    decreases v.len(),
{
    if v.len() > 0 {
        assert(!v.drop_last().contains(p)) by {
            if v.drop_last().contains(p) {
                let i = choose|i: int| 0 <= i < v.drop_last().len() && v.drop_last()[i] == p;
                assert(v[i] == p);
            }
        }
        lemma_without_nothing(v.drop_last(), p);
        assert(v.last() != p) by {
            assert(v[v.len() - 1] == v.last());
        }
        assert(v.drop_last().push(v.last()) =~= v);
    }
}

/// Removing `p` also removes a `p` in front.
pub proof fn lemma_without_prepend(v: Seq<Seq<char>>, p: Seq<char>)
    ensures
        without(seq![p] + v, p) == without(v, p),
    decreases v.len(),
{
    if v.len() == 0 {
        assert(seq![p] + v =~= seq![p]);
        assert(seq![p].drop_last() =~= Seq::<Seq<char>>::empty());
        assert(seq![p].last() == p);
        assert(without(Seq::<Seq<char>>::empty(), p) =~= Seq::<Seq<char>>::empty());
        assert(without(v, p) =~= Seq::<Seq<char>>::empty());
    } else {
        assert((seq![p] + v).drop_last() =~= seq![p] + v.drop_last());
        assert((seq![p] + v).last() == v.last());
        lemma_without_prepend(v.drop_last(), p);
    }
}

/// After opening a file, it heads the recent-files list (when the list keeps
/// any entry), appears there once, and the list holds at most `limit` entries.
pub proof fn lemma_recent_front(v: Seq<Seq<char>>, p: Seq<char>, limit: nat)
    ensures
        recent_after_open(v, p, limit).len() <= limit,
        limit >= 1 ==> recent_after_open(v, p, limit)[0] == p,
        forall|i: int| 1 <= i < recent_after_open(v, p, limit).len() ==> #[trigger] recent_after_open(v, p, limit)[i] != p,
{
    lemma_without_free(v, p);
    let l = seq![p] + without(v, p);
    assert forall|i: int| 1 <= i < recent_after_open(v, p, limit).len() implies #[trigger] recent_after_open(v, p, limit)[i] != p by {
        assert(recent_after_open(v, p, limit)[i] == l[i]);
        assert(l[i] == without(v, p)[i - 1]);
    }
}

/// Opening the same file twice leaves the list as opening it once.
pub proof fn lemma_recent_idempotent(v: Seq<Seq<char>>, p: Seq<char>, limit: nat)
    ensures
        recent_after_open(recent_after_open(v, p, limit), p, limit) == recent_after_open(v, p, limit),
{
    let w = without(v, p);
    lemma_without_free(v, p);
    let r1 = recent_after_open(v, p, limit);
    if limit == 0 {
        assert(r1 =~= Seq::<Seq<char>>::empty());
        assert(recent_after_open(r1, p, limit) =~= Seq::<Seq<char>>::empty());
    } else {
        let l = seq![p] + w;
        let wt = if limit < l.len() {
            w.take(limit - 1)
        } else {
            w
        };
        assert(r1 =~= seq![p] + wt);
        assert(!wt.contains(p)) by {
            if wt.contains(p) {
                let i = choose|i: int| 0 <= i < wt.len() && wt[i] == p;
                assert(w[i] == p);
            }
        }
        lemma_without_prepend(wt, p);
        lemma_without_nothing(wt, p);
        assert(recent_after_open(r1, p, limit) =~= r1);
    }
}

} // verus!
