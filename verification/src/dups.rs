//! Bookkeeping of the duplicate-URL dialog: the groups of bookmarks that share a URL,
//! the totals shown above them, and how the list changes as copies are removed.
use vstd::prelude::*;
use vstd::string::StringExecFns;

verus! {

broadcast use vstd::string::group_string_axioms;

/// A URL held by several bookmarks, with the number of bookmarks that hold it.
#[derive(Debug)]
pub struct DupGroup {
    pub url: String,
    pub count: i64,
}

/// The figures shown above the groups: how many groups, how many bookmarks they
/// hold, and how many of those are surplus copies.
#[derive(Debug, Clone, Copy)]
pub struct DupTotals {
    pub groups: i64,
    pub copies: i64,
    pub extras: i64,
}

/// The groups as (URL, count) pairs.
pub open spec fn group_views(g: Seq<DupGroup>) -> Seq<(Seq<char>, i64)> {
    g.map_values(|x: DupGroup| (x.url@, x.count))
}

/// The number of bookmarks that the groups hold together.
pub open spec fn copies(v: Seq<(Seq<char>, i64)>) -> int
    decreases v.len(),
{
    if v.len() == 0 {
        0
    } else {
        copies(v.drop_last()) + v.last().1
    }
}

/// The number of bookmarks in the groups of URL `u`.
pub open spec fn copies_of(v: Seq<(Seq<char>, i64)>, u: Seq<char>) -> int
    decreases v.len(),
{
    if v.len() == 0 {
        0
    } else {
        copies_of(v.drop_last(), u) + if v.last().0 == u {
            v.last().1 as int
        } else {
            0
        }
    }
}

/// The groups without those of URL `u`, the others in their order.
pub open spec fn drop_url(v: Seq<(Seq<char>, i64)>, u: Seq<char>) -> Seq<(Seq<char>, i64)>
    decreases v.len(),
{
    if v.len() == 0 {
        seq![]
    } else {
        let w = drop_url(v.drop_last(), u);
        if v.last().0 == u {
            w
        } else {
            w.push(v.last())
        }
    }
}

/// The groups with the count of URL `u` set to `n`.
pub open spec fn set_count(v: Seq<(Seq<char>, i64)>, u: Seq<char>, n: i64) -> Seq<
    (Seq<char>, i64),
> {
    v.map_values(|p: (Seq<char>, i64)| if p.0 == u { (p.0, n) } else { p })
}

/// The totals of a list of groups, when they fit in `i64`.
pub fn dup_totals(groups: &Vec<DupGroup>) -> (r: DupTotals)
    requires
        i64::MIN <= copies(group_views(groups@)) <= i64::MAX,
        groups@.len() <= i64::MAX,
        i64::MIN <= copies(group_views(groups@)) - groups@.len(),
    ensures
        r.groups == groups@.len(),
        r.copies == copies(group_views(groups@)),
        r.extras == r.copies - r.groups,
{
    let ghost v = group_views(groups@);
    let mut sum: i128 = 0;
    let mut i: usize = 0;
    while i < groups.len()
        invariant
            i <= groups@.len(),
            v == group_views(groups@),
            sum == copies(v.take(i as int)),
            -(i * 0x8000_0000_0000_0000int) <= sum <= i * 0x7fff_ffff_ffff_ffffint,
        decreases groups@.len() - i,
    {
        proof {
            assert(v.take(i as int + 1).drop_last() =~= v.take(i as int));
            assert(v.take(i as int + 1).last() == v[i as int]);
        }
        sum = sum + groups[i].count as i128;
        i = i + 1;
    }
    assert(v.take(i as int) =~= v);
    let copies_total = sum as i64;
    let n = groups.len() as i64;
    DupTotals { groups: n, copies: copies_total, extras: copies_total - n }
}

/// Removes the group of `url` from the list; the other groups keep their order.
pub fn without_group(groups: Vec<DupGroup>, url: &str) -> (r: Vec<DupGroup>)
    ensures
        group_views(r@) == drop_url(group_views(groups@), url@),
{
    let ghost all = groups@;
    let p = String::from_str(url);
    let mut r: Vec<DupGroup> = Vec::new();
    for g in it: groups
        invariant
            it.seq() == all,
            p@ == url@,
            group_views(r@) == drop_url(group_views(all.take(it.index())), url@),
    {
        let ghost done = all.take(it.index());
        proof {
            assert(all.take(it.index() + 1) =~= done.push(g));
            assert(group_views(done.push(g)) =~= group_views(done).push((g.url@, g.count)));
            assert(group_views(done.push(g)).drop_last() =~= group_views(done));
        }
        if !(g.url == p) {
            let ghost prev = r@;
            r.push(g);
            assert(group_views(r@) =~= group_views(prev).push((g.url@, g.count)));
        }
    }
    assert(all.take(all.len() as int) =~= all);
    r
}

/// The list once one copy of `url` was deleted and `remaining` bookmarks still hold
/// it: with fewer than two the URL is no longer duplicated and its group leaves the
/// list; otherwise the group shows the new count.
pub fn after_copy_deleted(groups: Vec<DupGroup>, url: &str, remaining: i64) -> (r: Vec<DupGroup>)
    ensures
        group_views(r@) == if remaining < 2 {
            drop_url(group_views(groups@), url@)
        } else {
            set_count(group_views(groups@), url@, remaining)
        },
{
    if remaining < 2 {
        return without_group(groups, url);
    }
    let ghost all = groups@;
    let p = String::from_str(url);
    let mut r: Vec<DupGroup> = Vec::new();
    for g in it: groups
        invariant
            it.seq() == all,
            p@ == url@,
            remaining >= 2,
            group_views(r@) == set_count(group_views(all.take(it.index())), url@, remaining),
    {
        let ghost done = all.take(it.index());
        let ghost x = (g.url@, g.count);
        proof {
            assert(all.take(it.index() + 1) =~= done.push(g));
            assert(group_views(done.push(g)) =~= group_views(done).push(x));
            assert(set_count(group_views(done).push(x), url@, remaining) =~= set_count(
                group_views(done),
                url@,
                remaining,
            ).push(if x.0 == url@ { (x.0, remaining) } else { x }));
        }
        let ghost prev = r@;
        if g.url == p {
            r.push(DupGroup { url: g.url, count: remaining });
        } else {
            r.push(g);
        }
        assert(group_views(r@) =~= group_views(prev).push(
            if x.0 == url@ { (x.0, remaining) } else { x },
        ));
    }
    assert(all.take(all.len() as int) =~= all);
    r
}

/// The bookmark to keep when the other copies of a URL are deleted: the selected
/// one (`-1` when none is selected), else the first of the listed copies; none when
/// that leaves no id other than `-1`.
pub fn keep_choice(selected: i64, first_listed: Option<i64>) -> (r: Option<i64>)
    ensures
        r == if selected != -1 {
            Some(selected)
        } else {
            match first_listed {
                Some(f) => if f != -1 { Some(f) } else { None },
                None => None,
            }
        },
{
    let keep = if selected != -1 {
        selected
    } else {
        match first_listed {
            Some(f) => f,
            None => -1,
        }
    };
    if keep == -1 {
        None
    } else {
        Some(keep)
    }
}

proof fn lemma_drop_url(v: Seq<(Seq<char>, i64)>, u: Seq<char>)
    ensures
        copies(drop_url(v, u)) + copies_of(v, u) == copies(v),
        forall|i: int| 0 <= i < drop_url(v, u).len() ==> drop_url(v, u)[i].0 != u,
    decreases v.len(),
{
    if v.len() > 0 {
        lemma_drop_url(v.drop_last(), u);
        let w = drop_url(v.drop_last(), u);
        if v.last().0 != u {
            assert(w.push(v.last()).drop_last() =~= w);
        }
    }
}

/// Removing the group of a URL takes exactly its copies off the total, and no group
/// of that URL is left.
pub proof fn law_dropped_group_leaves_totals(v: Seq<(Seq<char>, i64)>, u: Seq<char>)
    ensures
        copies(drop_url(v, u)) == copies(v) - copies_of(v, u),
        forall|i: int| 0 <= i < drop_url(v, u).len() ==> drop_url(v, u)[i].0 != u,
        drop_url(drop_url(v, u), u) == drop_url(v, u),
{
    lemma_drop_url(v, u);
    lemma_drop_absent(drop_url(v, u), u);
}

proof fn lemma_drop_absent(v: Seq<(Seq<char>, i64)>, u: Seq<char>)
    requires
        forall|i: int| 0 <= i < v.len() ==> v[i].0 != u,
    ensures
        drop_url(v, u) == v,
    decreases v.len(),
{
    if v.len() > 0 {
        lemma_drop_absent(v.drop_last(), u);
        assert(v.drop_last().push(v.last()) =~= v);
    }
}

/// Recounting a group leaves the number of groups and their order unchanged; only
/// the total moves, by the change in that group's count.
pub proof fn law_recount_keeps_groups(v: Seq<(Seq<char>, i64)>, u: Seq<char>, n: i64)
    ensures
        set_count(v, u, n).len() == v.len(),
        forall|i: int| 0 <= i < v.len() ==> set_count(v, u, n)[i].0 == v[i].0,
        copies(set_count(v, u, n)) == copies(v) - copies_of(v, u) + copies_of(set_count(v, u, n), u),
{
    lemma_recount(v, u, n);
}

proof fn lemma_recount(v: Seq<(Seq<char>, i64)>, u: Seq<char>, n: i64)
    ensures
        copies(set_count(v, u, n)) == copies(v) - copies_of(v, u) + copies_of(set_count(v, u, n), u),
    decreases v.len(),
{
    if v.len() > 0 {
        lemma_recount(v.drop_last(), u, n);
        assert(set_count(v, u, n).drop_last() =~= set_count(v.drop_last(), u, n));
    }
}

} // verus!
