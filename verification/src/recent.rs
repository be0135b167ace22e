//! The list of recently opened databases (`recent_dbs.json`).
use vstd::prelude::*;
use vstd::string::StringExecFns;

use crate::text;

verus! {

broadcast use vstd::string::group_string_axioms;

/// At most this many databases are remembered.
pub const MAX_RECENT: usize = 10;

/// The strings of a JSON text that is an array of strings; `None` for any other text.
pub uninterp spec fn json_string_list(text: Seq<char>) -> Option<Seq<Seq<char>>>;

/// Parses a JSON array of strings with `serde_json::from_str::<Vec<String>>`.
/// Claimed: the strings are `json_string_list` of the text; `None` when that is `None`.
#[verifier::external_body]
fn parse_string_list(text: &str) -> (r: Option<Vec<String>>)
    ensures
        match r {
            Some(v) => json_string_list(text@) == Some(text::views(v@)),
            None => json_string_list(text@) is None,
        },
{
    serde_json::from_str::<Vec<String>>(text).ok()
}

/// Writes strings as a JSON array with `serde_json::to_string`. Claimed: this never
/// fails, and the text parses back to the same strings.
#[verifier::external_body]
fn string_list_json(list: &Vec<String>) -> (r: Option<String>)
    ensures
        r is Some,
        r matches Some(t) ==> json_string_list(t@) == Some(text::views(list@)),
{
    serde_json::to_string(list).ok()
}

/// The paths stored in the text of `recent_dbs.json`; none when the text is not a
/// JSON array of strings.
pub fn recent_from_json(content: &str) -> (r: Vec<String>)
    ensures
        text::views(r@) == match json_string_list(content@) {
            Some(l) => l,
            None => Seq::<Seq<char>>::empty(),
        },
{
    match parse_string_list(content) {
        Some(v) => v,
        None => {
            let v: Vec<String> = Vec::new();
            assert(text::views(v@) =~= Seq::<Seq<char>>::empty());
            v
        },
    }
}

/// The text of `recent_dbs.json` for `list`.
pub fn recent_to_json(list: &Vec<String>) -> (r: String)
    ensures
        json_string_list(r@) == Some(text::views(list@)),
{
    match string_list_json(list) {
        Some(t) => t,
        None => String::new(),
    }
}

/// `l` without the entries equal to `p`.
pub open spec fn without(l: Seq<Seq<char>>, p: Seq<char>) -> Seq<Seq<char>>
    decreases l.len(),
{
    if l.len() == 0 {
        seq![]
    } else {
        let w = without(l.drop_last(), p);
        if l.last() == p {
            w
        } else {
            w.push(l.last())
        }
    }
}

/// The list once `p` is opened: `p` first, then the other entries in their order,
/// at most ten in all.
pub open spec fn recent_after(l: Seq<Seq<char>>, p: Seq<char>) -> Seq<Seq<char>> {
    let r = seq![p] + without(l, p);
    if r.len() > MAX_RECENT {
        r.take(MAX_RECENT as int)
    } else {
        r
    }
}

/// Puts `new_path` at the front of the recent list, drops its older entry and keeps
/// at most ten entries.
pub fn push_recent(list: Vec<String>, new_path: &str) -> (r: Vec<String>)
    ensures
        text::views(r@) == recent_after(text::views(list@), new_path@),
{
    let ghost all = list@;
    let p = String::from_str(new_path);
    let mut r: Vec<String> = Vec::new();
    r.push(String::from_str(new_path));
    for s in it: list
        invariant
            it.seq() == all,
            p@ == new_path@,
            text::views(r@) == seq![new_path@] + without(text::views(all.take(it.index())), new_path@),
    {
        let ghost done = all.take(it.index());
        assert(all.take(it.index() + 1) =~= done.push(s));
        assert(text::views(done.push(s)) =~= text::views(done).push(s@));
        assert(text::views(done.push(s)).drop_last() =~= text::views(done));
        if !(s == p) {
            let ghost prev = r@;
            r.push(s);
            assert(text::views(r@) =~= text::views(prev).push(s@));
        }
    }
    assert(all.take(all.len() as int) =~= all);
    r.truncate(MAX_RECENT);
    proof {
        let full = seq![new_path@] + without(text::views(all), new_path@);
        if full.len() > MAX_RECENT {
            assert(text::views(r@) =~= full.take(MAX_RECENT as int));
        }
    }
    r
}

proof fn lemma_without(l: Seq<Seq<char>>, p: Seq<char>)
    ensures
        forall|i: int| 0 <= i < without(l, p).len() ==> without(l, p)[i] != p,
        without(l, p).len() <= l.len(),
        forall|i: int| 0 <= i < l.len() && l[i] != p ==> without(l, p).contains(#[trigger] l[i]),
    decreases l.len(),
{
    if l.len() > 0 {
        lemma_without(l.drop_last(), p);
        assert forall|i: int| 0 <= i < l.len() && l[i] != p implies without(l, p).contains(
            #[trigger] l[i],
        ) by {
            if i < l.len() - 1 {
                assert(l.drop_last()[i] == l[i]);
                let w = without(l.drop_last(), p);
                let k = choose|k: int| 0 <= k < w.len() && w[k] == l[i];
                if l.last() != p {
                    assert(w.push(l.last())[k] == l[i]);
                }
            } else {
                assert(without(l, p).last() == l[i]);
            }
        }
    }
}

/// The database just opened heads the list, appears in it once, and the list
/// never grows beyond ten entries.
pub proof fn law_recent_front(l: Seq<Seq<char>>, p: Seq<char>)
    ensures
        recent_after(l, p).len() >= 1,
        recent_after(l, p)[0] == p,
        recent_after(l, p).len() <= MAX_RECENT,
        forall|i: int| 1 <= i < recent_after(l, p).len() ==> recent_after(l, p)[i] != p,
{
    lemma_without(l, p);
    let r = seq![p] + without(l, p);
    assert forall|i: int| 1 <= i < recent_after(l, p).len() implies recent_after(l, p)[i] != p by {
        assert(r[i] == without(l, p)[i - 1]);
    }
}

/// Opening the same database twice in a row gives the list of opening it once.
pub proof fn law_recent_idempotent(l: Seq<Seq<char>>, p: Seq<char>)
    ensures
        recent_after(recent_after(l, p), p) == recent_after(l, p),
{
    let r = recent_after(l, p);
    law_recent_front(l, p);
    lemma_without_drops_only(r, p);
    assert(without(r, p) =~= r.drop_first());
    assert(seq![p] + r.drop_first() =~= r);
}

proof fn lemma_without_drops_only(r: Seq<Seq<char>>, p: Seq<char>)
    requires
        r.len() >= 1,
        r[0] == p,
        forall|i: int| 1 <= i < r.len() ==> r[i] != p,
    ensures
        without(r, p) == r.drop_first(),
    decreases r.len(),
{
    if r.len() == 1 {
        assert(r.drop_last() =~= Seq::<Seq<char>>::empty());
        assert(without(r.drop_last(), p) =~= Seq::<Seq<char>>::empty());
        assert(r.drop_first() =~= Seq::<Seq<char>>::empty());
    } else {
        lemma_without_drops_only(r.drop_last(), p);
        assert(r.drop_last().drop_first().push(r.last()) =~= r.drop_first());
    }
}

} // verus!
