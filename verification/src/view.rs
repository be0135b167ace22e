//! What the window shows: the selection, the expanded folders, the rows of the
//! folder tree and of the folder contents, the status line.
use vstd::prelude::*;
use std::collections::{HashMap, HashSet};

use crate::node::Node;
use crate::settings::Settings;
use crate::text::{self, chars_eq, chars_of, find_from_exec, starts_with_exec, string_of};

verus! {

broadcast use {vstd::string::group_string_axioms, vstd::std_specs::hash::group_hash_axioms};

/// The node is a folder.
pub open spec fn is_folder(n: Node) -> bool {
    n.kind@ == "folder"@
}

/// Tells whether a node kind names a folder.
pub fn kind_is_folder(kind: &String) -> (r: bool)
    ensures
        r == (kind@ == "folder"@),
{
    let k = chars_of(kind.as_str());
    let f = chars_of("folder");
    chars_eq(&k, &f)
}

/// The folders among `siblings`, other than `keep`.
pub open spec fn sibling_folders(siblings: Seq<Node>, keep: i64) -> Set<i64> {
    Set::new(
        |id: i64|
            id != keep && exists|i: int|
                0 <= i < siblings.len() && #[trigger] siblings[i].id == id && is_folder(siblings[i]),
    )
}

/// The expanded folders once `id` is expanded: with `collapse` set, the folders
/// among its siblings close first.
pub open spec fn expanded_with(e: Set<i64>, id: i64, collapse: bool, siblings: Seq<Node>) -> Set<
    i64,
> {
    if collapse {
        e.difference(sibling_folders(siblings, id)).insert(id)
    } else {
        e.insert(id)
    }
}

/// The expanded folders once `id` is toggled: closed when open, opened otherwise.
pub open spec fn toggled(e: Set<i64>, id: i64, collapse: bool, siblings: Seq<Node>) -> Set<i64> {
    if e.contains(id) {
        e.remove(id)
    } else {
        expanded_with(e, id, collapse, siblings)
    }
}

/// The selection, the open folder and the expanded folders of the window.
pub struct ViewState {
    pub selected_id: Option<i64>,
    pub selected_is_folder: bool,
    /// The folder whose contents are listed.
    pub current_folder: Option<i64>,
    /// The node whose details the status line shows.
    pub status_id: Option<i64>,
    pub expanded: HashSet<i64>,
}

impl ViewState {
    /// Nothing selected or open, every folder closed.
    pub open spec fn is_initial(&self) -> bool {
        &&& self.selected_id is None
        &&& self.selected_is_folder
        &&& self.current_folder is None
        &&& self.status_id is None
        &&& self.expanded@ == Set::<i64>::empty()
    }

    /// The state of a freshly opened database.
    pub fn new() -> (r: Self)
        ensures
            r.is_initial(),
    {
        ViewState {
            selected_id: None,
            selected_is_folder: true,
            current_folder: None,
            status_id: None,
            expanded: HashSet::new(),
        }
    }

    /// Forgets the selection and the expanded folders (another database was opened).
    pub fn reset(&mut self)
        ensures
            final(self).is_initial(),
    {
        self.selected_id = None;
        self.selected_is_folder = true;
        self.current_folder = None;
        self.status_id = None;
        self.expanded.clear();
    }

    /// Closes the folders among `siblings` other than `expanding_id`, when `enabled`.
    pub fn collapse_siblings_if_needed(&mut self, enabled: bool, expanding_id: i64, siblings: &Vec<Node>)
        ensures
            final(self).expanded@ == (if enabled {
                old(self).expanded@.difference(sibling_folders(siblings@, expanding_id))
            } else {
                old(self).expanded@
            }),
            final(self).selected_id == old(self).selected_id,
            final(self).selected_is_folder == old(self).selected_is_folder,
            final(self).current_folder == old(self).current_folder,
            final(self).status_id == old(self).status_id,
    {
        if !enabled {
            return;
        }
        let ghost e0 = self.expanded@;
        let mut i: usize = 0;
        while i < siblings.len()
            invariant
                i <= siblings@.len(),
                self.expanded@ == e0.difference(sibling_folders(siblings@.subrange(0, i as int), expanding_id)),
                self.selected_id == old(self).selected_id,
                self.selected_is_folder == old(self).selected_is_folder,
                self.current_folder == old(self).current_folder,
                self.status_id == old(self).status_id,
            decreases siblings@.len() - i,
        {
            let sib = &siblings[i];
            let ghost before = self.expanded@;
            if sib.id != expanding_id && kind_is_folder(&sib.kind) {
                self.expanded.remove(&sib.id);
            }
            assert(self.expanded@ =~= e0.difference(sibling_folders(siblings@.subrange(0, i + 1), expanding_id))) by {
                assert forall|x: i64| sibling_folders(siblings@.subrange(0, i + 1), expanding_id).contains(x)
                    <==> (sibling_folders(siblings@.subrange(0, i as int), expanding_id).contains(x) || (x
                    == siblings@[i as int].id && x != expanding_id && is_folder(siblings@[i as int]))) by {
                    if sibling_folders(siblings@.subrange(0, i + 1), expanding_id).contains(x) {
                        let k = choose|k: int| 0 <= k < i + 1 && #[trigger] siblings@.subrange(0, i + 1)[k].id == x
                            && is_folder(siblings@.subrange(0, i + 1)[k]);
                        if k < i {
                            assert(siblings@.subrange(0, i as int)[k] == siblings@.subrange(0, i + 1)[k]);
                        }
                    }
                    if sibling_folders(siblings@.subrange(0, i as int), expanding_id).contains(x) {
                        let k = choose|k: int| 0 <= k < i && #[trigger] siblings@.subrange(0, i as int)[k].id == x
                            && is_folder(siblings@.subrange(0, i as int)[k]);
                        assert(siblings@.subrange(0, i + 1)[k] == siblings@.subrange(0, i as int)[k]);
                    }
                    if x == siblings@[i as int].id && x != expanding_id && is_folder(siblings@[i as int]) {
                        assert(siblings@.subrange(0, i + 1)[i as int] == siblings@[i as int]);
                    }
                }
            }
            i = i + 1;
        }
        assert(siblings@.subrange(0, siblings@.len() as int) =~= siblings@);
    }

    /// Opens `id` when it is closed (closing its sibling folders first when
    /// `collapse`); leaves it open otherwise.
    pub fn expand(&mut self, id: i64, collapse: bool, siblings: &Vec<Node>)
        ensures
            final(self).expanded@ == (if old(self).expanded@.contains(id) {
                old(self).expanded@
            } else {
                expanded_with(old(self).expanded@, id, collapse, siblings@)
            }),
            final(self).selected_id == old(self).selected_id,
            final(self).selected_is_folder == old(self).selected_is_folder,
            final(self).current_folder == old(self).current_folder,
            final(self).status_id == old(self).status_id,
    {
        if !self.expanded.contains(&id) {
            self.collapse_siblings_if_needed(collapse, id, siblings);
            self.expanded.insert(id);
        }
    }

    /// Closes `id` when it is open, opens it otherwise (the expand arrow).
    pub fn toggle(&mut self, id: i64, collapse: bool, siblings: &Vec<Node>)
        ensures
            final(self).expanded@ == toggled(old(self).expanded@, id, collapse, siblings@),
            final(self).selected_id == old(self).selected_id,
            final(self).selected_is_folder == old(self).selected_is_folder,
            final(self).current_folder == old(self).current_folder,
            final(self).status_id == old(self).status_id,
    {
        if self.expanded.contains(&id) {
            self.expanded.remove(&id);
        } else {
            self.collapse_siblings_if_needed(collapse, id, siblings);
            self.expanded.insert(id);
        }
    }

    fn select_folder(&mut self, id: i64)
        ensures
            final(self).selected_id == Some(id),
            final(self).selected_is_folder,
            final(self).current_folder == Some(id),
            final(self).status_id is None,
            final(self).expanded@ == old(self).expanded@,
    {
        self.selected_id = Some(id);
        self.selected_is_folder = true;
        self.current_folder = Some(id);
        self.status_id = None;
    }

    /// A folder clicked (or double-clicked) in the tree: it is toggled, selected,
    /// and its contents are listed.
    pub fn tree_folder_clicked(&mut self, id: i64, collapse: bool, siblings: &Vec<Node>)
        ensures
            final(self).expanded@ == toggled(old(self).expanded@, id, collapse, siblings@),
            final(self).selected_id == Some(id),
            final(self).selected_is_folder,
            final(self).current_folder == Some(id),
            final(self).status_id is None,
    {
        self.toggle(id, collapse, siblings);
        self.select_folder(id);
    }

    /// A folder double-clicked in the contents list: it is opened (not closed when
    /// already open), selected, and its contents are listed.
    pub fn list_folder_activated(&mut self, id: i64, collapse: bool, siblings: &Vec<Node>)
        ensures
            final(self).expanded@ == (if old(self).expanded@.contains(id) {
                old(self).expanded@
            } else {
                expanded_with(old(self).expanded@, id, collapse, siblings@)
            }),
            final(self).selected_id == Some(id),
            final(self).selected_is_folder,
            final(self).current_folder == Some(id),
            final(self).status_id is None,
    {
        self.expand(id, collapse, siblings);
        self.select_folder(id);
    }

    /// A bookmark clicked or activated: it becomes the selection.
    pub fn select_bookmark(&mut self, id: i64)
        ensures
            final(self).selected_id == Some(id),
            !final(self).selected_is_folder,
            final(self).current_folder == old(self).current_folder,
            final(self).status_id == old(self).status_id,
            final(self).expanded@ == old(self).expanded@,
    {
        self.selected_id = Some(id);
        self.selected_is_folder = false;
    }

    /// A node clicked in the contents list: the status line shows it.
    pub fn show_status(&mut self, id: i64)
        ensures
            final(self).status_id == Some(id),
            final(self).selected_id == old(self).selected_id,
            final(self).selected_is_folder == old(self).selected_is_folder,
            final(self).current_folder == old(self).current_folder,
            final(self).expanded@ == old(self).expanded@,
    {
        self.status_id = Some(id);
    }

    /// The context menu opened on a node: it is selected; a folder also becomes
    /// the open folder.
    pub fn context_requested(&mut self, id: i64, is_folder: bool)
        ensures
            final(self).selected_id == Some(id),
            final(self).selected_is_folder == is_folder,
            final(self).current_folder == (if is_folder {
                Some(id)
            } else {
                old(self).current_folder
            }),
            final(self).status_id == old(self).status_id,
            final(self).expanded@ == old(self).expanded@,
    {
        self.selected_id = Some(id);
        self.selected_is_folder = is_folder;
        if is_folder {
            self.current_folder = Some(id);
        }
    }

    /// Whether deleting asks for confirmation first: only when the setting says so
    /// and something is selected.
    pub fn needs_delete_confirm(&self, settings: &Settings) -> (r: bool)
        ensures
            r == (settings.confirm_delete && self.selected_id is Some),
    {
        settings.confirm_delete && self.selected_id.is_some()
    }

    /// Deletes the selection from the view: hands back the node to delete (with all
    /// that it holds) and forgets it as selection, open folder and expanded folder.
    pub fn take_selected_for_delete(&mut self) -> (r: Option<i64>)
        ensures
            r == old(self).selected_id,
            match r {
                Some(id) => {
                    &&& final(self).expanded@ == old(self).expanded@.remove(id)
                    &&& final(self).current_folder == (if old(self).current_folder == Some(id) {
                        None
                    } else {
                        old(self).current_folder
                    })
                    &&& final(self).selected_id is None
                    &&& final(self).status_id is None
                },
                None => {
                    &&& final(self).expanded@ == old(self).expanded@
                    &&& final(self).current_folder == old(self).current_folder
                    &&& final(self).selected_id is None
                    &&& final(self).status_id == old(self).status_id
                },
            },
            final(self).selected_is_folder == old(self).selected_is_folder,
    {
        match self.selected_id {
            Some(id) => {
                if self.current_folder == Some(id) {
                    self.current_folder = None;
                }
                self.expanded.remove(&id);
                self.selected_id = None;
                self.status_id = None;
                Some(id)
            },
            None => None,
        }
    }

    /// A new node `new_id` was stored under `parent`: the parent opens and the new
    /// node becomes the selection.
    pub fn inserted(&mut self, parent: Option<i64>, new_id: i64, is_folder: bool)
        ensures
            final(self).expanded@ == (match parent {
                Some(p) => old(self).expanded@.insert(p),
                None => old(self).expanded@,
            }),
            final(self).selected_id == Some(new_id),
            final(self).selected_is_folder == is_folder,
            final(self).current_folder == old(self).current_folder,
            final(self).status_id == old(self).status_id,
    {
        if let Some(p) = parent {
            self.expanded.insert(p);
        }
        self.selected_id = Some(new_id);
        self.selected_is_folder = is_folder;
    }

    /// Opens every folder of `ids`.
    pub fn expand_all(&mut self, ids: &Vec<i64>)
        ensures
            final(self).expanded@ == old(self).expanded@.union(ids@.to_set()),
            final(self).selected_id == old(self).selected_id,
            final(self).selected_is_folder == old(self).selected_is_folder,
            final(self).current_folder == old(self).current_folder,
            final(self).status_id == old(self).status_id,
    {
        let ghost e0 = self.expanded@;
        let mut i: usize = 0;
        while i < ids.len()
            invariant
                i <= ids@.len(),
                self.expanded@ == e0.union(ids@.subrange(0, i as int).to_set()),
                self.selected_id == old(self).selected_id,
                self.selected_is_folder == old(self).selected_is_folder,
                self.current_folder == old(self).current_folder,
                self.status_id == old(self).status_id,
            decreases ids@.len() - i,
        {
            self.expanded.insert(ids[i]);
            assert(ids@.subrange(0, i + 1) =~= ids@.subrange(0, i as int).push(ids@[i as int]));
            assert(ids@.subrange(0, i + 1).to_set() =~= ids@.subrange(0, i as int).to_set().insert(
                ids@[i as int],
            )) by {
                ids@.subrange(0, i as int).lemma_push_to_set_commute(ids@[i as int]);
            }
            assert(self.expanded@ =~= e0.union(ids@.subrange(0, i + 1).to_set()));
            i = i + 1;
        }
        assert(ids@.subrange(0, ids@.len() as int) =~= ids@);
    }

    /// Closes every folder.
    pub fn collapse_all(&mut self)
        ensures
            final(self).expanded@ == Set::<i64>::empty(),
            final(self).selected_id == old(self).selected_id,
            final(self).selected_is_folder == old(self).selected_is_folder,
            final(self).current_folder == old(self).current_folder,
            final(self).status_id == old(self).status_id,
    {
        self.expanded.clear();
    }

    /// A node was deleted elsewhere (a duplicate): it is no longer expanded.
    pub fn forget(&mut self, id: i64)
        ensures
            final(self).expanded@ == old(self).expanded@.remove(id),
            final(self).selected_id == old(self).selected_id,
            final(self).selected_is_folder == old(self).selected_is_folder,
            final(self).current_folder == old(self).current_folder,
            final(self).status_id == old(self).status_id,
    {
        self.expanded.remove(&id);
    }
}

/// Toggling a folder twice, without closing siblings, leaves the expanded folders as
/// they were.
pub proof fn law_toggle_twice(e: Set<i64>, id: i64, siblings: Seq<Node>)
    ensures
        toggled(toggled(e, id, false, siblings), id, false, siblings) == e,
{
    if e.contains(id) {
        assert(e.remove(id).insert(id) =~= e);
    } else {
        assert(e.insert(id).remove(id) =~= e);
    }
}

/// Once a folder is opened with sibling collapsing, it is open and none of its
/// sibling folders is.
pub proof fn law_expand_closes_siblings(e: Set<i64>, id: i64, siblings: Seq<Node>, i: int)
    requires
        0 <= i < siblings.len(),
        is_folder(siblings[i]),
        siblings[i].id != id,
    ensures
        expanded_with(e, id, true, siblings).contains(id),
        !expanded_with(e, id, true, siblings).contains(siblings[i].id),
{
    assert(sibling_folders(siblings, id).contains(siblings[i].id));
}

} // verus!

verus! {

/// One row of the folder tree or of the contents list.
pub struct TreeRow {
    pub id: i64,
    pub title: String,
    /// Nesting depth in the tree; 0 in the contents list.
    pub depth: usize,
    pub expanded: bool,
    pub is_folder: bool,
    /// The node's URL, whatever its kind; empty when it has none.
    pub url: String,
    /// The cached favicon file to show: none for folders.
    pub favicon: Option<String>,
}

/// A row as plain values: id, title, depth, expanded, folder, URL, favicon file.
pub type RowView = (i64, Seq<char>, usize, bool, bool, Seq<char>, Option<Seq<char>>);

impl View for TreeRow {
    type V = RowView;

    open spec fn view(&self) -> RowView {
        (
            self.id,
            self.title@,
            self.depth,
            self.expanded,
            self.is_folder,
            self.url@,
            text::opt_view(self.favicon),
        )
    }
}

/// The favicon file shown on the row of node `n`: none for a folder; for a bookmark,
/// its file name in `favs` when it has a name there that is not empty.
pub open spec fn row_favicon(n: Node, favs: Map<i64, String>) -> Option<Seq<char>> {
    if !is_folder(n) && favs.contains_key(n.id) && favs[n.id]@.len() > 0 {
        Some(favs[n.id]@)
    } else {
        None
    }
}

/// The row that shows node `n` at `depth`, with the favicons named in `favs`.
pub open spec fn row_view(n: Node, depth: usize, expanded: bool, favs: Map<i64, String>) -> RowView {
    (
        n.id,
        n.title@,
        depth,
        expanded,
        is_folder(n),
        match n.url {
            Some(u) => u@,
            None => seq![],
        },
        row_favicon(n, favs),
    )
}

pub open spec fn rows_view(rows: Seq<TreeRow>) -> Seq<RowView> {
    rows.map_values(|r: TreeRow| r@)
}

fn row_favicon_exec(n: &Node, is_folder: bool, favicons: &HashMap<i64, String>) -> (r: Option<String>)
    requires
        is_folder == crate::view::is_folder(*n),
    ensures
        text::opt_view(r) == row_favicon(*n, favicons@),
{
    if is_folder {
        return None;
    }
    match favicons.get(&n.id) {
        Some(f) => if f.as_str().is_empty() {
            None
        } else {
            Some(f.clone())
        },
        None => None,
    }
}

fn make_row(n: Node, depth: usize, expanded: bool, favicons: &HashMap<i64, String>) -> (r: TreeRow)
    ensures
        r@ == row_view(n, depth, expanded, favicons@),
{
    let is_folder = kind_is_folder(&n.kind);
    let favicon = row_favicon_exec(&n, is_folder, favicons);
    let url = match n.url {
        Some(u) => u,
        None => String::new(),
    };
    TreeRow { id: n.id, title: n.title, depth, expanded, is_folder, url, favicon }
}

/// The rows of the contents list: every node at depth 0, none shown expanded, each
/// bookmark with its favicon file from `favicons` (by id; an empty name is none).
pub fn contents_rows(nodes: Vec<Node>, favicons: &HashMap<i64, String>) -> (r: Vec<TreeRow>)
    ensures
        rows_view(r@) == nodes@.map_values(|n: Node| row_view(n, 0, false, favicons@)),
{
    let ghost all = nodes@;
    let ghost fv = favicons@;
    let mut rows: Vec<TreeRow> = Vec::new();
    for n in it: nodes
        invariant
            it.seq() == all,
            fv == favicons@,
            rows_view(rows@) == all.take(it.index()).map_values(|n: Node| row_view(n, 0, false, fv)),
    {
        let ghost prev = rows@;
        rows.push(make_row(n, 0, false, favicons));
        assert(all.take(it.index() + 1) =~= all.take(it.index()).push(n));
        assert(rows_view(rows@) =~= rows_view(prev).push(row_view(n, 0, false, fv)));
        assert(all.take(it.index() + 1).map_values(|n: Node| row_view(n, 0, false, fv)) =~= all.take(
            it.index(),
        ).map_values(|n: Node| row_view(n, 0, false, fv)).push(row_view(n, 0, false, fv)));
    }
    assert(all.take(all.len() as int) =~= all);
    rows
}

/// The contents list of the window: no rows when no folder is open; otherwise the
/// rows of `children`, the nodes read from the open folder (none when they could
/// not be read).
pub fn contents_list(current_folder: Option<i64>, children: Vec<Node>, favicons: &HashMap<i64, String>) -> (r: Vec<TreeRow>)
    ensures
        rows_view(r@) == (if current_folder is None {
            Seq::<RowView>::empty()
        } else {
            children@.map_values(|n: Node| row_view(n, 0, false, favicons@))
        }),
{
    match current_folder {
        None => {
            let r: Vec<TreeRow> = Vec::new();
            assert(rows_view(r@) =~= Seq::<RowView>::empty());
            r
        },
        Some(_) => contents_rows(children, favicons),
    }
}

/// The number of nodes still waiting in the walk's levels.
pub open spec fn waiting_nodes(f: Seq<Seq<Node>>) -> nat
    decreases f.len(),
{
    if f.len() == 0 {
        0
    } else {
        waiting_nodes(f.drop_last()) + f.last().len()
    }
}

/// The tree walk from levels `f` (each level holds its nodes still to show, the
/// next one last) with rows `rows` shown so far: nodes are shown depth first; the
/// walk stops at the first expanded folder, whose children it then needs (`Some`),
/// or when every level is done (`None`).
pub open spec fn walk(f: Seq<Seq<Node>>, rows: Seq<RowView>, e: Set<i64>, favs: Map<i64, String>) -> (
    Seq<Seq<Node>>,
    Seq<RowView>,
    Option<i64>,
)
    decreases waiting_nodes(f), f.len(),
{
    if f.len() == 0 {
        (f, rows, None)
    } else {
        let top = f.last();
        if top.len() == 0 {
            walk(f.drop_last(), rows, e, favs)
        } else {
            let n = top.last();
            let f2 = f.drop_last().push(top.drop_last());
            let exp = is_folder(n) && e.contains(n.id);
            let rows2 = rows.push(row_view(n, (f.len() - 1) as usize, exp, favs));
            proof {
                assert(f2.drop_last() =~= f.drop_last());
            }
            if exp {
                (f2, rows2, Some(n.id))
            } else {
                walk(f2, rows2, e, favs)
            }
        }
    }
}

/// The level made of fed children: the next node last; empty when they could not be read.
pub open spec fn fed_level(children: Option<Vec<Node>>) -> Seq<Node> {
    match children {
        Some(c) => c@.reverse(),
        None => Seq::<Node>::empty(),
    }
}

/// Walking the folder tree: the rows of the open folders, depth first. The caller
/// reads the children of the folder that `request` names (the top level first) and
/// feeds them in.
pub struct TreeWalk {
    rows: Vec<TreeRow>,
    levels: Vec<Vec<Node>>,
    request: Option<Option<i64>>,
}

impl TreeWalk {
    pub closed spec fn shown(&self) -> Seq<RowView> {
        rows_view(self.rows@)
    }

    pub closed spec fn levels_view(&self) -> Seq<Seq<Node>> {
        self.levels@.map_values(|v: Vec<Node>| v@)
    }

    pub closed spec fn wants(&self) -> Option<Option<i64>> {
        self.request
    }

    /// A walk that first needs the top-level nodes.
    pub fn start() -> (w: Self)
        ensures
            w.shown().len() == 0,
            w.levels_view().len() == 0,
            w.wants() == Some(None::<i64>),
    {
        let w = TreeWalk { rows: Vec::new(), levels: Vec::new(), request: Some(None) };
        assert(w.levels_view() =~= Seq::<Seq<Node>>::empty());
        w
    }

    /// Whose children the walk needs next: `Some(None)` for the top level,
    /// `Some(Some(id))` for folder `id`, `None` when the walk is over.
    pub fn request(&self) -> (r: Option<Option<i64>>)
        ensures
            r == self.wants(),
    {
        self.request
    }

    /// Feeds in the children asked for (`None` when they could not be read: the
    /// folder then shows nothing) and walks on to the next expanded folder.
    pub fn feed(&mut self, children: Option<Vec<Node>>, expanded: &HashSet<i64>, favicons: &HashMap<i64, String>)
        requires
            old(self).wants() is Some,
        ensures
            ({
                let w = walk(
                    old(self).levels_view().push(fed_level(children)),
                    old(self).shown(),
                    expanded@,
                    favicons@,
                );
                &&& final(self).levels_view() == w.0
                &&& final(self).shown() == w.1
                &&& final(self).wants() == match w.2 {
                    Some(id) => Some(Some(id)),
                    None => None::<Option<i64>>,
                }
            }),
    {
        let ghost level = fed_level(children);
        let mut rev: Vec<Node> = Vec::new();
        if let Some(mut c) = children {
            let ghost c0 = c@;
            while c.len() > 0
                invariant
                    rev@ + c@.reverse() == c0.reverse(),
                decreases c@.len(),
            {
                let ghost before = c@;
                let n = c.pop().unwrap();
                assert(before.reverse() =~= seq![n] + c@.reverse());
                assert(rev@.push(n) + c@.reverse() =~= rev@ + before.reverse());
                rev.push(n);
            }
            assert(rev@ =~= c0.reverse());
        } else {
            assert(rev@ =~= Seq::<Node>::empty());
        }
        let ghost f0 = old(self).levels_view().push(level);
        let ghost target = walk(f0, old(self).shown(), expanded@, favicons@);
        self.levels.push(rev);
        assert(self.levels_view() =~= f0);
        loop
            invariant_except_break
                walk(self.levels_view(), self.shown(), expanded@, favicons@) == target,
            ensures
                self.levels_view() == target.0,
                self.shown() == target.1,
                self.request == match target.2 {
                    Some(id) => Some(Some(id)),
                    None => None::<Option<i64>>,
                },
            decreases waiting_nodes(self.levels_view()), self.levels_view().len(),
        {
            let depth = self.levels.len();
            if depth == 0 {
                self.request = None;
                break;
            }
            let top = depth - 1;
            let ghost f = self.levels_view();
            if self.levels[top].len() == 0 {
                let _ = self.levels.pop();
                assert(self.levels_view() =~= f.drop_last());
                continue;
            }
            let n = self.levels[top].pop().unwrap();
            assert(self.levels_view() =~= f.drop_last().push(f.last().drop_last()));
            assert(n == f.last().last());
            assert(self.levels_view().drop_last() =~= f.drop_last());
            assert(waiting_nodes(self.levels_view()) < waiting_nodes(f));
            let fold = kind_is_folder(&n.kind);
            let exp = fold && expanded.contains(&n.id);
            let id = n.id;
            let ghost prev = self.rows@;
            self.rows.push(make_row(n, top, exp, favicons));
            assert(self.shown() =~= rows_view(prev).push(row_view(f.last().last(), top, exp, favicons@)));
            if exp {
                self.request = Some(Some(id));
                break;
            }
        }
    }

    /// The rows shown by the walk.
    pub fn into_rows(self) -> (r: Vec<TreeRow>)
        ensures
            rows_view(r@) == self.shown(),
    {
        self.rows
    }
}

} // verus!

verus! {

/// The URL opened in the browser for a bookmark: unchanged when empty, when it has
/// a scheme (`://`) or is a `mailto:` or `file:` link; `https://` is put in front
/// otherwise.
pub open spec fn browser_url(u: Seq<char>) -> Seq<char> {
    if u.len() == 0 || text::find(u, "://"@) is Some || text::starts_with(u, "mailto:"@)
        || text::starts_with(u, "file:"@) {
        u
    } else {
        "https://"@ + u
    }
}

/// The URL to open in the browser for a bookmark URL `url`.
pub fn normalize_url(url: &str) -> (r: String)
    ensures
        r@ == browser_url(url@),
{
    let u = chars_of(url);
    if u.len() == 0 || find_from_exec(&u, &chars_of("://"), 0).is_some() || starts_with_exec(
        &u,
        &chars_of("mailto:"),
    ) || starts_with_exec(&u, &chars_of("file:")) {
        string_of(&u)
    } else {
        let mut r = chars_of("https://");
        text::push_all(&mut r, &u);
        string_of(&r)
    }
}

/// What the status line shows of a bookmark.
pub struct StatusLine {
    pub url: String,
    pub note: String,
    pub created: String,
    /// `—` when the bookmark was never opened.
    pub visited: String,
}

/// A present text, or `default`.
pub open spec fn text_or(o: Option<String>, default: Seq<char>) -> Seq<char> {
    match o {
        Some(s) => s@,
        None => default,
    }
}

fn copy_or(o: &Option<String>, default: &str) -> (r: String)
    ensures
        r@ == text_or(*o, default@),
{
    match o {
        Some(s) => s.clone(),
        None => string_of(&chars_of(default)),
    }
}

fn copy_or_empty(o: &Option<String>) -> (r: String)
    ensures
        r@ == text_or(*o, seq![]),
{
    match o {
        Some(s) => s.clone(),
        None => String::new(),
    }
}

/// The status line for `node`: its URL, note and creation date (empty when
/// missing) and its last visit (`—` when missing).
pub fn status_line(node: &Node) -> (r: StatusLine)
    ensures
        r.url@ == text_or(node.url, seq![]),
        r.note@ == text_or(node.note, seq![]),
        r.created@ == text_or(node.created, seq![]),
        r.visited@ == text_or(node.visited, "\u{2014}"@),
{
    StatusLine {
        url: copy_or_empty(&node.url),
        note: copy_or_empty(&node.note),
        created: copy_or_empty(&node.created),
        visited: copy_or(&node.visited, "\u{2014}"),
    }
}

} // verus!
