//! A row of the bookmark tree: a folder or a bookmark.
use vstd::prelude::*;

verus! {

broadcast use vstd::string::group_string_axioms;

/// One folder or bookmark of the tree.
#[derive(Debug, Clone)]
pub struct Node {
    pub id: i64,
    pub parent: Option<i64>,
    /// `"folder"` or `"bookmark"`.
    pub kind: String,
    pub title: String,
    pub url: Option<String>,
    pub note: Option<String>,
    pub sort_idx: i64,
    /// Filled in only when a single node is read with all its columns.
    pub created: Option<String>,
    /// Filled in only when a single node is read with all its columns.
    pub visited: Option<String>,
}

/// The value stored in a bookmark's favicon column for a cache file name: no
/// value (NULL) for an empty name.
pub fn favicon_column(filename: &str) -> (r: Option<String>)
    ensures
        r is None <==> filename@.len() == 0,
        r matches Some(f) ==> f@ == filename@,
{
    if filename.is_empty() {
        None
    } else {
        Some(filename.to_owned())
    }
}

} // verus!
