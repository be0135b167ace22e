//! The properties dialog of a folder or bookmark: what its fields store and when a
//! new bookmark must first be looked up among the stored URLs.
use vstd::prelude::*;

use crate::settings::Settings;

verus! {

broadcast use vstd::string::group_string_axioms;

/// The value stored for an optional text field (URL or note): nothing (NULL) when
/// the field was left empty.
pub fn optional_field(text: &str) -> (r: Option<String>)
    ensures
        r is None <==> text@.len() == 0,
        r matches Some(t) ==> t@ == text@,
{
    if text.is_empty() {
        None
    } else {
        Some(text.to_owned())
    }
}

/// The kind stored for a new node.
pub fn new_node_kind(is_folder: bool) -> (r: &'static str)
    ensures
        r@ == (if is_folder {
            "folder"@
        } else {
            "bookmark"@
        }),
{
    if is_folder {
        "folder"
    } else {
        "bookmark"
    }
}

/// A node being saved must first be looked up among the stored URLs, and is refused
/// when found there, exactly when it is a new bookmark with a URL and duplicate URLs
/// are refused.
pub fn url_check_needed(settings: &Settings, is_new: bool, is_folder: bool, url: &Option<String>) -> (r: bool)
    ensures
        r == (is_new && !is_folder && settings.no_duplicate_urls && url is Some),
{
    is_new && !is_folder && settings.no_duplicate_urls && url.is_some()
}

} // verus!
