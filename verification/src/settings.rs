//! User settings and their JSON form (`settings.json`).
use vstd::prelude::*;

verus! {

broadcast use vstd::string::group_string_axioms;

#[verifier::external_type_specification]
#[verifier::external_body]
pub struct ExJsonValue(serde_json::Value);

#[verifier::external_type_specification]
#[verifier::external_body]
#[verifier::reject_recursive_types(K)]
#[verifier::reject_recursive_types(V)]
pub struct ExJsonMap<K, V>(serde_json::Map<K, V>);

/// The boolean members of the top-level object of a JSON text, or `None` when the
/// text is not JSON. A member whose value is not `true`/`false` is left out, and so is
/// every member of a top-level value that is not an object.
pub uninterp spec fn json_text_bools(text: Seq<char>) -> Option<Map<Seq<char>, bool>>;

/// The boolean members of a JSON value (none unless it is an object).
pub uninterp spec fn json_value_bools(v: serde_json::Value) -> Map<Seq<char>, bool>;

/// The boolean members of a JSON object under construction.
pub uninterp spec fn json_map_bools(m: serde_json::Map<String, serde_json::Value>) -> Map<Seq<char>, bool>;

/// Every member of a JSON object under construction is a boolean.
pub uninterp spec fn json_map_only_bools(m: serde_json::Map<String, serde_json::Value>) -> bool;

/// Parses a JSON text with `serde_json::from_str::<Value>`. Claimed: the call
/// succeeds exactly when `json_text_bools` of the text is `Some`, and the value's
/// boolean members are the ones that name gives.
#[verifier::external_body]
fn parse_json(text: &str) -> (r: Option<serde_json::Value>)
    ensures
        r is Some <==> json_text_bools(text@) is Some,
        r matches Some(v) ==> json_value_bools(v) == json_text_bools(text@)->0,
{
    serde_json::from_str::<serde_json::Value>(text).ok()
}

/// Reads member `key` of a JSON value as a boolean, with `Value::get` and then
/// `Value::as_bool`. Claimed: the result is the member's value when `key` is a
/// boolean member of the value, `None` otherwise.
#[verifier::external_body]
fn json_bool_member(v: &serde_json::Value, key: &str) -> (r: Option<bool>)
    ensures
        r == (if json_value_bools(*v).dom().contains(key@) {
            Some(json_value_bools(*v)[key@])
        } else {
            None
        }),
{
    match v.get(key) {
        Some(m) => m.as_bool(),
        None => None,
    }
}

/// No members at all.
pub open spec fn no_members() -> Map<Seq<char>, bool> {
    Map::empty()
}

/// An empty JSON object, from `serde_json::Map::new`. Claimed: it has no members,
/// so none that is not a boolean.
#[verifier::external_body]
fn json_object_new() -> (r: serde_json::Map<String, serde_json::Value>)
    ensures
        json_map_bools(r) == no_members(),
        json_map_only_bools(r),
{
    serde_json::Map::new()
}

/// Sets member `key` to the boolean `b`, with `serde_json::Map::insert`. Claimed: the
/// boolean members become the old ones with `key` mapped to `b`, and an object of
/// booleans only stays one.
#[verifier::external_body]
fn json_object_set_bool(m: &mut serde_json::Map<String, serde_json::Value>, key: &str, b: bool)
    ensures
        json_map_bools(*final(m)) == json_map_bools(*old(m)).insert(key@, b),
        json_map_only_bools(*old(m)) ==> json_map_only_bools(*final(m)),
{
    m.insert(key.to_string(), serde_json::Value::Bool(b));
}

/// Writes a JSON object as indented text with `serde_json::to_string_pretty`.
/// Claimed: this never fails (string keys, writing into memory), and when every
/// member is a boolean the text parses back to an object with the same boolean
/// members. Nothing is claimed of the text of other objects: one nested deeper than
/// the parser's recursion limit is written but does not parse back.
#[verifier::external_body]
fn json_object_pretty(m: &serde_json::Map<String, serde_json::Value>) -> (r: Option<String>)
    ensures
        r is Some,
        r matches Some(t) ==> (json_map_only_bools(*m) ==> json_text_bools(t@) == Some(
            json_map_bools(*m),
        )),
{
    serde_json::to_string_pretty(m).ok()
}

/// The user's settings.
#[derive(Clone, Copy, Debug)]
pub struct Settings {
    pub show_toolbar: bool,
    pub collapse_siblings: bool,
    pub confirm_delete: bool,
    pub no_duplicate_urls: bool,
}

impl Settings {
    /// Toolbar shown, siblings not collapsed, deletion confirmed, duplicate URLs allowed.
    pub open spec fn defaults() -> Settings {
        Settings {
            show_toolbar: true,
            collapse_siblings: false,
            confirm_delete: true,
            no_duplicate_urls: false,
        }
    }
}

impl Default for Settings {
    fn default() -> (r: Self)
        ensures
            r == Settings::defaults(),
    {
        Settings {
            show_toolbar: true,
            collapse_siblings: false,
            confirm_delete: true,
            no_duplicate_urls: false,
        }
    }
}

/// The value of member `key`, or `default` when there is no such boolean member.
pub open spec fn bool_or(m: Map<Seq<char>, bool>, key: Seq<char>, default: bool) -> bool {
    if m.dom().contains(key) {
        m[key]
    } else {
        default
    }
}

/// The settings that a JSON text gives: each setting from its boolean member,
/// the default where it is missing or not a boolean; all defaults when the text is
/// not JSON.
pub open spec fn settings_read(members: Option<Map<Seq<char>, bool>>) -> Settings {
    match members {
        None => Settings::defaults(),
        Some(m) => Settings {
            show_toolbar: bool_or(m, "show_toolbar"@, true),
            collapse_siblings: bool_or(m, "collapse_siblings"@, false),
            confirm_delete: bool_or(m, "confirm_delete"@, true),
            no_duplicate_urls: bool_or(m, "no_duplicate_urls"@, false),
        },
    }
}

/// The boolean members written for a set of settings.
pub open spec fn settings_members(s: Settings) -> Map<Seq<char>, bool> {
    no_members().insert("show_toolbar"@, s.show_toolbar).insert(
        "collapse_siblings"@,
        s.collapse_siblings,
    ).insert("confirm_delete"@, s.confirm_delete).insert("no_duplicate_urls"@, s.no_duplicate_urls)
}

fn bool_member_or(v: &serde_json::Value, key: &str, default: bool) -> (r: bool)
    ensures
        r == bool_or(json_value_bools(*v), key@, default),
{
    match json_bool_member(v, key) {
        Some(b) => b,
        None => default,
    }
}

/// The settings stored in the text of `settings.json`; every setting that the
/// text does not give as a boolean keeps its default.
pub fn settings_from_json(content: &str) -> (r: Settings)
    ensures
        r == settings_read(json_text_bools(content@)),
{
    match parse_json(content) {
        None => Settings::default(),
        Some(v) => Settings {
            show_toolbar: bool_member_or(&v, "show_toolbar", true),
            collapse_siblings: bool_member_or(&v, "collapse_siblings", false),
            confirm_delete: bool_member_or(&v, "confirm_delete", true),
            no_duplicate_urls: bool_member_or(&v, "no_duplicate_urls", false),
        },
    }
}

/// The text of `settings.json` for `s`: an indented JSON object of four booleans.
pub fn settings_to_json(s: &Settings) -> (r: String)
    ensures
        json_text_bools(r@) == Some(settings_members(*s)),
{
    let mut m = json_object_new();
    json_object_set_bool(&mut m, "show_toolbar", s.show_toolbar);
    json_object_set_bool(&mut m, "collapse_siblings", s.collapse_siblings);
    json_object_set_bool(&mut m, "confirm_delete", s.confirm_delete);
    json_object_set_bool(&mut m, "no_duplicate_urls", s.no_duplicate_urls);
    match json_object_pretty(&m) {
        Some(t) => t,
        None => String::new(),
    }
}

/// What a settings file gives: each setting is the file's boolean of that name, and a
/// setting the file does not give as a boolean keeps its default (toolbar shown,
/// siblings not collapsed, deletion confirmed, duplicate URLs allowed); a text that
/// is not JSON gives all defaults.
pub proof fn law_settings_defaults(m: Map<Seq<char>, bool>)
    ensures
        settings_read(Some(m)).show_toolbar == (!m.dom().contains("show_toolbar"@)
            || m["show_toolbar"@]),
        settings_read(Some(m)).collapse_siblings == (m.dom().contains("collapse_siblings"@)
            && m["collapse_siblings"@]),
        settings_read(Some(m)).confirm_delete == (!m.dom().contains("confirm_delete"@)
            || m["confirm_delete"@]),
        settings_read(Some(m)).no_duplicate_urls == (m.dom().contains("no_duplicate_urls"@)
            && m["no_duplicate_urls"@]),
        settings_read(None) == (Settings {
            show_toolbar: true,
            collapse_siblings: false,
            confirm_delete: true,
            no_duplicate_urls: false,
        }),
        settings_read(Some(no_members())) == settings_read(None),
{
}

/// Settings written with `settings_to_json` read back unchanged.
pub proof fn law_settings_roundtrip(s: Settings)
    ensures
        settings_read(Some(settings_members(s))) == s,
{
    reveal_strlit("show_toolbar");
    reveal_strlit("collapse_siblings");
    reveal_strlit("confirm_delete");
    reveal_strlit("no_duplicate_urls");
    assert("show_toolbar"@[0] != "collapse_siblings"@[0]);
    assert("show_toolbar"@[0] != "confirm_delete"@[0]);
    assert("show_toolbar"@[0] != "no_duplicate_urls"@[0]);
    assert("collapse_siblings"@[2] != "confirm_delete"@[2]);
    assert("collapse_siblings"@[0] != "no_duplicate_urls"@[0]);
    assert("confirm_delete"@[0] != "no_duplicate_urls"@[0]);
}

} // verus!
