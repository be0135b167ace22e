//! Favicon discovery: host names, cache file names, icon links in HTML pages.
use vstd::prelude::*;

use crate::node::Node;
use crate::text::{
    self, ascii_fold_exec, chars_eq, chars_of, ends_with_exec, find_from_exec, push_all, push_char,
    matches_at_exec, rfind_before_exec, slice_chars, starts_with_exec, string_of, trim_bounds,
};

verus! {

broadcast use vstd::string::group_string_axioms;

/// What `str::to_lowercase` returns for a string (full Unicode lower-casing).
pub uninterp spec fn unicode_lowercase(s: Seq<char>) -> Seq<char>;

/// Lower-cases `s` with `str::to_lowercase` from std; the result is taken to be
/// `unicode_lowercase(s@)`, a function of `s` alone. Claimed besides: on ASCII text
/// it lower-cases the ASCII letters and keeps every other character, as
/// `str::to_ascii_lowercase` does.
#[verifier::external_body]
fn to_lowercase(s: &str) -> (r: String)
    ensures
        r@ == unicode_lowercase(s@),
        text::is_ascii(s@) ==> r@ == text::ascii_fold(s@),
{
    s.to_lowercase()
}

pub open spec fn http_prefix() -> Seq<char> {
    seq!['h', 't', 't', 'p', ':', '/', '/']
}

pub open spec fn https_prefix() -> Seq<char> {
    seq!['h', 't', 't', 'p', 's', ':', '/', '/']
}

pub open spec fn scheme_sep() -> Seq<char> {
    seq![':', '/', '/']
}

pub open spec fn www_prefix() -> Seq<char> {
    seq!['w', 'w', 'w', '.']
}

/// `t` starts with `http://` or `https://`.
pub open spec fn is_http_url(t: Seq<char>) -> bool {
    text::starts_with(t, http_prefix()) || text::starts_with(t, https_prefix())
}

/// The part of `s` before the first `c`, or all of `s`.
pub open spec fn before_char(s: Seq<char>, c: char) -> Seq<char> {
    match text::find(s, seq![c]) {
        Some(k) => s.take(k),
        None => s,
    }
}

/// The host of the text that follows `scheme://`: up to the first `/`, then up to the first `:`.
pub open spec fn host_part(after: Seq<char>) -> Seq<char> {
    before_char(before_char(after, '/'), ':')
}

/// `h` with every leading `www.` removed.
pub open spec fn strip_www(h: Seq<char>) -> Seq<char>
    decreases h.len(),
{
    if text::starts_with(h, www_prefix()) {
        strip_www(h.skip(4))
    } else {
        h
    }
}

/// The host of an `http`/`https` URL without leading `www.`, before lower-casing;
/// `None` for any other URL or an empty host.
pub open spec fn raw_domain(url: Seq<char>) -> Option<Seq<char>> {
    let t = text::trim(url);
    if !is_http_url(t) {
        None
    } else {
        match text::find(t, scheme_sep()) {
            None => None,
            Some(p) => {
                let host = strip_www(host_part(t.skip(p + 3)));
                if host.len() == 0 {
                    None
                } else {
                    Some(host)
                }
            },
        }
    }
}

/// The domain of a URL: its lower-cased host, scheme, port, path and leading
/// `www.` left out; `None` when the URL is not `http`/`https` or has no host.
pub open spec fn domain_of(url: Seq<char>) -> Option<Seq<char>> {
    match raw_domain(url) {
        Some(h) => Some(unicode_lowercase(h)),
        None => None,
    }
}

proof fn lemma_strip_www_no_prefix(h: Seq<char>)
    ensures
        !text::starts_with(strip_www(h), www_prefix()),
    decreases h.len(),
{
    if text::starts_with(h, www_prefix()) {
        lemma_strip_www_no_prefix(h.skip(4));
    }
}

proof fn lemma_trim_end_after(p: Seq<char>, r: Seq<char>)
    requires
        p.len() > 0,
        !text::is_white(p.last()),
    ensures
        text::trim_end(p + r) == p + text::trim_end(r),
    decreases r.len(),
{
    if r.len() == 0 {
        assert(p + r =~= p);
        assert(p + text::trim_end(r) =~= p);
    } else if text::is_white(r.last()) {
        assert((p + r).drop_last() =~= p + r.drop_last());
        lemma_trim_end_after(p, r.drop_last());
    } else {
        assert((p + r).last() == r.last());
    }
}

proof fn lemma_scheme_split(x: Seq<char>)
    ensures
        text::trim(http_prefix() + x) == http_prefix() + text::trim_end(x),
        text::trim(https_prefix() + x) == https_prefix() + text::trim_end(x),
        text::find(http_prefix() + text::trim_end(x), scheme_sep()) == Some(4int),
        text::find(https_prefix() + text::trim_end(x), scheme_sep()) == Some(5int),
{
    let y = text::trim_end(x);
    lemma_trim_end_after(http_prefix(), x);
    lemma_trim_end_after(https_prefix(), x);
    let a = http_prefix() + y;
    let b = https_prefix() + y;
    assert(a[0] == 'h' && b[0] == 'h');
    reveal_with_fuel(text::find_from, 7);
    assert(!text::matches_at(a, scheme_sep(), 0) && a.subrange(0, 3)[0] == 'h');
    assert(a.subrange(1, 4)[0] == 't');
    assert(a.subrange(2, 5)[0] == 't');
    assert(a.subrange(3, 6)[0] == 'p');
    assert(a.subrange(4, 7) =~= scheme_sep());
    assert(b.subrange(0, 3)[0] == 'h');
    assert(b.subrange(1, 4)[0] == 't');
    assert(b.subrange(2, 5)[0] == 't');
    assert(b.subrange(3, 6)[0] == 'p');
    assert(b.subrange(4, 7)[0] == 's');
    assert(b.subrange(5, 8) =~= scheme_sep());
}

proof fn lemma_find_char(s: Seq<char>, c: char, i: int)
    requires
        0 <= i <= s.len(),
    ensures
        match text::find_from(s, seq![c], i) {
            None => forall|j: int| i <= j < s.len() ==> s[j] != c,
            Some(k) => i <= k < s.len() && forall|j: int| i <= j < k ==> s[j] != c,
        },
    decreases s.len() - i,
{
    let pat = seq![c];
    assert(pat.len() == 1);
    if i < s.len() {
        assert(s.subrange(i, i + 1) =~= seq![s[i]]);
        if !text::matches_at(s, pat, i) {
            assert(s[i] != c) by {
                if s[i] == c {
                    assert(s.subrange(i, i + 1) =~= pat);
                }
            }
            lemma_find_char(s, c, i + 1);
            assert(text::find_from(s, pat, i) == text::find_from(s, pat, i + 1));
        }
    }
}

proof fn lemma_before_char(s: Seq<char>, c: char)
    ensures
        forall|j: int| 0 <= j < before_char(s, c).len() ==> before_char(s, c)[j] != c && before_char(
            s,
            c,
        )[j] == s[j],
        before_char(s, c).len() <= s.len(),
{
    lemma_find_char(s, c, 0);
}

proof fn lemma_strip_www_suffix(h: Seq<char>)
    ensures
        strip_www(h).len() <= h.len(),
        forall|j: int|
            0 <= j < strip_www(h).len() ==> strip_www(h)[j] == h[j + h.len() - strip_www(h).len()],
    decreases h.len(),
{
    if text::starts_with(h, www_prefix()) {
        lemma_strip_www_suffix(h.skip(4));
    }
}

/// A domain is a bare host name: the path (from the first `/`) and the port (from the
/// first `:`) are cut off, so it holds neither character.
pub proof fn law_domain_is_bare_host(url: Seq<char>)
    ensures
        raw_domain(url) matches Some(h) ==> forall|j: int| 0 <= j < h.len() ==> h[j] != '/' && h[j] != ':',
{
    let t = text::trim(url);
    match text::find(t, scheme_sep()) {
        Some(p) => {
            let x = t.skip(p + 3);
            let a = before_char(x, '/');
            let hp = before_char(a, ':');
            lemma_before_char(x, '/');
            lemma_before_char(a, ':');
            lemma_strip_www_suffix(hp);
            let h = strip_www(hp);
            assert forall|j: int| 0 <= j < h.len() implies h[j] != '/' && h[j] != ':' by {
                let q = j + hp.len() - h.len();
                assert(h[j] == hp[q]);
                assert(hp[q] == a[q]);
            }
        },
        None => {},
    }
}

/// The domain does not depend on the scheme: `http://` and `https://` in front of the
/// same text give the same domain; and the host that is lower-cased into a domain
/// never begins with `www.`.
pub proof fn law_domain_scheme_free(rest: Seq<char>, url: Seq<char>)
    ensures
        raw_domain(http_prefix() + rest) == raw_domain(https_prefix() + rest),
        domain_of(http_prefix() + rest) == domain_of(https_prefix() + rest),
        raw_domain(url) matches Some(h) ==> !text::starts_with(h, www_prefix()),
{
    lemma_scheme_split(rest);
    let y = text::trim_end(rest);
    let a = http_prefix() + y;
    let b = https_prefix() + y;
    assert(a.subrange(0, 7) =~= http_prefix());
    assert(b.subrange(0, 8) =~= https_prefix());
    assert(text::starts_with(a, http_prefix()));
    assert(text::starts_with(b, https_prefix()));
    assert(a.skip(7) =~= y);
    assert(b.skip(8) =~= y);
    let t = text::trim(url);
    match text::find(t, scheme_sep()) {
        Some(p) => lemma_strip_www_no_prefix(host_part(t.skip(p + 3))),
        None => {},
    }
}

fn before_char_exec(s: &Vec<char>, c: char) -> (r: Vec<char>)
    ensures
        r@ == before_char(s@, c),
{
    let pat = vec![c];
    assert(pat@ =~= seq![c]);
    assert(s@.subrange(0, s@.len() as int) =~= s@);
    match find_from_exec(s, &pat, 0) {
        Some(k) => {
            proof {
                text::lemma_find_from_bounds(s@, pat@, 0);
            }
            slice_chars(s, 0, k)
        },
        None => slice_chars(s, 0, s.len()),
    }
}

fn strip_www_exec(h: &Vec<char>) -> (r: Vec<char>)
    ensures
        r@ == strip_www(h@),
{
    let www = vec!['w', 'w', 'w', '.'];
    let mut rest = slice_chars(h, 0, h.len());
    assert(rest@ =~= h@);
    assert(www@ =~= www_prefix());
    while starts_with_exec(&rest, &www)
        invariant
            www@ == www_prefix(),
            strip_www(h@) == strip_www(rest@),
        decreases rest@.len(),
    {
        assert(rest@.subrange(4, rest@.len() as int) =~= rest@.skip(4));
        rest = slice_chars(&rest, 4, rest.len());
    }
    rest
}

/// The domain of `url`: scheme, port, path and leading `www.` removed, lower-cased.
/// `None` for URLs other than `http://` and `https://` ones and for an empty host.
pub fn extract_domain(url: &str) -> (r: Option<String>)
    ensures
        text::opt_view(r) == domain_of(url@),
        raw_domain(url@) matches Some(h) ==> (text::is_ascii(h) ==> text::opt_view(r) == Some(
            text::ascii_fold(h),
        )),
{
    let v = chars_of(url);
    let (a, b) = trim_bounds(&v);
    let t = slice_chars(&v, a, b);
    let http = vec!['h', 't', 't', 'p', ':', '/', '/'];
    let https = vec!['h', 't', 't', 'p', 's', ':', '/', '/'];
    if !starts_with_exec(&t, &http) && !starts_with_exec(&t, &https) {
        return None;
    }
    let sep = vec![':', '/', '/'];
    let p = match find_from_exec(&t, &sep, 0) {
        Some(p) => p,
        None => return None,
    };
    proof {
        text::lemma_find_from_bounds(t@, sep@, 0);
    }
    let after = slice_chars(&t, p + 3, t.len());
    assert(after@ == t@.skip(p + 3));
    let host = strip_www_exec(&before_char_exec(&before_char_exec(&after, '/'), ':'));
    if host.len() == 0 {
        None
    } else {
        let hs = string_of(&host);
        Some(to_lowercase(hs.as_str()))
    }
}

/// `c` may stand in a cache file name: ASCII letters, digits, `.` and `-`.
pub open spec fn file_safe(c: char) -> bool {
    ('a' <= c && c <= 'z') || ('A' <= c && c <= 'Z') || ('0' <= c && c <= '9') || c == '.' || c
        == '-'
}

/// A domain made safe as a file name: every character other than an ASCII letter,
/// digit, `.` or `-` becomes `_`.
pub open spec fn sanitized(d: Seq<char>) -> Seq<char> {
    d.map_values(|c: char| if file_safe(c) { c } else { '_' })
}

/// Replaces every character of `domain` other than ASCII letters, digits, `.` and `-` by `_`.
pub fn sanitize_domain(domain: &str) -> (r: String)
    ensures
        r@ == sanitized(domain@),
{
    let v = chars_of(domain);
    let mut r = String::new();
    let mut i: usize = 0;
    while i < v.len()
        invariant
            i <= v@.len(),
            v@ == domain@,
            r@ == sanitized(v@.subrange(0, i as int)),
        decreases v@.len() - i,
    {
        let c = v[i];
        let safe = ('a' <= c && c <= 'z') || ('A' <= c && c <= 'Z') || ('0' <= c && c <= '9') || c
            == '.' || c == '-';
        push_char(&mut r, if safe { c } else { '_' });
        assert(sanitized(v@.subrange(0, i + 1)) =~= sanitized(v@.subrange(0, i as int)).push(
            if file_safe(c) { c } else { '_' },
        ));
        i = i + 1;
    }
    assert(v@.subrange(0, v@.len() as int) == v@);
    r
}

/// `b` starts with the PNG signature `89 50 4E 47`.
pub open spec fn is_png(b: Seq<u8>) -> bool {
    b.len() >= 4 && b[0] == 0x89u8 && b[1] == 0x50u8 && b[2] == 0x4Eu8 && b[3] == 0x47u8
}

/// True when `bytes` starts with the PNG signature `89 50 4E 47`; every cached
/// favicon is stored as PNG.
pub fn is_valid_image(bytes: &[u8]) -> (r: bool)
    ensures
        r == is_png(bytes@),
{
    bytes.len() >= 4 && bytes[0] == 0x89 && bytes[1] == 0x50 && bytes[2] == 0x4E && bytes[3] == 0x47
}

} // verus!

verus! {

/// Where a link `href` found on the page at `base` points.
/// Absolute links (`http...`) stay as they are; `//host/..` gets `https:`;
/// `/path` is taken on the host of `base` over `https`; any other link is taken
/// relative to the part of `base` before its last `/`. When `base` has no `://`,
/// `href` stays as it is.
pub open spec fn resolved_url(href: Seq<char>, base: Seq<char>) -> Seq<char> {
    if text::starts_with(href, seq!['h', 't', 't', 'p']) {
        href
    } else if text::starts_with(href, seq!['/', '/']) {
        seq!['h', 't', 't', 'p', 's', ':'] + href
    } else {
        match text::find(base, scheme_sep()) {
            None => href,
            Some(p) => {
                let host = before_char(base.skip(p + 3), '/');
                if text::starts_with(href, seq!['/']) {
                    https_prefix() + host + href
                } else {
                    let dir = match text::rfind_before(base, '/', base.len() as int) {
                        Some(k) => base.take(k),
                        None => base,
                    };
                    dir + seq!['/'] + href
                }
            },
        }
    }
}

fn resolve_chars(href: &Vec<char>, base: &Vec<char>) -> (r: Vec<char>)
    ensures
        r@ == resolved_url(href@, base@),
{
    let http = vec!['h', 't', 't', 'p'];
    let dslash = vec!['/', '/'];
    let slash = vec!['/'];
    assert(http@ =~= seq!['h', 't', 't', 'p']);
    assert(dslash@ =~= seq!['/', '/']);
    assert(slash@ =~= seq!['/']);
    if starts_with_exec(href, &http) {
        return slice_chars(href, 0, href.len());
    }
    if starts_with_exec(href, &dslash) {
        let mut r = vec!['h', 't', 't', 'p', 's', ':'];
        push_all(&mut r, href);
        return r;
    }
    let sep = vec![':', '/', '/'];
    match find_from_exec(base, &sep, 0) {
        None => slice_chars(href, 0, href.len()),
        Some(p) => {
            proof {
                text::lemma_find_from_bounds(base@, sep@, 0);
                assert(sep@.len() == 3);
            }
            let n = base.len();
            let after = slice_chars(base, p + 3, n);
            assert(after@ =~= base@.skip(p + 3));
            let host = before_char_exec(&after, '/');
            if starts_with_exec(href, &slash) {
                let mut r = vec!['h', 't', 't', 'p', 's', ':', '/', '/'];
                push_all(&mut r, &host);
                push_all(&mut r, href);
                r
            } else {
                let mut r = match rfind_before_exec(base, '/', base.len()) {
                    Some(k) => {
                        proof {
                            text::lemma_rfind_before_bounds(base@, '/', base@.len() as int);
                        }
                        slice_chars(base, 0, k)
                    },
                    None => slice_chars(base, 0, base.len()),
                };
                r.push('/');
                push_all(&mut r, href);
                r
            }
        },
    }
}

/// Resolves a link `href` found on the page at `base` into an absolute URL.
pub fn resolve_url(href: &str, base: &str) -> (r: String)
    ensures
        r@ == resolved_url(href@, base@),
{
    let h = chars_of(href);
    let b = chars_of(base);
    string_of(&resolve_chars(&h, &b))
}

/// The value of attribute `attr` written as `attr=q...q` in `tag`; the name is
/// looked up ASCII case-insensitively, the value is taken from `tag` as written.
pub open spec fn attr_quoted(tag: Seq<char>, attr: Seq<char>, q: char) -> Option<Seq<char>> {
    let needle = attr + seq!['=', q];
    match text::find(text::ascii_fold(tag), needle) {
        None => None,
        Some(s) => {
            let vs = s + needle.len();
            match text::find_from(tag, seq![q], vs) {
                None => None,
                Some(e) => Some(tag.subrange(vs, e)),
            }
        },
    }
}

/// The value of attribute `attr` in `tag`, double-quoted form first, then single-quoted.
pub open spec fn attr_value(tag: Seq<char>, attr: Seq<char>) -> Option<Seq<char>> {
    match attr_quoted(tag, attr, '"') {
        Some(v) => Some(v),
        None => attr_quoted(tag, attr, '\''),
    }
}

fn attr_quoted_chars(tag: &Vec<char>, lower: &Vec<char>, attr: &Vec<char>, q: char) -> (r: Option<
    Vec<char>,
>)
    requires
        lower@ == text::ascii_fold(tag@),
    ensures
        match r {
            Some(v) => attr_quoted(tag@, attr@, q) == Some(v@),
            None => attr_quoted(tag@, attr@, q) is None,
        },
{
    let mut needle = slice_chars(attr, 0, attr.len());
    needle.push('=');
    needle.push(q);
    assert(needle@ =~= attr@ + seq!['=', q]);
    match find_from_exec(lower, &needle, 0) {
        None => None,
        Some(s) => {
            proof {
                text::lemma_find_from_bounds(lower@, needle@, 0);
                assert(s + needle@.len() <= lower@.len());
            }
            let n = lower.len();
            assert(s + needle@.len() <= n);
            let vs = s + needle.len();
            let qv = vec![q];
            assert(qv@ =~= seq![q]);
            match find_from_exec(tag, &qv, vs) {
                None => None,
                Some(e) => {
                    proof {
                        text::lemma_find_from_bounds(tag@, qv@, vs as int);
                    }
                    Some(slice_chars(tag, vs, e))
                },
            }
        },
    }
}

fn attr_value_chars(tag: &Vec<char>, lower: &Vec<char>, attr: &Vec<char>) -> (r: Option<
    Vec<char>,
>)
    requires
        lower@ == text::ascii_fold(tag@),
    ensures
        match r {
            Some(v) => attr_value(tag@, attr@) == Some(v@),
            None => attr_value(tag@, attr@) is None,
        },
{
    match attr_quoted_chars(tag, lower, attr, '"') {
        Some(v) => Some(v),
        None => attr_quoted_chars(tag, lower, attr, '\''),
    }
}

/// The value of attribute `attr` (given in lower case) in an HTML tag, read from
/// `attr="..."` or else from `attr='...'`.
pub fn extract_attr(tag: &str, attr: &str) -> (r: Option<String>)
    ensures
        text::opt_view(r) == attr_value(tag@, attr@),
{
    let t = chars_of(tag);
    let lower = ascii_fold_exec(&t);
    let a = chars_of(attr);
    match attr_value_chars(&t, &lower, &a) {
        Some(v) => Some(string_of(&v)),
        None => None,
    }
}

} // verus!

verus! {

/// The `rel` values that mark an icon link, `k` in `0..6`.
pub open spec fn icon_pattern(k: int) -> Seq<char> {
    if k == 0 {
        "rel=\"icon\""@
    } else if k == 1 {
        "rel=\"shortcut icon\""@
    } else if k == 2 {
        "rel='icon'"@
    } else if k == 3 {
        "rel='shortcut icon'"@
    } else if k == 4 {
        "rel=\"apple-touch-icon\""@
    } else {
        "rel='apple-touch-icon'"@
    }
}

/// One of the patterns `k..6` occurs in `s` at `i`.
pub open spec fn pattern_from(s: Seq<char>, i: int, k: int) -> bool
    decreases 6 - k,
{
    if k >= 6 || k < 0 {
        false
    } else {
        text::matches_at(s, icon_pattern(k), i) || pattern_from(s, i, k + 1)
    }
}

/// The first position `>= from` in the (lower-cased) page where an icon pattern occurs.
pub open spec fn next_icon_pos(lower: Seq<char>, from: int) -> Option<int>
    decreases lower.len() - from,
{
    if from < 0 || from >= lower.len() {
        None
    } else if pattern_from(lower, from, 0) {
        Some(from)
    } else {
        next_icon_pos(lower, from + 1)
    }
}

/// The start of the tag around position `pos`: the last `<` before it, or 0.
pub open spec fn tag_start(lower: Seq<char>, pos: int) -> int {
    match text::rfind_before(lower, '<', pos) {
        Some(k) => k,
        None => 0,
    }
}

/// The end of the tag around position `pos`: just after the first `>` from it, or the page end.
pub open spec fn tag_end(lower: Seq<char>, pos: int) -> int {
    match text::find_from(lower, seq!['>'], pos) {
        Some(e) => e + 1,
        None => lower.len() as int,
    }
}

/// A link is an SVG icon when its lower-cased `href` ends with `.svg` or the tag
/// says `type="image/svg+xml"`.
pub open spec fn is_svg_link(href: Seq<char>, tag: Seq<char>) -> bool {
    text::ends_with(text::ascii_fold(href), ".svg"@) || attr_value(tag, "type"@) == Some(
        "image/svg+xml"@,
    )
}

/// The icon links of `html` from position `from` on, resolved against `base`:
/// raster links, then SVG links, each in page order. An icon tag is the text
/// from the last `<` before an icon pattern to the first `>` after it; a tag
/// without `href` gives no link. Patterns are matched ASCII case-insensitively.
pub open spec fn icon_scan(html: Seq<char>, base: Seq<char>, from: int) -> (
    Seq<Seq<char>>,
    Seq<Seq<char>>,
)
    decreases html.len() + 1 - from,
{
    let lower = text::ascii_fold(html);
    match next_icon_pos(lower, from) {
        None => (seq![], seq![]),
        Some(pos) => {
            if pos < from || pos >= html.len() {
                (seq![], seq![])
            } else {
                let start = tag_start(lower, pos);
                let end = tag_end(lower, pos);
                let next = if end > pos + 1 {
                    end
                } else {
                    pos + 1
                };
                if next > html.len() {
                    (seq![], seq![])
                } else {
                    let rest = icon_scan(html, base, next);
                    match attr_value(html.subrange(start, end), "href"@) {
                        None => rest,
                        Some(href) => {
                            let link = resolved_url(href, base);
                            if is_svg_link(href, html.subrange(start, end)) {
                                (rest.0, seq![link] + rest.1)
                            } else {
                                (seq![link] + rest.0, rest.1)
                            }
                        },
                    }
                }
            }
        },
    }
}

/// All icon links of `html`, raster ones first, SVG ones last.
pub open spec fn icon_links(html: Seq<char>, base: Seq<char>) -> Seq<Seq<char>> {
    icon_scan(html, base, 0).0 + icon_scan(html, base, 0).1
}

proof fn lemma_next_icon_pos_bounds(lower: Seq<char>, from: int)
    ensures
        next_icon_pos(lower, from) matches Some(p) ==> from <= p < lower.len(),
    decreases lower.len() - from,
{
    if from < 0 || from >= lower.len() {
    } else if pattern_from(lower, from, 0) {
    } else {
        lemma_next_icon_pos_bounds(lower, from + 1);
    }
}

/// One of the six forms of an icon `rel`, quoted either way, occurs in `s` at `i`:
/// `rel="icon"`, `rel="shortcut icon"`, `rel="apple-touch-icon"` and their
/// single-quoted forms.
pub open spec fn icon_rel_at(s: Seq<char>, i: int) -> bool {
    ||| text::matches_at(s, "rel=\"icon\""@, i)
    ||| text::matches_at(s, "rel='icon'"@, i)
    ||| text::matches_at(s, "rel=\"shortcut icon\""@, i)
    ||| text::matches_at(s, "rel='shortcut icon'"@, i)
    ||| text::matches_at(s, "rel=\"apple-touch-icon\""@, i)
    ||| text::matches_at(s, "rel='apple-touch-icon'"@, i)
}

proof fn lemma_pattern_is_rel(s: Seq<char>, i: int)
    ensures
        pattern_from(s, i, 0) <==> icon_rel_at(s, i),
{
    reveal_with_fuel(pattern_from, 7);
}

/// The icon scan stops exactly at icon `rel`s: the position it finds from `from` on
/// holds one of the six forms, none of them occurs between `from` and it, and it
/// finds one whenever one occurs at or after `from`.
pub proof fn law_icon_rel_found(lower: Seq<char>, from: int, i: int)
    requires
        0 <= from,
    ensures
        next_icon_pos(lower, from) matches Some(p) ==> from <= p && icon_rel_at(lower, p),
        next_icon_pos(lower, from) matches Some(p) ==> forall|j: int|
            from <= j < p ==> !icon_rel_at(lower, j),
        from <= i && icon_rel_at(lower, i) ==> (next_icon_pos(lower, from) matches Some(p) && p <= i),
    decreases lower.len() - from,
{
    if from >= lower.len() {
        reveal_strlit("rel=\"icon\"");
        reveal_strlit("rel='icon'");
        reveal_strlit("rel=\"shortcut icon\"");
        reveal_strlit("rel='shortcut icon'");
        reveal_strlit("rel=\"apple-touch-icon\"");
        reveal_strlit("rel='apple-touch-icon'");
    } else {
        lemma_pattern_is_rel(lower, from);
        if !pattern_from(lower, from, 0) {
            law_icon_rel_found(lower, from + 1, i);
            if from <= i && icon_rel_at(lower, i) {
                assert(i != from);
            }
        }
    }
}

fn pattern_at_exec(lower: &Vec<char>, pats: &Vec<Vec<char>>, i: usize) -> (r: bool)
    requires
        pats@.len() == 6,
        forall|k: int| 0 <= k < 6 ==> (#[trigger] pats@[k])@ == icon_pattern(k),
    ensures
        r == pattern_from(lower@, i as int, 0),
{
    let mut k: usize = 0;
    while k < 6
        invariant
            k <= 6,
            pats@.len() == 6,
            forall|j: int| 0 <= j < 6 ==> (#[trigger] pats@[j])@ == icon_pattern(j),
            pattern_from(lower@, i as int, 0) == pattern_from(lower@, i as int, k as int),
        decreases 6 - k,
    {
        if matches_at_exec(lower, &pats[k], i) {
            return true;
        }
        k = k + 1;
    }
    false
}

fn next_icon_pos_exec(lower: &Vec<char>, pats: &Vec<Vec<char>>, from: usize) -> (r: Option<usize>)
    requires
        pats@.len() == 6,
        forall|k: int| 0 <= k < 6 ==> (#[trigger] pats@[k])@ == icon_pattern(k),
    ensures
        match r {
            Some(p) => next_icon_pos(lower@, from as int) == Some(p as int),
            None => next_icon_pos(lower@, from as int) is None,
        },
{
    let mut i = from;
    while i < lower.len()
        invariant
            from <= i,
            pats@.len() == 6,
            forall|k: int| 0 <= k < 6 ==> (#[trigger] pats@[k])@ == icon_pattern(k),
            next_icon_pos(lower@, from as int) == next_icon_pos(lower@, i as int),
        decreases lower@.len() - i,
    {
        if pattern_at_exec(lower, pats, i) {
            return Some(i);
        }
        i = i + 1;
    }
    None
}

fn icon_patterns() -> (r: Vec<Vec<char>>)
    ensures
        r@.len() == 6,
        forall|k: int| 0 <= k < 6 ==> (#[trigger] r@[k])@ == icon_pattern(k),
{
    let mut r: Vec<Vec<char>> = Vec::new();
    r.push(chars_of("rel=\"icon\""));
    r.push(chars_of("rel=\"shortcut icon\""));
    r.push(chars_of("rel='icon'"));
    r.push(chars_of("rel='shortcut icon'"));
    r.push(chars_of("rel=\"apple-touch-icon\""));
    r.push(chars_of("rel='apple-touch-icon'"));
    r
}

/// The favicon links declared in `html` (`<link rel="icon" ...>`, `shortcut icon`,
/// `apple-touch-icon`, quoted either way), resolved against `base_url`:
/// raster images first, SVG images last.
pub fn find_icon_links(html: &str, base_url: &str) -> (r: Vec<String>)
    ensures
        text::views(r@) == icon_links(html@, base_url@),
{
    let h = chars_of(html);
    let base = chars_of(base_url);
    let lower = ascii_fold_exec(&h);
    let pats = icon_patterns();
    let href_attr = chars_of("href");
    let type_attr = chars_of("type");
    let svg_ext = chars_of(".svg");
    let svg_type = chars_of("image/svg+xml");
    let mut raster: Vec<String> = Vec::new();
    let mut svg: Vec<String> = Vec::new();
    let mut search_from: usize = 0;
    loop
        invariant
            h@ == html@,
            base@ == base_url@,
            lower@ == text::ascii_fold(h@),
            pats@.len() == 6,
            forall|k: int| 0 <= k < 6 ==> (#[trigger] pats@[k])@ == icon_pattern(k),
            href_attr@ == "href"@,
            type_attr@ == "type"@,
            svg_ext@ == ".svg"@,
            svg_type@ == "image/svg+xml"@,
            search_from <= h@.len(),
            text::views(raster@) + icon_scan(h@, base@, search_from as int).0 == icon_scan(
                h@,
                base@,
                0,
            ).0,
            text::views(svg@) + icon_scan(h@, base@, search_from as int).1 == icon_scan(
                h@,
                base@,
                0,
            ).1,
        ensures
            text::views(raster@) == icon_scan(h@, base@, 0).0,
            text::views(svg@) == icon_scan(h@, base@, 0).1,
        decreases h@.len() + 1 - search_from,
    {
        let pos = match next_icon_pos_exec(&lower, &pats, search_from) {
            Some(p) => p,
            None => {
                assert(icon_scan(h@, base@, search_from as int).0 == Seq::<Seq<char>>::empty());
                assert(icon_scan(h@, base@, search_from as int).1 == Seq::<Seq<char>>::empty());
                assert(text::views(raster@) =~= text::views(raster@) + Seq::<Seq<char>>::empty());
                assert(text::views(svg@) =~= text::views(svg@) + Seq::<Seq<char>>::empty());
                break;
            },
        };
        proof {
            lemma_next_icon_pos_bounds(lower@, search_from as int);
        }
        let start = match rfind_before_exec(&lower, '<', pos) {
            Some(k) => k,
            None => 0,
        };
        proof {
            text::lemma_rfind_before_bounds(lower@, '<', pos as int);
        }
        let gt = vec!['>'];
        assert(gt@ =~= seq!['>']);
        let end = match find_from_exec(&lower, &gt, pos) {
            Some(e) => {
                proof {
                    text::lemma_find_from_bounds(lower@, gt@, pos as int);
                }
                assert(e < h.len());
                e + 1
            },
            None => h.len(),
        };
        assert(start == tag_start(lower@, pos as int));
        assert(end == tag_end(lower@, pos as int));
        let tag = slice_chars(&h, start, end);
        let tag_lower = ascii_fold_exec(&tag);
        let next = if end > pos + 1 {
            end
        } else {
            pos + 1
        };
        let ghost rest = icon_scan(h@, base@, next as int);
        assert(icon_scan(h@, base@, search_from as int) == match attr_value(tag@, "href"@) {
            None => rest,
            Some(href) => {
                let link = resolved_url(href, base@);
                if is_svg_link(href, tag@) {
                    (rest.0, seq![link] + rest.1)
                } else {
                    (seq![link] + rest.0, rest.1)
                }
            },
        });
        match attr_value_chars(&tag, &tag_lower, &href_attr) {
            Some(href) => {
                let resolved = string_of(&resolve_chars(&href, &base));
                let href_lower = ascii_fold_exec(&href);
                let is_svg = ends_with_exec(&href_lower, &svg_ext) || match attr_value_chars(
                    &tag,
                    &tag_lower,
                    &type_attr,
                ) {
                    Some(t) => chars_eq(&t, &svg_type),
                    None => false,
                };
                assert(is_svg == is_svg_link(href@, tag@));
                if is_svg {
                    let ghost old_svg = svg@;
                    svg.push(resolved);
                    assert(text::views(svg@) =~= text::views(old_svg) + seq![resolved@]);
                    assert(text::views(svg@) + rest.1 =~= text::views(old_svg) + (seq![resolved@]
                        + rest.1));
                } else {
                    let ghost old_raster = raster@;
                    raster.push(resolved);
                    assert(text::views(raster@) =~= text::views(old_raster) + seq![resolved@]);
                    assert(text::views(raster@) + rest.0 =~= text::views(old_raster) + (seq![
                        resolved@,
                    ] + rest.0));
                }
            },
            None => {},
        }
        search_from = next;
    }
    let ghost rv = raster@;
    let ghost sv = svg@;
    raster.append(&mut svg);
    assert(text::views(raster@) =~= text::views(rv) + text::views(sv));
    assert(h@ == html@ && base@ == base_url@);
    raster
}

} // verus!

verus! {

/// The domain under which a bookmark's favicon is fetched; the empty string when
/// the bookmark has no URL or its URL has no `http`/`https` host.
pub open spec fn domain_key(n: Node) -> Seq<char> {
    match n.url {
        Some(u) => match domain_of(u@) {
            Some(d) => d,
            None => seq![],
        },
        None => seq![],
    }
}

/// The first group, from `g` on, whose first bookmark has domain `key`.
pub open spec fn group_index(groups: Seq<(Node, Seq<i64>)>, key: Seq<char>, g: int) -> Option<int>
    decreases groups.len() - g,
{
    if g < 0 || g >= groups.len() {
        None
    } else if domain_key(groups[g].0) == key {
        Some(g)
    } else {
        group_index(groups, key, g + 1)
    }
}

/// Adds bookmark `n` to the groups: its id joins the group of its domain, or it
/// opens a new group of its own at the end.
pub open spec fn add_to_groups(groups: Seq<(Node, Seq<i64>)>, n: Node) -> Seq<(Node, Seq<i64>)> {
    match group_index(groups, domain_key(n), 0) {
        Some(g) => groups.update(g, (groups[g].0, groups[g].1.push(n.id))),
        None => groups.push((n, seq![n.id])),
    }
}

/// The bookmarks grouped by domain, in order of first appearance; each group holds
/// the first bookmark of its domain and the ids of all bookmarks of that domain.
pub open spec fn domain_groups(nodes: Seq<Node>) -> Seq<(Node, Seq<i64>)>
    decreases nodes.len(),
{
    if nodes.len() == 0 {
        seq![]
    } else {
        add_to_groups(domain_groups(nodes.drop_last()), nodes.last())
    }
}

/// The groups with their id lists viewed as sequences.
pub open spec fn groups_view(r: Seq<(Node, Vec<i64>)>) -> Seq<(Node, Seq<i64>)> {
    r.map_values(|p: (Node, Vec<i64>)| (p.0, p.1@))
}

/// For a bookmark whose host is ASCII, the domain is that host with its ASCII
/// letters lower-cased.
pub open spec fn ascii_key_known(n: Node) -> bool {
    match n.url {
        Some(u) => match raw_domain(u@) {
            Some(h) => text::is_ascii(h) ==> domain_key(n) == text::ascii_fold(h),
            None => true,
        },
        None => true,
    }
}

fn domain_key_exec(n: &Node) -> (r: String)
    ensures
        r@ == domain_key(*n),
        ascii_key_known(*n),
{
    match &n.url {
        Some(u) => match extract_domain(u.as_str()) {
            Some(d) => d,
            None => String::new(),
        },
        None => String::new(),
    }
}

/// One favicon fetch per domain: the bookmarks grouped by domain, in order of first
/// appearance, each group with its first bookmark and the ids of all its bookmarks.
pub fn dedup_by_domain(nodes: Vec<Node>) -> (r: Vec<(Node, Vec<i64>)>)
    ensures
        groups_view(r@) == domain_groups(nodes@),
        forall|i: int| 0 <= i < nodes@.len() ==> ascii_key_known(#[trigger] nodes@[i]),
{
    let ghost all = nodes@;
    let mut keys: Vec<String> = Vec::new();
    let mut result: Vec<(Node, Vec<i64>)> = Vec::new();
    for node in it: nodes
        invariant
            it.seq() == all,
            keys@.len() == result@.len(),
            forall|g: int| 0 <= g < keys@.len() ==> (#[trigger] keys@[g])@ == domain_key(result@[g].0),
            groups_view(result@) == domain_groups(all.take(it.index())),
            forall|k: int| 0 <= k < it.index() ==> ascii_key_known(#[trigger] all[k]),
    {
        let ghost before = groups_view(result@);
        let ghost done = all.take(it.index());
        assert(all.take(it.index() + 1).drop_last() =~= done);
        assert(all.take(it.index() + 1).last() == node);
        let key = domain_key_exec(&node);
        let mut g: usize = 0;
        while g < keys.len() && !(keys[g] == key)
            invariant
                g <= keys@.len(),
                keys@.len() == result@.len(),
                forall|j: int| 0 <= j < keys@.len() ==> (#[trigger] keys@[j])@ == domain_key(result@[j].0),
                before == groups_view(result@),
                group_index(before, key@, 0) == group_index(before, key@, g as int),
            decreases keys@.len() - g,
        {
            g = g + 1;
        }
        let found: Option<usize> = if g < keys.len() {
            Some(g)
        } else {
            None
        };
        assert(found matches Some(k) ==> group_index(before, key@, 0) == Some(k as int)) by {
            if found is Some {
                assert(domain_key(before[g as int].0) == key@);
            }
        }
        match found {
            Some(k) => {
                result[k].1.push(node.id);
                assert(groups_view(result@) =~= before.update(
                    k as int,
                    (before[k as int].0, before[k as int].1.push(node.id)),
                ));
            },
            None => {
                assert(group_index(before, key@, 0) is None);
                let id = node.id;
                let ghost n = node;
                let ids = vec![id];
                assert(ids@ =~= seq![id]);
                result.push((node, ids));
                keys.push(key);
                assert(groups_view(result@) =~= before.push((n, seq![id])));
            },
        }
    }
    assert(all.take(all.len() as int) =~= all);
    result
}

} // verus!

verus! {

/// A sanitized domain is a safe file name of the same length: only ASCII letters,
/// digits, `.`, `-` and `_`; and sanitizing it again changes nothing.
pub proof fn law_sanitized_is_safe(d: Seq<char>)
    ensures
        sanitized(d).len() == d.len(),
        forall|i: int| 0 <= i < d.len() ==> file_safe(#[trigger] sanitized(d)[i]) || sanitized(d)[i] == '_',
        sanitized(sanitized(d)) == sanitized(d),
{
    assert(sanitized(sanitized(d)) =~= sanitized(d));
}

/// The groups of `domain_groups` have distinct domains: one fetch per domain.
pub proof fn law_one_group_per_domain(nodes: Seq<Node>)
    ensures
        forall|g: int, h: int|
            0 <= g < h < domain_groups(nodes).len() ==> domain_key(#[trigger] domain_groups(nodes)[g].0)
                != domain_key(#[trigger] domain_groups(nodes)[h].0),
    decreases nodes.len(),
{
    if nodes.len() > 0 {
        let prev = domain_groups(nodes.drop_last());
        law_one_group_per_domain(nodes.drop_last());
        let n = nodes.last();
        lemma_group_index(prev, domain_key(n), 0);
    }
}

/// Every bookmark's id is in the group of its domain.
pub proof fn law_every_id_grouped(nodes: Seq<Node>, i: int)
    requires
        0 <= i < nodes.len(),
    ensures
        exists|g: int|
            0 <= g < domain_groups(nodes).len() && domain_key(#[trigger] domain_groups(nodes)[g].0)
                == domain_key(nodes[i]) && domain_groups(nodes)[g].1.contains(nodes[i].id),
    decreases nodes.len(),
{
    let prev = domain_groups(nodes.drop_last());
    let n = nodes.last();
    lemma_group_index(prev, domain_key(n), 0);
    let cur = domain_groups(nodes);
    assert(nodes.last() == nodes[nodes.len() - 1]);
    if i == nodes.len() - 1 {
        match group_index(prev, domain_key(n), 0) {
            Some(g) => {
                assert(cur[g].1 == prev[g].1.push(n.id));
                let k = prev[g].1.len() as int;
                assert(cur[g].1[k] == nodes[i].id);
                assert(cur[g].1.contains(nodes[i].id));
                assert(domain_key(cur[g].0) == domain_key(nodes[i]));
            },
            None => {
                let g = prev.len() as int;
                assert(cur[g].1 == seq![n.id]);
                assert(cur[g].1[0] == nodes[i].id);
                assert(cur[g].1.contains(nodes[i].id));
                assert(domain_key(cur[g].0) == domain_key(nodes[i]));
            },
        }
    } else {
        assert(nodes.drop_last()[i] == nodes[i]);
        law_every_id_grouped(nodes.drop_last(), i);
        let g = choose|g: int|
            0 <= g < prev.len() && domain_key(#[trigger] prev[g].0) == domain_key(nodes[i])
                && prev[g].1.contains(nodes[i].id);
        let k = choose|k: int| 0 <= k < prev[g].1.len() && prev[g].1[k] == nodes[i].id;
        match group_index(prev, domain_key(n), 0) {
            Some(h) => {
                if h == g {
                    assert(cur[g].1 == prev[g].1.push(n.id));
                    assert(cur[g].1[k] == nodes[i].id);
                } else {
                    assert(cur[g] == prev[g]);
                }
            },
            None => {
                assert(cur[g] == prev[g]);
            },
        }
        assert(cur[g].1.contains(nodes[i].id));
        assert(domain_key(cur[g].0) == domain_key(nodes[i]));
    }
}

proof fn lemma_group_index(groups: Seq<(Node, Seq<i64>)>, key: Seq<char>, g: int)
    requires
        0 <= g,
    ensures
        group_index(groups, key, g) matches Some(k) ==> g <= k < groups.len() && domain_key(
            groups[k].0,
        ) == key,
        group_index(groups, key, g) is None ==> forall|k: int|
            g <= k < groups.len() ==> domain_key(#[trigger] groups[k].0) != key,
    decreases groups.len() - g,
{
    if g < groups.len() && domain_key(groups[g].0) != key {
        lemma_group_index(groups, key, g + 1);
    }
}

} // verus!
