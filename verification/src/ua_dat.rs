//! The `ua.dat` bookmark file: Windows-1251 text, one node per line, nesting by
//! leading tabs, fields separated by tabs.
use vstd::prelude::*;

use crate::text::{self, chars_of, find_from_exec, push_char, slice_chars, string_of};

verus! {

broadcast use vstd::string::group_string_axioms;

/// Windows-1251 bytes `0x80..=0xFF` as Unicode characters.
pub const WIN1251: [char; 128] = [
    '\u{402}', '\u{403}', '\u{201A}', '\u{453}', '\u{201E}', '\u{2026}', '\u{2020}', '\u{2021}',
    '\u{20AC}', '\u{2030}', '\u{409}', '\u{2039}', '\u{40A}', '\u{40C}', '\u{40B}', '\u{40F}',
    '\u{452}', '\u{2018}', '\u{2019}', '\u{201C}', '\u{201D}', '\u{2022}', '\u{2013}', '\u{2014}',
    '\u{0}', '\u{2122}', '\u{459}', '\u{203A}', '\u{45A}', '\u{45C}', '\u{45B}', '\u{45F}',
    '\u{A0}', '\u{40E}', '\u{45E}', '\u{408}', '\u{A4}', '\u{490}', '\u{A6}', '\u{A7}',
    '\u{401}', '\u{A9}', '\u{404}', '\u{AB}', '\u{AC}', '\u{AD}', '\u{AE}', '\u{407}',
    '\u{B0}', '\u{B1}', '\u{406}', '\u{456}', '\u{491}', '\u{B5}', '\u{B6}', '\u{B7}',
    '\u{451}', '\u{2116}', '\u{454}', '\u{BB}', '\u{458}', '\u{405}', '\u{455}', '\u{457}',
    '\u{410}', '\u{411}', '\u{412}', '\u{413}', '\u{414}', '\u{415}', '\u{416}', '\u{417}',
    '\u{418}', '\u{419}', '\u{41A}', '\u{41B}', '\u{41C}', '\u{41D}', '\u{41E}', '\u{41F}',
    '\u{420}', '\u{421}', '\u{422}', '\u{423}', '\u{424}', '\u{425}', '\u{426}', '\u{427}',
    '\u{428}', '\u{429}', '\u{42A}', '\u{42B}', '\u{42C}', '\u{42D}', '\u{42E}', '\u{42F}',
    '\u{430}', '\u{431}', '\u{432}', '\u{433}', '\u{434}', '\u{435}', '\u{436}', '\u{437}',
    '\u{438}', '\u{439}', '\u{43A}', '\u{43B}', '\u{43C}', '\u{43D}', '\u{43E}', '\u{43F}',
    '\u{440}', '\u{441}', '\u{442}', '\u{443}', '\u{444}', '\u{445}', '\u{446}', '\u{447}',
    '\u{448}', '\u{449}', '\u{44A}', '\u{44B}', '\u{44C}', '\u{44D}', '\u{44E}', '\u{44F}',
];

/// The character that a Windows-1251 byte stands for.
pub open spec fn win1251_char(b: u8) -> char {
    if b < 0x80 {
        b as char
    } else {
        WIN1251@[b - 0x80]
    }
}

/// Windows-1251 text decoded byte by byte.
pub open spec fn win1251_text(bytes: Seq<u8>) -> Seq<char> {
    bytes.map_values(|b: u8| win1251_char(b))
}

/// Decodes Windows-1251 bytes.
pub fn decode_win1251(bytes: &[u8]) -> (r: String)
    ensures
        r@ == win1251_text(bytes@),
{
    let mut s = String::new();
    let mut i: usize = 0;
    while i < bytes.len()
        invariant
            i <= bytes@.len(),
            s@ == win1251_text(bytes@.subrange(0, i as int)),
        decreases bytes@.len() - i,
    {
        let b = bytes[i];
        let c = if b < 0x80 {
            b as char
        } else {
            WIN1251[(b - 0x80) as usize]
        };
        push_char(&mut s, c);
        assert(win1251_text(bytes@.subrange(0, i + 1)) =~= win1251_text(bytes@.subrange(0, i as int)).push(
            win1251_char(b),
        ));
        i = i + 1;
    }
    assert(bytes@.subrange(0, bytes@.len() as int) == bytes@);
    s
}

pub open spec fn is_digit(c: char) -> bool {
    '0' <= c && c <= '9'
}

/// A `ua.dat` date `DDMMYYHHMMSS` (twelve ASCII digits) written as
/// `20YY-MM-DD HH:MM:SS`; `None` for anything else.
pub open spec fn ua_date(s: Seq<char>) -> Option<Seq<char>> {
    if s.len() == 12 && forall|i: int| 0 <= i < 12 ==> is_digit(#[trigger] s[i]) {
        Some(
            seq!['2', '0'] + s.subrange(4, 6) + seq!['-'] + s.subrange(2, 4) + seq!['-']
                + s.subrange(0, 2) + seq![' '] + s.subrange(6, 8) + seq![':'] + s.subrange(8, 10)
                + seq![':'] + s.subrange(10, 12),
        )
    } else {
        None
    }
}

fn push_range(r: &mut Vec<char>, v: &Vec<char>, from: usize, to: usize)
    requires
        from <= to <= v@.len(),
    ensures
        final(r)@ == old(r)@ + v@.subrange(from as int, to as int),
{
    let part = slice_chars(v, from, to);
    crate::text::push_all(r, &part);
}

fn ua_date_chars(v: &Vec<char>) -> (r: Option<Vec<char>>)
    ensures
        match r {
            Some(d) => ua_date(v@) == Some(d@),
            None => ua_date(v@) is None,
        },
{
    if v.len() != 12 {
        return None;
    }
    let mut i: usize = 0;
    while i < 12
        invariant
            v@.len() == 12,
            i <= 12,
            forall|j: int| 0 <= j < i ==> is_digit(#[trigger] v@[j]),
        decreases 12 - i,
    {
        if !('0' <= v[i] && v[i] <= '9') {
            return None;
        }
        i = i + 1;
    }
    let mut r: Vec<char> = vec!['2', '0'];
    push_range(&mut r, v, 4, 6);
    r.push('-');
    push_range(&mut r, v, 2, 4);
    r.push('-');
    push_range(&mut r, v, 0, 2);
    r.push(' ');
    push_range(&mut r, v, 6, 8);
    r.push(':');
    push_range(&mut r, v, 8, 10);
    r.push(':');
    push_range(&mut r, v, 10, 12);
    assert(r@ =~= seq!['2', '0'] + v@.subrange(4, 6) + seq!['-'] + v@.subrange(2, 4) + seq!['-']
        + v@.subrange(0, 2) + seq![' '] + v@.subrange(6, 8) + seq![':'] + v@.subrange(8, 10)
        + seq![':'] + v@.subrange(10, 12));
    Some(r)
}

/// Converts a `ua.dat` date `DDMMYYHHMMSS` into `YYYY-MM-DD HH:MM:SS` (years 2000–2099).
pub fn parse_ua_date(s: &str) -> (r: Option<String>)
    ensures
        text::opt_view(r) == ua_date(s@),
{
    let v = chars_of(s);
    match ua_date_chars(&v) {
        Some(d) => Some(string_of(&d)),
        None => None,
    }
}

/// A URL given without scheme gets `http://`; an empty one or one with `://` stays.
pub open spec fn normalized_url(u: Seq<char>) -> Seq<char> {
    if u.len() == 0 || text::find(u, seq![':', '/', '/']) is Some {
        u
    } else {
        seq!['h', 't', 't', 'p', ':', '/', '/'] + u
    }
}

fn normalize_chars(u: &Vec<char>) -> (r: Vec<char>)
    ensures
        r@ == normalized_url(u@),
{
    let sep = vec![':', '/', '/'];
    assert(sep@ =~= seq![':', '/', '/']);
    if u.len() == 0 || find_from_exec(u, &sep, 0).is_some() {
        slice_chars(u, 0, u.len())
    } else {
        let mut r = vec!['h', 't', 't', 'p', ':', '/', '/'];
        crate::text::push_all(&mut r, u);
        r
    }
}

/// Prefixes `http://` to a URL that has no scheme (`www.example.com`).
pub fn normalize_url(u: &str) -> (r: String)
    ensures
        r@ == normalized_url(u@),
{
    let v = chars_of(u);
    string_of(&normalize_chars(&v))
}

} // verus!

verus! {

/// The line without its `\n` and then without its `\r`.
pub open spec fn strip_eol(b: Seq<u8>) -> Seq<u8> {
    let b1 = if b.len() > 0 && b.last() == 10u8 {
        b.drop_last()
    } else {
        b
    };
    if b1.len() > 0 && b1.last() == 13u8 {
        b1.drop_last()
    } else {
        b1
    }
}

/// The number of tab bytes at the start of `b`.
pub open spec fn leading_tabs(b: Seq<u8>) -> nat
    decreases b.len(),
{
    if b.len() > 0 && b[0] == 9u8 {
        1 + leading_tabs(b.skip(1))
    } else {
        0
    }
}

/// The tab-separated fields of `s` from position `i` on.
pub open spec fn split_from(s: Seq<char>, i: int) -> Seq<Seq<char>>
    decreases s.len() + 1 - i,
{
    if i < 0 || i > s.len() {
        seq![]
    } else {
        match text::find_from(s, seq!['\t'], i) {
            None => seq![s.subrange(i, s.len() as int)],
            Some(k) => if i <= k < s.len() {
                seq![s.subrange(i, k)] + split_from(s, k + 1)
            } else {
                seq![]
            },
        }
    }
}

/// The fields joined back into one text with a tab between each two.
pub open spec fn join_tabs(fs: Seq<Seq<char>>) -> Seq<char>
    decreases fs.len(),
{
    if fs.len() == 0 {
        seq![]
    } else if fs.len() == 1 {
        fs[0]
    } else {
        fs[0] + seq!['\t'] + join_tabs(fs.drop_first())
    }
}

/// The number of tabs in `s`.
pub open spec fn tab_count(s: Seq<char>) -> nat
    decreases s.len(),
{
    if s.len() == 0 {
        0
    } else {
        tab_count(s.drop_last()) + if s.last() == '\t' {
            1nat
        } else {
            0nat
        }
    }
}

/// `s` holds no tab.
pub open spec fn tab_free(s: Seq<char>) -> bool {
    forall|j: int| 0 <= j < s.len() ==> s[j] != '\t'
}

proof fn lemma_find_tab(s: Seq<char>, i: int)
    requires
        0 <= i <= s.len(),
    ensures
        match text::find_from(s, seq!['\t'], i) {
            None => forall|j: int| i <= j < s.len() ==> s[j] != '\t',
            Some(k) => i <= k < s.len() && s[k] == '\t' && forall|j: int| i <= j < k ==> s[j] != '\t',
        },
    decreases s.len() - i,
{
    let tab = seq!['\t'];
    assert(tab.len() == 1);
    if i < s.len() {
        assert(s.subrange(i, i + 1) =~= seq![s[i]]);
        if text::matches_at(s, tab, i) {
            assert(s[i] == s.subrange(i, i + 1)[0]);
        } else {
            assert(s[i] != '\t') by {
                if s[i] == '\t' {
                    assert(s.subrange(i, i + 1) =~= tab);
                }
            }
            lemma_find_tab(s, i + 1);
            assert(text::find_from(s, tab, i) == text::find_from(s, tab, i + 1));
        }
    } else {
        assert(text::find_from(s, tab, i) is None);
    }
}

proof fn lemma_tab_count_concat(a: Seq<char>, b: Seq<char>)
    ensures
        tab_count(a + b) == tab_count(a) + tab_count(b),
    decreases b.len(),
{
    if b.len() == 0 {
        assert(a + b =~= a);
    } else {
        assert((a + b).drop_last() =~= a + b.drop_last());
        lemma_tab_count_concat(a, b.drop_last());
    }
}

proof fn lemma_tab_count_free(a: Seq<char>)
    requires
        tab_free(a),
    ensures
        tab_count(a) == 0,
    decreases a.len(),
{
    if a.len() > 0 {
        assert(a.last() == a[a.len() - 1]);
        lemma_tab_count_free(a.drop_last());
    }
}

proof fn lemma_split(s: Seq<char>, i: int)
    requires
        0 <= i <= s.len(),
    ensures
        join_tabs(split_from(s, i)) == s.subrange(i, s.len() as int),
        split_from(s, i).len() == tab_count(s.subrange(i, s.len() as int)) + 1,
        forall|f: int| 0 <= f < split_from(s, i).len() ==> tab_free(#[trigger] split_from(s, i)[f]),
    decreases s.len() - i,
{
    lemma_find_tab(s, i);
    let tail = s.subrange(i, s.len() as int);
    match text::find_from(s, seq!['\t'], i) {
        None => {
            assert forall|j: int| 0 <= j < tail.len() implies tail[j] != '\t' by {
                assert(tail[j] == s[i + j]);
            }
            lemma_tab_count_free(tail);
        },
        Some(k) => {
            lemma_split(s, k + 1);
            let head = s.subrange(i, k);
            let rest = split_from(s, k + 1);
            let fs = split_from(s, i);
            assert(fs == seq![head] + rest);
            assert(fs.drop_first() =~= rest);
            assert(tail =~= head + seq!['\t'] + s.subrange(k + 1, s.len() as int));
            assert forall|j: int| 0 <= j < head.len() implies head[j] != '\t' by {
                assert(head[j] == s[i + j]);
            }
            lemma_tab_count_free(head);
            assert(tab_count(seq!['\t']) == 1) by {
                let t = seq!['\t'];
                assert(t.len() == 1 && t.last() == '\t');
                assert(t.drop_last() =~= Seq::<char>::empty());
                assert(tab_count(t.drop_last()) == 0);
            }
            lemma_tab_count_concat(head + seq!['\t'], s.subrange(k + 1, s.len() as int));
            lemma_tab_count_concat(head, seq!['\t']);
            assert(seq!['\t'].drop_last() =~= Seq::<char>::empty());
            assert forall|f: int| 0 <= f < fs.len() implies tab_free(#[trigger] fs[f]) by {
                if f > 0 {
                    assert(fs[f] == rest[f - 1]);
                }
            }
        },
    }
}

/// The fields of a line are positional, as `str::split('\t')` gives them: no field
/// holds a tab, joining them with tabs gives back the text (so empty fields are
/// kept in their places), and there is one field more than there are tabs.
pub proof fn law_fields_positional(s: Seq<char>)
    ensures
        join_tabs(split_from(s, 0)) == s,
        split_from(s, 0).len() == tab_count(s) + 1,
        forall|f: int| 0 <= f < split_from(s, 0).len() ==> tab_free(#[trigger] split_from(s, 0)[f]),
{
    lemma_split(s, 0);
    assert(s.subrange(0, s.len() as int) =~= s);
}

/// `s` with every `^^`, taken left to right, from position `i` on, turned into a line break.
pub open spec fn carets_from(s: Seq<char>, i: int) -> Seq<char>
    decreases s.len() - i,
{
    if i < 0 || i >= s.len() {
        seq![]
    } else if i + 1 < s.len() && s[i] == '^' && s[i + 1] == '^' {
        seq!['\n'] + carets_from(s, i + 2)
    } else {
        seq![s[i]] + carets_from(s, i + 1)
    }
}

/// The line body: line ending removed.
pub open spec fn line_body(line: Seq<u8>) -> Seq<u8> {
    strip_eol(line)
}

/// The nesting depth of a line: its number of leading tabs.
pub open spec fn line_depth(line: Seq<u8>) -> nat {
    leading_tabs(line_body(line))
}

/// The decoded text of a line after its leading tabs.
pub open spec fn line_text(line: Seq<u8>) -> Seq<char> {
    win1251_text(line_body(line).skip(line_depth(line) as int))
}

/// Field `i` of a line (0 = title, 1 = URL or `#`, 2 = thumbnail, 3 = note,
/// 4 = created, 5 = visited); empty when the line has fewer fields.
pub open spec fn line_field(line: Seq<u8>, i: int) -> Seq<char> {
    let fs = split_from(line_text(line), 0);
    if 0 <= i < fs.len() {
        fs[i]
    } else {
        seq![]
    }
}

/// A line gives a node when it is neither empty nor all tabs and its title is not empty.
pub open spec fn line_accepted(line: Seq<u8>) -> bool {
    line_body(line).len() > 0 && line_depth(line) < line_body(line).len() && line_field(line, 0).len()
        > 0
}

/// A line whose second field is `#` is a folder.
pub open spec fn line_is_folder(line: Seq<u8>) -> bool {
    line_field(line, 1) == seq!['#']
}

/// The URL of a bookmark line (no scheme gets `http://`); none for folders and empty fields.
pub open spec fn line_url(line: Seq<u8>) -> Option<Seq<char>> {
    if line_is_folder(line) || line_field(line, 1).len() == 0 {
        None
    } else {
        Some(normalized_url(line_field(line, 1)))
    }
}

/// A field that is kept when not empty.
pub open spec fn non_empty(s: Seq<char>) -> Option<Seq<char>> {
    if s.len() > 0 {
        Some(s)
    } else {
        None
    }
}

/// The note of a line, `^^` standing for a line break.
pub open spec fn line_note(line: Seq<u8>) -> Option<Seq<char>> {
    if line_field(line, 3).len() > 0 {
        Some(carets_from(line_field(line, 3), 0))
    } else {
        None
    }
}

/// A date field of a line, converted; none when empty or malformed.
pub open spec fn line_date(line: Seq<u8>, i: int) -> Option<Seq<char>> {
    if line_field(line, i).len() > 0 {
        ua_date(line_field(line, i))
    } else {
        None
    }
}

/// One node read from a `ua.dat` line.
pub struct UaRecord {
    /// Number of leading tabs: the nesting depth.
    pub depth: usize,
    pub is_folder: bool,
    pub title: String,
    pub url: Option<String>,
    pub thumb: Option<String>,
    pub note: Option<String>,
    /// `YYYY-MM-DD HH:MM:SS`.
    pub created: Option<String>,
    /// `YYYY-MM-DD HH:MM:SS`.
    pub visited: Option<String>,
}

impl UaRecord {
    /// The record is what `line` says.
    pub open spec fn reads(self, line: Seq<u8>) -> bool {
        &&& self.depth == line_depth(line)
        &&& self.is_folder == line_is_folder(line)
        &&& self.title@ == line_field(line, 0)
        &&& text::opt_view(self.url) == line_url(line)
        &&& text::opt_view(self.thumb) == non_empty(line_field(line, 2))
        &&& text::opt_view(self.note) == line_note(line)
        &&& text::opt_view(self.created) == line_date(line, 4)
        &&& text::opt_view(self.visited) == line_date(line, 5)
    }

    /// `"folder"` or `"bookmark"`.
    pub fn kind(&self) -> (r: &'static str)
        ensures
            r@ == (if self.is_folder {
                "folder"@
            } else {
                "bookmark"@
            }),
    {
        if self.is_folder {
            "folder"
        } else {
            "bookmark"
        }
    }
}

fn split_tabs_exec(s: &Vec<char>) -> (r: Vec<Vec<char>>)
    ensures
        r@.len() == split_from(s@, 0).len(),
        forall|k: int| 0 <= k < r@.len() ==> (#[trigger] r@[k])@ == split_from(s@, 0)[k],
{
    let tab = vec!['\t'];
    assert(tab@ =~= seq!['\t']);
    let mut r: Vec<Vec<char>> = Vec::new();
    let mut start: usize = 0;
    let ghost mut done: Seq<Seq<char>> = seq![];
    loop
        invariant_except_break
            done + split_from(s@, start as int) == split_from(s@, 0),
        invariant
            tab@ == seq!['\t'],
            start <= s@.len(),
            done.len() == r@.len(),
            forall|k: int| 0 <= k < r@.len() ==> (#[trigger] r@[k])@ == done[k],
        ensures
            done == split_from(s@, 0),
            done.len() == r@.len(),
            forall|k: int| 0 <= k < r@.len() ==> (#[trigger] r@[k])@ == done[k],
        decreases s@.len() + 1 - start,
    {
        match find_from_exec(s, &tab, start) {
            None => {
                let part = slice_chars(s, start, s.len());
                proof {
                    assert(split_from(s@, start as int) == seq![part@]);
                    assert(done + seq![part@] =~= done.push(part@));
                    done = done.push(part@);
                }
                r.push(part);
                break;
            },
            Some(k) => {
                proof {
                    text::lemma_find_from_bounds(s@, tab@, start as int);
                }
                let n = s.len();
                assert(k < n);
                let part = slice_chars(s, start, k);
                proof {
                    assert(split_from(s@, start as int) == seq![part@] + split_from(s@, k + 1));
                    assert(done + split_from(s@, start as int) =~= done.push(part@) + split_from(
                        s@,
                        k + 1,
                    ));
                    done = done.push(part@);
                }
                r.push(part);
                start = k + 1;
            },
        }
    }
    r
}

fn carets_exec(s: &Vec<char>) -> (r: Vec<char>)
    ensures
        r@ == carets_from(s@, 0),
{
    let mut r: Vec<char> = Vec::new();
    let mut i: usize = 0;
    while i < s.len()
        invariant
            i <= s@.len() + 1,
            r@ + carets_from(s@, i as int) == carets_from(s@, 0),
        decreases s@.len() - i,
    {
        if i + 1 < s.len() && s[i] == '^' && s[i + 1] == '^' {
            assert(r@.push('\n') + carets_from(s@, i + 2) =~= r@ + carets_from(s@, i as int));
            r.push('\n');
            i = i + 2;
        } else {
            assert(r@.push(s@[i as int]) + carets_from(s@, i + 1) =~= r@ + carets_from(
                s@,
                i as int,
            ));
            r.push(s[i]);
            i = i + 1;
        }
    }
    assert(r@ + carets_from(s@, i as int) =~= r@);
    r
}

fn field_or_empty(fs: &Vec<Vec<char>>, i: usize) -> (r: Vec<char>)
    ensures
        r@ == (if i < fs@.len() {
            fs@[i as int]@
        } else {
            seq![]
        }),
{
    if i < fs.len() {
        slice_chars(&fs[i], 0, fs[i].len())
    } else {
        Vec::new()
    }
}

fn non_empty_string(v: &Vec<char>) -> (r: Option<String>)
    ensures
        text::opt_view(r) == non_empty(v@),
{
    if v.len() > 0 {
        Some(string_of(v))
    } else {
        None
    }
}

fn date_field(v: &Vec<char>) -> (r: Option<String>)
    ensures
        text::opt_view(r) == (if v@.len() > 0 {
            ua_date(v@)
        } else {
            None
        }),
{
    if v.len() > 0 {
        match ua_date_chars(v) {
            Some(d) => Some(string_of(&d)),
            None => None,
        }
    } else {
        None
    }
}

/// Reads one line of a `ua.dat` file, as read up to and including its `\n`.
/// Empty lines, lines made only of tabs and lines with an empty title give `None`.
pub fn parse_ua_line(line: &[u8]) -> (r: Option<UaRecord>)
    ensures
        r is Some <==> line_accepted(line@),
        r matches Some(rec) ==> rec.reads(line@),
{
    let mut end = line.len();
    if end > 0 && line[end - 1] == 10 {
        end = end - 1;
    }
    if end > 0 && line[end - 1] == 13 {
        end = end - 1;
    }
    let ghost body = line_body(line@);
    assert(body =~= line@.subrange(0, end as int));
    if end == 0 {
        return None;
    }
    let mut depth: usize = 0;
    assert(body.skip(0) =~= body);
    while depth < end && line[depth] == 9
        invariant
            depth <= end <= line@.len(),
            body == line@.subrange(0, end as int),
            leading_tabs(body) == depth + leading_tabs(body.skip(depth as int)),
        decreases end - depth,
    {
        assert(body.skip(depth as int).skip(1) =~= body.skip(depth + 1));
        depth = depth + 1;
    }
    assert(leading_tabs(body.skip(depth as int)) == 0);
    if depth == end {
        return None;
    }
    let content = crate::text::slice_bytes(line, depth, end);
    assert(content@ =~= body.skip(depth as int));
    let text_v = chars_of(decode_win1251(content.as_slice()).as_str());
    let fs = split_tabs_exec(&text_v);
    let title = field_or_empty(&fs, 0);
    if title.len() == 0 {
        return None;
    }
    let f1 = field_or_empty(&fs, 1);
    let hash = vec!['#'];
    assert(hash@ =~= seq!['#']);
    let is_folder = crate::text::chars_eq(&f1, &hash);
    let url = if is_folder || f1.len() == 0 {
        None
    } else {
        Some(string_of(&normalize_chars(&f1)))
    };
    let f3 = field_or_empty(&fs, 3);
    let note = if f3.len() > 0 {
        Some(string_of(&carets_exec(&f3)))
    } else {
        None
    };
    Some(
        UaRecord {
            depth,
            is_folder,
            title: string_of(&title),
            url,
            thumb: non_empty_string(&field_or_empty(&fs, 2)),
            note,
            created: date_field(&field_or_empty(&fs, 4)),
            visited: date_field(&field_or_empty(&fs, 5)),
        },
    )
}

} // verus!

verus! {

/// `s` padded with `None` up to length `n`.
pub open spec fn padded(s: Seq<Option<i64>>, n: int) -> Seq<Option<i64>> {
    if s.len() >= n {
        s
    } else {
        s + Seq::new((n - s.len()) as nat, |i: int| None::<i64>)
    }
}

/// The parent stack once node `id` has been stored at depth `depth`: deeper
/// entries are dropped and `id` becomes the parent for depth `depth + 1`.
pub open spec fn after_insert(s: Seq<Option<i64>>, depth: int, id: i64) -> Seq<Option<i64>> {
    let keep = if s.len() > depth + 1 {
        depth + 1
    } else {
        s.len() as int
    };
    s.take(keep).push(Some(id))
}

/// The state of an import: for each depth, the node that new lines at that depth
/// hang under (`None` at the top level), and the number of nodes stored.
pub struct UaImporter {
    parents: Vec<Option<i64>>,
    count: usize,
}

impl UaImporter {
    /// The parent for each depth.
    pub closed spec fn parents(&self) -> Seq<Option<i64>> {
        self.parents@
    }

    /// The number of nodes stored so far.
    pub closed spec fn stored(&self) -> nat {
        self.count as nat
    }

    /// Top-level nodes have no parent.
    pub open spec fn wf(&self) -> bool {
        self.parents().len() >= 1 && self.parents()[0] is None
    }

    /// An import that has stored nothing yet.
    pub fn new() -> (r: Self)
        ensures
            r.parents() == seq![None::<i64>],
            r.stored() == 0,
            r.wf(),
    {
        let mut parents: Vec<Option<i64>> = Vec::new();
        parents.push(None);
        assert(parents@ =~= seq![None::<i64>]);
        UaImporter { parents, count: 0 }
    }

    /// The parent of a node read at `depth`.
    pub fn parent_for(&mut self, depth: usize) -> (p: Option<i64>)
        requires
            depth < usize::MAX,
        ensures
            final(self).parents() == padded(old(self).parents(), depth + 1),
            p == final(self).parents()[depth as int],
            final(self).stored() == old(self).stored(),
            old(self).wf() ==> final(self).wf(),
    {
        let ghost start = self.parents@;
        let ghost stored = self.count;
        while self.parents.len() <= depth
            invariant
                depth < usize::MAX,
                self.count == stored,
                start.len() <= self.parents@.len() <= depth + 1 || start.len() > depth,
                self.parents@ == padded(start, self.parents@.len() as int),
                start.len() > depth ==> self.parents@ == start,
            decreases depth + 1 - self.parents@.len(),
        {
            self.parents.push(None);
            assert(padded(start, self.parents@.len() as int) =~= self.parents@);
        }
        assert(self.parents@ =~= padded(start, depth + 1));
        self.parents[depth]
    }

    /// Records that the node read at `depth` was stored under id `id`.
    pub fn inserted(&mut self, depth: usize, id: i64)
        requires
            old(self).stored() < usize::MAX,
            depth < usize::MAX,
        ensures
            final(self).parents() == after_insert(old(self).parents(), depth as int, id),
            final(self).stored() == old(self).stored() + 1,
            old(self).wf() ==> final(self).wf(),
    {
        self.parents.truncate(depth + 1);
        self.parents.push(Some(id));
        self.count = self.count + 1;
    }

    /// The number of nodes stored so far.
    pub fn count(&self) -> (r: usize)
        ensures
            r == self.stored(),
    {
        self.count
    }
}

/// Reading a node at depth `d` and storing it as `id` makes `id` the parent of the
/// next node read at depth `d + 1`.
pub proof fn law_child_hangs_under_last_node(s: Seq<Option<i64>>, d: int, id: i64)
    requires
        0 <= d,
    ensures
        padded(after_insert(padded(s, d + 1), d, id), d + 2)[d + 1] == Some(id),
{
    let t = padded(s, d + 1);
    assert(t.len() >= d + 1);
    let u = after_insert(t, d, id);
    assert(u.len() == d + 2);
    assert(u[d + 1] == Some(id));
}

/// Reading a node at depth `d` and storing it leaves the parents of the depths up
/// to `d` as they were.
pub proof fn law_shallower_parents_kept(s: Seq<Option<i64>>, d: int, id: i64, e: int)
    requires
        0 <= e <= d,
    ensures
        padded(after_insert(padded(s, d + 1), d, id), e + 1)[e] == padded(s, e + 1)[e],
{
    let t = padded(s, d + 1);
    let u = after_insert(t, d, id);
    assert(u.len() == d + 2);
    assert(u[e] == t[e]);
    if e < s.len() {
        assert(t[e] == s[e]);
    } else {
        assert(t[e] is None);
    }
}

/// Every parent on the stack is `None` or a node stored earlier: padding adds only
/// `None`, and storing adds only the stored id.
pub proof fn law_parents_were_stored(s: Seq<Option<i64>>, d: int, id: i64, n: int, k: int, x: i64)
    requires
        0 <= d,
        0 <= k,
    ensures
        k < padded(s, n).len() && padded(s, n)[k] == Some(x) ==> k < s.len() && s[k] == Some(x),
        k < after_insert(s, d, id).len() && after_insert(s, d, id)[k] == Some(x) ==> x == id || (k
            < s.len() && s[k] == Some(x)),
{
}

} // verus!
