//! Deciding where a bookmark's favicon comes from.
//!
//! The fetch is a state machine: it hands out actions (read the cache, download a
//! URL, store a PNG, finish) and takes back what came of each. The caller performs
//! the downloads and file operations.
use vstd::prelude::*;
use vstd::string::StringExecFns;

use crate::favicon::{self, extract_domain, find_icon_links, is_valid_image, sanitize_domain};
use crate::text::{self, chars_of, slice_chars, trim_bounds, string_of};

verus! {

broadcast use vstd::string::group_string_axioms;

/// What `String::from_utf8_lossy` makes of a byte string.
pub uninterp spec fn utf8_lossy(bytes: Seq<u8>) -> Seq<char>;

/// Decodes bytes as UTF-8 with `String::from_utf8_lossy`; invalid sequences become
/// U+FFFD. Claimed: the text is `utf8_lossy` of the bytes, and valid UTF-8 is
/// decoded as is.
#[verifier::external_body]
fn decode_utf8_lossy(bytes: &[u8]) -> (r: String)
    ensures
        r@ == utf8_lossy(bytes@),
        vstd::utf8::valid_utf8(bytes@) ==> r@ == vstd::utf8::decode_utf8(bytes@),
{
    String::from_utf8_lossy(bytes).into_owned()
}

/// The PNG that `image` makes of an encoded picture, if it can decode it.
pub uninterp spec fn png_reencoding(bytes: Seq<u8>) -> Option<Seq<u8>>;

/// `b` starts with the eight-byte PNG signature `89 50 4E 47 0D 0A 1A 0A`.
pub open spec fn png_signature(b: Seq<u8>) -> bool {
    &&& b.len() >= 8
    &&& b[0] == 0x89u8 && b[1] == 0x50u8 && b[2] == 0x4Eu8 && b[3] == 0x47u8
    &&& b[4] == 0x0Du8 && b[5] == 0x0Au8 && b[6] == 0x1Au8 && b[7] == 0x0Au8
}

/// Decodes a picture of any format that `image` knows (`image::load_from_memory`)
/// and encodes it again as PNG (`DynamicImage::write_to` with `ImageFormat::Png`)
/// into an empty buffer. Claimed: the result is `png_reencoding` of the bytes;
/// `None` when decoding or encoding fails; an encoded PNG begins with the PNG
/// signature, which the `png` encoder writes before anything else.
#[verifier::external_body]
fn reencode_png(bytes: &[u8]) -> (r: Option<Vec<u8>>)
    ensures
        match r {
            Some(v) => png_reencoding(bytes@) == Some(v@),
            None => png_reencoding(bytes@) is None,
        },
        r matches Some(v) ==> png_signature(v@),
{
    let img = match image::load_from_memory(bytes) {
        Ok(img) => img,
        Err(_) => return None,
    };
    let mut out: Vec<u8> = Vec::new();
    match img.write_to(&mut std::io::Cursor::new(&mut out), image::ImageFormat::Png) {
        Ok(()) => Some(out),
        Err(_) => None,
    }
}

/// `b` begins with the four bytes `p0 p1 p2 p3`.
pub open spec fn starts_with4(b: Seq<u8>, p0: u8, p1: u8, p2: u8, p3: u8) -> bool {
    b.len() >= 4 && b[0] == p0 && b[1] == p1 && b[2] == p2 && b[3] == p3
}

/// A downloaded icon as it is stored: re-encoded as PNG. Fewer than four bytes,
/// SVG (`<svg`, `<?xm`), undecodable pictures and empty encodings give `None`.
pub open spec fn prepared_image(b: Seq<u8>) -> Option<Seq<u8>> {
    if b.len() < 4 || starts_with4(b, 0x3C, 0x73, 0x76, 0x67) || starts_with4(
        b,
        0x3C,
        0x3F,
        0x78,
        0x6D,
    ) {
        None
    } else {
        match png_reencoding(b) {
            Some(out) => if out.len() == 0 {
                None
            } else {
                Some(out)
            },
            None => None,
        }
    }
}

/// Turns a downloaded icon into the PNG that is stored; SVG and undecodable
/// data are refused. What is stored begins with the PNG signature, so it passes
/// `is_valid_image` when read back from the cache.
pub fn prepare_image(bytes: Vec<u8>) -> (r: Option<Vec<u8>>)
    ensures
        match r {
            Some(v) => prepared_image(bytes@) == Some(v@),
            None => prepared_image(bytes@) is None,
        },
        r matches Some(v) ==> png_signature(v@) && favicon::is_png(v@),
{
    if bytes.len() < 4 {
        return None;
    }
    if (bytes[0] == 0x3C && bytes[1] == 0x73 && bytes[2] == 0x76 && bytes[3] == 0x67) || (bytes[0]
        == 0x3C && bytes[1] == 0x3F && bytes[2] == 0x78 && bytes[3] == 0x6D) {
        return None;
    }
    match reencode_png(bytes.as_slice()) {
        Some(out) => if out.len() == 0 {
            None
        } else {
            Some(out)
        },
        None => None,
    }
}

/// One place to try: a page whose HTML may name icons, or an icon itself that
/// must be at least `min_len` bytes long.
pub struct Candidate {
    pub url: String,
    pub is_page: bool,
    pub min_len: usize,
}

impl View for Candidate {
    type V = (Seq<char>, bool, usize);

    open spec fn view(&self) -> (Seq<char>, bool, usize) {
        (self.url@, self.is_page, self.min_len)
    }
}

/// The candidates in order, as views.
pub open spec fn cand_views(q: Seq<Candidate>) -> Seq<(Seq<char>, bool, usize)> {
    q.map_values(|c: Candidate| c@)
}

pub open spec fn icon_cand(url: Seq<char>) -> (Seq<char>, bool, usize) {
    (url, false, 0)
}

pub open spec fn page_cand(url: Seq<char>) -> (Seq<char>, bool, usize) {
    (url, true, 0)
}

/// The places tried for a URL `url` with domain `d`, in order:
/// `/favicon.ico` over HTTPS then HTTP; the page itself, then the site root over
/// HTTPS and HTTP, for `<link rel="icon">`; DuckDuckGo's icon service; Google's
/// icon service, whose answers of 68 bytes or fewer are placeholders.
pub open spec fn initial_queue(url: Seq<char>, d: Seq<char>) -> Seq<(Seq<char>, bool, usize)> {
    seq![
        icon_cand("https://"@ + d + "/favicon.ico"@),
        icon_cand("http://"@ + d + "/favicon.ico"@),
        page_cand(url),
        page_cand("https://"@ + d + "/"@),
        page_cand("http://"@ + d + "/"@),
        icon_cand("https://icons.duckduckgo.com/ip3/"@ + d + ".ico"@),
        (("https://www.google.com/s2/favicons?domain="@ + d + "&sz=32"@), false, 69usize),
    ]
}

/// `q` without the pages at its front.
pub open spec fn skip_pages(q: Seq<(Seq<char>, bool, usize)>) -> Seq<(Seq<char>, bool, usize)>
    decreases q.len(),
{
    if q.len() > 0 && q[0].1 {
        skip_pages(q.drop_first())
    } else {
        q
    }
}

/// The queue once page `page_url` has been downloaded as `html`: the icons it
/// names come first; when the page was not empty the other pages are dropped.
pub open spec fn after_page(
    rest: Seq<(Seq<char>, bool, usize)>,
    html: Seq<char>,
    page_url: Seq<char>,
) -> Seq<(Seq<char>, bool, usize)> {
    let links = favicon::icon_links(html, page_url).map_values(|l: Seq<char>| icon_cand(l));
    if html.len() > 0 {
        links + skip_pages(rest)
    } else {
        links + rest
    }
}

/// What the fetch waits for.
#[derive(PartialEq, Eq, Structural, Clone, Copy, Debug)]
pub enum Phase {
    /// The cached file's contents.
    Cache,
    /// The download of the first candidate.
    Fetching,
    /// The result of storing the first candidate's PNG.
    Saving,
    /// Nothing: the fetch is over.
    Done,
}

/// An action for the caller to perform.
pub enum FetchAction {
    /// Read the cached file (the favicon directory joined with the file name).
    ReadCache,
    /// Download `url`. Before it, remove the cached file when `discard_cache`, and
    /// make sure the favicon directory exists when `prepare_dir`.
    Get { url: String, prepare_dir: bool, discard_cache: bool },
    /// Write `png` to the cached file.
    Save { png: Vec<u8> },
    /// The fetch is over: the file name of the stored favicon, or `None`.
    Finish(Option<String>),
}

/// What came of the last action.
pub enum FetchEvent {
    /// The cached file's bytes; `None` when it does not exist or cannot be read.
    Cache(Option<Vec<u8>>),
    /// The downloaded bytes; `None` when the download failed.
    Fetched(Option<Vec<u8>>),
    /// Whether the PNG was written.
    Saved(bool),
}

/// A favicon fetch for one URL.
pub struct FaviconFetch {
    filename: String,
    queue: Vec<Candidate>,
    phase: Phase,
}

impl FaviconFetch {
    /// The cache file name: the sanitized domain and `.png`.
    pub closed spec fn file(&self) -> Seq<char> {
        self.filename@
    }

    /// The places still to try, the first one being tried now.
    pub closed spec fn pending(&self) -> Seq<(Seq<char>, bool, usize)> {
        cand_views(self.queue@)
    }

    /// What the fetch waits for.
    pub closed spec fn stage(&self) -> Phase {
        self.phase
    }

    /// The event answers the action last handed out.
    pub open spec fn awaits(&self, e: FetchEvent) -> bool {
        match e {
            FetchEvent::Cache(_) => self.stage() == Phase::Cache,
            FetchEvent::Fetched(_) => self.stage() == Phase::Fetching && self.pending().len() > 0,
            FetchEvent::Saved(_) => self.stage() == Phase::Saving && self.pending().len() > 0,
        }
    }

    /// While a fetch is running there is a place being tried, and what is being
    /// stored is an icon.
    pub open spec fn wf(&self) -> bool {
        &&& self.stage() != Phase::Done ==> self.pending().len() > 0
        &&& self.stage() == Phase::Saving ==> !self.pending()[0].1
    }

    /// The number of pages still to try.
    pub open spec fn pages_left(q: Seq<(Seq<char>, bool, usize)>) -> nat
        decreases q.len(),
    {
        if q.len() == 0 {
            0
        } else {
            (if q.last().1 {
                1nat
            } else {
                0nat
            }) + Self::pages_left(q.drop_last())
        }
    }

    /// How much work is left, compared lexicographically: the cache step, the
    /// pages to download, then the candidates and a pending save.
    pub open spec fn progress(&self) -> (nat, nat, nat) {
        (
            if self.stage() == Phase::Cache {
                1nat
            } else {
                0nat
            },
            Self::pages_left(self.pending()),
            2 * self.pending().len() + if self.stage() == Phase::Fetching {
                1nat
            } else {
                0nat
            },
        )
    }
}

/// `a` is strictly less than `b`, lexicographically.
pub open spec fn lex_less(a: (nat, nat, nat), b: (nat, nat, nat)) -> bool {
    a.0 < b.0 || (a.0 == b.0 && (a.1 < b.1 || (a.1 == b.1 && a.2 < b.2)))
}

} // verus!

verus! {

/// The fetch moves on to the first place of `q`: it downloads it, or finishes
/// without a favicon when nothing is left.
pub open spec fn moves_on(q: Seq<(Seq<char>, bool, usize)>, m2: FaviconFetch, a: FetchAction) -> bool {
    if q.len() == 0 {
        &&& m2.stage() == Phase::Done
        &&& m2.pending().len() == 0
        &&& a matches FetchAction::Finish(None)
    } else {
        &&& m2.stage() == Phase::Fetching
        &&& m2.pending() == q
        &&& a matches FetchAction::Get { url, prepare_dir, discard_cache }
        &&& url@ == q[0].0 && !prepare_dir && !discard_cache
    }
}

/// The fetch is over with the favicon stored under its file name.
pub open spec fn found(m: FaviconFetch, m2: FaviconFetch, a: FetchAction) -> bool {
    &&& m2.stage() == Phase::Done
    &&& m2.pending().len() == 0
    &&& a matches FetchAction::Finish(Some(f))
    &&& f@ == m.file()
}

/// One step of a fetch: from `m`, event `e` leads to `m2` and action `a`.
pub open spec fn transition(m: FaviconFetch, e: FetchEvent, m2: FaviconFetch, a: FetchAction) -> bool {
    &&& m2.file() == m.file()
    &&& match e {
        FetchEvent::Cache(c) => {
            if c matches Some(b) && favicon::is_png(b@) {
                found(m, m2, a)
            } else {
                &&& m2.stage() == Phase::Fetching
                &&& m2.pending() == m.pending()
                &&& a matches FetchAction::Get { url, prepare_dir, discard_cache }
                &&& url@ == m.pending()[0].0 && prepare_dir && discard_cache == c is Some
            }
        },
        FetchEvent::Fetched(r) => {
            let head = m.pending()[0];
            let rest = m.pending().drop_first();
            if head.1 {
                moves_on(
                    match r {
                        Some(b) => after_page(rest, utf8_lossy(b@), head.0),
                        None => rest,
                    },
                    m2,
                    a,
                )
            } else {
                match r {
                    Some(b) => if b@.len() >= head.2 && prepared_image(b@) is Some {
                        &&& m2.stage() == Phase::Saving
                        &&& m2.pending() == m.pending()
                        &&& a matches FetchAction::Save { png }
                        &&& prepared_image(b@) == Some(png@)
                        &&& png_signature(png@)
                    } else {
                        moves_on(rest, m2, a)
                    },
                    None => moves_on(rest, m2, a),
                }
            }
        },
        FetchEvent::Saved(ok) => {
            if ok {
                found(m, m2, a)
            } else {
                moves_on(m.pending().drop_first(), m2, a)
            }
        },
    }
}

/// A failed download, or a page that came back empty, only passes over the place
/// being tried: every other place, pages among them, is still tried, in order, and the
/// next one is downloaded at once. (Only a downloaded page that is not empty makes
/// the fetch skip the remaining pages.)
pub proof fn law_failed_download_moves_to_next(
    m: FaviconFetch,
    m2: FaviconFetch,
    a: FetchAction,
    b: Option<Vec<u8>>,
)
    requires
        m.pending().len() > 0,
        transition(m, FetchEvent::Fetched(b), m2, a),
        b is None || (m.pending()[0].1 && utf8_lossy(b->0@).len() == 0),
    ensures
        m2.pending() == m.pending().drop_first(),
        m.pending().len() > 1 ==> (a matches FetchAction::Get { url, .. } && url@ == m.pending()[1].0),
        m.pending().len() == 1 ==> (a matches FetchAction::Finish(None)),
{
    let rest = m.pending().drop_first();
    if m.pending()[0].1 {
        if let Some(v) = b {
            let html = utf8_lossy(v@);
            let lower = text::ascii_fold(html);
            assert(lower =~= Seq::<char>::empty());
            assert(favicon::next_icon_pos(lower, 0) is None);
            assert(favicon::icon_links(html, m.pending()[0].0) =~= Seq::<Seq<char>>::empty());
            assert(after_page(rest, html, m.pending()[0].0) =~= rest);
        }
    }
    if rest.len() == 0 {
        assert(m2.pending() =~= rest);
    }
}

/// A cached file that is a PNG ends the fetch at once with the cache file's name; any
/// other cache read starts the downloads with the first place, creating the favicon
/// directory and removing a cached file that was read but is no PNG. A stored icon
/// ends the fetch with the cache file's name; a failed store moves on to the next place.
pub proof fn law_cache_and_store_outcomes(m: FaviconFetch, e: FetchEvent, m2: FaviconFetch, a: FetchAction)
    requires
        m.pending().len() > 0,
        transition(m, e, m2, a),
    ensures
        e matches FetchEvent::Cache(c) ==> if c matches Some(bytes) && favicon::is_png(bytes@) {
            a matches FetchAction::Finish(Some(f)) && f@ == m.file()
        } else {
            a matches FetchAction::Get { url, prepare_dir, discard_cache } && url@ == m.pending()[0].0
                && prepare_dir && discard_cache == c is Some
        },
        e matches FetchEvent::Saved(ok) ==> if ok {
            a matches FetchAction::Finish(Some(f)) && f@ == m.file()
        } else {
            m2.pending() == m.pending().drop_first()
        },
        m2.file() == m.file(),
{
    if let FetchEvent::Saved(ok) = e {
        if !ok && m.pending().len() == 1 {
            assert(m2.pending() =~= m.pending().drop_first());
        }
    }
}

proof fn lemma_pages_concat(a: Seq<(Seq<char>, bool, usize)>, b: Seq<(Seq<char>, bool, usize)>)
    ensures
        FaviconFetch::pages_left(a + b) == FaviconFetch::pages_left(a) + FaviconFetch::pages_left(b),
    decreases b.len(),
{
    if b.len() == 0 {
        assert(a + b =~= a);
    } else {
        assert((a + b).drop_last() =~= a + b.drop_last());
        lemma_pages_concat(a, b.drop_last());
    }
}

proof fn lemma_pages_first(q: Seq<(Seq<char>, bool, usize)>)
    requires
        q.len() > 0,
    ensures
        FaviconFetch::pages_left(q) == (if q[0].1 {
            1nat
        } else {
            0nat
        }) + FaviconFetch::pages_left(q.drop_first()),
{
    assert(q =~= seq![q[0]] + q.drop_first());
    lemma_pages_concat(seq![q[0]], q.drop_first());
    let one = seq![q[0]];
    assert(one.drop_last() =~= Seq::<(Seq<char>, bool, usize)>::empty());
    assert(FaviconFetch::pages_left(one.drop_last()) == 0);
    assert(one.last() == q[0]);
    assert(FaviconFetch::pages_left(one) == (if q[0].1 {
        1nat
    } else {
        0nat
    }));
}

proof fn lemma_no_pages(l: Seq<Seq<char>>)
    ensures
        FaviconFetch::pages_left(l.map_values(|u: Seq<char>| icon_cand(u))) == 0,
    decreases l.len(),
{
    if l.len() > 0 {
        assert(l.map_values(|u: Seq<char>| icon_cand(u)).drop_last() =~= l.drop_last().map_values(
            |u: Seq<char>| icon_cand(u),
        ));
        lemma_no_pages(l.drop_last());
    }
}

proof fn lemma_skip_pages(q: Seq<(Seq<char>, bool, usize)>)
    ensures
        FaviconFetch::pages_left(skip_pages(q)) <= FaviconFetch::pages_left(q),
    decreases q.len(),
{
    if q.len() > 0 && q[0].1 {
        lemma_pages_first(q);
        lemma_skip_pages(q.drop_first());
    }
}

proof fn lemma_after_page(rest: Seq<(Seq<char>, bool, usize)>, html: Seq<char>, page_url: Seq<char>)
    ensures
        FaviconFetch::pages_left(after_page(rest, html, page_url)) <= FaviconFetch::pages_left(rest),
{
    let links = favicon::icon_links(html, page_url).map_values(|l: Seq<char>| icon_cand(l));
    lemma_no_pages(favicon::icon_links(html, page_url));
    lemma_skip_pages(rest);
    lemma_pages_concat(links, skip_pages(rest));
    lemma_pages_concat(links, rest);
}

fn candidate(url: String, is_page: bool, min_len: usize) -> (c: Candidate)
    ensures
        c@ == (url@, is_page, min_len),
{
    Candidate { url, is_page, min_len }
}

fn joined(a: &str, b: &str, c: &str) -> (r: String)
    ensures
        r@ == a@ + b@ + c@,
{
    let mut r = String::from_str(a);
    r.append(b);
    r.append(c);
    r
}

impl FaviconFetch {
    /// Starts fetching the favicon of `url`; `None` when `url` (trimmed) is not an
    /// `http`/`https` URL with a host. The first action reads the cache.
    pub fn start(url: &str) -> (r: Option<(FaviconFetch, FetchAction)>)
        ensures
            r is Some <==> favicon::domain_of(text::trim(url@)) is Some,
            r matches Some((m, a)) ==> {
                let d = favicon::domain_of(text::trim(url@))->0;
                &&& m.stage() == Phase::Cache
                &&& m.pending() == initial_queue(text::trim(url@), d)
                &&& m.file() == favicon::sanitized(d) + ".png"@
                &&& a is ReadCache
                &&& m.wf()
            },
    {
        let v = chars_of(url);
        let (lo, hi) = trim_bounds(&v);
        let t = string_of(&slice_chars(&v, lo, hi));
        let domain = match extract_domain(t.as_str()) {
            Some(d) => d,
            None => return None,
        };
        let d = domain.as_str();
        let mut filename = sanitize_domain(d);
        filename.append(".png");
        let mut queue: Vec<Candidate> = Vec::new();
        queue.push(candidate(joined("https://", d, "/favicon.ico"), false, 0));
        queue.push(candidate(joined("http://", d, "/favicon.ico"), false, 0));
        queue.push(candidate(t, true, 0));
        queue.push(candidate(joined("https://", d, "/"), true, 0));
        queue.push(candidate(joined("http://", d, "/"), true, 0));
        queue.push(candidate(joined("https://icons.duckduckgo.com/ip3/", d, ".ico"), false, 0));
        queue.push(
            candidate(joined("https://www.google.com/s2/favicons?domain=", d, "&sz=32"), false, 69),
        );
        let m = FaviconFetch { filename, queue, phase: Phase::Cache };
        assert(m.pending() =~= initial_queue(text::trim(url@), domain@));
        Some((m, FetchAction::ReadCache))
    }

    /// The name of the cache file: the sanitized domain and `.png`.
    pub fn filename(&self) -> (r: String)
        ensures
            r@ == self.file(),
    {
        self.filename.clone()
    }

    /// What the fetch waits for.
    pub fn phase(&self) -> (r: Phase)
        ensures
            r == self.stage(),
    {
        self.phase
    }

    fn finish_found(&mut self) -> (a: FetchAction)
        ensures
            found(*old(self), *final(self), a),
            final(self).file() == old(self).file(),
    {
        self.phase = Phase::Done;
        self.queue = Vec::new();
        assert(self.pending() =~= Seq::<(Seq<char>, bool, usize)>::empty());
        FetchAction::Finish(Some(self.filename.clone()))
    }

    fn move_on(&mut self) -> (a: FetchAction)
        ensures
            moves_on(old(self).pending(), *final(self), a),
            final(self).file() == old(self).file(),
    {
        if self.queue.len() == 0 {
            self.phase = Phase::Done;
            FetchAction::Finish(None)
        } else {
            self.phase = Phase::Fetching;
            FetchAction::Get { url: self.queue[0].url.clone(), prepare_dir: false, discard_cache: false }
        }
    }

    fn drop_first(&mut self)
        requires
            old(self).pending().len() > 0,
        ensures
            final(self).pending() == old(self).pending().drop_first(),
            final(self).file() == old(self).file(),
            final(self).stage() == old(self).stage(),
    {
        let _ = self.queue.remove(0);
        assert(self.pending() =~= old(self).pending().drop_first());
    }
}

impl FaviconFetch {
    fn skip_front_pages(&mut self)
        ensures
            final(self).pending() == skip_pages(old(self).pending()),
            final(self).file() == old(self).file(),
            final(self).stage() == old(self).stage(),
    {
        while self.queue.len() > 0 && self.queue[0].is_page
            invariant
                skip_pages(self.pending()) == skip_pages(old(self).pending()),
                self.file() == old(self).file(),
                self.stage() == old(self).stage(),
            decreases self.pending().len(),
        {
            self.drop_first();
        }
    }

    /// Takes what came of the last action and hands out the next one.
    pub fn step(&mut self, e: FetchEvent) -> (a: FetchAction)
        requires
            old(self).wf(),
            old(self).awaits(e),
        ensures
            final(self).wf(),
            transition(*old(self), e, *final(self), a),
            lex_less(final(self).progress(), old(self).progress()),
    {
        let ghost q0 = self.pending();
        match e {
            FetchEvent::Cache(c) => {
                let discard = c.is_some();
                let valid = match &c {
                    Some(b) => is_valid_image(b.as_slice()),
                    None => false,
                };
                if valid {
                    self.finish_found()
                } else {
                    self.phase = Phase::Fetching;
                    FetchAction::Get {
                        url: self.queue[0].url.clone(),
                        prepare_dir: true,
                        discard_cache: discard,
                    }
                }
            },
            FetchEvent::Fetched(r) => {
                if self.queue[0].is_page {
                    let page_url = self.queue[0].url.clone();
                    self.drop_first();
                    proof {
                        lemma_pages_first(q0);
                    }
                    match r {
                        Some(b) => {
                            let html = decode_utf8_lossy(b.as_slice());
                            let links = find_icon_links(html.as_str(), page_url.as_str());
                            let ghost rest = self.pending();
                            if !html.as_str().is_empty() {
                                self.skip_front_pages();
                            }
                            let mut newq: Vec<Candidate> = Vec::new();
                            let mut i: usize = 0;
                            while i < links.len()
                                invariant
                                    i <= links@.len(),
                                    cand_views(newq@) == text::views(links@).subrange(
                                        0,
                                        i as int,
                                    ).map_values(|l: Seq<char>| icon_cand(l)),
                                decreases links@.len() - i,
                            {
                                let ghost prev = newq@;
                                newq.push(candidate(links[i].clone(), false, 0));
                                assert(text::views(links@).subrange(0, i + 1).map_values(
                                    |l: Seq<char>| icon_cand(l),
                                ) =~= text::views(links@).subrange(0, i as int).map_values(
                                    |l: Seq<char>| icon_cand(l),
                                ).push(icon_cand(links@[i as int]@)));
                                assert(cand_views(newq@) =~= cand_views(prev).push(
                                    icon_cand(links@[i as int]@),
                                ));
                                i = i + 1;
                            }
                            proof {
                                lemma_after_page(rest, utf8_lossy(b@), page_url@);
                            }
                            newq.append(&mut self.queue);
                            assert(text::views(links@).subrange(0, links@.len() as int)
                                == text::views(links@));
                            assert(cand_views(newq@) =~= after_page(rest, utf8_lossy(b@), page_url@));
                            self.queue = newq;
                        },
                        None => {},
                    }
                    self.move_on()
                } else {
                    let min = self.queue[0].min_len;
                    match r {
                        Some(b) => {
                            if b.len() >= min {
                                match prepare_image(b) {
                                    Some(png) => {
                                        self.phase = Phase::Saving;
                                        return FetchAction::Save { png };
                                    },
                                    None => {},
                                }
                            }
                        },
                        None => {},
                    }
                    self.drop_first();
                    proof {
                        lemma_pages_first(q0);
                    }
                    self.move_on()
                }
            },
            FetchEvent::Saved(ok) => {
                if ok {
                    self.finish_found()
                } else {
                    self.drop_first();
                    proof {
                        lemma_pages_first(q0);
                    }
                    self.move_on()
                }
            },
        }
    }
}

} // verus!
