//! Sitemaps: where they are (robots.txt, or the conventional path) and the
//! page URLs they list.
use vstd::prelude::*;
use crate::text::{
    ascii_lower, ends_with_ascii_ci, lines, lines_of, starts_with_ascii_ci, starts_with_ci_seq, suffix_from,
    trim, trim_of,
};
use crate::weburl::{join_url, lex_le, parse_url, sort_by_href, url_join, url_parse, urls_view, UrlView, WebUrl};

verus! {

/// One event of a streaming XML reader.
pub enum XmlEvent {
    /// An element opens; its qualified name as bytes.
    Start(Vec<u8>),
    /// An element closes; its qualified name as bytes.
    End(Vec<u8>),
    /// Unescaped text content.
    Text(String),
    /// The end of the document.
    Eof,
    /// The document is malformed; the reader's message.
    Error(String),
    /// Anything else (comments, declarations, empty elements, ...).
    Other,
}

pub ghost enum XmlEventView {
    Start(Seq<u8>),
    End(Seq<u8>),
    Text(Seq<char>),
    Eof,
    Error(Seq<char>),
    Other,
}

impl View for XmlEvent {
    type V = XmlEventView;

    open spec fn view(&self) -> XmlEventView {
        match self {
            XmlEvent::Start(n) => XmlEventView::Start(n@),
            XmlEvent::End(n) => XmlEventView::End(n@),
            XmlEvent::Text(t) => XmlEventView::Text(t@),
            XmlEvent::Eof => XmlEventView::Eof,
            XmlEvent::Error(m) => XmlEventView::Error(m@),
            XmlEvent::Other => XmlEventView::Other,
        }
    }
}

pub open spec fn events_view(v: Seq<XmlEvent>) -> Seq<XmlEventView> {
    v.map_values(|e: XmlEvent| e@)
}

#[verifier::external_type_specification]
#[verifier::external_body]
#[verifier::reject_recursive_types(R)]
pub struct ExXmlReader<R>(quick_xml::Reader<R>);

/// The `k`-th event (from 0) that a `quick_xml::Reader` set with
/// `trim_text(true)` reads from `data`, converted as `next_event` converts.
pub uninterp spec fn xml_event_at(data: Seq<u8>, k: nat) -> XmlEventView;

/// The events a reader yields on `data`, up to one more than it has bytes.
pub open spec fn xml_events_of(data: Seq<u8>) -> Seq<XmlEventView> {
    Seq::new((data.len() + 1) as nat, |k: int| xml_event_at(data, k as nat))
}

/// Relies on `quick_xml::Reader::from_reader`, set with `trim_text(true)`
/// so that whitespace around text is dropped.
#[verifier::external_body]
fn xml_reader(data: &[u8]) -> quick_xml::Reader<&[u8]> {
    let mut reader = quick_xml::Reader::from_reader(data);
    reader.trim_text(true);
    reader
}

/// A streaming reader over a document, with the document and the number of
/// events read so far.
struct XmlStream<'a> {
    reader: quick_xml::Reader<&'a [u8]>,
    buf: Vec<u8>,
    data: Ghost<Seq<u8>>,
    read: Ghost<nat>,
}

impl<'a> XmlStream<'a> {
    fn new(data: &'a [u8]) -> (r: XmlStream<'a>)
        ensures
            r.data@ == data@,
            r.read@ == 0,
    {
        XmlStream { reader: xml_reader(data), buf: Vec::new(), data: Ghost(data@), read: Ghost(0) }
    }
}

/// Relies on `quick_xml::Reader::read_event_into`: the next event of the
/// document, with names as bytes and text unescaped (empty where the
/// escapes are malformed).
#[verifier::external_body]
fn next_event(s: &mut XmlStream) -> (ev: XmlEvent)
    ensures
        ev@ == xml_event_at(old(s).data@, old(s).read@),
        final(s).data@ == old(s).data@,
        final(s).read@ == old(s).read@ + 1,
{
    match s.reader.read_event_into(&mut s.buf) {
        Ok(quick_xml::events::Event::Start(e)) => XmlEvent::Start(e.name().as_ref().to_vec()),
        Ok(quick_xml::events::Event::End(e)) => XmlEvent::End(e.name().as_ref().to_vec()),
        Ok(quick_xml::events::Event::Text(t)) => XmlEvent::Text(t.unescape().unwrap_or_default().to_string()),
        Ok(quick_xml::events::Event::Eof) => XmlEvent::Eof,
        Err(e) => XmlEvent::Error(e.to_string()),
        Ok(_) => XmlEvent::Other,
    }
}

/// Whether a name ends in `suffix`, ignoring ASCII case.
pub open spec fn name_ends(name: Seq<u8>, suffix: Seq<u8>) -> bool {
    suffix.len() <= name.len() && forall|t: int|
        0 <= t < suffix.len() ==> #[trigger] ascii_lower(name[name.len() - suffix.len() + t])
            == suffix[t]
}

pub open spec fn loc_name() -> Seq<u8> {
    seq![108u8, 111u8, 99u8]
}

pub open spec fn index_name() -> Seq<u8> {
    seq![105u8, 110u8, 100u8, 101u8, 120u8]
}

fn loc_bytes() -> (r: Vec<u8>)
    ensures
        r@ == loc_name(),
{
    let mut v: Vec<u8> = Vec::new();
    v.push(108u8);
    v.push(111u8);
    v.push(99u8);
    assert(v@ =~= loc_name());
    v
}

fn index_bytes() -> (r: Vec<u8>)
    ensures
        r@ == index_name(),
{
    let mut v: Vec<u8> = Vec::new();
    v.push(105u8);
    v.push(110u8);
    v.push(100u8);
    v.push(101u8);
    v.push(120u8);
    assert(v@ =~= index_name());
    v
}

/// The URL a `<loc>` text gives: the text as an absolute URL, or else
/// resolved against the sitemap's own URL.
pub open spec fn loc_url(base: UrlView, raw: Seq<char>) -> Option<UrlView> {
    match url_parse(raw) {
        Ok(u) => Some(u),
        Err(_) => url_join(base.href, raw),
    }
}

/// The state of a sitemap scan.
pub ghost struct ScanView {
    pub in_loc: bool,
    pub is_index: bool,
    pub urls: Seq<UrlView>,
}

pub open spec fn scan_start() -> ScanView {
    ScanView { in_loc: false, is_index: false, urls: Seq::empty() }
}

/// The scan state after one event.
pub open spec fn scan_step(st: ScanView, ev: XmlEventView, base: UrlView) -> ScanView {
    match ev {
        XmlEventView::Start(n) => ScanView {
            in_loc: st.in_loc || name_ends(n, loc_name()),
            is_index: st.is_index || name_ends(n, index_name()),
            urls: st.urls,
        },
        XmlEventView::End(n) => ScanView {
            in_loc: st.in_loc && !name_ends(n, loc_name()),
            is_index: st.is_index,
            urls: st.urls,
        },
        XmlEventView::Text(t) => if st.in_loc {
            match loc_url(base, t) {
                Some(u) => ScanView { in_loc: st.in_loc, is_index: st.is_index, urls: st.urls.push(u) },
                None => st,
            }
        } else {
            st
        },
        _ => st,
    }
}

/// How a scan ends: the state reached, or the reader's error.
pub open spec fn scan_from(
    evs: Seq<XmlEventView>,
    base: UrlView,
    max: nat,
    i: int,
    st: ScanView,
) -> Result<ScanView, Seq<char>>
    decreases evs.len() - i,
{
    if i < 0 || i >= evs.len() {
        Ok(st)
    } else {
        match evs[i] {
            XmlEventView::Eof => Ok(st),
            XmlEventView::Error(m) => Err(m),
            _ => {
                let next = scan_step(st, evs[i], base);
                if next.urls.len() >= max {
                    Ok(next)
                } else {
                    scan_from(evs, base, max, i + 1, next)
                }
            },
        }
    }
}

/// The outcome of scanning a sequence of events: collection stops at the
/// end of the document, at an error, or as soon as `max` URLs are held.
pub open spec fn sitemap_outcome(evs: Seq<XmlEventView>, base: UrlView, max: nat) -> Result<
    ScanView,
    Seq<char>,
> {
    scan_from(evs, base, max, 0, scan_start())
}

/// The URLs listed by one sitemap, in document order.
pub struct SitemapEntries {
    pub urls: Vec<WebUrl>,
    /// Whether the document is a sitemap index (its entries are themselves
    /// sitemaps, which are not fetched in turn).
    pub is_index: bool,
}

pub open spec fn entries_view(r: Result<SitemapEntries, String>) -> Result<ScanView, Seq<char>> {
    match r {
        Ok(e) => Ok(ScanView { in_loc: false, is_index: e.is_index, urls: urls_view(e.urls@) }),
        Err(m) => Err(m@),
    }
}

/// Results compared without the `in_loc` flag, which callers never see.
pub open spec fn same_outcome(a: Result<ScanView, Seq<char>>, b: Result<ScanView, Seq<char>>) -> bool {
    match (a, b) {
        (Ok(x), Ok(y)) => x.is_index == y.is_index && x.urls == y.urls,
        (Err(x), Err(y)) => x == y,
        _ => false,
    }
}

struct Scan {
    in_loc: bool,
    is_index: bool,
    urls: Vec<WebUrl>,
}

impl View for Scan {
    type V = ScanView;

    closed spec fn view(&self) -> ScanView {
        ScanView { in_loc: self.in_loc, is_index: self.is_index, urls: urls_view(self.urls@) }
    }
}

fn loc_to_url(base: &WebUrl, raw: &str) -> (r: Option<WebUrl>)
    ensures
        crate::weburl::opt_url_view(r) == loc_url(base@, raw@),
{
    match parse_url(raw) {
        Ok(u) => Some(u),
        Err(_) => join_url(base, raw),
    }
}

/// Applies one event to the scan state.
fn scan_event(st: &mut Scan, ev: &XmlEvent, base: &WebUrl)
    ensures
        final(st)@ == scan_step(old(st)@, ev@, base@),
{
    match ev {
        XmlEvent::Start(n) => {
            let loc = loc_bytes();
            let index = index_bytes();
            if ends_with_ascii_ci(n.as_slice(), loc.as_slice()) {
                st.in_loc = true;
            }
            if ends_with_ascii_ci(n.as_slice(), index.as_slice()) {
                st.is_index = true;
            }
        },
        XmlEvent::End(n) => {
            let loc = loc_bytes();
            if ends_with_ascii_ci(n.as_slice(), loc.as_slice()) {
                st.in_loc = false;
            }
        },
        XmlEvent::Text(t) => {
            if st.in_loc {
                match loc_to_url(base, t.as_str()) {
                    Some(u) => {
                        let ghost before = st.urls@;
                        st.urls.push(u);
                        assert(urls_view(st.urls@) =~= urls_view(before).push(u@));
                    },
                    None => {},
                }
            }
        },
        _ => {},
    }
}

fn finish(st: Scan) -> (r: Result<SitemapEntries, String>)
    ensures
        same_outcome(entries_view(r), Ok(st@)),
{
    Ok(SitemapEntries { urls: st.urls, is_index: st.is_index })
}

/// Collects the URLs of a sitemap from its events, in document order: the
/// text of every `<loc>` element that is an absolute URL, or resolves
/// against `base`. Collection stops at the end of the document or once
/// `max` URLs are held; a reader error before that fails the sitemap.
pub fn sitemap_entries_from_events(events: &Vec<XmlEvent>, base: &WebUrl, max: usize) -> (r: Result<
    SitemapEntries,
    String,
>)
    ensures
        same_outcome(entries_view(r), sitemap_outcome(events_view(events@), base@, max as nat)),
{
    let ghost evs = events_view(events@);
    let mut st = Scan { in_loc: false, is_index: false, urls: Vec::new() };
    proof {
        assert(urls_view(st.urls@) =~= Seq::<UrlView>::empty());
    }
    let mut i: usize = 0;
    while i < events.len()
        invariant
            evs == events_view(events@),
            i <= events@.len(),
            sitemap_outcome(evs, base@, max as nat) == scan_from(evs, base@, max as nat, i as int, st@),
        decreases events@.len() - i,
    {
        let ev = &events[i];
        assert(evs[i as int] == ev@);
        match ev {
            XmlEvent::Eof => {
                return finish(st);
            },
            XmlEvent::Error(m) => {
                return Err(m.clone());
            },
            _ => {},
        }
        scan_event(&mut st, ev, base);
        if st.urls.len() >= max {
            return finish(st);
        }
        i += 1;
    }
    finish(st)
}

/// Parses a sitemap (`urlset` or `sitemapindex`) as a stream, collecting
/// the `<loc>` URLs in document order and stopping as soon as `max` are
/// held, at the end of the document, or at a reader error. Every event but
/// the last consumes input, so no document yields more events than it has
/// bytes plus one; the scan reads no further.
pub fn parse_sitemap_xml(data: &[u8], base: &WebUrl, max: usize) -> (r: Result<SitemapEntries, String>)
    ensures
        same_outcome(entries_view(r), sitemap_outcome(xml_events_of(data@), base@, max as nat)),
{
    let ghost full = xml_events_of(data@);
    let mut stream = XmlStream::new(data);
    let mut st = Scan { in_loc: false, is_index: false, urls: Vec::new() };
    proof {
        assert(urls_view(st.urls@) =~= Seq::<UrlView>::empty());
    }
    let mut fuel: usize = data.len();
    loop
        invariant
            full == xml_events_of(data@),
            full.len() == data@.len() + 1,
            stream.data@ == data@,
            stream.read@ + fuel == data@.len(),
            sitemap_outcome(full, base@, max as nat) == scan_from(
                full,
                base@,
                max as nat,
                stream.read@ as int,
                st@,
            ),
        decreases fuel,
    {
        let ghost k = stream.read@ as int;
        let ev = next_event(&mut stream);
        assert(full[k] == ev@);
        match ev {
            XmlEvent::Eof => {
                return finish(st);
            },
            XmlEvent::Error(m) => {
                return Err(m);
            },
            _ => {},
        }
        scan_event(&mut st, &ev, base);
        if st.urls.len() >= max || fuel == 0 {
            assert(same_outcome(Ok(st@), sitemap_outcome(full, base@, max as nat)));
            return finish(st);
        }
        fuel -= 1;
    }
}

/// The sitemap a robots.txt line names: after trimming, a line that starts
/// with `Sitemap:`, in any case, names the trimmed rest, as an absolute URL
/// or resolved against the root.
pub open spec fn robots_line_entry(root: UrlView, line: Seq<char>) -> Option<UrlView> {
    let t = trim_of(line);
    if starts_with_ci_seq(t, "sitemap:"@) {
        loc_url(root, trim_of(t.subrange(8, t.len() as int)))
    } else {
        None
    }
}

/// The sitemaps named by a sequence of robots.txt lines, in order.
pub open spec fn robots_entries(root: UrlView, lines: Seq<Seq<char>>) -> Seq<UrlView>
    decreases lines.len(),
{
    if lines.len() == 0 {
        Seq::empty()
    } else {
        robots_entries(root, lines.drop_last()) + crate::candidate::opt_seq(
            robots_line_entry(root, lines.last()),
        )
    }
}

/// The sitemaps that a robots.txt names, in order of their lines; lines
/// whose location neither parses nor resolves are skipped.
pub fn sitemaps_from_robots(root: &WebUrl, robots_txt: &str) -> (r: Vec<WebUrl>)
    ensures
        urls_view(r@) == robots_entries(root@, lines_of(robots_txt@)),
{
    let all = lines(robots_txt);
    let ghost ls = lines_of(robots_txt@);
    let mut out: Vec<WebUrl> = Vec::new();
    let mut i: usize = 0;
    while i < all.len()
        invariant
            ls == lines_of(robots_txt@),
            all@.len() == ls.len(),
            forall|k: int| 0 <= k < all@.len() ==> #[trigger] all@[k]@ == ls[k],
            i <= all@.len(),
            urls_view(out@) == robots_entries(root@, ls.take(i as int)),
        decreases all@.len() - i,
    {
        let line = trim(all[i].as_str());
        let ghost before = out@;
        if starts_with_ascii_ci(line.as_str(), "sitemap:") {
            proof {
                reveal_strlit("sitemap:");
            }
            let rest = trim(suffix_from(line.as_str(), 8).as_str());
            match loc_to_url(root, rest.as_str()) {
                Some(u) => {
                    out.push(u);
                    assert(urls_view(out@) =~= urls_view(before).push(u@));
                },
                None => {},
            }
        }
        proof {
            assert(ls.take(i + 1).drop_last() =~= ls.take(i as int));
            assert(ls.take(i + 1).last() == all@[i as int]@);
            assert(urls_view(out@) =~= robots_entries(root@, ls.take(i as int)) + crate::candidate::opt_seq(
                robots_line_entry(root@, all@[i as int]@),
            ));
        }
        i += 1;
    }
    assert(ls.take(all@.len() as int) =~= ls);
    out
}

/// Where sitemaps are looked for: those robots.txt names, or else the
/// conventional `/sitemap.xml` of the root.
pub open spec fn sitemap_sources(root: UrlView, from_robots: Seq<UrlView>) -> Seq<UrlView> {
    if from_robots.len() == 0 {
        crate::candidate::opt_seq(url_join(root.href, "/sitemap.xml"@))
    } else {
        from_robots
    }
}

/// Ascending by serialization, with no serialization twice.
pub open spec fn strictly_ascending(s: Seq<UrlView>) -> bool {
    forall|k: int|
        #![trigger s[k]]
        0 <= k < s.len() - 1 ==> lex_le(s[k].href, s[k + 1].href) && s[k].href != s[k + 1].href
}

/// Every URL of `a` is one of `b`.
pub open spec fn drawn_from(a: Seq<UrlView>, b: Seq<UrlView>) -> bool {
    forall|i: int| 0 <= i < a.len() ==> b.contains(#[trigger] a[i])
}

/// Every serialization of `b` is that of some URL of `a`.
pub open spec fn covers_keys(a: Seq<UrlView>, b: Seq<UrlView>) -> bool {
    forall|j: int|
        0 <= j < b.len() ==> exists|i: int| 0 <= i < a.len() && (#[trigger] a[i]).href == (#[trigger] b[j]).href
}

/// Ascending by serialization.
pub open spec fn ascending(s: Seq<UrlView>) -> bool {
    forall|i: int, j: int| 0 <= i < j < s.len() ==> lex_le((#[trigger] s[i]).href, (#[trigger] s[j]).href)
}

proof fn lemma_drawn_from_trans(a: Seq<UrlView>, b: Seq<UrlView>, c: Seq<UrlView>)
    requires
        drawn_from(a, b),
        drawn_from(b, c),
    ensures
        drawn_from(a, c),
{
    assert forall|i: int| 0 <= i < a.len() implies c.contains(#[trigger] a[i]) by {
        assert(b.contains(a[i]));
        let k = choose|k: int| 0 <= k < b.len() && b[k] == a[i];
        assert(c.contains(b[k]));
    }
}

proof fn lemma_covers_keys_trans(a: Seq<UrlView>, b: Seq<UrlView>, c: Seq<UrlView>)
    requires
        covers_keys(a, b),
        drawn_from(c, b),
    ensures
        covers_keys(a, c),
{
    assert forall|j: int| 0 <= j < c.len() implies exists|i: int|
        0 <= i < a.len() && (#[trigger] a[i]).href == (#[trigger] c[j]).href by {
        assert(b.contains(c[j]));
        let k = choose|k: int| 0 <= k < b.len() && b[k] == c[j];
        assert(exists|i: int| 0 <= i < a.len() && (#[trigger] a[i]).href == (#[trigger] b[k]).href);
    }
}

/// The sitemaps to read: those robots.txt names (none where it could not be
/// read), or else the root's `/sitemap.xml`, sorted by serialization with
/// duplicates removed. Empty only where robots.txt names none and
/// `/sitemap.xml` does not resolve against the root.
pub fn discover_sitemaps(root: &WebUrl, from_robots: Vec<WebUrl>) -> (r: Vec<WebUrl>)
    ensures
        strictly_ascending(urls_view(r@)),
        drawn_from(urls_view(r@), sitemap_sources(root@, urls_view(from_robots@))),
        covers_keys(urls_view(r@), sitemap_sources(root@, urls_view(from_robots@))),
{
    let ghost src = sitemap_sources(root@, urls_view(from_robots@));
    let mut all = sources(root, from_robots);
    let ghost before = all@;
    sort_by_href(&mut all);
    proof {
        let av = urls_view(all@);
        assert forall|i: int, j: int| 0 <= i < j < av.len() implies lex_le(
            (#[trigger] av[i]).href,
            (#[trigger] av[j]).href,
        ) by {
            assert(av[i] == all@[i]@ && av[j] == all@[j]@);
        }
        assert forall|i: int| 0 <= i < av.len() implies src.contains(#[trigger] av[i]) by {
            assert(av[i] == all@[i]@);
        }
        assert forall|j: int| 0 <= j < src.len() implies av.contains(#[trigger] src[j]) by {
            assert(src[j] == before[j]@);
        }
    }
    let out = dedup_sorted(&all);
    proof {
        lemma_drawn_from_trans(urls_view(out@), urls_view(all@), src);
        lemma_covers_keys_trans(urls_view(out@), urls_view(all@), src);
    }
    out
}

fn sources(root: &WebUrl, from_robots: Vec<WebUrl>) -> (r: Vec<WebUrl>)
    ensures
        urls_view(r@) == sitemap_sources(root@, urls_view(from_robots@)),
{
    let mut all = from_robots;
    if all.len() == 0 {
        match join_url(root, "/sitemap.xml") {
            Some(u) => {
                all.push(u);
                assert(urls_view(all@) =~= seq![u@]);
            },
            None => {
                assert(urls_view(all@) =~= Seq::<UrlView>::empty());
            },
        }
    }
    all
}

/// Drops every URL whose serialization equals that of its predecessor.
fn dedup_sorted(all: &Vec<WebUrl>) -> (out: Vec<WebUrl>)
    requires
        ascending(urls_view(all@)),
    ensures
        strictly_ascending(urls_view(out@)),
        drawn_from(urls_view(out@), urls_view(all@)),
        covers_keys(urls_view(out@), urls_view(all@)),
{
    let ghost av = urls_view(all@);
    let mut out: Vec<WebUrl> = Vec::new();
    let mut i: usize = 0;
    while i < all.len()
        invariant
            av == urls_view(all@),
            ascending(av),
            i <= av.len(),
            strictly_ascending(urls_view(out@)),
            drawn_from(urls_view(out@), av),
            covers_keys(urls_view(out@), av.take(i as int)),
            i > 0 ==> out@.len() > 0 && urls_view(out@).last().href == av[i - 1].href,
            i == 0 ==> out@.len() == 0,
        decreases av.len() - i,
    {
        let ghost ov0 = urls_view(out@);
        let fresh = i == 0 || !all[i].same_key(&all[i - 1]);
        assert(av[i as int] == all@[i as int]@);
        if fresh {
            out.push(all[i].duplicate());
            proof {
                let ov = urls_view(out@);
                assert(ov =~= ov0.push(av[i as int]));
                assert forall|k: int| 0 <= k < ov.len() implies av.contains(#[trigger] ov[k]) by {
                    if k < ov0.len() {
                        assert(ov[k] == ov0[k]);
                    }
                }
                assert forall|k: int| #![trigger ov[k]] 0 <= k < ov.len() - 1 implies lex_le(
                    ov[k].href,
                    ov[k + 1].href,
                ) && ov[k].href != ov[k + 1].href by {
                    if k + 1 < ov0.len() {
                        assert(ov[k] == ov0[k] && ov[k + 1] == ov0[k + 1]);
                    } else {
                        assert(ov[k] == ov0.last());
                        assert(lex_le(av[i - 1].href, av[i as int].href));
                    }
                }
                let at = av.take(i + 1);
                assert forall|j: int| 0 <= j < at.len() implies exists|k: int|
                    0 <= k < ov.len() && (#[trigger] ov[k]).href == (#[trigger] at[j]).href by {
                    if j < i {
                        assert(at[j] == av.take(i as int)[j]);
                        let k = choose|k: int|
                            0 <= k < ov0.len() && (#[trigger] ov0[k]).href == (#[trigger] av.take(
                                i as int,
                            )[j]).href;
                        assert(ov[k] == ov0[k]);
                    } else {
                        assert(ov[ov.len() - 1].href == at[j].href);
                    }
                }
            }
        } else {
            proof {
                let ov = urls_view(out@);
                let at = av.take(i + 1);
                assert forall|j: int| 0 <= j < at.len() implies exists|k: int|
                    0 <= k < ov.len() && (#[trigger] ov[k]).href == (#[trigger] at[j]).href by {
                    if j < i {
                        assert(at[j] == av.take(i as int)[j]);
                    } else {
                        assert(ov[ov.len() - 1].href == at[j].href);
                    }
                }
            }
        }
        i += 1;
    }
    assert(av.take(av.len() as int) =~= av);
    out
}

pub const MAX_SITEMAPS: usize = 5;

/// The sitemaps that are fetched: the first five.
pub fn sitemaps_to_fetch(v: Vec<WebUrl>) -> (r: Vec<WebUrl>)
    ensures
        r@ == v@.take(if v@.len() < MAX_SITEMAPS { v@.len() as int } else { MAX_SITEMAPS as int }),
{
    let mut out = v;
    out.truncate(MAX_SITEMAPS);
    out
}

} // verus!
