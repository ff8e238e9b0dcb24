//! One discovery request, from the root URL to the ranked report: the
//! decisions between the fetches that the caller performs.
use vstd::prelude::*;
use crate::aggregate::{dedup_pool, is_desc, merge_candidates, sort_by_rank_desc, sort_desc, Ranked};
use crate::candidate::{cands_view, lemma_cands_view_push, Candidate, CandidateView, Source};
use crate::heuristics::{heuristic_url_priority, url_priority};
use crate::scoring::{classify, score_contact_form_like};
use crate::text::{
    contains_seq, contains_str, lower_of, lowercase, starts_with_seq, starts_with_str, utf8_lossy,
    utf8_lossy_of,
};
use crate::scheduler::{
    done_count, host_in_flight, in_flight, lemma_concurrency_bound, lemma_done_update, lemma_done_zero,
    within_limits, FetchScheduler, SchedulerView, TaskState,
};
use crate::weburl::{parse_url, url_parse, urls_view, UrlView, WebUrl};

verus! {

/// Default cap on the URLs taken from one sitemap.
pub fn d_heur_limit() -> (r: usize)
    ensures
        r == 2000,
{
    2000
}

/// Default cap on the pages fetched.
pub fn d_fetch_limit() -> (r: usize)
    ensures
        r == 60,
{
    60
}

/// Default number of results reported.
pub fn d_topn() -> (r: usize)
    ensures
        r == 5,
{
    5
}

/// Default number of fetches in flight at once.
pub fn d_concurrency() -> (r: usize)
    ensures
        r == 16,
{
    16
}

/// A discovery request.
pub struct DiscoverReq {
    pub root_url: String,
    /// Cap on the URLs taken from each sitemap.
    pub sitemap_url_limit: usize,
    /// Cap on the pages fetched.
    pub fetch_limit: usize,
    /// Number of best results reported.
    pub top_n: usize,
    /// Number of fetches in flight at once.
    pub concurrency: usize,
}

impl DiscoverReq {
    /// A request for a root URL with every option at its default.
    pub fn new(root_url: String) -> (r: DiscoverReq)
        ensures
            r.root_url == root_url,
            r.sitemap_url_limit == 2000,
            r.fetch_limit == 60,
            r.top_n == 5,
            r.concurrency == 16,
    {
        DiscoverReq {
            root_url,
            sitemap_url_limit: d_heur_limit(),
            fetch_limit: d_fetch_limit(),
            top_n: d_topn(),
            concurrency: d_concurrency(),
        }
    }
}

/// A scored page of the report.
pub struct DiscoverItem {
    pub url: String,
    pub score: i32,
    pub positives: Vec<String>,
    pub negatives: Vec<String>,
    pub status: i32,
    pub content_type: Option<String>,
    pub size: i64,
}

impl Ranked for DiscoverItem {
    open spec fn rank_spec(&self) -> int {
        self.score as int
    }

    fn rank(&self) -> (r: i32) {
        self.score
    }
}

/// The report of a discovery request.
pub struct DiscoverResp {
    pub root_url: String,
    /// The effective cap on fetches.
    pub tried: usize,
    /// The fetches that completed, successful or not.
    pub fetched: usize,
    pub results_top: Vec<DiscoverItem>,
    /// Why the request stopped early, where it did.
    pub note: Option<String>,
}

/// What a fetch returned.
pub struct FetchResult {
    pub status: i32,
    pub content_type: Option<String>,
    pub body: Vec<u8>,
    pub size: i64,
    /// The host of the final URL, after redirects.
    pub domain: Option<String>,
}

/// A report with no results, for a request that stopped early.
pub fn empty_report(root_url: String, note: String) -> (r: DiscoverResp)
    ensures
        r.root_url == root_url,
        r.tried == 0,
        r.fetched == 0,
        r.results_top@.len() == 0,
        r.note matches Some(n) && n@ == note@,
{
    DiscoverResp { root_url, tried: 0, fetched: 0, results_top: Vec::new(), note: Some(note) }
}

/// A report of a request that stopped early: no fetch, no result, and a note.
pub open spec fn stopped_with(resp: DiscoverResp, root_url: Seq<char>, note: Seq<char>) -> bool {
    &&& resp.root_url@ == root_url
    &&& resp.tried == 0
    &&& resp.fetched == 0
    &&& resp.results_top@.len() == 0
    &&& resp.note matches Some(n)
    &&& resp.note.unwrap()@ == note
}

pub open spec fn invalid_root_note(err: Seq<char>) -> Seq<char> {
    "invalid root_url: "@ + err
}

/// Parses the root URL of a request; where it does not parse, the report
/// that ends the request, with a note naming the error.
pub fn start_discovery(root_url: &String) -> (r: Result<WebUrl, DiscoverResp>)
    ensures
        url_parse(root_url@) matches Ok(u) ==> (r matches Ok(w) && w@ == u),
        url_parse(root_url@) matches Err(e) ==> (r matches Err(resp) && stopped_with(
            resp,
            root_url@,
            invalid_root_note(e),
        )),
{
    match parse_url(root_url.as_str()) {
        Ok(u) => Ok(u),
        Err(e) => {
            let note = "invalid root_url: ".to_string().concat(e.as_str());
            Err(empty_report(root_url.clone(), note))
        },
    }
}

pub open spec fn no_sitemap_note() -> Seq<char> {
    "no sitemap discovered"@
}

/// Where no sitemap was found, the report that ends the request.
pub fn check_sitemaps(root_url: &String, sitemaps: &Vec<WebUrl>) -> (r: Option<DiscoverResp>)
    ensures
        sitemaps@.len() > 0 <==> r is None,
        r matches Some(resp) ==> stopped_with(resp, root_url@, no_sitemap_note()),
{
    if sitemaps.len() == 0 {
        Some(empty_report(root_url.clone(), "no sitemap discovered".to_string()))
    } else {
        None
    }
}

pub open spec fn no_candidates_note() -> Seq<char> {
    "no candidate URLs found"@
}

/// Where the pool is empty, the report that ends the request.
pub fn check_pool(root_url: &String, pool: &Vec<Candidate>) -> (r: Option<DiscoverResp>)
    ensures
        pool@.len() > 0 <==> r is None,
        r matches Some(resp) ==> stopped_with(resp, root_url@, no_candidates_note()),
{
    if pool.len() == 0 {
        Some(empty_report(root_url.clone(), "no candidate URLs found".to_string()))
    } else {
        None
    }
}

/// The candidates among sitemap URLs: those with a positive priority.
pub open spec fn sitemap_candidates_of(urls: Seq<UrlView>) -> Seq<CandidateView>
    decreases urls.len(),
{
    if urls.len() == 0 {
        Seq::empty()
    } else {
        sitemap_candidates_of(urls.drop_last()) + if url_priority(urls.last()) > 0 {
            seq![CandidateView { url: urls.last(), priority: url_priority(urls.last()), source: Source::Sitemap }]
        } else {
            Seq::empty()
        }
    }
}

/// Sitemap URLs as candidates: each with a positive URL priority, in order.
pub fn sitemap_candidates(urls: Vec<WebUrl>) -> (r: Vec<Candidate>)
    ensures
        cands_view(r@) == sitemap_candidates_of(urls_view(urls@)),
{
    let mut src = urls;
    let ghost orig = src@;
    let n = src.len();
    let mut out: Vec<Candidate> = Vec::new();
    let mut i: usize = 0;
    while i < n
        invariant
            n == orig.len(),
            i <= n,
            src@ == orig.skip(i as int),
            cands_view(out@) == sitemap_candidates_of(urls_view(orig.take(i as int))),
        decreases n - i,
    {
        let u = src.remove(0);
        proof {
            assert(u == orig[i as int]);
            assert(urls_view(orig.take(i + 1)).drop_last() =~= urls_view(orig.take(i as int)));
            assert(urls_view(orig.take(i + 1)).last() == u@);
        }
        let p = heuristic_url_priority(&u);
        if p > 0 {
            let c = Candidate { url: u, priority: p, source: Source::Sitemap };
            proof {
                lemma_cands_view_push(out@, c);
            }
            out.push(c);
        }
        proof {
            assert(cands_view(out@) =~= sitemap_candidates_of(urls_view(orig.take(i + 1))));
        }
        i += 1;
        proof {
            assert(src@ =~= orig.skip(i as int));
        }
    }
    proof {
        assert(orig.take(n as int) =~= orig);
    }
    out
}

/// The pool of candidates: the known paths, then the sitemap candidates,
/// then the root page's anchors.
pub fn build_pool(known: Vec<Candidate>, sitemap_urls: Vec<WebUrl>, anchors: Vec<Candidate>) -> (r: Vec<Candidate>)
    ensures
        cands_view(r@) == cands_view(known@) + sitemap_candidates_of(urls_view(sitemap_urls@))
            + cands_view(anchors@),
{
    let mut pool = known;
    let mut from_sitemaps = sitemap_candidates(sitemap_urls);
    let mut from_anchors = anchors;
    let ghost k = pool@;
    let ghost s = from_sitemaps@;
    let ghost a = from_anchors@;
    pool.append(&mut from_sitemaps);
    pool.append(&mut from_anchors);
    assert(cands_view(pool@) =~= cands_view(k) + cands_view(s) + cands_view(a));
    pool
}

pub open spec fn min_nat(a: int, b: int) -> int {
    if a < b {
        a
    } else {
        b
    }
}

/// The effective cap on fetches: the request's limit, within the server's.
pub fn effective_fetch_cap(fetch_limit: usize, max_fetch_per_site: usize) -> (r: usize)
    ensures
        r == min_nat(fetch_limit as int, max_fetch_per_site as int),
{
    if fetch_limit < max_fetch_per_site {
        fetch_limit
    } else {
        max_fetch_per_site
    }
}

/// The candidates to fetch: the merged, ranked pool, cut at the effective cap.
pub open spec fn fetch_targets(pool: Seq<Candidate>, cap: int) -> Seq<Candidate> {
    let ranked = sort_desc(dedup_pool(pool));
    ranked.take(min_nat(cap, ranked.len() as int))
}

/// Merges and ranks the pool, then keeps the best candidates up to the
/// effective cap, in priority order.
pub fn plan_fetches(pool: Vec<Candidate>, fetch_limit: usize, max_fetch_per_site: usize) -> (r: Vec<Candidate>)
    ensures
        r@ == fetch_targets(pool@, min_nat(fetch_limit as int, max_fetch_per_site as int)),
        r@.len() == min_nat(
            min_nat(fetch_limit as int, max_fetch_per_site as int),
            dedup_pool(pool@).len() as int,
        ),
        is_desc(r@),
{
    let cap = effective_fetch_cap(fetch_limit, max_fetch_per_site);
    let mut ranked = merge_candidates(pool);
    proof {
        crate::aggregate::lemma_sort_desc_sorted(dedup_pool(pool@));
    }
    let ghost full = ranked@;
    ranked.truncate(cap);
    proof {
        assert(ranked@ =~= full.take(min_nat(cap as int, full.len() as int)));
    }
    ranked
}

/// The number of fetches scheduled is the least of the request's limit,
/// the server's limit, and the number of distinct candidates.
pub proof fn lemma_fetch_cap(pool: Seq<Candidate>, fetch_limit: nat, max_fetch_per_site: nat)
    ensures
        fetch_targets(pool, min_nat(fetch_limit as int, max_fetch_per_site as int)).len()
            == min_nat(
            min_nat(fetch_limit as int, max_fetch_per_site as int),
            dedup_pool(pool).len() as int,
        ),
{
    crate::aggregate::lemma_sort_desc_sorted(dedup_pool(pool));
}

/// The host a candidate is fetched from, as the per-host limit counts it;
/// empty for a URL without one.
pub open spec fn host_key(u: UrlView) -> Seq<char> {
    match u.host {
        Some(h) => h,
        None => Seq::empty(),
    }
}

/// The host key of each target, in order.
pub fn fetch_hosts(targets: &Vec<Candidate>) -> (r: Vec<String>)
    ensures
        r@.len() == targets@.len(),
        forall|i: int| 0 <= i < r@.len() ==> (#[trigger] r@[i])@ == host_key(targets@[i]@.url),
{
    let mut out: Vec<String> = Vec::new();
    let mut i: usize = 0;
    while i < targets.len()
        invariant
            i <= targets@.len(),
            out@.len() == i,
            forall|k: int| 0 <= k < i ==> (#[trigger] out@[k])@ == host_key(targets@[k]@.url),
        decreases targets@.len() - i,
    {
        let h = match targets[i].url.host_str() {
            Some(h) => h.to_string(),
            None => String::new(),
        };
        out.push(h);
        i += 1;
    }
    out
}

/// Whether a content type names HTML: after lower-casing, it starts with
/// `text/html` or mentions `application/xhtml+xml`.
pub open spec fn is_html_type(ct: Option<Seq<char>>) -> bool {
    match ct {
        Some(c) => starts_with_seq(lower_of(c), "text/html"@) || contains_seq(
            lower_of(c),
            "application/xhtml+xml"@,
        ),
        None => false,
    }
}

/// Whether a response's content type is HTML.
pub fn is_html(content_type: &Option<String>) -> (r: bool)
    ensures
        r == is_html_type(crate::weburl::opt_view(*content_type)),
{
    match content_type {
        Some(ct) => {
            let lc = lowercase(ct.as_str());
            starts_with_str(lc.as_str(), "text/html") || contains_str(
                lc.as_str(),
                "application/xhtml+xml",
            )
        },
        None => false,
    }
}

/// The entry of the report for a fetched HTML page: its URL, the verdict
/// on its body read as UTF-8, and what the fetch returned.
pub open spec fn scored_item(item: DiscoverItem, url: UrlView, fr: FetchResult) -> bool {
    let v = classify(utf8_lossy_of(fr.body@));
    &&& item.url@ == url.href
    &&& item.score == v.score
    &&& item.positives@.map_values(|s: String| s@) == v.positives
    &&& item.negatives@.map_values(|s: String| s@) == v.negatives
    &&& item.status == fr.status
    &&& crate::weburl::opt_view(item.content_type) == crate::weburl::opt_view(fr.content_type)
    &&& item.size == fr.size
}

/// The report entry for a fetched page, where it is HTML.
pub fn classify_fetch(url: &WebUrl, fr: FetchResult) -> (r: Option<DiscoverItem>)
    ensures
        is_html_type(crate::weburl::opt_view(fr.content_type)) <==> r is Some,
        r matches Some(item) ==> scored_item(item, url@, fr),
{
    if !is_html(&fr.content_type) {
        return None;
    }
    let html = utf8_lossy(fr.body.as_slice());
    let s = score_contact_form_like(html.as_str());
    Some(DiscoverItem {
        url: url.as_str().to_string(),
        score: s.score,
        positives: s.positives,
        negatives: s.negatives,
        status: fr.status,
        content_type: fr.content_type,
        size: fr.size,
    })
}

pub open spec fn top_of<T: Ranked>(results: Seq<T>, top_n: int) -> Seq<T> {
    let ranked = sort_desc(results);
    ranked.take(min_nat(top_n, ranked.len() as int))
}

/// The final report: the scored pages by descending score (equal scores in
/// completion order), the best `top_n` of them.
pub fn discovery_report(
    root: &WebUrl,
    tried: usize,
    fetched: usize,
    results: Vec<DiscoverItem>,
    top_n: usize,
) -> (r: DiscoverResp)
    ensures
        r.root_url@ == root@.href,
        r.tried == tried,
        r.fetched == fetched,
        r.results_top@ == top_of(results@, top_n as int),
        is_desc(r.results_top@),
        r.note is None,
{
    let ghost orig = results@;
    let mut ranked = sort_by_rank_desc(results);
    let ghost full = ranked@;
    proof {
        crate::aggregate::lemma_sort_desc_sorted(orig);
    }
    ranked.truncate(top_n);
    proof {
        assert(ranked@ =~= full.take(min_nat(top_n as int, full.len() as int)));
    }
    DiscoverResp {
        root_url: root.as_str().to_string(),
        tried,
        fetched,
        results_top: ranked,
        note: None,
    }
}

/// The fetch phase of one request: which target starts next, and what each
/// completed fetch adds. Every completion counts as fetched; only HTML pages
/// add a scored entry.
pub struct FetchRun {
    targets: Vec<Candidate>,
    scheduler: FetchScheduler,
    results: Vec<DiscoverItem>,
    fetched: usize,
}

impl FetchRun {
    pub closed spec fn wf(&self) -> bool {
        &&& self.scheduler.wf()
        &&& self.scheduler@.states.len() == self.targets@.len()
        &&& self.scheduler@.hosts.len() == self.targets@.len()
        &&& forall|k: int|
            0 <= k < self.targets@.len() ==> self.scheduler@.hosts[k] == host_key(
                #[trigger] self.targets@[k]@.url,
            )
        &&& self.fetched == done_count(self.scheduler@.states, self.scheduler@.states.len())
    }

    pub closed spec fn targets_spec(&self) -> Seq<Candidate> {
        self.targets@
    }

    pub closed spec fn scheduler_spec(&self) -> SchedulerView {
        self.scheduler@
    }

    pub closed spec fn results_spec(&self) -> Seq<DiscoverItem> {
        self.results@
    }

    pub closed spec fn fetched_spec(&self) -> nat {
        self.fetched as nat
    }

    /// A run over the targets, each keyed by its host, none started yet.
    pub fn new(targets: Vec<Candidate>, concurrency: usize, per_host_limit: usize) -> (r: FetchRun)
        ensures
            r.wf(),
            within_limits(r.scheduler_spec()),
            r.scheduler_spec().hosts.len() == targets@.len(),
            forall|k: int|
                0 <= k < targets@.len() ==> r.scheduler_spec().hosts[k] == host_key(
                    #[trigger] targets@[k]@.url,
                ),
            r.targets_spec() == targets@,
            r.scheduler_spec().global_limit == concurrency,
            r.scheduler_spec().per_host_limit == per_host_limit,
            forall|k: int| 0 <= k < targets@.len() ==> r.scheduler_spec().states[k] == TaskState::Pending,
            r.results_spec().len() == 0,
            r.fetched_spec() == 0,
    {
        let hosts = fetch_hosts(&targets);
        let ghost hv = hosts@;
        let scheduler = FetchScheduler::new(hosts, concurrency, per_host_limit);
        proof {
            lemma_done_zero(scheduler@.states, scheduler@.states.len());
            lemma_concurrency_bound(scheduler, Seq::empty());
            assert forall|k: int| 0 <= k < targets@.len() implies scheduler@.hosts[k] == host_key(
                #[trigger] targets@[k]@.url,
            ) by {
                assert(scheduler@.hosts[k] == hv[k]@);
            }
        }
        FetchRun { targets, scheduler, results: Vec::new(), fetched: 0 }
    }

    /// The next target that may start now, marked as started.
    pub fn next_fetch(&mut self) -> (r: Option<usize>)
        requires
            old(self).wf(),
        ensures
            final(self).wf(),
            final(self).targets_spec() == old(self).targets_spec(),
            final(self).results_spec() == old(self).results_spec(),
            final(self).fetched_spec() == old(self).fetched_spec(),
            within_limits(final(self).scheduler_spec()),
            final(self).scheduler_spec().hosts == old(self).scheduler_spec().hosts,
            final(self).scheduler_spec().global_limit == old(self).scheduler_spec().global_limit,
            final(self).scheduler_spec().per_host_limit == old(self).scheduler_spec().per_host_limit,
            r is None ==> final(self).scheduler_spec() == old(self).scheduler_spec() && (in_flight(
                old(self).scheduler_spec(),
            ) >= old(self).scheduler_spec().global_limit || forall|k: int|
                0 <= k < old(self).scheduler_spec().states.len() && old(self).scheduler_spec().states[k]
                    == TaskState::Pending ==> host_in_flight(
                    old(self).scheduler_spec(),
                    #[trigger] old(self).scheduler_spec().hosts[k],
                ) >= old(self).scheduler_spec().per_host_limit),
            r matches Some(i) ==> ({
                &&& i < old(self).targets_spec().len()
                &&& old(self).scheduler_spec().states[i as int] == TaskState::Pending
                &&& old(self).scheduler_spec().hosts[i as int] == host_key(old(self).targets_spec()[i as int]@.url)
                &&& host_in_flight(old(self).scheduler_spec(), old(self).scheduler_spec().hosts[i as int])
                    < old(self).scheduler_spec().per_host_limit
                &&& in_flight(old(self).scheduler_spec()) < old(self).scheduler_spec().global_limit
                &&& forall|k: int|
                    0 <= k < i && old(self).scheduler_spec().states[k] == TaskState::Pending
                        ==> host_in_flight(
                        old(self).scheduler_spec(),
                        #[trigger] old(self).scheduler_spec().hosts[k],
                    ) >= old(self).scheduler_spec().per_host_limit
                &&& final(self).scheduler_spec().states == old(self).scheduler_spec().states.update(
                    i as int,
                    TaskState::Running,
                )
            }),
    {
        let ghost s0 = self.scheduler@;
        let r = self.scheduler.start_next();
        proof {
            if let Some(i) = r {
                lemma_done_update(s0.states, i as int, TaskState::Running, s0.states.len());
            }
            lemma_concurrency_bound(self.scheduler, Seq::empty());
        }
        r
    }

    /// The URL of target `i`.
    pub fn target_url(&self, i: usize) -> (r: &str)
        requires
            self.wf(),
            i < self.targets_spec().len(),
        ensures
            r@ == self.targets_spec()[i as int]@.url.href,
    {
        self.targets[i].url.as_str()
    }

    /// Whether target `i` has started and not yet completed.
    pub fn is_running(&self, i: usize) -> (r: bool)
        requires
            self.wf(),
        ensures
            r == (i < self.targets_spec().len() && self.scheduler_spec().states[i as int]
                == TaskState::Running),
    {
        i < self.targets.len() && self.scheduler.state(i) == TaskState::Running
    }

    /// Records the outcome of the fetch of target `i`: it counts as fetched,
    /// and an HTML page adds its scored entry.
    pub fn on_fetched(&mut self, i: usize, outcome: Result<FetchResult, String>)
        requires
            old(self).wf(),
            i < old(self).targets_spec().len(),
            old(self).scheduler_spec().states[i as int] == TaskState::Running,
        ensures
            final(self).wf(),
            within_limits(final(self).scheduler_spec()),
            final(self).targets_spec() == old(self).targets_spec(),
            final(self).scheduler_spec().hosts == old(self).scheduler_spec().hosts,
            final(self).scheduler_spec().global_limit == old(self).scheduler_spec().global_limit,
            final(self).scheduler_spec().per_host_limit == old(self).scheduler_spec().per_host_limit,
            final(self).scheduler_spec().states == old(self).scheduler_spec().states.update(
                i as int,
                TaskState::Done,
            ),
            final(self).fetched_spec() == old(self).fetched_spec() + 1,
            match outcome {
                Ok(fr) => if is_html_type(crate::weburl::opt_view(fr.content_type)) {
                    &&& final(self).results_spec().len() == old(self).results_spec().len() + 1
                    &&& final(self).results_spec().drop_last() == old(self).results_spec()
                    &&& scored_item(
                        final(self).results_spec().last(),
                        old(self).targets_spec()[i as int]@.url,
                        fr,
                    )
                } else {
                    final(self).results_spec() == old(self).results_spec()
                },
                Err(_) => final(self).results_spec() == old(self).results_spec(),
            },
    {
        let ghost s0 = self.scheduler@;
        let n = self.targets.len();
        proof {
            lemma_done_update(s0.states, i as int, TaskState::Done, s0.states.len());
            lemma_done_update(
                s0.states.update(i as int, TaskState::Done),
                i as int,
                TaskState::Done,
                s0.states.len(),
            );
            assert(s0.states.len() == n);
            assert(self.fetched < n);
        }
        self.scheduler.complete(i);
        proof {
            lemma_concurrency_bound(self.scheduler, Seq::empty());
        }
        self.fetched = self.fetched + 1;
        match outcome {
            Ok(fr) => {
                let ghost r0 = self.results@;
                match classify_fetch(&self.targets[i].url, fr) {
                    Some(item) => {
                        self.results.push(item);
                        assert(self.results@.drop_last() =~= r0);
                    },
                    None => {},
                }
            },
            Err(_) => {},
        }
    }

    /// Whether every target has completed.
    pub fn is_finished(&self) -> (r: bool)
        requires
            self.wf(),
        ensures
            r == (self.fetched_spec() == self.targets_spec().len()),
    {
        self.fetched == self.targets.len()
    }

    /// The report: the effective cap, the completed fetches, and the best
    /// `top_n` scored pages.
    pub fn finish(self, root: &WebUrl, tried: usize, top_n: usize) -> (r: DiscoverResp)
        requires
            self.wf(),
        ensures
            r.root_url@ == root@.href,
            r.tried == tried,
            r.fetched == self.fetched_spec(),
            r.results_top@ == top_of(self.results_spec(), top_n as int),
            r.note is None,
    {
        discovery_report(root, tried, self.fetched, self.results, top_n)
    }
}

} // verus!
