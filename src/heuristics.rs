//! Priority rules for candidate URLs: keywords in the URL path, the table
//! of conventional contact paths, and the anchors of the home page.
use vstd::prelude::*;
use crate::candidate::{cands_view, lemma_cands_view_push, opt_seq, Candidate, CandidateView, Source};
use crate::text::{contains_seq, contains_str, lower_of, lowercase, trim, trim_of};
use crate::weburl::{join_url, url_join, UrlView, WebUrl};

verus! {

pub const URL_KEYWORD_COUNT: usize = 10;

/// The keywords looked for in a lower-cased URL path, with their weights.
/// A path is percent-encoded, so the localized phrases (お問い合わせ,
/// お問合せ, 連絡先, 問い合わせ) stand in their lower-case encoded form.
pub open spec fn url_keyword(i: int) -> (Seq<char>, int) {
    if i == 0 {
        ("contact"@, 30)
    } else if i == 1 {
        ("contact-us"@, 30)
    } else if i == 2 {
        ("inquiry"@, 30)
    } else if i == 3 {
        ("support"@, 30)
    } else if i == 4 {
        ("%e3%81%8a%e5%95%8f%e3%81%84%e5%90%88%e3%82%8f%e3%81%9b"@, 40)
    } else if i == 5 {
        ("%e3%81%8a%e5%95%8f%e5%90%88%e3%81%9b"@, 40)
    } else if i == 6 {
        ("%e9%80%a3%e7%b5%a1%e5%85%88"@, 40)
    } else if i == 7 {
        ("%e5%95%8f%e3%81%84%e5%90%88%e3%82%8f%e3%81%9b"@, 40)
    } else if i == 8 {
        ("company/contact"@, 40)
    } else {
        ("about/contact"@, 40)
    }
}

fn url_keyword_at(i: usize) -> (r: (&'static str, i32))
    requires
        i < URL_KEYWORD_COUNT,
    ensures
        r.0@ == url_keyword(i as int).0,
        r.1 == url_keyword(i as int).1,
{
    if i == 0 {
        ("contact", 30)
    } else if i == 1 {
        ("contact-us", 30)
    } else if i == 2 {
        ("inquiry", 30)
    } else if i == 3 {
        ("support", 30)
    } else if i == 4 {
        ("%e3%81%8a%e5%95%8f%e3%81%84%e5%90%88%e3%82%8f%e3%81%9b", 40)
    } else if i == 5 {
        ("%e3%81%8a%e5%95%8f%e5%90%88%e3%81%9b", 40)
    } else if i == 6 {
        ("%e9%80%a3%e7%b5%a1%e5%85%88", 40)
    } else if i == 7 {
        ("%e5%95%8f%e3%81%84%e5%90%88%e3%82%8f%e3%81%9b", 40)
    } else if i == 8 {
        ("company/contact", 40)
    } else {
        ("about/contact", 40)
    }
}

/// The weights of the first `n` keywords of `kw` that occur in `s`, summed.
pub open spec fn weight_sum(s: Seq<char>, kw: spec_fn(int) -> (Seq<char>, int), n: nat) -> int
    decreases n,
{
    if n == 0 {
        0
    } else {
        weight_sum(s, kw, (n - 1) as nat) + if contains_seq(s, kw(n - 1).0) {
            kw(n - 1).1
        } else {
            0
        }
    }
}

/// The priority of a lower-cased URL path: every keyword that occurs adds
/// its weight, with no early exit.
pub open spec fn path_priority(path: Seq<char>) -> int {
    weight_sum(path, |i: int| url_keyword(i), URL_KEYWORD_COUNT as nat)
}

/// The priority of a URL, from its lower-cased path.
pub open spec fn url_priority(u: UrlView) -> int {
    path_priority(lower_of(u.path))
}

proof fn lemma_weight_sum_bounds(s: Seq<char>, kw: spec_fn(int) -> (Seq<char>, int), n: nat, max: int)
    requires
        0 <= max,
        forall|i: int| 0 <= i < n ==> 0 <= #[trigger] kw(i).1 <= max,
    ensures
        0 <= weight_sum(s, kw, n) <= n * max,
    decreases n,
{
    if n > 0 {
        let m = (n - 1) as nat;
        lemma_weight_sum_bounds(s, kw, m, max);
        assert(0 <= kw(m as int).1 <= max);
        assert(m * max + max == n * max) by (nonlinear_arith)
            requires
                m + 1 == n,
        ;
    }
}

proof fn lemma_weight_sum_two(
    s: Seq<char>,
    kw: spec_fn(int) -> (Seq<char>, int),
    n: nat,
    i: int,
    j: int,
)
    requires
        i != j,
        contains_seq(s, kw(i).0),
        contains_seq(s, kw(j).0),
        forall|k: int| 0 <= k < n && k != i && k != j ==> !contains_seq(s, #[trigger] kw(k).0),
    ensures
        weight_sum(s, kw, n) == (if 0 <= i < n {
            kw(i).1
        } else {
            0
        }) + (if 0 <= j < n {
            kw(j).1
        } else {
            0
        }),
    decreases n,
{
    if n > 0 {
        lemma_weight_sum_two(s, kw, (n - 1) as nat, i, j);
    }
}

/// Priority is additive: a path that holds exactly two distinct keywords
/// of the table scores the sum of their two weights.
pub proof fn lemma_priority_additive(path: Seq<char>, i: int, j: int)
    requires
        0 <= i < URL_KEYWORD_COUNT,
        0 <= j < URL_KEYWORD_COUNT,
        i != j,
        contains_seq(path, url_keyword(i).0),
        contains_seq(path, url_keyword(j).0),
        forall|k: int|
            0 <= k < URL_KEYWORD_COUNT && k != i && k != j ==> !contains_seq(
                path,
                #[trigger] url_keyword(k).0,
            ),
    ensures
        path_priority(path) == url_keyword(i).1 + url_keyword(j).1,
{
    let kw = |k: int| url_keyword(k);
    assert forall|k: int| 0 <= k < URL_KEYWORD_COUNT && k != i && k != j implies !contains_seq(
        path,
        #[trigger] kw(k).0,
    ) by {
        assert(kw(k) == url_keyword(k));
    }
    lemma_weight_sum_two(path, kw, URL_KEYWORD_COUNT as nat, i, j);
}

/// The weights of the keywords found in `s`, summed: over the URL-path
/// table where `is_url`, else over the anchor-text table.
fn keyword_score(s: &str, is_url: bool) -> (r: i32)
    ensures
        is_url ==> r == path_priority(s@),
        !is_url ==> r == text_priority(s@),
        0 <= r <= 750,
{
    let ghost kw = if is_url {
        |i: int| url_keyword(i)
    } else {
        |i: int| anchor_keyword(i)
    };
    let n: usize = if is_url {
        URL_KEYWORD_COUNT
    } else {
        ANCHOR_KEYWORD_COUNT
    };
    proof {
        lemma_weight_sum_bounds(s@, kw, n as nat, 50);
    }
    let mut score: i32 = 0;
    let mut i: usize = 0;
    while i < n
        invariant
            n <= 15,
            is_url ==> n == URL_KEYWORD_COUNT && kw == (|k: int| url_keyword(k)),
            !is_url ==> n == ANCHOR_KEYWORD_COUNT && kw == (|k: int| anchor_keyword(k)),
            i <= n,
            score == weight_sum(s@, kw, i as nat),
            0 <= weight_sum(s@, kw, n as nat) <= n * 50,
            forall|k: int| 0 <= k < n ==> 0 <= #[trigger] kw(k).1 <= 50,
        decreases n - i,
    {
        let (word, w) = if is_url {
            url_keyword_at(i)
        } else {
            anchor_keyword_at(i)
        };
        proof {
            lemma_weight_sum_bounds(s@, kw, (i + 1) as nat, 50);
        }
        if contains_str(s, word) {
            score = score + w;
        }
        i += 1;
    }
    score
}

/// The priority of a URL: each keyword of the table found in its
/// lower-cased path adds its weight.
pub fn heuristic_url_priority(u: &WebUrl) -> (r: i32)
    ensures
        r == url_priority(u@),
        0 <= r <= 750,
{
    let path = lowercase(u.path());
    keyword_score(path.as_str(), true)
}

pub const ANCHOR_KEYWORD_COUNT: usize = 15;

/// The phrases looked for in the visible text of an anchor, with their weights.
pub open spec fn anchor_keyword(i: int) -> (Seq<char>, int) {
    if i == 0 {
        ("お問い合わせ"@, 50)
    } else if i == 1 {
        ("お問合せ"@, 50)
    } else if i == 2 {
        ("問い合わせ"@, 45)
    } else if i == 3 {
        ("ご相談"@, 40)
    } else if i == 4 {
        ("ご依頼"@, 40)
    } else if i == 5 {
        ("資料請求"@, 35)
    } else if i == 6 {
        ("商談"@, 35)
    } else if i == 7 {
        ("連絡先"@, 35)
    } else if i == 8 {
        ("企業様向け"@, 25)
    } else if i == 9 {
        ("法人様向け"@, 25)
    } else if i == 10 {
        ("協業"@, 25)
    } else if i == 11 {
        ("提携"@, 25)
    } else if i == 12 {
        ("contact"@, 30)
    } else if i == 13 {
        ("inquiry"@, 30)
    } else {
        ("support"@, 15)
    }
}

fn anchor_keyword_at(i: usize) -> (r: (&'static str, i32))
    requires
        i < ANCHOR_KEYWORD_COUNT,
    ensures
        r.0@ == anchor_keyword(i as int).0,
        r.1 == anchor_keyword(i as int).1,
{
    if i == 0 {
        ("お問い合わせ", 50)
    } else if i == 1 {
        ("お問合せ", 50)
    } else if i == 2 {
        ("問い合わせ", 45)
    } else if i == 3 {
        ("ご相談", 40)
    } else if i == 4 {
        ("ご依頼", 40)
    } else if i == 5 {
        ("資料請求", 35)
    } else if i == 6 {
        ("商談", 35)
    } else if i == 7 {
        ("連絡先", 35)
    } else if i == 8 {
        ("企業様向け", 25)
    } else if i == 9 {
        ("法人様向け", 25)
    } else if i == 10 {
        ("協業", 25)
    } else if i == 11 {
        ("提携", 25)
    } else if i == 12 {
        ("contact", 30)
    } else if i == 13 {
        ("inquiry", 30)
    } else {
        ("support", 15)
    }
}

/// The score of an anchor's visible text: each phrase found adds its weight.
pub open spec fn text_priority(text: Seq<char>) -> int {
    weight_sum(text, |i: int| anchor_keyword(i), ANCHOR_KEYWORD_COUNT as nat)
}

pub const KNOWN_PATH_COUNT: usize = 8;

/// The conventional contact paths, with their base priorities.
pub open spec fn known_path(i: int) -> (Seq<char>, int) {
    if i == 0 {
        ("/contact"@, 80)
    } else if i == 1 {
        ("/contact-us"@, 75)
    } else if i == 2 {
        ("/inquiry"@, 70)
    } else if i == 3 {
        ("/お問い合わせ"@, 90)
    } else if i == 4 {
        ("/お問合せ"@, 90)
    } else if i == 5 {
        ("/連絡先"@, 70)
    } else if i == 6 {
        ("/company/contact"@, 75)
    } else {
        ("/about/contact"@, 70)
    }
}

fn known_path_at(i: usize) -> (r: (&'static str, i32))
    requires
        i < KNOWN_PATH_COUNT,
    ensures
        r.0@ == known_path(i as int).0,
        r.1 == known_path(i as int).1,
{
    if i == 0 {
        ("/contact", 80)
    } else if i == 1 {
        ("/contact-us", 75)
    } else if i == 2 {
        ("/inquiry", 70)
    } else if i == 3 {
        ("/お問い合わせ", 90)
    } else if i == 4 {
        ("/お問合せ", 90)
    } else if i == 5 {
        ("/連絡先", 70)
    } else if i == 6 {
        ("/company/contact", 75)
    } else {
        ("/about/contact", 70)
    }
}

/// The candidate for the `i`-th known path, where it resolves against the root.
pub open spec fn known_candidate(root: UrlView, i: int) -> Option<CandidateView> {
    match url_join(root.href, known_path(i).0) {
        Some(u) => Some(CandidateView { url: u, priority: known_path(i).1, source: Source::KnownPath }),
        None => None,
    }
}

/// The candidates of the first `n` known paths, in table order.
pub open spec fn known_candidates(root: UrlView, n: nat) -> Seq<CandidateView>
    decreases n,
{
    if n == 0 {
        Seq::empty()
    } else {
        known_candidates(root, (n - 1) as nat) + opt_seq(known_candidate(root, n - 1))
    }
}

/// The conventional contact paths resolved against the root, in table
/// order; a path that does not resolve is skipped.
pub fn known_contact_paths(root: &WebUrl) -> (r: Vec<Candidate>)
    ensures
        cands_view(r@) == known_candidates(root@, KNOWN_PATH_COUNT as nat),
{
    let mut out: Vec<Candidate> = Vec::new();
    let mut i: usize = 0;
    while i < KNOWN_PATH_COUNT
        invariant
            i <= KNOWN_PATH_COUNT,
            cands_view(out@) == known_candidates(root@, i as nat),
        decreases KNOWN_PATH_COUNT - i,
    {
        let (path, base) = known_path_at(i);
        let joined = join_url(root, path);
        match joined {
            Some(u) => {
                let c = Candidate { url: u, priority: base, source: Source::KnownPath };
                proof {
                    lemma_cands_view_push(out@, c);
                }
                out.push(c);
            },
            None => {},
        }
        assert(cands_view(out@) =~= known_candidates(root@, (i + 1) as nat));
        i += 1;
    }
    out
}

/// An anchor of a page: its `href` and its visible text.
pub struct Anchor {
    pub href: String,
    pub text: String,
}

pub open spec fn anchors_view(v: Seq<Anchor>) -> Seq<(Seq<char>, Seq<char>)> {
    v.map_values(|a: Anchor| (a.href@, a.text@))
}

/// The anchors with an `href` of an HTML document, in the order in which
/// `scraper`'s `select` yields them for the selector `a[href]`.
pub uninterp spec fn html_anchors(html: Seq<char>) -> Seq<(Seq<char>, Seq<char>)>;

/// Relies on `scraper`'s `Html::parse_document`, `Selector::parse` and
/// `select`: the anchors with an `href`, with their text.
#[verifier::external_body]
fn extract_anchors(html: &str) -> (r: Vec<Anchor>)
    ensures
        anchors_view(r@) == html_anchors(html@),
{
    let doc = scraper::Html::parse_document(html);
    match scraper::Selector::parse("a[href]") {
        Ok(sel) => doc.select(&sel).map(|a| Anchor {
            href: a.value().attr("href").unwrap_or_default().to_string(),
            text: a.text().collect(),
        }).collect(),
        Err(_) => Vec::new(),
    }
}

/// The candidate an anchor of the root page gives: one with visible text,
/// resolving to a URL of the root's domain, whose text score plus URL
/// priority reaches 30.
pub open spec fn anchor_candidate(root: UrlView, href: Seq<char>, text: Seq<char>) -> Option<
    CandidateView,
> {
    if trim_of(text).len() == 0 {
        None
    } else {
        match url_join(root.href, href) {
            Some(u) => {
                let s = text_priority(text) + url_priority(u);
                if u.domain == root.domain && s >= 30 {
                    Some(CandidateView { url: u, priority: s, source: Source::RootAnchor })
                } else {
                    None
                }
            },
            None => None,
        }
    }
}

/// The candidates of a sequence of anchors, in order.
pub open spec fn anchor_candidates(root: UrlView, anchors: Seq<(Seq<char>, Seq<char>)>) -> Seq<
    CandidateView,
>
    decreases anchors.len(),
{
    if anchors.len() == 0 {
        Seq::empty()
    } else {
        anchor_candidates(root, anchors.drop_last()) + opt_seq(
            anchor_candidate(root, anchors.last().0, anchors.last().1),
        )
    }
}

/// The candidates among the anchors of the root page: same-domain anchors
/// with visible text whose combined score reaches 30.
pub fn candidates_from_anchors(root: &WebUrl, anchors: &Vec<Anchor>) -> (r: Vec<Candidate>)
    ensures
        cands_view(r@) == anchor_candidates(root@, anchors_view(anchors@)),
{
    let mut out: Vec<Candidate> = Vec::new();
    let mut i: usize = 0;
    while i < anchors.len()
        invariant
            i <= anchors@.len(),
            cands_view(out@) == anchor_candidates(root@, anchors_view(anchors@.take(i as int))),
        decreases anchors@.len() - i,
    {
        let a = &anchors[i];
        let visible = trim(a.text.as_str());
        if visible.unicode_len() > 0 {
            match join_url(root, a.href.as_str()) {
                Some(u) => {
                    let s = keyword_score(a.text.as_str(), false) + heuristic_url_priority(&u);
                    if u.same_domain(root) && s >= 30 {
                        let c = Candidate { url: u, priority: s, source: Source::RootAnchor };
                        proof {
                            lemma_cands_view_push(out@, c);
                        }
                        out.push(c);
                    }
                },
                None => {},
            }
        }
        proof {
            let pre = anchors_view(anchors@.take(i as int));
            let post = anchors_view(anchors@.take(i + 1));
            assert(post.drop_last() =~= pre);
            assert(post.last() == (a.href@, a.text@));
            assert(cands_view(out@) =~= anchor_candidates(root@, pre) + opt_seq(
                anchor_candidate(root@, a.href@, a.text@),
            ));
        }
        i += 1;
    }
    assert(anchors@.take(anchors@.len() as int) =~= anchors@);
    out
}

/// The candidates among the anchors of the root page's HTML.
pub fn candidates_from_root_html(root: &WebUrl, html: &str) -> (r: Vec<Candidate>)
    ensures
        cands_view(r@) == anchor_candidates(root@, html_anchors(html@)),
{
    let anchors = extract_anchors(html);
    candidates_from_anchors(root, &anchors)
}

} // verus!
