use contact_discovery::aggregate::merge_candidates;
use contact_discovery::candidate::{Candidate, Source};
use contact_discovery::discover::{build_pool, effective_fetch_cap, plan_fetches, sitemap_candidates};
use contact_discovery::heuristics::{
    candidates_from_anchors, candidates_from_root_html, heuristic_url_priority, known_contact_paths, Anchor,
};
use contact_discovery::weburl::WebUrl;

fn url(s: &str) -> WebUrl {
    WebUrl::parse(s).unwrap()
}

fn cand(s: &str, priority: i32, source: Source) -> Candidate {
    Candidate { url: url(s), priority, source }
}

#[test]
fn url_priority_single_keyword() {
    assert_eq!(heuristic_url_priority(&url("https://example.com/contact")), 30);
    assert_eq!(heuristic_url_priority(&url("https://example.com/about")), 0);
    assert_eq!(heuristic_url_priority(&url("https://example.com/CONTACT")), 30);
}

#[test]
fn url_priority_is_additive() {
    assert_eq!(heuristic_url_priority(&url("https://example.com/support/inquiry")), 60);
    assert_eq!(heuristic_url_priority(&url("https://example.com/company/contact")), 70);
}

#[test]
fn url_priority_percent_encoded_slug() {
    assert_eq!(heuristic_url_priority(&url("https://example.com/お問合せ")), 40);
    assert_eq!(heuristic_url_priority(&url("https://example.com/連絡先/")), 40);
    assert_eq!(heuristic_url_priority(&url("https://example.com/問い合わせ")), 40);
    // the phrase holds 問い合わせ as well
    assert_eq!(heuristic_url_priority(&url("https://example.com/お問い合わせ")), 80);
    assert_eq!(heuristic_url_priority(&url("https://example.com/お問い合せ")), 0);
}

#[test]
fn known_paths_resolve_against_root() {
    let root = url("https://example.com/some/page");
    let known = known_contact_paths(&root);
    assert_eq!(known.len(), 8);
    assert_eq!(known[0].url.as_str(), "https://example.com/contact");
    assert_eq!(known[0].priority, 80);
    assert_eq!(known[0].source, Source::KnownPath);
    assert_eq!(known[3].priority, 90);
    assert_eq!(known[7].url.as_str(), "https://example.com/about/contact");
}

#[test]
fn join_fails_on_non_base_url() {
    let root = url("mailto:someone@example.com");
    assert!(root.join("/contact").is_none());
    assert_eq!(known_contact_paths(&root).len(), 0);
}

#[test]
fn anchors_same_domain_with_text_and_threshold() {
    let root = url("https://example.com/");
    let html = "<a href=\"/contact\">お問い合わせ</a><a href=\"https://other.com/contact\">contact</a>\
                <a href=\"/about\">About us</a><a href=\"/inquiry\">   </a><a href=\"/help\">support</a>";
    let c = candidates_from_root_html(&root, html);
    assert_eq!(c.len(), 1);
    assert_eq!(c[0].url.as_str(), "https://example.com/contact");
    assert_eq!(c[0].priority, 125);
    assert_eq!(c[0].source, Source::RootAnchor);
}

#[test]
fn anchors_from_plain_values() {
    let root = url("https://example.com/");
    let anchors = vec![
        Anchor { href: "/soudan".to_string(), text: "ご相談はこちら".to_string() },
        Anchor { href: "/x".to_string(), text: "support".to_string() },
    ];
    let c = candidates_from_anchors(&root, &anchors);
    assert_eq!(c.len(), 1);
    assert_eq!(c[0].priority, 40);
}

#[test]
fn merge_keeps_higher_priority_duplicate() {
    let pool = vec![
        cand("https://example.com/contact", 10, Source::Sitemap),
        cand("https://example.com/a", 50, Source::Sitemap),
        cand("https://example.com/contact", 20, Source::RootAnchor),
    ];
    let merged = merge_candidates(pool);
    assert_eq!(merged.len(), 2);
    assert_eq!(merged[0].url.as_str(), "https://example.com/a");
    assert_eq!(merged[1].url.as_str(), "https://example.com/contact");
    assert_eq!(merged[1].priority, 20);
    assert_eq!(merged[1].source, Source::RootAnchor);
}

#[test]
fn merge_tie_keeps_first_seen_and_stable_order() {
    let pool = vec![
        cand("https://example.com/b", 30, Source::KnownPath),
        cand("https://example.com/a", 30, Source::KnownPath),
        cand("https://example.com/b", 30, Source::RootAnchor),
        cand("https://example.com/c", 90, Source::Sitemap),
    ];
    let merged = merge_candidates(pool);
    assert_eq!(merged.len(), 3);
    assert_eq!(merged[0].url.as_str(), "https://example.com/c");
    assert_eq!(merged[1].url.as_str(), "https://example.com/b");
    assert_eq!(merged[1].source, Source::KnownPath);
    assert_eq!(merged[2].url.as_str(), "https://example.com/a");
}

#[test]
fn sitemap_urls_with_positive_priority_only() {
    let urls = vec![url("https://example.com/news"), url("https://example.com/support")];
    let c = sitemap_candidates(urls);
    assert_eq!(c.len(), 1);
    assert_eq!(c[0].priority, 30);
    assert_eq!(c[0].source, Source::Sitemap);
}

#[test]
fn pool_order_is_known_then_sitemap_then_anchors() {
    let known = vec![cand("https://example.com/contact", 80, Source::KnownPath)];
    let anchors = vec![cand("https://example.com/x", 45, Source::RootAnchor)];
    let pool = build_pool(known, vec![url("https://example.com/inquiry")], anchors);
    assert_eq!(pool.len(), 3);
    assert_eq!(pool[1].source, Source::Sitemap);
    assert_eq!(pool[2].source, Source::RootAnchor);
}

#[test]
fn effective_cap_is_min_of_limits_and_pool() {
    assert_eq!(effective_fetch_cap(60, 20), 20);
    assert_eq!(effective_fetch_cap(3, 20), 3);
    let pool: Vec<Candidate> =
        (0..10).map(|i| cand(&format!("https://example.com/p{}", i), i, Source::Sitemap)).collect();
    let t = plan_fetches(pool, 3, 5);
    assert_eq!(t.len(), 3);
    assert_eq!(t[0].priority, 9);
    assert_eq!(t[2].priority, 7);
    let pool: Vec<Candidate> =
        (0..10).map(|i| cand(&format!("https://example.com/p{}", i), i, Source::Sitemap)).collect();
    assert_eq!(plan_fetches(pool, 60, 100).len(), 10);
}

#[test]
fn source_tags() {
    assert_eq!(Source::KnownPath.as_str(), "known_path");
    assert_eq!(Source::Sitemap.as_str(), "sitemap");
    assert_eq!(Source::RootAnchor.as_str(), "root_anchor");
}

#[test]
fn fetch_hosts_follow_targets() {
    let targets = vec![
        cand("https://a.example.com/contact", 80, Source::KnownPath),
        cand("https://b.example.com/x", 30, Source::Sitemap),
    ];
    let hosts = contact_discovery::discover::fetch_hosts(&targets);
    assert_eq!(hosts, vec!["a.example.com".to_string(), "b.example.com".to_string()]);
}
