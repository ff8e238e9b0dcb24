use contact_discovery::candidate::{Candidate, Source};
use contact_discovery::discover::{FetchResult, FetchRun};
use contact_discovery::discover::{check_pool, check_sitemaps, discovery_report, start_discovery, DiscoverItem, DiscoverReq};
use contact_discovery::scheduler::{FetchScheduler, TaskState};
use contact_discovery::sitemap::{
    parse_sitemap_xml, discover_sitemaps, sitemap_entries_from_events, sitemaps_from_robots, sitemaps_to_fetch,
    XmlEvent,
};
use contact_discovery::weburl::WebUrl;
use contact_discovery::discover::{d_concurrency, d_fetch_limit, d_heur_limit, d_topn};

fn url(s: &str) -> WebUrl {
    WebUrl::parse(s).unwrap()
}

fn urlset(n: usize) -> String {
    let mut s = String::from("<?xml version=\"1.0\" encoding=\"UTF-8\"?>\n<urlset xmlns=\"http://www.sitemaps.org/schemas/sitemap/0.9\">\n");
    for i in 0..n {
        s.push_str(&format!("  <url><loc>https://example.com/page{}</loc></url>\n", i));
    }
    s.push_str("</urlset>\n");
    s
}

#[test]
fn scenario_e_sitemap_capped_in_document_order() {
    let base = url("https://example.com/sitemap.xml");
    let xml = urlset(200);
    let r = parse_sitemap_xml(xml.as_bytes(), &base, 50).unwrap();
    assert_eq!(r.urls.len(), 50);
    assert_eq!(r.urls[0].as_str(), "https://example.com/page0");
    assert_eq!(r.urls[49].as_str(), "https://example.com/page49");
    assert!(!r.is_index);
}

#[test]
fn sitemap_parse_halts_at_cap_before_malformed_tail() {
    let base = url("https://example.com/sitemap.xml");
    let mut xml = urlset(60);
    xml.push_str("<url><loc>x</wrong>");
    assert_eq!(parse_sitemap_xml(xml.as_bytes(), &base, 50).unwrap().urls.len(), 50);
    assert!(parse_sitemap_xml(xml.as_bytes(), &base, 2000).is_err());
}

#[test]
fn sitemap_relative_locations_and_index() {
    let base = url("https://example.com/maps/sitemap.xml");
    let xml = "<sitemapindex><sitemap><LOC>/a.xml</LOC></sitemap><sitemap><loc>https://cdn.example.com/b.xml</loc></sitemap></sitemapindex>";
    let r = parse_sitemap_xml(xml.as_bytes(), &base, 10).unwrap();
    assert!(r.is_index);
    assert_eq!(r.urls.len(), 2);
    assert_eq!(r.urls[0].as_str(), "https://example.com/a.xml");
    assert_eq!(r.urls[1].as_str(), "https://cdn.example.com/b.xml");
}

#[test]
fn sitemap_from_events_stops_at_error() {
    let base = url("https://example.com/");
    let events = vec![
        XmlEvent::Start(b"loc".to_vec()),
        XmlEvent::Text("/one".to_string()),
        XmlEvent::End(b"loc".to_vec()),
        XmlEvent::Error("bad".to_string()),
    ];
    match sitemap_entries_from_events(&events, &base, 10) {
        Err(m) => assert_eq!(m, "bad"),
        Ok(_) => panic!("expected an error"),
    }
    let r = sitemap_entries_from_events(&events, &base, 1).unwrap();
    assert_eq!(r.urls.len(), 1);
    assert_eq!(r.urls[0].as_str(), "https://example.com/one");
}

#[test]
fn text_outside_loc_is_ignored() {
    let base = url("https://example.com/");
    let events = vec![
        XmlEvent::Start(b"lastmod".to_vec()),
        XmlEvent::Text("/not-a-page".to_string()),
        XmlEvent::End(b"lastmod".to_vec()),
        XmlEvent::Eof,
    ];
    let r = sitemap_entries_from_events(&events, &base, 10).unwrap();
    assert_eq!(r.urls.len(), 0);
}

#[test]
fn robots_sitemap_lines() {
    let root = url("https://example.com/");
    let robots = "User-agent: *\nDisallow: /admin\n  Sitemap: https://example.com/sm1.xml  \r\nsitemap: /sm2.xml\n# Sitemap: /hidden.xml\nSITEMAP: /upper.xml\n";
    let found = sitemaps_from_robots(&root, robots);
    assert_eq!(found.len(), 3);
    assert_eq!(found[0].as_str(), "https://example.com/sm1.xml");
    assert_eq!(found[1].as_str(), "https://example.com/sm2.xml");
    assert_eq!(found[2].as_str(), "https://example.com/upper.xml");
}

#[test]
fn fallback_to_conventional_sitemap() {
    let root = url("https://example.com/shop/");
    let s = discover_sitemaps(&root, Vec::new());
    assert_eq!(s.len(), 1);
    assert_eq!(s[0].as_str(), "https://example.com/sitemap.xml");
}

#[test]
fn sitemaps_sorted_and_deduplicated() {
    let root = url("https://example.com/");
    let v = vec![url("https://example.com/z.xml"), url("https://example.com/a.xml"), url("https://example.com/z.xml")];
    let s = discover_sitemaps(&root, v);
    assert_eq!(s.len(), 2);
    assert_eq!(s[0].as_str(), "https://example.com/a.xml");
    assert_eq!(s[1].as_str(), "https://example.com/z.xml");
    let many: Vec<WebUrl> = (0..8).map(|i| url(&format!("https://example.com/s{}.xml", i))).collect();
    assert_eq!(sitemaps_to_fetch(many).len(), 5);
}

#[test]
fn scenario_c_invalid_root_url() {
    let root = "not a url".to_string();
    match start_discovery(&root) {
        Err(resp) => {
            assert_eq!(resp.tried, 0);
            assert_eq!(resp.fetched, 0);
            assert!(resp.results_top.is_empty());
            assert!(resp.note.unwrap().starts_with("invalid root_url"));
        }
        Ok(_) => panic!("expected the request to stop"),
    }
    assert!(start_discovery(&"https://example.com/".to_string()).is_ok());
}

#[test]
fn scenario_d_no_sitemap_discovered() {
    let root_url = "mailto:someone@example.com".to_string();
    let root = start_discovery(&root_url).ok().unwrap();
    let sitemaps = discover_sitemaps(&root, Vec::new());
    assert!(sitemaps.is_empty());
    let resp = check_sitemaps(&root_url, &sitemaps).unwrap();
    assert_eq!(resp.tried, 0);
    assert_eq!(resp.fetched, 0);
    assert!(resp.results_top.is_empty());
    assert_eq!(resp.note, Some("no sitemap discovered".to_string()));
    let resp = check_pool(&root_url, &Vec::new()).unwrap();
    assert_eq!(resp.note, Some("no candidate URLs found".to_string()));
}

fn item(u: &str, score: i32) -> DiscoverItem {
    DiscoverItem {
        url: u.to_string(),
        score,
        positives: vec![],
        negatives: vec![],
        status: 200,
        content_type: Some("text/html".to_string()),
        size: 10,
    }
}

#[test]
fn report_ranks_and_truncates() {
    let root = url("https://example.com");
    let results = vec![item("a", 20), item("b", 76), item("c", 20), item("d", 90)];
    let r = discovery_report(&root, 7, 6, results, 3);
    assert_eq!(r.root_url, "https://example.com/");
    assert_eq!(r.tried, 7);
    assert_eq!(r.fetched, 6);
    let urls: Vec<&str> = r.results_top.iter().map(|i| i.url.as_str()).collect();
    assert_eq!(urls, vec!["d", "b", "a"]);
    assert_eq!(r.note, None);
}

#[test]
fn request_defaults() {
    let r = DiscoverReq::new("https://example.com".to_string());
    assert_eq!(r.sitemap_url_limit, 2000);
    assert_eq!(r.fetch_limit, 60);
    assert_eq!(r.top_n, 5);
    assert_eq!(r.concurrency, 16);
    assert_eq!((d_heur_limit(), d_fetch_limit(), d_topn(), d_concurrency()), (2000, 60, 5, 16));
}

#[test]
fn scheduler_respects_per_host_limit() {
    let hosts = vec!["a.com".to_string(), "a.com".to_string(), "a.com".to_string(), "b.com".to_string()];
    let mut s = FetchScheduler::new(hosts, 16, 2);
    assert_eq!(s.start_next(), Some(0));
    assert_eq!(s.start_next(), Some(1));
    assert_eq!(s.start_next(), Some(3));
    assert_eq!(s.start_next(), None);
    assert_eq!(s.host_in_flight(&"a.com".to_string()), 2);
    s.complete(0);
    assert_eq!(s.state(0), TaskState::Done);
    assert_eq!(s.start_next(), Some(2));
    assert_eq!(s.in_flight(), 3);
}

#[test]
fn scheduler_respects_global_limit() {
    let hosts = vec!["a.com".to_string(), "b.com".to_string(), "c.com".to_string()];
    let mut s = FetchScheduler::new(hosts, 1, 4);
    assert_eq!(s.start_next(), Some(0));
    assert_eq!(s.start_next(), None);
    assert_eq!(s.in_flight(), 1);
    s.complete(0);
    assert_eq!(s.start_next(), Some(1));
    assert_eq!(s.len(), 3);
}

#[test]
fn fetch_run_counts_every_completion() {
    let targets = vec![
        Candidate { url: url("https://example.com/contact"), priority: 80, source: Source::KnownPath },
        Candidate { url: url("https://example.com/inquiry"), priority: 70, source: Source::KnownPath },
        Candidate { url: url("https://example.com/doc.pdf"), priority: 30, source: Source::Sitemap },
    ];
    let mut run = FetchRun::new(targets, 2, 1);
    assert_eq!(run.next_fetch(), Some(0));
    assert_eq!(run.next_fetch(), None);
    assert_eq!(run.target_url(0), "https://example.com/contact");
    let page = FetchResult {
        status: 200,
        content_type: Some("text/html".to_string()),
        body: b"<textarea></textarea>".to_vec(),
        size: 21,
        domain: None,
    };
    assert!(run.is_running(0));
    run.on_fetched(0, Ok(page));
    assert!(!run.is_running(0));
    assert_eq!(run.next_fetch(), Some(1));
    run.on_fetched(1, Err("timeout".to_string()));
    assert_eq!(run.next_fetch(), Some(2));
    let pdf = FetchResult { status: 200, content_type: Some("application/pdf".to_string()), body: vec![], size: 0, domain: None };
    run.on_fetched(2, Ok(pdf));
    assert!(run.is_finished());
    let report = run.finish(&url("https://example.com/"), 3, 5);
    assert_eq!(report.tried, 3);
    assert_eq!(report.fetched, 3);
    assert_eq!(report.results_top.len(), 1);
    assert_eq!(report.results_top[0].url, "https://example.com/contact");
    assert_eq!(report.results_top[0].score, 28);
}

#[test]
fn sitemap_bad_location_skipped_relative_joined() {
    let base = url("https://example.com/sitemap.xml");
    let xml = "<urlset><url><loc>https://example.com/a</loc></url><url><loc>http://[bad</loc></url><url><loc>/b</loc></url></urlset>";
    let r = parse_sitemap_xml(xml.as_bytes(), &base, 10).unwrap();
    let got: Vec<&str> = r.urls.iter().map(|u| u.as_str()).collect();
    assert_eq!(got, vec!["https://example.com/a", "https://example.com/b"]);
}

#[test]
fn sitemap_index_own_locations_returned() {
    let base = url("https://example.com/sitemap.xml");
    let xml = "<sitemapindex><sitemap><loc>https://example.com/s1.xml</loc></sitemap></sitemapindex>";
    let r = parse_sitemap_xml(xml.as_bytes(), &base, 10).unwrap();
    assert!(r.is_index);
    assert_eq!(r.urls.len(), 1);
    assert_eq!(r.urls[0].as_str(), "https://example.com/s1.xml");
}

#[test]
fn sitemap_structural_error_before_cap_fails() {
    let base = url("https://example.com/sitemap.xml");
    let xml = "<urlset><url><loc>https://example.com/a</loc></oops></urlset>";
    assert!(parse_sitemap_xml(xml.as_bytes(), &base, 10).is_err());
}
