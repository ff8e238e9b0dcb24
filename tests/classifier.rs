use contact_discovery::discover::{classify_fetch, is_html, FetchResult};
use contact_discovery::score_page::score_url_response;
use contact_discovery::scoring::{score_contact_form_like, score_signals, Signals};
use contact_discovery::weburl::WebUrl;

const SCENARIO_A: &str = "<html><body><form><input type=\"email\" name=\"mail\"><textarea name=\"body\"></textarea></form><p>お問い合わせ</p></body></html>";

fn no_signals() -> Signals {
    Signals {
        email_input: false,
        textarea: false,
        submit_button: false,
        field_labels: false,
        contact_context: false,
        password_input: false,
        search_input: false,
        negative_context: false,
    }
}

#[test]
fn scenario_a_email_textarea_context_scores_76() {
    let r = score_contact_form_like(SCENARIO_A);
    assert_eq!(r.score, 76);
    assert_eq!(
        r.positives,
        vec![
            "input[type=email]".to_string(),
            "textarea".to_string(),
            "page_context(お問い合わせ/ご相談/資料請求/商談など)".to_string(),
        ]
    );
    assert!(r.negatives.is_empty());
}

#[test]
fn scenario_b_password_input_scores_38() {
    let html = SCENARIO_A.replace("</form>", "<input type=\"password\" name=\"pw\"></form>");
    let r = score_contact_form_like(&html);
    assert_eq!(r.score, 38);
    assert_eq!(r.negatives, vec!["password_input(ログイン系)".to_string()]);
}

#[test]
fn classifier_is_deterministic() {
    let a = score_contact_form_like(SCENARIO_A);
    let b = score_contact_form_like(SCENARIO_A);
    assert_eq!(a.score, b.score);
    assert_eq!(a.positives, b.positives);
    assert_eq!(a.negatives, b.negatives);
}

#[test]
fn score_is_clamped_to_range() {
    let mut all = no_signals();
    all.email_input = true;
    all.textarea = true;
    all.submit_button = true;
    all.field_labels = true;
    all.contact_context = true;
    assert_eq!(score_signals(all).score, 100);
    let mut neg = no_signals();
    neg.password_input = true;
    neg.search_input = true;
    neg.negative_context = true;
    let r = score_signals(neg);
    assert_eq!(r.score, 0);
    assert_eq!(r.negatives.len(), 3);
    assert_eq!(score_signals(no_signals()).score, 0);
}

#[test]
fn each_signal_weight() {
    let mut s = no_signals();
    s.submit_button = true;
    assert_eq!(score_signals(s).score, 12);
    s.field_labels = true;
    assert_eq!(score_signals(s).score, 24);
    s.contact_context = true;
    s.search_input = true;
    assert_eq!(score_signals(s).score, 26);
    s.negative_context = true;
    assert_eq!(score_signals(s).score, 8);
}

#[test]
fn plain_page_scores_zero_and_login_page_is_negative() {
    assert_eq!(score_contact_form_like("<html><body>hello</body></html>").score, 0);
    let r = score_contact_form_like("<p>ログイン</p><input type=\"search\">");
    assert_eq!(r.score, 0);
    assert_eq!(r.negatives.len(), 2);
}

#[test]
fn submit_button_and_field_labels_fire() {
    let r = score_contact_form_like("<label>会社名</label><button type=\"submit\">送信</button>");
    assert_eq!(r.score, 24);
}

#[test]
fn script_text_is_not_page_text() {
    let r = score_contact_form_like("<script>var a = 'お問い合わせ';</script><p>hello</p>");
    assert_eq!(r.score, 0);
}

#[test]
fn html_content_types() {
    assert!(is_html(&Some("TEXT/HTML; charset=utf-8".to_string())));
    assert!(is_html(&Some("application/xhtml+xml".to_string())));
    assert!(!is_html(&Some("application/json".to_string())));
    assert!(!is_html(&None));
}

#[test]
fn classify_fetch_scores_html_and_skips_other() {
    let url = WebUrl::parse("https://example.com/contact").unwrap();
    let page = FetchResult {
        status: 200,
        content_type: Some("text/html".to_string()),
        body: SCENARIO_A.as_bytes().to_vec(),
        size: SCENARIO_A.len() as i64,
        domain: Some("example.com".to_string()),
    };
    let item = classify_fetch(&url, page).unwrap();
    assert_eq!(item.url, "https://example.com/contact");
    assert_eq!(item.score, 76);
    assert_eq!(item.status, 200);
    let pdf = FetchResult {
        status: 200,
        content_type: Some("application/pdf".to_string()),
        body: vec![1, 2, 3],
        size: 3,
        domain: None,
    };
    assert!(classify_fetch(&url, pdf).is_none());
}

#[test]
fn invalid_utf8_body_is_still_scored() {
    let url = WebUrl::parse("https://example.com/").unwrap();
    let mut body = b"<textarea></textarea>".to_vec();
    body.push(0xff);
    let page = FetchResult {
        status: 200,
        content_type: Some("text/html".to_string()),
        body,
        size: 22,
        domain: None,
    };
    assert_eq!(classify_fetch(&url, page).unwrap().score, 28);
}

#[test]
fn score_url_response_cases() {
    let err = score_url_response("https://x.test/".to_string(), Err("boom".to_string()));
    assert_eq!(err.status, 0);
    assert!(!err.is_html);
    assert_eq!(err.note, Some("fetch error: boom".to_string()));
    let json = FetchResult {
        status: 200,
        content_type: Some("application/json".to_string()),
        body: b"{}".to_vec(),
        size: 2,
        domain: Some("x.test".to_string()),
    };
    let r = score_url_response("https://x.test/".to_string(), Ok(json));
    assert!(!r.is_html);
    assert_eq!(r.score, None);
    assert_eq!(r.note, Some("content-typeがHTMLではありません".to_string()));
    let page = FetchResult {
        status: 200,
        content_type: Some("text/html".to_string()),
        body: SCENARIO_A.as_bytes().to_vec(),
        size: 1,
        domain: Some("x.test".to_string()),
    };
    let r = score_url_response("https://x.test/".to_string(), Ok(page));
    assert!(r.is_html);
    assert_eq!(r.score, Some(76));
    assert_eq!(r.domain, Some("x.test".to_string()));
    assert_eq!(r.note, None);
}
