//! Scoring one page on request.
use vstd::prelude::*;
use crate::discover::{is_html, is_html_type, FetchResult};
use crate::scoring::{classify, score_contact_form_like};
use crate::text::{utf8_lossy, utf8_lossy_of};
use crate::weburl::opt_view;

verus! {

/// A request to score one page.
pub struct ScoreUrlReq {
    pub url: String,
}

/// The verdict on one page, with what its fetch returned.
pub struct ScoreUrlResp {
    pub url: String,
    pub status: i32,
    pub domain: Option<String>,
    pub content_type: Option<String>,
    pub size: i64,
    pub is_html: bool,
    pub score: Option<i32>,
    pub positives: Option<Vec<String>>,
    pub negatives: Option<Vec<String>>,
    pub note: Option<String>,
}

pub open spec fn not_html_note() -> Seq<char> {
    "content-typeがHTMLではありません"@
}

pub open spec fn fetch_error_note(err: Seq<char>) -> Seq<char> {
    "fetch error: "@ + err
}

pub open spec fn labels_view(v: Option<Vec<String>>) -> Option<Seq<Seq<char>>> {
    match v {
        Some(l) => Some(l@.map_values(|s: String| s@)),
        None => None,
    }
}

/// The response for a page: a failed fetch gives status 0 and a note with
/// the error; a page that is not HTML gives no score and a note; an HTML
/// page is scored on its body read as UTF-8.
pub fn score_url_response(url: String, outcome: Result<FetchResult, String>) -> (r: ScoreUrlResp)
    ensures
        r.url == url,
        outcome matches Err(e) ==> ({
            &&& r.status == 0
            &&& r.domain is None
            &&& r.content_type is None
            &&& r.size == 0
            &&& !r.is_html
            &&& r.score is None
            &&& r.positives is None
            &&& r.negatives is None
            &&& opt_view(r.note) == Some(fetch_error_note(e@))
        }),
        outcome matches Ok(fr) ==> ({
            &&& r.status == fr.status
            &&& opt_view(r.domain) == opt_view(fr.domain)
            &&& opt_view(r.content_type) == opt_view(fr.content_type)
            &&& r.size == fr.size
            &&& r.is_html == is_html_type(opt_view(fr.content_type))
            &&& if is_html_type(opt_view(fr.content_type)) {
                let v = classify(utf8_lossy_of(fr.body@));
                &&& r.score == Some(v.score as i32)
                &&& labels_view(r.positives) == Some(v.positives)
                &&& labels_view(r.negatives) == Some(v.negatives)
                &&& r.note is None
            } else {
                &&& r.score is None
                &&& r.positives is None
                &&& r.negatives is None
                &&& opt_view(r.note) == Some(not_html_note())
            }
        }),
{
    match outcome {
        Err(e) => ScoreUrlResp {
            url,
            status: 0,
            domain: None,
            content_type: None,
            size: 0,
            is_html: false,
            score: None,
            positives: None,
            negatives: None,
            note: Some("fetch error: ".to_string().concat(e.as_str())),
        },
        Ok(fr) => {
            if !is_html(&fr.content_type) {
                return ScoreUrlResp {
                    url,
                    status: fr.status,
                    domain: fr.domain,
                    content_type: fr.content_type,
                    size: fr.size,
                    is_html: false,
                    score: None,
                    positives: None,
                    negatives: None,
                    note: Some("content-typeがHTMLではありません".to_string()),
                };
            }
            let html = utf8_lossy(fr.body.as_slice());
            let s = score_contact_form_like(html.as_str());
            ScoreUrlResp {
                url,
                status: fr.status,
                domain: fr.domain,
                content_type: fr.content_type,
                size: fr.size,
                is_html: true,
                score: Some(s.score),
                positives: Some(s.positives),
                negatives: Some(s.negatives),
                note: None,
            }
        },
    }
}

} // verus!
