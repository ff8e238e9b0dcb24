//! Absolute URLs as the library reads them: the serialized form together
//! with the parts the discovery rules look at.
use vstd::prelude::*;

verus! {

/// The parts of a parsed URL that the library reads.
pub ghost struct UrlView {
    /// The serialization, which is also the canonical key of a URL.
    pub href: Seq<char>,
    pub path: Seq<char>,
    pub host: Option<Seq<char>>,
    pub domain: Option<Seq<char>>,
}

/// A parsed, absolute URL.
pub struct WebUrl {
    href: String,
    path: String,
    host: Option<String>,
    domain: Option<String>,
}

pub open spec fn opt_view(o: Option<String>) -> Option<Seq<char>> {
    match o {
        Some(s) => Some(s@),
        None => None,
    }
}

impl View for WebUrl {
    type V = UrlView;

    closed spec fn view(&self) -> UrlView {
        UrlView {
            href: self.href@,
            path: self.path@,
            host: opt_view(self.host),
            domain: opt_view(self.domain),
        }
    }
}

pub open spec fn parsed_view(r: Result<WebUrl, String>) -> Result<UrlView, Seq<char>> {
    match r {
        Ok(u) => Ok(u@),
        Err(e) => Err(e@),
    }
}

pub open spec fn opt_url_view(r: Option<WebUrl>) -> Option<UrlView> {
    match r {
        Some(u) => Some(u@),
        None => None,
    }
}

/// The views of a sequence of URLs.
pub open spec fn urls_view(v: Seq<WebUrl>) -> Seq<UrlView> {
    v.map_values(|u: WebUrl| u@)
}

/// What `url::Url::parse` makes of a string: the URL's parts, or the error's text.
pub uninterp spec fn url_parse(s: Seq<char>) -> Result<UrlView, Seq<char>>;

/// What `url::Url::join` makes of a reference resolved against a base URL
/// given by its serialization.
pub uninterp spec fn url_join(base: Seq<char>, reference: Seq<char>) -> Option<UrlView>;

/// Relies on `url::Url::parse`; the URL's accessors only read its parts.
#[verifier::external_body]
pub(crate) fn parse_url(s: &str) -> (r: Result<WebUrl, String>)
    ensures
        parsed_view(r) == url_parse(s@),
{
    match url::Url::parse(s) {
        Ok(u) => Ok(WebUrl {
            href: u.as_str().to_string(),
            path: u.path().to_string(),
            host: u.host_str().map(|h| h.to_string()),
            domain: u.domain().map(|d| d.to_string()),
        }),
        Err(e) => Err(e.to_string()),
    }
}

/// Relies on `url::Url::join`, on a base re-read from its own serialization.
#[verifier::external_body]
pub(crate) fn join_url(base: &WebUrl, reference: &str) -> (r: Option<WebUrl>)
    ensures
        opt_url_view(r) == url_join(base@.href, reference@),
{
    let b = match url::Url::parse(&base.href) {
        Ok(b) => b,
        Err(_) => return None,
    };
    match b.join(reference) {
        Ok(u) => Some(WebUrl {
            href: u.as_str().to_string(),
            path: u.path().to_string(),
            host: u.host_str().map(|h| h.to_string()),
            domain: u.domain().map(|d| d.to_string()),
        }),
        Err(_) => None,
    }
}

fn copy_opt(o: &Option<String>) -> (r: Option<String>)
    ensures
        opt_view(r) == opt_view(*o),
{
    match o {
        Some(s) => Some(s.clone()),
        None => None,
    }
}

fn opt_eq(a: &Option<String>, b: &Option<String>) -> (r: bool)
    ensures
        r == (opt_view(*a) == opt_view(*b)),
{
    match (a, b) {
        (Some(x), Some(y)) => x.eq(y),
        (None, None) => true,
        _ => false,
    }
}

impl WebUrl {
    /// Parses an absolute URL; the error's text where it does not parse.
    pub fn parse(s: &str) -> (r: Result<WebUrl, String>)
        ensures
            parsed_view(r) == url_parse(s@),
    {
        parse_url(s)
    }

    /// Resolves a reference against this URL.
    pub fn join(&self, reference: &str) -> (r: Option<WebUrl>)
        ensures
            opt_url_view(r) == url_join(self@.href, reference@),
    {
        join_url(self, reference)
    }

    /// The serialization: the URL as a string, and its canonical key.
    pub fn as_str(&self) -> (r: &str)
        ensures
            r@ == self@.href,
    {
        self.href.as_str()
    }

    pub fn path(&self) -> (r: &str)
        ensures
            r@ == self@.path,
    {
        self.path.as_str()
    }

    pub fn host_str(&self) -> (r: Option<&str>)
        ensures
            r matches Some(h) ==> self@.host == Some(h@),
            r is None ==> self@.host is None,
    {
        match &self.host {
            Some(h) => Some(h.as_str()),
            None => None,
        }
    }

    /// A copy with the same parts.
    pub fn duplicate(&self) -> (r: WebUrl)
        ensures
            r@ == self@,
    {
        WebUrl {
            href: self.href.clone(),
            path: self.path.clone(),
            host: copy_opt(&self.host),
            domain: copy_opt(&self.domain),
        }
    }

    /// Whether the two URLs name the same domain (both may have none).
    pub fn same_domain(&self, other: &WebUrl) -> (r: bool)
        ensures
            r == (self@.domain == other@.domain),
    {
        opt_eq(&self.domain, &other.domain)
    }

    /// Whether the two URLs have the same canonical key.
    pub fn same_key(&self, other: &WebUrl) -> (r: bool)
        ensures
            r == (self@.href == other@.href),
    {
        self.href == other.href
    }
}

/// Lexicographic order of strings by code point, which is the order of
/// their UTF-8 bytes.
pub open spec fn lex_le(a: Seq<char>, b: Seq<char>) -> bool
    decreases a.len(),
{
    if a.len() == 0 {
        true
    } else if b.len() == 0 {
        false
    } else if a[0] != b[0] {
        (a[0] as u32) < (b[0] as u32)
    } else {
        lex_le(a.drop_first(), b.drop_first())
    }
}

/// Relies on `slice::sort_by_key`, keyed by the serialization: the same
/// URLs, in ascending order of their serialization (`String`'s order).
#[verifier::external_body]
pub(crate) fn sort_by_href(v: &mut Vec<WebUrl>)
    ensures
        final(v)@.len() == old(v)@.len(),
        forall|i: int|
            0 <= i < final(v)@.len() ==> urls_view(old(v)@).contains(
                #[trigger] final(v)@[i]@,
            ),
        forall|j: int|
            0 <= j < old(v)@.len() ==> urls_view(final(v)@).contains(
                #[trigger] old(v)@[j]@,
            ),
        forall|i: int, j: int|
            0 <= i < j < final(v)@.len() ==> lex_le(
                (#[trigger] final(v)@[i])@.href,
                (#[trigger] final(v)@[j])@.href,
            ),
{
    v.sort_by_key(|u| u.href.clone())
}

} // verus!
