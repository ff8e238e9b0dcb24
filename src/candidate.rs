//! Candidate pages: a URL, its priority and where it was found.
use vstd::prelude::*;
use crate::weburl::{UrlView, WebUrl};

verus! {

/// Which discovery source produced a candidate.
#[derive(Clone, Copy, Debug, PartialEq, Eq, Structural)]
pub enum Source {
    KnownPath,
    Sitemap,
    RootAnchor,
}

/// The tag of each source.
pub open spec fn source_tag(s: Source) -> Seq<char> {
    match s {
        Source::KnownPath => "known_path"@,
        Source::Sitemap => "sitemap"@,
        Source::RootAnchor => "root_anchor"@,
    }
}

impl Source {
    /// The tag of the source, as reported alongside a candidate.
    pub fn as_str(&self) -> (r: &'static str)
        ensures
            r@ == source_tag(*self),
    {
        match self {
            Source::KnownPath => "known_path",
            Source::Sitemap => "sitemap",
            Source::RootAnchor => "root_anchor",
        }
    }
}

/// A page that may be the contact page.
pub struct Candidate {
    pub url: WebUrl,
    pub priority: i32,
    pub source: Source,
}

pub ghost struct CandidateView {
    pub url: UrlView,
    pub priority: int,
    pub source: Source,
}

impl View for Candidate {
    type V = CandidateView;

    open spec fn view(&self) -> CandidateView {
        CandidateView { url: self.url@, priority: self.priority as int, source: self.source }
    }
}

/// The views of a sequence of candidates.
pub open spec fn cands_view(v: Seq<Candidate>) -> Seq<CandidateView> {
    v.map_values(|c: Candidate| c@)
}

/// An optional item as a sequence of zero or one items.
pub open spec fn opt_seq<T>(o: Option<T>) -> Seq<T> {
    match o {
        Some(x) => seq![x],
        None => Seq::empty(),
    }
}

pub proof fn lemma_cands_view_push(v: Seq<Candidate>, c: Candidate)
    ensures
        cands_view(v.push(c)) == cands_view(v).push(c@),
{
    assert(cands_view(v.push(c)) =~= cands_view(v).push(c@));
}

} // verus!
