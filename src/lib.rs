//! Finds the page of a website most likely to be its business contact form,
//! and ranks candidate pages by that likelihood.
//!
//! Candidates come from a table of conventional paths, from the site's
//! sitemaps and from the anchors of its home page; they are merged by
//! canonical URL, ranked by priority, fetched under a global and a per-host
//! limit, and each fetched HTML page is scored by a content classifier.
use vstd::prelude::*;

pub mod text;
pub mod weburl;
pub mod scoring;
pub mod candidate;
pub mod heuristics;
pub mod aggregate;
pub mod sitemap;
pub mod discover;
pub mod score_page;
pub mod scheduler;
