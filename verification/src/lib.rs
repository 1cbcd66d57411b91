//! Discover, deduplicate, rank and optionally enrich the dependents of a
//! repository: the pipeline walks the paginated dependents listing through a
//! time-expiring disk cache and a retrying fetcher, normalizes the displayed
//! star counts, reduces the records to a sorted top-N selection, and attaches
//! one description per selected record.
//!
//! Everything that decides or computes lives here, verified: the star-count
//! normalization, the ranking reduction, the pagination and retry state
//! machines, the cache naming, freshness rule and entry codec, and the
//! listing extraction around a few trusted calls into outside crates. The
//! binary around the library only performs what the machines decide: it
//! issues the fetches, sleeps the backoffs, reads and writes the cache files,
//! and renders the result.

pub mod cache;
pub mod client;
pub mod config;
pub mod dependent;
pub mod enrich;
pub mod error;
pub mod github;
pub mod paginate;
pub mod rank;
pub mod text;
