//! Parsing and bookkeeping for a scraper of a story archive: the logic that
//! reads fetched pages and decides what to fetch next, verified with Verus.
pub mod catalog;
pub mod document;
pub mod parsers;
pub mod story;
pub mod text;

