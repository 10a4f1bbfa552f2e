//! Aggregation of several RSS feeds into one document.
//!
//! Feeds are parsed into a small XML tree model, filtered by keywords and
//! an item limit, and merged into a single `<rss><channel>` document whose
//! items are ordered from the most recent to the oldest.

pub mod aggregate;
pub mod date;
pub mod error;
pub mod laws;
pub mod merger;
pub mod model;
pub mod parser;
pub mod text;
pub mod xml;
