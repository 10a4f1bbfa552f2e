//! Plain data of parsed feeds and of configured sources.

use vstd::prelude::*;

verus! {

/// One article of a feed.
#[derive(Debug, PartialEq, Eq)]
pub struct FeedItem {
    pub title: String,
    pub link: String,
    /// Seconds since the Unix epoch of the item's `pubDate`, where it holds
    /// an RFC 2822 date.
    pub published: Option<i64>,
}

/// Metadata of a feed.
#[derive(Debug, PartialEq, Eq)]
pub struct FeedMeta {
    pub title: String,
}

/// Metadata and items of a feed.
#[derive(Debug, PartialEq, Eq)]
pub struct FeedInfo {
    pub meta: FeedMeta,
    pub items: Vec<FeedItem>,
}

/// A configured feed source: where to fetch it and which words its items
/// must carry in their titles (separated by spaces).
#[derive(Debug, PartialEq, Eq)]
pub struct SourceFeed {
    pub id: Option<i64>,
    pub name: String,
    pub url: String,
    pub keywords: String,
}

} // verus!
