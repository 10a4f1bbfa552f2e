//! Errors of the aggregation engine.

use vstd::prelude::*;

verus! {

/// Why one feed document could not be read.
#[derive(Debug, PartialEq, Eq)]
pub enum MalformedFeedError {
    /// The bytes are not well-formed XML; the parser's message, with the
    /// position of the fault.
    Parse(String),
    /// A required element is absent.
    TagNotFound(&'static str),
    /// A required element holds no usable text.
    InvalidTag(&'static str),
}

/// Why one feed could not be fetched.
#[derive(Debug, PartialEq, Eq)]
pub enum FetchError {
    /// The server answered with this non-success status code.
    Status(u16),
    /// The request could not be completed at all.
    Transport(String),
}

/// Why an aggregation failed; each case names the index of the source
/// that caused it.
#[derive(Debug, PartialEq, Eq)]
pub enum Error {
    MalformedFeed(usize, MalformedFeedError),
    FetchFeed(usize, FetchError),
    /// The XML writer failed on the merged document.
    Write,
    /// The number of sources and the number of fetch outcomes differ.
    OutcomeCount(usize, usize),
}

} // verus!
