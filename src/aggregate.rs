//! Aggregation of fetched sources into one merged document.
//!
//! Fetching is left to the caller, which hands over one outcome per source
//! in the order of the sources. The policy is fail-fast: any failed fetch
//! fails the whole aggregation, and so does any source whose document cannot
//! be read; in both cases the first such source in list order is reported.

use vstd::prelude::*;

use crate::error::{Error, FetchError, MalformedFeedError};
use crate::merger::{is_merged_document, is_recency_order, FeedMerger};
use crate::model::SourceFeed;
use crate::parser::{selection, FeedDocument};
use crate::text::{keywords_of, split_keywords};
use crate::xml::{child_named, xml_parse, xml_write, XmlElement, XmlNode};

verus! {

/// Whether an HTTP status code reports success (the 2xx class).
pub open spec fn is_success(status: u16) -> bool {
    200 <= status < 300
}

/// Accepts a response status that reports success, and turns any other
/// status into an error.
pub fn check_status(status: u16) -> (r: Result<(), FetchError>)
    ensures
        is_success(status) ==> r is Ok,
        !is_success(status) ==> r == Err::<(), FetchError>(FetchError::Status(status)),
{
    if 200 <= status && status < 300 {
        Ok(())
    } else {
        Err(FetchError::Status(status))
    }
}

/// The bytes of a successful fetch; nothing for a failed one.
pub open spec fn body_of(f: Result<Vec<u8>, FetchError>) -> Seq<u8> {
    match f {
        Ok(b) => b@,
        Err(_) => seq![],
    }
}

/// Whether the items of the document `data` cannot be taken: it is no XML,
/// its root is not `rss`, or it has no channel.
pub open spec fn source_fails(data: Seq<u8>) -> bool {
    match xml_parse(data) {
        Err(_) => true,
        Ok(root) => root.name@ != "rss"@ || child_named(root, "channel"@) is None,
    }
}

/// Whether `e` is the error of taking the items of the document `data`.
pub open spec fn is_source_error(data: Seq<u8>, e: MalformedFeedError) -> bool {
    match xml_parse(data) {
        Err(m) => e matches MalformedFeedError::Parse(s) && s@ == m,
        Ok(root) => if root.name@ != "rss"@ {
            e == MalformedFeedError::TagNotFound("rss")
        } else {
            e == MalformedFeedError::TagNotFound("channel")
        },
    }
}

/// The items taken from the document `data` with the given keywords and limit.
pub open spec fn source_selection(data: Seq<u8>, keywords: Seq<Seq<char>>, limit: nat) -> Seq<
    XmlNode,
> {
    match xml_parse(data) {
        Ok(root) => match child_named(root, "channel"@) {
            Some(ch) => selection(ch.children@, keywords, limit),
            None => seq![],
        },
        Err(_) => seq![],
    }
}

/// The items taken from the first `n` sources, source after source.
pub open spec fn merged_items(
    feeds: Seq<SourceFeed>,
    fetched: Seq<Result<Vec<u8>, FetchError>>,
    limit: nat,
    n: nat,
) -> Seq<XmlNode>
    decreases n,
{
    if n == 0 {
        seq![]
    } else {
        merged_items(feeds, fetched, limit, (n - 1) as nat) + source_selection(
            body_of(fetched[n - 1]),
            keywords_of(feeds[n - 1].keywords@),
            limit,
        )
    }
}

/// Merges the fetched documents of `feeds` into one: each source's items
/// survive its own keywords and the common `limit`, and all of them are
/// ordered from the most recent to the oldest. `fetched` holds one outcome
/// per source, in the order of `feeds`; any other count is an error.
#[verifier::loop_isolation(false)]
pub fn merge_feeds_data(
    feeds: &[SourceFeed],
    fetched: Vec<Result<Vec<u8>, FetchError>>,
    limit: usize,
) -> (r: Result<Vec<u8>, Error>)
    ensures
        fetched@.len() != feeds@.len() ==> (r matches Err(Error::OutcomeCount(s, o)) && s
            == feeds@.len() && o == fetched@.len()),
        fetched@.len() == feeds@.len() ==> ({
            let n = feeds@.len();
            (exists|i: int| 0 <= i < n && #[trigger] fetched@[i] is Err) ==> r is Err
        }),
        fetched@.len() == feeds@.len() ==> ({
            let n = feeds@.len();
            if exists|i: int| 0 <= i < n && #[trigger] fetched@[i] is Err {
                r matches Err(Error::FetchFeed(j, e)) && j < n && fetched@[j as int] == Err::<
                    Vec<u8>,
                    FetchError,
                >(e) && forall|k: int| 0 <= k < j ==> #[trigger] fetched@[k] is Ok
            } else if exists|i: int|
                0 <= i < n && source_fails(#[trigger] body_of(fetched@[i])) {
                r matches Err(Error::MalformedFeed(j, e)) && j < n && is_source_error(
                    body_of(fetched@[j as int]),
                    e,
                ) && source_fails(body_of(fetched@[j as int])) && forall|k: int|
                    0 <= k < j ==> !source_fails(#[trigger] body_of(fetched@[k]))
            } else {
                exists|out: Seq<XmlNode>, root: XmlElement|
                    {
                        &&& is_recency_order(out, merged_items(feeds@, fetched@, limit as nat, n))
                        &&& is_merged_document(root, out)
                        &&& match r {
                            Ok(b) => xml_write(root) == Some(b@),
                            Err(e) => e == Error::Write && xml_write(root) is None,
                        }
                    }
            }
        }),
{
    if feeds.len() != fetched.len() {
        return Err(Error::OutcomeCount(feeds.len(), fetched.len()));
    }
    let n = feeds.len();
    let ghost outcomes = fetched@;
    let mut bodies: Vec<Vec<u8>> = Vec::new();
    for f in it: fetched.into_iter()
        invariant
            it.seq() == outcomes,
            n == feeds@.len(),
            n == outcomes.len(),
            bodies@.len() == it.index(),
            forall|k: int|
                0 <= k < bodies@.len() ==> #[trigger] outcomes[k] is Ok && bodies@[k]@ == body_of(
                    outcomes[k],
                ),
    {
        match f {
            Ok(b) => {
                bodies.push(b);
            },
            Err(e) => {
                return Err(Error::FetchFeed(bodies.len(), e));
            },
        }
    }
    assert(forall|k: int| 0 <= k < n ==> #[trigger] outcomes[k] is Ok);
    let mut merger = FeedMerger::new();
    let mut i: usize = 0;
    while i < n
        invariant
            n == feeds@.len(),
            n == outcomes.len(),
            bodies@.len() == n,
            forall|k: int| 0 <= k < n ==> #[trigger] outcomes[k] is Ok,
            forall|k: int| 0 <= k < n ==> #[trigger] bodies@[k]@ == body_of(outcomes[k]),
            i <= n,
            forall|k: int| 0 <= k < i ==> !source_fails(#[trigger] body_of(outcomes[k])),
            merger.items() == merged_items(feeds@, outcomes, limit as nat, i as nat),
        decreases n - i,
    {
        let ghost data = body_of(outcomes[i as int]);
        assert(bodies@[i as int]@ == data);
        let keywords = split_keywords(feeds[i].keywords.as_str());
        let doc = match FeedDocument::parse(bodies[i].as_slice()) {
            Err(e) => {
                assert(source_fails(body_of(outcomes[i as int])));
                assert(is_source_error(data, e));
                return Err(Error::MalformedFeed(i, e));
            },
            Ok(d) => d,
        };
        let doc = doc.with_keywords(keywords).with_limit(limit);
        match merger.append(doc) {
            Err(e) => {
                assert(source_fails(body_of(outcomes[i as int])));
                assert(is_source_error(data, e));
                return Err(Error::MalformedFeed(i, e));
            },
            Ok(()) => {},
        }
        i += 1;
    }
    match merger.build() {
        Some(b) => Ok(b),
        None => Err(Error::Write),
    }
}

} // verus!
