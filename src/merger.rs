//! Merging the items of several feeds into one document.
//!
//! Items are ordered from the most recent publication instant to the oldest;
//! items without a readable `pubDate` come after all dated ones. Items of the
//! same instant, and undated items among themselves, keep the order in which
//! they were appended.

use vstd::prelude::*;

use crate::error::MalformedFeedError;
use crate::parser::{published_of, selection, FeedDocument};
use crate::xml::{child_named, write_tree, xml_write, XmlElement, XmlNode};

verus! {

/// The title of every merged document.
pub const FEED_TITLE: &'static str = "MIOR";

/// The publication instant of a node: that of an item element, none for any
/// other node.
pub open spec fn timestamp_of(n: XmlNode) -> Option<i64> {
    match n {
        XmlNode::Element(e) => published_of(e),
        _ => None,
    }
}

/// Whether an item published at `a` may stand before one published at `b`:
/// later instants first, undated items last.
pub open spec fn not_older(a: Option<i64>, b: Option<i64>) -> bool {
    match (a, b) {
        (_, None) => true,
        (None, Some(_)) => false,
        (Some(x), Some(y)) => x >= y,
    }
}

/// The nodes of `s` published at `t`, in order.
pub open spec fn published_at(s: Seq<XmlNode>, t: Option<i64>) -> Seq<XmlNode> {
    s.filter(|n: XmlNode| timestamp_of(n) == t)
}

/// Whether `out` holds the nodes of `input` from the most recent to the
/// oldest, undated nodes last, and nodes of the same instant in the order of
/// `input`.
pub open spec fn is_recency_order(out: Seq<XmlNode>, input: Seq<XmlNode>) -> bool {
    &&& out.len() == input.len()
    &&& forall|i: int, j: int|
        0 <= i < j < out.len() ==> not_older(
            #[trigger] timestamp_of(out[i]),
            #[trigger] timestamp_of(out[j]),
        )
    &&& forall|t: Option<i64>| #[trigger] published_at(out, t) == published_at(input, t)
}

/// Whether `e` is an element named `name` with no prefix, namespace or
/// attributes, and with the children `children`.
pub open spec fn is_plain_element(e: XmlElement, name: Seq<char>, children: Seq<XmlNode>) -> bool {
    &&& e.name@ == name
    &&& e.prefix is None
    &&& e.namespace is None
    &&& e.namespaces is None
    &&& e.attributes@.len() == 0
    &&& e.children@ == children
}

/// Whether `root` is the merged document of the items `items`:
/// `<rss><channel><title>MIOR</title>` followed by the items in order.
pub open spec fn is_merged_document(root: XmlElement, items: Seq<XmlNode>) -> bool {
    &&& root.children@.len() == 1
    &&& root.children@[0] matches XmlNode::Element(channel)
    &&& is_plain_element(root, "rss"@, seq![XmlNode::Element(channel)])
    &&& channel.children@.len() == items.len() + 1
    &&& channel.children@[0] matches XmlNode::Element(title)
    &&& title.children@.len() == 1
    &&& title.children@[0] matches XmlNode::Text(text)
    &&& text@ == FEED_TITLE@
    &&& is_plain_element(title, "title"@, seq![XmlNode::Text(text)])
    &&& is_plain_element(channel, "channel"@, seq![XmlNode::Element(title)] + items)
}

proof fn lemma_filter_none(s: Seq<XmlNode>, t: Option<i64>)
    requires
        forall|i: int| 0 <= i < s.len() ==> timestamp_of(#[trigger] s[i]) != t,
    ensures
        published_at(s, t) == Seq::<XmlNode>::empty(),
    decreases s.len(),
{
    reveal(Seq::filter);
    if s.len() > 0 {
        lemma_filter_none(s.drop_last(), t);
    }
}

proof fn lemma_published_at_push(s: Seq<XmlNode>, x: XmlNode, t: Option<i64>)
    ensures
        published_at(s.push(x), t) == if timestamp_of(x) == t {
            published_at(s, t).push(x)
        } else {
            published_at(s, t)
        },
{
    reveal(Seq::filter);
    assert(s.push(x).drop_last() == s);
}

proof fn lemma_published_at_add(a: Seq<XmlNode>, b: Seq<XmlNode>, t: Option<i64>)
    ensures
        published_at(a + b, t) == published_at(a, t) + published_at(b, t),
    decreases b.len(),
{
    if b.len() == 0 {
        assert(a + b == a);
        reveal(Seq::filter);
        assert(published_at(a, t) + published_at(b, t) == published_at(a, t));
    } else {
        let c = b.drop_last();
        lemma_published_at_add(a, c, t);
        assert(a + b == (a + c).push(b.last()));
        assert(b == c.push(b.last()));
        lemma_published_at_push(a + c, b.last(), t);
        lemma_published_at_push(c, b.last(), t);
    }
}

/// Inserting `x` after every node that is not older keeps the recency order.
proof fn lemma_insert_keeps_order(out: Seq<XmlNode>, input: Seq<XmlNode>, x: XmlNode, p: int)
    requires
        is_recency_order(out, input),
        0 <= p <= out.len(),
        forall|q: int| 0 <= q < p ==> not_older(timestamp_of(#[trigger] out[q]), timestamp_of(x)),
        p < out.len() ==> !not_older(timestamp_of(out[p]), timestamp_of(x)),
    ensures
        is_recency_order(out.insert(p, x), input.push(x)),
{
    let res = out.insert(p, x);
    let kx = timestamp_of(x);
    assert forall|i: int, j: int| 0 <= i < j < res.len() implies not_older(
        #[trigger] timestamp_of(res[i]),
        #[trigger] timestamp_of(res[j]),
    ) by {
        if i < p && j < p {
            assert(res[i] == out[i] && res[j] == out[j]);
        } else if i < p && j == p {
            assert(res[i] == out[i]);
        } else if i < p {
            assert(res[i] == out[i] && res[j] == out[j - 1]);
            assert(not_older(timestamp_of(out[i]), timestamp_of(out[j - 1])));
        } else if i == p {
            assert(res[j] == out[j - 1]);
            assert(not_older(timestamp_of(out[p]), timestamp_of(out[j - 1])) || j - 1 == p);
        } else {
            assert(res[i] == out[i - 1] && res[j] == out[j - 1]);
        }
    }
    let front = out.subrange(0, p);
    let back = out.subrange(p, out.len() as int);
    assert(out == front + back);
    assert(res == front + seq![x] + back);
    assert forall|t: Option<i64>| #[trigger] published_at(res, t) == published_at(input.push(x), t) by {
        lemma_published_at_push(input, x, t);
        lemma_published_at_add(front, back, t);
        lemma_published_at_add(front.push(x), back, t);
        lemma_published_at_push(front, x, t);
        assert(front + seq![x] == front.push(x));
        if kx == t {
            assert forall|i: int| 0 <= i < back.len() implies timestamp_of(#[trigger] back[i]) != t by {
                assert(back[i] == out[p + i]);
                if i > 0 {
                    assert(not_older(timestamp_of(out[p]), timestamp_of(out[p + i])));
                }
            }
            lemma_filter_none(back, t);
        }
    }
}

/// The publication instant of a node (see [`timestamp_of`]).
fn timestamp(n: &XmlNode) -> (r: Option<i64>)
    ensures
        r == timestamp_of(*n),
{
    match n {
        XmlNode::Element(e) => crate::parser::published(e),
        _ => None,
    }
}

/// Decides [`not_older`].
fn is_not_older(a: Option<i64>, b: Option<i64>) -> (r: bool)
    ensures
        r == not_older(a, b),
{
    match (a, b) {
        (_, None) => true,
        (None, Some(_)) => false,
        (Some(x), Some(y)) => x >= y,
    }
}

/// Orders `nodes` from the most recent to the oldest (see [`is_recency_order`]).
pub fn sort_by_recency(nodes: Vec<XmlNode>) -> (r: Vec<XmlNode>)
    ensures
        is_recency_order(r@, nodes@),
{
    let ghost input = nodes@;
    let mut out: Vec<XmlNode> = Vec::new();
    let mut keys: Vec<Option<i64>> = Vec::new();
    proof {
        assert forall|t: Option<i64>| #[trigger] published_at(out@, t) == published_at(
            input.subrange(0, 0),
            t,
        ) by {
            reveal(Seq::filter);
            assert(input.subrange(0, 0) == Seq::<XmlNode>::empty());
        }
    }
    for node in it: nodes.into_iter()
        invariant
            it.seq() == input,
            keys@.len() == out@.len(),
            forall|k: int| 0 <= k < out@.len() ==> keys@[k] == timestamp_of(#[trigger] out@[k]),
            is_recency_order(out@, input.subrange(0, it.index() as int)),
    {
        let ghost i = it.index();
        let key = timestamp(&node);
        let n = keys.len();
        let mut p: usize = 0;
        while p < n && is_not_older(keys[p], key)
            invariant
                n == keys@.len(),
                keys@.len() == out@.len(),
                forall|k: int| 0 <= k < out@.len() ==> keys@[k] == timestamp_of(#[trigger] out@[k]),
                key == timestamp_of(node),
                p <= n,
                forall|q: int| 0 <= q < p ==> not_older(timestamp_of(#[trigger] out@[q]), key),
            decreases n - p,
        {
            p += 1;
        }
        proof {
            assert(input.subrange(0, i + 1) == input.subrange(0, i as int).push(node));
            lemma_insert_keeps_order(out@, input.subrange(0, i as int), node, p as int);
        }
        let ghost old_out = out@;
        out.insert(p, node);
        keys.insert(p, key);
        assert forall|k: int| 0 <= k < out@.len() implies keys@[k] == timestamp_of(
            #[trigger] out@[k],
        ) by {
            if k < p {
                assert(out@[k] == old_out[k]);
            } else if k > p {
                assert(out@[k] == old_out[k - 1]);
            }
        }
    }
    assert(input.subrange(0, input.len() as int) == input);
    out
}

/// Accumulates the items of several feeds and writes them as one document.
pub struct FeedMerger {
    elements: Vec<XmlNode>,
}

impl FeedMerger {
    /// The items appended so far, in the order they were appended.
    pub closed spec fn items(&self) -> Seq<XmlNode> {
        self.elements@
    }

    /// A merger that holds no items.
    pub fn new() -> (r: Self)
        ensures
            r.items() == Seq::<XmlNode>::empty(),
    {
        FeedMerger { elements: Vec::new() }
    }

    /// Appends the items that `doc` yields after its keyword filter and
    /// limit; on failure nothing is appended.
    pub fn append(&mut self, doc: FeedDocument) -> (r: Result<(), MalformedFeedError>)
        ensures
            match child_named(doc.root(), "channel"@) {
                None => {
                    &&& r == Err::<(), MalformedFeedError>(
                        MalformedFeedError::TagNotFound("channel"),
                    )
                    &&& final(self).items() == old(self).items()
                },
                Some(ch) => {
                    &&& r is Ok
                    &&& final(self).items() == old(self).items() + selection(
                        ch.children@,
                        doc.keywords(),
                        doc.limit(),
                    )
                },
            },
    {
        match doc.into_item_nodes() {
            Err(e) => Err(e),
            Ok(item_nodes) => {
                let mut item_nodes = item_nodes;
                self.elements.append(&mut item_nodes);
                Ok(())
            },
        }
    }

    /// Writes the merged document: the fixed title, then the items from the
    /// most recent to the oldest. None where the XML writer fails.
    pub fn build(self) -> (r: Option<Vec<u8>>)
        ensures
            exists|out: Seq<XmlNode>, root: XmlElement|
                {
                    &&& is_recency_order(out, self.items())
                    &&& is_merged_document(root, out)
                    &&& match r {
                        Some(b) => xml_write(root) == Some(b@),
                        None => xml_write(root) is None,
                    }
                },
    {
        let items = sort_by_recency(self.elements);
        let ghost out = items@;
        let text = XmlNode::Text(FEED_TITLE.to_owned());
        let mut title_children: Vec<XmlNode> = Vec::new();
        title_children.push(text);
        let title = XmlElement {
            prefix: None,
            namespace: None,
            namespaces: None,
            name: "title".to_owned(),
            attributes: Vec::new(),
            children: title_children,
        };
        let mut channel_children: Vec<XmlNode> = Vec::new();
        channel_children.push(XmlNode::Element(title));
        let mut items = items;
        channel_children.append(&mut items);
        let channel = XmlElement {
            prefix: None,
            namespace: None,
            namespaces: None,
            name: "channel".to_owned(),
            attributes: Vec::new(),
            children: channel_children,
        };
        let mut root_children: Vec<XmlNode> = Vec::new();
        root_children.push(XmlNode::Element(channel));
        let root_node = XmlElement {
            prefix: None,
            namespace: None,
            namespaces: None,
            name: "rss".to_owned(),
            attributes: Vec::new(),
            children: root_children,
        };
        let ghost root = root_node;
        assert(is_merged_document(root, out));
        write_tree(root_node)
    }
}

} // verus!
