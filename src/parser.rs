//! Reading feed documents: the channel, its metadata and its items.

use vstd::prelude::*;

use crate::date::{parse_rfc2822, rfc2822_seconds};
use crate::error::MalformedFeedError;
use crate::model::{FeedInfo, FeedItem, FeedMeta};
use crate::text::{contains_all, has_all_keywords, views};
use crate::xml::{
    child_named, get_child, get_inner_text, get_text, inner_text, is_element_named, name_is,
    parse_tree, position_named, text_of, xml_parse, XmlElement, XmlNode,
};

verus! {

/// Whether an item survives the keyword filter: with no keywords every item
/// does; otherwise its title must hold text (a text or CDATA child) that
/// contains every keyword.
pub open spec fn passes(item: XmlElement, keywords: Seq<Seq<char>>) -> bool {
    keywords.len() == 0 || match child_named(item, "title"@) {
        Some(t) => match inner_text(t) {
            Some(x) => contains_all(x, keywords),
            None => false,
        },
        None => false,
    }
}

/// Whether a child of the channel is an item that survives the keyword filter.
pub open spec fn wanted(n: XmlNode, keywords: Seq<Seq<char>>) -> bool {
    is_element_named(n, "item"@) && passes(n->Element_0, keywords)
}

/// The items among `children` that survive the keyword filter, in order.
pub open spec fn kept(children: Seq<XmlNode>, keywords: Seq<Seq<char>>) -> Seq<XmlNode> {
    children.filter(|n: XmlNode| wanted(n, keywords))
}

/// The surviving items, of which the first `limit` are taken.
pub open spec fn selection(children: Seq<XmlNode>, keywords: Seq<Seq<char>>, limit: nat) -> Seq<
    XmlNode,
> {
    let k = kept(children, keywords);
    if k.len() <= limit {
        k
    } else {
        k.take(limit as int)
    }
}

/// Title, link and publication instant of an item, as plain values.
pub type ItemView = (Seq<char>, Seq<char>, Option<i64>);

/// The view of a parsed item.
pub open spec fn item_view(i: FeedItem) -> ItemView {
    (i.title@, i.link@, i.published)
}

/// The publication instant of an item: its `pubDate` text read as an RFC 2822
/// date, if there is one.
pub open spec fn published_of(item: XmlElement) -> Option<i64> {
    match child_named(item, "pubDate"@) {
        Some(d) => match inner_text(d) {
            Some(x) => rfc2822_seconds(x),
            None => None,
        },
        None => None,
    }
}

/// The typed fields of an item, or why it has none. A title or link must
/// hold text: an empty element, or one with no text or CDATA child, is
/// invalid.
pub open spec fn item_fields(item: XmlElement) -> Result<ItemView, MalformedFeedError> {
    match child_named(item, "title"@) {
        None => Err(MalformedFeedError::TagNotFound("title")),
        Some(t) => match inner_text(t) {
            None => Err(MalformedFeedError::InvalidTag("title")),
            Some(title) => match child_named(item, "link"@) {
                None => Err(MalformedFeedError::TagNotFound("link")),
                Some(l) => match inner_text(l) {
                    None => Err(MalformedFeedError::InvalidTag("link")),
                    Some(link) => Ok((title, link, published_of(item))),
                },
            },
        },
    }
}

/// The typed fields of the items `nodes`, or the error of the first item
/// that has none.
pub open spec fn read_items(nodes: Seq<XmlNode>) -> Result<Seq<ItemView>, MalformedFeedError>
    decreases nodes.len(),
{
    if nodes.len() == 0 {
        Ok(seq![])
    } else {
        match read_items(nodes.drop_last()) {
            Err(e) => Err(e),
            Ok(v) => match item_fields(nodes.last()->Element_0) {
                Err(e) => Err(e),
                Ok(f) => Ok(v.push(f)),
            },
        }
    }
}

/// The channel's title, or why it has none; an empty title element is
/// valid and reads as empty text.
pub open spec fn meta_title(channel: XmlElement) -> Result<Seq<char>, MalformedFeedError> {
    match child_named(channel, "title"@) {
        None => Err(MalformedFeedError::TagNotFound("title")),
        Some(t) => match text_of(t) {
            None => Err(MalformedFeedError::InvalidTag("title")),
            Some(x) => Ok(x),
        },
    }
}

/// The channel's title and the typed fields of its taken items, or the
/// first reason why they cannot be read.
pub open spec fn feed_of(root: XmlElement, keywords: Seq<Seq<char>>, limit: nat) -> Result<
    (Seq<char>, Seq<ItemView>),
    MalformedFeedError,
> {
    match child_named(root, "channel"@) {
        None => Err(MalformedFeedError::TagNotFound("channel")),
        Some(ch) => match meta_title(ch) {
            Err(e) => Err(e),
            Ok(t) => match read_items(selection(ch.children@, keywords, limit)) {
                Err(e) => Err(e),
                Ok(items) => Ok((t, items)),
            },
        },
    }
}

/// The views of parsed items.
pub open spec fn item_views(items: Seq<FeedItem>) -> Seq<ItemView> {
    items.map_values(|i: FeedItem| item_view(i))
}

/// The view of a parsed feed: its title and the views of its items.
pub open spec fn info_view(info: FeedInfo) -> (Seq<char>, Seq<ItemView>) {
    (info.meta.title@, item_views(info.items@))
}

/// One more child of the channel extends the selection by itself exactly
/// when it survives the filter and the limit is not yet reached.
pub proof fn lemma_selection_push(
    p: Seq<XmlNode>,
    x: XmlNode,
    keywords: Seq<Seq<char>>,
    limit: nat,
)
    ensures
        selection(p.push(x), keywords, limit) == if wanted(x, keywords) && selection(
            p,
            keywords,
            limit,
        ).len() < limit {
            selection(p, keywords, limit).push(x)
        } else {
            selection(p, keywords, limit)
        },
{
    reveal(Seq::filter);
    assert(p.push(x).drop_last() == p);
    let k = kept(p, keywords);
    let k2 = kept(p.push(x), keywords);
    if wanted(x, keywords) {
        assert(k2 == k.push(x));
        if k.len() >= limit {
            assert(k2.take(limit as int) == k.take(limit as int));
            if k.len() == limit {
                assert(k.take(limit as int) == k);
            }
        }
    } else {
        assert(k2 == k);
    }
}

/// A parsed feed document with its keyword filter and item limit.
#[derive(Debug)]
pub struct FeedDocument {
    root_node: XmlElement,
    limit: usize,
    keywords: Vec<String>,
}

impl FeedDocument {
    /// The root element of the document.
    pub closed spec fn root(&self) -> XmlElement {
        self.root_node
    }

    /// How many items are taken after filtering.
    pub closed spec fn limit(&self) -> nat {
        self.limit as nat
    }

    /// The keywords every taken item's title must contain.
    pub closed spec fn keywords(&self) -> Seq<Seq<char>> {
        views(self.keywords@)
    }

    /// Parses `data` as XML whose root element is `rss`. The document starts
    /// with no keywords and no limit.
    pub fn parse(data: &[u8]) -> (r: Result<Self, MalformedFeedError>)
        ensures
            match xml_parse(data@) {
                Err(m) => r matches Err(MalformedFeedError::Parse(s)) && s@ == m,
                Ok(root) => if root.name@ == "rss"@ {
                    r matches Ok(d) && d.root() == root && d.limit() == usize::MAX
                        && d.keywords().len() == 0
                } else {
                    r == Err::<Self, MalformedFeedError>(MalformedFeedError::TagNotFound("rss"))
                },
            },
    {
        match parse_tree(data) {
            Err(m) => Err(MalformedFeedError::Parse(m)),
            Ok(root_node) => {
                if !name_is(&root_node.name, "rss") {
                    return Err(MalformedFeedError::TagNotFound("rss"));
                }
                let doc = FeedDocument { root_node, limit: usize::MAX, keywords: Vec::new() };
                assert(views(doc.keywords@).len() == 0);
                Ok(doc)
            },
        }
    }

    /// Sets how many items are taken after filtering.
    pub fn with_limit(self, limit: usize) -> (r: Self)
        ensures
            r.root() == self.root(),
            r.keywords() == self.keywords(),
            r.limit() == limit,
    {
        FeedDocument { limit, ..self }
    }

    /// Sets the keywords every taken item's title must contain.
    pub fn with_keywords(self, keywords: Vec<String>) -> (r: Self)
        ensures
            r.root() == self.root(),
            r.keywords() == views(keywords@),
            r.limit() == self.limit(),
    {
        FeedDocument { keywords, ..self }
    }

    /// Whether the item `e` survives this document's keyword filter: with no
    /// keywords every item does; otherwise its title must hold text that
    /// contains every keyword (case-sensitive substrings).
    pub fn filter_by_keywords(&self, e: &XmlElement) -> (r: bool)
        ensures
            r == passes(*e, self.keywords()),
    {
        passes_keywords(e, &self.keywords)
    }

    /// Reads the channel's metadata.
    fn read_meta(node_channel: &XmlElement) -> (r: Result<FeedMeta, MalformedFeedError>)
        ensures
            match meta_title(*node_channel) {
                Ok(t) => r matches Ok(m) && m.title@ == t,
                Err(e) => r == Err::<FeedMeta, MalformedFeedError>(e),
            },
    {
        match get_child(node_channel, "title") {
            None => Err(MalformedFeedError::TagNotFound("title")),
            Some(c) => match get_text(c) {
                None => Err(MalformedFeedError::InvalidTag("title")),
                Some(title) => Ok(FeedMeta { title }),
            },
        }
    }

    /// Reads the typed fields of one item.
    fn read_item(node_item: &XmlElement) -> (r: Result<FeedItem, MalformedFeedError>)
        ensures
            match item_fields(*node_item) {
                Ok(v) => r matches Ok(i) && item_view(i) == v,
                Err(e) => r == Err::<FeedItem, MalformedFeedError>(e),
            },
    {
        let title = match get_child(node_item, "title") {
            None => return Err(MalformedFeedError::TagNotFound("title")),
            Some(c) => match get_inner_text(c) {
                None => return Err(MalformedFeedError::InvalidTag("title")),
                Some(t) => t,
            },
        };
        let link = match get_child(node_item, "link") {
            None => return Err(MalformedFeedError::TagNotFound("link")),
            Some(c) => match get_inner_text(c) {
                None => return Err(MalformedFeedError::InvalidTag("link")),
                Some(t) => t,
            },
        };
        let published = published(node_item);
        Ok(FeedItem { title, link, published })
    }

    /// Reads the channel's title and the typed fields of the items that
    /// survive the keyword filter, up to the limit.
    pub fn read_feed(&self) -> (r: Result<FeedInfo, MalformedFeedError>)
        ensures
            match feed_of(self.root(), self.keywords(), self.limit()) {
                Ok(v) => r matches Ok(info) && info_view(info) == v,
                Err(e) => r == Err::<FeedInfo, MalformedFeedError>(e),
            },
    {
        let node_channel = match get_child(&self.root_node, "channel") {
            None => return Err(MalformedFeedError::TagNotFound("channel")),
            Some(c) => c,
        };
        let meta = match Self::read_meta(node_channel) {
            Err(e) => return Err(e),
            Ok(m) => m,
        };
        let ghost kw = self.keywords();
        let ghost limit = self.limit();
        let ghost children = node_channel.children@;
        let n = node_channel.children.len();
        let mut items: Vec<FeedItem> = Vec::new();
        let mut failure: Option<MalformedFeedError> = None;
        let mut taken: usize = 0;
        let mut i: usize = 0;
        assert(kept(children.subrange(0, 0), kw) == Seq::<XmlNode>::empty()) by {
            reveal(Seq::filter);
        }
        assert(item_views(Seq::<FeedItem>::empty()) == Seq::<ItemView>::empty());
        while i < n
            invariant
                n == children.len(),
                children == node_channel.children@,
                kw == self.keywords(),
                limit == self.limit(),
                limit == self.limit as nat,
                i <= n,
                taken == selection(children.subrange(0, i as int), kw, limit).len(),
                match failure {
                    None => read_items(selection(children.subrange(0, i as int), kw, limit))
                        == Ok::<Seq<ItemView>, MalformedFeedError>(item_views(items@)),
                    Some(e) => read_items(selection(children.subrange(0, i as int), kw, limit))
                        == Err::<Seq<ItemView>, MalformedFeedError>(e),
                },
            decreases n - i,
        {
            let ghost before = selection(children.subrange(0, i as int), kw, limit);
            proof {
                assert(children.subrange(0, i + 1) == children.subrange(0, i as int).push(
                    children[i as int],
                ));
                lemma_selection_push(children.subrange(0, i as int), children[i as int], kw, limit);
            }
            let node = &node_channel.children[i];
            if taken < self.limit && is_wanted_node(node, &self.keywords) {
                let ghost after = before.push(*node);
                assert(after.drop_last() == before);
                assert(after.last() == *node);
                taken += 1;
                if failure.is_none() {
                    match node {
                        XmlNode::Element(e) => match Self::read_item(e) {
                            Ok(item) => {
                                assert(item_views(items@.push(item)) == item_views(items@).push(
                                    item_view(item),
                                ));
                                items.push(item);
                            },
                            Err(err) => {
                                failure = Some(err);
                            },
                        },
                        _ => {},
                    }
                }
            }
            i += 1;
        }
        assert(children.subrange(0, n as int) == children);
        match failure {
            Some(e) => Err(e),
            None => Ok(FeedInfo { meta, items }),
        }
    }

    /// Takes the items of the channel that survive the keyword filter, up to
    /// the limit, as they stand in the document.
    pub fn into_item_nodes(self) -> (r: Result<Vec<XmlNode>, MalformedFeedError>)
        ensures
            match child_named(self.root(), "channel"@) {
                None => r == Err::<Vec<XmlNode>, MalformedFeedError>(
                    MalformedFeedError::TagNotFound("channel"),
                ),
                Some(ch) => r matches Ok(v) && v@ == selection(
                    ch.children@,
                    self.keywords(),
                    self.limit(),
                ),
            },
    {
        let ghost kw = self.keywords();
        let ghost limit = self.limit();
        let FeedDocument { root_node, limit: max, keywords } = self;
        let mut root_node = root_node;
        let node_channel = match position_named(&root_node.children, "channel") {
            None => return Err(MalformedFeedError::TagNotFound("channel")),
            Some(i) => match root_node.children.remove(i) {
                XmlNode::Element(c) => c,
                _ => return Err(MalformedFeedError::TagNotFound("channel")),
            },
        };
        let ghost children = node_channel.children@;
        let mut items: Vec<XmlNode> = Vec::new();
        assert(kept(children.subrange(0, 0), kw) == Seq::<XmlNode>::empty()) by {
            reveal(Seq::filter);
        }
        assert(item_views(Seq::<FeedItem>::empty()) == Seq::<ItemView>::empty());
        for node in it: node_channel.children.into_iter()
            invariant
                it.seq() == children,
                kw == views(keywords@),
                limit == max as nat,
                items@ == selection(children.subrange(0, it.index() as int), kw, limit),
        {
            let ghost i = it.index();
            proof {
                assert(children.subrange(0, i + 1) == children.subrange(0, i as int).push(
                    children[i as int],
                ));
                lemma_selection_push(children.subrange(0, i as int), children[i as int], kw, limit);
            }
            if items.len() < max && is_wanted_node(&node, &keywords) {
                items.push(node);
            }
        }
        assert(children.subrange(0, children.len() as int) == children);
        Ok(items)
    }
}

/// Reads the title and the first `limit` items of the feed document `data`,
/// without keyword filter.
pub fn read_rss_info(data: &[u8], limit: usize) -> (r: Result<FeedInfo, MalformedFeedError>)
    ensures
        match xml_parse(data@) {
            Err(m) => r matches Err(MalformedFeedError::Parse(s)) && s@ == m,
            Ok(root) => if root.name@ != "rss"@ {
                r == Err::<FeedInfo, MalformedFeedError>(MalformedFeedError::TagNotFound("rss"))
            } else {
                match feed_of(root, seq![], limit as nat) {
                    Ok(v) => r matches Ok(info) && info_view(info) == v,
                    Err(e) => r == Err::<FeedInfo, MalformedFeedError>(e),
                }
            },
        },
{
    match FeedDocument::parse(data) {
        Err(e) => Err(e),
        Ok(doc) => {
            assert(doc.keywords() == Seq::<Seq<char>>::empty());
            doc.with_limit(limit).read_feed()
        },
    }
}

/// Whether `e` survives the keyword filter `keywords`.
fn passes_keywords(e: &XmlElement, keywords: &Vec<String>) -> (r: bool)
    ensures
        r == passes(*e, views(keywords@)),
{
    if keywords.len() == 0 {
        return true;
    }
    match get_child(e, "title") {
        Some(c) => match get_inner_text(c) {
            Some(t) => has_all_keywords(t.as_str(), keywords),
            None => false,
        },
        None => false,
    }
}

/// Whether a child of the channel is an item that survives the filter.
fn is_wanted_node(n: &XmlNode, keywords: &Vec<String>) -> (r: bool)
    ensures
        r == wanted(*n, views(keywords@)),
{
    match n {
        XmlNode::Element(e) => name_is(&e.name, "item") && passes_keywords(e, keywords),
        _ => false,
    }
}

/// Reads the publication instant of an item (see [`published_of`]).
pub(crate) fn published(item: &XmlElement) -> (r: Option<i64>)
    ensures
        r == published_of(*item),
{
    match get_child(item, "pubDate") {
        Some(d) => match get_inner_text(d) {
            Some(t) => parse_rfc2822(t.as_str()),
            None => None,
        },
        None => None,
    }
}

} // verus!
