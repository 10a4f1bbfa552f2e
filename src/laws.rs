//! Laws of the feed reader and the merger, stated over the models that the
//! contracts of the executable functions use.

use vstd::prelude::*;

use crate::error::MalformedFeedError;
use crate::merger::{
    is_merged_document, is_recency_order, not_older, published_at, timestamp_of, FEED_TITLE,
};
use crate::parser::{
    feed_of, item_fields, kept, meta_title, passes, read_items, selection, wanted, ItemView,
};
use crate::text::contains_all;
use crate::xml::{
    child_named, first_named, inner_text, is_element_named, joined_text, text_of, XmlElement, XmlNode,
};

verus! {

proof fn lemma_kept_push(s: Seq<XmlNode>, x: XmlNode, keywords: Seq<Seq<char>>)
    ensures
        kept(s.push(x), keywords) == if wanted(x, keywords) {
            kept(s, keywords).push(x)
        } else {
            kept(s, keywords)
        },
{
    reveal(Seq::filter);
    assert(s.push(x).drop_last() == s);
}

proof fn lemma_kept_contains(s: Seq<XmlNode>, x: XmlNode, keywords: Seq<Seq<char>>)
    ensures
        kept(s, keywords).contains(x) <==> s.contains(x) && wanted(x, keywords),
    decreases s.len(),
{
    if s.len() > 0 {
        let r = s.drop_last();
        lemma_kept_contains(r, x, keywords);
        assert(s == r.push(s.last()));
        lemma_kept_push(r, s.last(), keywords);
        if s.contains(x) && x != s.last() {
            let i = choose|i: int| 0 <= i < s.len() && s[i] == x;
            assert(r[i] == x);
        }
        if kept(s, keywords).contains(x) && wanted(s.last(), keywords) && x != s.last() {
            let k = kept(r, keywords);
            let i = choose|i: int| 0 <= i < k.push(s.last()).len() && k.push(s.last())[i] == x;
            assert(k[i] == x);
        }
        if r.contains(x) {
            let i = choose|i: int| 0 <= i < r.len() && r[i] == x;
            assert(s[i] == x);
        }
        if kept(r, keywords).contains(x) && wanted(s.last(), keywords) {
            let k = kept(r, keywords);
            let i = choose|i: int| 0 <= i < k.len() && k[i] == x;
            assert(k.push(s.last())[i] == x);
        }
    } else {
        reveal(Seq::filter);
    }
}

/// Keyword filtering is conjunctive: an item of the channel survives the
/// filter exactly when its title holds text (a text or CDATA child) that
/// contains every keyword as a substring; with no keywords every item
/// survives.
pub proof fn law_keyword_conjunction(children: Seq<XmlNode>, keywords: Seq<Seq<char>>, item: XmlElement)
    requires
        item.name@ == "item"@,
        children.contains(XmlNode::Element(item)),
    ensures
        kept(children, keywords).contains(XmlNode::Element(item)) <==> (keywords.len() == 0 || exists|
            title: XmlElement,
            text: Seq<char>,
        |
            child_named(item, "title"@) == Some(title) && inner_text(title) == Some(text)
                && contains_all(text, keywords)),
{
    lemma_kept_contains(children, XmlNode::Element(item), keywords);
    if keywords.len() > 0 && passes(item, keywords) {
        let title = child_named(item, "title"@)->0;
        let text = inner_text(title)->0;
        assert(child_named(item, "title"@) == Some(title) && inner_text(title) == Some(text)
            && contains_all(text, keywords));
    }
}

/// The limit counts items after filtering: exactly the first
/// `min(limit, F)` of the `F` surviving items are taken.
pub proof fn law_limit_after_filter(children: Seq<XmlNode>, keywords: Seq<Seq<char>>, limit: nat)
    ensures
        ({
            let f = kept(children, keywords).len();
            let m = if limit <= f { limit } else { f };
            &&& selection(children, keywords, limit).len() == m
            &&& selection(children, keywords, limit) == kept(children, keywords).take(m as int)
        }),
{
    let k = kept(children, keywords);
    if k.len() <= limit {
        assert(k.take(k.len() as int) == k);
    }
}

/// A channel without a `title` element is reported as such, whatever its
/// items.
pub proof fn law_channel_title_required(root: XmlElement, keywords: Seq<Seq<char>>, limit: nat)
    requires
        child_named(root, "channel"@) matches Some(ch) && child_named(ch, "title"@) is None,
    ensures
        feed_of(root, keywords, limit) == Err::<(Seq<char>, Seq<ItemView>), MalformedFeedError>(
            MalformedFeedError::TagNotFound("title"),
        ),
{
}

proof fn lemma_kept_none(s: Seq<XmlNode>, keywords: Seq<Seq<char>>)
    requires
        forall|i: int| 0 <= i < s.len() ==> !is_element_named(#[trigger] s[i], "item"@),
    ensures
        kept(s, keywords) == Seq::<XmlNode>::empty(),
    decreases s.len(),
{
    reveal(Seq::filter);
    if s.len() > 0 {
        lemma_kept_none(s.drop_last(), keywords);
    }
}

/// A channel with a title and no `item` elements reads as a document with
/// that title and no items.
pub proof fn law_channel_without_items(root: XmlElement, keywords: Seq<Seq<char>>, limit: nat)
    requires
        child_named(root, "channel"@) matches Some(ch) && meta_title(ch) is Ok && forall|i: int|
            0 <= i < ch.children@.len() ==> !is_element_named(#[trigger] ch.children@[i], "item"@),
    ensures
        feed_of(root, keywords, limit) == Ok::<(Seq<char>, Seq<ItemView>), MalformedFeedError>(
            (meta_title(child_named(root, "channel"@)->0)->Ok_0, seq![]),
        ),
{
    let ch = child_named(root, "channel"@)->0;
    lemma_kept_none(ch.children@, keywords);
    assert(selection(ch.children@, keywords, limit) == Seq::<XmlNode>::empty());
}


/// The typed fields of an item node known to have them.
pub open spec fn fields_of(n: XmlNode) -> ItemView {
    item_fields(n->Element_0)->Ok_0
}

/// The publication instant in the view of an item.
pub open spec fn view_time(v: ItemView) -> Option<i64> {
    v.2
}

/// The views of `s` published at `t`, in order.
pub open spec fn views_at(s: Seq<ItemView>, t: Option<i64>) -> Seq<ItemView> {
    s.filter(|v: ItemView| view_time(v) == t)
}

/// Whether the item views `out` are those of `input` from the most recent to
/// the oldest, undated ones last, and views of the same instant in the order
/// of `input`.
pub open spec fn is_view_recency_order(out: Seq<ItemView>, input: Seq<ItemView>) -> bool {
    &&& forall|i: int, j: int|
        0 <= i < j < out.len() ==> not_older(
            #[trigger] view_time(out[i]),
            #[trigger] view_time(out[j]),
        )
    &&& forall|t: Option<i64>| #[trigger] views_at(out, t) == views_at(input, t)
}

proof fn lemma_read_items(s: Seq<XmlNode>)
    ensures
        read_items(s) is Ok ==> forall|i: int|
            0 <= i < s.len() ==> (#[trigger] item_fields(s[i]->Element_0)) is Ok,
        (forall|i: int| 0 <= i < s.len() ==> (#[trigger] item_fields(s[i]->Element_0)) is Ok)
            ==> read_items(s) == Ok::<Seq<ItemView>, MalformedFeedError>(
            s.map_values(|n: XmlNode| fields_of(n)),
        ),
    decreases s.len(),
{
    if s.len() > 0 {
        let r = s.drop_last();
        lemma_read_items(r);
        assert(s.map_values(|n: XmlNode| fields_of(n)) == r.map_values(|n: XmlNode| fields_of(n)).push(
            fields_of(s.last()),
        ));
        if read_items(s) is Ok {
            assert forall|i: int| 0 <= i < s.len() implies (#[trigger] item_fields(
                s[i]->Element_0,
            )) is Ok by {
                if i < s.len() - 1 {
                    assert(s[i] == r[i]);
                }
            }
        }
        if forall|i: int| 0 <= i < s.len() ==> (#[trigger] item_fields(s[i]->Element_0)) is Ok {
            assert forall|i: int| 0 <= i < r.len() implies (#[trigger] item_fields(
                r[i]->Element_0,
            )) is Ok by {
                assert(s[i] == r[i]);
            }
            assert(item_fields(s[s.len() - 1]->Element_0) is Ok);
        }
    } else {
        assert(s.map_values(|n: XmlNode| fields_of(n)) == Seq::<ItemView>::empty());
    }
}

proof fn lemma_published_at_contains(s: Seq<XmlNode>, x: XmlNode, t: Option<i64>)
    ensures
        published_at(s, t).contains(x) <==> s.contains(x) && timestamp_of(x) == t,
    decreases s.len(),
{
    reveal(Seq::filter);
    if s.len() > 0 {
        let r = s.drop_last();
        lemma_published_at_contains(r, x, t);
        assert(s == r.push(s.last()));
        assert(s.drop_last() == r);
        if s.contains(x) && x != s.last() {
            let i = choose|i: int| 0 <= i < s.len() && s[i] == x;
            assert(r[i] == x);
        }
        if r.contains(x) {
            let i = choose|i: int| 0 <= i < r.len() && r[i] == x;
            assert(s[i] == x);
        }
        let k = published_at(r, t);
        if timestamp_of(s.last()) == t {
            assert(published_at(s, t) == k.push(s.last()));
            if published_at(s, t).contains(x) && x != s.last() {
                let i = choose|i: int| 0 <= i < k.push(s.last()).len() && k.push(s.last())[i] == x;
                assert(k[i] == x);
            }
            if k.contains(x) {
                let i = choose|i: int| 0 <= i < k.len() && k[i] == x;
                assert(k.push(s.last())[i] == x);
            }
        }
    }
}

proof fn lemma_views_at_map(s: Seq<XmlNode>, t: Option<i64>)
    requires
        forall|i: int|
            0 <= i < s.len() ==> (#[trigger] s[i]) is Element && item_fields(s[i]->Element_0) is Ok,
    ensures
        views_at(s.map_values(|n: XmlNode| fields_of(n)), t) == published_at(s, t).map_values(
            |n: XmlNode| fields_of(n),
        ),
    decreases s.len(),
{
    reveal(Seq::filter);
    if s.len() > 0 {
        let r = s.drop_last();
        let x = s.last();
        assert(s[s.len() - 1] == x);
        lemma_views_at_map(r, t);
        let m = s.map_values(|n: XmlNode| fields_of(n));
        assert(m.drop_last() == r.map_values(|n: XmlNode| fields_of(n)));
        assert(m.last() == fields_of(x));
        assert(view_time(fields_of(x)) == timestamp_of(x));
        if timestamp_of(x) == t {
            assert(published_at(s, t).map_values(|n: XmlNode| fields_of(n)) == published_at(
                r,
                t,
            ).map_values(|n: XmlNode| fields_of(n)).push(fields_of(x)));
        }
    } else {
        assert(s.map_values(|n: XmlNode| fields_of(n)) == Seq::<ItemView>::empty());
    }
}

proof fn lemma_kept_append_wanted(a: Seq<XmlNode>, b: Seq<XmlNode>, keywords: Seq<Seq<char>>)
    requires
        forall|i: int| 0 <= i < b.len() ==> wanted(#[trigger] b[i], keywords),
    ensures
        kept(a + b, keywords) == kept(a, keywords) + b,
    decreases b.len(),
{
    if b.len() == 0 {
        assert(a + b == a);
    } else {
        let c = b.drop_last();
        lemma_kept_append_wanted(a, c, keywords);
        assert(a + b == (a + c).push(b.last()));
        assert(wanted(b[b.len() - 1], keywords));
        lemma_kept_push(a + c, b.last(), keywords);
        assert(kept(a, keywords) + b == (kept(a, keywords) + c).push(b.last()));
    }
}

/// Round trip through the merger: a merged document built from exactly the
/// items taken from one readable feed reads back, through the same reader,
/// under the fixed title and with the titles, links and dates of that feed's
/// items, from the most recent to the oldest.
pub proof fn law_round_trip(
    root: XmlElement,
    limit: nat,
    out: Seq<XmlNode>,
    merged: XmlElement,
    read_limit: nat,
)
    requires
        child_named(root, "channel"@) is Some,
        feed_of(root, seq![], limit) is Ok,
        is_recency_order(
            out,
            selection(child_named(root, "channel"@)->0.children@, seq![], limit),
        ),
        is_merged_document(merged, out),
        out.len() <= read_limit,
    ensures
        feed_of(merged, seq![], read_limit) matches Ok((title, items)) && title == FEED_TITLE@
            && is_view_recency_order(items, feed_of(root, seq![], limit)->Ok_0.1),
{
    let kw = Seq::<Seq<char>>::empty();
    let ch = child_named(root, "channel"@)->0;
    let taken = selection(ch.children@, kw, limit);
    let k = kept(ch.children@, kw);
    // What the source feed reads as.
    lemma_read_items(taken);
    law_limit_after_filter(ch.children@, kw, limit);
    assert forall|i: int| 0 <= i < taken.len() implies wanted(#[trigger] taken[i], kw)
        && item_fields(taken[i]->Element_0) is Ok by {
        assert(taken[i] == k[i]);
        assert(k.contains(k[i]));
        lemma_kept_contains(ch.children@, k[i], kw);
    }
    // Every merged item comes from the source.
    assert forall|i: int| 0 <= i < out.len() implies wanted(#[trigger] out[i], kw) && item_fields(
        out[i]->Element_0,
    ) is Ok by {
        let x = out[i];
        let t = timestamp_of(x);
        assert(out.contains(x));
        lemma_published_at_contains(out, x, t);
        assert(published_at(out, t) == published_at(taken, t));
        lemma_published_at_contains(taken, x, t);
        let j = choose|j: int| 0 <= j < taken.len() && taken[j] == x;
        assert(wanted(taken[j], kw));
    }
    // The merged document's channel and title.
    let channel = merged.children@[0]->Element_0;
    let title = channel.children@[0]->Element_0;
    assert(first_named(merged.children@, "channel"@) == Some(0int));
    assert(child_named(merged, "channel"@) == Some(channel));
    assert(first_named(channel.children@, "title"@) == Some(0int));
    assert(crate::xml::node_text(title.children@[0]) is Some);
    assert(title.children@.drop_last() == Seq::<XmlNode>::empty());
    assert(joined_text(title.children@.drop_last()) == Seq::<char>::empty());
    assert(title.children@.last() == title.children@[0]);
    assert(Seq::<char>::empty() + FEED_TITLE@ == FEED_TITLE@);
    assert(joined_text(title.children@) == FEED_TITLE@);
    assert(text_of(title) == Some(FEED_TITLE@));
    assert(meta_title(channel) == Ok::<Seq<char>, MalformedFeedError>(FEED_TITLE@));
    // The merged channel yields exactly the merged items.
    let head = seq![XmlNode::Element(title)];
    assert(channel.children@ == head + out);
    reveal_strlit("title");
    reveal_strlit("item");
    assert("title"@.len() != "item"@.len());
    assert(title.name@ == "title"@);
    assert(!is_element_named(XmlNode::Element(title), "item"@));
    assert(!wanted(XmlNode::Element(title), kw));
    lemma_kept_push(Seq::<XmlNode>::empty(), XmlNode::Element(title), kw);
    assert(Seq::<XmlNode>::empty().push(XmlNode::Element(title)) == head);
    assert(kept(Seq::<XmlNode>::empty(), kw) == Seq::<XmlNode>::empty()) by {
        reveal(Seq::filter);
    }
    lemma_kept_append_wanted(head, out, kw);
    assert(kept(channel.children@, kw) == out);
    assert(selection(channel.children@, kw, read_limit) == out);
    lemma_read_items(out);
    // Reading both keeps the recency order.
    let vo = out.map_values(|n: XmlNode| fields_of(n));
    let vt = taken.map_values(|n: XmlNode| fields_of(n));
    assert forall|i: int, j: int| 0 <= i < j < vo.len() implies not_older(
        #[trigger] view_time(vo[i]),
        #[trigger] view_time(vo[j]),
    ) by {
        assert(wanted(out[i], kw) && wanted(out[j], kw));
        assert(view_time(vo[i]) == timestamp_of(out[i]));
        assert(view_time(vo[j]) == timestamp_of(out[j]));
        assert(not_older(timestamp_of(out[i]), timestamp_of(out[j])));
    }
    assert forall|t: Option<i64>| #[trigger] views_at(vo, t) == views_at(vt, t) by {
        lemma_views_at_map(out, t);
        lemma_views_at_map(taken, t);
        assert(published_at(out, t) == published_at(taken, t));
    }
    assert(feed_of(root, kw, limit)->Ok_0.1 == vt);
}

} // verus!
