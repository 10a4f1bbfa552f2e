use mior::aggregate::{check_status, merge_feeds_data};
use mior::error::{Error, FetchError, MalformedFeedError};
use mior::merger::FeedMerger;
use mior::model::{FeedInfo, SourceFeed};
use mior::parser::{read_rss_info, FeedDocument};
use mior::xml::{XmlElement, XmlNode};
use mior::text::{has_all_keywords, split_keywords};

fn item(title: &str, link: &str) -> String {
    format!("<item><title>{title}</title><link>{link}</link></item>")
}

fn dated_item(title: &str, date: &str) -> String {
    format!("<item><title>{title}</title><link>http://x/{title}</link><pubDate>{date}</pubDate></item>")
}

fn feed(title: &str, items: &[String]) -> Vec<u8> {
    format!("<rss version=\"2.0\"><channel><title>{title}</title>{}</channel></rss>", items.concat())
        .into_bytes()
}

fn source(keywords: &str) -> SourceFeed {
    SourceFeed { id: None, name: "s".to_string(), url: "http://example.com/rss".to_string(), keywords: keywords.to_string() }
}

fn read(data: &[u8]) -> FeedInfo {
    FeedDocument::parse(data).unwrap().read_feed().unwrap()
}

fn titles(info: &FeedInfo) -> Vec<String> {
    info.items.iter().map(|i| i.title.clone()).collect()
}

#[test]
fn two_sources_merge_in_source_order() {
    let a = feed("A", &[item("Alpha", "http://a/1"), item("Beta", "http://a/2")]);
    let b = feed("B", &[item("Gamma", "http://b/1")]);
    let out = merge_feeds_data(&[source(""), source("am")], vec![Ok(a), Ok(b)], 10).unwrap();
    let info = read(&out);
    assert_eq!(info.meta.title, "MIOR");
    assert_eq!(titles(&info), vec!["Alpha", "Beta", "Gamma"]);
}

#[test]
fn unmatched_keyword_yields_no_items() {
    let a = feed("A", &[item("Alpha", "http://a/1"), item("Beta", "http://a/2")]);
    let out = merge_feeds_data(&[source("zzz")], vec![Ok(a)], 10).unwrap();
    let info = read(&out);
    assert_eq!(info.items.len(), 0);
}

#[test]
fn unclosed_channel_is_a_parse_error() {
    let r = FeedDocument::parse(b"<rss><channel>");
    assert!(matches!(r, Err(MalformedFeedError::Parse(_))));
    let out = merge_feeds_data(&[source("")], vec![Ok(b"<rss><channel>".to_vec())], 10);
    assert!(matches!(out, Err(Error::MalformedFeed(0, MalformedFeedError::Parse(_)))));
}

#[test]
fn wrong_root_is_rejected() {
    let r = FeedDocument::parse(b"<feed><channel/></feed>");
    assert_eq!(r.unwrap_err(), MalformedFeedError::TagNotFound("rss"));
}

#[test]
fn missing_channel_title_is_reported() {
    let data = b"<rss><channel><item><title>a</title><link>l</link></item></channel></rss>";
    let r = FeedDocument::parse(data).unwrap().read_feed();
    assert_eq!(r.unwrap_err(), MalformedFeedError::TagNotFound("title"));
}

#[test]
fn missing_channel_is_reported() {
    let data = b"<rss><title>t</title></rss>";
    let r = FeedDocument::parse(data).unwrap().read_feed();
    assert_eq!(r.unwrap_err(), MalformedFeedError::TagNotFound("channel"));
    let r = FeedDocument::parse(data).unwrap().into_item_nodes();
    assert_eq!(r.unwrap_err(), MalformedFeedError::TagNotFound("channel"));
}

#[test]
fn channel_title_without_text_is_invalid() {
    let data = b"<rss><channel><title><b>x</b></title></channel></rss>";
    let r = FeedDocument::parse(data).unwrap().read_feed();
    assert_eq!(r.unwrap_err(), MalformedFeedError::InvalidTag("title"));
}

#[test]
fn empty_channel_title_reads_as_empty_text() {
    let info = read(b"<rss><channel><title></title></channel></rss>");
    assert_eq!(info.meta.title, "");
}

#[test]
fn channel_without_items_is_empty_document() {
    let info = read(b"<rss><channel><title>Only</title></channel></rss>");
    assert_eq!(info.meta.title, "Only");
    assert!(info.items.is_empty());
}

#[test]
fn item_without_link_fails_typed_read_only() {
    let data = b"<rss><channel><title>t</title><item><title>a</title></item></channel></rss>";
    let r = FeedDocument::parse(data).unwrap().read_feed();
    assert_eq!(r.unwrap_err(), MalformedFeedError::TagNotFound("link"));
    let nodes = FeedDocument::parse(data).unwrap().into_item_nodes().unwrap();
    assert_eq!(nodes.len(), 1);
}

#[test]
fn item_link_without_text_is_invalid() {
    let data = b"<rss><channel><title>t</title><item><title>a</title><link><x/></link></item></channel></rss>";
    let r = FeedDocument::parse(data).unwrap().read_feed();
    assert_eq!(r.unwrap_err(), MalformedFeedError::InvalidTag("link"));
}

#[test]
fn keyword_filter_is_conjunctive() {
    let data = feed("t", &[item("rust news", "1"), item("rust", "2"), item("news", "3"), item("Rust News", "4")]);
    let doc = FeedDocument::parse(&data).unwrap().with_keywords(vec!["rust".to_string(), "news".to_string()]);
    let info = doc.read_feed().unwrap();
    assert_eq!(titles(&info), vec!["rust news"]);
}

#[test]
fn empty_keyword_set_keeps_every_item() {
    let data = feed("t", &[item("a", "1"), item("b", "2")]);
    let doc = FeedDocument::parse(&data).unwrap().with_keywords(Vec::new());
    assert_eq!(doc.read_feed().unwrap().items.len(), 2);
}

#[test]
fn item_without_title_fails_nonempty_filter() {
    let data = b"<rss><channel><title>t</title><item><link>l</link></item><item><title>k</title><link>m</link></item></channel></rss>";
    let nodes = FeedDocument::parse(data).unwrap().with_keywords(vec!["k".to_string()]).into_item_nodes().unwrap();
    assert_eq!(nodes.len(), 1);
}

#[test]
fn limit_applies_after_filter() {
    let data = feed("t", &[item("x", "1"), item("a1", "2"), item("x", "3"), item("a2", "4"), item("a3", "5")]);
    let doc = FeedDocument::parse(&data).unwrap().with_keywords(vec!["a".to_string()]).with_limit(2);
    assert_eq!(titles(&doc.read_feed().unwrap()), vec!["a1", "a2"]);
    let doc = FeedDocument::parse(&data).unwrap().with_keywords(vec!["a".to_string()]).with_limit(10);
    assert_eq!(doc.into_item_nodes().unwrap().len(), 3);
    let doc = FeedDocument::parse(&data).unwrap().with_limit(0);
    assert_eq!(doc.read_feed().unwrap().items.len(), 0);
}

#[test]
fn failed_fetch_fails_the_aggregation() {
    let a = feed("A", &[item("Alpha", "1")]);
    let out = merge_feeds_data(
        &[source(""), source(""), source("")],
        vec![Ok(a), Err(FetchError::Status(404)), Err(FetchError::Transport("reset".to_string()))],
        10,
    );
    assert_eq!(out.unwrap_err(), Error::FetchFeed(1, FetchError::Status(404)));
}

#[test]
fn fetch_failure_wins_over_later_parse_failure() {
    let out = merge_feeds_data(
        &[source(""), source("")],
        vec![Ok(b"not xml".to_vec()), Err(FetchError::Transport("dns".to_string()))],
        10,
    );
    assert_eq!(out.unwrap_err(), Error::FetchFeed(1, FetchError::Transport("dns".to_string())));
}

#[test]
fn first_malformed_source_is_reported() {
    let good = feed("A", &[item("Alpha", "1")]);
    let out = merge_feeds_data(
        &[source(""), source(""), source("")],
        vec![Ok(good), Ok(b"<rss><item/></rss>".to_vec()), Ok(b"<html/>".to_vec())],
        10,
    );
    assert_eq!(out.unwrap_err(), Error::MalformedFeed(1, MalformedFeedError::TagNotFound("channel")));
}

#[test]
fn response_status_is_checked() {
    assert_eq!(check_status(200), Ok(()));
    assert_eq!(check_status(299), Ok(()));
    assert_eq!(check_status(199), Err(FetchError::Status(199)));
    assert_eq!(check_status(301), Err(FetchError::Status(301)));
    assert_eq!(check_status(500), Err(FetchError::Status(500)));
}

#[test]
fn keywords_are_split_on_spaces() {
    assert_eq!(split_keywords("  rust  news "), vec!["rust", "news"]);
    assert_eq!(split_keywords(""), Vec::<String>::new());
    assert_eq!(split_keywords("   "), Vec::<String>::new());
    assert_eq!(split_keywords("ünï cödé"), vec!["ünï", "cödé"]);
}

#[test]
fn keyword_match_is_case_sensitive_substring() {
    assert!(has_all_keywords("Gamma rays", &vec!["am".to_string(), "ray".to_string()]));
    assert!(!has_all_keywords("Gamma rays", &vec!["AM".to_string()]));
    assert!(has_all_keywords("anything", &Vec::new()));
}

#[test]
fn publication_dates_are_read() {
    let data = feed("t", &[dated_item("a", "Wed, 18 Feb 2015 23:16:09 GMT"), dated_item("b", "not a date"), item("c", "l")]);
    let info = read(&data);
    assert_eq!(info.items[0].published, Some(1424301369));
    assert_eq!(info.items[1].published, None);
    assert_eq!(info.items[2].published, None);
}

#[test]
fn merged_items_go_from_most_recent_to_oldest() {
    let a = feed("A", &[
        dated_item("old", "Mon, 01 Jan 2018 00:00:00 +0000"),
        item("undated1", "l"),
        dated_item("new", "Tue, 01 Jan 2019 00:00:00 +0000"),
    ]);
    let b = feed("B", &[
        item("undated2", "l"),
        dated_item("mid", "Mon, 01 Jan 2018 12:00:00 +0000"),
        dated_item("new2", "Tue, 01 Jan 2019 00:00:00 +0000"),
    ]);
    let out = merge_feeds_data(&[source(""), source("")], vec![Ok(a), Ok(b)], 10).unwrap();
    let info = read(&out);
    assert_eq!(titles(&info), vec!["new", "new2", "mid", "old", "undated1", "undated2"]);
}

#[test]
fn merged_document_round_trips() {
    let data = feed("Src", &[
        dated_item("one", "Mon, 01 Jan 2018 00:00:00 +0000"),
        item("two &amp; more", "http://x/2?a=1&amp;b=2"),
        dated_item("three", "Tue, 01 Jan 2019 00:00:00 +0000"),
    ]);
    let source_info = read(&data);
    let mut merger = FeedMerger::new();
    merger.append(FeedDocument::parse(&data).unwrap()).unwrap();
    let out = merger.build().unwrap();
    let back = read(&out);
    assert_eq!(back.meta.title, "MIOR");
    let order = [2usize, 0, 1];
    assert_eq!(back.items.len(), source_info.items.len());
    for (k, &i) in order.iter().enumerate() {
        assert_eq!(back.items[k], source_info.items[i]);
    }
}

#[test]
fn merged_document_is_an_rss_document() {
    let mut merger = FeedMerger::new();
    merger.append(FeedDocument::parse(&feed("A", &[item("x", "y")])).unwrap()).unwrap();
    let out = String::from_utf8(merger.build().unwrap()).unwrap();
    assert!(out.starts_with("<?xml"));
    assert!(out.contains("<rss><channel><title>MIOR</title><item><title>x</title><link>y</link></item></channel></rss>"));
}

#[test]
fn empty_merger_builds_title_only() {
    let out = FeedMerger::new().build().unwrap();
    let info = read(&out);
    assert_eq!(info.meta.title, "MIOR");
    assert!(info.items.is_empty());
}

#[test]
fn append_reports_missing_channel() {
    let mut merger = FeedMerger::new();
    let r = merger.append(FeedDocument::parse(b"<rss/>").unwrap());
    assert_eq!(r.unwrap_err(), MalformedFeedError::TagNotFound("channel"));
}

#[test]
fn cdata_and_text_are_joined() {
    let info = read(b"<rss><channel><title>a<![CDATA[<b>]]>c</title></channel></rss>");
    assert_eq!(info.meta.title, "a<b>c");
}

#[test]
fn item_nodes_are_carried_verbatim() {
    let data = b"<rss><channel><title>t</title><item id=\"7\"><title>a</title><link>l</link><category domain=\"d\">c</category><!--note--></item></channel></rss>";
    let mut merger = FeedMerger::new();
    merger.append(FeedDocument::parse(data).unwrap()).unwrap();
    let out = String::from_utf8(merger.build().unwrap()).unwrap();
    assert!(out.contains("<item id=\"7\"><title>a</title><link>l</link><category domain=\"d\">c</category><!-- note --></item>"), "{out}");
}

#[test]
fn namespaced_items_survive_the_round_trip() {
    let data = b"<rss xmlns:dc=\"http://purl.org/dc/elements/1.1/\"><channel><title>t</title><item><title>a</title><link>l</link><dc:creator>me</dc:creator></item></channel></rss>";
    let out = merge_feeds_data(&[source("")], vec![Ok(data.to_vec())], 10).unwrap();
    let info = read(&out);
    assert_eq!(titles(&info), vec!["a"]);
    assert!(String::from_utf8(out).unwrap().contains("creator>me</dc:creator>"));
}

#[test]
fn item_with_empty_title_is_invalid() {
    let data = b"<rss><channel><title>t</title><item><title></title><link>l</link></item></channel></rss>";
    let r = FeedDocument::parse(data).unwrap().read_feed();
    assert_eq!(r.unwrap_err(), MalformedFeedError::InvalidTag("title"));
    let data = b"<rss><channel><title>t</title><item><title/><link>l</link></item></channel></rss>";
    let r = FeedDocument::parse(data).unwrap().read_feed();
    assert_eq!(r.unwrap_err(), MalformedFeedError::InvalidTag("title"));
}

#[test]
fn item_with_empty_link_is_invalid() {
    let data = b"<rss><channel><title>t</title><item><title>a</title><link/></item></channel></rss>";
    let r = FeedDocument::parse(data).unwrap().read_feed();
    assert_eq!(r.unwrap_err(), MalformedFeedError::InvalidTag("link"));
}

#[test]
fn empty_title_fails_empty_string_keyword() {
    let data = b"<rss><channel><title>t</title><item><title/><link>l</link></item></channel></rss>";
    let doc = FeedDocument::parse(data).unwrap().with_keywords(vec![String::new()]);
    assert_eq!(doc.into_item_nodes().unwrap().len(), 0);
}

fn element(name: &str, children: Vec<XmlNode>) -> XmlElement {
    XmlElement { prefix: None, namespace: None, namespaces: None, name: name.to_string(), attributes: Vec::new(), children }
}

#[test]
fn filter_by_keywords_reads_the_title() {
    let data = feed("t", &[]);
    let doc = FeedDocument::parse(&data).unwrap().with_keywords(vec!["rust".to_string(), "news".to_string()]);
    let titled = |t: &str| element("item", vec![XmlNode::Element(element("title", vec![XmlNode::Text(t.to_string())]))]);
    assert!(doc.filter_by_keywords(&titled("news about rust")));
    assert!(!doc.filter_by_keywords(&titled("rust only")));
    assert!(!doc.filter_by_keywords(&element("item", Vec::new())));
    assert!(!doc.filter_by_keywords(&element("item", vec![XmlNode::Element(element("title", Vec::new()))])));
    let open = FeedDocument::parse(&data).unwrap();
    assert!(open.filter_by_keywords(&element("item", Vec::new())));
}

#[test]
fn outcome_count_must_match_sources() {
    let a = feed("A", &[item("Alpha", "1")]);
    let out = merge_feeds_data(&[source(""), source("")], vec![Ok(a)], 10);
    assert_eq!(out.unwrap_err(), Error::OutcomeCount(2, 1));
    let out = merge_feeds_data(&[], vec![Err(FetchError::Status(500))], 10);
    assert_eq!(out.unwrap_err(), Error::OutcomeCount(0, 1));
}

#[test]
fn rss_info_reads_bytes_with_limit() {
    let data = feed("Src", &[item("a", "1"), item("b", "2"), item("c", "3")]);
    let info = read_rss_info(&data, 2).unwrap();
    assert_eq!(info.meta.title, "Src");
    assert_eq!(titles(&info), vec!["a", "b"]);
    assert_eq!(read_rss_info(b"<x/>", 2).unwrap_err(), MalformedFeedError::TagNotFound("rss"));
    assert!(matches!(read_rss_info(b"<rss>", 2), Err(MalformedFeedError::Parse(_))));
}
