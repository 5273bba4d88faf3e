use newsdeck::feed::{batch_from_results, feed_from_bytes, process_raw_item, short_date,
    strip_markup, FeedItem, FetchError, RawItem};

fn item(title: &str, date: &str, desc: &str) -> FeedItem {
    FeedItem { title: title.to_string(), date: date.to_string(), desc: desc.to_string() }
}

#[test]
fn short_date_takes_two_tokens_after_first() {
    assert_eq!(short_date("Mon, 02 Jan 2006 15:04:05 GMT"), "02 Jan");
}

#[test]
fn short_date_without_space_is_empty() {
    assert_eq!(short_date("N/A"), "");
    assert_eq!(short_date(""), "");
}

#[test]
fn short_date_with_one_following_token() {
    assert_eq!(short_date("Mon, 02"), "02");
}

#[test]
fn short_date_keeps_empty_tokens() {
    assert_eq!(short_date("a  b"), " b");
}

#[test]
fn strip_markup_removes_whitelist() {
    assert_eq!(strip_markup("<p>Hello</p> <em>world</em>"), "Hello world");
    assert_eq!(strip_markup("<strong>bold</strong>"), "bold");
}

#[test]
fn strip_markup_breaks_become_newlines() {
    assert_eq!(strip_markup("a<br>b</br>c"), "a\nb\nc");
}

#[test]
fn strip_markup_leaves_other_tags() {
    assert_eq!(strip_markup("<div>x</div>"), "<div>x</div>");
}

#[test]
fn process_raw_item_fills_fallbacks() {
    let raw = RawItem { title: None, date: None, desc: None };
    let it = process_raw_item(&raw);
    assert_eq!(it.title, "No Title");
    assert_eq!(it.date, "");
    assert_eq!(it.desc, "No description available.");
}

#[test]
fn process_raw_item_normalizes_fields() {
    let raw = RawItem {
        title: Some("A headline".to_string()),
        date: Some("Tue, 03 Feb 2015 10:00:00 +0000".to_string()),
        desc: Some("<p>Body &amp; soul</p>".to_string()),
    };
    let it = process_raw_item(&raw);
    assert_eq!(it.title, "A headline");
    assert_eq!(it.date, "03 Feb");
    assert_eq!(it.desc, "Body & soul");
}

#[test]
fn feed_from_bytes_parses_a_document() {
    let xml = "<?xml version=\"1.0\"?>\
<rss version=\"2.0\"><channel><title>t</title><link>l</link><description>d</description>\
<item><title>First</title><pubDate>Mon, 02 Jan 2006 15:04:05 GMT</pubDate>\
<description>&lt;p&gt;Hi &amp;amp; bye&lt;/p&gt;</description></item>\
<item><pubDate>N/A</pubDate></item>\
</channel></rss>";
    let items = feed_from_bytes(xml.as_bytes()).unwrap();
    assert_eq!(items.len(), 2);
    assert_eq!(items[0].title, "First");
    assert_eq!(items[0].date, "02 Jan");
    assert_eq!(items[0].desc, "Hi & bye");
    assert_eq!(items[1].title, "No Title");
    assert_eq!(items[1].date, "");
}

#[test]
fn feed_from_bytes_rejects_garbage() {
    let r = feed_from_bytes(b"this is not a feed");
    assert!(matches!(r, Err(FetchError::Malformed)));
}

#[test]
fn batch_keeps_length_and_order() {
    let results = vec![
        Ok(vec![item("a", "", ""), item("b", "", "")]),
        Err(FetchError::Network),
        Ok(vec![item("c", "", "")]),
        Err(FetchError::Malformed),
    ];
    let batch = batch_from_results(results);
    assert_eq!(batch.len(), 4);
    assert_eq!(batch[0].len(), 2);
    assert_eq!(batch[0][0].title, "a");
    assert_eq!(batch[0][1].title, "b");
    assert!(batch[1].is_empty());
    assert_eq!(batch[2][0].title, "c");
    assert!(batch[3].is_empty());
}
