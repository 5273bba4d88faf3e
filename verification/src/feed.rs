//! Feed-item normalization: turning the raw fields of a parsed syndication
//! item into a displayable record, and assembling one batch of per-category
//! results so that a failed category yields an empty slot and nothing more.

use vstd::prelude::*;
use crate::text::{find_char, find_char_from, lemma_find_char_from_range, replace_all, replaced};

verus! {

/// One displayable feed entry: a title, a short display date, and a
/// description with markup stripped.
#[derive(Clone, PartialEq, Eq, Debug)]
pub struct FeedItem {
    pub title: String,
    pub date: String,
    pub desc: String,
}

pub ghost struct FeedItemV {
    pub title: Seq<char>,
    pub date: Seq<char>,
    pub desc: Seq<char>,
}

impl View for FeedItem {
    type V = FeedItemV;

    open spec fn view(&self) -> FeedItemV {
        FeedItemV { title: self.title@, date: self.date@, desc: self.desc@ }
    }
}

impl DeepView for FeedItem {
    type V = FeedItemV;

    open spec fn deep_view(&self) -> FeedItemV {
        self.view()
    }
}

/// The raw fields of one parsed syndication item, before normalization.
#[derive(Clone, PartialEq, Eq, Debug)]
pub struct RawItem {
    pub title: Option<String>,
    pub date: Option<String>,
    pub desc: Option<String>,
}

impl DeepView for RawItem {
    type V = (Option<Seq<char>>, Option<Seq<char>>, Option<Seq<char>>);

    open spec fn deep_view(&self) -> (Option<Seq<char>>, Option<Seq<char>>, Option<Seq<char>>) {
        (self.title.deep_view(), self.date.deep_view(), self.desc.deep_view())
    }
}

/// Why one category's fetch produced no items.
#[derive(Clone, Copy, PartialEq, Eq, Debug)]
pub enum FetchError {
    /// The document could not be retrieved.
    Network,
    /// The document could not be parsed as a syndication feed.
    Malformed,
}

/// What `html_escape::decode_html_entities` returns for the given characters.
pub uninterp spec fn entity_decoded(s: Seq<char>) -> Seq<char>;

/// Relies on `html_escape::decode_html_entities`: the decoding of HTML
/// character entities in a string depends on the input characters alone.
#[verifier::external_body]
fn decode_entities(s: &str) -> (r: String)
    ensures
        r@ == entity_decoded(s@),
{
    html_escape::decode_html_entities(s).into_owned()
}

/// What `rss::Channel::read_from` yields for the given document bytes:
/// nothing when the document is rejected, otherwise each item's optional
/// title, publication date and description.
pub uninterp spec fn parsed_channel(bytes: Seq<u8>) -> Option<
    Seq<(Option<Seq<char>>, Option<Seq<char>>, Option<Seq<char>>)>,
>;

/// Relies on `rss::Channel::read_from`: parsing a syndication document is a
/// function of its bytes alone; each item's title, publication date and
/// description are handed out as plain optional strings.
#[verifier::external_body]
fn read_channel_items(bytes: &[u8]) -> (r: Option<Vec<RawItem>>)
    ensures
        (r is Some) == (parsed_channel(bytes@) is Some),
        r matches Some(v) ==> v.deep_view() == parsed_channel(bytes@).unwrap(),
{
    match rss::Channel::read_from(bytes) {
        Ok(ch) => Some(
            ch.items().iter().map(
                |it| RawItem {
                    title: it.title().map(|s| s.to_string()),
                    date: it.pub_date().map(|s| s.to_string()),
                    desc: it.description().map(|s| s.to_string()),
                },
            ).collect(),
        ),
        Err(_) => None,
    }
}

/// The two whitespace-delimited tokens that follow the first token of `s`,
/// joined by a single space: the text between the first space and the third
/// space (or the end). Empty when `s` holds no space at all.
pub open spec fn short_date_spec(s: Seq<char>) -> Seq<char> {
    let p1 = find_char_from(s, ' ', 0);
    if p1 == s.len() {
        Seq::empty()
    } else {
        let p2 = find_char_from(s, ' ', p1 + 1);
        if p2 == s.len() {
            s.subrange(p1 + 1, s.len() as int)
        } else {
            let p3 = find_char_from(s, ' ', p2 + 1);
            s.subrange(p1 + 1, p3)
        }
    }
}

/// Reduce a raw date string to its short display form: the two tokens
/// after the leading weekday token.
pub fn short_date(s: &str) -> (r: String)
    ensures
        r@ == short_date_spec(s@),
{
    let n = s.unicode_len();
    let p1 = find_char(s, ' ', 0);
    if p1 == n {
        String::new()
    } else {
        let p2 = find_char(s, ' ', p1 + 1);
        if p2 == n {
            s.substring_char(p1 + 1, n).to_owned()
        } else {
            let p3 = find_char(s, ' ', p2 + 1);
            proof {
                lemma_find_char_from_range(s@, ' ', p2 + 1);
            }
            s.substring_char(p1 + 1, p3).to_owned()
        }
    }
}

/// The description with the fixed whitelist of inline markup removed:
/// paragraph, emphasis and strong tags are deleted, line-break tags become
/// newline characters. Replacements are applied one pattern after another.
pub open spec fn stripped_markup(s: Seq<char>) -> Seq<char> {
    let s1 = replaced(s, "<p>"@, ""@);
    let s2 = replaced(s1, "</p>"@, ""@);
    let s3 = replaced(s2, "<br>"@, "\n"@);
    let s4 = replaced(s3, "</br>"@, "\n"@);
    let s5 = replaced(s4, "<em>"@, ""@);
    let s6 = replaced(s5, "</em>"@, ""@);
    let s7 = replaced(s6, "<strong>"@, ""@);
    replaced(s7, "</strong>"@, ""@)
}

/// Strip the markup whitelist from a decoded description.
pub fn strip_markup(s: &str) -> (r: String)
    ensures
        r@ == stripped_markup(s@),
{
    proof {
        reveal_strlit("<p>");
        reveal_strlit("</p>");
        reveal_strlit("<br>");
        reveal_strlit("</br>");
        reveal_strlit("<em>");
        reveal_strlit("</em>");
        reveal_strlit("<strong>");
        reveal_strlit("</strong>");
    }
    let s1 = replace_all(s, "<p>", "");
    let s2 = replace_all(s1.as_str(), "</p>", "");
    let s3 = replace_all(s2.as_str(), "<br>", "\n");
    let s4 = replace_all(s3.as_str(), "</br>", "\n");
    let s5 = replace_all(s4.as_str(), "<em>", "");
    let s6 = replace_all(s5.as_str(), "</em>", "");
    let s7 = replace_all(s6.as_str(), "<strong>", "");
    replace_all(s7.as_str(), "</strong>", "")
}

/// The normalized form of one raw item: a sentinel title when none is
/// present, the shortened date, and the entity-decoded, markup-stripped
/// description.
pub open spec fn processed_item(
    raw: (Option<Seq<char>>, Option<Seq<char>>, Option<Seq<char>>),
) -> FeedItemV {
    FeedItemV {
        title: match raw.0 {
            Some(t) => t,
            None => "No Title"@,
        },
        date: short_date_spec(
            match raw.1 {
                Some(d) => d,
                None => "N/A"@,
            },
        ),
        desc: stripped_markup(
            entity_decoded(
                match raw.2 {
                    Some(d) => d,
                    None => "No description available."@,
                },
            ),
        ),
    }
}

/// Normalize one raw syndication item into a displayable record.
pub fn process_raw_item(raw: &RawItem) -> (it: FeedItem)
    ensures
        it@ == processed_item(raw.deep_view()),
{
    let title = match &raw.title {
        Some(t) => t.clone(),
        None => String::from_str("No Title"),
    };
    let date_src = match &raw.date {
        Some(d) => d.clone(),
        None => String::from_str("N/A"),
    };
    let date = short_date(date_src.as_str());
    let desc_src = match &raw.desc {
        Some(d) => d.clone(),
        None => String::from_str("No description available."),
    };
    let decoded = decode_entities(desc_src.as_str());
    let desc = strip_markup(decoded.as_str());
    FeedItem { title, date, desc }
}

/// The whole normalized feed for one parsed document.
pub open spec fn processed_feed(
    raws: Seq<(Option<Seq<char>>, Option<Seq<char>>, Option<Seq<char>>)>,
) -> Seq<FeedItemV> {
    raws.map_values(|raw| processed_item(raw))
}

/// Parse one syndication document and normalize every item in it.
/// A document the parser rejects yields `FetchError::Malformed`; the items
/// of an accepted document come back in document order.
pub fn feed_from_bytes(bytes: &[u8]) -> (r: Result<Vec<FeedItem>, FetchError>)
    ensures
        (r is Ok) == (parsed_channel(bytes@) is Some),
        r matches Ok(v) ==> v.deep_view() == processed_feed(parsed_channel(bytes@).unwrap()),
        r matches Err(e) ==> e is Malformed,
{
    match read_channel_items(bytes) {
        None => Err(FetchError::Malformed),
        Some(raws) => {
            let mut out: Vec<FeedItem> = Vec::new();
            let mut i: usize = 0;
            while i < raws.len()
                invariant
                    0 <= i <= raws@.len(),
                    out@.len() == i,
                    forall|j: int|
                        0 <= j < i ==> out@[j]@ == processed_item(#[trigger] raws@[j].deep_view()),
                decreases raws@.len() - i,
            {
                let it = process_raw_item(&raws[i]);
                out.push(it);
                i = i + 1;
            }
            proof {
                assert(out.deep_view() =~= processed_feed(raws.deep_view()));
            }
            Ok(out)
        },
    }
}

/// One slot per fetched category, in input order: a successful fetch keeps
/// its items, a failed one is isolated into an empty slot.
pub fn batch_from_results(results: Vec<Result<Vec<FeedItem>, FetchError>>) -> (r: Vec<
    Vec<FeedItem>,
>)
    ensures
        r@.len() == results@.len(),
        forall|i: int|
            0 <= i < results@.len() ==> (#[trigger] results@[i] matches Ok(v) ==> r@[i] == v),
        forall|i: int|
            0 <= i < results@.len() ==> (#[trigger] results@[i] is Err ==> r@[i]@.len() == 0),
{
    let ghost orig = results@;
    let mut rest = results;
    let mut out: Vec<Vec<FeedItem>> = Vec::new();
    while rest.len() > 0
        invariant
            out@.len() + rest@.len() == orig.len(),
            rest@ == orig.skip(out@.len() as int),
            forall|i: int| 0 <= i < out@.len() ==> (#[trigger] orig[i] matches Ok(v) ==> out@[i] == v),
            forall|i: int| 0 <= i < out@.len() ==> (#[trigger] orig[i] is Err ==> out@[i]@.len() == 0),
        decreases rest@.len(),
    {
        let ghost k = out@.len() as int;
        proof {
            assert(rest@[0] == orig[k]);
        }
        let first = rest.remove(0);
        match first {
            Ok(v) => out.push(v),
            Err(_) => out.push(Vec::new()),
        }
        proof {
            assert(rest@ =~= orig.skip(out@.len() as int));
        }
    }
    out
}

} // verus!
