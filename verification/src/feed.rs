//! The syndication document of a channel.

use crate::clock::{format_rfc3339, rfc3339_text};
use crate::error::HttpError;
use crate::xml::{
    append_element, append_text, element_events, new_element, plain_name, set_attribute,
    write_element, xml_output, XmlEvent,
};
use minidom::Element;
use vstd::prelude::*;

verus! {

/// A post that has reached its channel's threshold, as the feed shows it.
#[derive(Clone, Debug)]
pub struct FeedEntry {
    pub title: String,
    pub url: String,
    /// When the score was first seen at or above the threshold, in seconds
    /// since the epoch.
    pub crossed_at: i64,
}

/// The mathematical view of a [`FeedEntry`].
pub struct FeedEntryView {
    pub title: Seq<char>,
    pub url: Seq<char>,
    pub crossed_at: int,
}

impl View for FeedEntry {
    type V = FeedEntryView;

    open spec fn view(&self) -> FeedEntryView {
        FeedEntryView { title: self.title@, url: self.url@, crossed_at: self.crossed_at as int }
    }
}

/// The views of a list of entries.
pub open spec fn entries_view(entries: Seq<FeedEntry>) -> Seq<FeedEntryView> {
    entries.map_values(|e: FeedEntry| e@)
}

/// The text that the feed shows for the instant `secs`.
pub open spec fn stamp(secs: int) -> Seq<char> {
    rfc3339_text(secs).unwrap()
}

/// Whether the feed can show every entry's time.
pub open spec fn all_stamped(entries: Seq<FeedEntryView>) -> bool {
    forall|i: int| 0 <= i < entries.len() ==> rfc3339_text((#[trigger] entries[i]).crossed_at) is Some
}

/// An element that holds nothing but a text.
pub open spec fn text_element(name: Seq<char>, text: Seq<char>) -> Seq<XmlEvent> {
    seq![
        XmlEvent::Open { name, namespace: ""@, attrs: Map::empty() },
        XmlEvent::Text(text),
        XmlEvent::Close,
    ]
}

/// A `link` element with the given attributes.
pub open spec fn link_element(attrs: Map<Seq<char>, Seq<char>>) -> Seq<XmlEvent> {
    seq![XmlEvent::Open { name: "link"@, namespace: ""@, attrs }, XmlEvent::Close]
}

/// One `entry`: its id and its link are the post's URL.
pub open spec fn entry_events(e: FeedEntryView) -> Seq<XmlEvent> {
    seq![XmlEvent::Open { name: "entry"@, namespace: ""@, attrs: Map::empty() }]
        + text_element("id"@, e.url)
        + text_element("title"@, e.title)
        + link_element(Map::empty().insert("href"@, e.url))
        + text_element("updated"@, stamp(e.crossed_at))
        + seq![XmlEvent::Close]
}

/// The entries one after the other.
pub open spec fn entries_events(entries: Seq<FeedEntryView>) -> Seq<XmlEvent>
    decreases entries.len(),
{
    if entries.len() == 0 {
        Seq::empty()
    } else {
        entries_events(entries.drop_last()) + entry_events(entries.last())
    }
}

/// The address under which a channel's feed is published.
pub open spec fn feed_address(channel: Seq<char>) -> Seq<char> {
    "http://rexml.mattjhall.xyz/"@ + channel
}

/// The document's own time: that of the first entry, where there is one.
pub open spec fn feed_updated(entries: Seq<FeedEntryView>) -> Seq<XmlEvent> {
    if entries.len() > 0 {
        text_element("updated"@, stamp(entries[0].crossed_at))
    } else {
        Seq::empty()
    }
}

/// What precedes the entries in a channel's feed.
pub open spec fn feed_head(channel: Seq<char>) -> Seq<XmlEvent> {
    seq![
        XmlEvent::Open {
            name: "feed"@,
            namespace: ""@,
            attrs: Map::empty().insert("xmlns"@, "http://www.w3.org/2005/Atom"@),
        },
    ] + text_element("id"@, feed_address(channel)) + link_element(
        Map::empty().insert("rel"@, "self"@).insert("href"@, feed_address(channel)),
    ) + text_element("title"@, channel + " posts"@)
}

/// The feed of a channel: its head, the entries in the order given, and the
/// time of the first entry as the document's own.
pub open spec fn feed_events(channel: Seq<char>, entries: Seq<FeedEntryView>) -> Seq<XmlEvent> {
    feed_head(channel) + entries_events(entries) + feed_updated(entries) + seq![XmlEvent::Close]
}

/// An element named `name` that holds the text `text`.
fn make_text_element(name: &str, text: &str) -> (e: Element)
    requires
        plain_name(name@),
    ensures
        element_events(e) == text_element(name@, text@),
{
    let mut e = new_element(name, "");
    append_text(&mut e, text);
    assert(element_events(e) =~= text_element(name@, text@));
    e
}

/// The `entry` element of one post, or `None` where its time cannot be
/// shown.
fn make_entry(entry: &FeedEntry) -> (made: Option<Element>)
    ensures
        match made {
            Some(e) => rfc3339_text(entry.crossed_at as int) is Some && element_events(e)
                == entry_events(entry@),
            None => rfc3339_text(entry.crossed_at as int) is None,
        },
{
    let updated = match format_rfc3339(entry.crossed_at) {
        Some(text) => text,
        None => { return None; },
    };
    proof {
        lemma_names_are_plain();
    }
    let mut e = new_element("entry", "");
    append_element(&mut e, make_text_element("id", entry.url.as_str()));
    append_element(&mut e, make_text_element("title", entry.title.as_str()));
    let mut link = new_element("link", "");
    set_attribute(&mut link, "href", entry.url.as_str());
    append_element(&mut e, link);
    append_element(&mut e, make_text_element("updated", updated.as_str()));
    assert(element_events(e) =~= entry_events(entry@));
    Some(e)
}

/// None of the element names of a feed holds a colon.
proof fn lemma_names_are_plain()
    ensures
        plain_name("feed"@),
        plain_name("entry"@),
        plain_name("id"@),
        plain_name("title"@),
        plain_name("link"@),
        plain_name("updated"@),
{
    reveal_strlit("feed");
    reveal_strlit("entry");
    reveal_strlit("id");
    reveal_strlit("title");
    reveal_strlit("link");
    reveal_strlit("updated");
}

/// Whether the feed of `channel` with these entries can be rendered: every
/// entry's time can be shown, and the document can be written.
pub open spec fn renders(channel: Seq<char>, entries: Seq<FeedEntryView>) -> bool {
    all_stamped(entries) && xml_output(feed_events(channel, entries)) is Some
}

/// Renders the feed of the channel `channel` with the given entries, in the
/// order given. The document's own time is that of the first entry; a feed
/// without entries has none. Fails with `Other` where an entry's time lies
/// outside the years that can be written, and where the document cannot be
/// written; on every other input it gives the document's bytes.
pub fn render_feed(channel: &str, entries: &Vec<FeedEntry>) -> (r: Result<Vec<u8>, HttpError>)
    ensures
        r is Ok <==> renders(channel@, entries_view(entries@)),
        r matches Ok(bytes) ==> xml_output(feed_events(channel@, entries_view(entries@)))
            == Some(bytes@),
        r matches Err(e) ==> e is Other,
{
    proof {
        lemma_names_are_plain();
    }
    let address = "http://rexml.mattjhall.xyz/".to_owned().concat(channel);
    let title = channel.to_owned().concat(" posts");
    let mut feed = new_element("feed", "");
    set_attribute(&mut feed, "xmlns", "http://www.w3.org/2005/Atom");
    append_element(&mut feed, make_text_element("id", address.as_str()));
    let mut link = new_element("link", "");
    set_attribute(&mut link, "rel", "self");
    set_attribute(&mut link, "href", address.as_str());
    append_element(&mut feed, link);
    append_element(&mut feed, make_text_element("title", title.as_str()));
    assert(element_events(feed) =~= feed_head(channel@) + seq![XmlEvent::Close]);

    let mut i: usize = 0;
    while i < entries.len()
        invariant
            0 <= i <= entries.len(),
            all_stamped(entries_view(entries@).take(i as int)),
            element_events(feed) == feed_head(channel@) + entries_events(
                entries_view(entries@).take(i as int),
            ) + seq![XmlEvent::Close],
        decreases entries.len() - i,
    {
        match make_entry(&entries[i]) {
            Some(e) => {
                append_element(&mut feed, e);
            },
            None => {
                proof {
                    let shown = entries_view(entries@);
                    assert(shown[i as int] == entries@[i as int]@);
                    assert(rfc3339_text(shown[i as int].crossed_at) is None);
                }
                return Err(HttpError::Other("a post's time cannot be written".to_owned()));
            },
        }
        proof {
            let before = entries_view(entries@).take(i as int);
            let after = entries_view(entries@).take(i + 1);
            assert(after.drop_last() =~= before);
            assert(after.last() == entries@[i as int]@);
            assert(element_events(feed) =~= feed_head(channel@) + entries_events(after)
                + seq![XmlEvent::Close]);
            assert forall|j: int| 0 <= j < after.len() implies rfc3339_text(
                (#[trigger] after[j]).crossed_at,
            ) is Some by {
                if j < i {
                    assert(before[j] == after[j]);
                }
            }
        }
        i = i + 1;
    }
    assert(entries_view(entries@).take(i as int) =~= entries_view(entries@));
    if entries.len() > 0 {
        assert(entries_view(entries@)[0] == entries@[0]@);
        match format_rfc3339(entries[0].crossed_at) {
            Some(text) => {
                append_element(&mut feed, make_text_element("updated", text.as_str()));
            },
            None => {
                return Err(HttpError::Other("a post's time cannot be written".to_owned()));
            },
        }
    }
    assert(element_events(feed) =~= feed_events(channel@, entries_view(entries@)));
    match write_element(&feed) {
        Ok(bytes) => Ok(bytes),
        Err(_) => Err(HttpError::Other("the feed document could not be written".to_owned())),
    }
}

/// Answers a request for the feed of `channel`. `found` holds the entries
/// of the channel's feed, or nothing where no such channel is registered:
/// that request fails with `NotFound`. A channel without entries is
/// answered with a document without entries.
pub fn answer_feed(channel: &str, found: Option<Vec<FeedEntry>>) -> (r: Result<Vec<u8>, HttpError>)
    ensures
        match found {
            None => r matches Err(HttpError::NotFound),
            Some(entries) => {
                &&& r is Ok <==> renders(channel@, entries_view(entries@))
                &&& r matches Ok(bytes) ==> xml_output(
                    feed_events(channel@, entries_view(entries@)),
                ) == Some(bytes@)
                &&& r matches Err(e) ==> e is Other
            },
        },
{
    match found {
        None => Err(HttpError::NotFound),
        Some(entries) => render_feed(channel, &entries),
    }
}

} // verus!
