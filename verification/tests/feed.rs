use rexml::error::HttpError;
use rexml::feed::{answer_feed, render_feed, FeedEntry};

fn entry(title: &str, url: &str, crossed_at: i64) -> FeedEntry {
    FeedEntry {
        title: title.to_string(),
        url: url.to_string(),
        crossed_at,
    }
}

fn rendered(channel: &str, entries: &Vec<FeedEntry>) -> String {
    String::from_utf8(render_feed(channel, entries).unwrap()).unwrap()
}

const HEAD: &str = "<feed xmlns=\"\" xmlns=\"http://www.w3.org/2005/Atom\">\
<id>http://rexml.mattjhall.xyz/rust</id>\
<link href=\"http://rexml.mattjhall.xyz/rust\" rel=\"self\"/>\
<title>rust posts</title>";

#[test]
fn feed_without_entries_has_no_time_of_its_own() {
    assert_eq!(rendered("rust", &Vec::new()), format!("{}</feed>", HEAD));
}

#[test]
fn feed_with_one_entry() {
    let text = rendered(
        "rust",
        &vec![entry("Hello", "https://example.org/a", 1_431_648_000)],
    );
    let expected = format!(
        "{}<entry><id>https://example.org/a</id><title>Hello</title>\
<link href=\"https://example.org/a\"/>\
<updated>2015-05-15T00:00:00+00:00</updated></entry>\
<updated>2015-05-15T00:00:00+00:00</updated></feed>",
        HEAD
    );
    assert_eq!(text, expected);
}

#[test]
fn feed_keeps_the_order_given_and_takes_its_time_from_the_first_entry() {
    let text = rendered(
        "rust",
        &vec![
            entry("third", "https://example.org/3", 300),
            entry("second", "https://example.org/2", 200),
            entry("first", "https://example.org/1", 100),
        ],
    );
    let third = text.find("<title>third</title>").unwrap();
    let second = text.find("<title>second</title>").unwrap();
    let first = text.find("<title>first</title>").unwrap();
    assert!(third < second && second < first);
    assert!(text.ends_with("</entry><updated>1970-01-01T00:05:00+00:00</updated></feed>"));
    assert_eq!(text.matches("<updated>").count(), 4);
    assert_eq!(text.matches("<entry>").count(), 3);
}

#[test]
fn feed_escapes_markup_in_texts_and_attributes() {
    let text = rendered("rust", &vec![entry("a < b & c", "https://example.org/?x=1&y=\"2\"", 0)]);
    assert!(text.contains("<title>a &lt; b &amp; c</title>"));
    assert!(text.contains("<link href=\"https://example.org/?x=1&amp;y=&quot;2&quot;\"/>"));
    assert!(text.contains("<updated>1970-01-01T00:00:00+00:00</updated>"));
}

#[test]
fn feed_is_named_after_its_channel() {
    let text = rendered("golang", &Vec::new());
    assert!(text.contains("<id>http://rexml.mattjhall.xyz/golang</id>"));
    assert!(text.contains("<link href=\"http://rexml.mattjhall.xyz/golang\" rel=\"self\"/>"));
    assert!(text.contains("<title>golang posts</title>"));
}

#[test]
fn time_that_cannot_be_written_is_an_internal_failure() {
    let far = render_feed("rust", &vec![entry("t", "u", i64::MAX)]);
    assert!(matches!(far, Err(HttpError::Other(_))));
    let also = render_feed("rust", &vec![entry("t", "u", 0), entry("t", "u", i64::MIN)]);
    assert!(matches!(also, Err(HttpError::Other(_))));
}

#[test]
fn feed_of_an_unknown_channel_is_refused() {
    assert!(matches!(answer_feed("rust", None), Err(HttpError::NotFound)));
}

#[test]
fn feed_of_a_known_channel_is_its_document() {
    let entries = vec![entry("Hello", "https://example.org/a", 60)];
    let answered = answer_feed("rust", Some(entries.clone())).unwrap();
    assert_eq!(answered, render_feed("rust", &entries).unwrap());
    let empty = String::from_utf8(answer_feed("rust", Some(Vec::new())).unwrap()).unwrap();
    assert_eq!(empty, format!("{}</feed>", HEAD));
}
