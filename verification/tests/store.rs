use rexml::error::HttpError;
use rexml::model::{Channel, CreateSubreddit, Post, PostRecord, Timestamp};
use rexml::poll::poll;
use rexml::store::{ChannelStore, FEED_LIMIT};

fn at(secs: i64) -> Timestamp {
    Timestamp { secs, nanos: 0 }
}

fn post(id: &str, ups: u32, created: i64) -> (String, Post) {
    (
        "t3".to_string(),
        Post {
            title: format!("title of {}", id),
            ups,
            permalink: format!("/r/rust/comments/{}", id),
            url: format!("https://example.org/{}", id),
            id: id.to_string(),
            created: at(created),
        },
    )
}

fn settings(threshold: i64, window: i64) -> CreateSubreddit {
    CreateSubreddit {
        upvote_threshold: threshold,
        time_cutoff_seconds: window,
    }
}

fn store_with(name: &str, threshold: i64, window: i64) -> (ChannelStore, Channel) {
    let mut store = ChannelStore::new();
    let channel = store
        .register(name.to_string(), settings(threshold, window))
        .unwrap();
    (store, channel)
}

fn crossed_record(channel_id: i64, id: &str, crossed_at: i64) -> PostRecord {
    PostRecord {
        upstream_id: id.to_string(),
        channel_id,
        kind: "t3".to_string(),
        title: format!("title of {}", id),
        url: format!("https://example.org/{}", id),
        permalink: format!("/r/rust/comments/{}", id),
        created: 0,
        score: 1000,
        threshold_crossing_at: Some(crossed_at),
    }
}

const NOW: i64 = 1_700_000_000;
const DAY: i64 = 86_400;

#[test]
fn register_numbers_channels_and_refuses_a_taken_name() {
    let mut store = ChannelStore::new();
    let rust = store.register("rust".to_string(), settings(100, DAY)).unwrap();
    assert_eq!(rust.id, 1);
    assert_eq!(rust.name, "rust");
    assert_eq!(rust.upvote_threshold, 100);
    assert_eq!(rust.time_cutoff_seconds, DAY);
    let news = store.register("news".to_string(), settings(5, 60)).unwrap();
    assert_eq!(news.id, 2);
    let again = store.register("rust".to_string(), settings(1, 1));
    assert!(matches!(again, Err(HttpError::AlreadyExists)));
    let channels = store.channels();
    assert_eq!(channels.len(), 2);
    assert_eq!(channels[0].name, "rust");
    assert_eq!(channels[0].upvote_threshold, 100);
    assert_eq!(channels[1].name, "news");
    assert!(store.channel_named("news").is_some());
    assert!(store.channel_named("none").is_none());
}

#[test]
fn insert_guards_the_unique_key() {
    let (mut store, channel) = store_with("rust", 100, DAY);
    assert!(store.insert(crossed_record(channel.id, "a", 5)));
    assert!(!store.insert(crossed_record(channel.id, "a", 9)));
    assert!(store.insert(crossed_record(channel.id + 1, "a", 9)));
    assert_eq!(store.post_count(), 2);
    let kept = store.record(channel.id, &"a".to_string()).unwrap();
    assert_eq!(kept.threshold_crossing_at, Some(5));
}

#[test]
fn mark_crossed_writes_score_and_time_of_one_record() {
    let (mut store, channel) = store_with("rust", 100, DAY);
    let mut a = crossed_record(channel.id, "a", 0);
    a.score = 80;
    a.threshold_crossing_at = None;
    let mut b = crossed_record(channel.id, "b", 0);
    b.score = 10;
    b.threshold_crossing_at = None;
    store.insert(a);
    store.insert(b);
    assert_eq!(store.stored_score(channel.id, &"a".to_string()), Some(80));
    assert!(store.mark_crossed(channel.id, &"a".to_string(), 120, NOW));
    assert!(!store.mark_crossed(channel.id, &"zzz".to_string(), 120, NOW));
    let a = store.record(channel.id, &"a".to_string()).unwrap();
    assert_eq!(a.score, 120);
    assert_eq!(a.threshold_crossing_at, Some(NOW));
    assert_eq!(a.title, "title of a");
    let b = store.record(channel.id, &"b".to_string()).unwrap();
    assert_eq!(b.score, 10);
    assert_eq!(b.threshold_crossing_at, None);
    assert_eq!(store.stored_score(channel.id, &"zzz".to_string()), None);
}

#[test]
fn polling_twice_keeps_one_record_per_post() {
    let (mut store, channel) = store_with("rust", 100, DAY);
    let pages = vec![
        vec![post("a", 10, NOW - 10), post("b", 200, NOW - 20)],
        vec![post("c", 30, NOW - 30)],
    ];
    poll(&mut store, &channel, &pages, at(NOW));
    assert_eq!(store.post_count(), 3);
    poll(&mut store, &channel, &pages, at(NOW + 300));
    assert_eq!(store.post_count(), 3);
    for id in ["a", "b", "c"] {
        assert!(store.record(channel.id, &id.to_string()).is_some());
    }
    let b = store.record(channel.id, &"b".to_string()).unwrap();
    assert_eq!(b.score, 200);
    assert_eq!(b.threshold_crossing_at, Some(NOW));
}

#[test]
fn scan_stops_at_the_first_post_older_than_the_window() {
    let (mut store, channel) = store_with("rust", 100, DAY);
    let pages = vec![vec![post("young", 1, NOW - 30), post("old", 1, NOW - 2 * DAY)]];
    let cursors = poll(&mut store, &channel, &pages, at(NOW));
    assert_eq!(store.post_count(), 1);
    assert!(store.record(channel.id, &"young".to_string()).is_some());
    assert!(store.record(channel.id, &"old".to_string()).is_none());
    assert_eq!(cursors, vec![None]);
}

#[test]
fn scan_does_not_filter_behind_an_old_post() {
    let (mut store, channel) = store_with("rust", 100, DAY);
    let pages = vec![
        vec![
            post("young", 1, NOW - 30),
            post("old", 1, NOW - 2 * DAY),
            post("young_again", 1, NOW - 40),
        ],
        vec![post("next_page", 1, NOW - 50)],
    ];
    poll(&mut store, &channel, &pages, at(NOW));
    assert_eq!(store.post_count(), 1);
    assert!(store.record(channel.id, &"young_again".to_string()).is_none());
    assert!(store.record(channel.id, &"next_page".to_string()).is_none());
}

#[test]
fn crossing_is_recorded_at_the_poll_that_sees_it() {
    let (mut store, channel) = store_with("rust", 100, DAY);
    let id = "a".to_string();

    poll(&mut store, &channel, &vec![vec![post("a", 80, NOW - 30)]], at(NOW));
    let first = store.record(channel.id, &id).unwrap();
    assert_eq!(first.score, 80);
    assert_eq!(first.threshold_crossing_at, None);

    poll(&mut store, &channel, &vec![vec![post("a", 120, NOW - 30)]], at(NOW + 300));
    let second = store.record(channel.id, &id).unwrap();
    assert_eq!(second.score, 120);
    assert_eq!(second.threshold_crossing_at, Some(NOW + 300));

    poll(&mut store, &channel, &vec![vec![post("a", 120, NOW - 30)]], at(NOW + 600));
    let third = store.record(channel.id, &id).unwrap();
    assert_eq!(third.score, 120);
    assert_eq!(third.threshold_crossing_at, Some(NOW + 300));
    assert_eq!(store.post_count(), 1);
}

#[test]
fn score_on_record_goes_stale_between_insert_and_crossing() {
    let (mut store, channel) = store_with("rust", 100, DAY);
    let id = "a".to_string();
    poll(&mut store, &channel, &vec![vec![post("a", 80, NOW - 30)]], at(NOW));
    poll(&mut store, &channel, &vec![vec![post("a", 95, NOW - 30)]], at(NOW + 1));
    assert_eq!(store.stored_score(channel.id, &id), Some(80));
    poll(&mut store, &channel, &vec![vec![post("a", 130, NOW - 30)]], at(NOW + 2));
    assert_eq!(store.stored_score(channel.id, &id), Some(130));
    poll(&mut store, &channel, &vec![vec![post("a", 40, NOW - 30)]], at(NOW + 3));
    poll(&mut store, &channel, &vec![vec![post("a", 500, NOW - 30)]], at(NOW + 4));
    let record = store.record(channel.id, &id).unwrap();
    assert_eq!(record.score, 130);
    assert_eq!(record.threshold_crossing_at, Some(NOW + 2));
}

#[test]
fn second_page_is_asked_for_with_the_cursor_of_the_last_post() {
    let (mut store, channel) = store_with("rust", 100, DAY);
    let mut first_page = Vec::new();
    for n in 1..=25 {
        first_page.push(post(&format!("p{}", n), 1, NOW - n));
    }
    let pages = vec![first_page, vec![post("q1", 1, NOW - 100)]];
    let cursors = poll(&mut store, &channel, &pages, at(NOW));
    assert_eq!(
        cursors,
        vec![
            None,
            Some("t3_p25".to_string()),
            Some("t3_q1".to_string())
        ]
    );
    assert_eq!(store.post_count(), 26);
}

#[test]
fn empty_page_ends_the_poll() {
    let (mut store, channel) = store_with("rust", 100, DAY);
    let pages = vec![Vec::new(), vec![post("a", 1, NOW)]];
    let cursors = poll(&mut store, &channel, &pages, at(NOW));
    assert_eq!(cursors, vec![None]);
    assert_eq!(store.post_count(), 0);
    let cursors = poll(&mut store, &channel, &Vec::new(), at(NOW));
    assert_eq!(cursors, vec![None]);
}

#[test]
fn channels_do_not_share_records() {
    let mut store = ChannelStore::new();
    let rust = store.register("rust".to_string(), settings(100, DAY)).unwrap();
    let news = store.register("news".to_string(), settings(10, DAY)).unwrap();
    let pages = vec![vec![post("a", 50, NOW - 5)]];
    poll(&mut store, &rust, &pages, at(NOW));
    poll(&mut store, &news, &pages, at(NOW + 1));
    assert_eq!(store.post_count(), 2);
    let in_rust = store.record(rust.id, &"a".to_string()).unwrap();
    let in_news = store.record(news.id, &"a".to_string()).unwrap();
    assert_eq!(in_rust.threshold_crossing_at, None);
    assert_eq!(in_news.threshold_crossing_at, Some(NOW + 1));
}

#[test]
fn feed_lists_the_latest_crossing_first() {
    let (mut store, channel) = store_with("rust", 100, DAY);
    store.insert(crossed_record(channel.id, "t2", 200));
    store.insert(crossed_record(channel.id, "t1", 100));
    store.insert(crossed_record(channel.id, "t3", 300));
    let mut never = crossed_record(channel.id, "never", 0);
    never.threshold_crossing_at = None;
    store.insert(never);
    store.insert(crossed_record(channel.id + 1, "elsewhere", 999));

    let picks = store.select_feed(channel.id);
    assert_eq!(picks, vec![2, 0, 1]);
    let entries = store.feed_entries("rust").unwrap();
    let times: Vec<i64> = entries.iter().map(|e| e.crossed_at).collect();
    assert_eq!(times, vec![300, 200, 100]);
    assert_eq!(entries[0].title, "title of t3");
    assert_eq!(entries[0].url, "https://example.org/t3");
}

#[test]
fn feed_is_cut_at_the_limit() {
    assert_eq!(FEED_LIMIT, 50);
    let (mut store, channel) = store_with("rust", 100, DAY);
    for n in 0..60 {
        store.insert(crossed_record(channel.id, &format!("p{}", n), 1000 + n));
    }
    let entries = store.feed_entries("rust").unwrap();
    assert_eq!(entries.len(), 50);
    assert_eq!(entries[0].crossed_at, 1059);
    assert_eq!(entries[49].crossed_at, 1010);
    for pair in entries.windows(2) {
        assert!(pair[0].crossed_at >= pair[1].crossed_at);
    }
}

#[test]
fn feed_of_an_unknown_channel_is_not_found() {
    let (store, _) = store_with("rust", 100, DAY);
    assert!(matches!(store.feed_entries("golang"), Err(HttpError::NotFound)));
    assert!(matches!(store.feed("golang"), Err(HttpError::NotFound)));
}

#[test]
fn feed_of_a_channel_without_crossings_is_an_empty_document() {
    let (store, _) = store_with("rust", 100, DAY);
    assert_eq!(store.feed_entries("rust").unwrap().len(), 0);
    let bytes = store.feed("rust").unwrap();
    let text = String::from_utf8(bytes).unwrap();
    assert!(text.starts_with("<feed "));
    assert!(!text.contains("<entry>"));
    assert!(!text.contains("<updated>"));
}
