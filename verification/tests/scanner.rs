use rexml::error::ErrorKind;
use rexml::model::{Channel, Post, Timestamp};
use rexml::scanner::{crossing, cursor_for, stale, ScanAction, ScanEvent, Scanner};

fn at(secs: i64) -> Timestamp {
    Timestamp { secs, nanos: 0 }
}

fn post(id: &str, ups: u32, created: i64) -> (String, Post) {
    (
        "t3".to_string(),
        Post {
            title: format!("title of {}", id),
            ups,
            permalink: format!("/r/rust/comments/{}", id),
            url: format!("https://example.org/{}", id),
            id: id.to_string(),
            created: at(created),
        },
    )
}

fn channel(threshold: i64, window: i64) -> Channel {
    Channel {
        id: 7,
        name: "rust".to_string(),
        upvote_threshold: threshold,
        time_cutoff_seconds: window,
    }
}

const NOW: i64 = 1_700_000_000;

#[test]
fn stale_is_strictly_older_than_the_window() {
    assert!(!stale(at(NOW - 60), at(NOW), 60));
    assert!(stale(at(NOW - 61), at(NOW), 60));
    assert!(!stale(at(NOW - 59), at(NOW), 60));
    assert!(stale(
        at(NOW - 60),
        Timestamp {
            secs: NOW,
            nanos: 1
        },
        60
    ));
    assert!(!stale(
        Timestamp {
            secs: NOW - 60,
            nanos: 1
        },
        Timestamp {
            secs: NOW,
            nanos: 1
        },
        60
    ));
}

#[test]
fn stale_takes_extreme_values() {
    assert!(stale(at(i64::MIN), at(i64::MAX), i64::MAX));
    assert!(!stale(at(i64::MAX), at(i64::MIN), i64::MIN));
    assert!(!stale(at(0), at(0), 0));
    assert!(stale(at(0), at(0), -1));
}

#[test]
fn crossing_needs_a_score_at_the_threshold_and_a_lower_one_on_record() {
    assert!(crossing(None, 100, 100));
    assert!(!crossing(None, 99, 100));
    assert!(crossing(Some(80), 120, 100));
    assert!(crossing(Some(99), 100, 100));
    assert!(!crossing(Some(100), 120, 100));
    assert!(!crossing(Some(120), 120, 100));
    assert!(!crossing(Some(80), 90, 100));
    assert!(crossing(Some(-5), 0, 0));
}

#[test]
fn cursor_is_kind_underscore_id() {
    assert_eq!(cursor_for(&"t3".to_string(), &"abc12".to_string()), "t3_abc12");
    assert_eq!(cursor_for(&"".to_string(), &"".to_string()), "_");
}

#[test]
fn scan_starts_with_the_first_page() {
    let (scanner, action) = Scanner::start(channel(100, 86_400));
    assert!(!scanner.is_stopped());
    assert_eq!(scanner.channel().name, "rust");
    match action {
        ScanAction::Fetch { channel, cursor } => {
            assert_eq!(channel, "rust");
            assert_eq!(cursor, None);
        }
        other => panic!("unexpected action {:?}", other),
    }
}

#[test]
fn empty_page_ends_the_scan() {
    let (scanner, _) = Scanner::start(channel(100, 86_400));
    let (scanner, action) = scanner.step(ScanEvent::Page(Vec::new()));
    assert!(matches!(action, ScanAction::Done));
    assert!(scanner.is_stopped());
    assert_eq!(scanner.failure(), None);
}

#[test]
fn new_post_below_threshold_is_inserted_and_not_marked() {
    let (scanner, _) = Scanner::start(channel(100, 86_400));
    let (scanner, action) = scanner.step(ScanEvent::Page(vec![post("a", 80, NOW - 30)]));
    assert!(matches!(action, ScanAction::ReadClock));
    let (scanner, action) = scanner.step(ScanEvent::Clock(at(NOW)));
    match action {
        ScanAction::Lookup {
            channel_id,
            upstream_id,
        } => {
            assert_eq!(channel_id, 7);
            assert_eq!(upstream_id, "a");
        }
        other => panic!("unexpected action {:?}", other),
    }
    let (scanner, action) = scanner.step(ScanEvent::Stored(None));
    match action {
        ScanAction::Insert(record) => {
            assert_eq!(record.upstream_id, "a");
            assert_eq!(record.channel_id, 7);
            assert_eq!(record.kind, "t3");
            assert_eq!(record.title, "title of a");
            assert_eq!(record.url, "https://example.org/a");
            assert_eq!(record.permalink, "/r/rust/comments/a");
            assert_eq!(record.created, NOW - 30);
            assert_eq!(record.score, 80);
            assert_eq!(record.threshold_crossing_at, None);
        }
        other => panic!("unexpected action {:?}", other),
    }
    let (scanner, action) = scanner.step(ScanEvent::Written);
    match action {
        ScanAction::Fetch { channel, cursor } => {
            assert_eq!(channel, "rust");
            assert_eq!(cursor, Some("t3_a".to_string()));
        }
        other => panic!("unexpected action {:?}", other),
    }
    assert!(!scanner.is_stopped());
}

#[test]
fn new_post_above_threshold_is_inserted_then_marked() {
    let (scanner, _) = Scanner::start(channel(100, 86_400));
    let (scanner, _) = scanner.step(ScanEvent::Page(vec![
        post("a", 150, NOW - 30),
        post("b", 1, NOW - 40),
    ]));
    let (scanner, _) = scanner.step(ScanEvent::Clock(Timestamp {
        secs: NOW,
        nanos: 999_999_999,
    }));
    let (scanner, action) = scanner.step(ScanEvent::Stored(None));
    assert!(matches!(action, ScanAction::Insert(_)));
    let (scanner, action) = scanner.step(ScanEvent::Written);
    match action {
        ScanAction::MarkCrossed {
            channel_id,
            upstream_id,
            score,
            at,
        } => {
            assert_eq!(channel_id, 7);
            assert_eq!(upstream_id, "a");
            assert_eq!(score, 150);
            assert_eq!(at, NOW);
        }
        other => panic!("unexpected action {:?}", other),
    }
    let (_, action) = scanner.step(ScanEvent::Written);
    assert!(matches!(action, ScanAction::ReadClock));
}

#[test]
fn known_post_crossing_is_marked_without_insert() {
    let (scanner, _) = Scanner::start(channel(100, 86_400));
    let (scanner, _) = scanner.step(ScanEvent::Page(vec![post("a", 120, NOW - 30)]));
    let (scanner, _) = scanner.step(ScanEvent::Clock(at(NOW + 5)));
    let (_, action) = scanner.step(ScanEvent::Stored(Some(80)));
    match action {
        ScanAction::MarkCrossed { score, at, .. } => {
            assert_eq!(score, 120);
            assert_eq!(at, NOW + 5);
        }
        other => panic!("unexpected action {:?}", other),
    }
}

#[test]
fn known_post_that_has_crossed_is_left_alone() {
    let (scanner, _) = Scanner::start(channel(100, 86_400));
    let (scanner, _) = scanner.step(ScanEvent::Page(vec![post("a", 120, NOW - 30)]));
    let (scanner, _) = scanner.step(ScanEvent::Clock(at(NOW)));
    let (_, action) = scanner.step(ScanEvent::Stored(Some(120)));
    match action {
        ScanAction::Fetch { cursor, .. } => assert_eq!(cursor, Some("t3_a".to_string())),
        other => panic!("unexpected action {:?}", other),
    }
}

#[test]
fn stored_score_is_not_refreshed_while_the_post_stays_below() {
    let (scanner, _) = Scanner::start(channel(100, 86_400));
    let (scanner, _) = scanner.step(ScanEvent::Page(vec![post("a", 90, NOW - 30)]));
    let (scanner, _) = scanner.step(ScanEvent::Clock(at(NOW)));
    let (_, action) = scanner.step(ScanEvent::Stored(Some(80)));
    assert!(matches!(action, ScanAction::Fetch { .. }));
}

#[test]
fn old_post_ends_the_scan_before_any_lookup() {
    let (scanner, _) = Scanner::start(channel(100, 86_400));
    let (scanner, _) = scanner.step(ScanEvent::Page(vec![
        post("old", 500, NOW - 2 * 86_400),
        post("older", 500, NOW - 3 * 86_400),
    ]));
    let (scanner, action) = scanner.step(ScanEvent::Clock(at(NOW)));
    assert!(matches!(action, ScanAction::Done));
    assert!(scanner.is_stopped());
    assert_eq!(scanner.failure(), None);
}

#[test]
fn fetch_failure_aborts_the_scan() {
    let (scanner, _) = Scanner::start(channel(100, 86_400));
    let (scanner, action) = scanner.step(ScanEvent::Failed(ErrorKind::UpstreamFailure));
    assert!(matches!(action, ScanAction::Abort(ErrorKind::UpstreamFailure)));
    assert_eq!(scanner.failure(), Some(ErrorKind::UpstreamFailure));
    let (scanner, action) = scanner.step(ScanEvent::Page(vec![post("a", 1, NOW)]));
    assert!(matches!(action, ScanAction::Abort(ErrorKind::UpstreamFailure)));
    assert!(scanner.is_stopped());
}

#[test]
fn storage_failure_aborts_the_scan() {
    let (scanner, _) = Scanner::start(channel(100, 86_400));
    let (scanner, _) = scanner.step(ScanEvent::Page(vec![post("a", 1, NOW)]));
    let (scanner, _) = scanner.step(ScanEvent::Clock(at(NOW)));
    let (scanner, action) = scanner.step(ScanEvent::Failed(ErrorKind::StorageFailure));
    assert!(matches!(action, ScanAction::Abort(ErrorKind::StorageFailure)));
    assert_eq!(scanner.failure(), Some(ErrorKind::StorageFailure));
}

#[test]
fn event_that_was_not_asked_for_aborts_the_scan() {
    let (scanner, _) = Scanner::start(channel(100, 86_400));
    let (scanner, action) = scanner.step(ScanEvent::Written);
    assert!(matches!(action, ScanAction::Abort(ErrorKind::Internal)));
    assert_eq!(scanner.failure(), Some(ErrorKind::Internal));
}

#[test]
fn finished_scan_stays_finished() {
    let (scanner, _) = Scanner::start(channel(100, 86_400));
    let (scanner, _) = scanner.step(ScanEvent::Page(Vec::new()));
    let (scanner, action) = scanner.step(ScanEvent::Failed(ErrorKind::StorageFailure));
    assert!(matches!(action, ScanAction::Done));
    assert_eq!(scanner.failure(), None);
}

#[test]
fn tick_reads_a_clock_that_is_past_an_old_post() {
    let (scanner, _) = Scanner::start(channel(100, 60));
    let (scanner, _) = scanner.step(ScanEvent::Page(vec![post("a", 1, 0)]));
    let (scanner, action) = scanner.tick();
    assert!(matches!(action, ScanAction::Done));
    assert!(scanner.is_stopped());
}

#[test]
fn tick_reads_a_clock_that_is_before_a_post_of_the_far_future() {
    let (scanner, _) = Scanner::start(channel(100, 60));
    let (scanner, _) = scanner.step(ScanEvent::Page(vec![post("a", 1, i64::MAX / 2)]));
    let (_, action) = scanner.tick();
    assert!(matches!(action, ScanAction::Lookup { .. }));
}
