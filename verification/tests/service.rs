use rexml::error::{ErrorKind, HttpError};
use rexml::fetcher::{listing_url, page_query};
use rexml::model::{Listing, ListingChild, ListingData, Post, PostRecord, Timestamp};
use rexml::registration::{answer_registration, StoreFailure};
use rexml::ts_float_seconds::SecondsTimestampVisitor;

fn child(kind: &str, id: &str) -> ListingChild {
    ListingChild {
        kind: kind.to_string(),
        data: Post {
            title: format!("title of {}", id),
            ups: 3,
            permalink: format!("/r/rust/comments/{}", id),
            url: format!("https://example.org/{}", id),
            id: id.to_string(),
            created: Timestamp {
                secs: 1_600_000_000,
                nanos: 0,
            },
        },
    }
}

#[test]
fn errors_are_answered_with_their_status_and_text() {
    assert_eq!(
        HttpError::NotFound.into_response(),
        (404, "not found".to_string())
    );
    assert_eq!(
        HttpError::AlreadyExists.into_response(),
        (409, "already exists".to_string())
    );
    assert_eq!(
        HttpError::Sqlx("disk full".to_string()).into_response(),
        (500, "a database error occurred".to_string())
    );
    assert_eq!(
        HttpError::Other("boom".to_string()).into_response(),
        (500, "internal server error".to_string())
    );
}

#[test]
fn error_texts_do_not_show_the_cause() {
    assert_eq!(HttpError::NotFound.to_string(), "not found");
    assert_eq!(HttpError::AlreadyExists.to_string(), "already exists");
    assert_eq!(
        HttpError::Sqlx("secret".to_string()).to_string(),
        "a database error occurred"
    );
    assert_eq!(
        HttpError::Other("secret".to_string()).to_string(),
        "internal server error"
    );
}

#[test]
fn errors_have_their_kinds() {
    assert_eq!(HttpError::NotFound.kind(), ErrorKind::NotFound);
    assert_eq!(HttpError::AlreadyExists.kind(), ErrorKind::Conflict);
    assert_eq!(HttpError::Sqlx(String::new()).kind(), ErrorKind::StorageFailure);
    assert_eq!(HttpError::Other(String::new()).kind(), ErrorKind::Internal);
    assert_eq!(ErrorKind::NotFound.status(), 404);
    assert_eq!(ErrorKind::Conflict.status(), 409);
    assert_eq!(ErrorKind::UpstreamFailure.status(), 500);
    assert_eq!(ErrorKind::StorageFailure.status(), 500);
    assert_eq!(ErrorKind::Internal.status(), 500);
}

#[test]
fn stored_channel_is_answered_with_success_and_a_wake() {
    let answer = answer_registration(Ok(()));
    assert!(answer.response.is_ok());
    assert!(answer.wake);
}

#[test]
fn taken_name_is_answered_with_already_exists() {
    let answer = answer_registration(Err(StoreFailure {
        code: Some("2067".to_string()),
        detail: "UNIQUE constraint failed: subreddits.name".to_string(),
    }));
    assert!(matches!(answer.response, Err(HttpError::AlreadyExists)));
    assert!(!answer.wake);
}

#[test]
fn other_store_failures_are_answered_as_database_errors() {
    let other_code = answer_registration(Err(StoreFailure {
        code: Some("1555".to_string()),
        detail: "primary key".to_string(),
    }));
    match other_code.response {
        Err(HttpError::Sqlx(detail)) => assert_eq!(detail, "primary key"),
        other => panic!("unexpected answer {:?}", other),
    }
    assert!(!other_code.wake);
    let no_code = answer_registration(Err(StoreFailure {
        code: None,
        detail: "pool closed".to_string(),
    }));
    match no_code.response {
        Err(HttpError::Sqlx(detail)) => assert_eq!(detail, "pool closed"),
        other => panic!("unexpected answer {:?}", other),
    }
    assert!(!no_code.wake);
}

#[test]
fn listing_is_fetched_from_the_channel_s_newest_posts() {
    assert_eq!(listing_url("rust"), "https://reddit.com/r/rust/new.json");
    assert_eq!(listing_url(""), "https://reddit.com/r//new.json");
}

#[test]
fn query_carries_the_cursor_as_after() {
    assert_eq!(page_query(None), Vec::<(String, String)>::new());
    assert_eq!(
        page_query(Some("t3_abc".to_string())),
        vec![("after".to_string(), "t3_abc".to_string())]
    );
}

#[test]
fn listing_becomes_a_page_in_upstream_order() {
    let listing = Listing {
        data: ListingData {
            children: vec![child("t3", "c"), child("t1", "a"), child("t3", "b")],
        },
    };
    let page = listing.into_page();
    let seen: Vec<(String, String)> = page
        .iter()
        .map(|(kind, post)| (kind.clone(), post.id.clone()))
        .collect();
    assert_eq!(
        seen,
        vec![
            ("t3".to_string(), "c".to_string()),
            ("t1".to_string(), "a".to_string()),
            ("t3".to_string(), "b".to_string())
        ]
    );
    assert_eq!(page[1].1.title, "title of a");
    assert_eq!(page[1].1.ups, 3);
    let empty = Listing {
        data: ListingData {
            children: Vec::new(),
        },
    };
    assert!(empty.into_page().is_empty());
}

#[test]
fn first_sighting_copies_the_post_into_a_record() {
    let c = child("t3", "abc");
    let record = PostRecord::first_sighting(4, &c.kind, &c.data);
    assert_eq!(record.upstream_id, "abc");
    assert_eq!(record.channel_id, 4);
    assert_eq!(record.kind, "t3");
    assert_eq!(record.created, 1_600_000_000);
    assert_eq!(record.score, 3);
    assert_eq!(record.threshold_crossing_at, None);
    let copy = record.duplicate();
    assert_eq!(copy.url, record.url);
    assert_eq!(copy.permalink, "/r/rust/comments/abc");
}

#[test]
fn visitor_reads_whole_seconds() {
    let visitor = SecondsTimestampVisitor;
    assert_eq!(visitor.expecting(), "a unix timestamp in seconds");
    assert_eq!(
        visitor.visit_seconds(1_431_648_000),
        Timestamp {
            secs: 1_431_648_000,
            nanos: 0
        }
    );
    assert_eq!(
        visitor.visit_seconds(-1),
        Timestamp::from_secs(-1)
    );
}
