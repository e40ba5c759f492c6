//! What holds of every scan, proved from the definitions of the store and
//! of the scan.

use crate::model::{first_record, ChannelView, PostRecordView, PostView, Timestamp};
use crate::poll::{cursors_asked, cut_short, scanned, walked, PageView};
use crate::scanner::{crosses, cursor_after, is_stale};
use crate::store::{
    crossed, crossing_of, entries_of, inserted, is_feed_selection, lemma_marked_keeps_unique,
    lemma_place, observed, on_record, place, qualifies, same_post, score_on_record, unique_posts,
};
use vstd::prelude::*;

verus! {

/// Whether `after` holds the records of `before` at their places, each for
/// the same post as before.
pub open spec fn extends(before: Seq<PostRecordView>, after: Seq<PostRecordView>) -> bool {
    &&& before.len() <= after.len()
    &&& forall|i: int|
        0 <= i < before.len() ==> same_post(
            #[trigger] after[i],
            before[i].channel_id,
            before[i].upstream_id,
        )
}

/// A post that is on record stays on record in every extension.
pub proof fn lemma_extends_keeps_record(
    before: Seq<PostRecordView>,
    after: Seq<PostRecordView>,
    channel_id: int,
    upstream_id: Seq<char>,
)
    requires
        extends(before, after),
        on_record(before, channel_id, upstream_id),
    ensures
        on_record(after, channel_id, upstream_id),
{
    let i = place(before, channel_id, upstream_id);
    assert(same_post(after[i], before[i].channel_id, before[i].upstream_id));
    assert(same_post(after[i], channel_id, upstream_id));
}

/// Extension is transitive.
pub proof fn lemma_extends_twice(
    a: Seq<PostRecordView>,
    b: Seq<PostRecordView>,
    c: Seq<PostRecordView>,
)
    requires
        extends(a, b),
        extends(b, c),
    ensures
        extends(a, c),
{
    assert forall|i: int| 0 <= i < a.len() implies same_post(
        #[trigger] c[i],
        a[i].channel_id,
        a[i].upstream_id,
    ) by {
        assert(same_post(b[i], a[i].channel_id, a[i].upstream_id));
        assert(same_post(c[i], b[i].channel_id, b[i].upstream_id));
    }
}

/// One sighting keeps every post on record once, keeps the records that
/// were there, adds one record at most, and none where the post was on
/// record. The post seen is on record afterwards.
pub proof fn lemma_observed(
    posts: Seq<PostRecordView>,
    channel: ChannelView,
    item: (Seq<char>, PostView),
    now: Timestamp,
)
    requires
        unique_posts(posts),
    ensures
        unique_posts(observed(posts, channel, item, now)),
        extends(posts, observed(posts, channel, item, now)),
        on_record(observed(posts, channel, item, now), channel.id, item.1.id),
        on_record(posts, channel.id, item.1.id) ==> observed(posts, channel, item, now).len()
            == posts.len(),
        !on_record(posts, channel.id, item.1.id) ==> {
            &&& observed(posts, channel, item, now).len() == posts.len() + 1
            &&& same_post(observed(posts, channel, item, now).last(), channel.id, item.1.id)
        },
{
    let record = first_record(channel.id, item.0, item.1);
    let recorded = inserted(posts, record);
    lemma_inserted(posts, record);
    let after = observed(posts, channel, item, now);
    lemma_marked_keeps_unique(recorded, channel.id, item.1.id, item.1.ups, now.secs as int);
    assert(extends(recorded, after)) by {
        assert forall|i: int| 0 <= i < recorded.len() implies same_post(
            #[trigger] after[i],
            recorded[i].channel_id,
            recorded[i].upstream_id,
        ) by {}
    }
    lemma_extends_twice(posts, recorded, after);
    lemma_extends_keeps_record(recorded, after, channel.id, item.1.id);
    if !on_record(posts, channel.id, item.1.id) {
        assert(same_post(after[posts.len() as int], record.channel_id, record.upstream_id));
    }
}

/// Handing in a record keeps every post on record once and keeps the
/// records that were there; the record's post is on record afterwards.
pub proof fn lemma_inserted(posts: Seq<PostRecordView>, record: PostRecordView)
    requires
        unique_posts(posts),
    ensures
        unique_posts(inserted(posts, record)),
        extends(posts, inserted(posts, record)),
        on_record(inserted(posts, record), record.channel_id, record.upstream_id),
{
    let after = inserted(posts, record);
    if !on_record(posts, record.channel_id, record.upstream_id) {
        assert(after[posts.len() as int] == record);
        assert(same_post(after[posts.len() as int], record.channel_id, record.upstream_id));
        assert forall|i: int, j: int| 0 <= i < j < after.len() implies !same_post(
            #[trigger] after[i],
            (#[trigger] after[j]).channel_id,
            after[j].upstream_id,
        ) by {
            assert(after[i] == posts[i]);
            if j < posts.len() {
                assert(after[j] == posts[j]);
            } else {
                assert(!same_post(posts[i], record.channel_id, record.upstream_id));
            }
        }
    }
    assert forall|i: int| 0 <= i < posts.len() implies same_post(
        #[trigger] after[i],
        posts[i].channel_id,
        posts[i].upstream_id,
    ) by {
        assert(after[i] == posts[i]);
    }
}

/// Whether the walk of `page` that starts at place `from` gets to post `i`:
/// no post from `from` to `i` is older than the window.
pub open spec fn reached(page: PageView, from: int, i: int, now: Timestamp, window: int) -> bool {
    &&& from <= i < page.len()
    &&& forall|m: int| from <= m <= i ==> !is_stale((#[trigger] page[m]).1.created, now, window)
}

/// Whether the scan of `pages` that starts at page `from` deals with post
/// `i` of page `k`: every page before `k` has posts and none that is older
/// than the window, and the walk of page `k` gets to post `i`.
pub open spec fn dealt_with(
    channel: ChannelView,
    pages: Seq<PageView>,
    from: int,
    k: int,
    i: int,
    now: Timestamp,
) -> bool {
    &&& from <= k < pages.len()
    &&& forall|m: int|
        from <= m < k ==> (#[trigger] pages[m]).len() > 0 && !cut_short(
            pages[m],
            0,
            now,
            channel.time_cutoff_seconds,
        )
    &&& reached(pages[k], 0, i, now, channel.time_cutoff_seconds)
}

/// A walk keeps every post on record once and keeps the records that were
/// there; every post that it gets to is on record afterwards.
pub proof fn lemma_walked(
    posts: Seq<PostRecordView>,
    channel: ChannelView,
    page: PageView,
    from: int,
    now: Timestamp,
)
    requires
        unique_posts(posts),
        0 <= from,
    ensures
        unique_posts(walked(posts, channel, page, from, now)),
        extends(posts, walked(posts, channel, page, from, now)),
        forall|i: int| #[trigger]
            reached(page, from, i, now, channel.time_cutoff_seconds) ==> on_record(
                walked(posts, channel, page, from, now),
                channel.id,
                page[i].1.id,
            ),
    decreases page.len() - from,
{
    let after = walked(posts, channel, page, from, now);
    let window = channel.time_cutoff_seconds;
    if from >= page.len() {
    } else if is_stale(page[from].1.created, now, window) {
        assert forall|i: int| #[trigger] reached(page, from, i, now, window) implies on_record(
            after,
            channel.id,
            page[i].1.id,
        ) by {
            assert(!is_stale(page[from].1.created, now, window));
        }
    } else {
        let next = observed(posts, channel, page[from], now);
        lemma_observed(posts, channel, page[from], now);
        lemma_walked(next, channel, page, from + 1, now);
        lemma_extends_twice(posts, next, after);
        assert forall|i: int| #[trigger] reached(page, from, i, now, window) implies on_record(
            after,
            channel.id,
            page[i].1.id,
        ) by {
            if i == from {
                lemma_extends_keeps_record(next, after, channel.id, page[i].1.id);
            } else {
                assert(reached(page, from + 1, i, now, window));
            }
        }
    }
}

/// A scan keeps every post on record once and keeps the records that were
/// there; every post that it deals with is on record afterwards.
pub proof fn lemma_scanned(
    posts: Seq<PostRecordView>,
    channel: ChannelView,
    pages: Seq<PageView>,
    from: int,
    now: Timestamp,
)
    requires
        unique_posts(posts),
        0 <= from,
    ensures
        unique_posts(scanned(posts, channel, pages, from, now)),
        extends(posts, scanned(posts, channel, pages, from, now)),
        forall|k: int, i: int| #[trigger]
            dealt_with(channel, pages, from, k, i, now) ==> on_record(
                scanned(posts, channel, pages, from, now),
                channel.id,
                pages[k][i].1.id,
            ),
    decreases pages.len() - from,
{
    let after = scanned(posts, channel, pages, from, now);
    let window = channel.time_cutoff_seconds;
    if from >= pages.len() {
    } else if pages[from].len() == 0 {
        assert forall|k: int, i: int| #[trigger]
            dealt_with(channel, pages, from, k, i, now) implies on_record(
            after,
            channel.id,
            pages[k][i].1.id,
        ) by {
            if k > from {
                assert(pages[from].len() > 0);
            }
        }
    } else {
        let page = pages[from];
        let once = walked(posts, channel, page, 0, now);
        lemma_walked(posts, channel, page, 0, now);
        if cut_short(page, 0, now, window) {
            assert forall|k: int, i: int| #[trigger]
                dealt_with(channel, pages, from, k, i, now) implies on_record(
                after,
                channel.id,
                pages[k][i].1.id,
            ) by {
                if k > from {
                    assert(!cut_short(pages[from], 0, now, window));
                } else {
                    assert(reached(page, 0, i, now, window));
                }
            }
        } else {
            lemma_scanned(once, channel, pages, from + 1, now);
            lemma_extends_twice(posts, once, after);
            assert forall|k: int, i: int| #[trigger]
                dealt_with(channel, pages, from, k, i, now) implies on_record(
                after,
                channel.id,
                pages[k][i].1.id,
            ) by {
                if k > from {
                    assert(dealt_with(channel, pages, from + 1, k, i, now));
                } else {
                    assert(reached(page, 0, i, now, window));
                    lemma_extends_keeps_record(once, after, channel.id, page[i].1.id);
                }
            }
        }
    }
}

/// One sighting puts no post on record but the one that was seen.
pub proof fn lemma_observed_adds_only_its_post(
    posts: Seq<PostRecordView>,
    channel: ChannelView,
    item: (Seq<char>, PostView),
    now: Timestamp,
    channel_id: int,
    upstream_id: Seq<char>,
)
    requires
        unique_posts(posts),
        on_record(observed(posts, channel, item, now), channel_id, upstream_id),
    ensures
        on_record(posts, channel_id, upstream_id) || (channel_id == channel.id && upstream_id
            == item.1.id),
{
    let after = observed(posts, channel, item, now);
    lemma_observed(posts, channel, item, now);
    let i = place(after, channel_id, upstream_id);
    if i < posts.len() {
        assert(same_post(after[i], posts[i].channel_id, posts[i].upstream_id));
        assert(same_post(posts[i], channel_id, upstream_id));
    } else {
        assert(after.len() == posts.len() + 1);
        assert(after[i] == after.last());
    }
}

/// A walk puts no post on record but those that it gets to.
pub proof fn lemma_walked_adds_only_reached(
    posts: Seq<PostRecordView>,
    channel: ChannelView,
    page: PageView,
    from: int,
    now: Timestamp,
    channel_id: int,
    upstream_id: Seq<char>,
)
    requires
        unique_posts(posts),
        0 <= from,
        on_record(walked(posts, channel, page, from, now), channel_id, upstream_id),
    ensures
        on_record(posts, channel_id, upstream_id) || (channel_id == channel.id && exists|i: int|
             #[trigger] reached(page, from, i, now, channel.time_cutoff_seconds) && page[i].1.id
                == upstream_id),
    decreases page.len() - from,
{
    let window = channel.time_cutoff_seconds;
    if from >= page.len() {
    } else if is_stale(page[from].1.created, now, window) {
    } else {
        let next = observed(posts, channel, page[from], now);
        lemma_observed(posts, channel, page[from], now);
        lemma_walked_adds_only_reached(next, channel, page, from + 1, now, channel_id, upstream_id);
        if on_record(next, channel_id, upstream_id) {
            lemma_observed_adds_only_its_post(
                posts,
                channel,
                page[from],
                now,
                channel_id,
                upstream_id,
            );
            if !on_record(posts, channel_id, upstream_id) {
                assert(reached(page, from, from, now, window));
            }
        } else {
            let i = choose|i: int| #[trigger]
                reached(page, from + 1, i, now, window) && page[i].1.id == upstream_id;
            assert(reached(page, from, i, now, window));
        }
    }
}

/// A scan puts no post on record but those that it deals with: a post
/// behind the first one that is older than the window is left alone.
pub proof fn lemma_scanned_adds_only_dealt_with(
    posts: Seq<PostRecordView>,
    channel: ChannelView,
    pages: Seq<PageView>,
    from: int,
    now: Timestamp,
    channel_id: int,
    upstream_id: Seq<char>,
)
    requires
        unique_posts(posts),
        0 <= from,
        on_record(scanned(posts, channel, pages, from, now), channel_id, upstream_id),
    ensures
        on_record(posts, channel_id, upstream_id) || (channel_id == channel.id && exists|
            k: int,
            i: int,
        | #[trigger]
            dealt_with(channel, pages, from, k, i, now) && pages[k][i].1.id == upstream_id),
    decreases pages.len() - from,
{
    let window = channel.time_cutoff_seconds;
    if from >= pages.len() {
    } else if pages[from].len() == 0 {
    } else {
        let page = pages[from];
        let once = walked(posts, channel, page, 0, now);
        lemma_walked(posts, channel, page, 0, now);
        if !cut_short(page, 0, now, window) {
            lemma_scanned_adds_only_dealt_with(
                once,
                channel,
                pages,
                from + 1,
                now,
                channel_id,
                upstream_id,
            );
        }
        if on_record(once, channel_id, upstream_id) {
            lemma_walked_adds_only_reached(posts, channel, page, 0, now, channel_id, upstream_id);
            if !on_record(posts, channel_id, upstream_id) {
                let i = choose|i: int| #[trigger]
                    reached(page, 0, i, now, window) && page[i].1.id == upstream_id;
                assert(dealt_with(channel, pages, from, from, i, now));
            }
        } else {
            let (k, i) = choose|k: int, i: int| #[trigger]
                dealt_with(channel, pages, from + 1, k, i, now) && pages[k][i].1.id
                    == upstream_id;
            assert(dealt_with(channel, pages, from, k, i, now));
        }
    }
}

/// Cutoff. A scan deals with no post at or behind the first one that is
/// older than the window: not on that page, and not on a later one.
pub proof fn lemma_nothing_behind_an_old_post(
    channel: ChannelView,
    pages: Seq<PageView>,
    k: int,
    j: int,
    later_page: int,
    i: int,
    now: Timestamp,
)
    requires
        0 <= k < pages.len(),
        0 <= j < pages[k].len(),
        is_stale(pages[k][j].1.created, now, channel.time_cutoff_seconds),
        (later_page == k && i >= j) || later_page > k,
    ensures
        !dealt_with(channel, pages, 0, later_page, i, now),
{
    if dealt_with(channel, pages, 0, later_page, i, now) {
        if later_page == k {
            assert(!is_stale(pages[k][j].1.created, now, channel.time_cutoff_seconds));
        } else {
            assert(!cut_short(pages[k], 0, now, channel.time_cutoff_seconds));
        }
    }
}

/// What a later scan deals with, an earlier scan of the same pages dealt
/// with too: a post does not grow younger.
pub proof fn lemma_dealt_with_earlier(
    channel: ChannelView,
    pages: Seq<PageView>,
    from: int,
    k: int,
    i: int,
    earlier: Timestamp,
    later: Timestamp,
)
    requires
        earlier.total_nanos() <= later.total_nanos(),
        dealt_with(channel, pages, from, k, i, later),
    ensures
        dealt_with(channel, pages, from, k, i, earlier),
{
    let window = channel.time_cutoff_seconds;
    assert forall|m: int| from <= m < k implies (#[trigger] pages[m]).len() > 0 && !cut_short(
        pages[m],
        0,
        earlier,
        window,
    ) by {
        if cut_short(pages[m], 0, earlier, window) {
            let j = choose|j: int|
                0 <= j < pages[m].len() && is_stale(
                    #[trigger] pages[m][j].1.created,
                    earlier,
                    window,
                );
            assert(is_stale(pages[m][j].1.created, later, window));
            assert(cut_short(pages[m], 0, later, window));
        }
    }
    assert forall|m: int| 0 <= m <= i implies !is_stale(
        (#[trigger] pages[k][m]).1.created,
        earlier,
        window,
    ) by {
        assert(!is_stale(pages[k][m].1.created, later, window));
    }
}

/// Whether a sighting of the post would write nothing: the post is on
/// record, and the sighting is not the moment of its crossing.
pub open spec fn settled(
    posts: Seq<PostRecordView>,
    channel: ChannelView,
    item: (Seq<char>, PostView),
) -> bool {
    &&& on_record(posts, channel.id, item.1.id)
    &&& !crosses(
        score_on_record(posts, channel.id, item.1.id),
        item.1.ups,
        channel.upvote_threshold,
    )
}

/// Once a post was seen, the same sighting again would write nothing.
pub proof fn lemma_sighting_settles(
    posts: Seq<PostRecordView>,
    channel: ChannelView,
    item: (Seq<char>, PostView),
    now: Timestamp,
)
    requires
        unique_posts(posts),
    ensures
        settled(observed(posts, channel, item, now), channel, item),
{
    let record = first_record(channel.id, item.0, item.1);
    let recorded = inserted(posts, record);
    let after = observed(posts, channel, item, now);
    lemma_inserted(posts, record);
    lemma_observed(posts, channel, item, now);
    if on_record(posts, channel.id, item.1.id) {
        let q = place(posts, channel.id, item.1.id);
        assert(same_post(after[q], posts[q].channel_id, posts[q].upstream_id));
        lemma_place(after, q);
    } else {
        let q = posts.len() as int;
        assert(recorded[q] == record);
        lemma_place(recorded, q);
        assert(same_post(after[q], recorded[q].channel_id, recorded[q].upstream_id));
        lemma_place(after, q);
    }
}

/// A sighting of any post of the channel leaves settled what was settled.
pub proof fn lemma_sighting_keeps_settled(
    posts: Seq<PostRecordView>,
    channel: ChannelView,
    seen: (Seq<char>, PostView),
    now: Timestamp,
    item: (Seq<char>, PostView),
)
    requires
        unique_posts(posts),
        settled(posts, channel, item),
    ensures
        settled(observed(posts, channel, seen, now), channel, item),
{
    let after = observed(posts, channel, seen, now);
    let q = place(posts, channel.id, item.1.id);
    lemma_sighting_writes_only_at_a_crossing(posts, channel, seen, now, q);
    lemma_observed(posts, channel, seen, now);
    assert(same_post(after[q], posts[q].channel_id, posts[q].upstream_id));
    lemma_place(after, q);
}

/// A walk leaves settled what was settled.
pub proof fn lemma_walk_keeps_settled(
    posts: Seq<PostRecordView>,
    channel: ChannelView,
    page: PageView,
    from: int,
    now: Timestamp,
    item: (Seq<char>, PostView),
)
    requires
        unique_posts(posts),
        0 <= from,
        settled(posts, channel, item),
    ensures
        settled(walked(posts, channel, page, from, now), channel, item),
    decreases page.len() - from,
{
    if from < page.len() && !is_stale(page[from].1.created, now, channel.time_cutoff_seconds) {
        let next = observed(posts, channel, page[from], now);
        lemma_observed(posts, channel, page[from], now);
        lemma_sighting_keeps_settled(posts, channel, page[from], now, item);
        lemma_walk_keeps_settled(next, channel, page, from + 1, now, item);
    }
}

/// A scan leaves settled what was settled.
pub proof fn lemma_scan_keeps_settled(
    posts: Seq<PostRecordView>,
    channel: ChannelView,
    pages: Seq<PageView>,
    from: int,
    now: Timestamp,
    item: (Seq<char>, PostView),
)
    requires
        unique_posts(posts),
        0 <= from,
        settled(posts, channel, item),
    ensures
        settled(scanned(posts, channel, pages, from, now), channel, item),
    decreases pages.len() - from,
{
    if from < pages.len() && pages[from].len() > 0 {
        let once = walked(posts, channel, pages[from], 0, now);
        lemma_walked(posts, channel, pages[from], 0, now);
        lemma_walk_keeps_settled(posts, channel, pages[from], 0, now, item);
        if !cut_short(pages[from], 0, now, channel.time_cutoff_seconds) {
            lemma_scan_keeps_settled(once, channel, pages, from + 1, now, item);
        }
    }
}

/// After a walk, every post that it got to is settled.
pub proof fn lemma_walk_settles(
    posts: Seq<PostRecordView>,
    channel: ChannelView,
    page: PageView,
    from: int,
    now: Timestamp,
)
    requires
        unique_posts(posts),
        0 <= from,
    ensures
        forall|i: int| #[trigger]
            reached(page, from, i, now, channel.time_cutoff_seconds) ==> settled(
                walked(posts, channel, page, from, now),
                channel,
                page[i],
            ),
    decreases page.len() - from,
{
    let window = channel.time_cutoff_seconds;
    let after = walked(posts, channel, page, from, now);
    if from >= page.len() {
    } else if is_stale(page[from].1.created, now, window) {
        assert forall|i: int| #[trigger] reached(page, from, i, now, window) implies settled(
            after,
            channel,
            page[i],
        ) by {
            assert(!is_stale(page[from].1.created, now, window));
        }
    } else {
        let next = observed(posts, channel, page[from], now);
        lemma_observed(posts, channel, page[from], now);
        lemma_sighting_settles(posts, channel, page[from], now);
        lemma_walk_settles(next, channel, page, from + 1, now);
        assert forall|i: int| #[trigger] reached(page, from, i, now, window) implies settled(
            after,
            channel,
            page[i],
        ) by {
            if i == from {
                lemma_walk_keeps_settled(next, channel, page, from + 1, now, page[i]);
            } else {
                assert(reached(page, from + 1, i, now, window));
            }
        }
    }
}

/// After a scan, every post that it dealt with is settled.
pub proof fn lemma_scan_settles(
    posts: Seq<PostRecordView>,
    channel: ChannelView,
    pages: Seq<PageView>,
    from: int,
    now: Timestamp,
)
    requires
        unique_posts(posts),
        0 <= from,
    ensures
        forall|k: int, i: int| #[trigger]
            dealt_with(channel, pages, from, k, i, now) ==> settled(
                scanned(posts, channel, pages, from, now),
                channel,
                pages[k][i],
            ),
    decreases pages.len() - from,
{
    let window = channel.time_cutoff_seconds;
    let after = scanned(posts, channel, pages, from, now);
    if from >= pages.len() {
    } else if pages[from].len() == 0 {
        assert forall|k: int, i: int| #[trigger]
            dealt_with(channel, pages, from, k, i, now) implies settled(
            after,
            channel,
            pages[k][i],
        ) by {
            if k > from {
                assert(pages[from].len() > 0);
            }
        }
    } else {
        let page = pages[from];
        let once = walked(posts, channel, page, 0, now);
        lemma_walked(posts, channel, page, 0, now);
        lemma_walk_settles(posts, channel, page, 0, now);
        if cut_short(page, 0, now, window) {
            assert forall|k: int, i: int| #[trigger]
                dealt_with(channel, pages, from, k, i, now) implies settled(
                after,
                channel,
                pages[k][i],
            ) by {
                if k > from {
                    assert(!cut_short(pages[from], 0, now, window));
                } else {
                    assert(reached(page, 0, i, now, window));
                }
            }
        } else {
            lemma_scan_settles(once, channel, pages, from + 1, now);
            assert forall|k: int, i: int| #[trigger]
                dealt_with(channel, pages, from, k, i, now) implies settled(
                after,
                channel,
                pages[k][i],
            ) by {
                if k > from {
                    assert(dealt_with(channel, pages, from + 1, k, i, now));
                } else {
                    assert(reached(page, 0, i, now, window));
                    lemma_scan_keeps_settled(once, channel, pages, from + 1, now, page[i]);
                }
            }
        }
    }
}

/// A walk that gets to no post but settled ones writes nothing.
pub proof fn lemma_walk_of_settled_posts(
    posts: Seq<PostRecordView>,
    channel: ChannelView,
    page: PageView,
    from: int,
    now: Timestamp,
)
    requires
        0 <= from,
        forall|i: int| #[trigger]
            reached(page, from, i, now, channel.time_cutoff_seconds) ==> settled(
                posts,
                channel,
                page[i],
            ),
    ensures
        walked(posts, channel, page, from, now) == posts,
    decreases page.len() - from,
{
    let window = channel.time_cutoff_seconds;
    if from < page.len() && !is_stale(page[from].1.created, now, window) {
        assert(reached(page, from, from, now, window));
        assert(observed(posts, channel, page[from], now) == posts);
        assert forall|i: int| #[trigger] reached(page, from + 1, i, now, window) implies settled(
            posts,
            channel,
            page[i],
        ) by {
            assert(reached(page, from, i, now, window));
        }
        lemma_walk_of_settled_posts(posts, channel, page, from + 1, now);
    }
}

/// A scan that deals with no post but settled ones writes nothing.
pub proof fn lemma_scan_of_settled_posts(
    posts: Seq<PostRecordView>,
    channel: ChannelView,
    pages: Seq<PageView>,
    from: int,
    now: Timestamp,
)
    requires
        0 <= from,
        forall|k: int, i: int| #[trigger]
            dealt_with(channel, pages, from, k, i, now) ==> settled(posts, channel, pages[k][i]),
    ensures
        scanned(posts, channel, pages, from, now) == posts,
    decreases pages.len() - from,
{
    let window = channel.time_cutoff_seconds;
    if from < pages.len() && pages[from].len() > 0 {
        let page = pages[from];
        assert forall|i: int| #[trigger] reached(page, 0, i, now, window) implies settled(
            posts,
            channel,
            page[i],
        ) by {
            assert(dealt_with(channel, pages, from, from, i, now));
        }
        lemma_walk_of_settled_posts(posts, channel, page, 0, now);
        if !cut_short(page, 0, now, window) {
            assert forall|k: int, i: int| #[trigger]
                dealt_with(channel, pages, from + 1, k, i, now) implies settled(
                posts,
                channel,
                pages[k][i],
            ) by {
                assert(dealt_with(channel, pages, from, k, i, now));
            }
            lemma_scan_of_settled_posts(posts, channel, pages, from + 1, now);
        }
    }
}

/// Dedup. A second scan of the same pages, no earlier than the first,
/// leaves the store exactly as the first one left it: no record is added,
/// and none is written into.
pub proof fn lemma_rescan_changes_nothing(
    posts: Seq<PostRecordView>,
    channel: ChannelView,
    pages: Seq<PageView>,
    first: Timestamp,
    second: Timestamp,
)
    requires
        unique_posts(posts),
        first.total_nanos() <= second.total_nanos(),
    ensures
        scanned(scanned(posts, channel, pages, 0, first), channel, pages, 0, second) == scanned(
            posts,
            channel,
            pages,
            0,
            first,
        ),
{
    let once = scanned(posts, channel, pages, 0, first);
    lemma_scan_settles(posts, channel, pages, 0, first);
    assert forall|k: int, i: int| #[trigger]
        dealt_with(channel, pages, 0, k, i, second) implies settled(
        once,
        channel,
        pages[k][i],
    ) by {
        lemma_dealt_with_earlier(channel, pages, 0, k, i, first, second);
    }
    lemma_scan_of_settled_posts(once, channel, pages, 0, second);
}

/// Dedup. Scan the same pages twice, at any two times: no post is on record
/// twice, and every post that either scan dealt with is on record. So each
/// such post has exactly one record.
pub proof fn lemma_rescan_keeps_one_record_per_post(
    posts: Seq<PostRecordView>,
    channel: ChannelView,
    pages: Seq<PageView>,
    first: Timestamp,
    second: Timestamp,
)
    requires
        unique_posts(posts),
    ensures
        ({
            let once = scanned(posts, channel, pages, 0, first);
            let twice = scanned(once, channel, pages, 0, second);
            &&& unique_posts(twice)
            &&& forall|k: int, i: int|
                (#[trigger] dealt_with(channel, pages, 0, k, i, first)) ==> on_record(
                    twice,
                    channel.id,
                    pages[k][i].1.id,
                )
            &&& forall|k: int, i: int|
                (#[trigger] dealt_with(channel, pages, 0, k, i, second)) ==> on_record(
                    twice,
                    channel.id,
                    pages[k][i].1.id,
                )
        }),
{
    let once = scanned(posts, channel, pages, 0, first);
    let twice = scanned(once, channel, pages, 0, second);
    lemma_scanned(posts, channel, pages, 0, first);
    lemma_scanned(once, channel, pages, 0, second);
    assert forall|k: int, i: int| (#[trigger] dealt_with(
        channel,
        pages,
        0,
        k,
        i,
        first,
    )) implies on_record(twice, channel.id, pages[k][i].1.id) by {
        lemma_extends_keeps_record(once, twice, channel.id, pages[k][i].1.id);
    }
}

/// Dedup. A second scan of the same pages, no earlier than the first, adds
/// no record: every post that it deals with is on record already.
pub proof fn lemma_rescan_inserts_nothing(
    posts: Seq<PostRecordView>,
    channel: ChannelView,
    pages: Seq<PageView>,
    first: Timestamp,
    second: Timestamp,
)
    requires
        unique_posts(posts),
        first.total_nanos() <= second.total_nanos(),
    ensures
        scanned(scanned(posts, channel, pages, 0, first), channel, pages, 0, second).len()
            == scanned(posts, channel, pages, 0, first).len(),
{
    lemma_rescan_changes_nothing(posts, channel, pages, first, second);
}

/// A sighting writes into a record that was there only at the moment of
/// crossing: the record of the post seen then gets the score seen and the
/// time of the sighting. At any other sighting it stays as it was, score and
/// crossing alike, and so does every record of another post.
pub proof fn lemma_sighting_writes_only_at_a_crossing(
    posts: Seq<PostRecordView>,
    channel: ChannelView,
    item: (Seq<char>, PostView),
    now: Timestamp,
    i: int,
)
    requires
        unique_posts(posts),
        0 <= i < posts.len(),
    ensures
        observed(posts, channel, item, now)[i] == if same_post(posts[i], channel.id, item.1.id)
            && crosses(Some(posts[i].score), item.1.ups, channel.upvote_threshold) {
            crossed(posts[i], item.1.ups, now.secs as int)
        } else {
            posts[i]
        },
{
    let record = first_record(channel.id, item.0, item.1);
    let recorded = inserted(posts, record);
    lemma_inserted(posts, record);
    assert(recorded[i] == posts[i]);
    if same_post(posts[i], channel.id, item.1.id) {
        lemma_place(posts, i);
        lemma_place(recorded, i);
    } else {
        assert(!same_post(recorded[i], channel.id, item.1.id));
    }
}

/// Crossing. Three sightings of a post that was not on record: below the
/// threshold, then at or above it, then with any score.
///
/// The first adds the post's record, with the score seen and no crossing.
/// The second writes the score seen and its own time into that record, as
/// the crossing. The third changes nothing: the crossing is on record.
pub proof fn lemma_crossing_is_recorded_once(
    posts: Seq<PostRecordView>,
    channel: ChannelView,
    first: (Seq<char>, PostView),
    second: (Seq<char>, PostView),
    third: (Seq<char>, PostView),
    t1: Timestamp,
    t2: Timestamp,
    t3: Timestamp,
)
    requires
        unique_posts(posts),
        !on_record(posts, channel.id, first.1.id),
        second.1.id == first.1.id,
        third.1.id == first.1.id,
        first.1.ups < channel.upvote_threshold <= second.1.ups,
    ensures
        ({
            let a = observed(posts, channel, first, t1);
            let b = observed(a, channel, second, t2);
            let c = observed(b, channel, third, t3);
            let at = posts.len() as int;
            &&& a == posts.push(first_record(channel.id, first.0, first.1))
            &&& a[at].score == first.1.ups
            &&& a[at].threshold_crossing_at is None
            &&& b == a.update(at, crossed(a[at], second.1.ups, t2.secs as int))
            &&& b[at].score == second.1.ups
            &&& b[at].threshold_crossing_at == Some(t2.secs as int)
            &&& c == b
        }),
{
    let a = observed(posts, channel, first, t1);
    let at = posts.len() as int;
    lemma_observed(posts, channel, first, t1);
    assert(a == posts.push(first_record(channel.id, first.0, first.1)));
    assert(a[at] == first_record(channel.id, first.0, first.1));
    lemma_place(a, at);
    let b = observed(a, channel, second, t2);
    lemma_observed(a, channel, second, t2);
    assert(inserted(a, first_record(channel.id, second.0, second.1)) == a);
    assert(b == a.update(at, crossed(a[at], second.1.ups, t2.secs as int)));
    lemma_place(b, at);
    assert(score_on_record(b, channel.id, third.1.id) == Some(second.1.ups));
}

/// Pagination. Where the scan walks page `k` to its end, the fetch that
/// follows asks for the cursor of that page's last post.
pub proof fn lemma_cursor_follows_page(
    channel: ChannelView,
    pages: Seq<PageView>,
    from: int,
    k: int,
    now: Timestamp,
)
    requires
        0 <= from <= k < pages.len(),
        forall|m: int|
            from <= m <= k ==> (#[trigger] pages[m]).len() > 0 && !cut_short(
                pages[m],
                0,
                now,
                channel.time_cutoff_seconds,
            ),
    ensures
        cursors_asked(channel, pages, from, now).len() > k - from,
        cursors_asked(channel, pages, from, now)[k - from] == Some(cursor_after(pages[k].last())),
    decreases k - from,
{
    assert(pages[from].len() > 0);
    if from < k {
        lemma_cursor_follows_page(channel, pages, from + 1, k, now);
    }
}

/// Feed order. The entries of a feed are in the order of their crossings,
/// the latest first, and no post of the channel has crossed later than the
/// first entry: its time is the document's own.
pub proof fn lemma_feed_is_latest_first(
    posts: Seq<PostRecordView>,
    channel_id: int,
    picks: Seq<int>,
)
    requires
        is_feed_selection(posts, channel_id, picks),
    ensures
        forall|a: int, b: int|
            0 <= a < b < picks.len() ==> (#[trigger] entries_of(posts, picks)[a]).crossed_at >= (
            #[trigger] entries_of(posts, picks)[b]).crossed_at,
        forall|j: int|
            0 <= j < posts.len() && qualifies(#[trigger] posts[j], channel_id) ==> picks.len() > 0
                && entries_of(posts, picks)[0].crossed_at >= crossing_of(posts[j]),
{
    assert forall|a: int, b: int| 0 <= a < b < picks.len() implies (#[trigger] entries_of(
        posts,
        picks,
    )[a]).crossed_at >= (#[trigger] entries_of(posts, picks)[b]).crossed_at by {
        assert(picks[a] != picks[b]);
    }
    assert forall|j: int| 0 <= j < posts.len() && qualifies(
        #[trigger] posts[j],
        channel_id,
    ) implies picks.len() > 0 && entries_of(posts, picks)[0].crossed_at >= crossing_of(
        posts[j],
    ) by {
        if picks.contains(j) {
            let a = choose|a: int| 0 <= a < picks.len() && picks[a] == j;
            if a > 0 {
                assert(picks[0] != picks[a]);
            }
        } else {
            if picks.len() > 1 {
                assert(picks[0] != picks[picks.len() - 1]);
            }
        }
    }
}

} // verus!
