//! A whole scan of one channel, run against the store in memory for a
//! listing that is known in advance.
//!
//! `scanned` says what such a scan leaves in the store; `poll` drives the
//! scanner to its end and is proved to leave exactly that.

use crate::model::{
    first_record, page_view, Channel, ChannelView, Post, PostRecordView, PostView, Timestamp,
};
use crate::scanner::{
    closing, crosses, cursor_after, cursor_view, is_stale, mark_of, move_on, ScanAction,
    ScanActionView, ScanEvent, ScanStateView, Scanner,
};
use crate::store::{inserted, marked, observed, on_record, same_post, ChannelStore};
use vstd::prelude::*;

verus! {

/// A page as the scanner reads it.
pub type PageView = Seq<(Seq<char>, PostView)>;

/// The views of the pages of a listing.
pub open spec fn pages_view(pages: Seq<Vec<(String, Post)>>) -> Seq<PageView> {
    pages.map_values(|page: Vec<(String, Post)>| page_view(page@))
}

/// The views of a list of cursors.
pub open spec fn cursors_view(cursors: Seq<Option<String>>) -> Seq<Option<Seq<char>>> {
    cursors.map_values(|cursor: Option<String>| cursor_view(cursor))
}

/// Whether one of the posts of `page` from place `from` on is older than
/// the window.
pub open spec fn cut_short(page: PageView, from: int, now: Timestamp, window: int) -> bool {
    exists|i: int| from <= i < page.len() && is_stale(#[trigger] page[i].1.created, now, window)
}

/// The records once the posts of `page` from place `from` on were walked at
/// `now`: each is dealt with in turn, up to the first that is older than the
/// channel's window. That post and all behind it are left alone.
pub open spec fn walked(
    posts: Seq<PostRecordView>,
    channel: ChannelView,
    page: PageView,
    from: int,
    now: Timestamp,
) -> Seq<PostRecordView>
    decreases page.len() - from,
{
    if from < 0 || from >= page.len() {
        posts
    } else if is_stale(page[from].1.created, now, channel.time_cutoff_seconds) {
        posts
    } else {
        walked(observed(posts, channel, page[from], now), channel, page, from + 1, now)
    }
}

/// The records once the pages from place `from` on were scanned at `now`:
/// page after page is walked, until a page is empty, a page holds a post
/// older than the window, or the pages run out.
pub open spec fn scanned(
    posts: Seq<PostRecordView>,
    channel: ChannelView,
    pages: Seq<PageView>,
    from: int,
    now: Timestamp,
) -> Seq<PostRecordView>
    decreases pages.len() - from,
{
    if from < 0 || from >= pages.len() {
        posts
    } else if pages[from].len() == 0 {
        posts
    } else if cut_short(pages[from], 0, now, channel.time_cutoff_seconds) {
        walked(posts, channel, pages[from], 0, now)
    } else {
        scanned(walked(posts, channel, pages[from], 0, now), channel, pages, from + 1, now)
    }
}

/// The cursors that a scan at `now` asks for once page `from` has come:
/// after each page that is walked to its end, the cursor of its last post.
pub open spec fn cursors_asked(
    channel: ChannelView,
    pages: Seq<PageView>,
    from: int,
    now: Timestamp,
) -> Seq<Option<Seq<char>>>
    decreases pages.len() - from,
{
    if from < 0 || from >= pages.len() {
        Seq::empty()
    } else if pages[from].len() == 0 {
        Seq::empty()
    } else if cut_short(pages[from], 0, now, channel.time_cutoff_seconds) {
        Seq::empty()
    } else {
        seq![Some(cursor_after(pages[from].last()))] + cursors_asked(channel, pages, from + 1, now)
    }
}

/// What the scanner waits for in a given state.
pub open spec fn pending(channel: ChannelView, state: ScanStateView, now: Timestamp) -> ScanActionView {
    match state {
        ScanStateView::Fetching { cursor } => ScanActionView::Fetch {
            channel: channel.name,
            cursor,
        },
        ScanStateView::Dating { .. } => ScanActionView::ReadClock,
        ScanStateView::Looking { page, next, .. } => ScanActionView::Lookup {
            channel_id: channel.id,
            upstream_id: page[next].1.id,
        },
        ScanStateView::Inserting { page, next, .. } => ScanActionView::Insert(
            first_record(channel.id, page[next].0, page[next].1),
        ),
        ScanStateView::Marking { page, next } => mark_of(channel, page, next, now),
        ScanStateView::Stopped { failure } => closing(failure),
    }
}

/// Whether the state is one that a scan reaches when every reading of the
/// clock is `now` and nothing fails.
pub open spec fn on_course(state: ScanStateView, now: Timestamp) -> bool {
    &&& state.wf()
    &&& match state {
        ScanStateView::Looking { now: seen, .. } => seen == now,
        ScanStateView::Inserting { now: seen, .. } => seen == now,
        ScanStateView::Stopped { failure } => failure is None,
        _ => true,
    }
}

/// The records once the rest of `page`, from place `from` on, and then the
/// pages from `served` on were scanned.
pub open spec fn rest_of_page(
    posts: Seq<PostRecordView>,
    channel: ChannelView,
    page: PageView,
    from: int,
    pages: Seq<PageView>,
    served: int,
    now: Timestamp,
) -> Seq<PostRecordView> {
    let after = walked(posts, channel, page, from, now);
    if cut_short(page, from, now, channel.time_cutoff_seconds) {
        after
    } else {
        scanned(after, channel, pages, served, now)
    }
}

/// The records once a post that was just inserted is dealt with.
pub open spec fn once_inserted(
    posts: Seq<PostRecordView>,
    channel: ChannelView,
    item: (Seq<char>, PostView),
    now: Timestamp,
) -> Seq<PostRecordView> {
    let recorded = inserted(posts, first_record(channel.id, item.0, item.1));
    if crosses(None, item.1.ups, channel.upvote_threshold) {
        marked(recorded, channel.id, item.1.id, item.1.ups, now.secs as int)
    } else {
        recorded
    }
}

/// The records that a scan in the given state ends with, when what it
/// waits for is done on `posts` and the pages from `served` on are still to
/// come.
pub open spec fn course(
    posts: Seq<PostRecordView>,
    channel: ChannelView,
    state: ScanStateView,
    pages: Seq<PageView>,
    served: int,
    now: Timestamp,
) -> Seq<PostRecordView> {
    match state {
        ScanStateView::Fetching { .. } => scanned(posts, channel, pages, served, now),
        ScanStateView::Dating { page, next } => rest_of_page(
            posts,
            channel,
            page,
            next,
            pages,
            served,
            now,
        ),
        ScanStateView::Looking { page, next, .. } => rest_of_page(
            observed(posts, channel, page[next], now),
            channel,
            page,
            next + 1,
            pages,
            served,
            now,
        ),
        ScanStateView::Inserting { page, next, .. } => rest_of_page(
            once_inserted(posts, channel, page[next], now),
            channel,
            page,
            next + 1,
            pages,
            served,
            now,
        ),
        ScanStateView::Marking { page, next } => rest_of_page(
            marked(posts, channel.id, page[next].1.id, page[next].1.ups, now.secs as int),
            channel,
            page,
            next + 1,
            pages,
            served,
            now,
        ),
        ScanStateView::Stopped { .. } => posts,
    }
}

/// The cursors still to be asked for once the rest of `page` is walked.
pub open spec fn cursors_after_page(
    channel: ChannelView,
    page: PageView,
    from: int,
    pages: Seq<PageView>,
    served: int,
    now: Timestamp,
) -> Seq<Option<Seq<char>>> {
    if cut_short(page, from, now, channel.time_cutoff_seconds) {
        Seq::empty()
    } else {
        seq![Some(cursor_after(page.last()))] + cursors_asked(channel, pages, served, now)
    }
}

/// The cursors that a scan in the given state is still to ask for.
pub open spec fn cursors_to_come(
    channel: ChannelView,
    state: ScanStateView,
    pages: Seq<PageView>,
    served: int,
    now: Timestamp,
) -> Seq<Option<Seq<char>>> {
    match state {
        ScanStateView::Fetching { cursor } => seq![cursor] + cursors_asked(
            channel,
            pages,
            served,
            now,
        ),
        ScanStateView::Dating { page, next } => cursors_after_page(
            channel,
            page,
            next,
            pages,
            served,
            now,
        ),
        ScanStateView::Looking { page, next, .. } => cursors_after_page(
            channel,
            page,
            next + 1,
            pages,
            served,
            now,
        ),
        ScanStateView::Inserting { page, next, .. } => cursors_after_page(
            channel,
            page,
            next + 1,
            pages,
            served,
            now,
        ),
        ScanStateView::Marking { page, next } => cursors_after_page(
            channel,
            page,
            next + 1,
            pages,
            served,
            now,
        ),
        ScanStateView::Stopped { .. } => Seq::empty(),
    }
}

/// How far a scan is from its end, first of three measures: the pages to
/// come, and one more while the scan is not over.
pub open spec fn pages_left(state: ScanStateView, pages: Seq<PageView>, served: int) -> int {
    match state {
        ScanStateView::Stopped { .. } => 0,
        _ => pages.len() - served + 1,
    }
}

/// How far a scan is from its end, second measure: the posts of the page
/// that are not dealt with.
pub open spec fn posts_left(state: ScanStateView) -> int {
    match state {
        ScanStateView::Dating { page, next } => page.len() - next,
        ScanStateView::Looking { page, next, .. } => page.len() - next,
        ScanStateView::Inserting { page, next, .. } => page.len() - next,
        ScanStateView::Marking { page, next } => page.len() - next,
        _ => 0,
    }
}

/// How far a scan is from its end, third measure: the events that the
/// post at hand may still take.
pub open spec fn steps_left(state: ScanStateView) -> int {
    match state {
        ScanStateView::Dating { .. } => 3,
        ScanStateView::Looking { .. } => 2,
        ScanStateView::Inserting { .. } => 1,
        _ => 0,
    }
}

/// A post that is young enough does not cut its page short.
proof fn lemma_cut_short_skips(page: PageView, from: int, now: Timestamp, window: int)
    requires
        0 <= from < page.len(),
        !is_stale(page[from].1.created, now, window),
    ensures
        cut_short(page, from, now, window) == cut_short(page, from + 1, now, window),
{
    if cut_short(page, from, now, window) {
        let i = choose|i: int|
            from <= i < page.len() && is_stale(#[trigger] page[i].1.created, now, window);
        assert(from + 1 <= i < page.len() && is_stale(page[i].1.created, now, window));
    }
    if cut_short(page, from + 1, now, window) {
        let i = choose|i: int|
            from + 1 <= i < page.len() && is_stale(#[trigger] page[i].1.created, now, window);
        assert(from <= i < page.len() && is_stale(page[i].1.created, now, window));
    }
}

/// What `move_on` leads to continues the course of the post just dealt
/// with.
proof fn lemma_move_on(
    posts: Seq<PostRecordView>,
    channel: ChannelView,
    page: PageView,
    next: int,
    pages: Seq<PageView>,
    served: int,
    now: Timestamp,
)
    requires
        0 <= next < page.len(),
    ensures
        ({
            let (state, action) = move_on(channel, page, next);
            &&& on_course(state, now)
            &&& action == pending(channel, state, now)
            &&& course(posts, channel, state, pages, served, now) == rest_of_page(
                posts,
                channel,
                page,
                next + 1,
                pages,
                served,
                now,
            )
            &&& cursors_to_come(channel, state, pages, served, now) == cursors_after_page(
                channel,
                page,
                next + 1,
                pages,
                served,
                now,
            )
            &&& pages_left(state, pages, served) == pages.len() - served + 1
            &&& posts_left(state) < page.len() - next
        }),
{
    if next + 1 >= page.len() {
        assert(!cut_short(page, next + 1, now, channel.time_cutoff_seconds));
    }
}

/// Copies a page.
pub fn copy_page(page: &Vec<(String, Post)>) -> (copy: Vec<(String, Post)>)
    ensures
        page_view(copy@) == page_view(page@),
{
    let mut copy: Vec<(String, Post)> = Vec::new();
    let mut i: usize = 0;
    while i < page.len()
        invariant
            0 <= i <= page.len(),
            copy@.len() == i,
            forall|j: int| 0 <= j < i ==> (#[trigger] copy@[j])@ == page@[j]@,
        decreases page.len() - i,
    {
        copy.push((page[i].0.clone(), page[i].1.duplicate()));
        i = i + 1;
    }
    assert(page_view(copy@) =~= page_view(page@));
    copy
}

/// Scans the channel at `now` against a listing whose pages are known:
/// `pages[0]` is served for the first fetch, `pages[1]` for the second, and
/// an empty page once they have run out. Returns the cursors that the scan
/// asked for, in order: none for the first page, then that of the last post
/// of each page that was walked to its end.
pub fn poll(
    store: &mut ChannelStore,
    channel: &Channel,
    pages: &Vec<Vec<(String, Post)>>,
    now: Timestamp,
) -> (cursors: Vec<Option<String>>)
    requires
        old(store).wf(),
    ensures
        final(store).wf(),
        final(store)@.channels == old(store)@.channels,
        final(store)@.posts == scanned(old(store)@.posts, channel@, pages_view(pages@), 0, now),
        cursors_view(cursors@) == seq![None] + cursors_asked(
            channel@,
            pages_view(pages@),
            0,
            now,
        ),
{
    let ghost listing = pages_view(pages@);
    let ghost goal = scanned(store@.posts, channel@, listing, 0, now);
    let ghost asked = seq![None] + cursors_asked(channel@, listing, 0, now);
    let begun = Scanner::start(channel.duplicate());
    let mut scanner = begun.0;
    let mut action = begun.1;
    let mut cursors: Vec<Option<String>> = Vec::new();
    let mut served: usize = 0;
    assert(cursors_view(cursors@) + cursors_to_come(
        channel@,
        scanner@.state,
        listing,
        served as int,
        now,
    ) =~= asked);
    loop
        invariant
            store.wf(),
            store@.channels == old(store)@.channels,
            listing == pages_view(pages@),
            goal == scanned(old(store)@.posts, channel@, listing, 0, now),
            asked == seq![None] + cursors_asked(channel@, listing, 0, now),
            served <= pages.len(),
            scanner@.channel == channel@,
            on_course(scanner@.state, now),
            action@ == pending(channel@, scanner@.state, now),
            course(store@.posts, channel@, scanner@.state, listing, served as int, now) == goal,
            cursors_view(cursors@) + cursors_to_come(
                channel@,
                scanner@.state,
                listing,
                served as int,
                now,
            ) == asked,
        decreases
            pages_left(scanner@.state, listing, served as int),
            posts_left(scanner@.state),
            steps_left(scanner@.state),
    {
        let ghost before = scanner@.state;
        let ghost posts = store@.posts;
        let ghost sofar = cursors_view(cursors@);
        let next = match action {
            ScanAction::Fetch { channel: _, cursor } => {
                cursors.push(cursor);
                assert(cursors_view(cursors@) =~= sofar + seq![before->Fetching_cursor]);
                if served < pages.len() {
                    let page = copy_page(&pages[served]);
                    assert(page_view(page@) == listing[served as int]);
                    served = served + 1;
                    let next = scanner.step(ScanEvent::Page(page));
                    proof {
                        let p = listing[served - 1];
                        if p.len() > 0 {
                            assert(cursors_to_come(
                                channel@,
                                next.0@.state,
                                listing,
                                served as int,
                                now,
                            ) =~= cursors_asked(channel@, listing, served - 1, now));
                        }
                    }
                    next
                } else {
                    let next = scanner.step(ScanEvent::Page(Vec::new()));
                    next
                }
            },
            ScanAction::ReadClock => {
                let next = scanner.step(ScanEvent::Clock(now));
                proof {
                    let page = before->Dating_page;
                    let at = before->Dating_next;
                    if !is_stale(page[at].1.created, now, channel@.time_cutoff_seconds) {
                        lemma_cut_short_skips(page, at, now, channel@.time_cutoff_seconds);
                    }
                }
                next
            },
            ScanAction::Lookup { channel_id, upstream_id } => {
                let stored = store.stored_score(channel_id, &upstream_id);
                let next = scanner.step(ScanEvent::Stored(stored));
                proof {
                    let page = before->Looking_page;
                    let at = before->Looking_next;
                    lemma_move_on(
                        observed(posts, channel@, page[at], now),
                        channel@,
                        page,
                        at,
                        listing,
                        served as int,
                        now,
                    );
                }
                next
            },
            ScanAction::Insert(record) => {
                store.insert(record);
                let next = scanner.step(ScanEvent::Written);
                proof {
                    let page = before->Inserting_page;
                    let at = before->Inserting_next;
                    lemma_move_on(
                        once_inserted(posts, channel@, page[at], now),
                        channel@,
                        page,
                        at,
                        listing,
                        served as int,
                        now,
                    );
                    lemma_inserted_twice(posts, first_record(channel@.id, page[at].0, page[at].1));
                }
                next
            },
            ScanAction::MarkCrossed { channel_id, upstream_id, score, at } => {
                store.mark_crossed(channel_id, &upstream_id, score, at);
                let next = scanner.step(ScanEvent::Written);
                proof {
                    let page = before->Marking_page;
                    let place = before->Marking_next;
                    lemma_move_on(
                        store@.posts,
                        channel@,
                        page,
                        place,
                        listing,
                        served as int,
                        now,
                    );
                }
                next
            },
            ScanAction::Done => {
                assert(cursors_view(cursors@) =~= asked);
                return cursors;
            },
            ScanAction::Abort(_) => {
                assert(false);
                return cursors;
            },
        };
        scanner = next.0;
        action = next.1;
    }
}

/// Handing in a record a second time changes nothing.
pub proof fn lemma_inserted_twice(posts: Seq<PostRecordView>, record: PostRecordView)
    ensures
        inserted(inserted(posts, record), record) == inserted(posts, record),
        on_record(inserted(posts, record), record.channel_id, record.upstream_id),
{
    let once = inserted(posts, record);
    if !on_record(posts, record.channel_id, record.upstream_id) {
        assert(once[posts.len() as int] == record);
        assert(same_post(once[posts.len() as int], record.channel_id, record.upstream_id));
    }
}

} // verus!
