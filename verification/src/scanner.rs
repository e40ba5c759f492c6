//! The scan of one channel, as a machine that tells its driver what to do
//! next and takes what came of it.
//!
//! The driver fetches pages, reads the clock and talks to the store; the
//! machine decides. A scan walks the listing newest first, stops at the
//! first post that is older than the channel's window, records every post
//! it has not seen and marks the moment a score reaches the threshold.

use crate::clock::now;
use crate::error::ErrorKind;
use crate::model::{
    first_record, page_view, Channel, ChannelView, Post, PostRecord, PostRecordView, PostView,
    Timestamp,
};
use vstd::prelude::*;

verus! {

/// Whether a post created at `created` lies before the window of `window`
/// seconds that ends at `now`.
pub open spec fn is_stale(created: Timestamp, now: Timestamp, window: int) -> bool {
    created.total_nanos() < now.total_nanos() - window * 1_000_000_000
}

/// Whether a sighting with the score `score` is the moment of crossing:
/// the score has reached the threshold, and the score on record, if there
/// is one, had not.
pub open spec fn crosses(previous: Option<int>, score: int, threshold: int) -> bool {
    score >= threshold && (previous is None || previous.unwrap() < threshold)
}

/// The token that asks upstream for the page that follows `item`: the kind
/// tag, an underscore and the upstream identifier.
pub open spec fn cursor_after(item: (Seq<char>, PostView)) -> Seq<char> {
    item.0 + seq!['_'] + item.1.id
}

/// Decides the cutoff rule for one post.
pub fn stale(created: Timestamp, now: Timestamp, window: i64) -> (b: bool)
    ensures
        b == is_stale(created, now, window as int),
{
    let lhs: i128 = (created.secs as i128) * 1_000_000_000 + (created.nanos as i128);
    let rhs: i128 = (now.secs as i128) * 1_000_000_000 + (now.nanos as i128) - (window as i128)
        * 1_000_000_000;
    lhs < rhs
}

/// Decides whether a sighting is the moment of crossing.
pub fn crossing(previous: Option<i64>, score: u32, threshold: i64) -> (b: bool)
    ensures
        b == crosses(
            match previous {
                Some(p) => Some(p as int),
                None => None,
            },
            score as int,
            threshold as int,
        ),
{
    (score as i64) >= threshold && match previous {
        None => true,
        Some(p) => p < threshold,
    }
}

/// The cursor for the page that follows the post `id` of kind `kind`.
pub fn cursor_for(kind: &String, id: &String) -> (cursor: String)
    ensures
        cursor@ == kind@ + seq!['_'] + id@,
{
    proof {
        reveal_strlit("_");
        assert("_"@ =~= seq!['_']);
    }
    kind.clone().concat("_").concat(id.as_str())
}

/// What the driver reports to the machine.
#[derive(Debug)]
pub enum ScanEvent {
    /// The page that was asked for, newest post first.
    Page(Vec<(String, Post)>),
    /// The clock's reading.
    Clock(Timestamp),
    /// The score on record for the post that was looked up, if it is on
    /// record.
    Stored(Option<i64>),
    /// The write that was asked for is done.
    Written,
    /// What was asked for failed.
    Failed(ErrorKind),
}

/// The mathematical view of a [`ScanEvent`].
pub enum ScanEventView {
    Page(Seq<(Seq<char>, PostView)>),
    Clock(Timestamp),
    Stored(Option<int>),
    Written,
    Failed(ErrorKind),
}

impl View for ScanEvent {
    type V = ScanEventView;

    open spec fn view(&self) -> ScanEventView {
        match self {
            ScanEvent::Page(page) => ScanEventView::Page(page_view(page@)),
            ScanEvent::Clock(now) => ScanEventView::Clock(*now),
            ScanEvent::Stored(Some(score)) => ScanEventView::Stored(Some(*score as int)),
            ScanEvent::Stored(None) => ScanEventView::Stored(None),
            ScanEvent::Written => ScanEventView::Written,
            ScanEvent::Failed(kind) => ScanEventView::Failed(*kind),
        }
    }
}

/// What the machine asks of its driver.
#[derive(Debug)]
pub enum ScanAction {
    /// Fetch the page of `channel` that follows `cursor`, or the first page,
    /// and report it as `Page`.
    Fetch { channel: String, cursor: Option<String> },
    /// Read the clock and report it as `Clock`.
    ReadClock,
    /// Look up the post in the store and report its score as `Stored`.
    Lookup { channel_id: i64, upstream_id: String },
    /// Add the record to the store and report `Written`.
    Insert(PostRecord),
    /// Write the score and the time of crossing into the post's record and
    /// report `Written`.
    MarkCrossed { channel_id: i64, upstream_id: String, score: i64, at: i64 },
    /// The scan is complete.
    Done,
    /// The scan has ended early, with a failure of the given kind.
    Abort(ErrorKind),
}

/// The mathematical view of a [`ScanAction`].
pub enum ScanActionView {
    Fetch { channel: Seq<char>, cursor: Option<Seq<char>> },
    ReadClock,
    Lookup { channel_id: int, upstream_id: Seq<char> },
    Insert(PostRecordView),
    MarkCrossed { channel_id: int, upstream_id: Seq<char>, score: int, at: int },
    Done,
    Abort(ErrorKind),
}

/// The view of a cursor that may be absent.
pub open spec fn cursor_view(cursor: Option<String>) -> Option<Seq<char>> {
    match cursor {
        Some(c) => Some(c@),
        None => None,
    }
}

impl View for ScanAction {
    type V = ScanActionView;

    open spec fn view(&self) -> ScanActionView {
        match self {
            ScanAction::Fetch { channel, cursor } => ScanActionView::Fetch {
                channel: channel@,
                cursor: cursor_view(*cursor),
            },
            ScanAction::ReadClock => ScanActionView::ReadClock,
            ScanAction::Lookup { channel_id, upstream_id } => ScanActionView::Lookup {
                channel_id: *channel_id as int,
                upstream_id: upstream_id@,
            },
            ScanAction::Insert(record) => ScanActionView::Insert(record@),
            ScanAction::MarkCrossed { channel_id, upstream_id, score, at } => {
                ScanActionView::MarkCrossed {
                    channel_id: *channel_id as int,
                    upstream_id: upstream_id@,
                    score: *score as int,
                    at: *at as int,
                }
            },
            ScanAction::Done => ScanActionView::Done,
            ScanAction::Abort(kind) => ScanActionView::Abort(*kind),
        }
    }
}

/// Where a scan stands.
#[derive(Debug)]
pub enum ScanState {
    /// Waiting for the page that follows `cursor`.
    Fetching { cursor: Option<String> },
    /// Waiting for the clock, to judge the age of post `next` of `page`.
    Dating { page: Vec<(String, Post)>, next: usize },
    /// Waiting for the store's record of post `next`, which was young
    /// enough at `now`.
    Looking { page: Vec<(String, Post)>, next: usize, now: Timestamp },
    /// Waiting for the first record of post `next` to be written.
    Inserting { page: Vec<(String, Post)>, next: usize, now: Timestamp },
    /// Waiting for the crossing of post `next` to be written.
    Marking { page: Vec<(String, Post)>, next: usize },
    /// The scan is over: complete, or failed.
    Stopped { failure: Option<ErrorKind> },
}

/// The mathematical view of a [`ScanState`].
pub enum ScanStateView {
    Fetching { cursor: Option<Seq<char>> },
    Dating { page: Seq<(Seq<char>, PostView)>, next: int },
    Looking { page: Seq<(Seq<char>, PostView)>, next: int, now: Timestamp },
    Inserting { page: Seq<(Seq<char>, PostView)>, next: int, now: Timestamp },
    Marking { page: Seq<(Seq<char>, PostView)>, next: int },
    Stopped { failure: Option<ErrorKind> },
}

impl View for ScanState {
    type V = ScanStateView;

    open spec fn view(&self) -> ScanStateView {
        match self {
            ScanState::Fetching { cursor } => ScanStateView::Fetching {
                cursor: cursor_view(*cursor),
            },
            ScanState::Dating { page, next } => ScanStateView::Dating {
                page: page_view(page@),
                next: *next as int,
            },
            ScanState::Looking { page, next, now } => ScanStateView::Looking {
                page: page_view(page@),
                next: *next as int,
                now: *now,
            },
            ScanState::Inserting { page, next, now } => ScanStateView::Inserting {
                page: page_view(page@),
                next: *next as int,
                now: *now,
            },
            ScanState::Marking { page, next } => ScanStateView::Marking {
                page: page_view(page@),
                next: *next as int,
            },
            ScanState::Stopped { failure } => ScanStateView::Stopped { failure: *failure },
        }
    }
}

impl ScanStateView {
    /// While a page is worked on, `next` is the place of one of its posts.
    pub open spec fn wf(self) -> bool {
        match self {
            ScanStateView::Fetching { .. } => true,
            ScanStateView::Dating { page, next } => 0 <= next < page.len(),
            ScanStateView::Looking { page, next, .. } => 0 <= next < page.len(),
            ScanStateView::Inserting { page, next, .. } => 0 <= next < page.len(),
            ScanStateView::Marking { page, next } => 0 <= next < page.len(),
            ScanStateView::Stopped { .. } => true,
        }
    }
}

/// The action that ends a scan.
pub open spec fn closing(failure: Option<ErrorKind>) -> ScanActionView {
    match failure {
        Some(kind) => ScanActionView::Abort(kind),
        None => ScanActionView::Done,
    }
}

/// The request for the first page of a channel.
pub open spec fn first_fetch(channel: ChannelView) -> ScanActionView {
    ScanActionView::Fetch { channel: channel.name, cursor: None }
}

/// The write that records the crossing of post `next` of `page`, seen at
/// `now`.
pub open spec fn mark_of(
    channel: ChannelView,
    page: Seq<(Seq<char>, PostView)>,
    next: int,
    now: Timestamp,
) -> ScanActionView {
    ScanActionView::MarkCrossed {
        channel_id: channel.id,
        upstream_id: page[next].1.id,
        score: page[next].1.ups,
        at: now.secs as int,
    }
}

/// What follows once post `next` of `page` is dealt with: the next post of
/// the page, or the page that follows its last post.
pub open spec fn move_on(channel: ChannelView, page: Seq<(Seq<char>, PostView)>, next: int) -> (
    ScanStateView,
    ScanActionView,
) {
    if next + 1 < page.len() {
        (ScanStateView::Dating { page, next: next + 1 }, ScanActionView::ReadClock)
    } else {
        let cursor = Some(cursor_after(page.last()));
        (
            ScanStateView::Fetching { cursor },
            ScanActionView::Fetch { channel: channel.name, cursor },
        )
    }
}

/// The scan algorithm, one event at a time.
///
/// - A scan that is over stays over.
/// - A failure of what was asked for ends the scan with that failure.
/// - An empty page ends the scan; any other page is walked from its first
///   post.
/// - A post older than the channel's window ends the scan; a younger one is
///   looked up.
/// - A post that is not on record is inserted, with the score as seen; then,
///   or where it is on record, its crossing is marked if this sighting is
///   the moment of crossing. Otherwise nothing is written.
/// - An event that answers nothing that was asked ends the scan with an
///   internal failure.
pub open spec fn scan_step(channel: ChannelView, state: ScanStateView, event: ScanEventView) -> (
    ScanStateView,
    ScanActionView,
) {
    match (state, event) {
        (ScanStateView::Stopped { failure }, _) => (state, closing(failure)),
        (_, ScanEventView::Failed(kind)) => (
            ScanStateView::Stopped { failure: Some(kind) },
            ScanActionView::Abort(kind),
        ),
        (ScanStateView::Fetching { .. }, ScanEventView::Page(page)) => {
            if page.len() == 0 {
                (ScanStateView::Stopped { failure: None }, ScanActionView::Done)
            } else {
                (ScanStateView::Dating { page, next: 0 }, ScanActionView::ReadClock)
            }
        },
        (ScanStateView::Dating { page, next }, ScanEventView::Clock(now)) => {
            if is_stale(page[next].1.created, now, channel.time_cutoff_seconds) {
                (ScanStateView::Stopped { failure: None }, ScanActionView::Done)
            } else {
                (
                    ScanStateView::Looking { page, next, now },
                    ScanActionView::Lookup { channel_id: channel.id, upstream_id: page[next].1.id },
                )
            }
        },
        (ScanStateView::Looking { page, next, now }, ScanEventView::Stored(previous)) => {
            if previous is None {
                (
                    ScanStateView::Inserting { page, next, now },
                    ScanActionView::Insert(first_record(channel.id, page[next].0, page[next].1)),
                )
            } else if crosses(previous, page[next].1.ups, channel.upvote_threshold) {
                (ScanStateView::Marking { page, next }, mark_of(channel, page, next, now))
            } else {
                move_on(channel, page, next)
            }
        },
        (ScanStateView::Inserting { page, next, now }, ScanEventView::Written) => {
            if crosses(None, page[next].1.ups, channel.upvote_threshold) {
                (ScanStateView::Marking { page, next }, mark_of(channel, page, next, now))
            } else {
                move_on(channel, page, next)
            }
        },
        (ScanStateView::Marking { page, next }, ScanEventView::Written) => move_on(
            channel,
            page,
            next,
        ),
        _ => (
            ScanStateView::Stopped { failure: Some(ErrorKind::Internal) },
            ScanActionView::Abort(ErrorKind::Internal),
        ),
    }
}

/// The scan of one channel.
pub struct Scanner {
    channel: Channel,
    state: ScanState,
}

/// The mathematical view of a [`Scanner`].
pub struct ScannerView {
    pub channel: ChannelView,
    pub state: ScanStateView,
}

impl View for Scanner {
    type V = ScannerView;

    closed spec fn view(&self) -> ScannerView {
        ScannerView { channel: self.channel@, state: self.state@ }
    }
}

impl Scanner {
    #[verifier::type_invariant]
    spec fn inv(self) -> bool {
        self.state@.wf()
    }

    /// Begins a scan of `channel`: the first thing asked for is its first
    /// page.
    pub fn start(channel: Channel) -> (begun: (Scanner, ScanAction))
        ensures
            begun.0@ == (ScannerView {
                channel: channel@,
                state: ScanStateView::Fetching { cursor: None },
            }),
            begun.1@ == first_fetch(channel@),
    {
        let name = channel.name.clone();
        (
            Scanner { channel, state: ScanState::Fetching { cursor: None } },
            ScanAction::Fetch { channel: name, cursor: None },
        )
    }

    /// The channel that is scanned.
    pub fn channel(&self) -> (channel: &Channel)
        ensures
            channel@ == self@.channel,
    {
        &self.channel
    }

    /// Whether the scan is over.
    pub fn is_stopped(&self) -> (b: bool)
        ensures
            b == (self@.state is Stopped),
    {
        match &self.state {
            ScanState::Stopped { .. } => true,
            _ => false,
        }
    }

    /// The failure that ended the scan, if one did.
    pub fn failure(&self) -> (failure: Option<ErrorKind>)
        ensures
            failure == match self@.state {
                ScanStateView::Stopped { failure } => failure,
                _ => None,
            },
    {
        match &self.state {
            ScanState::Stopped { failure } => *failure,
            _ => None,
        }
    }

    fn mark(channel: &Channel, page: &Vec<(String, Post)>, next: usize, now: Timestamp) -> (action:
        ScanAction)
        requires
            next < page.len(),
        ensures
            action@ == mark_of(channel@, page_view(page@), next as int, now),
    {
        ScanAction::MarkCrossed {
            channel_id: channel.id,
            upstream_id: page[next].1.id.clone(),
            score: page[next].1.ups as i64,
            at: now.secs,
        }
    }

    fn advance(channel: Channel, page: Vec<(String, Post)>, next: usize) -> (moved: (
        Scanner,
        ScanAction,
    ))
        requires
            next < page.len(),
        ensures
            moved.0@.channel == channel@,
            (moved.0@.state, moved.1@) == move_on(channel@, page_view(page@), next as int),
    {
        if next + 1 < page.len() {
            (
                Scanner { channel, state: ScanState::Dating { page, next: next + 1 } },
                ScanAction::ReadClock,
            )
        } else {
            let last = &page[page.len() - 1];
            let cursor = cursor_for(&last.0, &last.1.id);
            let name = channel.name.clone();
            let asked = cursor.clone();
            assert(page_view(page@).last() == page@[page.len() - 1]@);
            (
                Scanner { channel, state: ScanState::Fetching { cursor: Some(cursor) } },
                ScanAction::Fetch { channel: name, cursor: Some(asked) },
            )
        }
    }

    fn stop(channel: Channel, failure: Option<ErrorKind>) -> (stopped: (Scanner, ScanAction))
        ensures
            stopped.0@ == (ScannerView {
                channel: channel@,
                state: ScanStateView::Stopped { failure },
            }),
            stopped.1@ == closing(failure),
    {
        let action = match failure {
            Some(kind) => ScanAction::Abort(kind),
            None => ScanAction::Done,
        };
        (Scanner { channel, state: ScanState::Stopped { failure } }, action)
    }

    /// Takes what the driver reports and tells it what to do next.
    pub fn step(self, event: ScanEvent) -> (next: (Scanner, ScanAction))
        ensures
            next.0@.channel == self@.channel,
            (next.0@.state, next.1@) == scan_step(self@.channel, self@.state, event@),
            next.0@.state.wf(),
    {
        proof {
            use_type_invariant(&self);
        }
        let Scanner { channel, state } = self;
        match (state, event) {
            (ScanState::Stopped { failure }, _) => Scanner::stop(channel, failure),
            (_, ScanEvent::Failed(kind)) => Scanner::stop(channel, Some(kind)),
            (ScanState::Fetching { .. }, ScanEvent::Page(page)) => {
                if page.len() == 0 {
                    Scanner::stop(channel, None)
                } else {
                    (
                        Scanner { channel, state: ScanState::Dating { page, next: 0 } },
                        ScanAction::ReadClock,
                    )
                }
            },
            (ScanState::Dating { page, next }, ScanEvent::Clock(now)) => {
                if stale(page[next].1.created, now, channel.time_cutoff_seconds) {
                    Scanner::stop(channel, None)
                } else {
                    let action = ScanAction::Lookup {
                        channel_id: channel.id,
                        upstream_id: page[next].1.id.clone(),
                    };
                    (Scanner { channel, state: ScanState::Looking { page, next, now } }, action)
                }
            },
            (ScanState::Looking { page, next, now }, ScanEvent::Stored(previous)) => {
                if previous.is_none() {
                    let record = PostRecord::first_sighting(
                        channel.id,
                        &page[next].0,
                        &page[next].1,
                    );
                    (
                        Scanner { channel, state: ScanState::Inserting { page, next, now } },
                        ScanAction::Insert(record),
                    )
                } else if crossing(previous, page[next].1.ups, channel.upvote_threshold) {
                    let action = Scanner::mark(&channel, &page, next, now);
                    (Scanner { channel, state: ScanState::Marking { page, next } }, action)
                } else {
                    Scanner::advance(channel, page, next)
                }
            },
            (ScanState::Inserting { page, next, now }, ScanEvent::Written) => {
                if crossing(None, page[next].1.ups, channel.upvote_threshold) {
                    let action = Scanner::mark(&channel, &page, next, now);
                    (Scanner { channel, state: ScanState::Marking { page, next } }, action)
                } else {
                    Scanner::advance(channel, page, next)
                }
            },
            (ScanState::Marking { page, next }, ScanEvent::Written) => Scanner::advance(
                channel,
                page,
                next,
            ),
            _ => Scanner::stop(channel, Some(ErrorKind::Internal)),
        }
    }

    /// Reads the clock and reports the reading to the machine: what `step`
    /// does with a `Clock` event, for the instant that the clock showed.
    pub fn tick(self) -> (next: (Scanner, ScanAction))
        ensures
            next.0@.channel == self@.channel,
            exists|now: Timestamp|
                (next.0@.state, next.1@) == #[trigger] scan_step(
                    self@.channel,
                    self@.state,
                    ScanEventView::Clock(now),
                ),
    {
        let reading = now();
        self.step(ScanEvent::Clock(reading))
    }
}

} // verus!
