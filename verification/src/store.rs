//! The channel store: the registered channels and the posts seen in them.
//!
//! `ChannelStore` keeps the store in memory. No two channels have one name,
//! and no post is on record twice in one channel.

use crate::error::HttpError;
use crate::feed::{
    answer_feed, entries_view, feed_events, renders, FeedEntry, FeedEntryView,
};
use crate::xml::xml_output;
use crate::model::{
    channels_view, first_record, records_view, Channel, ChannelView, CreateSubreddit, PostRecord,
    PostRecordView, PostView, Timestamp,
};
use crate::scanner::crosses;
use vstd::prelude::*;

verus! {

/// Whether `record` is the record of the post `upstream_id` in the channel
/// `channel_id`.
pub open spec fn same_post(record: PostRecordView, channel_id: int, upstream_id: Seq<char>) -> bool {
    record.channel_id == channel_id && record.upstream_id == upstream_id
}

/// No post is on record twice in one channel.
pub open spec fn unique_posts(posts: Seq<PostRecordView>) -> bool {
    forall|i: int, j: int|
        0 <= i < j < posts.len() ==> !same_post(
            #[trigger] posts[i],
            (#[trigger] posts[j]).channel_id,
            posts[j].upstream_id,
        )
}

/// Whether the post is on record.
pub open spec fn on_record(posts: Seq<PostRecordView>, channel_id: int, upstream_id: Seq<char>) -> bool {
    exists|i: int| 0 <= i < posts.len() && same_post(#[trigger] posts[i], channel_id, upstream_id)
}

/// The place of the post's record, where it is on record.
pub open spec fn place(posts: Seq<PostRecordView>, channel_id: int, upstream_id: Seq<char>) -> int {
    choose|i: int| 0 <= i < posts.len() && same_post(#[trigger] posts[i], channel_id, upstream_id)
}

/// The score that was last written for the post, if it is on record.
pub open spec fn score_on_record(
    posts: Seq<PostRecordView>,
    channel_id: int,
    upstream_id: Seq<char>,
) -> Option<int> {
    if on_record(posts, channel_id, upstream_id) {
        Some(posts[place(posts, channel_id, upstream_id)].score)
    } else {
        None
    }
}

/// The records once `record` was handed in: it is added unless its post is
/// on record already.
pub open spec fn inserted(posts: Seq<PostRecordView>, record: PostRecordView) -> Seq<
    PostRecordView,
> {
    if on_record(posts, record.channel_id, record.upstream_id) {
        posts
    } else {
        posts.push(record)
    }
}

/// A record with the crossing written into it.
pub open spec fn crossed(record: PostRecordView, score: int, at: int) -> PostRecordView {
    PostRecordView { score, threshold_crossing_at: Some(at), ..record }
}

/// The records once the crossing of the post was written: its record gets
/// the score and the time, and nothing else changes.
pub open spec fn marked(
    posts: Seq<PostRecordView>,
    channel_id: int,
    upstream_id: Seq<char>,
    score: int,
    at: int,
) -> Seq<PostRecordView> {
    if on_record(posts, channel_id, upstream_id) {
        let i = place(posts, channel_id, upstream_id);
        posts.update(i, crossed(posts[i], score, at))
    } else {
        posts
    }
}

/// The records once one sighting of a post was dealt with at `now`.
///
/// A post that is not on record is recorded with the score as seen. If the
/// score has reached the channel's threshold, and the score on record had
/// not, the score and `now` are written as the crossing. Any other sighting
/// writes nothing.
pub open spec fn observed(
    posts: Seq<PostRecordView>,
    channel: ChannelView,
    item: (Seq<char>, PostView),
    now: Timestamp,
) -> Seq<PostRecordView> {
    let previous = score_on_record(posts, channel.id, item.1.id);
    let recorded = inserted(posts, first_record(channel.id, item.0, item.1));
    if crosses(previous, item.1.ups, channel.upvote_threshold) {
        marked(recorded, channel.id, item.1.id, item.1.ups, now.secs as int)
    } else {
        recorded
    }
}

/// No two channels have one name, and each channel's identity is its place
/// in the order of registration, counted from one.
pub open spec fn unique_channels(channels: Seq<ChannelView>) -> bool {
    &&& forall|i: int, j: int|
        0 <= i < j < channels.len() ==> (#[trigger] channels[i]).name != (
        #[trigger] channels[j]).name
    &&& forall|i: int| 0 <= i < channels.len() ==> (#[trigger] channels[i]).id == i + 1
}

/// Whether a channel of that name is registered.
pub open spec fn registered(channels: Seq<ChannelView>, name: Seq<char>) -> bool {
    exists|i: int| 0 <= i < channels.len() && (#[trigger] channels[i]).name == name
}

/// The channel of that name, where one is registered.
pub open spec fn channel_of(channels: Seq<ChannelView>, name: Seq<char>) -> ChannelView {
    channels[choose|i: int| 0 <= i < channels.len() && (#[trigger] channels[i]).name == name]
}

/// The most entries that a feed shows.
pub const FEED_LIMIT: usize = 50;

/// Whether a record belongs in the feed of the channel: it is of that
/// channel and its crossing is on record.
pub open spec fn qualifies(record: PostRecordView, channel_id: int) -> bool {
    record.channel_id == channel_id && record.threshold_crossing_at is Some
}

/// When the record's post crossed the threshold.
pub open spec fn crossing_of(record: PostRecordView) -> int {
    record.threshold_crossing_at.unwrap()
}

/// The feed entry that shows a record.
pub open spec fn entry_of(record: PostRecordView) -> FeedEntryView {
    FeedEntryView { title: record.title, url: record.url, crossed_at: crossing_of(record) }
}

/// Whether `picks` are the places of the records that the feed of the
/// channel shows, in the feed's order, where only the first `upto` records
/// are looked at.
///
/// At most `FEED_LIMIT` records are picked, each belongs in the feed, none
/// is picked twice, a later crossing comes before an earlier one, and a
/// record that belongs in the feed is left out only where the feed is full
/// and the record's crossing is no later than that of the last one picked.
pub open spec fn selection_upto(
    posts: Seq<PostRecordView>,
    channel_id: int,
    picks: Seq<int>,
    upto: int,
) -> bool {
    &&& picks.len() <= FEED_LIMIT
    &&& forall|a: int|
        0 <= a < picks.len() ==> 0 <= #[trigger] picks[a] < upto && qualifies(
            posts[picks[a]],
            channel_id,
        )
    &&& forall|a: int, b: int|
        0 <= a < b < picks.len() ==> #[trigger] picks[a] != #[trigger] picks[b] && crossing_of(
            posts[picks[a]],
        ) >= crossing_of(posts[picks[b]])
    &&& forall|j: int|
        0 <= j < upto && qualifies(#[trigger] posts[j], channel_id) && !picks.contains(j)
            ==> picks.len() == FEED_LIMIT && crossing_of(posts[picks.last()]) >= crossing_of(
            posts[j],
        )
}

/// Whether `picks` are the places of the records that the feed of the
/// channel shows, in the feed's order.
pub open spec fn is_feed_selection(posts: Seq<PostRecordView>, channel_id: int, picks: Seq<int>) -> bool {
    selection_upto(posts, channel_id, picks, posts.len() as int)
}

/// The entries that show the records picked.
pub open spec fn entries_of(posts: Seq<PostRecordView>, picks: Seq<int>) -> Seq<FeedEntryView> {
    picks.map_values(|p: int| entry_of(posts[p]))
}

/// Places as mathematical integers.
pub open spec fn places(picks: Seq<usize>) -> Seq<int> {
    picks.map_values(|p: usize| p as int)
}

/// A record that does not enter the selection leaves it as it was.
proof fn lemma_pick_skipped(posts: Seq<PostRecordView>, channel_id: int, picks: Seq<int>, j: int)
    requires
        0 <= j < posts.len(),
        selection_upto(posts, channel_id, picks, j),
        !qualifies(posts[j], channel_id) || (picks.len() == FEED_LIMIT && crossing_of(
            posts[picks.last()],
        ) >= crossing_of(posts[j])),
    ensures
        selection_upto(posts, channel_id, picks, j + 1),
{
    assert forall|a: int| 0 <= a < picks.len() implies 0 <= #[trigger] picks[a] < j + 1
        && qualifies(posts[picks[a]], channel_id) by {}
}

/// A record that enters the selection at its place in the order, with the
/// last record dropped where the feed was full, gives the selection of one
/// record more.
proof fn lemma_pick_entered(
    posts: Seq<PostRecordView>,
    channel_id: int,
    picks: Seq<int>,
    j: int,
    p: int,
)
    requires
        0 <= j < posts.len(),
        selection_upto(posts, channel_id, picks, j),
        qualifies(posts[j], channel_id),
        0 <= p <= picks.len(),
        p < FEED_LIMIT,
        forall|a: int| 0 <= a < p ==> crossing_of(posts[#[trigger] picks[a]]) >= crossing_of(posts[j]),
        p < picks.len() ==> crossing_of(posts[picks[p]]) < crossing_of(posts[j]),
    ensures
        ({
            let entered = picks.insert(p, j);
            let kept = if entered.len() > FEED_LIMIT {
                entered.drop_last()
            } else {
                entered
            };
            selection_upto(posts, channel_id, kept, j + 1)
        }),
{
    let entered = picks.insert(p, j);
    let kept = if entered.len() > FEED_LIMIT {
        entered.drop_last()
    } else {
        entered
    };
    assert forall|a: int| 0 <= a < entered.len() implies 0 <= #[trigger] entered[a] < j + 1
        && qualifies(posts[entered[a]], channel_id) by {
        if a < p {
            assert(entered[a] == picks[a]);
        } else if a > p {
            assert(entered[a] == picks[a - 1]);
        }
    }
    assert forall|a: int, b: int| 0 <= a < b < entered.len() implies #[trigger] entered[a]
        != #[trigger] entered[b] && crossing_of(posts[entered[a]]) >= crossing_of(
        posts[entered[b]],
    ) by {
        if b < p {
            assert(entered[a] == picks[a] && entered[b] == picks[b]);
        } else if b == p {
            assert(entered[a] == picks[a]);
        } else if a < p {
            assert(entered[a] == picks[a] && entered[b] == picks[b - 1]);
            if a < b - 1 {
                assert(picks[a] != picks[b - 1]);
            }
        } else if a == p {
            assert(entered[b] == picks[b - 1]);
            if p < b - 1 {
                assert(picks[p] != picks[b - 1]);
            }
        } else {
            assert(entered[a] == picks[a - 1] && entered[b] == picks[b - 1]);
        }
    }
    assert forall|a: int| 0 <= a < kept.len() implies 0 <= #[trigger] kept[a] < j + 1 && qualifies(
        posts[kept[a]],
        channel_id,
    ) by {
        assert(kept[a] == entered[a]);
    }
    assert forall|a: int, b: int| 0 <= a < b < kept.len() implies #[trigger] kept[a]
        != #[trigger] kept[b] && crossing_of(posts[kept[a]]) >= crossing_of(posts[kept[b]]) by {
        assert(kept[a] == entered[a] && kept[b] == entered[b]);
    }
    assert forall|i: int|
        0 <= i < j + 1 && qualifies(#[trigger] posts[i], channel_id) && !kept.contains(
            i,
        ) implies kept.len() == FEED_LIMIT && crossing_of(posts[kept.last()]) >= crossing_of(
        posts[i],
    ) by {
        if entered.len() > FEED_LIMIT {
            let dropped = entered.last();
            assert(kept.last() == entered[entered.len() - 2]);
            assert(crossing_of(posts[entered[entered.len() - 2]]) >= crossing_of(posts[dropped]));
            assert(dropped == picks.last());
            if i == dropped {
            } else {
                if i == j {
                    assert(kept[p] == j);
                    assert(false);
                }
                if picks.contains(i) {
                    let a = choose|a: int| 0 <= a < picks.len() && picks[a] == i;
                    if a < p {
                        assert(kept[a] == i);
                    } else {
                        assert(entered[a + 1] == i);
                        assert(a + 1 < entered.len() - 1);
                        assert(kept[a + 1] == i);
                    }
                    assert(false);
                }
            }
        } else {
            if i == j {
                assert(kept[p] == j);
                assert(false);
            }
            if picks.contains(i) {
                let a = choose|a: int| 0 <= a < picks.len() && picks[a] == i;
                if a < p {
                    assert(kept[a] == i);
                } else {
                    assert(kept[a + 1] == i);
                }
                assert(false);
            }
            assert(picks.len() == FEED_LIMIT);
            assert(false);
        }
    }
}

/// The mathematical view of a [`ChannelStore`].
pub struct StoreView {
    pub channels: Seq<ChannelView>,
    pub posts: Seq<PostRecordView>,
}

impl StoreView {
    /// The store's invariant.
    pub open spec fn wf(self) -> bool {
        unique_channels(self.channels) && unique_posts(self.posts)
    }
}

/// The place of a record is where its post is found.
pub proof fn lemma_place(posts: Seq<PostRecordView>, i: int)
    requires
        unique_posts(posts),
        0 <= i < posts.len(),
    ensures
        on_record(posts, posts[i].channel_id, posts[i].upstream_id),
        place(posts, posts[i].channel_id, posts[i].upstream_id) == i,
{
    let j = place(posts, posts[i].channel_id, posts[i].upstream_id);
    assert(same_post(posts[i], posts[i].channel_id, posts[i].upstream_id));
    if j < i {
        assert(!same_post(posts[j], posts[i].channel_id, posts[i].upstream_id));
    } else if i < j {
        assert(!same_post(posts[i], posts[j].channel_id, posts[j].upstream_id));
    }
}

/// The channel store, in memory.
pub struct ChannelStore {
    channels: Vec<Channel>,
    posts: Vec<PostRecord>,
}

impl View for ChannelStore {
    type V = StoreView;

    closed spec fn view(&self) -> StoreView {
        StoreView { channels: channels_view(self.channels@), posts: records_view(self.posts@) }
    }
}

impl ChannelStore {
    /// The store's invariant: every method keeps it.
    pub open spec fn wf(&self) -> bool {
        self@.wf()
    }

    /// A store without channels and without posts.
    pub fn new() -> (store: ChannelStore)
        ensures
            store.wf(),
            store@.channels == Seq::<ChannelView>::empty(),
            store@.posts == Seq::<PostRecordView>::empty(),
    {
        let store = ChannelStore { channels: Vec::new(), posts: Vec::new() };
        assert(store@.channels =~= Seq::<ChannelView>::empty());
        assert(store@.posts =~= Seq::<PostRecordView>::empty());
        store
    }

    fn find_post(&self, channel_id: i64, upstream_id: &String) -> (found: Option<usize>)
        requires
            self.wf(),
        ensures
            match found {
                Some(i) => i < self@.posts.len() && same_post(
                    self@.posts[i as int],
                    channel_id as int,
                    upstream_id@,
                ) && place(self@.posts, channel_id as int, upstream_id@) == i,
                None => true,
            },
            found is Some == on_record(self@.posts, channel_id as int, upstream_id@),
    {
        let mut i: usize = 0;
        while i < self.posts.len()
            invariant
                self.wf(),
                0 <= i <= self.posts.len(),
                forall|j: int|
                    0 <= j < i ==> !same_post(
                        #[trigger] self@.posts[j],
                        channel_id as int,
                        upstream_id@,
                    ),
            decreases self.posts.len() - i,
        {
            if self.posts[i].channel_id == channel_id && self.posts[i].upstream_id == *upstream_id {
                proof {
                    assert(self@.posts[i as int] == self.posts@[i as int]@);
                    lemma_place(self@.posts, i as int);
                }
                return Some(i);
            }
            assert(self@.posts[i as int] == self.posts@[i as int]@);
            i = i + 1;
        }
        None
    }

    /// The score that was last written for the post, if it is on record.
    pub fn stored_score(&self, channel_id: i64, upstream_id: &String) -> (score: Option<i64>)
        requires
            self.wf(),
        ensures
            match score {
                Some(s) => score_on_record(self@.posts, channel_id as int, upstream_id@) == Some(
                    s as int,
                ),
                None => score_on_record(self@.posts, channel_id as int, upstream_id@) is None,
            },
    {
        match self.find_post(channel_id, upstream_id) {
            Some(i) => {
                assert(self@.posts[i as int] == self.posts@[i as int]@);
                Some(self.posts[i].score)
            },
            None => None,
        }
    }

    /// The record of the post, if it is on record.
    pub fn record(&self, channel_id: i64, upstream_id: &String) -> (found: Option<PostRecord>)
        requires
            self.wf(),
        ensures
            match found {
                Some(r) => on_record(self@.posts, channel_id as int, upstream_id@) && r@
                    == self@.posts[place(self@.posts, channel_id as int, upstream_id@)],
                None => !on_record(self@.posts, channel_id as int, upstream_id@),
            },
    {
        match self.find_post(channel_id, upstream_id) {
            Some(i) => {
                assert(self@.posts[i as int] == self.posts@[i as int]@);
                Some(self.posts[i].duplicate())
            },
            None => None,
        }
    }

    /// The number of posts on record, over all channels.
    pub fn post_count(&self) -> (n: usize)
        ensures
            n == self@.posts.len(),
    {
        self.posts.len()
    }

    /// Adds `record`, unless its post is on record already: then nothing
    /// changes. Tells whether the record was added.
    pub fn insert(&mut self, record: PostRecord) -> (added: bool)
        requires
            old(self).wf(),
        ensures
            final(self).wf(),
            final(self)@.channels == old(self)@.channels,
            final(self)@.posts == inserted(old(self)@.posts, record@),
            added == !on_record(old(self)@.posts, record@.channel_id, record@.upstream_id),
    {
        match self.find_post(record.channel_id, &record.upstream_id) {
            Some(_) => false,
            None => {
                let ghost before = self@.posts;
                let ghost added = record@;
                self.posts.push(record);
                proof {
                    assert(self@.posts =~= before.push(added));
                    assert forall|i: int, j: int| 0 <= i < j < self@.posts.len() implies !same_post(
                        #[trigger] self@.posts[i],
                        (#[trigger] self@.posts[j]).channel_id,
                        self@.posts[j].upstream_id,
                    ) by {
                        if j < before.len() {
                            assert(self@.posts[i] == before[i]);
                            assert(self@.posts[j] == before[j]);
                        } else {
                            assert(self@.posts[i] == before[i]);
                        }
                    }
                }
                true
            },
        }
    }

    /// Writes the crossing of the post into its record: the score seen and
    /// the time. Nothing changes where the post is not on record. Tells
    /// whether a record was written.
    pub fn mark_crossed(&mut self, channel_id: i64, upstream_id: &String, score: i64, at: i64) -> (written:
        bool)
        requires
            old(self).wf(),
        ensures
            final(self).wf(),
            final(self)@.channels == old(self)@.channels,
            final(self)@.posts == marked(
                old(self)@.posts,
                channel_id as int,
                upstream_id@,
                score as int,
                at as int,
            ),
            written == on_record(old(self)@.posts, channel_id as int, upstream_id@),
    {
        match self.find_post(channel_id, upstream_id) {
            Some(i) => {
                let ghost before = self@.posts;
                assert(before[i as int] == self.posts@[i as int]@);
                let current = &self.posts[i];
                let updated = PostRecord {
                    upstream_id: current.upstream_id.clone(),
                    channel_id: current.channel_id,
                    kind: current.kind.clone(),
                    title: current.title.clone(),
                    url: current.url.clone(),
                    permalink: current.permalink.clone(),
                    created: current.created,
                    score,
                    threshold_crossing_at: Some(at),
                };
                assert(updated@ == crossed(before[i as int], score as int, at as int));
                self.posts.set(i, updated);
                proof {
                    assert(self@.posts =~= before.update(
                        i as int,
                        crossed(before[i as int], score as int, at as int),
                    ));
                    lemma_marked_keeps_unique(
                        before,
                        channel_id as int,
                        upstream_id@,
                        score as int,
                        at as int,
                    );
                }
                true
            },
            None => false,
        }
    }

    /// The registered channels, in the order of their registration.
    pub fn channels(&self) -> (channels: Vec<Channel>)
        ensures
            channels_view(channels@) == self@.channels,
    {
        let mut channels: Vec<Channel> = Vec::new();
        let mut i: usize = 0;
        while i < self.channels.len()
            invariant
                0 <= i <= self.channels.len(),
                channels@.len() == i,
                channels_view(channels@) == self@.channels.take(i as int),
            decreases self.channels.len() - i,
        {
            let ghost before = channels@;
            channels.push(self.channels[i].duplicate());
            proof {
                assert(self@.channels[i as int] == self.channels@[i as int]@);
                assert forall|j: int| 0 <= j < i + 1 implies channels_view(channels@)[j]
                    == self@.channels.take(i + 1)[j] by {
                    if j < i {
                        assert(channels@[j] == before[j]);
                        assert(channels_view(before)[j] == self@.channels.take(i as int)[j]);
                    }
                }
                assert(channels_view(channels@) =~= self@.channels.take(i + 1));
            }
            i = i + 1;
        }
        assert(self@.channels.take(i as int) =~= self@.channels);
        channels
    }

    /// The channel of the given name, if one is registered.
    pub fn channel_named(&self, name: &str) -> (found: Option<Channel>)
        requires
            self.wf(),
        ensures
            found is Some == registered(self@.channels, name@),
            found matches Some(c) ==> c@ == channel_of(self@.channels, name@) && c@.name == name@,
    {
        let wanted = name.to_owned();
        let mut i: usize = 0;
        while i < self.channels.len()
            invariant
                self.wf(),
                0 <= i <= self.channels.len(),
                wanted@ == name@,
                forall|j: int| 0 <= j < i ==> (#[trigger] self@.channels[j]).name != name@,
            decreases self.channels.len() - i,
        {
            assert(self@.channels[i as int] == self.channels@[i as int]@);
            if self.channels[i].name == wanted {
                proof {
                    let k = choose|k: int|
                        0 <= k < self@.channels.len() && (#[trigger] self@.channels[k]).name
                            == name@;
                    if k < i {
                        assert(self@.channels[k].name != self@.channels[i as int].name);
                    } else if i < k {
                        assert(self@.channels[i as int].name != self@.channels[k].name);
                    }
                }
                return Some(self.channels[i].duplicate());
            }
            i = i + 1;
        }
        None
    }

    /// The places of the records that the feed of the channel shows, in the
    /// feed's order: the latest crossing first.
    pub fn select_feed(&self, channel_id: i64) -> (picks: Vec<usize>)
        ensures
            is_feed_selection(self@.posts, channel_id as int, places(picks@)),
    {
        let mut picks: Vec<usize> = Vec::new();
        let mut j: usize = 0;
        assert(places(picks@) =~= Seq::<int>::empty());
        while j < self.posts.len()
            invariant
                0 <= j <= self.posts.len(),
                selection_upto(self@.posts, channel_id as int, places(picks@), j as int),
            decreases self.posts.len() - j,
        {
            let ghost posts = self@.posts;
            let ghost old_picks = places(picks@);
            assert(posts[j as int] == self.posts@[j as int]@);
            let mut entered = false;
            if self.posts[j].channel_id == channel_id {
                if let Some(at) = self.posts[j].threshold_crossing_at {
                    let mut p: usize = 0;
                    loop
                        invariant_except_break
                            0 <= p <= picks.len(),
                        invariant
                            posts == self@.posts,
                            old_picks == places(picks@),
                            j < self.posts.len(),
                            selection_upto(posts, channel_id as int, old_picks, j as int),
                            forall|a: int|
                                0 <= a < p ==> crossing_of(posts[#[trigger] old_picks[a]]) >= at,
                        ensures
                            0 <= p <= picks.len(),
                            p < picks.len() ==> crossing_of(posts[old_picks[p as int]]) < at,
                        decreases picks.len() - p,
                    {
                        if p >= picks.len() {
                            break ;
                        }
                        let k = picks[p];
                        assert(old_picks[p as int] == k);
                        assert(posts[k as int] == self.posts@[k as int]@);
                        let other = self.posts[k].threshold_crossing_at.unwrap();
                        if other < at {
                            break ;
                        }
                        p = p + 1;
                    }
                    if p < FEED_LIMIT {
                        picks.insert(p, j);
                        assert(places(picks@) =~= old_picks.insert(p as int, j as int));
                        if picks.len() > FEED_LIMIT {
                            picks.pop();
                            assert(places(picks@) =~= old_picks.insert(
                                p as int,
                                j as int,
                            ).drop_last());
                        }
                        proof {
                            lemma_pick_entered(
                                posts,
                                channel_id as int,
                                old_picks,
                                j as int,
                                p as int,
                            );
                        }
                        entered = true;
                    }
                }
            }
            if !entered {
                proof {
                    lemma_pick_skipped(posts, channel_id as int, old_picks, j as int);
                }
            }
            j = j + 1;
        }
        picks
    }

    /// The entries of the feed of the channel `name`: the posts of the
    /// channel whose crossing is on record, the latest crossing first, and
    /// no more than `FEED_LIMIT` of them. Fails with `NotFound` where no
    /// channel of that name is registered.
    pub fn feed_entries(&self, name: &str) -> (r: Result<Vec<FeedEntry>, HttpError>)
        requires
            self.wf(),
        ensures
            match r {
                Ok(entries) => registered(self@.channels, name@) && exists|picks: Seq<int>|
                    #![auto]
                    is_feed_selection(
                        self@.posts,
                        channel_of(self@.channels, name@).id,
                        picks,
                    ) && entries_view(entries@) == entries_of(self@.posts, picks),
                Err(e) => !registered(self@.channels, name@) && e is NotFound,
            },
    {
        let channel = match self.channel_named(name) {
            Some(channel) => channel,
            None => { return Err(HttpError::NotFound); },
        };
        let picks = self.select_feed(channel.id);
        let ghost chosen = places(picks@);
        let mut entries: Vec<FeedEntry> = Vec::new();
        let mut a: usize = 0;
        while a < picks.len()
            invariant
                0 <= a <= picks.len(),
                chosen == places(picks@),
                is_feed_selection(self@.posts, channel.id as int, chosen),
                entries@.len() == a,
                forall|b: int|
                    0 <= b < a ==> (#[trigger] entries@[b])@ == entry_of(self@.posts[chosen[b]]),
            decreases picks.len() - a,
        {
            let k = picks[a];
            assert(chosen[a as int] == k);
            assert(self@.posts[k as int] == self.posts@[k as int]@);
            let record = &self.posts[k];
            entries.push(
                FeedEntry {
                    title: record.title.clone(),
                    url: record.url.clone(),
                    crossed_at: record.threshold_crossing_at.unwrap(),
                },
            );
            a = a + 1;
        }
        assert(entries_view(entries@) =~= entries_of(self@.posts, chosen));
        Ok(entries)
    }

    /// The feed of the channel `name`, as the bytes of its document. Fails
    /// with `NotFound` where no channel of that name is registered, and with
    /// `Other` where the document of its entries cannot be rendered.
    pub fn feed(&self, name: &str) -> (r: Result<Vec<u8>, HttpError>)
        requires
            self.wf(),
        ensures
            !registered(self@.channels, name@) ==> r matches Err(HttpError::NotFound),
            registered(self@.channels, name@) ==> exists|picks: Seq<int>|
                #![auto]
                {
                    &&& is_feed_selection(
                        self@.posts,
                        channel_of(self@.channels, name@).id,
                        picks,
                    )
                    &&& r is Ok <==> renders(name@, entries_of(self@.posts, picks))
                    &&& r matches Ok(bytes) ==> xml_output(
                        feed_events(name@, entries_of(self@.posts, picks)),
                    ) == Some(bytes@)
                    &&& r matches Err(e) ==> e is Other
                },
    {
        match self.feed_entries(name) {
            Ok(entries) => answer_feed(name, Some(entries)),
            Err(_) => answer_feed(name, None),
        }
    }

    /// Registers a channel under `name` with the given settings and returns
    /// it. Fails with `AlreadyExists` where a channel of that name is
    /// registered, and leaves the store unchanged then.
    pub fn register(&mut self, name: String, settings: CreateSubreddit) -> (r: Result<
        Channel,
        HttpError,
    >)
        requires
            old(self).wf(),
            old(self)@.channels.len() < i64::MAX,
        ensures
            final(self).wf(),
            final(self)@.posts == old(self)@.posts,
            match r {
                Ok(channel) => !registered(old(self)@.channels, name@) && channel@ == (
                ChannelView {
                    id: old(self)@.channels.len() as int + 1,
                    name: name@,
                    upvote_threshold: settings.upvote_threshold as int,
                    time_cutoff_seconds: settings.time_cutoff_seconds as int,
                }) && final(self)@.channels == old(self)@.channels.push(channel@),
                Err(e) => {
                    &&& registered(old(self)@.channels, name@)
                    &&& e is AlreadyExists
                    &&& final(self)@.channels == old(self)@.channels
                },
            },
    {
        if self.channel_named(name.as_str()).is_some() {
            return Err(HttpError::AlreadyExists);
        }
        let ghost before = self@.channels;
        let channel = Channel {
            id: (self.channels.len() as i64) + 1,
            name,
            upvote_threshold: settings.upvote_threshold,
            time_cutoff_seconds: settings.time_cutoff_seconds,
        };
        let copy = channel.duplicate();
        self.channels.push(channel);
        proof {
            assert(self@.channels =~= before.push(copy@));
            assert forall|i: int, j: int| 0 <= i < j < self@.channels.len() implies (
            #[trigger] self@.channels[i]).name != (#[trigger] self@.channels[j]).name by {
                assert(self@.channels[i] == before[i]);
                if j < before.len() {
                    assert(self@.channels[j] == before[j]);
                }
            }
            assert forall|i: int| 0 <= i < self@.channels.len() implies (
            #[trigger] self@.channels[i]).id == i + 1 by {
                if i < before.len() {
                    assert(self@.channels[i] == before[i]);
                }
            }
        }
        Ok(copy)
    }
}

/// Writing a crossing leaves every post on record once.
pub proof fn lemma_marked_keeps_unique(
    posts: Seq<PostRecordView>,
    channel_id: int,
    upstream_id: Seq<char>,
    score: int,
    at: int,
)
    requires
        unique_posts(posts),
    ensures
        unique_posts(marked(posts, channel_id, upstream_id, score, at)),
        marked(posts, channel_id, upstream_id, score, at).len() == posts.len(),
        forall|i: int|
            0 <= i < posts.len() ==> same_post(
                #[trigger] marked(posts, channel_id, upstream_id, score, at)[i],
                posts[i].channel_id,
                posts[i].upstream_id,
            ),
{
    let after = marked(posts, channel_id, upstream_id, score, at);
    assert forall|i: int| 0 <= i < posts.len() implies same_post(
        #[trigger] after[i],
        posts[i].channel_id,
        posts[i].upstream_id,
    ) by {}
    assert forall|i: int, j: int| 0 <= i < j < after.len() implies !same_post(
        #[trigger] after[i],
        (#[trigger] after[j]).channel_id,
        after[j].upstream_id,
    ) by {
        assert(same_post(after[i], posts[i].channel_id, posts[i].upstream_id));
        assert(same_post(after[j], posts[j].channel_id, posts[j].upstream_id));
        assert(!same_post(posts[i], posts[j].channel_id, posts[j].upstream_id));
    }
}

} // verus!
