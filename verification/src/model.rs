//! The values that the polling engine works on, and their mathematical
//! views.

use vstd::prelude::*;

verus! {

/// A point in time: whole seconds since the Unix epoch and the nanoseconds
/// that follow them.
#[derive(Clone, Copy, Debug, PartialEq, Eq, Structural)]
pub struct Timestamp {
    pub secs: i64,
    pub nanos: u32,
}

impl Timestamp {
    /// The instant as a count of nanoseconds since the epoch.
    pub open spec fn total_nanos(self) -> int {
        self.secs * 1_000_000_000 + self.nanos
    }

    /// The instant that lies `secs` whole seconds after the epoch.
    pub fn from_secs(secs: i64) -> (t: Timestamp)
        ensures
            t.secs == secs,
            t.nanos == 0,
    {
        Timestamp { secs, nanos: 0 }
    }
}

/// A post as the upstream listing shows it.
#[derive(Clone, Debug)]
pub struct Post {
    pub title: String,
    /// The popularity score at the time of the listing.
    pub ups: u32,
    pub permalink: String,
    pub url: String,
    /// The upstream identifier, unique within a channel.
    pub id: String,
    /// When the post was created. Upstream gives whole seconds.
    pub created: Timestamp,
}

/// The mathematical view of a [`Post`].
pub struct PostView {
    pub title: Seq<char>,
    pub ups: int,
    pub permalink: Seq<char>,
    pub url: Seq<char>,
    pub id: Seq<char>,
    pub created: Timestamp,
}

impl View for Post {
    type V = PostView;

    open spec fn view(&self) -> PostView {
        PostView {
            title: self.title@,
            ups: self.ups as int,
            permalink: self.permalink@,
            url: self.url@,
            id: self.id@,
            created: self.created,
        }
    }
}

impl Post {
    /// A copy of the post.
    pub fn duplicate(&self) -> (copy: Post)
        ensures
            copy@ == self@,
    {
        Post {
            title: self.title.clone(),
            ups: self.ups,
            permalink: self.permalink.clone(),
            url: self.url.clone(),
            id: self.id.clone(),
            created: self.created,
        }
    }
}

/// One child of a listing: a post and the kind tag that upstream gives it.
#[derive(Clone, Debug)]
pub struct ListingChild {
    pub data: Post,
    pub kind: String,
}

/// The children of a listing, newest first.
#[derive(Clone, Debug)]
pub struct ListingData {
    pub children: Vec<ListingChild>,
}

/// One page of the upstream listing.
#[derive(Clone, Debug)]
pub struct Listing {
    pub data: ListingData,
}

/// A page as the scanner reads it: kind tags and posts, in upstream order.
pub open spec fn page_view(page: Seq<(String, Post)>) -> Seq<(Seq<char>, PostView)> {
    page.map_values(|item: (String, Post)| item@)
}

/// The children of a listing as kind tags and posts.
pub open spec fn children_view(children: Seq<ListingChild>) -> Seq<(Seq<char>, PostView)> {
    children.map_values(|child: ListingChild| (child.kind@, child.data@))
}

impl Listing {
    /// The page that the listing holds: each child's kind tag and post, in
    /// the order of the listing.
    pub fn into_page(self) -> (page: Vec<(String, Post)>)
        ensures
            page_view(page@) == children_view(self.data.children@),
    {
        let ghost all = self.data.children@;
        let mut page: Vec<(String, Post)> = Vec::new();
        for child in it: self.data.children
            invariant
                it.seq() == all,
                page@.len() == it.index(),
                forall|j: int|
                    0 <= j < page@.len() ==> (#[trigger] page@[j])@ == (all[j].kind@, all[j].data@),
        {
            page.push((child.kind, child.data));
        }
        assert(page_view(page@) =~= children_view(all));
        page
    }
}

/// A registered channel and its settings.
#[derive(Clone, Debug)]
pub struct Channel {
    pub id: i64,
    pub name: String,
    /// The score at which a post qualifies for the feed.
    pub upvote_threshold: i64,
    /// How far back a scan looks, in seconds.
    pub time_cutoff_seconds: i64,
}

/// The mathematical view of a [`Channel`].
pub struct ChannelView {
    pub id: int,
    pub name: Seq<char>,
    pub upvote_threshold: int,
    pub time_cutoff_seconds: int,
}

impl View for Channel {
    type V = ChannelView;

    open spec fn view(&self) -> ChannelView {
        ChannelView {
            id: self.id as int,
            name: self.name@,
            upvote_threshold: self.upvote_threshold as int,
            time_cutoff_seconds: self.time_cutoff_seconds as int,
        }
    }
}

impl Channel {
    /// A copy of the channel.
    pub fn duplicate(&self) -> (copy: Channel)
        ensures
            copy@ == self@,
    {
        Channel {
            id: self.id,
            name: self.name.clone(),
            upvote_threshold: self.upvote_threshold,
            time_cutoff_seconds: self.time_cutoff_seconds,
        }
    }
}

/// The views of a list of channels.
pub open spec fn channels_view(channels: Seq<Channel>) -> Seq<ChannelView> {
    channels.map_values(|c: Channel| c@)
}

/// The settings that a registration gives for a new channel.
#[derive(Clone, Copy, Debug, PartialEq, Eq, Structural)]
pub struct CreateSubreddit {
    pub upvote_threshold: i64,
    pub time_cutoff_seconds: i64,
}

/// A post as the store keeps it.
#[derive(Clone, Debug)]
pub struct PostRecord {
    pub upstream_id: String,
    pub channel_id: i64,
    pub kind: String,
    pub title: String,
    pub url: String,
    pub permalink: String,
    /// When the post was created, in seconds since the epoch.
    pub created: i64,
    /// The score that was last written: that of the first sighting, or that
    /// seen when the threshold was crossed.
    pub score: i64,
    /// When the score was first seen at or above the channel's threshold,
    /// in seconds since the epoch.
    pub threshold_crossing_at: Option<i64>,
}

/// The mathematical view of a [`PostRecord`].
pub struct PostRecordView {
    pub upstream_id: Seq<char>,
    pub channel_id: int,
    pub kind: Seq<char>,
    pub title: Seq<char>,
    pub url: Seq<char>,
    pub permalink: Seq<char>,
    pub created: int,
    pub score: int,
    pub threshold_crossing_at: Option<int>,
}

impl View for PostRecord {
    type V = PostRecordView;

    open spec fn view(&self) -> PostRecordView {
        PostRecordView {
            upstream_id: self.upstream_id@,
            channel_id: self.channel_id as int,
            kind: self.kind@,
            title: self.title@,
            url: self.url@,
            permalink: self.permalink@,
            created: self.created as int,
            score: self.score as int,
            threshold_crossing_at: match self.threshold_crossing_at {
                Some(at) => Some(at as int),
                None => None,
            },
        }
    }
}

/// The views of a list of records.
pub open spec fn records_view(records: Seq<PostRecord>) -> Seq<PostRecordView> {
    records.map_values(|r: PostRecord| r@)
}

/// The record that a first sighting of `post` in the channel `channel_id`
/// writes: the score as seen, and no crossing yet.
pub open spec fn first_record(channel_id: int, kind: Seq<char>, post: PostView) -> PostRecordView {
    PostRecordView {
        upstream_id: post.id,
        channel_id,
        kind,
        title: post.title,
        url: post.url,
        permalink: post.permalink,
        created: post.created.secs as int,
        score: post.ups,
        threshold_crossing_at: None,
    }
}

impl PostRecord {
    /// The record that a first sighting of `post` writes.
    pub fn first_sighting(channel_id: i64, kind: &String, post: &Post) -> (record: PostRecord)
        ensures
            record@ == first_record(channel_id as int, kind@, post@),
    {
        PostRecord {
            upstream_id: post.id.clone(),
            channel_id,
            kind: kind.clone(),
            title: post.title.clone(),
            url: post.url.clone(),
            permalink: post.permalink.clone(),
            created: post.created.secs,
            score: post.ups as i64,
            threshold_crossing_at: None,
        }
    }

    /// A copy of the record.
    pub fn duplicate(&self) -> (copy: PostRecord)
        ensures
            copy@ == self@,
    {
        PostRecord {
            upstream_id: self.upstream_id.clone(),
            channel_id: self.channel_id,
            kind: self.kind.clone(),
            title: self.title.clone(),
            url: self.url.clone(),
            permalink: self.permalink.clone(),
            created: self.created,
            score: self.score,
            threshold_crossing_at: self.threshold_crossing_at,
        }
    }
}

} // verus!
