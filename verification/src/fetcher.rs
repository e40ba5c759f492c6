//! What is asked of the upstream listing.

use vstd::prelude::*;

verus! {

/// The address of the listing of the channel `channel`, newest post first.
pub open spec fn listing_address(channel: Seq<char>) -> Seq<char> {
    "https://reddit.com/r/"@ + channel + "/new.json"@
}

/// The query that asks for the page that follows `after`, or for the first
/// page.
pub open spec fn listing_query(after: Option<Seq<char>>) -> Seq<(Seq<char>, Seq<char>)> {
    match after {
        Some(cursor) => seq![("after"@, cursor)],
        None => Seq::empty(),
    }
}

/// The view of a query: names and values.
pub open spec fn query_view(query: Seq<(String, String)>) -> Seq<(Seq<char>, Seq<char>)> {
    query.map_values(|pair: (String, String)| pair@)
}

/// The address to fetch the listing of `channel` from.
pub fn listing_url(channel: &str) -> (url: String)
    ensures
        url@ == listing_address(channel@),
{
    "https://reddit.com/r/".to_owned().concat(channel).concat("/new.json")
}

/// The query parameters of a fetch: the cursor under the name `after`,
/// where there is one.
pub fn page_query(after: Option<String>) -> (query: Vec<(String, String)>)
    ensures
        query_view(query@) == listing_query(
            match after {
                Some(cursor) => Some(cursor@),
                None => None,
            },
        ),
{
    let mut query: Vec<(String, String)> = Vec::new();
    match after {
        Some(cursor) => {
            query.push(("after".to_owned(), cursor));
            assert(query_view(query@) =~= seq![("after"@, cursor@)]);
        },
        None => {
            assert(query_view(query@) =~= Seq::empty());
        },
    }
    query
}

} // verus!
