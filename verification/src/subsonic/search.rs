//! Searching.

use crate::cache::db::Found;
use crate::codec::pair_views;
use crate::json::{object, reading_after_setting, Json, JsonView};
use crate::strs::{decimal, decimal_string, views};
use crate::subsonic::models::{
    first_n, gathered, merge_search_results, merging_takes_every_item, namespaced,
    responses_view,
};
use crate::subsonic::params::{number_or, value_or, Params};
use vstd::prelude::*;

verus! {

/// What a search asks for.
#[derive(Debug)]
pub struct SearchQuery {
    pub query: String,
    pub artist_count: usize,
    pub album_count: usize,
    pub song_count: usize,
}

impl SearchQuery {
    /// Reads the parameters of a search: twenty of each kind, if it does not
    /// say otherwise.
    pub fn from_params(params: &Params) -> (r: SearchQuery)
        ensures
            r.query@ == value_or(params@, "query"@, ""@),
            r.artist_count == number_or(params@, "artistCount"@, 20, usize::MAX as nat),
            r.album_count == number_or(params@, "albumCount"@, 20, usize::MAX as nat),
            r.song_count == number_or(params@, "songCount"@, 20, usize::MAX as nat),
    {
        SearchQuery {
            query: params.get_or("query", ""),
            artist_count: params.number("artistCount", 20),
            album_count: params.number("albumCount", 20),
            song_count: params.number("songCount", 20),
        }
    }

    /// What the backends are asked for.
    pub fn params(&self) -> (r: Vec<(String, String)>)
        ensures
            pair_views(r@) == seq![
                ("query"@, self.query@),
                ("artistCount"@, decimal(self.artist_count as nat)),
                ("albumCount"@, decimal(self.album_count as nat)),
                ("songCount"@, decimal(self.song_count as nat)),
            ],
    {
        let mut out: Vec<(String, String)> = Vec::new();
        out.push(("query".to_owned(), self.query.clone()));
        out.push(("artistCount".to_owned(), decimal_string(self.artist_count as u128)));
        out.push(("albumCount".to_owned(), decimal_string(self.album_count as u128)));
        out.push(("songCount".to_owned(), decimal_string(self.song_count as u128)));
        assert(pair_views(out@) =~= seq![
            ("query"@, self.query@),
            ("artistCount"@, decimal(self.artist_count as nat)),
            ("albumCount"@, decimal(self.album_count as nat)),
            ("songCount"@, decimal(self.song_count as nat)),
        ]);
        out
    }

    /// Whether the cache is searched first: unless the query is empty.
    pub fn asks_cache(&self) -> (r: bool)
        ensures
            r == (self.query@.len() > 0),
    {
        !self.query.as_str().is_empty()
    }
}

/// A search result under `name`.
pub open spec fn results_under(
    name: Seq<char>,
    artists: Seq<JsonView>,
    albums: Seq<JsonView>,
    songs: Seq<JsonView>,
) -> JsonView {
    object().with(
        name,
        object().with("artist"@, JsonView::Array(artists)).with(
            "album"@,
            JsonView::Array(albums),
        ).with("song"@, JsonView::Array(songs)),
    )
}

/// The answer from the cache, under `name`; none if nothing was found.
pub fn cached_search(name: &str, found: Found) -> (r: Option<Json>)
    ensures
        match r {
            Some(j) => found.artists@.len() + found.albums@.len() + found.songs@.len() > 0 && j@
                == results_under(
                name@,
                views(found.artists@),
                views(found.albums@),
                views(found.songs@),
            ),
            None => found.artists@.len() + found.albums@.len() + found.songs@.len() == 0,
        },
{
    if found.artists.len() == 0 && found.albums.len() == 0 && found.songs.len() == 0 {
        None
    } else {
        Some(
            Json::object().with(
                name,
                Json::object().with("artist", Json::array(found.artists)).with(
                    "album",
                    Json::array(found.albums),
                ).with("song", Json::array(found.songs)),
            ),
        )
    }
}

/// What all backends found of one kind.
pub open spec fn found_items(rs: Seq<(usize, JsonView)>, kind: Seq<char>, count: nat) -> Seq<
    JsonView,
> {
    first_n(gathered(rs, "searchResult3"@, "searchResult2"@, kind), count)
}

/// Merges the answers of the backends to a search.
pub fn search3(responses: Vec<(usize, Json)>, q: &SearchQuery) -> (r: Json)
    ensures
        r@ == results_under(
            "searchResult3"@,
            found_items(responses_view(responses@), "artist"@, q.artist_count as nat),
            found_items(responses_view(responses@), "album"@, q.album_count as nat),
            found_items(responses_view(responses@), "song"@, q.song_count as nat),
        ),
{
    merge_search_results(responses, q.artist_count, q.album_count, q.song_count)
}

/// Merges the answers of the backends to a search of the older kind, which is
/// named otherwise.
pub fn search2(responses: Vec<(usize, Json)>, q: &SearchQuery) -> (r: Json)
    ensures
        r@ == results_under(
            "searchResult2"@,
            found_items(responses_view(responses@), "artist"@, q.artist_count as nat),
            found_items(responses_view(responses@), "album"@, q.album_count as nat),
            found_items(responses_view(responses@), "song"@, q.song_count as nat),
        ),
{
    let ghost rs = responses_view(responses@);
    let merged = search3(responses, q);
    proof {
        let inner = object().with(
            "artist"@,
            JsonView::Array(found_items(rs, "artist"@, q.artist_count as nat)),
        ).with("album"@, JsonView::Array(found_items(rs, "album"@, q.album_count as nat))).with(
            "song"@,
            JsonView::Array(found_items(rs, "song"@, q.song_count as nat)),
        );
        crate::json::renamed_only_member("searchResult3"@, "searchResult2"@, inner);
    }
    merged.rename("searchResult3", "searchResult2")
}

/// A search answer shows the artists, albums and songs that were found, each
/// under its own name.
pub proof fn results_show_what_was_found(
    name: Seq<char>,
    artists: Seq<JsonView>,
    albums: Seq<JsonView>,
    songs: Seq<JsonView>,
)
    ensures
        results_under(name, artists, albums, songs).items_in(name, "artist"@) == artists,
        results_under(name, artists, albums, songs).items_in(name, "album"@) == albums,
        results_under(name, artists, albums, songs).items_in(name, "song"@) == songs,
{
    broadcast use reading_after_setting;

    reveal_strlit("artist");
    reveal_strlit("album");
    reveal_strlit("song");
}

/// Of what the backends found, backend after backend, a search shows the first
/// `count` items.
pub proof fn first_found_items_are_shown(
    rs: Seq<(usize, JsonView)>,
    kind: Seq<char>,
    count: nat,
)
    ensures
        ({
            let all = rs.map_values(
                |p: (usize, JsonView)|
                    match p.1.get("searchResult3"@) {
                        Some(s) => namespaced(s, p.0 as nat).items(kind),
                        None => match p.1.get("searchResult2"@) {
                            Some(s) => namespaced(s, p.0 as nat).items(kind),
                            None => seq![],
                        },
                    },
            ).flatten();
            found_items(rs, kind, count) == if count <= all.len() {
                all.take(count as int)
            } else {
                all
            }
        }),
{
    merging_takes_every_item(rs, "searchResult3"@, "searchResult2"@, kind);
}

} // verus!
