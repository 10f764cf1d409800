//! Album lists and random songs.

use crate::codec::pair_views;
use crate::json::{object, reading_after_setting, Json, JsonView};
use crate::random::{is_order, order_drawn, reordered};
use crate::strs::{str_eq, views};
use crate::subsonic::models::{
    album_list, arranged, listed_albums, merge_album_lists, page, responses_view,
};
use crate::subsonic::params::{number_or, value_or, Params};
use vstd::prelude::*;

verus! {

/// What an album list request asks for.
#[derive(Debug)]
pub struct ListQuery {
    pub list_type: String,
    pub size: usize,
    pub offset: usize,
}

impl ListQuery {
    /// Reads the parameters of an album list request: the newest ten albums, if
    /// it does not say otherwise.
    pub fn from_params(params: &Params) -> (r: ListQuery)
        ensures
            r.list_type@ == value_or(params@, "type"@, "newest"@),
            r.size == number_or(params@, "size"@, 10, usize::MAX as nat),
            r.offset == number_or(params@, "offset"@, 0, usize::MAX as nat),
    {
        ListQuery {
            list_type: params.get_or("type", "newest"),
            size: params.number("size", 10),
            offset: params.number("offset", 0),
        }
    }
}

/// Where an album list comes from.
#[derive(Debug)]
pub enum ListSource {
    /// The user's starred albums.
    Starred,
    /// The cache, if it has any albums.
    Cache,
    /// The backends.
    Backends,
}

/// The list is of starred albums.
pub open spec fn is_starred_list(list_type: Seq<char>) -> bool {
    list_type == "starred"@ || list_type == "starred2"@
}

/// The list can be made from the cache, which knows how to sort for it.
pub open spec fn is_cacheable(list_type: Seq<char>) -> bool {
    list_type == "newest"@ || list_type == "alphabeticalByName"@ || list_type
        == "alphabeticalByArtist"@ || list_type == "byYear"@
}

/// Where an album list of the older kind comes from.
pub fn get_album_list_source(list_type: &str) -> (r: ListSource)
    ensures
        if is_starred_list(list_type@) {
            r is Starred
        } else {
            r is Backends
        },
{
    if str_eq(list_type, "starred") || str_eq(list_type, "starred2") {
        ListSource::Starred
    } else {
        ListSource::Backends
    }
}

/// Where an album list comes from. `cache_fresh` says whether the cache of some
/// backend is fresh.
pub fn get_album_list2_source(list_type: &str, cache_fresh: bool) -> (r: ListSource)
    ensures
        if is_starred_list(list_type@) {
            r is Starred
        } else if is_cacheable(list_type@) && cache_fresh {
            r is Cache
        } else {
            r is Backends
        },
{
    if str_eq(list_type, "starred") || str_eq(list_type, "starred2") {
        ListSource::Starred
    } else if cache_fresh && (str_eq(list_type, "newest") || str_eq(list_type, "alphabeticalByName")
        || str_eq(list_type, "alphabeticalByArtist") || str_eq(list_type, "byYear")) {
        ListSource::Cache
    } else {
        ListSource::Backends
    }
}

/// What the backends are asked for.
pub fn list_params(list_type: &str) -> (r: Vec<(String, String)>)
    ensures
        pair_views(r@) == seq![("type"@, list_type@)],
{
    let mut out: Vec<(String, String)> = Vec::new();
    out.push(("type".to_owned(), list_type.to_owned()));
    assert(pair_views(out@) =~= seq![("type"@, list_type@)]);
    out
}

/// An answer with albums under `name`.
pub open spec fn albums_under(name: Seq<char>, albums: Seq<JsonView>) -> JsonView {
    object().with(name, object().with("album"@, JsonView::Array(albums)))
}

/// Puts albums into an answer.
pub fn album_answer(name: &str, albums: Vec<Json>) -> (r: Json)
    ensures
        r@ == albums_under(name@, views(albums@)),
{
    Json::object().with(name, Json::object().with("album", Json::array(albums)))
}

/// The answer from the cache; none if the cache has no albums.
pub fn cached_list(albums: Vec<Json>) -> (r: Option<Json>)
    ensures
        match r {
            Some(j) => albums@.len() > 0 && j@ == albums_under("albumList2"@, views(albums@)),
            None => albums@.len() == 0,
        },
{
    if albums.len() == 0 {
        None
    } else {
        Some(album_answer("albumList2", albums))
    }
}

/// Merges album lists of the older kind, which are named otherwise.
pub fn get_album_list(
    responses: Vec<(usize, Json)>,
    list_type: &str,
    size: usize,
    offset: usize,
) -> (r: Json)
    ensures
        list_type@ != "random"@ ==> r@ == albums_under(
            "albumList"@,
            page(
                arranged(listed_albums(responses_view(responses@)), list_type@),
                offset as nat,
                size as nat,
            ),
        ),
        list_type@ == "random"@ ==> exists|order: Vec<usize>| #[trigger]
            order_drawn(order, listed_albums(responses_view(responses@)).len()) && is_order(
                order@,
                listed_albums(responses_view(responses@)).len(),
            ) && r@ == albums_under(
                "albumList"@,
                page(
                    reordered(listed_albums(responses_view(responses@)), order@),
                    offset as nat,
                    size as nat,
                ),
            ),
{
    let ghost rs = responses_view(responses@);
    let merged = merge_album_lists(responses, list_type, size, offset);
    proof {
        if list_type@ == "random"@ {
            let order = choose|order: Vec<usize>| #[trigger]
                order_drawn(order, listed_albums(rs).len()) && is_order(
                    order@,
                    listed_albums(rs).len(),
                ) && merged@ == album_list(
                    reordered(listed_albums(rs), order@),
                    size as nat,
                    offset as nat,
                );
            lemma_renamed_list(reordered(listed_albums(rs), order@), size as nat, offset as nat);
        } else {
            lemma_renamed_list(
                arranged(listed_albums(rs), list_type@),
                size as nat,
                offset as nat,
            );
        }
    }
    merged.rename("albumList2", "albumList")
}

proof fn lemma_renamed_list(albums: Seq<JsonView>, size: nat, offset: nat)
    ensures
        album_list(albums, size, offset).renamed("albumList2"@, "albumList"@) == albums_under(
            "albumList"@,
            page(albums, offset, size),
        ),
{
    let inner = object().with("album"@, JsonView::Array(page(albums, offset, size)));
    crate::json::renamed_only_member("albumList2"@, "albumList"@, inner);
}

/// How many random songs a request asks for.
pub fn get_random_songs(params: &Params) -> (r: usize)
    ensures
        r == number_or(params@, "size"@, 10, usize::MAX as nat),
{
    params.number("size", 10)
}

/// The lists of starred albums, and those that the cache can answer, by name.
pub proof fn lists_are_known_by_name(list_type: Seq<char>)
    ensures
        is_starred_list(list_type) <==> seq!["starred"@, "starred2"@].contains(list_type),
        is_cacheable(list_type) <==> seq![
            "newest"@,
            "alphabeticalByName"@,
            "alphabeticalByArtist"@,
            "byYear"@,
        ].contains(list_type),
{
    let stars = seq!["starred"@, "starred2"@];
    let names = seq!["newest"@, "alphabeticalByName"@, "alphabeticalByArtist"@, "byYear"@];
    assert(stars[0] == "starred"@ && stars[1] == "starred2"@);
    assert(names[0] == "newest"@ && names[1] == "alphabeticalByName"@ && names[2]
        == "alphabeticalByArtist"@ && names[3] == "byYear"@);
}

/// An album list shows exactly its albums, in order.
pub proof fn album_lists_show_their_albums(name: Seq<char>, albums: Seq<JsonView>)
    ensures
        albums_under(name, albums).items_in(name, "album"@) == albums,
{
    broadcast use reading_after_setting;

}

} // verus!
