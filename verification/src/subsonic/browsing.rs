//! Browsing the merged library.

use crate::cache::db::located;
use crate::error::{FugueError, FugueErrorView};
use crate::json::{
    append_items, clone_items, object, reading_after_setting, set_then_get, whole, Json,
    JsonView, NumberView,
};
use crate::proxy::router::{route, route_to_backend};
use crate::seqs::{lemma_filter_end, lemma_flat_end};
use crate::sorting::{ranking, sort, stable_sort, Ranked};
use crate::strs::{
    chars_of, str_eq, str_less, text_less, text_less_irreflexive, text_less_total,
    text_less_transitive, views,
};
use crate::subsonic::annotation::{ask_owner, owner_request};
use crate::subsonic::media::{Attempt, AttemptView};
use crate::subsonic::models::{
    artists_under, collect_artists, entries_view, identifiers_are_namespaced, insert_letter,
    lemma_letters, letters, listed_items_are_namespaced, namespaced, namespaced_copy,
    namespacing_reaches_everything, responses_view,
};
use crate::subsonic::params::Params;
use crate::unicode::{
    is_alphabetic, is_letter, lowercase, to_lowercase, to_uppercase, uppercase,
};
use vstd::prelude::*;

verus! {

/// The one music folder that clients see.
pub fn get_music_folders() -> (r: Json)
    ensures
        r@ == object().with(
            "musicFolders"@,
            object().with(
                "musicFolder"@,
                JsonView::Array(
                    seq![
                        object().with("id"@, whole(0)).with(
                            "name"@,
                            JsonView::Text("Fugue Library"@),
                        ),
                    ],
                ),
            ),
        ),
{
    let folder = Json::object().with("id", Json::whole(0)).with_text("name", "Fugue Library");
    let ghost fv = folder@;
    let mut folders: Vec<Json> = Vec::new();
    folders.push(folder);
    assert(views(folders@) =~= seq![fv]);
    Json::object().with("musicFolders", Json::object().with("musicFolder", Json::array(folders)))
}

// ── The artist index ────────────────────────────────────────────

/// The letter under which a name is listed: its first character in upper case,
/// `#` if that is no letter or there is none.
pub open spec fn index_letter(name: Seq<char>) -> Seq<char> {
    if name.len() > 0 && is_letter(uppercase(name[0])[0]) {
        uppercase(name[0])
    } else {
        "#"@
    }
}

/// An artist under its letter.
pub open spec fn lettered(a: JsonView) -> (Seq<char>, Seq<JsonView>) {
    (index_letter(a.text_or("name"@, "#"@)), seq![a])
}

/// The index of a flat list of artists: the letters in order, the artists of
/// each in the order of the list.
pub open spec fn artist_index(artists: Seq<JsonView>) -> JsonView {
    let entries = artists.map_values(|a: JsonView| lettered(a));
    object().with(
        "artists"@,
        object().with("ignoredArticles"@, JsonView::Text("The El La Los Las Le Les"@)).with(
            "index"@,
            JsonView::Array(letters(entries).map_values(|n: Seq<char>| plain_index(entries, n))),
        ),
    )
}

/// One index: its letter and its artists.
pub open spec fn plain_index(entries: Seq<(Seq<char>, Seq<JsonView>)>, name: Seq<char>) -> JsonView {
    object().with("name"@, JsonView::Text(name)).with(
        "artist"@,
        JsonView::Array(artists_under(entries, name)),
    )
}

fn letter_of(name: &str) -> (r: String)
    ensures
        r@ == index_letter(name@),
{
    let x = chars_of(name);
    if x.len() > 0 {
        let up = to_uppercase(x[0]);
        let u = chars_of(up.as_str());
        if is_alphabetic(u[0]) {
            return up;
        }
    }
    "#".to_owned()
}

/// Builds the artist index from a flat list of artists.
pub fn build_artist_index(artists: &Vec<Json>) -> (r: Json)
    ensures
        r@ == artist_index(views(artists@)),
{
    let ghost es = views(artists@).map_values(|a: JsonView| lettered(a));
    let mut entries: Vec<(String, Vec<Json>)> = Vec::new();
    let mut names: Vec<String> = Vec::new();
    let mut i: usize = 0;
    assert(es.take(0) =~= seq![]);
    assert(views(names@) =~= seq![]);
    while i < artists.len()
        invariant
            i <= artists@.len(),
            es == views(artists@).map_values(|a: JsonView| lettered(a)),
            entries_view(entries@) == es.take(i as int),
            views(names@) == letters(es.take(i as int)),
        decreases artists@.len() - i,
    {
        let ghost before = entries@;
        let letter = letter_of(artists[i].str_or("name", "#"));
        let mut one: Vec<Json> = Vec::new();
        let c = artists[i].clone();
        let ghost cv = c@;
        one.push(c);
        proof {
            assert(views(one@) =~= seq![cv]);
            assert(es[i as int] == (letter@, views(one@)));
            assert(es.take(i + 1).drop_last() =~= es.take(i as int));
            assert(es.take(i + 1).last() == es[i as int]);
            assert(es.take(i + 1) =~= es.take(i as int).push(es[i as int]));
        }
        insert_letter(&mut names, &letter);
        entries.push((letter, one));
        assert(entries_view(entries@) =~= entries_view(before).push((letter@, views(one@))));
        i += 1;
    }
    assert(es.take(i as int) =~= es);
    let ghost want = letters(es).map_values(|n: Seq<char>| plain_index(es, n));
    let mut out: Vec<Json> = Vec::new();
    let mut j: usize = 0;
    while j < names.len()
        invariant
            j <= names@.len(),
            es == entries_view(entries@),
            views(names@) == letters(es),
            want == letters(es).map_values(|n: Seq<char>| plain_index(es, n)),
            views(out@) == want.take(j as int),
        decreases names@.len() - j,
    {
        let ghost before = out@;
        let list = collect_artists(&entries, names[j].as_str());
        let one = Json::object().with_text("name", names[j].as_str()).with(
            "artist",
            Json::array(list),
        );
        proof {
            assert(letters(es)[j as int] == names@[j as int]@);
            assert(want[j as int] == one@);
            assert(want.take(j + 1) =~= want.take(j as int).push(one@));
        }
        out.push(one);
        assert(views(out@) =~= views(before).push(one@));
        j += 1;
    }
    assert(want.take(j as int) =~= want);
    Json::object().with(
        "artists",
        Json::object().with_text("ignoredArticles", "The El La Los Las Le Les").with(
            "index",
            Json::array(out),
        ),
    )
}

/// An artist index under the name that getIndexes gives it.
pub open spec fn indexes_of(index: JsonView) -> JsonView {
    match index.get("artists"@) {
        Some(a) => object().with("indexes"@, a),
        None => index,
    }
}

/// An artist index under the name that getIndexes gives it.
pub fn get_indexes(index: Json) -> (r: Json)
    ensures
        r@ == indexes_of(index@),
{
    let part = match index.get("artists") {
        Some(a) => Some(a.clone()),
        None => None,
    };
    match part {
        Some(a) => Json::object().with("indexes", a),
        None => index,
    }
}

// ── One artist on several backends ──────────────────────────────

/// The name of an album without regard to case.
pub open spec fn album_key(a: JsonView) -> Seq<char> {
    lowercase(a.text_or("name"@, seq![]))
}

/// The albums without those whose name an earlier one has.
pub open spec fn distinct_albums(s: Seq<JsonView>) -> Seq<JsonView>
    decreases s.len(),
{
    if s.len() == 0 {
        seq![]
    } else {
        let rest = distinct_albums(s.drop_last());
        if named_before(s.drop_last(), album_key(s.last())) {
            rest
        } else {
            rest.push(s.last())
        }
    }
}

/// One of the albums has this name.
pub open spec fn named_before(s: Seq<JsonView>, key: Seq<char>) -> bool {
    exists|i: int| 0 <= i < s.len() && album_key(#[trigger] s[i]) == key
}

/// An album with what it is sorted by.
pub struct DatedAlbum {
    pub year: i64,
    pub key: String,
    pub item: Json,
}

impl View for DatedAlbum {
    type V = (i64, Seq<char>, JsonView);

    open spec fn view(&self) -> (i64, Seq<char>, JsonView) {
        (self.year, self.key@, self.item@)
    }
}

impl Ranked for DatedAlbum {
    open spec fn leq(a: (i64, Seq<char>, JsonView), b: (i64, Seq<char>, JsonView)) -> bool {
        a.0 < b.0 || (a.0 == b.0 && !text_less(b.1, a.1))
    }

    proof fn leq_total(a: (i64, Seq<char>, JsonView), b: (i64, Seq<char>, JsonView)) {
        if text_less(a.1, b.1) && text_less(b.1, a.1) {
            text_less_transitive(a.1, b.1, a.1);
            text_less_irreflexive(a.1);
        }
    }

    proof fn leq_transitive(
        a: (i64, Seq<char>, JsonView),
        b: (i64, Seq<char>, JsonView),
        c: (i64, Seq<char>, JsonView),
    ) {
        text_less_total(a.1, b.1);
        text_less_total(b.1, c.1);
        if text_less(c.1, a.1) {
            if text_less(a.1, b.1) {
                text_less_transitive(c.1, a.1, b.1);
            } else if text_less(b.1, c.1) {
                text_less_transitive(b.1, c.1, a.1);
            }
        }
    }

    fn may_precede(&self, other: &Self) -> (r: bool) {
        self.year < other.year || (self.year == other.year && !str_less(
            other.key.as_str(),
            self.key.as_str(),
        ))
    }
}

/// The year of an album, zero if it is unknown.
pub open spec fn album_year(a: JsonView) -> i64 {
    match a.get("year"@) {
        Some(y) => match y.signed() {
            Some(n) => n,
            None => 0,
        },
        None => 0,
    }
}

/// The albums by year, and by name within a year.
pub open spec fn by_year(s: Seq<JsonView>) -> Seq<JsonView> {
    stable_sort(
        s.map_values(|a: JsonView| (album_year(a), album_key(a), a)),
        ranking::<DatedAlbum>(),
    ).map_values(|t: (i64, Seq<char>, JsonView)| t.2)
}

/// The discography: the albums of all backends, each once, by year.
pub open spec fn discography(own: Seq<JsonView>, extra: Seq<JsonView>) -> Seq<JsonView> {
    by_year(distinct_albums(own + extra))
}

/// An artist with the albums that other backends have in addition, and their
/// count.
pub open spec fn completed_artist(artist: JsonView, extra: Seq<JsonView>) -> JsonView {
    let with_albums = match artist.get("album"@) {
        Some(JsonView::Array(own)) => artist.with(
            "album"@,
            JsonView::Array(discography(own, extra)),
        ),
        _ => artist,
    };
    with_albums.with("albumCount"@, whole(with_albums.items("album"@).len()))
}

/// The answer about an artist with the albums that other backends have in
/// addition; as it is if they have none.
pub open spec fn with_extra_albums(resp: JsonView, extra: Seq<JsonView>) -> JsonView {
    if extra.len() == 0 {
        resp
    } else {
        match resp.get("artist"@) {
            Some(artist) => resp.with("artist"@, completed_artist(artist, extra)),
            None => resp,
        }
    }
}

/// The albums in the answers of other backends about the same artist.
pub open spec fn sibling_albums(rs: Seq<(usize, JsonView)>) -> Seq<JsonView>
    decreases rs.len(),
{
    if rs.len() == 0 {
        seq![]
    } else {
        let (idx, resp) = rs.last();
        sibling_albums(rs.drop_last()) + match namespaced(resp, idx as nat).get("artist"@) {
            Some(artist) => artist.items("album"@),
            None => seq![],
        }
    }
}

fn key_of(a: &Json) -> (r: String)
    ensures
        r@ == album_key(a@),
{
    proof {
        reveal_strlit("");
        assert(""@ =~= Seq::<char>::empty());
    }
    to_lowercase(a.str_or("name", ""))
}

fn remove_duplicates(albums: &Vec<Json>) -> (r: Vec<Json>)
    ensures
        views(r@) == distinct_albums(views(albums@)),
{
    let ghost s = views(albums@);
    let mut out: Vec<Json> = Vec::new();
    let mut keys: Vec<String> = Vec::new();
    let mut i: usize = 0;
    assert(s.take(0) =~= seq![]);
    assert(views(out@) =~= seq![]);
    while i < albums.len()
        invariant
            i <= albums@.len(),
            s == views(albums@),
            keys@.len() == i,
            forall|k: int| 0 <= k < i ==> (#[trigger] keys@[k])@ == album_key(s[k]),
            views(out@) == distinct_albums(s.take(i as int)),
        decreases albums@.len() - i,
    {
        let ghost before = out@;
        let key = key_of(&albums[i]);
        proof {
            assert(s.take(i + 1).drop_last() =~= s.take(i as int));
            assert(s.take(i + 1).last() == albums@[i as int]@);
        }
        let mut seen: bool = false;
        let mut j: usize = 0;
        while j < keys.len()
            invariant
                j <= keys@.len(),
                keys@.len() == i,
                i <= s.len(),
                forall|k: int| 0 <= k < i ==> (#[trigger] keys@[k])@ == album_key(s[k]),
                seen == exists|k: int|
                    0 <= k < j && album_key(#[trigger] s.take(i as int)[k]) == key@,
            decreases keys@.len() - j,
        {
            assert(s.take(i as int)[j as int] == s[j as int]);
            assert(keys@[j as int]@ == album_key(s[j as int]));
            if str_eq(keys[j].as_str(), key.as_str()) {
                seen = true;
            }
            j += 1;
        }
        assert(seen == named_before(s.take(i as int), key@));
        if !seen {
            let c = albums[i].clone();
            out.push(c);
            assert(views(out@) =~= views(before).push(c@));
        }
        keys.push(key);
        i += 1;
    }
    assert(s.take(i as int) =~= s);
    out
}

fn sort_by_year(albums: &Vec<Json>) -> (r: Vec<Json>)
    ensures
        views(r@) == by_year(views(albums@)),
{
    let ghost want = views(albums@).map_values(
        |a: JsonView| (album_year(a), album_key(a), a),
    );
    let mut dated: Vec<DatedAlbum> = Vec::new();
    let mut i: usize = 0;
    while i < albums.len()
        invariant
            i <= albums@.len(),
            want == views(albums@).map_values(|a: JsonView| (album_year(a), album_key(a), a)),
            views(dated@) == want.take(i as int),
        decreases albums@.len() - i,
    {
        let ghost before = dated@;
        let year: i64 = match albums[i].get("year") {
            Some(y) => match y.as_i64() {
                Some(n) => n,
                None => 0,
            },
            None => 0,
        };
        let d = DatedAlbum { year, key: key_of(&albums[i]), item: albums[i].clone() };
        let ghost dv = d@;
        assert(want[i as int] == dv);
        dated.push(d);
        assert(views(dated@) =~= views(before).push(dv));
        assert(want.take(i + 1) =~= want.take(i as int).push(dv));
        i += 1;
    }
    assert(want.take(i as int) =~= want);
    let sorted = sort(dated);
    let ghost s = views(sorted@);
    let ghost out_want = s.map_values(|t: (i64, Seq<char>, JsonView)| t.2);
    let mut out: Vec<Json> = Vec::new();
    let mut j: usize = 0;
    while j < sorted.len()
        invariant
            j <= sorted@.len(),
            s == views(sorted@),
            out_want == s.map_values(|t: (i64, Seq<char>, JsonView)| t.2),
            views(out@) == out_want.take(j as int),
        decreases sorted@.len() - j,
    {
        let ghost before = out@;
        let c = sorted[j].item.clone();
        out.push(c);
        proof {
            assert(out_want[j as int] == sorted@[j as int]@.2);
            assert(views(out@) =~= views(before).push(c@));
            assert(out_want.take(j + 1) =~= out_want.take(j as int).push(c@));
        }
        j += 1;
    }
    assert(out_want.take(j as int) =~= out_want);
    out
}

fn complete_artist(artist: &Json, extra: &Vec<Json>) -> (r: Json)
    ensures
        r@ == completed_artist(artist@, views(extra@)),
{
    let mut a = artist.clone();
    let merged = match artist.get("album") {
        Some(v) => match v.as_array() {
            Some(own) => {
                let mut all = clone_items(own);
                append_items(&mut all, extra);
                Some(sort_by_year(&remove_duplicates(&all)))
            },
            None => None,
        },
        None => None,
    };
    match merged {
        Some(list) => {
            a.set("album", Json::array(list));
        },
        None => {},
    }
    let mut albums: Vec<Json> = Vec::new();
    assert(views(albums@) =~= seq![]);
    a.append_to("album", &mut albums);
    assert(seq![] + a@.items("album"@) =~= a@.items("album"@));
    assert(views(albums@).len() == albums@.len());
    let count: u64 = albums.len() as u64;
    a.with("albumCount", Json::whole(count))
}

/// Merges the answers of several backends about the same artist: that of the
/// backend that was asked for, and those of the others.
pub fn get_artist(primary_idx: usize, primary: &Json, siblings: &Vec<(usize, Json)>) -> (r: Json)
    ensures
        r@ == with_extra_albums(
            namespaced(primary@, primary_idx as nat),
            sibling_albums(responses_view(siblings@)),
        ),
{
    let resp = namespaced_copy(primary, primary_idx);
    let ghost rs = responses_view(siblings@);
    let mut extra: Vec<Json> = Vec::new();
    let mut i: usize = 0;
    assert(rs.take(0) =~= seq![]);
    assert(views(extra@) =~= seq![]);
    while i < siblings.len()
        invariant
            i <= siblings@.len(),
            rs == responses_view(siblings@),
            views(extra@) == sibling_albums(rs.take(i as int)),
        decreases siblings@.len() - i,
    {
        let ghost before = views(extra@);
        proof {
            assert(rs.take(i + 1).drop_last() =~= rs.take(i as int));
            assert(rs.take(i + 1).last() == (siblings@[i as int].0, siblings@[i as int].1@));
        }
        let sib = namespaced_copy(&siblings[i].1, siblings[i].0);
        match sib.get("artist") {
            Some(artist) => {
                artist.append_to("album", &mut extra);
            },
            None => {
                assert(before + seq![] =~= before);
            },
        }
        i += 1;
    }
    assert(rs.take(i as int) =~= rs);
    assert(views(extra@).len() == extra@.len());
    if extra.len() == 0 {
        return resp;
    }
    let artist = match resp.get("artist") {
        Some(a) => Some(complete_artist(a, &extra)),
        None => None,
    };
    match artist {
        Some(a) => resp.with("artist", a),
        None => resp,
    }
}

/// A backend's answer as clients see it.
pub fn namespaced_answer(backend_idx: usize, answer: &Json) -> (r: Json)
    ensures
        r@ == namespaced(answer@, backend_idx as nat),
{
    namespaced_copy(answer, backend_idx)
}

proof fn lemma_named_before(s: Seq<JsonView>, key: Seq<char>)
    ensures
        named_before(s, key) <==> named_before(distinct_albums(s), key),
    decreases s.len(),
{
    if s.len() > 0 {
        let init = s.drop_last();
        lemma_named_before(init, key);
        lemma_named_before(init, album_key(s.last()));
        let d = distinct_albums(s);
        let di = distinct_albums(init);
        if named_before(s, key) {
            let i = choose|i: int| 0 <= i < s.len() && album_key(#[trigger] s[i]) == key;
            if i < init.len() {
                assert(album_key(init[i]) == key);
                assert(named_before(init, key));
            }
            if named_before(init, key) {
                let k = choose|k: int| 0 <= k < di.len() && album_key(#[trigger] di[k]) == key;
                assert(album_key(d[k]) == key);
            } else {
                assert(d[di.len() as int] == s.last());
                assert(album_key(d[di.len() as int]) == key);
            }
        }
        if named_before(d, key) {
            let k = choose|k: int| 0 <= k < d.len() && album_key(#[trigger] d[k]) == key;
            if k < di.len() {
                assert(album_key(di[k]) == key);
                let i = choose|i: int| 0 <= i < init.len() && album_key(#[trigger] init[i]) == key;
                assert(album_key(s[i]) == key);
            } else {
                assert(album_key(s[s.len() - 1]) == key);
            }
        }
    }
}

/// In a discography no two albums have the same name, and no album of any
/// backend is missing.
pub proof fn discography_is_complete(own: Seq<JsonView>, extra: Seq<JsonView>, key: Seq<char>)
    ensures
        named_before(discography(own, extra), key) <==> named_before(own, key) || named_before(
            extra,
            key,
        ),
        discography(own, extra).len() == distinct_albums(own + extra).len(),
{
    let all = own + extra;
    let d = distinct_albums(all);
    lemma_named_before(all, key);
    lemma_by_year(d, key);
    if named_before(own, key) {
        let i = choose|i: int| 0 <= i < own.len() && album_key(#[trigger] own[i]) == key;
        assert(album_key(all[i]) == key);
    }
    if named_before(extra, key) {
        let i = choose|i: int| 0 <= i < extra.len() && album_key(#[trigger] extra[i]) == key;
        assert(album_key(all[own.len() + i]) == key);
    }
    if named_before(all, key) {
        let i = choose|i: int| 0 <= i < all.len() && album_key(#[trigger] all[i]) == key;
        if i < own.len() {
            assert(album_key(own[i]) == key);
        } else {
            assert(album_key(extra[i - own.len()]) == key);
        }
    }
}

proof fn lemma_by_year(s: Seq<JsonView>, key: Seq<char>)
    ensures
        by_year(s).len() == s.len(),
        named_before(by_year(s), key) <==> named_before(s, key),
{
    broadcast use vstd::seq_lib::group_to_multiset_ensures;

    let m = s.map_values(|a: JsonView| (album_year(a), album_key(a), a));
    let leq = ranking::<DatedAlbum>();
    crate::sorting::ranking_is_total_preorder::<DatedAlbum>();
    crate::sorting::stable_sort_sorts(m, leq);
    let t = stable_sort(m, leq);
    let r = by_year(s);
    if named_before(r, key) {
        let i = choose|i: int| 0 <= i < r.len() && album_key(#[trigger] r[i]) == key;
        assert(t.contains(t[i]));
        assert(t.to_multiset().count(t[i]) > 0);
        assert(m.to_multiset().count(t[i]) > 0);
        assert(m.contains(t[i]));
        let k = choose|k: int| 0 <= k < m.len() && m[k] == t[i];
        assert(album_key(s[k]) == key);
    }
    if named_before(s, key) {
        let i = choose|i: int| 0 <= i < s.len() && album_key(#[trigger] s[i]) == key;
        assert(m.contains(m[i]));
        assert(m.to_multiset().count(m[i]) > 0);
        assert(t.to_multiset().count(m[i]) > 0);
        assert(t.contains(m[i]));
        let k = choose|k: int| 0 <= k < t.len() && t[k] == m[i];
        assert(r[k] == s[i]);
        assert(album_key(r[k]) == key);
    }
}

/// Of the albums with one name only one is left.
pub proof fn distinct_albums_are_distinct(s: Seq<JsonView>, i: int, j: int)
    requires
        0 <= i < j < distinct_albums(s).len(),
    ensures
        album_key(distinct_albums(s)[i]) != album_key(distinct_albums(s)[j]),
    decreases s.len(),
{
    let init = s.drop_last();
    let di = distinct_albums(init);
    if j < di.len() {
        distinct_albums_are_distinct(init, i, j);
    } else {
        lemma_named_before(init, album_key(s.last()));
        assert(!named_before(di, album_key(s.last())));
        assert(album_key(di[i]) != album_key(s.last()));
    }
}

// ── Genres ──────────────────────────────────────────────────────

/// A genre with how many songs and albums it has.
pub struct Genre {
    pub name: String,
    pub songs: u64,
    pub albums: u64,
}

impl View for Genre {
    type V = (Seq<char>, u64, u64);

    open spec fn view(&self) -> (Seq<char>, u64, u64) {
        (self.name@, self.songs, self.albums)
    }
}

/// The sum, as far as 64 bits go.
pub open spec fn sum_up(a: u64, b: u64) -> u64 {
    if a + b > u64::MAX {
        u64::MAX
    } else {
        (a + b) as u64
    }
}

fn sum_of(a: u64, b: u64) -> (r: u64)
    ensures
        r == sum_up(a, b),
{
    if b > u64::MAX - a {
        u64::MAX
    } else {
        a + b
    }
}

/// The genres with the counts of one more backend added.
pub open spec fn with_genre(s: Seq<(Seq<char>, u64, u64)>, name: Seq<char>, songs: u64, albums: u64) -> Seq<
    (Seq<char>, u64, u64),
>
    decreases s.len(),
{
    if s.len() == 0 {
        seq![(name, songs, albums)]
    } else if s.last().0 == name {
        s.drop_last().push((name, sum_up(s.last().1, songs), sum_up(s.last().2, albums)))
    } else {
        with_genre(s.drop_last(), name, songs, albums).push(s.last())
    }
}

/// The number under a name, zero if there is none.
pub open spec fn count_of(g: JsonView, key: Seq<char>) -> u64 {
    match g.get(key) {
        Some(c) => match c.natural() {
            Some(n) => n,
            None => 0,
        },
        None => 0,
    }
}

/// The genres of a list added up.
pub open spec fn summed_genres(s: Seq<JsonView>) -> Seq<(Seq<char>, u64, u64)>
    decreases s.len(),
{
    if s.len() == 0 {
        seq![]
    } else {
        with_genre(
            summed_genres(s.drop_last()),
            s.last().text_or("value"@, ""@),
            count_of(s.last(), "songCount"@),
            count_of(s.last(), "albumCount"@),
        )
    }
}

/// The genre lists of all backends in a row.
pub open spec fn all_genres(rs: Seq<(usize, JsonView)>) -> Seq<JsonView>
    decreases rs.len(),
{
    if rs.len() == 0 {
        seq![]
    } else {
        all_genres(rs.drop_last()) + match rs.last().1.get("genres"@) {
            Some(g) => g.items("genre"@),
            None => seq![],
        }
    }
}

/// A genre as clients see it.
pub open spec fn genre_json(g: (Seq<char>, u64, u64)) -> JsonView {
    object().with("value"@, JsonView::Text(g.0)).with("songCount"@, whole(g.1 as nat)).with(
        "albumCount"@,
        whole(g.2 as nat),
    )
}

/// The merged genres of all backends: each once, with the counts added up.
pub open spec fn merged_genres(rs: Seq<(usize, JsonView)>) -> JsonView {
    object().with(
        "genres"@,
        object().with(
            "genre"@,
            JsonView::Array(
                summed_genres(all_genres(rs)).map_values(
                    |g: (Seq<char>, u64, u64)| genre_json(g),
                ),
            ),
        ),
    )
}

fn get_count(g: &Json, key: &str) -> (r: u64)
    ensures
        r == count_of(g@, key@),
{
    match g.get(key) {
        Some(c) => match c.as_u64() {
            Some(n) => n,
            None => 0,
        },
        None => 0,
    }
}

fn add_genre(genres: &mut Vec<Genre>, name: &str, songs: u64, albums: u64)
    ensures
        views(final(genres)@) == with_genre(views(old(genres)@), name@, songs, albums),
{
    let ghost before = views(genres@);
    let mut i: usize = genres.len();
    assert(before.take(i as int) =~= before);
    assert(with_genre(before, name@, songs, albums) =~= with_genre(
        before.take(i as int),
        name@,
        songs,
        albums,
    ) + before.skip(i as int));
    while i > 0 && !str_eq(genres[i - 1].name.as_str(), name)
        invariant
            i <= genres@.len(),
            before == views(genres@),
            with_genre(before, name@, songs, albums) == with_genre(
                before.take(i as int),
                name@,
                songs,
                albums,
            ) + before.skip(i as int),
        decreases i,
    {
        proof {
            let t = before.take(i as int);
            assert(t.drop_last() =~= before.take(i - 1));
            assert(t.last() == genres@[i - 1]@);
            assert(with_genre(t, name@, songs, albums) + before.skip(i as int) =~= with_genre(
                before.take(i - 1),
                name@,
                songs,
                albums,
            ) + before.skip(i - 1));
        }
        i -= 1;
    }
    let ghost t = before.take(i as int);
    let ghost rest = before.skip(i as int);
    if i > 0 {
        let g = Genre {
            name: name.to_owned(),
            songs: sum_of(genres[i - 1].songs, songs),
            albums: sum_of(genres[i - 1].albums, albums),
        };
        let ghost gv = g@;
        assert(t.last() == before[i - 1]);
        assert(before[i - 1] == genres@[i - 1]@);
        genres[i - 1] = g;
        assert(views(genres@) =~= t.drop_last().push(gv) + rest);
    } else {
        let g = Genre { name: name.to_owned(), songs, albums };
        let ghost gv = g@;
        genres.insert(0, g);
        assert(t =~= seq![]);
        assert(views(genres@) =~= seq![gv] + rest);
    }
}

/// Merges the genres of several backends.
pub fn get_genres(responses: Vec<(usize, Json)>) -> (r: Json)
    ensures
        r@ == merged_genres(responses_view(responses@)),
{
    let ghost rs = responses_view(responses@);
    let mut all: Vec<Json> = Vec::new();
    let mut i: usize = 0;
    assert(rs.take(0) =~= seq![]);
    assert(views(all@) =~= seq![]);
    while i < responses.len()
        invariant
            i <= responses@.len(),
            rs == responses_view(responses@),
            views(all@) == all_genres(rs.take(i as int)),
        decreases responses@.len() - i,
    {
        let ghost before = views(all@);
        proof {
            assert(rs.take(i + 1).drop_last() =~= rs.take(i as int));
            assert(rs.take(i + 1).last() == (responses@[i as int].0, responses@[i as int].1@));
        }
        match responses[i].1.get("genres") {
            Some(g) => {
                g.append_to("genre", &mut all);
            },
            None => {
                assert(before + seq![] =~= before);
            },
        }
        i += 1;
    }
    assert(rs.take(i as int) =~= rs);
    let ghost s = views(all@);
    let mut genres: Vec<Genre> = Vec::new();
    let mut j: usize = 0;
    assert(s.take(0) =~= seq![]);
    assert(views(genres@) =~= seq![]);
    while j < all.len()
        invariant
            j <= all@.len(),
            s == views(all@),
            views(genres@) == summed_genres(s.take(j as int)),
        decreases all@.len() - j,
    {
        proof {
            assert(s.take(j + 1).drop_last() =~= s.take(j as int));
            assert(s.take(j + 1).last() == all@[j as int]@);
        }
        let g = &all[j];
        add_genre(
            &mut genres,
            g.str_or("value", ""),
            get_count(g, "songCount"),
            get_count(g, "albumCount"),
        );
        j += 1;
    }
    assert(s.take(j as int) =~= s);
    let ghost want = views(genres@).map_values(|g: (Seq<char>, u64, u64)| genre_json(g));
    let mut out: Vec<Json> = Vec::new();
    let mut k: usize = 0;
    while k < genres.len()
        invariant
            k <= genres@.len(),
            want == views(genres@).map_values(|g: (Seq<char>, u64, u64)| genre_json(g)),
            views(out@) == want.take(k as int),
        decreases genres@.len() - k,
    {
        let ghost before = out@;
        let g = &genres[k];
        let one = Json::object().with_text("value", g.name.as_str()).with(
            "songCount",
            Json::whole(g.songs),
        ).with("albumCount", Json::whole(g.albums));
        assert(want[k as int] == one@);
        out.push(one);
        assert(views(out@) =~= views(before).push(one@));
        assert(want.take(k + 1) =~= want.take(k as int).push(one@));
        k += 1;
    }
    assert(want.take(k as int) =~= want);
    Json::object().with("genres", Json::object().with("genre", Json::array(out)))
}

// ── From the cache ──────────────────────────────────────────────

/// The artist index from the cache; none if the cache is stale or empty.
pub fn get_artists(cached: &Vec<Json>, cache_fresh: bool) -> (r: Option<Json>)
    ensures
        match r {
            Some(j) => cache_fresh && cached@.len() > 0 && j@ == artist_index(views(cached@)),
            None => !cache_fresh || cached@.len() == 0,
        },
{
    if cache_fresh && cached.len() > 0 {
        Some(build_artist_index(cached))
    } else {
        None
    }
}

/// What is asked of other backends for an artist: each of the other artists of
/// the same name that leads to a backend.
pub open spec fn sibling_requests(
    id: Seq<char>,
    siblings: Seq<(Seq<char>, usize)>,
    backends: nat,
) -> Seq<(usize, Seq<char>)>
    decreases siblings.len(),
{
    if siblings.len() == 0 {
        seq![]
    } else {
        let rest = sibling_requests(id, siblings.drop_last(), backends);
        let sib = siblings.last().0;
        if sib == id {
            rest
        } else {
            match route(sib, backends) {
                Ok((backend, original)) => rest.push((backend as usize, original)),
                Err(_) => rest,
            }
        }
    }
}

/// Requests, as characters and numbers.
pub open spec fn request_views(s: Seq<(usize, String)>) -> Seq<(usize, Seq<char>)> {
    s.map_values(|t: (usize, String)| (t.0, t.1@))
}

/// What is asked of other backends for an artist. `siblings` are all artists of
/// the name, the artist itself among them; a single one is no other.
pub fn ask_siblings(id: &str, siblings: &Vec<(String, usize)>, backends: usize) -> (r: Vec<
    (usize, String),
>)
    ensures
        request_views(r@) == if siblings@.len() > 1 {
            sibling_requests(id@, located(siblings@), backends as nat)
        } else {
            seq![]
        },
{
    let ghost s = located(siblings@);
    let mut out: Vec<(usize, String)> = Vec::new();
    assert(request_views(out@) =~= seq![]);
    if siblings.len() <= 1 {
        return out;
    }
    let mut i: usize = 0;
    assert(s.take(0) =~= seq![]);
    while i < siblings.len()
        invariant
            i <= siblings@.len(),
            s == located(siblings@),
            request_views(out@) == sibling_requests(id@, s.take(i as int), backends as nat),
        decreases siblings@.len() - i,
    {
        let ghost before = out@;
        proof {
            assert(s.take(i + 1).drop_last() =~= s.take(i as int));
            assert(s.take(i + 1).last() == (siblings@[i as int].0@, siblings@[i as int].1));
        }
        if !str_eq(siblings[i].0.as_str(), id) {
            match route_to_backend(backends, siblings[i].0.as_str()) {
                Ok(t) => {
                    let ghost tv = (t.0, t.1@);
                    out.push(t);
                    assert(request_views(out@) =~= request_views(before).push(tv));
                },
                Err(_) => {},
            }
        }
        i += 1;
    }
    assert(s.take(i as int) =~= s);
    out
}

/// What is asked for an album. The answer is given to the client with its
/// identifiers namespaced.
pub fn get_album(params: &Params, backends: usize) -> (r: Result<Attempt, FugueError>)
    ensures
        match r {
            Ok(a) => owner_request(params@, backends as nat, seq![]) == Ok::<
                AttemptView,
                FugueErrorView,
            >(a@),
            Err(e) => owner_request(params@, backends as nat, seq![]) == Err::<
                AttemptView,
                FugueErrorView,
            >(e@),
        },
{
    ask_owner(params, backends)
}

/// What is asked for a song. The answer is given to the client with its
/// identifiers namespaced.
pub fn get_song(params: &Params, backends: usize) -> (r: Result<Attempt, FugueError>)
    ensures
        match r {
            Ok(a) => owner_request(params@, backends as nat, seq![]) == Ok::<
                AttemptView,
                FugueErrorView,
            >(a@),
            Err(e) => owner_request(params@, backends as nat, seq![]) == Err::<
                AttemptView,
                FugueErrorView,
            >(e@),
        },
{
    ask_owner(params, backends)
}

// ── Laws of the discography ─────────────────────────────────────

/// Each album that any backend's answer lists is among the albums of the
/// others, namespaced for that backend.
pub proof fn every_sibling_album_is_taken(rs: Seq<(usize, JsonView)>, k: int, i: int)
    requires
        0 <= k < rs.len(),
        0 <= i < rs[k].1.items_in("artist"@, "album"@).len(),
    ensures
        sibling_albums(rs).contains(
            namespaced(rs[k].1.items_in("artist"@, "album"@)[i], rs[k].0 as nat),
        ),
    decreases rs.len(),
{
    let d = rs.drop_last();
    let (idx, resp) = rs.last();
    let all = sibling_albums(rs);
    if k < d.len() {
        every_sibling_album_is_taken(d, k, i);
        let x = namespaced(rs[k].1.items_in("artist"@, "album"@)[i], rs[k].0 as nat);
        assert(d[k] == rs[k]);
        let q = choose|q: int| 0 <= q < sibling_albums(d).len() && sibling_albums(d)[q] == x;
        assert(all[q] == x);
    } else {
        lemma_namespaced_albums(resp, idx as nat, i);
        let n = sibling_albums(d).len();
        assert(all[n + i] == namespaced(resp.items_in("artist"@, "album"@)[i], idx as nat));
    }
}

proof fn lemma_namespaced_albums(resp: JsonView, idx: nat, i: int)
    ensures
        namespaced(resp, idx).items_in("artist"@, "album"@).len() == resp.items_in(
            "artist"@,
            "album"@,
        ).len(),
        0 <= i < resp.items_in("artist"@, "album"@).len() ==> namespaced(resp, idx).items_in(
            "artist"@,
            "album"@,
        )[i] == namespaced(resp.items_in("artist"@, "album"@)[i], idx),
{
    namespacing_reaches_everything(resp, idx, "artist"@, 0);
    match resp.get("artist"@) {
        Some(JsonView::Text(s)) => {
            identifiers_are_namespaced(resp, idx, "artist"@, s);
        },
        Some(a) => {
            listed_items_are_namespaced(a, idx, "album"@, i);
        },
        None => {},
    }
}

/// Every album that is taken from the other backends is listed by one of them.
pub proof fn taken_albums_are_listed(rs: Seq<(usize, JsonView)>, q: int) -> (r: (int, int))
    requires
        0 <= q < sibling_albums(rs).len(),
    ensures
        0 <= r.0 < rs.len(),
        0 <= r.1 < rs[r.0].1.items_in("artist"@, "album"@).len(),
        sibling_albums(rs)[q] == namespaced(
            rs[r.0].1.items_in("artist"@, "album"@)[r.1],
            rs[r.0].0 as nat,
        ),
    decreases rs.len(),
{
    let d = rs.drop_last();
    let n = sibling_albums(d).len();
    let (idx, resp) = rs.last();
    if q < n {
        let r = taken_albums_are_listed(d, q);
        assert(d[r.0] == rs[r.0]);
        r
    } else {
        lemma_namespaced_albums(resp, idx as nat, q - n);
        (rs.len() - 1, q - n)
    }
}

proof fn lemma_distinct_from(s: Seq<JsonView>, x: JsonView)
    ensures
        distinct_albums(s).contains(x) ==> s.contains(x),
    decreases s.len(),
{
    if s.len() > 0 && distinct_albums(s).contains(x) {
        let d = s.drop_last();
        lemma_distinct_from(d, x);
        let t = distinct_albums(s);
        let k = choose|k: int| 0 <= k < t.len() && t[k] == x;
        if k < distinct_albums(d).len() {
            assert(distinct_albums(d)[k] == x);
            assert(d.contains(x));
            let i = choose|i: int| 0 <= i < d.len() && d[i] == x;
            assert(s[i] == x);
        } else {
            assert(s[s.len() - 1] == x);
        }
    }
}

proof fn lemma_first_is_kept(s: Seq<JsonView>, i: int)
    requires
        0 <= i < s.len(),
        forall|j: int| 0 <= j < i ==> album_key(#[trigger] s[j]) != album_key(s[i]),
    ensures
        distinct_albums(s).contains(s[i]),
    decreases s.len(),
{
    let d = s.drop_last();
    let t = distinct_albums(s);
    if i < d.len() {
        assert forall|j: int| 0 <= j < i implies album_key(#[trigger] d[j]) != album_key(d[i]) by {
            assert(d[j] == s[j]);
        }
        assert(d[i] == s[i]);
        lemma_first_is_kept(d, i);
        let k = choose|k: int| 0 <= k < distinct_albums(d).len() && distinct_albums(d)[k] == s[i];
        assert(t[k] == s[i]);
    } else {
        assert(!named_before(d, album_key(s[i]))) by {
            if named_before(d, album_key(s[i])) {
                let j = choose|j: int|
                    0 <= j < d.len() && album_key(#[trigger] d[j]) == album_key(s[i]);
                assert(d[j] == s[j]);
            }
        }
        assert(t[t.len() - 1] == s[i]);
    }
}

proof fn lemma_by_year_sorts(s: Seq<JsonView>)
    ensures
        by_year(s).to_multiset() == s.to_multiset(),
        forall|i: int, j: int|
            0 <= i < j < by_year(s).len() ==> album_year(#[trigger] by_year(s)[i]) <= album_year(
                #[trigger] by_year(s)[j],
            ),
{
    broadcast use vstd::seq_lib::group_to_multiset_ensures;

    let f = |t: (i64, Seq<char>, JsonView)| t.2;
    let m = s.map_values(|a: JsonView| (album_year(a), album_key(a), a));
    let leq = ranking::<DatedAlbum>();
    crate::sorting::ranking_is_total_preorder::<DatedAlbum>();
    crate::sorting::stable_sort_sorts(m, leq);
    let t = stable_sort(m, leq);
    crate::sorting::mapping_keeps_items(t, m, f);
    assert(m.map_values(f) =~= s);
    let r = by_year(s);
    assert forall|i: int| 0 <= i < t.len() implies (#[trigger] t[i]).0 == album_year(r[i]) by {
        assert(t.contains(t[i]));
        assert(t.to_multiset().count(t[i]) > 0);
        assert(m.contains(t[i]));
        let k = choose|k: int| 0 <= k < m.len() && m[k] == t[i];
    }
    assert forall|i: int, j: int| 0 <= i < j < r.len() implies album_year(#[trigger] r[i])
        <= album_year(#[trigger] r[j]) by {
        assert(leq(t[i], t[j]));
        assert(t[i].0 == album_year(r[i]));
        assert(t[j].0 == album_year(r[j]));
    }
}

/// The albums of a discography are sorted by year, those without one first; no
/// album is made up; of those with one name the first stays, those of the
/// backend that was asked before those of others.
pub proof fn discographies_are_sorted_and_true(
    own: Seq<JsonView>,
    extra: Seq<JsonView>,
    i: int,
    j: int,
    k: int,
)
    ensures
        ({
            let d = discography(own, extra);
            &&& 0 <= i < j < d.len() ==> (match d[i].get_signed("year"@) {
                Some(y) => y,
                None => 0,
            }) <= (match d[j].get_signed("year"@) {
                Some(y) => y,
                None => 0,
            })
            &&& 0 <= i < d.len() ==> own.contains(d[i]) || extra.contains(d[i])
            &&& 0 <= i < j < d.len() ==> lowercase(d[i].text_or("name"@, seq![])) != lowercase(
                d[j].text_or("name"@, seq![]),
            )
            &&& 0 <= k < own.len() && (forall|q: int|
                0 <= q < k ==> lowercase((#[trigger] own[q]).text_or("name"@, seq![]))
                    != lowercase(own[k].text_or("name"@, seq![]))) ==> d.contains(own[k])
        }),
{
    broadcast use vstd::seq_lib::group_to_multiset_ensures;

    let all = own + extra;
    let u = distinct_albums(all);
    let d = discography(own, extra);
    lemma_by_year_sorts(u);
    if 0 <= i < d.len() {
        assert(d.contains(d[i]));
        assert(d.to_multiset().count(d[i]) > 0);
        assert(u.contains(d[i]));
        lemma_distinct_from(all, d[i]);
        let q = choose|q: int| 0 <= q < all.len() && all[q] == d[i];
        if q < own.len() {
            assert(own[q] == d[i]);
        } else {
            assert(extra[q - own.len()] == d[i]);
        }
    }
    if 0 <= i < j < d.len() {
        assert(album_year(d[i]) <= album_year(d[j]));
        lemma_names_differ(u, d, i, j);
    }
    if 0 <= k < own.len() && (forall|q: int|
        0 <= q < k ==> lowercase((#[trigger] own[q]).text_or("name"@, seq![])) != lowercase(
            own[k].text_or("name"@, seq![]),
        )) {
        assert forall|q: int| 0 <= q < k implies album_key(#[trigger] all[q]) != album_key(
            all[k],
        ) by {
            assert(all[q] == own[q]);
        }
        lemma_first_is_kept(all, k);
        assert(u.contains(own[k]));
        assert(u.to_multiset().count(own[k]) > 0);
        assert(d.to_multiset().count(own[k]) > 0);
    }
}

proof fn lemma_names_differ(u: Seq<JsonView>, d: Seq<JsonView>, i: int, j: int)
    requires
        exists|s: Seq<JsonView>| u == #[trigger] distinct_albums(s),
        d.to_multiset() == u.to_multiset(),
        0 <= i < j < d.len(),
    ensures
        album_key(d[i]) != album_key(d[j]),
{
    broadcast use vstd::seq_lib::group_to_multiset_ensures;

    let s = choose|s: Seq<JsonView>| u == #[trigger] distinct_albums(s);
    assert(d.contains(d[i]) && d.contains(d[j]));
    assert(d.to_multiset().count(d[i]) > 0 && d.to_multiset().count(d[j]) > 0);
    assert(u.contains(d[i]) && u.contains(d[j]));
    let a = choose|a: int| 0 <= a < u.len() && u[a] == d[i];
    let b = choose|b: int| 0 <= b < u.len() && u[b] == d[j];
    if a < b {
        distinct_albums_are_distinct(s, a, b);
    } else if b < a {
        distinct_albums_are_distinct(s, b, a);
    } else if album_key(d[i]) == album_key(d[j]) {
        // One item twice: without one copy it would still be there.
        let rest = d.remove(j);
        assert(rest[i] == d[i]);
        assert(rest.contains(d[i]));
        assert(rest.to_multiset() == d.to_multiset().remove(d[j]));
        let less = u.remove(a);
        assert(less.to_multiset() == u.to_multiset().remove(u[a]));
        assert(rest.to_multiset().count(d[i]) > 0);
        assert(less.contains(d[i]));
        let c = choose|c: int| 0 <= c < less.len() && less[c] == d[i];
        let e = if c < a {
            c
        } else {
            c + 1
        };
        assert(u[e] == d[i]);
        if e < a {
            distinct_albums_are_distinct(s, e, a);
        } else {
            distinct_albums_are_distinct(s, a, e);
        }
    }
}

/// The answer about an artist whose albums the asked backend lists: it shows an
/// album of each name that this backend or any other lists, counts the albums
/// that it shows, and keeps what else is said of the artist.
pub proof fn artists_show_the_albums_of_all_backends(
    resp: JsonView,
    rs: Seq<(usize, JsonView)>,
    k: int,
    i: int,
    key: Seq<char>,
) -> (q: int)
    requires
        0 <= k < rs.len(),
        0 <= i < rs[k].1.items_in("artist"@, "album"@).len(),
        resp.get("artist"@) matches Some(a) && a.get("album"@) matches Some(JsonView::Array(_)),
    ensures
        ({
            let before = resp.get("artist"@)->0;
            let r = with_extra_albums(resp, sibling_albums(rs));
            let after = r.get("artist"@)->0;
            let shown = after.items("album"@);
            let wanted = namespaced(rs[k].1.items_in("artist"@, "album"@)[i], rs[k].0 as nat);
            &&& r.get("artist"@) is Some
            &&& 0 <= q < shown.len()
            &&& lowercase(shown[q].text_or("name"@, seq![])) == lowercase(
                wanted.text_or("name"@, seq![]),
            )
            &&& shown == discography(before.items("album"@), sibling_albums(rs))
            &&& after.get("albumCount"@) == Some(
                JsonView::Number(NumberView::PosInt(shown.len() as u64)),
            )
            &&& key != "album"@ && key != "albumCount"@ ==> after.get(key) == before.get(key)
            &&& key != "artist"@ ==> r.get(key) == resp.get(key)
        }),
{
    let before = resp.get("artist"@)->0;
    let own = before.items("album"@);
    let extra = sibling_albums(rs);
    every_sibling_album_is_taken(rs, k, i);
    let wanted = namespaced(rs[k].1.items_in("artist"@, "album"@)[i], rs[k].0 as nat);
    let w = album_key(wanted);
    let e = choose|e: int| 0 <= e < extra.len() && extra[e] == wanted;
    assert(album_key(extra[e]) == w);
    assert(named_before(extra, w));
    discography_is_complete(own, extra, w);
    let d = discography(own, extra);
    let q = choose|q: int| 0 <= q < d.len() && album_key(#[trigger] d[q]) == w;
    let listed = before.with("album"@, JsonView::Array(d));
    reveal_strlit("album");
    reveal_strlit("albumCount");
    assert("album"@.len() == 5 && "albumCount"@.len() == 10);
    set_then_get(before->Object_0, "album"@, JsonView::Array(d), key);
    set_then_get(before->Object_0, "album"@, JsonView::Array(d), "albumCount"@);
    set_then_get(listed->Object_0, "albumCount"@, whole(d.len()), key);
    set_then_get(listed->Object_0, "albumCount"@, whole(d.len()), "album"@);
    let done = completed_artist(before, extra);
    assert(done == listed.with("albumCount"@, whole(listed.items("album"@).len())));
    set_then_get(resp->Object_0, "artist"@, done, key);
    q
}

/// An answer about an artist that no other backend adds albums to stays as it
/// is.
pub proof fn lone_artists_stay(resp: JsonView, rs: Seq<(usize, JsonView)>)
    requires
        forall|k: int|
            0 <= k < rs.len() ==> (#[trigger] rs[k]).1.items_in("artist"@, "album"@).len() == 0,
    ensures
        with_extra_albums(resp, sibling_albums(rs)) == resp,
{
    if sibling_albums(rs).len() > 0 {
        let r = taken_albums_are_listed(rs, 0);
        assert(rs[r.0].1.items_in("artist"@, "album"@).len() == 0);
    }
}

// ── Laws of indexes and genres ──────────────────────────────────

/// A name is filed under its first letter, as a capital; one that starts with
/// something else, or is empty, under "#".
pub proof fn names_are_filed_under_their_letters(c: char, rest: Seq<char>)
    ensures
        is_letter(uppercase(c)[0]) ==> index_letter(seq![c] + rest) == uppercase(c),
        !is_letter(uppercase(c)[0]) ==> index_letter(seq![c] + rest) == "#"@,
        index_letter(seq![]) == "#"@,
{
    assert((seq![c] + rest)[0] == c);
}

proof fn lemma_under_letter(artists: Seq<JsonView>, name: Seq<char>)
    ensures
        artists_under(artists.map_values(|a: JsonView| lettered(a)), name) == artists.filter(
            |a: JsonView| index_letter(a.text_or("name"@, "#"@)) == name,
        ),
    decreases artists.len(),
{
    let f = |a: JsonView| lettered(a);
    let p = |a: JsonView| index_letter(a.text_or("name"@, "#"@)) == name;
    lemma_filter_end(artists, p);
    if artists.len() > 0 {
        lemma_under_letter(artists.drop_last(), name);
        assert(artists.map_values(f).drop_last() =~= artists.drop_last().map_values(f));
        assert(artists.map_values(f).last() == lettered(artists.last()));
        let rest = artists.drop_last().filter(p);
        assert(rest + seq![artists.last()] =~= rest.push(artists.last()));
    }
}

proof fn lemma_plain_index(entries: Seq<(Seq<char>, Seq<JsonView>)>, name: Seq<char>)
    ensures
        plain_index(entries, name).get("name"@) == Some(JsonView::Text(name)),
        plain_index(entries, name).items("artist"@) == artists_under(entries, name),
{
    broadcast use reading_after_setting;

    reveal_strlit("name");
    reveal_strlit("artist");
    assert("name"@.len() == 4 && "artist"@.len() == 6);
}

/// The index lists the letters in order, and under each letter all artists whose
/// names are filed there, in their order.
pub proof fn index_lists_artists_by_letter(artists: Seq<JsonView>, p: int, q: int)
    ensures
        ({
            let shown = artist_index(artists).items_in("artists"@, "index"@);
            &&& 0 <= p < shown.len() ==> (shown[p].get("name"@) matches Some(JsonView::Text(name))
                && shown[p].items("artist"@) == artists.filter(
                |a: JsonView| index_letter(a.text_or("name"@, "#"@)) == name,
            ))
            &&& 0 <= p < q < shown.len() ==> text_less(
                shown[p].text_or("name"@, ""@),
                shown[q].text_or("name"@, ""@),
            )
        }),
{
    broadcast use reading_after_setting;

    reveal_strlit("ignoredArticles");
    reveal_strlit("index");
    let entries = artists.map_values(|a: JsonView| lettered(a));
    let names = letters(entries);
    lemma_letters(entries);
    if 0 <= p < names.len() {
        lemma_plain_index(entries, names[p]);
        lemma_under_letter(artists, names[p]);
    }
    if 0 <= q < names.len() {
        lemma_plain_index(entries, names[q]);
    }
}

/// Every artist has its letter in the index.
pub proof fn index_has_the_letter_of_every_artist(artists: Seq<JsonView>, i: int) -> (p: int)
    requires
        0 <= i < artists.len(),
    ensures
        ({
            let shown = artist_index(artists).items_in("artists"@, "index"@);
            0 <= p < shown.len() && shown[p].get("name"@) == Some(
                JsonView::Text(index_letter(artists[i].text_or("name"@, "#"@))),
            )
        }),
{
    broadcast use reading_after_setting;

    reveal_strlit("ignoredArticles");
    reveal_strlit("index");
    let entries = artists.map_values(|a: JsonView| lettered(a));
    let names = letters(entries);
    let name = index_letter(artists[i].text_or("name"@, "#"@));
    lemma_letters(entries);
    assert(entries[i].0 == name);
    assert(names.contains(name));
    let p = choose|p: int| 0 <= p < names.len() && names[p] == name;
    lemma_plain_index(entries, name);
    p
}

/// An index of folders is the index of artists under another name.
pub proof fn folder_index_is_the_artist_index(index: JsonView, artists: JsonView)
    ensures
        index.get("artists"@) == Some(artists) ==> indexes_of(index).get("indexes"@) == Some(
            artists,
        ),
        index.get("artists"@) is None ==> indexes_of(index) == index,
{
    broadcast use reading_after_setting;

}

/// An artist is shown with the number of its albums, all else as its backend says.
pub proof fn album_count_is_the_number_of_albums(
    artist: JsonView,
    extra: Seq<JsonView>,
    other: Seq<char>,
)
    requires
        artist is Object,
    ensures
        ({
            let r = completed_artist(artist, extra);
            &&& r.get("albumCount"@) == Some(whole(r.items("album"@).len()))
            &&& other != "album"@ && other != "albumCount"@ ==> r.get(other) == artist.get(other)
        }),
{
    broadcast use reading_after_setting;

    reveal_strlit("album");
    reveal_strlit("albumCount");
    assert("album"@.len() != "albumCount"@.len());
}

/// Every sibling of an artist but the artist itself is asked for, at the backend
/// that has it.
pub proof fn every_sibling_is_asked_for(
    id: Seq<char>,
    siblings: Seq<(Seq<char>, usize)>,
    backends: nat,
)
    ensures
        sibling_requests(id, siblings, backends) == siblings.map_values(
            |s: (Seq<char>, usize)|
                if s.0 == id {
                    seq![]
                } else {
                    match route(s.0, backends) {
                        Ok((backend, original)) => seq![(backend as usize, original)],
                        Err(_) => seq![],
                    }
                },
        ).flatten(),
    decreases siblings.len(),
{
    lemma_flat_end(
        siblings,
        |s: (Seq<char>, usize)|
            if s.0 == id {
                seq![]
            } else {
                match route(s.0, backends) {
                    Ok((backend, original)) => seq![(backend as usize, original)],
                    Err(_) => seq![],
                }
            },
    );
    if siblings.len() > 0 {
        every_sibling_is_asked_for(id, siblings.drop_last(), backends);
    }
}

proof fn lemma_all_genres(rs: Seq<(usize, JsonView)>)
    ensures
        all_genres(rs) == rs.map_values(
            |p: (usize, JsonView)| p.1.items_in("genres"@, "genre"@),
        ).flatten(),
    decreases rs.len(),
{
    lemma_flat_end(rs, |p: (usize, JsonView)| p.1.items_in("genres"@, "genre"@));
    if rs.len() > 0 {
        lemma_all_genres(rs.drop_last());
    }
}

/// The sum of two counts, the largest count where it would exceed that.
pub open spec fn plus() -> spec_fn(u64, u64) -> u64 {
    |a: u64, b: u64|
        if a + b > u64::MAX {
            u64::MAX
        } else {
            (a + b) as u64
        }
}

/// The counts under `key` that are given for a genre, summed up.
pub open spec fn genre_total(gs: Seq<JsonView>, name: Seq<char>, key: Seq<char>) -> u64 {
    gs.filter(|g: JsonView| g.text_or("value"@, ""@) == name).map_values(
        |g: JsonView|
            match g.get(key) {
                Some(JsonView::Number(NumberView::PosInt(n))) => n,
                _ => 0,
            },
    ).fold_left(0u64, plus())
}

proof fn lemma_genre_total(gs: Seq<JsonView>, name: Seq<char>, key: Seq<char>)
    ensures
        gs.len() == 0 ==> genre_total(gs, name, key) == 0,
        gs.len() > 0 ==> genre_total(gs, name, key) == if gs.last().text_or("value"@, ""@) == name {
            sum_up(genre_total(gs.drop_last(), name, key), count_of(gs.last(), key))
        } else {
            genre_total(gs.drop_last(), name, key)
        },
{
    let p = |g: JsonView| g.text_or("value"@, ""@) == name;
    let f = |g: JsonView|
        match g.get(key) {
            Some(JsonView::Number(NumberView::PosInt(n))) => n,
            _ => 0,
        };
    crate::seqs::lemma_pick_end(gs, p, f);
    if gs.len() > 0 && p(gs.last()) {
        let d = gs.drop_last().filter(p).map_values(f);
        let whole_list = gs.filter(p).map_values(f);
        assert(whole_list == d.push(f(gs.last())));
        assert(whole_list.drop_last() =~= d);
        assert(f(gs.last()) == count_of(gs.last(), key));
    }
}

/// Some genre of the list has the name.
spec fn is_listed(s: Seq<(Seq<char>, u64, u64)>, name: Seq<char>) -> bool {
    exists|i: int| 0 <= i < s.len() && (#[trigger] s[i]).0 == name
}

proof fn lemma_with_genre(
    s: Seq<(Seq<char>, u64, u64)>,
    name: Seq<char>,
    songs: u64,
    albums: u64,
    other: Seq<char>,
)
    ensures
        is_listed(with_genre(s, name, songs, albums), other) <==> other == name || is_listed(
            s,
            other,
        ),
    decreases s.len(),
{
    let w = with_genre(s, name, songs, albums);
    if s.len() == 0 {
        assert(w[0].0 == name);
    } else {
        let d = s.drop_last();
        let v = if s.last().0 == name {
            d
        } else {
            with_genre(d, name, songs, albums)
        };
        if s.last().0 != name {
            lemma_with_genre(d, name, songs, albums, other);
        }
        assert(w.len() == v.len() + 1 && w.last().0 == s.last().0);
        assert(forall|i: int| 0 <= i < v.len() ==> w[i] == v[i]);
        if is_listed(w, other) {
            let k = choose|k: int| 0 <= k < w.len() && (#[trigger] w[k]).0 == other;
            if k < v.len() {
                assert(v[k].0 == other);
                if is_listed(d, other) {
                    let i = choose|i: int| 0 <= i < d.len() && (#[trigger] d[i]).0 == other;
                    assert(s[i].0 == other);
                }
            } else {
                assert(s[s.len() - 1].0 == other);
            }
        }
        if is_listed(s, other) {
            let i = choose|i: int| 0 <= i < s.len() && (#[trigger] s[i]).0 == other;
            if i < d.len() {
                assert(d[i].0 == other);
                let k = choose|k: int| 0 <= k < v.len() && (#[trigger] v[k]).0 == other;
                assert(w[k].0 == other);
            } else {
                assert(w[w.len() - 1].0 == other);
            }
        }
        if other == name {
            if s.last().0 == name {
                assert(w[w.len() - 1].0 == name);
            } else {
                let k = choose|k: int| 0 <= k < v.len() && (#[trigger] v[k]).0 == name;
                assert(w[k].0 == name);
            }
        }
    }
}

proof fn lemma_listed_genres(gs: Seq<JsonView>, name: Seq<char>)
    ensures
        is_listed(summed_genres(gs), name) <==> exists|i: int|
            0 <= i < gs.len() && (#[trigger] gs[i]).text_or("value"@, ""@) == name,
        !is_listed(summed_genres(gs), name) ==> genre_total(gs, name, "songCount"@) == 0
            && genre_total(gs, name, "albumCount"@) == 0,
    decreases gs.len(),
{
    lemma_genre_total(gs, name, "songCount"@);
    lemma_genre_total(gs, name, "albumCount"@);
    if gs.len() > 0 {
        let d = gs.drop_last();
        lemma_listed_genres(d, name);
        lemma_with_genre(
            summed_genres(d),
            gs.last().text_or("value"@, ""@),
            count_of(gs.last(), "songCount"@),
            count_of(gs.last(), "albumCount"@),
            name,
        );
        if exists|i: int| 0 <= i < d.len() && (#[trigger] d[i]).text_or("value"@, ""@) == name {
            let i = choose|i: int|
                0 <= i < d.len() && (#[trigger] d[i]).text_or("value"@, ""@) == name;
            assert(gs[i].text_or("value"@, ""@) == name);
        }
        if exists|i: int| 0 <= i < gs.len() && (#[trigger] gs[i]).text_or("value"@, ""@) == name {
            let i = choose|i: int|
                0 <= i < gs.len() && (#[trigger] gs[i]).text_or("value"@, ""@) == name;
            if i < d.len() {
                assert(d[i].text_or("value"@, ""@) == name);
            }
        }
        if gs.last().text_or("value"@, ""@) == name {
            assert(gs[gs.len() - 1].text_or("value"@, ""@) == name);
        }
    }
}

proof fn lemma_summed_genres(gs: Seq<JsonView>)
    ensures
        forall|k: int|
            0 <= k < summed_genres(gs).len() ==> {
                &&& (#[trigger] summed_genres(gs)[k]).1 == genre_total(
                    gs,
                    summed_genres(gs)[k].0,
                    "songCount"@,
                )
                &&& summed_genres(gs)[k].2 == genre_total(
                    gs,
                    summed_genres(gs)[k].0,
                    "albumCount"@,
                )
            },
        forall|i: int, j: int|
            0 <= i < j < summed_genres(gs).len() ==> (#[trigger] summed_genres(gs)[i]).0 != (
            #[trigger] summed_genres(gs)[j]).0,
    decreases gs.len(),
{
    if gs.len() > 0 {
        let r = summed_genres(gs);
        let d = gs.drop_last();
        let s = summed_genres(d);
        let name = gs.last().text_or("value"@, ""@);
        let songs = count_of(gs.last(), "songCount"@);
        let albums = count_of(gs.last(), "albumCount"@);
        lemma_summed_genres(d);
        lemma_genre_names(s, name, songs, albums);
        lemma_listed_genres(d, name);
        assert forall|k: int| 0 <= k < r.len() implies {
            &&& (#[trigger] r[k]).1 == genre_total(gs, r[k].0, "songCount"@)
            &&& r[k].2 == genre_total(gs, r[k].0, "albumCount"@)
        } by {
            lemma_genre_total(gs, r[k].0, "songCount"@);
            lemma_genre_total(gs, r[k].0, "albumCount"@);
            lemma_genre_entry(s, name, songs, albums, k);
        }
    }
}

proof fn lemma_genre_names(
    s: Seq<(Seq<char>, u64, u64)>,
    name: Seq<char>,
    songs: u64,
    albums: u64,
)
    requires
        forall|i: int, j: int| 0 <= i < j < s.len() ==> (#[trigger] s[i]).0 != (#[trigger] s[j]).0,
    ensures
        ({
            let w = with_genre(s, name, songs, albums);
            &&& forall|i: int, j: int|
                0 <= i < j < w.len() ==> (#[trigger] w[i]).0 != (#[trigger] w[j]).0
            &&& forall|k: int|
                0 <= k < w.len() ==> (#[trigger] w[k]).0 == name || exists|i: int|
                    0 <= i < s.len() && (#[trigger] s[i]).0 == w[k].0
        }),
    decreases s.len(),
{
    if s.len() > 0 {
        let d = s.drop_last();
        let w = with_genre(s, name, songs, albums);
        assert forall|i: int, j: int| 0 <= i < j < d.len() implies (#[trigger] d[i]).0 != (
        #[trigger] d[j]).0 by {
            assert(s[i].0 != s[j].0);
        }
        if s.last().0 == name {
            assert forall|i: int, j: int| 0 <= i < j < w.len() implies (#[trigger] w[i]).0 != (
            #[trigger] w[j]).0 by {
                assert(s[i].0 != s[j].0);
            }
            assert forall|k: int| 0 <= k < w.len() implies (#[trigger] w[k]).0 == name
                || exists|i: int| 0 <= i < s.len() && (#[trigger] s[i]).0 == w[k].0 by {
                assert(s[k].0 == w[k].0);
            }
        } else {
            lemma_genre_names(d, name, songs, albums);
            let v = with_genre(d, name, songs, albums);
            assert forall|k: int| 0 <= k < w.len() implies (#[trigger] w[k]).0 == name
                || exists|i: int| 0 <= i < s.len() && (#[trigger] s[i]).0 == w[k].0 by {
                if k < v.len() {
                    assert(w[k] == v[k]);
                    if v[k].0 != name {
                        let i = choose|i: int| 0 <= i < d.len() && (#[trigger] d[i]).0 == v[k].0;
                        assert(s[i].0 == w[k].0);
                    }
                } else {
                    assert(s[s.len() - 1].0 == w[k].0);
                }
            }
            assert forall|i: int, j: int| 0 <= i < j < w.len() implies (#[trigger] w[i]).0 != (
            #[trigger] w[j]).0 by {
                assert(w[i] == v[i]);
                if j < v.len() {
                    assert(w[j] == v[j]);
                } else {
                    assert(w[j] == s[s.len() - 1]);
                    if v[i].0 != name {
                        let q = choose|q: int| 0 <= q < d.len() && (#[trigger] d[q]).0 == v[i].0;
                        assert(s[q].0 != s[s.len() - 1].0);
                    }
                }
            }
        }
    }
}

/// An entry of the sum is an old one of another name, or it is the genre's.
proof fn lemma_genre_entry(
    s: Seq<(Seq<char>, u64, u64)>,
    name: Seq<char>,
    songs: u64,
    albums: u64,
    k: int,
)
    requires
        0 <= k < with_genre(s, name, songs, albums).len(),
        forall|i: int, j: int| 0 <= i < j < s.len() ==> (#[trigger] s[i]).0 != (#[trigger] s[j]).0,
    ensures
        ({
            let e = with_genre(s, name, songs, albums)[k];
            if e.0 != name {
                exists|i: int| 0 <= i < s.len() && #[trigger] s[i] == e
            } else {
                ||| (exists|i: int|
                    0 <= i < s.len() && (#[trigger] s[i]).0 == name && e == (
                        name,
                        sum_up(s[i].1, songs),
                        sum_up(s[i].2, albums),
                    ))
                ||| (e == (name, songs, albums) && forall|i: int|
                    0 <= i < s.len() ==> (#[trigger] s[i]).0 != name)
            }
        }),
    decreases s.len(),
{
    if s.len() > 0 {
        let d = s.drop_last();
        let w = with_genre(s, name, songs, albums);
        let e = w[k];
        if s.last().0 == name {
            if k < d.len() {
                assert(s[k].0 != s[s.len() - 1].0);
                assert(s[k] == e);
            } else {
                assert(s[s.len() - 1].0 == name);
            }
        } else {
            let v = with_genre(d, name, songs, albums);
            if k < v.len() {
                assert forall|i: int, j: int| 0 <= i < j < d.len() implies (#[trigger] d[i]).0 != (
                #[trigger] d[j]).0 by {
                    assert(s[i].0 != s[j].0);
                }
                lemma_genre_entry(d, name, songs, albums, k);
                assert(e == v[k]);
                if e.0 != name {
                    let i = choose|i: int| 0 <= i < d.len() && #[trigger] d[i] == e;
                    assert(s[i] == e);
                } else if exists|i: int|
                    0 <= i < d.len() && (#[trigger] d[i]).0 == name && e == (
                        name,
                        sum_up(d[i].1, songs),
                        sum_up(d[i].2, albums),
                    ) {
                    let i = choose|i: int|
                        0 <= i < d.len() && (#[trigger] d[i]).0 == name && e == (
                            name,
                            sum_up(d[i].1, songs),
                            sum_up(d[i].2, albums),
                        );
                    assert(s[i].0 == name);
                } else {
                    assert forall|i: int| 0 <= i < s.len() implies (#[trigger] s[i]).0 != name by {
                        if i < d.len() {
                            assert(d[i].0 != name);
                        }
                    }
                }
            } else {
                assert(s[s.len() - 1] == e);
            }
        }
    }
}

proof fn lemma_genre_shown(g: (Seq<char>, u64, u64))
    ensures
        genre_json(g).get("value"@) == Some(JsonView::Text(g.0)),
        genre_json(g).get("songCount"@) == Some(JsonView::Number(NumberView::PosInt(g.1))),
        genre_json(g).get("albumCount"@) == Some(JsonView::Number(NumberView::PosInt(g.2))),
{
    broadcast use reading_after_setting;

    reveal_strlit("value");
    reveal_strlit("songCount");
    reveal_strlit("albumCount");
    assert("value"@.len() == 5 && "songCount"@.len() == 9 && "albumCount"@.len() == 10);
}

/// Each genre that some backend has is shown once, with the songs and the albums
/// of all backends together.
pub proof fn genres_are_summed_over_all_backends(rs: Seq<(usize, JsonView)>, p: int, q: int)
    ensures
        ({
            let gs = rs.map_values(
                |p: (usize, JsonView)| p.1.items_in("genres"@, "genre"@),
            ).flatten();
            let shown = merged_genres(rs).items_in("genres"@, "genre"@);
            &&& 0 <= p < shown.len() ==> (shown[p].get("value"@) matches Some(JsonView::Text(name))
                && {
                &&& shown[p].get("songCount"@) == Some(
                    JsonView::Number(NumberView::PosInt(genre_total(gs, name, "songCount"@))),
                )
                &&& shown[p].get("albumCount"@) == Some(
                    JsonView::Number(NumberView::PosInt(genre_total(gs, name, "albumCount"@))),
                )
            })
            &&& 0 <= p < q < shown.len() ==> shown[p].get("value"@) != shown[q].get("value"@)
        }),
{
    broadcast use reading_after_setting;

    lemma_all_genres(rs);
    let gs = all_genres(rs);
    let sums = summed_genres(gs);
    lemma_summed_genres(gs);
    if 0 <= p < sums.len() {
        lemma_genre_shown(sums[p]);
    }
    if 0 <= q < sums.len() {
        lemma_genre_shown(sums[q]);
    }
}

/// No genre that a backend has is left out.
pub proof fn every_genre_is_shown(rs: Seq<(usize, JsonView)>, i: int) -> (p: int)
    requires
        0 <= i < rs.map_values(
            |p: (usize, JsonView)| p.1.items_in("genres"@, "genre"@),
        ).flatten().len(),
    ensures
        ({
            let gs = rs.map_values(
                |p: (usize, JsonView)| p.1.items_in("genres"@, "genre"@),
            ).flatten();
            let shown = merged_genres(rs).items_in("genres"@, "genre"@);
            0 <= p < shown.len() && shown[p].get("value"@) == Some(
                JsonView::Text(gs[i].text_or("value"@, ""@)),
            )
        }),
{
    broadcast use reading_after_setting;

    lemma_all_genres(rs);
    let gs = all_genres(rs);
    let sums = summed_genres(gs);
    lemma_listed_genres(gs, gs[i].text_or("value"@, ""@));
    assert(is_listed(sums, gs[i].text_or("value"@, ""@)));
    let p = choose|p: int|
        0 <= p < sums.len() && (#[trigger] sums[p]).0 == gs[i].text_or("value"@, ""@);
    lemma_genre_shown(sums[p]);
    p
}

/// The index tells which articles are ignored when names are sorted.
pub proof fn index_tells_ignored_articles(artists: Seq<JsonView>)
    ensures
        artist_index(artists).get("artists"@) matches Some(a) && a.get("ignoredArticles"@) == Some(
            JsonView::Text("The El La Los Las Le Les"@),
        ),
{
    broadcast use reading_after_setting;

    reveal_strlit("ignoredArticles");
    reveal_strlit("index");
    assert("ignoredArticles"@.len() == 15 && "index"@.len() == 5);
}

} // verus!
