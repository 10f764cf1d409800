//! What is written to the cache, and when.

use crate::cache::db::{
    held_titles_are_found, hidden, matching_tracks, name_norm, normalize_name, pattern_of,
    MemberEntryView, TrackEntryView,
};
use crate::clock::now_secs;
use crate::codec::pair_views;
use crate::id::{encode_id, id_round_trip, namespaced_id};
use crate::json::{Json, JsonView};
use crate::seqs::lemma_flat_end;
use crate::strs::{
    decimal, decimal_read_back, decimal_starts_with_digit, decimal_string, in_i64, integer_value,
    opt_text, parse_i64, str_eq, str_less, text_less, trimmed, views,
};
use crate::subsonic::models::{namespaced, namespaced_copy};
use crate::unicode::lowercase;
use vstd::prelude::*;

verus! {

/// How many albums are asked for at once when everything is fetched.
pub const FULL_BATCH: usize = 500;

/// How many albums are asked for at once when only new ones are fetched.
pub const INCREMENTAL_BATCH: usize = 50;

// ── What is written ─────────────────────────────────────────────

/// An artist to be cached.
#[derive(Debug)]
pub struct CachedArtist {
    pub id: String,
    pub backend_idx: usize,
    pub original_id: String,
    pub name: String,
    pub name_norm: String,
    pub album_count: i64,
    pub data: Json,
}

/// An artist to be cached, as characters and numbers.
pub struct CachedArtistView {
    pub id: Seq<char>,
    pub backend_idx: usize,
    pub original_id: Seq<char>,
    pub name: Seq<char>,
    pub name_norm: Seq<char>,
    pub album_count: i64,
    pub data: JsonView,
}

impl View for CachedArtist {
    type V = CachedArtistView;

    open spec fn view(&self) -> CachedArtistView {
        CachedArtistView {
            id: self.id@,
            backend_idx: self.backend_idx,
            original_id: self.original_id@,
            name: self.name@,
            name_norm: self.name_norm@,
            album_count: self.album_count,
            data: self.data@,
        }
    }
}

/// An album to be cached.
#[derive(Debug)]
pub struct CachedAlbum {
    pub id: String,
    pub backend_idx: usize,
    pub original_id: String,
    pub name: String,
    pub name_norm: String,
    pub artist: Option<String>,
    pub artist_id: Option<String>,
    pub year: Option<i64>,
    pub genre: Option<String>,
    pub song_count: i64,
    pub duration: i64,
    pub data: Json,
}

/// An album to be cached, as characters and numbers.
pub struct CachedAlbumView {
    pub id: Seq<char>,
    pub backend_idx: usize,
    pub original_id: Seq<char>,
    pub name: Seq<char>,
    pub name_norm: Seq<char>,
    pub artist: Option<Seq<char>>,
    pub artist_id: Option<Seq<char>>,
    pub year: Option<i64>,
    pub genre: Option<Seq<char>>,
    pub song_count: i64,
    pub duration: i64,
    pub data: JsonView,
}

impl View for CachedAlbum {
    type V = CachedAlbumView;

    open spec fn view(&self) -> CachedAlbumView {
        CachedAlbumView {
            id: self.id@,
            backend_idx: self.backend_idx,
            original_id: self.original_id@,
            name: self.name@,
            name_norm: self.name_norm@,
            artist: opt_text(self.artist),
            artist_id: opt_text(self.artist_id),
            year: self.year,
            genre: opt_text(self.genre),
            song_count: self.song_count,
            duration: self.duration,
            data: self.data@,
        }
    }
}

/// A track to be cached.
#[derive(Debug)]
pub struct CachedTrack {
    pub id: String,
    pub backend_idx: usize,
    pub original_id: String,
    pub title: String,
    pub title_norm: String,
    pub artist: Option<String>,
    pub album: Option<String>,
    pub album_id: String,
    pub track_number: Option<i64>,
    pub duration: Option<i64>,
    pub bitrate: Option<i64>,
    pub content_type: Option<String>,
    pub suffix: Option<String>,
    pub data: Json,
}

/// A track to be cached, as characters and numbers.
pub struct CachedTrackView {
    pub id: Seq<char>,
    pub backend_idx: usize,
    pub original_id: Seq<char>,
    pub title: Seq<char>,
    pub title_norm: Seq<char>,
    pub artist: Option<Seq<char>>,
    pub album: Option<Seq<char>>,
    pub album_id: Seq<char>,
    pub track_number: Option<i64>,
    pub duration: Option<i64>,
    pub bitrate: Option<i64>,
    pub content_type: Option<Seq<char>>,
    pub suffix: Option<Seq<char>>,
    pub data: JsonView,
}

impl View for CachedTrack {
    type V = CachedTrackView;

    open spec fn view(&self) -> CachedTrackView {
        CachedTrackView {
            id: self.id@,
            backend_idx: self.backend_idx,
            original_id: self.original_id@,
            title: self.title@,
            title_norm: self.title_norm@,
            artist: opt_text(self.artist),
            album: opt_text(self.album),
            album_id: self.album_id@,
            track_number: self.track_number,
            duration: self.duration,
            bitrate: self.bitrate,
            content_type: opt_text(self.content_type),
            suffix: opt_text(self.suffix),
            data: self.data@,
        }
    }
}

/// The number, zero if there is none.
pub open spec fn or_zero(n: Option<i64>) -> i64 {
    match n {
        Some(x) => x,
        None => 0,
    }
}

fn number_or_zero(n: Option<i64>) -> (r: i64)
    ensures
        r == or_zero(n),
{
    match n {
        Some(x) => x,
        None => 0,
    }
}

/// What is cached of an artist of a backend.
pub open spec fn artist_row(artist: JsonView, backend_idx: usize) -> CachedArtistView {
    let original_id = artist.text_or("id"@, ""@);
    let name = artist.text_or("name"@, ""@);
    CachedArtistView {
        id: namespaced_id(backend_idx as nat, original_id),
        backend_idx,
        original_id,
        name,
        name_norm: name_norm(name),
        album_count: or_zero(artist.get_signed("albumCount"@)),
        data: namespaced(artist, backend_idx as nat),
    }
}

/// What is cached of an album of a backend.
pub open spec fn album_row(album: JsonView, backend_idx: usize) -> CachedAlbumView {
    let original_id = album.text_or("id"@, ""@);
    let name = album.text_or("name"@, ""@);
    CachedAlbumView {
        id: namespaced_id(backend_idx as nat, original_id),
        backend_idx,
        original_id,
        name,
        name_norm: name_norm(name),
        artist: album.get_text("artist"@),
        artist_id: match album.get_text("artistId"@) {
            Some(a) => Some(namespaced_id(backend_idx as nat, a)),
            None => None,
        },
        year: album.get_signed("year"@),
        genre: album.get_text("genre"@),
        song_count: or_zero(album.get_signed("songCount"@)),
        duration: or_zero(album.get_signed("duration"@)),
        data: namespaced(album, backend_idx as nat),
    }
}

/// What is cached of a song of a backend.
pub open spec fn track_row(song: JsonView, backend_idx: usize, album_id: Seq<char>) -> CachedTrackView {
    let original_id = song.text_or("id"@, ""@);
    let title = song.text_or("title"@, ""@);
    CachedTrackView {
        id: namespaced_id(backend_idx as nat, original_id),
        backend_idx,
        original_id,
        title,
        title_norm: name_norm(title),
        artist: song.get_text("artist"@),
        album: song.get_text("album"@),
        album_id,
        track_number: song.get_signed("track"@),
        duration: song.get_signed("duration"@),
        bitrate: song.get_signed("bitRate"@),
        content_type: song.get_text("contentType"@),
        suffix: song.get_text("suffix"@),
        data: namespaced(song, backend_idx as nat),
    }
}

/// What is cached of an artist.
pub fn cache_artist(artist: &Json, backend_idx: usize) -> (r: CachedArtist)
    ensures
        r@ == artist_row(artist@, backend_idx),
        artist@.get("name"@) matches Some(JsonView::Text(t)) ==> r.name@ == t && r.name_norm@
            == name_norm(t),
        artist@.get("id"@) matches Some(JsonView::Text(id)) ==> r.id@ == namespaced_id(
            backend_idx as nat,
            id,
        ),
{
    let original_id = artist.str_or("id", "").to_owned();
    let name = artist.str_or("name", "").to_owned();
    CachedArtist {
        id: encode_id(backend_idx, original_id.as_str()),
        backend_idx,
        original_id,
        name_norm: normalize_name(name.as_str()),
        name,
        album_count: number_or_zero(artist.get_i64("albumCount")),
        data: namespaced_copy(artist, backend_idx),
    }
}

/// What is cached of an album.
pub fn cache_album(album: &Json, backend_idx: usize) -> (r: CachedAlbum)
    ensures
        r@ == album_row(album@, backend_idx),
        album@.get("name"@) matches Some(JsonView::Text(t)) ==> r.name@ == t && r.name_norm@
            == name_norm(t),
        album@.get("id"@) matches Some(JsonView::Text(id)) ==> r.id@ == namespaced_id(
            backend_idx as nat,
            id,
        ),
{
    let original_id = album.str_or("id", "").to_owned();
    let name = album.str_or("name", "").to_owned();
    CachedAlbum {
        id: encode_id(backend_idx, original_id.as_str()),
        backend_idx,
        original_id,
        name_norm: normalize_name(name.as_str()),
        name,
        artist: album.copy_str("artist"),
        artist_id: match album.get_str("artistId") {
            Some(a) => Some(encode_id(backend_idx, a.as_str())),
            None => None,
        },
        year: album.get_i64("year"),
        genre: album.copy_str("genre"),
        song_count: number_or_zero(album.get_i64("songCount")),
        duration: number_or_zero(album.get_i64("duration")),
        data: namespaced_copy(album, backend_idx),
    }
}

/// What is cached of a song.
pub fn cache_track(song: &Json, backend_idx: usize, namespaced_album_id: &str) -> (r: CachedTrack)
    ensures
        r@ == track_row(song@, backend_idx, namespaced_album_id@),
        song@.get("title"@) matches Some(JsonView::Text(t)) ==> r.title@ == t && r.title_norm@
            == name_norm(t),
        song@.get("id"@) matches Some(JsonView::Text(id)) ==> r.id@ == namespaced_id(
            backend_idx as nat,
            id,
        ),
{
    let original_id = song.str_or("id", "").to_owned();
    let title = song.str_or("title", "").to_owned();
    CachedTrack {
        id: encode_id(backend_idx, original_id.as_str()),
        backend_idx,
        original_id,
        title_norm: normalize_name(title.as_str()),
        title,
        artist: song.copy_str("artist"),
        album: song.copy_str("album"),
        album_id: namespaced_album_id.to_owned(),
        track_number: song.get_i64("track"),
        duration: song.get_i64("duration"),
        bitrate: song.get_i64("bitRate"),
        content_type: song.copy_str("contentType"),
        suffix: song.copy_str("suffix"),
        data: namespaced_copy(song, backend_idx),
    }
}

/// The artists that the entries of an index list.
pub open spec fn indexed_artists(indexes: Seq<JsonView>) -> Seq<JsonView>
    decreases indexes.len(),
{
    if indexes.len() == 0 {
        seq![]
    } else {
        indexed_artists(indexes.drop_last()) + indexes.last().items("artist"@)
    }
}

/// The artists of a backend, from its artist index.
pub fn sync_artists(resp: &Json, backend_idx: usize) -> (r: Vec<CachedArtist>)
    ensures
        views(r@) == indexed_artists(resp@.items_in("artists"@, "index"@)).map_values(
            |a: JsonView| artist_row(a, backend_idx),
        ),
{
    let indexes = resp.copy_items("artists", "index");
    let ghost s = views(indexes@);
    let mut artists: Vec<Json> = Vec::new();
    let mut i: usize = 0;
    assert(s.take(0) =~= seq![]);
    assert(views(artists@) =~= seq![]);
    while i < indexes.len()
        invariant
            i <= indexes@.len(),
            s == views(indexes@),
            views(artists@) == indexed_artists(s.take(i as int)),
        decreases indexes@.len() - i,
    {
        proof {
            assert(s.take(i + 1).drop_last() =~= s.take(i as int));
            assert(s.take(i + 1).last() == indexes@[i as int]@);
        }
        indexes[i].append_to("artist", &mut artists);
        i += 1;
    }
    assert(s.take(i as int) =~= s);
    let ghost want = views(artists@).map_values(|a: JsonView| artist_row(a, backend_idx));
    let mut out: Vec<CachedArtist> = Vec::new();
    let mut k: usize = 0;
    while k < artists.len()
        invariant
            k <= artists@.len(),
            want == views(artists@).map_values(|a: JsonView| artist_row(a, backend_idx)),
            views(out@) == want.take(k as int),
        decreases artists@.len() - k,
    {
        let ghost before = out@;
        let c = cache_artist(&artists[k], backend_idx);
        let ghost cv = c@;
        out.push(c);
        assert(views(out@) =~= views(before).push(cv));
        assert(want.take(k + 1) =~= want.take(k as int).push(cv));
        k += 1;
    }
    assert(want.take(k as int) =~= want);
    out
}

/// The tracks of an album of a backend, from what the backend says of the
/// album.
pub fn album_tracks(resp: &Json, backend_idx: usize, namespaced_album_id: &str) -> (r: Vec<
    CachedTrack,
>)
    ensures
        views(r@) == resp@.items_in("album"@, "song"@).map_values(
            |s: JsonView| track_row(s, backend_idx, namespaced_album_id@),
        ),
{
    let songs = resp.copy_items("album", "song");
    let ghost want = views(songs@).map_values(
        |s: JsonView| track_row(s, backend_idx, namespaced_album_id@),
    );
    let mut out: Vec<CachedTrack> = Vec::new();
    let mut i: usize = 0;
    while i < songs.len()
        invariant
            i <= songs@.len(),
            want == views(songs@).map_values(
                |s: JsonView| track_row(s, backend_idx, namespaced_album_id@),
            ),
            views(out@) == want.take(i as int),
        decreases songs@.len() - i,
    {
        let ghost before = out@;
        let c = cache_track(&songs[i], backend_idx, namespaced_album_id);
        let ghost cv = c@;
        out.push(c);
        assert(views(out@) =~= views(before).push(cv));
        assert(want.take(i + 1) =~= want.take(i as int).push(cv));
        i += 1;
    }
    assert(want.take(i as int) =~= want);
    out
}

// ── Fetching albums in batches ──────────────────────────────────

/// The parameters that ask for a batch of albums.
pub fn batch_params(list_type: &str, size: usize, offset: usize) -> (r: Vec<(String, String)>)
    ensures
        pair_views(r@) == seq![
            ("type"@, list_type@),
            ("size"@, decimal(size as nat)),
            ("offset"@, decimal(offset as nat)),
        ],
{
    let mut out: Vec<(String, String)> = Vec::new();
    out.push(("type".to_owned(), list_type.to_owned()));
    out.push(("size".to_owned(), decimal_string(size as u128)));
    out.push(("offset".to_owned(), decimal_string(offset as u128)));
    assert(pair_views(out@) =~= seq![
        ("type"@, list_type@),
        ("size"@, decimal(size as nat)),
        ("offset"@, decimal(offset as nat)),
    ]);
    out
}

/// A batch of albums to be cached, and whether another is to be asked for.
#[derive(Debug)]
pub struct Batch {
    pub albums: Vec<CachedAlbum>,
    pub more: bool,
}

/// Takes a batch when everything is fetched: all of it. A batch that is not
/// full is the last.
pub fn full_sync(resp: &Json, backend_idx: usize) -> (r: Batch)
    ensures
        ({
            let albums = resp@.items_in("albumList2"@, "album"@);
            &&& views(r.albums@) == albums.map_values(|a: JsonView| album_row(a, backend_idx))
            &&& r.more == (albums.len() >= FULL_BATCH)
        }),
{
    let albums = resp.copy_items("albumList2", "album");
    let ghost want = views(albums@).map_values(|a: JsonView| album_row(a, backend_idx));
    let mut out: Vec<CachedAlbum> = Vec::new();
    let mut i: usize = 0;
    assert(views(albums@).len() == albums@.len());
    while i < albums.len()
        invariant
            i <= albums@.len(),
            want == views(albums@).map_values(|a: JsonView| album_row(a, backend_idx)),
            views(out@) == want.take(i as int),
        decreases albums@.len() - i,
    {
        let ghost before = out@;
        let c = cache_album(&albums[i], backend_idx);
        let ghost cv = c@;
        out.push(c);
        assert(views(out@) =~= views(before).push(cv));
        assert(want.take(i + 1) =~= want.take(i as int).push(cv));
        i += 1;
    }
    assert(want.take(i as int) =~= want);
    Batch { albums: out, more: albums.len() >= FULL_BATCH }
}

/// An album with this identifier is among these.
pub open spec fn has_album(albums: Seq<CachedAlbumView>, id: Seq<char>) -> bool {
    exists|i: int| 0 <= i < albums.len() && (#[trigger] albums[i]).id == id
}

/// The albums of a batch that are neither known nor stand in it before.
pub open spec fn new_albums(
    albums: Seq<JsonView>,
    known: Seq<Seq<char>>,
    backend_idx: usize,
) -> Seq<CachedAlbumView>
    decreases albums.len(),
{
    if albums.len() == 0 {
        seq![]
    } else {
        let rest = new_albums(albums.drop_last(), known, backend_idx);
        let row = album_row(albums.last(), backend_idx);
        if known.contains(row.id) || has_album(rest, row.id) {
            rest
        } else {
            rest.push(row)
        }
    }
}

fn is_known(known: &Vec<String>, id: &str) -> (r: bool)
    ensures
        r == views(known@).contains(id@),
{
    let mut i: usize = 0;
    while i < known.len()
        invariant
            i <= known@.len(),
            forall|j: int| 0 <= j < i ==> (#[trigger] views(known@)[j]) != id@,
        decreases known@.len() - i,
    {
        if str_eq(known[i].as_str(), id) {
            assert(views(known@)[i as int] == id@);
            return true;
        }
        i += 1;
    }
    false
}

fn is_taken(albums: &Vec<CachedAlbum>, id: &str) -> (r: bool)
    ensures
        r == has_album(views(albums@), id@),
{
    let ghost s = views(albums@);
    let mut i: usize = 0;
    while i < albums.len()
        invariant
            i <= albums@.len(),
            s == views(albums@),
            forall|j: int| 0 <= j < i ==> (#[trigger] s[j]).id != id@,
        decreases albums@.len() - i,
    {
        assert(s[i as int] == albums@[i as int]@);
        if str_eq(albums[i].id.as_str(), id) {
            return true;
        }
        i += 1;
    }
    false
}

/// Takes a batch of the newest albums when only new ones are fetched. `known`
/// are the albums that are cached. Once a known album is met, or a batch is not
/// full, the cache has caught up.
pub fn incremental_sync(resp: &Json, known: &Vec<String>, backend_idx: usize) -> (r: Batch)
    ensures
        ({
            let albums = resp@.items_in("albumList2"@, "album"@);
            let new = new_albums(albums, views(known@), backend_idx);
            &&& views(r.albums@) == new
            &&& r.more == (new.len() == albums.len() && albums.len() >= INCREMENTAL_BATCH)
        }),
{
    let albums = resp.copy_items("albumList2", "album");
    let ghost s = views(albums@);
    let mut out: Vec<CachedAlbum> = Vec::new();
    let mut i: usize = 0;
    assert(s.take(0) =~= seq![]);
    assert(views(out@) =~= seq![]);
    while i < albums.len()
        invariant
            i <= albums@.len(),
            s == views(albums@),
            views(out@) == new_albums(s.take(i as int), views(known@), backend_idx),
        decreases albums@.len() - i,
    {
        let ghost before = out@;
        proof {
            assert(s.take(i + 1).drop_last() =~= s.take(i as int));
            assert(s.take(i + 1).last() == albums@[i as int]@);
        }
        let row = cache_album(&albums[i], backend_idx);
        if !is_known(known, row.id.as_str()) && !is_taken(&out, row.id.as_str()) {
            let ghost rv = row@;
            out.push(row);
            assert(views(out@) =~= views(before).push(rv));
        }
        i += 1;
    }
    assert(s.take(i as int) =~= s);
    assert(views(out@).len() == out@.len());
    let more = out.len() == albums.len() && albums.len() >= INCREMENTAL_BATCH;
    Batch { albums: out, more }
}

/// What is taken as new is not cached yet, and is taken once.
pub proof fn new_albums_are_new(
    albums: Seq<JsonView>,
    known: Seq<Seq<char>>,
    backend_idx: usize,
    i: int,
)
    requires
        0 <= i < new_albums(albums, known, backend_idx).len(),
    ensures
        !known.contains(new_albums(albums, known, backend_idx)[i].id),
        forall|j: int|
            0 <= j < i ==> (#[trigger] new_albums(albums, known, backend_idx)[j]).id
                != new_albums(albums, known, backend_idx)[i].id,
    decreases albums.len(),
{
    let rest = new_albums(albums.drop_last(), known, backend_idx);
    let all = new_albums(albums, known, backend_idx);
    if i < rest.len() {
        new_albums_are_new(albums.drop_last(), known, backend_idx, i);
        assert forall|j: int| 0 <= j < i implies (#[trigger] all[j]).id != all[i].id by {
            assert(all[j] == rest[j]);
        }
    } else {
        assert forall|j: int| 0 <= j < i implies (#[trigger] all[j]).id != all[i].id by {
            assert(all[j] == rest[j]);
        }
    }
}

/// After a batch every album of it is cached.
pub proof fn batch_becomes_known(
    albums: Seq<JsonView>,
    known: Seq<Seq<char>>,
    backend_idx: usize,
    i: int,
)
    requires
        0 <= i < albums.len(),
    ensures
        known.contains(album_row(albums[i], backend_idx).id) || has_album(
            new_albums(albums, known, backend_idx),
            album_row(albums[i], backend_idx).id,
        ),
    decreases albums.len(),
{
    let rest = new_albums(albums.drop_last(), known, backend_idx);
    let all = new_albums(albums, known, backend_idx);
    let id = album_row(albums[i], backend_idx).id;
    if i < albums.len() - 1 {
        batch_becomes_known(albums.drop_last(), known, backend_idx, i);
        if has_album(rest, id) {
            let k = choose|k: int| 0 <= k < rest.len() && (#[trigger] rest[k]).id == id;
            assert(all[k] == rest[k]);
        }
    } else if !known.contains(id) && !has_album(rest, id) {
        assert(all[rest.len() as int].id == id);
    }
}

// ── Fetching all batches ────────────────────────────────────────

/// The sum, or the largest number there is.
pub open spec fn capped_sum(a: usize, b: nat) -> usize {
    if a + b <= usize::MAX {
        (a + b) as usize
    } else {
        usize::MAX
    }
}

/// How far fetching the albums of a backend has come.
#[derive(Debug)]
pub struct Crawl {
    /// only new albums are fetched, not all
    pub incremental: bool,
    pub offset: usize,
    pub albums: usize,
    pub tracks: usize,
}

impl Crawl {
    /// Nothing was fetched yet.
    pub fn new(incremental: bool) -> (r: Crawl)
        ensures
            r == (Crawl { incremental, offset: 0, albums: 0, tracks: 0 }),
    {
        Crawl { incremental, offset: 0, albums: 0, tracks: 0 }
    }

    /// How many albums are asked for at once.
    pub open spec fn batch_size(self) -> usize {
        if self.incremental {
            INCREMENTAL_BATCH
        } else {
            FULL_BATCH
        }
    }

    /// The parameters that ask for the next batch.
    pub fn ask(&self) -> (r: Vec<(String, String)>)
        ensures
            pair_views(r@) == seq![
                (
                    "type"@,
                    if self.incremental {
                        "newest"@
                    } else {
                        "alphabeticalByName"@
                    },
                ),
                ("size"@, decimal(self.batch_size() as nat)),
                ("offset"@, decimal(self.offset as nat)),
            ],
    {
        if self.incremental {
            batch_params("newest", INCREMENTAL_BATCH, self.offset)
        } else {
            batch_params("alphabeticalByName", FULL_BATCH, self.offset)
        }
    }

    /// Takes a batch. `known` are the albums that are cached; when everything is
    /// fetched they do not matter. If more is to be asked for, it is what comes
    /// after the batch.
    pub fn take(&mut self, resp: &Json, known: &Vec<String>, backend_idx: usize) -> (r: Batch)
        ensures
            ({
                let albums = resp@.items_in("albumList2"@, "album"@);
                let new = new_albums(albums, views(known@), backend_idx);
                if old(self).incremental {
                    &&& views(r.albums@) == new
                    &&& r.more == (new.len() == albums.len() && albums.len() >= INCREMENTAL_BATCH)
                } else {
                    &&& views(r.albums@) == albums.map_values(
                        |a: JsonView| album_row(a, backend_idx),
                    )
                    &&& r.more == (albums.len() >= FULL_BATCH)
                }
            }),
            *final(self) == (Crawl {
                incremental: old(self).incremental,
                offset: if r.more {
                    capped_sum(old(self).offset, old(self).batch_size() as nat)
                } else {
                    old(self).offset
                },
                albums: capped_sum(old(self).albums, r.albums@.len()),
                tracks: old(self).tracks,
            }),
    {
        let batch = if self.incremental {
            incremental_sync(resp, known, backend_idx)
        } else {
            full_sync(resp, backend_idx)
        };
        if batch.more {
            let size: usize = if self.incremental {
                INCREMENTAL_BATCH
            } else {
                FULL_BATCH
            };
            self.offset = self.offset.saturating_add(size);
        }
        self.albums = self.albums.saturating_add(batch.albums.len());
        batch
    }

    /// Counts the tracks of an album.
    pub fn count_tracks(&mut self, tracks: usize)
        ensures
            *final(self) == (Crawl {
                tracks: capped_sum(old(self).tracks, tracks as nat),
                ..*old(self)
            }),
    {
        self.tracks = self.tracks.saturating_add(tracks);
    }

    /// Whether anything changed: always when everything was fetched, else if
    /// something new was found.
    pub fn changed(&self) -> (r: bool)
        ensures
            r == (!self.incremental || self.albums > 0 || self.tracks > 0),
    {
        !self.incremental || self.albums > 0 || self.tracks > 0
    }
}

/// The batch that a backend with this list of albums gives.
pub open spec fn batch_at(list: Seq<JsonView>, size: nat, offset: nat) -> Seq<JsonView> {
    if offset >= list.len() {
        seq![]
    } else if offset + size <= list.len() {
        list.subrange(offset as int, (offset + size) as int)
    } else {
        list.skip(offset as int)
    }
}

/// What is fetched of a backend with this list of albums, from an offset on,
/// when everything is fetched.
pub open spec fn fetched_from(list: Seq<JsonView>, offset: nat, backend_idx: usize) -> Seq<
    CachedAlbumView,
>
    decreases list.len() - offset,
{
    let batch = batch_at(list, FULL_BATCH as nat, offset);
    let rows = batch.map_values(|a: JsonView| album_row(a, backend_idx));
    if batch.len() >= FULL_BATCH {
        rows + fetched_from(list, offset + FULL_BATCH as nat, backend_idx)
    } else {
        rows
    }
}

proof fn lemma_fetched_from(list: Seq<JsonView>, offset: nat, backend_idx: usize)
    requires
        offset <= list.len(),
    ensures
        fetched_from(list, offset, backend_idx) == list.skip(offset as int).map_values(
            |a: JsonView| album_row(a, backend_idx),
        ),
    decreases list.len() - offset,
{
    let f = |a: JsonView| album_row(a, backend_idx);
    let batch = batch_at(list, FULL_BATCH as nat, offset);
    if batch.len() >= FULL_BATCH {
        lemma_fetched_from(list, offset + FULL_BATCH as nat, backend_idx);
        assert(batch.map_values(f) + list.skip((offset + FULL_BATCH) as int).map_values(f)
            =~= list.skip(offset as int).map_values(f));
    } else {
        assert(batch =~= list.skip(offset as int));
    }
}

/// Fetching everything fetches every album that the backend lists, once and in
/// its order.
pub proof fn full_crawl_is_complete(list: Seq<JsonView>, backend_idx: usize)
    ensures
        fetched_from(list, 0, backend_idx) == list.map_values(
            |a: JsonView| album_row(a, backend_idx),
        ),
{
    lemma_fetched_from(list, 0, backend_idx);
    assert(list.skip(0) =~= list);
}

/// The identifiers of albums.
pub open spec fn album_ids(rows: Seq<CachedAlbumView>) -> Seq<Seq<char>> {
    rows.map_values(|a: CachedAlbumView| a.id)
}

/// What is fetched of a backend with this list of albums, the newest first,
/// when only new ones are fetched. What was fetched is known from then on.
pub open spec fn new_from(
    list: Seq<JsonView>,
    offset: nat,
    known: Seq<Seq<char>>,
    backend_idx: usize,
) -> Seq<CachedAlbumView>
    decreases list.len() - offset,
{
    let batch = batch_at(list, INCREMENTAL_BATCH as nat, offset);
    let new = new_albums(batch, known, backend_idx);
    if new.len() == batch.len() && batch.len() >= INCREMENTAL_BATCH {
        new + new_from(
            list,
            offset + INCREMENTAL_BATCH as nat,
            known + album_ids(new),
            backend_idx,
        )
    } else {
        new
    }
}

/// The first `n` albums of a list are not known and all others are, and no two
/// have the same identifier.
pub open spec fn new_come_first(
    list: Seq<JsonView>,
    n: nat,
    known: Seq<Seq<char>>,
    backend_idx: usize,
) -> bool {
    &&& n <= list.len()
    &&& forall|i: int|
        0 <= i < list.len() ==> (known.contains(album_row(#[trigger] list[i], backend_idx).id)
            == (i >= n))
    &&& forall|i: int, j: int|
        0 <= i < j < list.len() ==> album_row(#[trigger] list[i], backend_idx).id != album_row(
            #[trigger] list[j],
            backend_idx,
        ).id
}

proof fn lemma_new_of_batch(
    batch: Seq<JsonView>,
    m: nat,
    known: Seq<Seq<char>>,
    backend_idx: usize,
)
    requires
        new_come_first(batch, m, known, backend_idx),
    ensures
        new_albums(batch, known, backend_idx) == batch.take(m as int).map_values(
            |a: JsonView| album_row(a, backend_idx),
        ),
    decreases batch.len(),
{
    let f = |a: JsonView| album_row(a, backend_idx);
    if batch.len() == 0 {
        assert(batch.take(m as int).map_values(f) =~= seq![]);
    } else {
        let d = batch.drop_last();
        let last = batch.len() - 1;
        let k: nat = if m > last {
            last as nat
        } else {
            m
        };
        assert forall|i: int| 0 <= i < d.len() implies known.contains(
            album_row(#[trigger] d[i], backend_idx).id,
        ) == (i >= k) by {
            assert(d[i] == batch[i]);
        }
        assert forall|i: int, j: int| 0 <= i < j < d.len() implies album_row(
            #[trigger] d[i],
            backend_idx,
        ).id != album_row(#[trigger] d[j], backend_idx).id by {
            assert(d[i] == batch[i] && d[j] == batch[j]);
        }
        lemma_new_of_batch(d, k, known, backend_idx);
        let rest = new_albums(d, known, backend_idx);
        let row = album_row(batch[last], backend_idx);
        assert(batch.last() == batch[last]);
        if m > last {
            if has_album(rest, row.id) {
                let i = choose|i: int| 0 <= i < rest.len() && (#[trigger] rest[i]).id == row.id;
                assert(rest[i] == f(d[i]));
                assert(d[i] == batch[i]);
            }
            assert(batch.take(m as int).map_values(f) =~= d.take(k as int).map_values(f).push(row));
        } else {
            assert(batch.take(m as int) =~= d.take(k as int));
        }
    }
}

proof fn lemma_new_from(
    list: Seq<JsonView>,
    n: nat,
    offset: nat,
    start: Seq<Seq<char>>,
    known: Seq<Seq<char>>,
    backend_idx: usize,
)
    requires
        new_come_first(list, n, start, backend_idx),
        offset <= n,
        forall|i: int|
            0 <= i < list.len() ==> (known.contains(album_row(#[trigger] list[i], backend_idx).id)
                == (i < offset || i >= n)),
    ensures
        new_from(list, offset, known, backend_idx) == list.subrange(
            offset as int,
            n as int,
        ).map_values(|a: JsonView| album_row(a, backend_idx)),
    decreases list.len() - offset,
{
    let f = |a: JsonView| album_row(a, backend_idx);
    let size = INCREMENTAL_BATCH as nat;
    let batch = batch_at(list, size, offset);
    let m: nat = if n - offset <= batch.len() {
        (n - offset) as nat
    } else {
        batch.len()
    };
    assert forall|i: int| 0 <= i < batch.len() implies batch[i] == list[offset + i] by {}
    assert forall|i: int| 0 <= i < batch.len() implies known.contains(
        album_row(#[trigger] batch[i], backend_idx).id,
    ) == (i >= m) by {
        assert(batch[i] == list[offset + i]);
    }
    assert forall|i: int, j: int| 0 <= i < j < batch.len() implies album_row(
        #[trigger] batch[i],
        backend_idx,
    ).id != album_row(#[trigger] batch[j], backend_idx).id by {
        assert(batch[i] == list[offset + i] && batch[j] == list[offset + j]);
    }
    lemma_new_of_batch(batch, m, known, backend_idx);
    let new = new_albums(batch, known, backend_idx);
    assert(new == batch.take(m as int).map_values(f));
    if new.len() == batch.len() && batch.len() >= INCREMENTAL_BATCH {
        let next = known + album_ids(new);
        assert forall|i: int| 0 <= i < list.len() implies next.contains(
            album_row(#[trigger] list[i], backend_idx).id,
        ) == (i < offset + size || i >= n) by {
            let id = album_row(list[i], backend_idx).id;
            if known.contains(id) {
                let k = choose|k: int| 0 <= k < known.len() && known[k] == id;
                assert(next[k] == id);
            } else if i < offset + size {
                let k = i - offset;
                assert(new[k] == f(batch[k]));
                assert(album_ids(new)[k] == id);
                assert(next[known.len() + k] == id);
            }
            if next.contains(id) && !known.contains(id) {
                let k = choose|k: int| 0 <= k < next.len() && next[k] == id;
                if k < known.len() {
                    assert(known[k] == id);
                } else {
                    let q = k - known.len();
                    assert(album_ids(new)[q] == id);
                    assert(new[q] == f(batch[q]));
                    assert(batch[q] == list[offset + q]);
                    if i >= offset + size {
                        assert(album_row(list[offset + q], backend_idx).id != album_row(
                            list[i],
                            backend_idx,
                        ).id);
                    }
                }
            }
        }
        lemma_new_from(list, n, offset + size, start, next, backend_idx);
        assert(new + list.subrange((offset + size) as int, n as int).map_values(f)
            =~= list.subrange(offset as int, n as int).map_values(f));
    } else {
        assert(m == n - offset);
        assert(batch.take(m as int) =~= list.subrange(offset as int, n as int));
    }
}

/// Fetching only new albums fetches all of them and nothing else, where a
/// backend lists the new ones first.
pub proof fn incremental_crawl_catches_up(
    list: Seq<JsonView>,
    n: nat,
    known: Seq<Seq<char>>,
    backend_idx: usize,
)
    requires
        new_come_first(list, n, known, backend_idx),
    ensures
        new_from(list, 0, known, backend_idx) == list.take(n as int).map_values(
            |a: JsonView| album_row(a, backend_idx),
        ),
{
    lemma_new_from(list, n, 0, known, known, backend_idx);
    assert(list.subrange(0, n as int) =~= list.take(n as int));
}

// ── Albums that a backend no longer lists ───────────────────────

/// The identifiers of `cached` that are not among `listed`.
pub open spec fn stale_ids(cached: Seq<Seq<char>>, listed: Seq<Seq<char>>) -> Seq<Seq<char>> {
    cached.filter(|id: Seq<char>| !listed.contains(id))
}

/// The cached albums of a backend that are to be removed once everything was
/// fetched: those that the backend no longer lists.
pub fn stale_albums(cached: &Vec<String>, listed: &Vec<String>) -> (r: Vec<String>)
    ensures
        views(r@) == views(cached@).filter(|id: Seq<char>| !views(listed@).contains(id)),
{
    let ghost s = views(cached@);
    let ghost gone = |id: Seq<char>| !views(listed@).contains(id);
    let mut out: Vec<String> = Vec::new();
    let mut i: usize = 0;
    proof {
        reveal(Seq::filter);
        assert(s.take(0) =~= seq![]);
        assert(views(out@) =~= seq![]);
    }
    while i < cached.len()
        invariant
            i <= cached@.len(),
            s == views(cached@),
            gone == (|id: Seq<char>| !views(listed@).contains(id)),
            views(out@) == s.take(i as int).filter(gone),
        decreases cached@.len() - i,
    {
        let ghost before = out@;
        proof {
            reveal(Seq::filter);
            assert(s.take(i + 1).drop_last() =~= s.take(i as int));
            assert(s.take(i + 1).last() == cached@[i as int]@);
        }
        if !is_known(listed, cached[i].as_str()) {
            let id = cached[i].clone();
            out.push(id);
            assert(views(out@) =~= views(before).push(id@));
        }
        i += 1;
    }
    assert(s.take(i as int) =~= s);
    out
}

/// The cached albums after one was stored: over the row with its identifier,
/// which keeps the backend and the original identifier, else as a new row.
pub open spec fn album_stored(rows: Seq<CachedAlbumView>, new: CachedAlbumView) -> Seq<
    CachedAlbumView,
> {
    if has_album(rows, new.id) {
        rows.map_values(
            |a: CachedAlbumView|
                if a.id == new.id {
                    CachedAlbumView {
                        backend_idx: a.backend_idx,
                        original_id: a.original_id,
                        ..new
                    }
                } else {
                    a
                },
        )
    } else {
        rows.push(new)
    }
}

/// The cached albums after these were stored, one after the other.
pub open spec fn albums_stored(rows: Seq<CachedAlbumView>, new: Seq<CachedAlbumView>) -> Seq<
    CachedAlbumView,
>
    decreases new.len(),
{
    if new.len() == 0 {
        rows
    } else {
        album_stored(albums_stored(rows, new.drop_last()), new.last())
    }
}

/// The cached albums of a backend.
pub open spec fn albums_of(rows: Seq<CachedAlbumView>, backend_idx: usize) -> Seq<CachedAlbumView> {
    rows.filter(|a: CachedAlbumView| a.backend_idx == backend_idx)
}

/// The cached albums of all other backends.
pub open spec fn albums_of_others(rows: Seq<CachedAlbumView>, backend_idx: usize) -> Seq<
    CachedAlbumView,
> {
    rows.filter(|a: CachedAlbumView| a.backend_idx != backend_idx)
}

/// The cached albums after everything was fetched from a backend with this
/// list of albums: what was fetched is stored, and what is stale is removed.
pub open spec fn after_full_sync(
    rows: Seq<CachedAlbumView>,
    list: Seq<JsonView>,
    backend_idx: usize,
) -> Seq<CachedAlbumView> {
    let fetched = fetched_from(list, 0, backend_idx);
    let stored = albums_stored(rows, fetched);
    let stale = stale_ids(album_ids(albums_of(stored, backend_idx)), album_ids(fetched));
    stored.filter(|a: CachedAlbumView| !stale.contains(a.id))
}

/// Each cached album has the identifier that its backend and its original
/// identifier give, and no two have the same.
pub open spec fn albums_keyed(rows: Seq<CachedAlbumView>) -> bool {
    &&& forall|i: int|
        0 <= i < rows.len() ==> (#[trigger] rows[i]).id == namespaced_id(
            rows[i].backend_idx as nat,
            rows[i].original_id,
        )
    &&& forall|i: int, j: int|
        0 <= i < j < rows.len() ==> (#[trigger] rows[i]).id != (#[trigger] rows[j]).id
}

proof fn lemma_filter_keeps<A>(s: Seq<A>, p: spec_fn(A) -> bool)
    ensures
        forall|x: A| #[trigger] s.filter(p).contains(x) <==> s.contains(x) && p(x),
    decreases s.len(),
{
    reveal(Seq::filter);
    if s.len() > 0 {
        let d = s.drop_last();
        lemma_filter_keeps(d, p);
        let f = s.filter(p);
        assert forall|x: A| #[trigger] f.contains(x) <==> s.contains(x) && p(x) by {
            if f.contains(x) {
                let i = choose|i: int| 0 <= i < f.len() && f[i] == x;
                if i < d.filter(p).len() {
                    assert(d.filter(p)[i] == x);
                    assert(d.filter(p).contains(x));
                    let j = choose|j: int| 0 <= j < d.len() && d[j] == x;
                    assert(s[j] == x);
                } else {
                    assert(s[s.len() - 1] == x);
                }
            }
            if s.contains(x) && p(x) {
                let i = choose|i: int| 0 <= i < s.len() && s[i] == x;
                if i < d.len() {
                    assert(d[i] == x);
                    assert(d.filter(p).contains(x));
                    let j = choose|j: int| 0 <= j < d.filter(p).len() && d.filter(p)[j] == x;
                    assert(f[j] == x);
                } else {
                    assert(f[f.len() - 1] == x);
                }
            }
        }
    }
}

proof fn lemma_filter_twice<A>(s: Seq<A>, q: spec_fn(A) -> bool, p: spec_fn(A) -> bool)
    requires
        forall|i: int| 0 <= i < s.len() && p(#[trigger] s[i]) ==> q(s[i]),
    ensures
        s.filter(q).filter(p) == s.filter(p),
    decreases s.len(),
{
    reveal(Seq::filter);
    if s.len() > 0 {
        let d = s.drop_last();
        assert forall|i: int| 0 <= i < d.len() && p(#[trigger] d[i]) implies q(d[i]) by {
            assert(d[i] == s[i]);
        }
        lemma_filter_twice(d, q, p);
        assert(s[s.len() - 1] == s.last());
        if q(s.last()) {
            assert(s.filter(q).drop_last() =~= d.filter(q));
        }
    }
}

proof fn lemma_filter_map<A>(s: Seq<A>, f: spec_fn(A) -> A, p: spec_fn(A) -> bool)
    requires
        forall|i: int|
            0 <= i < s.len() ==> p(f(#[trigger] s[i])) == p(s[i]) && (p(s[i]) ==> f(s[i]) == s[i]),
    ensures
        s.map_values(f).filter(p) == s.filter(p),
    decreases s.len(),
{
    reveal(Seq::filter);
    if s.len() > 0 {
        let d = s.drop_last();
        assert forall|i: int| 0 <= i < d.len() implies p(f(#[trigger] d[i])) == p(d[i]) && (p(d[i])
            ==> f(d[i]) == d[i]) by {
            assert(d[i] == s[i]);
        }
        lemma_filter_map(d, f, p);
        assert(s.map_values(f).drop_last() =~= d.map_values(f));
        assert(s[s.len() - 1] == s.last());
    }
}

proof fn lemma_filter_keyed(rows: Seq<CachedAlbumView>, p: spec_fn(CachedAlbumView) -> bool)
    requires
        albums_keyed(rows),
    ensures
        albums_keyed(rows.filter(p)),
    decreases rows.len(),
{
    reveal(Seq::filter);
    if rows.len() > 0 {
        let d = rows.drop_last();
        assert forall|i: int| 0 <= i < d.len() implies d[i] == rows[i] by {}
        assert(albums_keyed(d)) by {
            assert forall|i: int| 0 <= i < d.len() implies (#[trigger] d[i]).id == namespaced_id(
                d[i].backend_idx as nat,
                d[i].original_id,
            ) by {
                assert(d[i] == rows[i]);
            }
            assert forall|i: int, j: int| 0 <= i < j < d.len() implies (#[trigger] d[i]).id != (
            #[trigger] d[j]).id by {
                assert(d[i] == rows[i] && d[j] == rows[j]);
            }
        }
        lemma_filter_keyed(d, p);
        lemma_filter_keeps(d, p);
        let f = rows.filter(p);
        let g = d.filter(p);
        assert(rows[rows.len() - 1] == rows.last());
        if p(rows.last()) {
            assert forall|i: int, j: int| 0 <= i < j < f.len() implies (#[trigger] f[i]).id != (
            #[trigger] f[j]).id by {
                if j < g.len() {
                    assert(f[i] == g[i] && f[j] == g[j]);
                } else {
                    assert(g.contains(g[i]));
                    let k = choose|k: int| 0 <= k < d.len() && d[k] == g[i];
                    assert(rows[k].id != rows[rows.len() - 1].id);
                }
            }
            assert forall|i: int| 0 <= i < f.len() implies (#[trigger] f[i]).id == namespaced_id(
                f[i].backend_idx as nat,
                f[i].original_id,
            ) by {
                if i < g.len() {
                    assert(f[i] == g[i]);
                }
            }
        }
    }
}

/// Some album of this backend has this identifier.
pub open spec fn lists_album(rows: Seq<CachedAlbumView>, backend_idx: usize, id: Seq<char>) -> bool {
    album_ids(albums_of(rows, backend_idx)).contains(id)
}

proof fn lemma_lists_album(rows: Seq<CachedAlbumView>, backend_idx: usize, id: Seq<char>)
    ensures
        lists_album(rows, backend_idx, id) <==> exists|i: int|
            0 <= i < rows.len() && (#[trigger] rows[i]).backend_idx == backend_idx && rows[i].id
                == id,
{
    let p = |a: CachedAlbumView| a.backend_idx == backend_idx;
    lemma_filter_keeps(rows, p);
    let f = albums_of(rows, backend_idx);
    assert(f == rows.filter(p));
    if lists_album(rows, backend_idx, id) {
        let k = choose|k: int| 0 <= k < f.len() && album_ids(f)[k] == id;
        assert(f.contains(f[k]));
        assert(rows.contains(f[k]));
        let i = choose|i: int| 0 <= i < rows.len() && rows[i] == f[k];
        assert(rows[i].id == id);
    }
    if exists|i: int|
        0 <= i < rows.len() && (#[trigger] rows[i]).backend_idx == backend_idx && rows[i].id
            == id {
        let i = choose|i: int|
            0 <= i < rows.len() && (#[trigger] rows[i]).backend_idx == backend_idx && rows[i].id
                == id;
        assert(rows.contains(rows[i]));
        assert(f.contains(rows[i]));
        let k = choose|k: int| 0 <= k < f.len() && f[k] == rows[i];
        assert(album_ids(f)[k] == id);
    }
}

proof fn lemma_same_backend(rows: Seq<CachedAlbumView>, i: int, backend_idx: usize)
    requires
        albums_keyed(rows),
        0 <= i < rows.len(),
        exists|original: Seq<char>| rows[i].id == #[trigger] namespaced_id(
            backend_idx as nat,
            original,
        ),
    ensures
        rows[i].backend_idx == backend_idx,
{
    let original = choose|original: Seq<char>|
        rows[i].id == #[trigger] namespaced_id(backend_idx as nat, original);
    id_round_trip(backend_idx as nat, original);
    id_round_trip(rows[i].backend_idx as nat, rows[i].original_id);
}

proof fn lemma_album_stored(rows: Seq<CachedAlbumView>, new: CachedAlbumView, id: Seq<char>)
    requires
        albums_keyed(rows),
        new.id == namespaced_id(new.backend_idx as nat, new.original_id),
    ensures
        albums_keyed(album_stored(rows, new)),
        albums_of_others(album_stored(rows, new), new.backend_idx) == albums_of_others(
            rows,
            new.backend_idx,
        ),
        lists_album(album_stored(rows, new), new.backend_idx, id) <==> (lists_album(
            rows,
            new.backend_idx,
            id,
        ) || id == new.id),
{
    let b = new.backend_idx;
    let after = album_stored(rows, new);
    let p = |a: CachedAlbumView| a.backend_idx != b;
    lemma_lists_album(rows, b, id);
    lemma_lists_album(after, b, id);
    if has_album(rows, new.id) {
        let f = |a: CachedAlbumView|
            if a.id == new.id {
                CachedAlbumView { backend_idx: a.backend_idx, original_id: a.original_id, ..new }
            } else {
                a
            };
        assert(after =~= rows.map_values(f));
        assert forall|i: int|
            0 <= i < rows.len() && (#[trigger] rows[i]).id == new.id implies rows[i].backend_idx
            == b by {
            lemma_same_backend(rows, i, b);
        }
        assert forall|i: int| 0 <= i < rows.len() implies {
            &&& (#[trigger] after[i]).id == rows[i].id
            &&& after[i].backend_idx == rows[i].backend_idx
            &&& after[i].original_id == rows[i].original_id
        } by {}
        lemma_filter_map(rows, f, p);
        assert(albums_keyed(after)) by {
            assert forall|i: int, j: int| 0 <= i < j < after.len() implies (#[trigger] after[i]).id
                != (#[trigger] after[j]).id by {
                assert(rows[i].id != rows[j].id);
            }
            assert forall|i: int| 0 <= i < after.len() implies (#[trigger] after[i]).id
                == namespaced_id(after[i].backend_idx as nat, after[i].original_id) by {
                assert(rows[i].id == namespaced_id(
                    rows[i].backend_idx as nat,
                    rows[i].original_id,
                ));
            }
        }
        let k = choose|k: int| 0 <= k < rows.len() && (#[trigger] rows[k]).id == new.id;
        assert(rows[k].backend_idx == b);
        assert(after[k].id == new.id && after[k].backend_idx == b);
        if lists_album(rows, b, id) {
            let i = choose|i: int|
                0 <= i < rows.len() && (#[trigger] rows[i]).backend_idx == b && rows[i].id == id;
            assert(after[i].backend_idx == b && after[i].id == id);
        }
        if lists_album(after, b, id) {
            let i = choose|i: int|
                0 <= i < after.len() && (#[trigger] after[i]).backend_idx == b && after[i].id == id;
            assert(rows[i].backend_idx == b && rows[i].id == id);
        }
    } else {
        reveal(Seq::filter);
        assert(after.drop_last() =~= rows);
        assert(after.last() == new);
        assert(after[rows.len() as int] == new);
        assert(albums_keyed(after)) by {
            assert forall|i: int, j: int| 0 <= i < j < after.len() implies (#[trigger] after[i]).id
                != (#[trigger] after[j]).id by {
                if j < rows.len() {
                    assert(rows[i].id != rows[j].id);
                } else {
                    assert(rows[i].id != new.id);
                }
            }
            assert forall|i: int| 0 <= i < after.len() implies (#[trigger] after[i]).id
                == namespaced_id(after[i].backend_idx as nat, after[i].original_id) by {
                if i < rows.len() {
                    assert(after[i] == rows[i]);
                }
            }
        }
        if lists_album(rows, b, id) {
            let i = choose|i: int|
                0 <= i < rows.len() && (#[trigger] rows[i]).backend_idx == b && rows[i].id == id;
            assert(after[i].backend_idx == b && after[i].id == id);
        }
        if lists_album(after, b, id) {
            let i = choose|i: int|
                0 <= i < after.len() && (#[trigger] after[i]).backend_idx == b && after[i].id == id;
            if i < rows.len() {
                assert(rows[i].backend_idx == b && rows[i].id == id);
            }
        }
    }
}

proof fn lemma_albums_stored(
    rows: Seq<CachedAlbumView>,
    list: Seq<JsonView>,
    backend_idx: usize,
    id: Seq<char>,
)
    requires
        albums_keyed(rows),
    ensures
        ({
            let new = list.map_values(|a: JsonView| album_row(a, backend_idx));
            let after = albums_stored(rows, new);
            &&& albums_keyed(after)
            &&& albums_of_others(after, backend_idx) == albums_of_others(rows, backend_idx)
            &&& lists_album(after, backend_idx, id) <==> (lists_album(rows, backend_idx, id)
                || album_ids(new).contains(id))
        }),
    decreases list.len(),
{
    let f = |a: JsonView| album_row(a, backend_idx);
    let new = list.map_values(f);
    if list.len() == 0 {
        assert(album_ids(new) =~= seq![]);
    } else {
        let d = list.drop_last();
        let dn = d.map_values(f);
        lemma_albums_stored(rows, d, backend_idx, id);
        assert(new.drop_last() =~= dn);
        assert(new.last() == f(list.last()));
        lemma_album_stored(albums_stored(rows, dn), new.last(), id);
        assert(album_ids(new) =~= album_ids(dn).push(new.last().id));
        if album_ids(dn).contains(id) {
            let k = choose|k: int| 0 <= k < dn.len() && album_ids(dn)[k] == id;
            assert(album_ids(new)[k] == id);
        }
        if id == new.last().id {
            assert(album_ids(new)[new.len() - 1] == id);
        }
        if album_ids(new).contains(id) {
            let k = choose|k: int| 0 <= k < new.len() && album_ids(new)[k] == id;
            if k < dn.len() {
                assert(album_ids(dn)[k] == id);
            }
        }
    }
}

/// Once everything was fetched from a backend, its cached albums are exactly
/// those that it lists, each once; the albums of other backends are as before.
pub proof fn full_sync_mirrors_the_backend(
    rows: Seq<CachedAlbumView>,
    list: Seq<JsonView>,
    backend_idx: usize,
    id: Seq<char>,
)
    requires
        albums_keyed(rows),
    ensures
        ({
            let after = after_full_sync(rows, list, backend_idx);
            let listed = list.map_values(|a: JsonView| album_row(a, backend_idx));
            &&& lists_album(after, backend_idx, id) <==> album_ids(listed).contains(id)
            &&& albums_of_others(after, backend_idx) == albums_of_others(rows, backend_idx)
            &&& albums_keyed(after)
        }),
{
    full_crawl_is_complete(list, backend_idx);
    let f = |a: JsonView| album_row(a, backend_idx);
    let fetched = list.map_values(f);
    let listed = album_ids(fetched);
    let stored = albums_stored(rows, fetched);
    let own = album_ids(albums_of(stored, backend_idx));
    let stale = stale_ids(own, listed);
    let keep = |a: CachedAlbumView| !stale.contains(a.id);
    let others = |a: CachedAlbumView| a.backend_idx != backend_idx;
    let after = stored.filter(keep);
    assert(after == after_full_sync(rows, list, backend_idx));
    lemma_albums_stored(rows, list, backend_idx, id);
    lemma_filter_keeps(own, |x: Seq<char>| !listed.contains(x));
    assert forall|i: int| 0 <= i < stored.len() && others(#[trigger] stored[i]) implies keep(
        stored[i],
    ) by {
        let x = stored[i].id;
        if stale.contains(x) {
            assert(own.contains(x));
            lemma_lists_album(stored, backend_idx, x);
            let k = choose|k: int|
                0 <= k < stored.len() && (#[trigger] stored[k]).backend_idx == backend_idx
                    && stored[k].id == x;
            assert(stored[i].id == stored[k].id);
            if i < k {
                assert(stored[i].id != stored[k].id);
            } else if k < i {
                assert(stored[k].id != stored[i].id);
            }
        }
    }
    lemma_filter_twice(stored, keep, others);
    lemma_filter_keyed(stored, keep);
    lemma_filter_keeps(stored, keep);
    lemma_lists_album(stored, backend_idx, id);
    lemma_lists_album(after, backend_idx, id);
    if lists_album(after, backend_idx, id) {
        let i = choose|i: int|
            0 <= i < after.len() && (#[trigger] after[i]).backend_idx == backend_idx && after[i].id
                == id;
        assert(after.contains(after[i]));
        assert(stored.contains(after[i]) && keep(after[i]));
        let k = choose|k: int| 0 <= k < stored.len() && stored[k] == after[i];
        assert(stored[k].backend_idx == backend_idx && stored[k].id == id);
        assert(own.contains(id));
        assert(!stale.contains(id));
    }
    if listed.contains(id) {
        assert(lists_album(stored, backend_idx, id));
        let k = choose|k: int|
            0 <= k < stored.len() && (#[trigger] stored[k]).backend_idx == backend_idx
                && stored[k].id == id;
        assert(!stale.contains(id));
        assert(stored.contains(stored[k]) && keep(stored[k]));
        assert(after.contains(stored[k]));
        let i = choose|i: int| 0 <= i < after.len() && after[i] == stored[k];
        assert(after[i].backend_idx == backend_idx && after[i].id == id);
    }
}

// ── When to fetch ───────────────────────────────────────────────

/// What brings a refresh about.
#[derive(Debug, Clone, Copy)]
pub enum RefreshCause {
    /// The program has started.
    Startup,
    /// The time between two refreshes has passed.
    Interval,
    /// It was asked for on the command line.
    Command,
}

/// Whether a refresh fetches only what is new, as far as it can: on startup and
/// at intervals. A refresh that was asked for fetches everything.
pub fn is_incremental(cause: RefreshCause) -> (r: bool)
    ensures
        r == (cause is Startup || cause is Interval),
{
    match cause {
        RefreshCause::Startup => true,
        RefreshCause::Interval => true,
        RefreshCause::Command => false,
    }
}

/// What the refresh of a backend does next.
#[derive(Debug)]
pub enum RefreshStep {
    /// Ask for its artist index, if it has changed since.
    AskIndexes { since: i64 },
    /// Ask for its newest album.
    AskNewest,
    /// Fetch everything.
    FullSync,
    /// Fetch what is new.
    IncrementalSync,
    /// Nothing: the backend is unchanged.
    Skip,
}

/// The time of the last change that was stored for a backend.
pub open spec fn stored_time(stored: Option<Seq<char>>) -> Option<int> {
    match stored {
        Some(text) => in_i64(integer_value(text)),
        None => None,
    }
}

/// How the refresh of a backend starts: a backend of which the last change is
/// known is asked whether there was another; all others are fetched whole.
pub fn refresh_backend(incremental: bool, stored: Option<&String>) -> (r: RefreshStep)
    ensures
        match stored_time(
            match stored {
                Some(s) => Some(s@),
                None => None,
            },
        ) {
            Some(t) => if incremental {
                r == (RefreshStep::AskIndexes { since: t as i64 })
            } else {
                r is FullSync
            },
            None => r is FullSync,
        },
{
    if incremental {
        match stored {
            Some(text) => match parse_i64(text.as_str()) {
                Some(since) => RefreshStep::AskIndexes { since },
                None => RefreshStep::FullSync,
            },
            None => RefreshStep::FullSync,
        }
    } else {
        RefreshStep::FullSync
    }
}

/// When an artist index last changed, if it says so as a number.
pub open spec fn changed_at(resp: JsonView) -> Option<i64> {
    match resp.get("indexes"@) {
        Some(i) => i.get_signed("lastModified"@),
        None => None,
    }
}

/// When an artist index last changed, if it says so as a number or a text.
pub open spec fn changed_at_any(resp: JsonView) -> Option<int> {
    match changed_at(resp) {
        Some(t) => Some(t as int),
        None => match resp.get("indexes"@) {
            Some(i) => match i.get_text("lastModified"@) {
                Some(s) => in_i64(integer_value(s)),
                None => None,
            },
            None => None,
        },
    }
}

/// When an artist index last changed, to be remembered.
pub fn last_modified(resp: &Json) -> (r: Option<i64>)
    ensures
        r == changed_at(resp@),
{
    match resp.get("indexes") {
        Some(i) => i.get_i64("lastModified"),
        None => None,
    }
}

/// What follows the answer to [`RefreshStep::AskIndexes`]. The index covers
/// artists only: if it is unchanged, there may still be new albums.
pub fn after_indexes(resp: &Json, since: i64) -> (r: RefreshStep)
    ensures
        match changed_at_any(resp@) {
            Some(t) => if t <= since {
                r is AskNewest
            } else {
                r is IncrementalSync
            },
            None => r is IncrementalSync,
        },
{
    let at = match last_modified(resp) {
        Some(t) => Some(t),
        None => match resp.get("indexes") {
            Some(i) => match i.get_str("lastModified") {
                Some(s) => parse_i64(s.as_str()),
                None => None,
            },
            None => None,
        },
    };
    match at {
        Some(t) => if t <= since {
            RefreshStep::AskNewest
        } else {
            RefreshStep::IncrementalSync
        },
        None => RefreshStep::IncrementalSync,
    }
}

/// When the newest album of a backend was created, if the backend says so.
pub open spec fn newest_created(resp: JsonView) -> Option<Seq<char>> {
    let albums = resp.items_in("albumList2"@, "album"@);
    if albums.len() > 0 {
        albums[0].get_text("created"@)
    } else {
        None
    }
}

/// What follows the answer to [`RefreshStep::AskNewest`]: the backend is
/// unchanged if its newest album is no newer than the newest in the cache. If
/// the two cannot be compared, it counts as changed.
pub fn check_new_albums(cached_newest: Option<&String>, resp: &Json) -> (r: RefreshStep)
    ensures
        match (cached_newest, newest_created(resp@)) {
            (Some(c), Some(b)) => if text_less(c@, b) {
                r is IncrementalSync
            } else {
                r is Skip
            },
            _ => r is IncrementalSync,
        },
{
    let albums = resp.copy_items("albumList2", "album");
    assert(views(albums@).len() == albums@.len());
    match cached_newest {
        Some(c) => if albums.len() > 0 {
            assert(views(albums@)[0] == albums@[0]@);
            match albums[0].get_str("created") {
                Some(b) => if str_less(c.as_str(), b.as_str()) {
                    RefreshStep::IncrementalSync
                } else {
                    RefreshStep::Skip
                },
                None => RefreshStep::IncrementalSync,
            }
        } else {
            RefreshStep::IncrementalSync
        },
        None => RefreshStep::IncrementalSync,
    }
}

/// Whether duplicates are to be looked for after a refresh: if some backend has
/// changed. A backend whose refresh failed has not.
pub fn any_changed(results: &Vec<Option<bool>>) -> (r: bool)
    ensures
        r == results@.contains(Some(true)),
{
    let mut i: usize = 0;
    while i < results.len()
        invariant
            i <= results@.len(),
            forall|j: int| 0 <= j < i ==> results@[j] != Some(true),
        decreases results@.len() - i,
    {
        match results[i] {
            Some(c) => {
                if c {
                    assert(results@[i as int] == Some(true));
                    return true;
                }
            },
            None => {},
        }
        i += 1;
    }
    false
}

/// The time, in seconds since 1970, as text.
pub fn epoch_now_str() -> (r: String)
    ensures
        exists|t: u64| #[trigger] call_ensures(now_secs, (), t) && r@ == decimal(t as nat),
{
    let t = now_secs();
    decimal_string(t as u128)
}

// ── Laws of what is cached ──────────────────────────────────────

/// A cached song says what its backend says of it: its title, by which it is
/// found in lower case, its artist and album, number, length and format. It
/// carries the identifier that leads back to the backend and belongs to the
/// album that was asked for.
pub proof fn cached_songs_say_what_backends_say(
    song: JsonView,
    backend_idx: usize,
    album_id: Seq<char>,
)
    ensures
        ({
            let r = track_row(song, backend_idx, album_id);
            &&& song.get("title"@) matches Some(JsonView::Text(t)) ==> r.title == t && r.title_norm
                == trimmed(lowercase(t))
            &&& song.get("title"@) is None ==> r.title == ""@
            &&& song.get("id"@) matches Some(JsonView::Text(id)) ==> r.original_id == id && r.id
                == namespaced_id(backend_idx as nat, id)
            &&& song.get("artist"@) matches Some(JsonView::Text(a)) ==> r.artist == Some(a)
            &&& song.get("artist"@) is None ==> r.artist is None
            &&& song.get("album"@) matches Some(JsonView::Text(a)) ==> r.album == Some(a)
            &&& song.get("album"@) is None ==> r.album is None
            &&& r.track_number == song.get_signed("track"@)
            &&& r.duration == song.get_signed("duration"@)
            &&& r.bitrate == song.get_signed("bitRate"@)
            &&& r.content_type == song.get_text("contentType"@)
            &&& r.suffix == song.get_text("suffix"@)
            &&& r.album_id == album_id
            &&& r.backend_idx == backend_idx
            &&& r.data == namespaced(song, backend_idx as nat)
        }),
{
}

/// A cached album says what its backend says of it, and the identifiers of it
/// and of its artist lead back to the backend.
pub proof fn cached_albums_say_what_backends_say(album: JsonView, backend_idx: usize)
    ensures
        ({
            let r = album_row(album, backend_idx);
            &&& album.get("name"@) matches Some(JsonView::Text(t)) ==> r.name == t && r.name_norm
                == trimmed(lowercase(t))
            &&& album.get("name"@) is None ==> r.name == ""@
            &&& album.get("id"@) matches Some(JsonView::Text(id)) ==> r.original_id == id && r.id
                == namespaced_id(backend_idx as nat, id)
            &&& album.get("artist"@) matches Some(JsonView::Text(a)) ==> r.artist == Some(a)
            &&& album.get("artist"@) is None ==> r.artist is None
            &&& album.get("artistId"@) matches Some(JsonView::Text(a)) ==> r.artist_id == Some(
                namespaced_id(backend_idx as nat, a),
            )
            &&& album.get("artistId"@) is None ==> r.artist_id is None
            &&& r.year == album.get_signed("year"@)
            &&& r.genre == album.get_text("genre"@)
            &&& album.get_signed("songCount"@) matches Some(n) ==> r.song_count == n
            &&& album.get_signed("songCount"@) is None ==> r.song_count == 0
            &&& album.get_signed("duration"@) matches Some(n) ==> r.duration == n
            &&& album.get_signed("duration"@) is None ==> r.duration == 0
            &&& r.backend_idx == backend_idx
            &&& r.data == namespaced(album, backend_idx as nat)
        }),
{
}

/// A cached artist says what its backend says of it.
pub proof fn cached_artists_say_what_backends_say(artist: JsonView, backend_idx: usize)
    ensures
        ({
            let r = artist_row(artist, backend_idx);
            &&& artist.get("name"@) matches Some(JsonView::Text(t)) ==> r.name == t && r.name_norm
                == trimmed(lowercase(t))
            &&& artist.get("name"@) is None ==> r.name == ""@
            &&& artist.get("id"@) matches Some(JsonView::Text(id)) ==> r.original_id == id && r.id
                == namespaced_id(backend_idx as nat, id)
            &&& artist.get_signed("albumCount"@) matches Some(n) ==> r.album_count == n
            &&& artist.get_signed("albumCount"@) is None ==> r.album_count == 0
            &&& r.backend_idx == backend_idx
            &&& r.data == namespaced(artist, backend_idx as nat)
        }),
{
}

/// The artists of an index are all that its entries list, one entry after the
/// other.
pub proof fn indexes_list_every_artist(indexes: Seq<JsonView>)
    ensures
        indexed_artists(indexes) == indexes.map_values(
            |e: JsonView| e.items("artist"@),
        ).flatten(),
    decreases indexes.len(),
{
    lemma_flat_end(indexes, |e: JsonView| e.items("artist"@));
    if indexes.len() > 0 {
        indexes_list_every_artist(indexes.drop_last());
    }
}

/// A song that a backend lists is found in the cache by a search for its title,
/// or for any part of it, unless a better copy is found in its place.
pub proof fn cached_songs_are_found_by_title(
    song: JsonView,
    backend_idx: usize,
    album_id: Seq<char>,
    rows: Seq<TrackEntryView>,
    ms: Seq<MemberEntryView>,
    i: int,
    query: Seq<char>,
    before: Seq<char>,
    after: Seq<char>,
)
    requires
        song.get("title"@) matches Some(JsonView::Text(t)) && trimmed(lowercase(t)) == before
            + lowercase(query) + after,
        0 <= i < rows.len(),
        rows[i] == (TrackEntryView {
            id: track_row(song, backend_idx, album_id).id,
            title_norm: track_row(song, backend_idx, album_id).title_norm,
            data: track_row(song, backend_idx, album_id).data,
        }),
        !hidden(ms, "track"@, rows[i].id),
    ensures
        matching_tracks(rows, ms, pattern_of(query)).contains(
            namespaced(song, backend_idx as nat),
        ),
{
    held_titles_are_found(rows, ms, query, i, before, after);
}

/// When an artist index last changed is read from its number, or from its text
/// where it is no number.
pub proof fn changes_are_read_from_the_index(resp: JsonView, t: i64, n: nat)
    ensures
        resp.get("indexes"@) matches Some(x) ==> {
            &&& x.get_signed("lastModified"@) == Some(t) ==> changed_at(resp) == Some(t)
                && changed_at_any(resp) == Some(t as int)
            &&& x.get("lastModified"@) == Some(JsonView::Text(decimal(n))) && n <= i64::MAX
                ==> changed_at(resp) is None && changed_at_any(resp) == Some(n as int)
            &&& x.get("lastModified"@) is None ==> changed_at_any(resp) is None
        },
        resp.get("indexes"@) is None ==> changed_at_any(resp) is None,
        n <= i64::MAX ==> stored_time(Some(decimal(n))) == Some(n as int),
{
    decimal_read_back(n);
    decimal_starts_with_digit(n);
}

/// The newest album of a backend is the first that it lists.
pub proof fn newest_album_is_the_first(resp: JsonView, c: Seq<char>)
    ensures
        resp.items_in("albumList2"@, "album"@).len() == 0 ==> newest_created(resp) is None,
        resp.items_in("albumList2"@, "album"@).len() > 0 && resp.items_in(
            "albumList2"@,
            "album"@,
        )[0].get("created"@) == Some(JsonView::Text(c)) ==> newest_created(resp) == Some(c),
{
}

/// Every album that a batch brings as new is one of the batch.
pub proof fn new_albums_come_from_the_batch(
    albums: Seq<JsonView>,
    known: Seq<Seq<char>>,
    backend_idx: usize,
    i: int,
) -> (k: int)
    requires
        0 <= i < new_albums(albums, known, backend_idx).len(),
    ensures
        0 <= k < albums.len(),
        new_albums(albums, known, backend_idx)[i] == album_row(albums[k], backend_idx),
    decreases albums.len(),
{
    let d = albums.drop_last();
    if albums.len() == 0 {
        0
    } else if i < new_albums(d, known, backend_idx).len() {
        let k = new_albums_come_from_the_batch(d, known, backend_idx, i);
        assert(d[k] == albums[k]);
        k
    } else {
        albums.len() - 1
    }
}

/// An album that is stored again has all that is new of it and stays with its
/// backend; one that was not stored is put behind the others. No other album
/// changes.
pub proof fn stored_albums_take_what_is_new(
    rows: Seq<CachedAlbumView>,
    new: CachedAlbumView,
    i: int,
)
    ensures
        (forall|j: int| 0 <= j < rows.len() ==> (#[trigger] rows[j]).id != new.id) ==> album_stored(
            rows,
            new,
        ) == rows.push(new),
        0 <= i < rows.len() && rows[i].id == new.id ==> album_stored(rows, new)[i] == (
        CachedAlbumView {
            backend_idx: rows[i].backend_idx,
            original_id: rows[i].original_id,
            ..new
        }) && album_stored(rows, new).len() == rows.len(),
        0 <= i < rows.len() && rows[i].id != new.id ==> album_stored(rows, new)[i] == rows[i],
{
}

/// Batches are as large as the crawl asks for, and counts stop at the largest
/// number.
pub proof fn crawls_ask_for_their_batches(c: Crawl, a: usize, b: nat)
    ensures
        c.incremental ==> c.batch_size() == 50,
        !c.incremental ==> c.batch_size() == 500,
        a + b <= usize::MAX ==> capped_sum(a, b) == a + b,
        a + b > usize::MAX ==> capped_sum(a, b) == usize::MAX,
{
}

} // verus!
