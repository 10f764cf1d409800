//! Playlists that this node keeps itself.

use crate::error::{FugueError, FugueErrorView};
use crate::id::{make_token, readable, token, token_round_trip, try_read_token};
use crate::json::{
    integer, object, reading_after_setting, whole, Json, JsonView, NumberView,
};
use crate::social::collab_playlist::{collab_id, collab_uuid};
use crate::social::party::uuid_v4;
use crate::seqs::{lemma_filter_end, lemma_pick_end};
use crate::sorting::{
    ranking, sort, sorting_the_sorted_changes_nothing, stable_sort, Ranked,
};
use crate::strs::{after_prefix, concat2, opt_text, str_eq, strip_prefix, views};
use crate::subsonic::models::{namespaced, namespaced_copy, namespacing_reaches_everything};
use vstd::prelude::*;

verus! {

// ── Identifiers ─────────────────────────────────────────────────

/// The identifier of a playlist of this node.
pub open spec fn local_playlist_id(uuid: Seq<char>) -> Seq<char> {
    token("m:"@ + uuid)
}

/// The playlist that an identifier names, if it names one of this node.
pub open spec fn local_playlist_uuid(namespaced: Seq<char>) -> Option<Seq<char>> {
    match readable(namespaced) {
        Some(raw) => after_prefix(raw, "m:"@),
        None => None,
    }
}

/// Encodes the ID of a local playlist: base64url("m:{uuid}").
pub fn encode_local_playlist_id(uuid: &str) -> (r: String)
    ensures
        r@ == local_playlist_id(uuid@),
{
    make_token(concat2("m:", uuid).as_str())
}

/// Decodes the ID of a local playlist.
pub fn decode_local_playlist_id(namespaced: &str) -> (r: Option<String>)
    ensures
        opt_text(r) == local_playlist_uuid(namespaced@),
{
    match try_read_token(namespaced) {
        Some(raw) => strip_prefix(raw.as_str(), "m:"),
        None => None,
    }
}

/// Whether an ID is that of a local playlist.
pub fn is_local_playlist_id(namespaced: &str) -> (r: bool)
    ensures
        r == local_playlist_uuid(namespaced@) is Some,
{
    match decode_local_playlist_id(namespaced) {
        Some(_) => true,
        None => false,
    }
}

/// An identifier of a local playlist gives the playlist back.
pub proof fn local_playlist_id_round_trip(uuid: Seq<char>)
    ensures
        local_playlist_uuid(local_playlist_id(uuid)) == Some(uuid),
{
    let raw = "m:"@ + uuid;
    token_round_trip(raw);
    assert(raw.take("m:"@.len() as int) =~= "m:"@);
    assert(raw.skip("m:"@.len() as int) =~= uuid);
}

/// Identifiers of local playlists and of collaborative ones are never mistaken
/// for each other.
pub proof fn playlist_kinds_are_told_apart(uuid: Seq<char>)
    ensures
        collab_uuid(local_playlist_id(uuid)) is None,
        local_playlist_uuid(collab_id(uuid)) is None,
{
    reveal_strlit("m:");
    reveal_strlit("c:");
    token_round_trip("m:"@ + uuid);
    token_round_trip("c:"@ + uuid);
    assert(("m:"@ + uuid).take(2)[0] == 'm');
    assert(("c:"@ + uuid).take(2)[0] == 'c');
}

// ── Playlists ───────────────────────────────────────────────────

/// A stored playlist.
#[derive(Debug)]
pub struct PlaylistRow {
    pub id: String,
    pub name: String,
    pub comment: String,
    pub public: bool,
    pub owner: String,
    pub created: String,
}

/// What a stored playlist holds, as characters.
pub struct PlaylistRowView {
    pub id: Seq<char>,
    pub name: Seq<char>,
    pub comment: Seq<char>,
    pub public: bool,
    pub owner: Seq<char>,
    pub created: Seq<char>,
}

impl View for PlaylistRow {
    type V = PlaylistRowView;

    open spec fn view(&self) -> PlaylistRowView {
        PlaylistRowView {
            id: self.id@,
            name: self.name@,
            comment: self.comment@,
            public: self.public,
            owner: self.owner@,
            created: self.created@,
        }
    }
}

/// A fresh playlist. Its identifier is a random UUID; it has no comment and
/// only its owner sees it.
pub fn create_playlist(name: &str, owner: &str, created: &str) -> (r: PlaylistRow)
    ensures
        call_ensures(uuid_v4, (), r.id),
        r@ == (PlaylistRowView {
            id: r.id@,
            name: name@,
            comment: ""@,
            public: false,
            owner: owner@,
            created: created@,
        }),
{
    PlaylistRow {
        id: uuid_v4(),
        name: name.to_owned(),
        comment: "".to_owned(),
        public: false,
        owner: owner.to_owned(),
        created: created.to_owned(),
    }
}

/// What clients are shown of a playlist.
pub open spec fn playlist_head(p: PlaylistRowView, song_count: JsonView) -> JsonView {
    object().with("id"@, JsonView::Text(local_playlist_id(p.id))).with(
        "name"@,
        JsonView::Text(p.name),
    ).with("comment"@, JsonView::Text(p.comment)).with("public"@, JsonView::Bool(p.public)).with(
        "owner"@,
        JsonView::Text(p.owner),
    ).with("songCount"@, song_count).with("duration"@, integer(0)).with(
        "created"@,
        JsonView::Text(p.created),
    ).with("changed"@, JsonView::Text(p.created))
}

fn head_of(p: &PlaylistRow, song_count: Json) -> (r: Json)
    ensures
        r@ == playlist_head(p@, song_count@),
{
    Json::object().with_text("id", encode_local_playlist_id(p.id.as_str()).as_str()).with_text(
        "name",
        p.name.as_str(),
    ).with_text("comment", p.comment.as_str()).with("public", Json::Bool(p.public)).with_text(
        "owner",
        p.owner.as_str(),
    ).with("songCount", song_count).with("duration", Json::integer(0)).with_text(
        "created",
        p.created.as_str(),
    ).with_text("changed", p.created.as_str())
}

/// A user sees a playlist that is their own or public.
pub open spec fn visible_to(p: PlaylistRowView, username: Seq<char>) -> bool {
    p.owner == username || p.public
}

/// What a user is shown of the playlists, each with its number of tracks.
pub open spec fn shown_playlists(
    rows: Seq<(PlaylistRowView, i64)>,
    username: Seq<char>,
) -> Seq<JsonView>
    decreases rows.len(),
{
    if rows.len() == 0 {
        seq![]
    } else {
        let rest = shown_playlists(rows.drop_last(), username);
        let (p, n) = rows.last();
        if visible_to(p, username) {
            rest.push(playlist_head(p, integer(n as int)))
        } else {
            rest
        }
    }
}

/// Playlists with their numbers of tracks, as characters and numbers.
pub open spec fn counted_views(rows: Seq<(PlaylistRow, i64)>) -> Seq<(PlaylistRowView, i64)> {
    rows.map_values(|t: (PlaylistRow, i64)| (t.0@, t.1))
}

/// The playlists that a user sees: their own and the public ones.
pub fn get_playlists_for_user(rows: &Vec<(PlaylistRow, i64)>, username: &str) -> (r: Vec<Json>)
    ensures
        views(r@) == shown_playlists(counted_views(rows@), username@),
{
    let ghost s = counted_views(rows@);
    let mut out: Vec<Json> = Vec::new();
    let mut i: usize = 0;
    assert(s.take(0) =~= seq![]);
    assert(views(out@) =~= seq![]);
    while i < rows.len()
        invariant
            i <= rows@.len(),
            s == counted_views(rows@),
            views(out@) == shown_playlists(s.take(i as int), username@),
        decreases rows@.len() - i,
    {
        let ghost before = out@;
        proof {
            assert(s.take(i + 1).drop_last() =~= s.take(i as int));
            assert(s.take(i + 1).last() == (rows@[i as int].0@, rows@[i as int].1));
        }
        let p = &rows[i].0;
        if str_eq(p.owner.as_str(), username) || p.public {
            let h = head_of(p, Json::integer(rows[i].1));
            out.push(h);
            assert(views(out@) =~= views(before).push(h@));
        }
        i += 1;
    }
    assert(s.take(i as int) =~= s);
    out
}

/// The song in a backend's answer, with its identifiers namespaced.
pub open spec fn song_in(answer: Option<(usize, JsonView)>) -> Option<JsonView> {
    match answer {
        Some((backend, resp)) => namespaced(resp, backend as nat).get("song"@),
        None => None,
    }
}

/// A track of a playlist: what its backend says of it, else its identifier.
pub open spec fn resolved_entry(
    track_id: Seq<char>,
    answer: Option<(usize, JsonView)>,
) -> JsonView {
    match song_in(answer) {
        Some(song) => song,
        None => object().with("id"@, JsonView::Text(track_id)),
    }
}

/// A backend's answer, as characters and numbers.
pub open spec fn answer_view(answer: Option<(usize, Json)>) -> Option<(usize, JsonView)> {
    match answer {
        Some((backend, resp)) => Some((backend, resp@)),
        None => None,
    }
}

/// A track of a playlist, resolved.
pub fn resolve_entry(track_id: &str, answer: &Option<(usize, Json)>) -> (r: Json)
    ensures
        r@ == resolved_entry(track_id@, answer_view(*answer)),
{
    match answer {
        Some((backend, resp)) => {
            let n = namespaced_copy(resp, *backend);
            match n.get("song") {
                Some(song) => song.clone(),
                None => Json::object().with_text("id", track_id),
            }
        },
        None => Json::object().with_text("id", track_id),
    }
}

/// What clients are shown of a playlist with its tracks.
pub open spec fn local_playlist(
    p: PlaylistRowView,
    tracks: Seq<Seq<char>>,
    answers: Seq<Option<(usize, JsonView)>>,
) -> JsonView {
    object().with(
        "playlist"@,
        playlist_head(p, whole(tracks.len())).with(
            "entry"@,
            JsonView::Array(
                Seq::new(tracks.len(), |i: int| resolved_entry(tracks[i], answers[i])),
            ),
        ),
    )
}

/// A playlist with its tracks. `answers` holds for each track what its backend
/// answered, if it did.
pub fn get_playlist(
    row: Option<&PlaylistRow>,
    tracks: &Vec<String>,
    answers: &Vec<Option<(usize, Json)>>,
) -> (r: Result<Json, FugueError>)
    requires
        tracks@.len() == answers@.len(),
    ensures
        match row {
            Some(p) => r matches Ok(j) && j@ == local_playlist(
                p@,
                views(tracks@),
                answers@.map_values(|a: Option<(usize, Json)>| answer_view(a)),
            ),
            None => r matches Err(e) && e@ == FugueErrorView::NotFound("Playlist not found"@),
        },
{
    match row {
        None => Err(FugueError::NotFound("Playlist not found".to_owned())),
        Some(p) => {
            let ghost av = answers@.map_values(|a: Option<(usize, Json)>| answer_view(a));
            let ghost want = Seq::new(
                tracks@.len(),
                |i: int| resolved_entry(views(tracks@)[i], av[i]),
            );
            let mut entries: Vec<Json> = Vec::new();
            let mut i: usize = 0;
            while i < tracks.len()
                invariant
                    i <= tracks@.len(),
                    tracks@.len() == answers@.len(),
                    av == answers@.map_values(|a: Option<(usize, Json)>| answer_view(a)),
                    want == Seq::new(
                        tracks@.len(),
                        |i: int| resolved_entry(views(tracks@)[i], av[i]),
                    ),
                    views(entries@) == want.take(i as int),
                decreases tracks@.len() - i,
            {
                let ghost before = entries@;
                let e = resolve_entry(tracks[i].as_str(), &answers[i]);
                entries.push(e);
                assert(want[i as int] == e@);
                assert(views(entries@) =~= views(before).push(e@));
                assert(want.take(i + 1) =~= want.take(i as int).push(e@));
                i += 1;
            }
            assert(want.take(i as int) =~= want);
            assert(views(tracks@).len() == tracks@.len());
            let count: u64 = tracks.len() as u64;
            Ok(
                Json::object().with(
                    "playlist",
                    head_of(p, Json::whole(count)).with("entry", Json::array(entries)),
                ),
            )
        },
    }
}

/// A playlist after an update; what is not given stays.
pub open spec fn updated_playlist(
    p: PlaylistRowView,
    name: Option<Seq<char>>,
    comment: Option<Seq<char>>,
    public: Option<bool>,
) -> PlaylistRowView {
    PlaylistRowView {
        id: p.id,
        name: match name {
            Some(n) => n,
            None => p.name,
        },
        comment: match comment {
            Some(c) => c,
            None => p.comment,
        },
        public: match public {
            Some(b) => b,
            None => p.public,
        },
        owner: p.owner,
        created: p.created,
    }
}

/// Updates a playlist; what is not given stays.
pub fn update_playlist(
    row: &mut PlaylistRow,
    name: Option<String>,
    comment: Option<String>,
    public: Option<bool>,
)
    ensures
        final(row)@ == updated_playlist(old(row)@, opt_text(name), opt_text(comment), public),
        name matches Some(n) ==> final(row).name@ == n@,
        name is None ==> final(row).name@ == old(row).name@,
        comment matches Some(c) ==> final(row).comment@ == c@,
        comment is None ==> final(row).comment@ == old(row).comment@,
        public matches Some(p) ==> final(row).public == p,
        public is None ==> final(row).public == old(row).public,
        final(row).id@ == old(row).id@,
        final(row).owner@ == old(row).owner@,
        final(row).created@ == old(row).created@,
{
    match name {
        Some(n) => {
            row.name = n;
        },
        None => {},
    }
    match comment {
        Some(c) => {
            row.comment = c;
        },
        None => {},
    }
    match public {
        Some(b) => {
            row.public = b;
        },
        None => {},
    }
}

// ── Tracks ──────────────────────────────────────────────────────

/// A track at its position in a playlist.
#[derive(Debug)]
pub struct PlacedTrack {
    pub position: i64,
    pub track_id: String,
}

impl View for PlacedTrack {
    type V = (i64, Seq<char>);

    open spec fn view(&self) -> (i64, Seq<char>) {
        (self.position, self.track_id@)
    }
}

impl Clone for PlacedTrack {
    fn clone(&self) -> (r: Self)
        ensures
            r@ == self@,
    {
        PlacedTrack { position: self.position, track_id: self.track_id.clone() }
    }
}

impl Ranked for PlacedTrack {
    open spec fn leq(a: (i64, Seq<char>), b: (i64, Seq<char>)) -> bool {
        a.0 <= b.0
    }

    proof fn leq_total(a: (i64, Seq<char>), b: (i64, Seq<char>)) {
    }

    proof fn leq_transitive(a: (i64, Seq<char>), b: (i64, Seq<char>), c: (i64, Seq<char>)) {
    }

    fn may_precede(&self, other: &Self) -> (r: bool) {
        self.position <= other.position
    }
}

/// The highest position in use, minus one if there is none.
pub open spec fn last_position(s: Seq<(i64, Seq<char>)>) -> int
    decreases s.len(),
{
    if s.len() == 0 {
        -1
    } else if s.len() == 1 || s.last().0 > last_position(s.drop_last()) {
        s.last().0 as int
    } else {
        last_position(s.drop_last())
    }
}

/// The tracks of a playlist with `ids` placed after all others.
pub open spec fn with_tracks(s: Seq<(i64, Seq<char>)>, ids: Seq<Seq<char>>) -> Seq<
    (i64, Seq<char>),
> {
    let first = last_position(s) + 1;
    s + Seq::new(ids.len(), |i: int| ((first + i) as i64, ids[i]))
}

fn find_last_position(tracks: &Vec<PlacedTrack>) -> (r: i64)
    ensures
        r == last_position(views(tracks@)),
{
    let ghost s = views(tracks@);
    let mut last: i64 = -1;
    let mut i: usize = 0;
    assert(s.take(0) =~= seq![]);
    while i < tracks.len()
        invariant
            i <= tracks@.len(),
            s == views(tracks@),
            last == last_position(s.take(i as int)),
        decreases tracks@.len() - i,
    {
        proof {
            assert(s.take(i + 1).drop_last() =~= s.take(i as int));
            assert(s.take(i + 1).last() == tracks@[i as int]@);
        }
        if i == 0 || tracks[i].position > last {
            last = tracks[i].position;
        }
        i += 1;
    }
    assert(s.take(i as int) =~= s);
    last
}

/// Adds tracks at the end of a playlist.
pub fn add_tracks_to_playlist(tracks: &mut Vec<PlacedTrack>, track_ids: &Vec<String>)
    requires
        last_position(views(old(tracks)@)) + track_ids@.len() < i64::MAX,
    ensures
        views(final(tracks)@) == with_tracks(views(old(tracks)@), views(track_ids@)),
{
    let ghost s = views(tracks@);
    let ghost ids = views(track_ids@);
    let last = find_last_position(tracks);
    let ghost want = with_tracks(s, ids);
    let ghost first = last_position(s) + 1;
    let mut k: usize = 0;
    assert(want.take(s.len() as int) =~= s);
    while k < track_ids.len()
        invariant
            k <= track_ids@.len(),
            ids == views(track_ids@),
            first == last + 1,
            last + track_ids@.len() < i64::MAX,
            want == s + Seq::new(ids.len(), |i: int| ((first + i) as i64, ids[i])),
            views(tracks@) == want.take(s.len() + k),
        decreases track_ids@.len() - k,
    {
        let ghost before = tracks@;
        let t = PlacedTrack {
            position: (last as i128 + 1 + k as i128) as i64,
            track_id: track_ids[k].clone(),
        };
        let ghost tv = t@;
        tracks.push(t);
        proof {
            assert(want[s.len() + k] == tv);
            assert(views(tracks@) =~= views(before).push(tv));
            assert(want.take(s.len() + k + 1) =~= want.take(s.len() + k).push(tv));
        }
        k += 1;
    }
    assert(want.take(s.len() + k) =~= want);
}

/// Adds tracks at the end of a playlist if there are positions left for them;
/// says whether it did.
pub fn try_add_tracks_to_playlist(tracks: &mut Vec<PlacedTrack>, track_ids: &Vec<String>) -> (added:
    bool)
    ensures
        added == (last_position(views(old(tracks)@)) + track_ids@.len() < i64::MAX),
        views(final(tracks)@) == if added {
            with_tracks(views(old(tracks)@), views(track_ids@))
        } else {
            views(old(tracks)@)
        },
{
    let last = find_last_position(tracks);
    if last as i128 + (track_ids.len() as i128) < 9223372036854775807 {
        add_tracks_to_playlist(tracks, track_ids);
        true
    } else {
        false
    }
}

/// The tracks that are at none of the positions.
pub open spec fn without_positions(s: Seq<(i64, Seq<char>)>, positions: Seq<i64>) -> Seq<
    (i64, Seq<char>),
>
    decreases s.len(),
{
    if s.len() == 0 {
        seq![]
    } else {
        let rest = without_positions(s.drop_last(), positions);
        if positions.contains(s.last().0) {
            rest
        } else {
            rest.push(s.last())
        }
    }
}

/// The tracks in their order, at positions counted from zero.
pub open spec fn reindexed(s: Seq<(i64, Seq<char>)>) -> Seq<(i64, Seq<char>)> {
    let sorted = stable_sort(s, ranking::<PlacedTrack>());
    Seq::new(sorted.len(), |i: int| (i as i64, sorted[i].1))
}

fn is_among(positions: &Vec<i64>, p: i64) -> (r: bool)
    ensures
        r == positions@.contains(p),
{
    let mut i: usize = 0;
    while i < positions.len()
        invariant
            i <= positions@.len(),
            forall|j: int| 0 <= j < i ==> positions@[j] != p,
        decreases positions@.len() - i,
    {
        if positions[i] == p {
            return true;
        }
        i += 1;
    }
    false
}

/// Removes the tracks at some positions, and numbers the others anew so that
/// positions stay contiguous.
pub fn remove_tracks_from_playlist(tracks: &mut Vec<PlacedTrack>, indexes: &Vec<i64>)
    requires
        old(tracks)@.len() <= i64::MAX,
    ensures
        views(final(tracks)@) == reindexed(without_positions(views(old(tracks)@), indexes@)),
{
    let ghost s = views(tracks@);
    let mut kept: Vec<PlacedTrack> = Vec::new();
    let mut i: usize = 0;
    assert(s.take(0) =~= seq![]);
    assert(views(kept@) =~= seq![]);
    while i < tracks.len()
        invariant
            i <= tracks@.len(),
            s == views(tracks@),
            kept@.len() <= i,
            views(kept@) == without_positions(s.take(i as int), indexes@),
        decreases tracks@.len() - i,
    {
        let ghost before = kept@;
        proof {
            assert(s.take(i + 1).drop_last() =~= s.take(i as int));
            assert(s.take(i + 1).last() == tracks@[i as int]@);
        }
        if !is_among(indexes, tracks[i].position) {
            let t = tracks[i].clone();
            let ghost tv = t@;
            kept.push(t);
            assert(views(kept@) =~= views(before).push(tv));
        }
        i += 1;
    }
    assert(s.take(i as int) =~= s);
    let ghost kept_views = views(kept@);
    proof {
        crate::sorting::ranking_is_total_preorder::<PlacedTrack>();
        crate::sorting::stable_sort_sorts(kept_views, ranking::<PlacedTrack>());
    }
    let sorted = sort(kept);
    let ghost want = reindexed(kept_views);
    let mut out: Vec<PlacedTrack> = Vec::new();
    let mut k: usize = 0;
    assert(sorted@.len() == views(sorted@).len());
    while k < sorted.len()
        invariant
            k <= sorted@.len(),
            sorted@.len() <= i64::MAX,
            want == Seq::new(
                views(sorted@).len(),
                |i: int| (i as i64, views(sorted@)[i].1),
            ),
            views(out@) == want.take(k as int),
        decreases sorted@.len() - k,
    {
        let ghost before = out@;
        let t = PlacedTrack { position: k as i64, track_id: sorted[k].track_id.clone() };
        let ghost tv = t@;
        out.push(t);
        assert(want[k as int] == tv);
        assert(views(out@) =~= views(before).push(tv));
        assert(want.take(k + 1) =~= want.take(k as int).push(tv));
        k += 1;
    }
    assert(want.take(k as int) =~= want);
    *tracks = out;
}

/// Removes the tracks at some positions, if 64 bits can number the others anew;
/// says whether it did.
pub fn try_remove_tracks_from_playlist(tracks: &mut Vec<PlacedTrack>, indexes: &Vec<i64>) -> (
    removed: bool)
    ensures
        removed == (old(tracks)@.len() <= i64::MAX),
        views(final(tracks)@) == if removed {
            reindexed(without_positions(views(old(tracks)@), indexes@))
        } else {
            views(old(tracks)@)
        },
{
    if tracks.len() as u128 <= 9223372036854775807 {
        remove_tracks_from_playlist(tracks, indexes);
        true
    } else {
        false
    }
}

/// The positions of the tracks are counted from zero.
pub open spec fn contiguous(s: Seq<(i64, Seq<char>)>) -> bool {
    forall|i: int| 0 <= i < s.len() ==> (#[trigger] s[i]).0 == i
}

/// Removing tracks leaves contiguous positions.
pub proof fn removal_keeps_positions_contiguous(s: Seq<(i64, Seq<char>)>, positions: Seq<i64>)
    requires
        s.len() <= i64::MAX,
    ensures
        contiguous(reindexed(without_positions(s, positions))),
{
    let kept = without_positions(s, positions);
    lemma_without_len(s, positions);
    crate::sorting::ranking_is_total_preorder::<PlacedTrack>();
    crate::sorting::stable_sort_sorts(kept, ranking::<PlacedTrack>());
    broadcast use vstd::seq_lib::group_to_multiset_ensures;

    assert(stable_sort(kept, ranking::<PlacedTrack>()).to_multiset().len() == kept.len());
}

proof fn lemma_without_len(s: Seq<(i64, Seq<char>)>, positions: Seq<i64>)
    ensures
        without_positions(s, positions).len() <= s.len(),
    decreases s.len(),
{
    if s.len() > 0 {
        lemma_without_len(s.drop_last(), positions);
    }
}

proof fn lemma_last_position(s: Seq<(i64, Seq<char>)>)
    requires
        contiguous(s),
    ensures
        last_position(s) == s.len() - 1,
    decreases s.len(),
{
    if s.len() > 0 {
        let d = s.drop_last();
        assert forall|i: int| 0 <= i < d.len() implies (#[trigger] d[i]).0 == i by {
            assert(d[i] == s[i]);
        }
        lemma_last_position(d);
        assert(s.last() == s[s.len() - 1]);
    }
}

/// Adding tracks to contiguous positions keeps them contiguous.
pub proof fn adding_keeps_positions_contiguous(s: Seq<(i64, Seq<char>)>, ids: Seq<Seq<char>>)
    requires
        contiguous(s),
        s.len() + ids.len() <= i64::MAX,
    ensures
        contiguous(with_tracks(s, ids)),
{
    lemma_last_position(s);
}

/// Removing what was just added restores a playlist with contiguous positions.
pub proof fn removal_undoes_adding(s: Seq<(i64, Seq<char>)>, id: Seq<char>)
    requires
        contiguous(s),
        s.len() < i64::MAX,
    ensures
        reindexed(without_positions(with_tracks(s, seq![id]), seq![s.len() as i64])) == s,
{
    lemma_last_position(s);
    let t = with_tracks(s, seq![id]);
    assert(t =~= s.push((s.len() as i64, id)));
    assert(t.drop_last() =~= s);
    assert(seq![s.len() as i64][0] == t.last().0);
    lemma_keeps_all(s, seq![s.len() as i64]);
    assert(without_positions(t, seq![s.len() as i64]) == s);
    lemma_sorted_stays(s);
    assert(reindexed(s) =~= s);
}

proof fn lemma_keeps_all(s: Seq<(i64, Seq<char>)>, positions: Seq<i64>)
    requires
        forall|i: int| 0 <= i < s.len() ==> !positions.contains((#[trigger] s[i]).0),
    ensures
        without_positions(s, positions) == s,
    decreases s.len(),
{
    if s.len() > 0 {
        let d = s.drop_last();
        assert forall|i: int| 0 <= i < d.len() implies !positions.contains((#[trigger] d[i]).0) by {
            assert(d[i] == s[i]);
        }
        lemma_keeps_all(d, positions);
        assert(s.last() == s[s.len() - 1]);
        assert(d.push(s.last()) =~= s);
    }
}

proof fn lemma_sorted_stays(s: Seq<(i64, Seq<char>)>)
    requires
        contiguous(s),
    ensures
        stable_sort(s, ranking::<PlacedTrack>()) == s,
    decreases s.len(),
{
    if s.len() > 0 {
        let d = s.drop_last();
        assert forall|i: int| 0 <= i < d.len() implies (#[trigger] d[i]).0 == i by {
            assert(d[i] == s[i]);
        }
        lemma_sorted_stays(d);
        assert(s.last() == s[s.len() - 1]);
        if d.len() > 0 {
            assert(d.last() == s[s.len() - 2]);
        }
        assert(d.push(s.last()) =~= s);
    }
}

// ── Laws of local playlists ─────────────────────────────────────

/// An update gives a playlist the name, the comment and the visibility that it
/// asks for; what it does not ask for stays, and so do the identifier, the owner
/// and the time of creation. A second update of the same overrides the first.
pub proof fn updates_take_what_is_given(
    p: PlaylistRowView,
    name: Seq<char>,
    comment: Seq<char>,
    public: bool,
    other: Option<Seq<char>>,
)
    ensures
        updated_playlist(p, Some(name), None, None) == (PlaylistRowView { name, ..p }),
        updated_playlist(p, None, Some(comment), None) == (PlaylistRowView { comment, ..p }),
        updated_playlist(p, None, None, Some(public)) == (PlaylistRowView { public, ..p }),
        updated_playlist(p, None, None, None) == p,
        updated_playlist(p, Some(name), Some(comment), Some(public)) == (PlaylistRowView {
            name,
            comment,
            public,
            ..p
        }),
        updated_playlist(
            updated_playlist(p, other, other, None),
            Some(name),
            Some(comment),
            Some(public),
        ) == updated_playlist(p, Some(name), Some(comment), Some(public)),
{
}

/// A playlist is shown with its identifier, by which it is found again, its
/// name, comment, visibility, owner and time of creation, and with the given
/// number of songs.
pub proof fn playlists_are_shown_as_stored(p: PlaylistRowView, song_count: JsonView)
    ensures
        ({
            let r = playlist_head(p, song_count);
            &&& r.get("id"@) == Some(JsonView::Text(local_playlist_id(p.id)))
            &&& r.get("name"@) == Some(JsonView::Text(p.name))
            &&& r.get("comment"@) == Some(JsonView::Text(p.comment))
            &&& r.get("public"@) == Some(JsonView::Bool(p.public))
            &&& r.get("owner"@) == Some(JsonView::Text(p.owner))
            &&& r.get("songCount"@) == Some(song_count)
            &&& r.get("duration"@) == Some(JsonView::Number(NumberView::PosInt(0)))
            &&& r.get("created"@) == Some(JsonView::Text(p.created))
            &&& r.get("changed"@) == Some(JsonView::Text(p.created))
        }),
{
    broadcast use reading_after_setting;

    reveal_strlit("id");
    reveal_strlit("name");
    reveal_strlit("comment");
    reveal_strlit("public");
    reveal_strlit("owner");
    reveal_strlit("songCount");
    reveal_strlit("duration");
    reveal_strlit("created");
    reveal_strlit("changed");
    assert("comment"@[1] != "created"@[1]);
    assert("comment"@[1] != "changed"@[1]);
    assert("created"@[1] != "changed"@[1]);
}

/// A user sees all playlists that are their own or public, in their order, each
/// with its number of songs, and no others.
pub proof fn users_see_their_own_and_public_playlists(
    rows: Seq<(PlaylistRowView, i64)>,
    username: Seq<char>,
)
    ensures
        shown_playlists(rows, username) == rows.filter(
            |t: (PlaylistRowView, i64)| t.0.owner == username || t.0.public,
        ).map_values(|t: (PlaylistRowView, i64)| playlist_head(t.0, integer(t.1 as int))),
    decreases rows.len(),
{
    lemma_pick_end(
        rows,
        |t: (PlaylistRowView, i64)| t.0.owner == username || t.0.public,
        |t: (PlaylistRowView, i64)| playlist_head(t.0, integer(t.1 as int)),
    );
    if rows.len() > 0 {
        users_see_their_own_and_public_playlists(rows.drop_last(), username);
    }
}

/// A playlist is shown with an entry for each of its tracks, in order, and with
/// their number. An entry is what the track's backend says of the song,
/// namespaced; of a track that no backend knows, its identifier.
pub proof fn playlists_show_their_tracks(
    p: PlaylistRowView,
    tracks: Seq<Seq<char>>,
    answers: Seq<Option<(usize, JsonView)>>,
    i: int,
)
    requires
        tracks.len() <= u64::MAX,
        0 <= i < tracks.len(),
    ensures
        ({
            let entries = local_playlist(p, tracks, answers).items_in("playlist"@, "entry"@);
            &&& entries.len() == tracks.len()
            &&& answers[i] matches Some((backend, resp)) ==> resp.get("song"@) matches Some(song)
                ==> !(song is Text) ==> entries[i] == namespaced(song, backend as nat)
            &&& answers[i] matches Some((_, resp)) ==> resp.get("song"@) is None ==> entries[i].get(
                "id"@,
            ) == Some(JsonView::Text(tracks[i]))
            &&& answers[i] is None ==> entries[i].get("id"@) == Some(JsonView::Text(tracks[i]))
        }),
        local_playlist(p, tracks, answers).get("playlist"@) matches Some(l) && l.get("songCount"@)
            == Some(JsonView::Number(NumberView::PosInt(tracks.len() as u64))) && l.get("name"@)
            == Some(JsonView::Text(p.name)),
{
    broadcast use reading_after_setting;

    reveal_strlit("entry");
    reveal_strlit("songCount");
    reveal_strlit("name");
    playlists_are_shown_as_stored(p, whole(tracks.len()));
    let entries = local_playlist(p, tracks, answers).items_in("playlist"@, "entry"@);
    assert(entries == Seq::new(tracks.len(), |i: int| resolved_entry(tracks[i], answers[i])));
    match answers[i] {
        Some((backend, resp)) => {
            namespacing_reaches_everything(resp, backend as nat, "song"@, 0);
        },
        None => {},
    }
}

/// Tracks are added behind those that are there, in the order in which they
/// were given.
pub proof fn added_tracks_come_last(s: Seq<(i64, Seq<char>)>, ids: Seq<Seq<char>>)
    ensures
        with_tracks(s, ids).map_values(|t: (i64, Seq<char>)| t.1) == s.map_values(
            |t: (i64, Seq<char>)| t.1,
        ) + ids,
        forall|i: int|
            0 <= i < s.len() ==> (#[trigger] with_tracks(s, ids)[i]) == s[i],
{
    assert(with_tracks(s, ids).map_values(|t: (i64, Seq<char>)| t.1) =~= s.map_values(
        |t: (i64, Seq<char>)| t.1,
    ) + ids);
}

proof fn lemma_without_positions(s: Seq<(i64, Seq<char>)>, positions: Seq<i64>)
    ensures
        without_positions(s, positions) == s.filter(
            |t: (i64, Seq<char>)| !positions.contains(t.0),
        ),
    decreases s.len(),
{
    lemma_filter_end(s, |t: (i64, Seq<char>)| !positions.contains(t.0));
    if s.len() > 0 {
        lemma_without_positions(s.drop_last(), positions);
    }
}

proof fn lemma_kept_in_order(s: Seq<(i64, Seq<char>)>, positions: Seq<i64>)
    requires
        forall|i: int, j: int| 0 <= i < j < s.len() ==> (#[trigger] s[i]).0 < (#[trigger] s[j]).0,
    ensures
        ({
            let k = without_positions(s, positions);
            &&& forall|i: int, j: int|
                0 <= i < j < k.len() ==> (#[trigger] k[i]).0 < (#[trigger] k[j]).0
            &&& k.len() > 0 && s.len() > 0 ==> k.last().0 <= s.last().0
        }),
    decreases s.len(),
{
    if s.len() > 0 {
        let d = s.drop_last();
        assert forall|i: int, j: int| 0 <= i < j < d.len() implies (#[trigger] d[i]).0 < (
        #[trigger] d[j]).0 by {
            assert(s[i].0 < s[j].0);
        }
        lemma_kept_in_order(d, positions);
        let r = without_positions(d, positions);
        let k = without_positions(s, positions);
        if d.len() > 0 {
            assert(s[d.len() - 1].0 < s[d.len() as int].0);
        } else {
            assert(r.len() == 0);
        }
        assert forall|i: int, j: int| 0 <= i < j < k.len() implies (#[trigger] k[i]).0 < (
        #[trigger] k[j]).0 by {
            if j < r.len() {
                assert(r[i].0 < r[j].0);
            } else {
                assert(k[i] == r[i]);
                if i < r.len() - 1 {
                    assert(r[i].0 < r[r.len() - 1].0);
                }
            }
        }
    }
}

/// Removing positions from a playlist takes the tracks at these positions out
/// and leaves the others in their order.
pub proof fn removal_takes_the_tracks_at_the_positions(
    s: Seq<(i64, Seq<char>)>,
    positions: Seq<i64>,
)
    requires
        contiguous(s),
    ensures
        reindexed(without_positions(s, positions)).map_values(|t: (i64, Seq<char>)| t.1)
            == s.filter(|t: (i64, Seq<char>)| !positions.contains(t.0)).map_values(
            |t: (i64, Seq<char>)| t.1,
        ),
{
    let kept = without_positions(s, positions);
    let leq = ranking::<PlacedTrack>();
    lemma_without_positions(s, positions);
    assert forall|i: int, j: int| 0 <= i < j < s.len() implies (#[trigger] s[i]).0 < (
    #[trigger] s[j]).0 by {
        assert(s[i].0 == i && s[j].0 == j);
    }
    lemma_kept_in_order(s, positions);
    assert forall|i: int, j: int| 0 <= i < j < kept.len() implies leq(
        #[trigger] kept[i],
        #[trigger] kept[j],
    ) by {
        assert(kept[i].0 < kept[j].0);
    }
    sorting_the_sorted_changes_nothing(kept, leq);
    assert(reindexed(kept).map_values(|t: (i64, Seq<char>)| t.1) =~= kept.map_values(
        |t: (i64, Seq<char>)| t.1,
    ));
}

} // verus!
