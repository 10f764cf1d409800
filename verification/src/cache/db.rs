//! What the cache answers.

use crate::cache::meta::{modified_name, sync_name};
use crate::json::{integer, reading_after_setting, Json, JsonView};
use crate::like::{held_texts_match, holding, is_like, like};
use crate::seqs::{lemma_filter_end, lemma_pick_end};
use crate::sorting::{
    ranking, ranking_is_total_preorder, sort, sorting_keys_sorts_items, stable_sort, Ranked,
};
use crate::strs::{
    ascii_lower, concat3, decimal, decimal_read_back, decimal_starts_with_digit, decimal_string,
    in_i64, integer_value, lower_ascii, opt_text, parse_i64, str_eq, str_less, text_less,
    text_less_irreflexive, text_less_total, text_less_transitive, trim, trimmed, views,
};
use crate::subsonic::models::{first_n, page, take_page, TextKeyedDown};
use crate::unicode::{lowercase, to_lowercase};
use vstd::prelude::*;

verus! {

// ── Freshness ───────────────────────────────────────────────────

/// Under which name the time of a backend's last synchronisation is kept.
pub fn last_sync_key(backend_idx: usize) -> (r: String)
    ensures
        r@ == sync_name(backend_idx as nat),
{
    concat3("backend_", decimal_string(backend_idx as u128).as_str(), "_last_sync")
}

/// Under which name the time of a backend's last change is kept.
pub fn last_modified_key(backend_idx: usize) -> (r: String)
    ensures
        r@ == modified_name(backend_idx as nat),
{
    concat3("backend_", decimal_string(backend_idx as u128).as_str(), "_last_modified")
}

/// What was synchronised at `last_sync` is younger than `max_age_secs` at
/// `now`. What was never synchronised is not.
pub open spec fn fresh(last_sync: Option<Seq<char>>, now: u64, max_age_secs: nat) -> bool {
    match last_sync {
        Some(text) => match in_i64(integer_value(text)) {
            Some(t) => now - t < max_age_secs,
            None => false,
        },
        None => false,
    }
}

/// Whether the cache of a backend is fresh, updated within `max_age_secs`
/// seconds. Times are in seconds since 1970.
pub fn is_cache_fresh(last_sync: Option<&String>, now: u64, max_age_secs: u64) -> (r: bool)
    ensures
        r == fresh(
            match last_sync {
                Some(s) => Some(s@),
                None => None,
            },
            now,
            max_age_secs as nat,
        ),
{
    match last_sync {
        Some(text) => match parse_i64(text.as_str()) {
            Some(t) => (now as i128) - (t as i128) < max_age_secs as i128,
            None => false,
        },
        None => false,
    }
}

/// A cache that was synchronised is fresh until it is `max_age_secs` old, and no
/// longer.
pub proof fn synced_cache_is_fresh(synced_at: u64, now: u64, max_age_secs: nat)
    requires
        synced_at <= i64::MAX,
    ensures
        fresh(Some(decimal(synced_at as nat)), now, max_age_secs) == (now - synced_at
            < max_age_secs),
{
    decimal_read_back(synced_at as nat);
    decimal_starts_with_digit(synced_at as nat);
}

/// Optional texts, as characters.
pub open spec fn opt_texts(s: Seq<Option<String>>) -> Seq<Option<Seq<char>>> {
    s.map_values(|o: Option<String>| opt_text(o))
}

/// Whether the cache of some backend is fresh: synchronised within twice the
/// refresh interval.
pub fn any_cache_fresh(last_syncs: &Vec<Option<String>>, now: u64, refresh_interval_secs: u64) -> (r:
    bool)
    ensures
        r == exists|i: int|
            0 <= i < last_syncs@.len() && fresh(
                #[trigger] opt_texts(last_syncs@)[i],
                now,
                2 * refresh_interval_secs as nat,
            ),
{
    let max_age: u128 = 2 * refresh_interval_secs as u128;
    let mut i: usize = 0;
    while i < last_syncs.len()
        invariant
            i <= last_syncs@.len(),
            max_age == 2 * refresh_interval_secs,
            forall|j: int|
                0 <= j < i ==> !fresh(
                    #[trigger] opt_texts(last_syncs@)[j],
                    now,
                    2 * refresh_interval_secs as nat,
                ),
        decreases last_syncs@.len() - i,
    {
        let young = match &last_syncs[i] {
            Some(text) => match parse_i64(text.as_str()) {
                Some(t) => (now as i128) - (t as i128) < max_age as i128,
                None => false,
            },
            None => false,
        };
        assert(young == fresh(
            opt_texts(last_syncs@)[i as int],
            now,
            2 * refresh_interval_secs as nat,
        ));
        if young {
            return true;
        }
        i += 1;
    }
    false
}

/// A name as it is compared: in lower case, without white space around it.
pub open spec fn name_norm(name: Seq<char>) -> Seq<char> {
    trimmed(lowercase(name))
}

/// A name as it is compared.
pub fn normalize_name(name: &str) -> (r: String)
    ensures
        r@ == name_norm(name@),
{
    trim(to_lowercase(name).as_str())
}

// ── Entries ─────────────────────────────────────────────────────

/// A cached artist.
#[derive(Debug)]
pub struct ArtistEntry {
    pub id: String,
    pub backend_idx: usize,
    pub name_norm: String,
    pub album_count: i64,
    pub data: Json,
}

/// A cached artist, as characters and numbers.
pub struct ArtistEntryView {
    pub id: Seq<char>,
    pub backend_idx: usize,
    pub name_norm: Seq<char>,
    pub album_count: i64,
    pub data: JsonView,
}

impl View for ArtistEntry {
    type V = ArtistEntryView;

    open spec fn view(&self) -> ArtistEntryView {
        ArtistEntryView {
            id: self.id@,
            backend_idx: self.backend_idx,
            name_norm: self.name_norm@,
            album_count: self.album_count,
            data: self.data@,
        }
    }
}

impl Clone for ArtistEntry {
    fn clone(&self) -> (r: Self)
        ensures
            r@ == self@,
    {
        ArtistEntry {
            id: self.id.clone(),
            backend_idx: self.backend_idx,
            name_norm: self.name_norm.clone(),
            album_count: self.album_count,
            data: self.data.clone(),
        }
    }
}

/// A cached album.
#[derive(Debug)]
pub struct AlbumEntry {
    pub id: String,
    pub name_norm: String,
    pub artist: Option<String>,
    pub artist_id: Option<String>,
    pub year: Option<i64>,
    pub updated_at: String,
    pub data: Json,
}

/// A cached album, as characters and numbers.
pub struct AlbumEntryView {
    pub id: Seq<char>,
    pub name_norm: Seq<char>,
    pub artist: Option<Seq<char>>,
    pub artist_id: Option<Seq<char>>,
    pub year: Option<i64>,
    pub updated_at: Seq<char>,
    pub data: JsonView,
}

impl View for AlbumEntry {
    type V = AlbumEntryView;

    open spec fn view(&self) -> AlbumEntryView {
        AlbumEntryView {
            id: self.id@,
            name_norm: self.name_norm@,
            artist: opt_text(self.artist),
            artist_id: opt_text(self.artist_id),
            year: self.year,
            updated_at: self.updated_at@,
            data: self.data@,
        }
    }
}

impl Clone for AlbumEntry {
    fn clone(&self) -> (r: Self)
        ensures
            r@ == self@,
    {
        AlbumEntry {
            id: self.id.clone(),
            name_norm: self.name_norm.clone(),
            artist: self.artist.clone(),
            artist_id: self.artist_id.clone(),
            year: self.year,
            updated_at: self.updated_at.clone(),
            data: self.data.clone(),
        }
    }
}

/// A cached track.
#[derive(Debug)]
pub struct TrackEntry {
    pub id: String,
    pub title_norm: String,
    pub data: Json,
}

/// A cached track, as characters.
pub struct TrackEntryView {
    pub id: Seq<char>,
    pub title_norm: Seq<char>,
    pub data: JsonView,
}

impl View for TrackEntry {
    type V = TrackEntryView;

    open spec fn view(&self) -> TrackEntryView {
        TrackEntryView { id: self.id@, title_norm: self.title_norm@, data: self.data@ }
    }
}

/// A member of a group of duplicates.
#[derive(Debug)]
pub struct MemberEntry {
    pub fingerprint: String,
    /// "track" or "album"
    pub entity_type: String,
    pub namespaced_id: String,
    /// The score in tenths.
    pub score: i128,
}

/// A member of a group of duplicates, as characters and numbers.
pub struct MemberEntryView {
    pub fingerprint: Seq<char>,
    pub entity_type: Seq<char>,
    pub namespaced_id: Seq<char>,
    pub score: i128,
}

impl View for MemberEntry {
    type V = MemberEntryView;

    open spec fn view(&self) -> MemberEntryView {
        MemberEntryView {
            fingerprint: self.fingerprint@,
            entity_type: self.entity_type@,
            namespaced_id: self.namespaced_id@,
            score: self.score,
        }
    }
}

// ── Hidden duplicates ───────────────────────────────────────────

/// The best member of a group with its score: the first with the highest score.
pub open spec fn best_member(ms: Seq<MemberEntryView>, fingerprint: Seq<char>) -> Option<
    (Seq<char>, i128),
>
    decreases ms.len(),
{
    if ms.len() == 0 {
        None
    } else {
        let best = best_member(ms.drop_last(), fingerprint);
        let m = ms.last();
        if m.fingerprint != fingerprint {
            best
        } else {
            match best {
                Some(b) => if m.score > b.1 {
                    Some((m.namespaced_id, m.score))
                } else {
                    best
                },
                None => Some((m.namespaced_id, m.score)),
            }
        }
    }
}

/// The member `i` is not the best of its group.
pub open spec fn is_spare(ms: Seq<MemberEntryView>, i: int) -> bool {
    match best_member(ms, ms[i].fingerprint) {
        Some(b) => b.0 != ms[i].namespaced_id,
        None => true,
    }
}

/// The item is a duplicate of a better one, so it is not shown.
pub open spec fn hidden(ms: Seq<MemberEntryView>, entity_type: Seq<char>, id: Seq<char>) -> bool {
    exists|i: int|
        0 <= i < ms.len() && (#[trigger] ms[i]).entity_type == entity_type && ms[i].namespaced_id
            == id && is_spare(ms, i)
}

fn find_best<'a>(members: &'a Vec<MemberEntry>, fingerprint: &str) -> (r: Option<&'a MemberEntry>)
    ensures
        match r {
            Some(m) => best_member(views(members@), fingerprint@) == Some(
                (m.namespaced_id@, m.score),
            ),
            None => best_member(views(members@), fingerprint@) is None,
        },
{
    let ghost ms = views(members@);
    let mut best: Option<usize> = None;
    let mut i: usize = 0;
    assert(ms.take(0) =~= seq![]);
    while i < members.len()
        invariant
            i <= members@.len(),
            ms == views(members@),
            match best {
                Some(b) => b < i && best_member(ms.take(i as int), fingerprint@) == Some(
                    (members@[b as int].namespaced_id@, members@[b as int].score),
                ),
                None => best_member(ms.take(i as int), fingerprint@) is None,
            },
        decreases members@.len() - i,
    {
        proof {
            assert(ms.take(i + 1).drop_last() =~= ms.take(i as int));
            assert(ms.take(i + 1).last() == members@[i as int]@);
        }
        if str_eq(members[i].fingerprint.as_str(), fingerprint) {
            match best {
                Some(b) => {
                    if members[i].score > members[b].score {
                        best = Some(i);
                    }
                },
                None => {
                    best = Some(i);
                },
            }
        }
        i += 1;
    }
    assert(ms.take(i as int) =~= ms);
    match best {
        Some(b) => Some(&members[b]),
        None => None,
    }
}

/// Whether an item is a duplicate of a better one.
pub fn is_hidden(members: &Vec<MemberEntry>, entity_type: &str, id: &str) -> (r: bool)
    ensures
        r == hidden(views(members@), entity_type@, id@),
{
    let ghost ms = views(members@);
    let mut i: usize = 0;
    while i < members.len()
        invariant
            i <= members@.len(),
            ms == views(members@),
            forall|j: int|
                0 <= j < i ==> !((#[trigger] ms[j]).entity_type == entity_type@
                    && ms[j].namespaced_id == id@ && is_spare(ms, j)),
        decreases members@.len() - i,
    {
        assert(ms[i as int] == members@[i as int]@);
        if str_eq(members[i].entity_type.as_str(), entity_type) && str_eq(
            members[i].namespaced_id.as_str(),
            id,
        ) {
            let spare = match find_best(members, members[i].fingerprint.as_str()) {
                Some(b) => !str_eq(b.namespaced_id.as_str(), id),
                None => true,
            };
            if spare {
                assert(is_spare(ms, i as int));
                return true;
            }
        }
        i += 1;
    }
    false
}

/// The best member of a group is shown, if the item is in no other group.
pub proof fn best_member_is_shown(
    ms: Seq<MemberEntryView>,
    entity_type: Seq<char>,
    fingerprint: Seq<char>,
    id: Seq<char>,
)
    requires
        best_member(ms, fingerprint) matches Some(b) && b.0 == id,
        forall|i: int|
            0 <= i < ms.len() && (#[trigger] ms[i]).entity_type == entity_type
                && ms[i].namespaced_id == id ==> ms[i].fingerprint == fingerprint,
    ensures
        !hidden(ms, entity_type, id),
{
}

/// Of a group of duplicates everything but one item is hidden.
pub proof fn one_of_a_group_is_shown(ms: Seq<MemberEntryView>, i: int, j: int)
    requires
        0 <= i < ms.len(),
        0 <= j < ms.len(),
        ms[i].fingerprint == ms[j].fingerprint,
        ms[i].namespaced_id != ms[j].namespaced_id,
    ensures
        hidden(ms, ms[i].entity_type, ms[i].namespaced_id) || hidden(
            ms,
            ms[j].entity_type,
            ms[j].namespaced_id,
        ),
{
    assert(is_spare(ms, i) || is_spare(ms, j));
}

/// What stands for an album when albums are counted: its group, or the album
/// itself.
pub open spec fn album_label(ms: Seq<MemberEntryView>, id: Seq<char>) -> Seq<char>
    decreases ms.len(),
{
    if ms.len() == 0 {
        id
    } else if ms[0].entity_type == "album"@ && ms[0].namespaced_id == id {
        ms[0].fingerprint
    } else {
        album_label(ms.skip(1), id)
    }
}

fn label_of(members: &Vec<MemberEntry>, id: &str) -> (r: String)
    ensures
        r@ == album_label(views(members@), id@),
{
    let ghost ms = views(members@);
    let mut i: usize = 0;
    assert(ms.skip(0) =~= ms);
    while i < members.len()
        invariant
            i <= members@.len(),
            ms == views(members@),
            album_label(ms, id@) == album_label(ms.skip(i as int), id@),
        decreases members@.len() - i,
    {
        proof {
            assert(ms.skip(i as int)[0] == members@[i as int]@);
            assert(ms.skip(i as int).skip(1) =~= ms.skip(i + 1));
        }
        if str_eq(members[i].entity_type.as_str(), "album") && str_eq(
            members[i].namespaced_id.as_str(),
            id,
        ) {
            return members[i].fingerprint.clone();
        }
        i += 1;
    }
    id.to_owned()
}

// ── Albums ──────────────────────────────────────────────────────

/// By what an album is sorted: year, then two texts.
pub struct AlbumKeyed {
    pub year: Option<i64>,
    pub first: String,
    pub second: String,
    pub item: Json,
}

impl View for AlbumKeyed {
    type V = (Option<i64>, Seq<char>, Seq<char>, JsonView);

    open spec fn view(&self) -> (Option<i64>, Seq<char>, Seq<char>, JsonView) {
        (self.year, self.first@, self.second@, self.item@)
    }
}

/// The year stands before the other; an unknown one stands before all others.
pub open spec fn year_before(a: Option<i64>, b: Option<i64>) -> bool {
    match (a, b) {
        (None, Some(_)) => true,
        (Some(x), Some(y)) => x < y,
        _ => false,
    }
}

fn is_year_before(a: Option<i64>, b: Option<i64>) -> (r: bool)
    ensures
        r == year_before(a, b),
{
    match (a, b) {
        (None, Some(_)) => true,
        (Some(x), Some(y)) => x < y,
        _ => false,
    }
}

/// The pair of texts may stand before the other.
pub open spec fn texts_leq(a: (Seq<char>, Seq<char>), b: (Seq<char>, Seq<char>)) -> bool {
    text_less(a.0, b.0) || (!text_less(b.0, a.0) && !text_less(b.1, a.1))
}

proof fn lemma_texts_total(a: (Seq<char>, Seq<char>), b: (Seq<char>, Seq<char>))
    ensures
        texts_leq(a, b) || texts_leq(b, a),
{
    if text_less(a.1, b.1) && text_less(b.1, a.1) {
        text_less_transitive(a.1, b.1, a.1);
        text_less_irreflexive(a.1);
    }
    if text_less(a.0, b.0) && text_less(b.0, a.0) {
        text_less_transitive(a.0, b.0, a.0);
        text_less_irreflexive(a.0);
    }
}

proof fn lemma_texts_transitive(
    a: (Seq<char>, Seq<char>),
    b: (Seq<char>, Seq<char>),
    c: (Seq<char>, Seq<char>),
)
    requires
        texts_leq(a, b),
        texts_leq(b, c),
    ensures
        texts_leq(a, c),
{
    text_less_total(a.0, b.0);
    text_less_total(b.0, c.0);
    if text_less(a.0, b.0) {
        if text_less(b.0, c.0) {
            text_less_transitive(a.0, b.0, c.0);
        }
    } else {
        assert(a.0 == b.0);
        if !text_less(b.0, c.0) {
            assert(b.0 == c.0);
            if text_less(c.1, a.1) {
                text_less_total(a.1, b.1);
                text_less_total(b.1, c.1);
                if text_less(a.1, b.1) {
                    text_less_transitive(c.1, a.1, b.1);
                } else if text_less(b.1, c.1) {
                    text_less_transitive(b.1, c.1, a.1);
                }
            }
        }
    }
}

impl Ranked for AlbumKeyed {
    open spec fn leq(
        a: (Option<i64>, Seq<char>, Seq<char>, JsonView),
        b: (Option<i64>, Seq<char>, Seq<char>, JsonView),
    ) -> bool {
        year_before(a.0, b.0) || (a.0 == b.0 && texts_leq((a.1, a.2), (b.1, b.2)))
    }

    proof fn leq_total(
        a: (Option<i64>, Seq<char>, Seq<char>, JsonView),
        b: (Option<i64>, Seq<char>, Seq<char>, JsonView),
    ) {
        lemma_texts_total((a.1, a.2), (b.1, b.2));
    }

    proof fn leq_transitive(
        a: (Option<i64>, Seq<char>, Seq<char>, JsonView),
        b: (Option<i64>, Seq<char>, Seq<char>, JsonView),
        c: (Option<i64>, Seq<char>, Seq<char>, JsonView),
    ) {
        if a.0 == b.0 && b.0 == c.0 {
            lemma_texts_transitive((a.1, a.2), (b.1, b.2), (c.1, c.2));
        }
    }

    fn may_precede(&self, other: &Self) -> (r: bool) {
        if is_year_before(self.year, other.year) {
            true
        } else if is_year_before(other.year, self.year) {
            false
        } else {
            str_less(self.first.as_str(), other.first.as_str()) || (!str_less(
                other.first.as_str(),
                self.first.as_str(),
            ) && !str_less(other.second.as_str(), self.second.as_str()))
        }
    }
}

/// By what an album is sorted, other than by age.
pub open spec fn album_key(a: AlbumEntryView, by: Seq<char>) -> (
    Option<i64>,
    Seq<char>,
    Seq<char>,
    JsonView,
) {
    if by == "alphabeticalByArtist"@ {
        (
            None,
            ascii_lower(
                match a.artist {
                    Some(s) => s,
                    None => ""@,
                },
            ),
            a.name_norm,
            a.data,
        )
    } else if by == "byYear"@ {
        (a.year, ""@, a.name_norm, a.data)
    } else {
        (None, ""@, a.name_norm, a.data)
    }
}

/// What is cached of albums, in the order that a list type asks for: the
/// latest first, by artist, by year, and otherwise by name.
pub open spec fn sorted_albums(rows: Seq<AlbumEntryView>, by: Seq<char>) -> Seq<JsonView> {
    if by == "newest"@ {
        stable_sort(
            rows.map_values(|a: AlbumEntryView| (a.updated_at, a.data)),
            ranking::<TextKeyedDown>(),
        ).map_values(|t: (Seq<char>, JsonView)| t.1)
    } else {
        stable_sort(
            rows.map_values(|a: AlbumEntryView| album_key(a, by)),
            ranking::<AlbumKeyed>(),
        ).map_values(|t: (Option<i64>, Seq<char>, Seq<char>, JsonView)| t.3)
    }
}

fn key_album(a: &AlbumEntry, by: &str) -> (r: AlbumKeyed)
    ensures
        r@ == album_key(a@, by@),
{
    if str_eq(by, "alphabeticalByArtist") {
        let artist = match &a.artist {
            Some(s) => s.as_str(),
            None => "",
        };
        AlbumKeyed {
            year: None,
            first: lower_ascii(artist),
            second: a.name_norm.clone(),
            item: a.data.clone(),
        }
    } else if str_eq(by, "byYear") {
        AlbumKeyed {
            year: a.year,
            first: "".to_owned(),
            second: a.name_norm.clone(),
            item: a.data.clone(),
        }
    } else {
        AlbumKeyed {
            year: None,
            first: "".to_owned(),
            second: a.name_norm.clone(),
            item: a.data.clone(),
        }
    }
}

fn items_in_order(keyed: &Vec<AlbumKeyed>) -> (r: Vec<Json>)
    ensures
        views(r@) == views(keyed@).map_values(
            |t: (Option<i64>, Seq<char>, Seq<char>, JsonView)| t.3,
        ),
{
    let ghost want = views(keyed@).map_values(
        |t: (Option<i64>, Seq<char>, Seq<char>, JsonView)| t.3,
    );
    let mut out: Vec<Json> = Vec::new();
    let mut i: usize = 0;
    while i < keyed.len()
        invariant
            i <= keyed@.len(),
            want == views(keyed@).map_values(
                |t: (Option<i64>, Seq<char>, Seq<char>, JsonView)| t.3,
            ),
            views(out@) == want.take(i as int),
        decreases keyed@.len() - i,
    {
        let ghost before = out@;
        let c = keyed[i].item.clone();
        out.push(c);
        assert(views(out@) =~= views(before).push(c@));
        assert(want.take(i + 1) =~= want.take(i as int).push(c@));
        i += 1;
    }
    assert(want.take(i as int) =~= want);
    out
}

/// Sorts albums as a list type asks for.
pub fn sort_albums(rows: &Vec<AlbumEntry>, by: &str) -> (r: Vec<Json>)
    ensures
        views(r@) == sorted_albums(views(rows@), by@),
{
    let ghost s = views(rows@);
    if str_eq(by, "newest") {
        let ghost want = s.map_values(|a: AlbumEntryView| (a.updated_at, a.data));
        let mut keyed: Vec<TextKeyedDown> = Vec::new();
        let mut i: usize = 0;
        while i < rows.len()
            invariant
                i <= rows@.len(),
                s == views(rows@),
                want == s.map_values(|a: AlbumEntryView| (a.updated_at, a.data)),
                views(keyed@) == want.take(i as int),
            decreases rows@.len() - i,
        {
            let ghost before = keyed@;
            let k = TextKeyedDown {
                key: rows[i].updated_at.clone(),
                item: rows[i].data.clone(),
            };
            let ghost kv = k@;
            keyed.push(k);
            assert(views(keyed@) =~= views(before).push(kv));
            assert(want.take(i + 1) =~= want.take(i as int).push(kv));
            i += 1;
        }
        assert(want.take(i as int) =~= want);
        let sorted = sort(keyed);
        let ghost items = views(sorted@).map_values(|t: (Seq<char>, JsonView)| t.1);
        let mut out: Vec<Json> = Vec::new();
        let mut k: usize = 0;
        while k < sorted.len()
            invariant
                k <= sorted@.len(),
                items == views(sorted@).map_values(|t: (Seq<char>, JsonView)| t.1),
                views(out@) == items.take(k as int),
            decreases sorted@.len() - k,
        {
            let ghost before = out@;
            let c = sorted[k].item.clone();
            out.push(c);
            assert(views(out@) =~= views(before).push(c@));
            assert(items.take(k + 1) =~= items.take(k as int).push(c@));
            k += 1;
        }
        assert(items.take(k as int) =~= items);
        out
    } else {
        let ghost want = s.map_values(|a: AlbumEntryView| album_key(a, by@));
        let mut keyed: Vec<AlbumKeyed> = Vec::new();
        let mut i: usize = 0;
        while i < rows.len()
            invariant
                i <= rows@.len(),
                s == views(rows@),
                want == s.map_values(|a: AlbumEntryView| album_key(a, by@)),
                views(keyed@) == want.take(i as int),
            decreases rows@.len() - i,
        {
            let ghost before = keyed@;
            let k = key_album(&rows[i], by);
            let ghost kv = k@;
            keyed.push(k);
            assert(views(keyed@) =~= views(before).push(kv));
            assert(want.take(i + 1) =~= want.take(i as int).push(kv));
            i += 1;
        }
        assert(want.take(i as int) =~= want);
        items_in_order(&sort(keyed))
    }
}

/// A page of all cached albums.
pub fn get_all_albums(rows: &Vec<AlbumEntry>, by: &str, size: usize, offset: usize) -> (r: Vec<Json>)
    ensures
        views(r@) == page(sorted_albums(views(rows@), by@), offset as nat, size as nat),
{
    let sorted = sort_albums(rows, by);
    take_page(&sorted, offset, size)
}

/// The albums that are no duplicates of better ones.
pub open spec fn shown_albums(
    rows: Seq<AlbumEntryView>,
    ms: Seq<MemberEntryView>,
) -> Seq<AlbumEntryView>
    decreases rows.len(),
{
    if rows.len() == 0 {
        seq![]
    } else {
        let rest = shown_albums(rows.drop_last(), ms);
        if hidden(ms, "album"@, rows.last().id) {
            rest
        } else {
            rest.push(rows.last())
        }
    }
}

fn show_albums(rows: &Vec<AlbumEntry>, members: &Vec<MemberEntry>) -> (r: Vec<AlbumEntry>)
    ensures
        views(r@) == shown_albums(views(rows@), views(members@)),
{
    let ghost s = views(rows@);
    let mut out: Vec<AlbumEntry> = Vec::new();
    let mut i: usize = 0;
    assert(s.take(0) =~= seq![]);
    assert(views(out@) =~= seq![]);
    while i < rows.len()
        invariant
            i <= rows@.len(),
            s == views(rows@),
            views(out@) == shown_albums(s.take(i as int), views(members@)),
        decreases rows@.len() - i,
    {
        let ghost before = out@;
        proof {
            assert(s.take(i + 1).drop_last() =~= s.take(i as int));
            assert(s.take(i + 1).last() == rows@[i as int]@);
        }
        if !is_hidden(members, "album", rows[i].id.as_str()) {
            let c = rows[i].clone();
            let ghost cv = c@;
            out.push(c);
            assert(views(out@) =~= views(before).push(cv));
        }
        i += 1;
    }
    assert(s.take(i as int) =~= s);
    out
}

/// A page of the cached albums. Of a group of duplicates only the best is
/// there; other albums pass through unchanged.
pub fn get_all_albums_deduped(
    rows: &Vec<AlbumEntry>,
    members: &Vec<MemberEntry>,
    by: &str,
    size: usize,
    offset: usize,
) -> (r: Vec<Json>)
    ensures
        views(r@) == page(
            sorted_albums(shown_albums(views(rows@), views(members@)), by@),
            offset as nat,
            size as nat,
        ),
{
    let shown = show_albums(rows, members);
    get_all_albums(&shown, by, size, offset)
}

/// No duplicate of a better album is ever listed.
pub proof fn listed_albums_are_not_hidden(
    rows: Seq<AlbumEntryView>,
    ms: Seq<MemberEntryView>,
    i: int,
)
    requires
        0 <= i < shown_albums(rows, ms).len(),
    ensures
        !hidden(ms, "album"@, shown_albums(rows, ms)[i].id),
        rows.contains(shown_albums(rows, ms)[i]),
    decreases rows.len(),
{
    let rest = shown_albums(rows.drop_last(), ms);
    if i < rest.len() {
        listed_albums_are_not_hidden(rows.drop_last(), ms, i);
        let k = choose|k: int| 0 <= k < rows.drop_last().len() && rows.drop_last()[k] == rest[i];
        assert(rows[k] == rest[i]);
    } else {
        assert(rows[rows.len() - 1] == rows.last());
    }
}

/// Every album that is no duplicate of a better one is listed.
pub proof fn other_albums_pass_through(
    rows: Seq<AlbumEntryView>,
    ms: Seq<MemberEntryView>,
    i: int,
)
    requires
        0 <= i < rows.len(),
        !hidden(ms, "album"@, rows[i].id),
    ensures
        shown_albums(rows, ms).contains(rows[i]),
    decreases rows.len(),
{
    let rest = shown_albums(rows.drop_last(), ms);
    let all = shown_albums(rows, ms);
    if i < rows.len() - 1 {
        other_albums_pass_through(rows.drop_last(), ms, i);
        let k = choose|k: int| 0 <= k < rest.len() && rest[k] == rows[i];
        assert(all[k] == rows[i]);
    } else {
        assert(all[rest.len() as int] == rows[i]);
    }
}

/// The albums of an artist.
pub open spec fn albums_with_artist(rows: Seq<AlbumEntryView>, artist_id: Seq<char>) -> Seq<
    (Option<i64>, Seq<char>, Seq<char>, JsonView),
>
    decreases rows.len(),
{
    if rows.len() == 0 {
        seq![]
    } else {
        let rest = albums_with_artist(rows.drop_last(), artist_id);
        let a = rows.last();
        if a.artist_id == Some(artist_id) {
            rest.push(
                (
                    Some(
                        match a.year {
                            Some(y) => y,
                            None => 0,
                        },
                    ),
                    ""@,
                    a.name_norm,
                    a.data,
                ),
            )
        } else {
            rest
        }
    }
}

/// The cached albums of an artist, by year and name. An unknown year counts as
/// zero.
pub fn get_albums_by_artist(rows: &Vec<AlbumEntry>, artist_id: &str) -> (r: Vec<Json>)
    ensures
        views(r@) == stable_sort(
            albums_with_artist(views(rows@), artist_id@),
            ranking::<AlbumKeyed>(),
        ).map_values(|t: (Option<i64>, Seq<char>, Seq<char>, JsonView)| t.3),
{
    let ghost s = views(rows@);
    let mut keyed: Vec<AlbumKeyed> = Vec::new();
    let mut i: usize = 0;
    assert(s.take(0) =~= seq![]);
    assert(views(keyed@) =~= seq![]);
    while i < rows.len()
        invariant
            i <= rows@.len(),
            s == views(rows@),
            views(keyed@) == albums_with_artist(s.take(i as int), artist_id@),
        decreases rows@.len() - i,
    {
        let ghost before = keyed@;
        proof {
            assert(s.take(i + 1).drop_last() =~= s.take(i as int));
            assert(s.take(i + 1).last() == rows@[i as int]@);
        }
        let same = match &rows[i].artist_id {
            Some(a) => str_eq(a.as_str(), artist_id),
            None => false,
        };
        if same {
            let year: i64 = match rows[i].year {
                Some(y) => y,
                None => 0,
            };
            let k = AlbumKeyed {
                year: Some(year),
                first: "".to_owned(),
                second: rows[i].name_norm.clone(),
                item: rows[i].data.clone(),
            };
            let ghost kv = k@;
            keyed.push(k);
            assert(views(keyed@) =~= views(before).push(kv));
        }
        i += 1;
    }
    assert(s.take(i as int) =~= s);
    items_in_order(&sort(keyed))
}

// ── Artists ─────────────────────────────────────────────────────

/// Another artist of the same name has more albums, or as many and comes first.
pub open spec fn outranks(rows: Seq<ArtistEntryView>, j: int, i: int) -> bool {
    rows[j].name_norm == rows[i].name_norm && (rows[j].album_count > rows[i].album_count || (
    rows[j].album_count == rows[i].album_count && j < i))
}

/// The artist stands for all of its name.
pub open spec fn leads(rows: Seq<ArtistEntryView>, i: int) -> bool {
    forall|j: int| 0 <= j < rows.len() ==> !#[trigger] outranks(rows, j, i)
}

/// The first `n` artists, one for each name.
pub open spec fn leading(rows: Seq<ArtistEntryView>, n: nat) -> Seq<ArtistEntryView>
    decreases n,
{
    if n == 0 {
        seq![]
    } else {
        let rest = leading(rows, (n - 1) as nat);
        if leads(rows, n - 1) {
            rest.push(rows[n - 1])
        } else {
            rest
        }
    }
}

fn is_leading(rows: &Vec<ArtistEntry>, i: usize) -> (r: bool)
    requires
        i < rows@.len(),
    ensures
        r == leads(views(rows@), i as int),
{
    let ghost s = views(rows@);
    let mut j: usize = 0;
    while j < rows.len()
        invariant
            i < rows@.len(),
            j <= rows@.len(),
            s == views(rows@),
            forall|k: int| 0 <= k < j ==> !#[trigger] outranks(s, k, i as int),
        decreases rows@.len() - j,
    {
        assert(s[j as int] == rows@[j as int]@);
        assert(s[i as int] == rows@[i as int]@);
        if str_eq(rows[j].name_norm.as_str(), rows[i].name_norm.as_str()) && (
        rows[j].album_count > rows[i].album_count || (rows[j].album_count == rows[i].album_count
            && j < i)) {
            assert(outranks(s, j as int, i as int));
            return false;
        }
        j += 1;
    }
    true
}

/// Each name is led by an artist of that name.
pub proof fn every_name_is_led(rows: Seq<ArtistEntryView>, i: int) -> (k: int)
    requires
        0 <= i < rows.len(),
    ensures
        0 <= k < rows.len(),
        rows[k].name_norm == rows[i].name_norm,
        leads(rows, k),
    decreases i64::MAX - rows[i].album_count, i,
{
    if leads(rows, i) {
        i
    } else {
        let j = choose|j: int| 0 <= j < rows.len() && #[trigger] outranks(rows, j, i);
        every_name_is_led(rows, j)
    }
}

/// A name is led by one artist only.
pub proof fn names_are_led_once(rows: Seq<ArtistEntryView>, i: int, j: int)
    requires
        0 <= i < rows.len(),
        0 <= j < rows.len(),
        leads(rows, i),
        leads(rows, j),
        rows[i].name_norm == rows[j].name_norm,
    ensures
        i == j,
{
    assert(!outranks(rows, i, j));
    assert(!outranks(rows, j, i));
}

/// All cached artists, by name.
pub fn get_all_artists(rows: &Vec<ArtistEntry>) -> (r: Vec<Json>)
    ensures
        views(r@) == stable_sort(
            views(rows@).map_values(|a: ArtistEntryView| artist_key(a)),
            ranking::<AlbumKeyed>(),
        ).map_values(|t: (Option<i64>, Seq<char>, Seq<char>, JsonView)| t.3),
{
    let ghost want = views(rows@).map_values(|a: ArtistEntryView| artist_key(a));
    let mut keyed: Vec<AlbumKeyed> = Vec::new();
    let mut i: usize = 0;
    while i < rows.len()
        invariant
            i <= rows@.len(),
            want == views(rows@).map_values(|a: ArtistEntryView| artist_key(a)),
            views(keyed@) == want.take(i as int),
        decreases rows@.len() - i,
    {
        let ghost before = keyed@;
        let k = AlbumKeyed {
            year: None,
            first: "".to_owned(),
            second: rows[i].name_norm.clone(),
            item: rows[i].data.clone(),
        };
        let ghost kv = k@;
        keyed.push(k);
        assert(views(keyed@) =~= views(before).push(kv));
        assert(want.take(i + 1) =~= want.take(i as int).push(kv));
        i += 1;
    }
    assert(want.take(i as int) =~= want);
    items_in_order(&sort(keyed))
}

/// An artist, sorted by name.
pub open spec fn artist_key(a: ArtistEntryView) -> (Option<i64>, Seq<char>, Seq<char>, JsonView) {
    (None, ""@, a.name_norm, a.data)
}

/// An artist with this identifier has this name.
pub open spec fn is_named(artists: Seq<ArtistEntryView>, id: Seq<char>, name_norm: Seq<char>) -> bool {
    exists|i: int|
        0 <= i < artists.len() && (#[trigger] artists[i]).id == id && artists[i].name_norm
            == name_norm
}

/// What stands for each album of the artists of one name.
pub open spec fn labels_of(
    albums: Seq<AlbumEntryView>,
    artists: Seq<ArtistEntryView>,
    ms: Seq<MemberEntryView>,
    name_norm: Seq<char>,
) -> Seq<Seq<char>>
    decreases albums.len(),
{
    if albums.len() == 0 {
        seq![]
    } else {
        let rest = labels_of(albums.drop_last(), artists, ms, name_norm);
        let a = albums.last();
        match a.artist_id {
            Some(id) => if is_named(artists, id, name_norm) {
                rest.push(album_label(ms, a.id))
            } else {
                rest
            },
            None => rest,
        }
    }
}

/// How many different albums the artists of one name have: a group of
/// duplicates counts once.
pub open spec fn unique_albums(
    albums: Seq<AlbumEntryView>,
    artists: Seq<ArtistEntryView>,
    ms: Seq<MemberEntryView>,
    name_norm: Seq<char>,
) -> nat {
    labels_of(albums, artists, ms, name_norm).to_set().len()
}

fn has_name(artists: &Vec<ArtistEntry>, id: &str, name_norm: &str) -> (r: bool)
    ensures
        r == is_named(views(artists@), id@, name_norm@),
{
    let ghost s = views(artists@);
    let mut i: usize = 0;
    while i < artists.len()
        invariant
            i <= artists@.len(),
            s == views(artists@),
            forall|j: int|
                0 <= j < i ==> !((#[trigger] s[j]).id == id@ && s[j].name_norm == name_norm@),
        decreases artists@.len() - i,
    {
        assert(s[i as int] == artists@[i as int]@);
        if str_eq(artists[i].id.as_str(), id) && str_eq(
            artists[i].name_norm.as_str(),
            name_norm,
        ) {
            return true;
        }
        i += 1;
    }
    false
}

fn contains_text(v: &Vec<String>, s: &str) -> (r: bool)
    ensures
        r == views(v@).contains(s@),
{
    let mut i: usize = 0;
    while i < v.len()
        invariant
            i <= v@.len(),
            forall|j: int| 0 <= j < i ==> (#[trigger] views(v@)[j]) != s@,
        decreases v@.len() - i,
    {
        if str_eq(v[i].as_str(), s) {
            assert(views(v@)[i as int] == s@);
            return true;
        }
        i += 1;
    }
    false
}

/// Counts the different albums of the artists of one name.
pub fn count_unique_albums(
    albums: &Vec<AlbumEntry>,
    artists: &Vec<ArtistEntry>,
    members: &Vec<MemberEntry>,
    name_norm: &str,
) -> (r: usize)
    ensures
        r == unique_albums(views(albums@), views(artists@), views(members@), name_norm@),
{
    let ghost s = views(albums@);
    let ghost ars = views(artists@);
    let ghost ms = views(members@);
    let mut seen: Vec<String> = Vec::new();
    let mut i: usize = 0;
    assert(s.take(0) =~= seq![]);
    assert(views(seen@) =~= seq![]);
    assert(views(seen@).to_set() =~= labels_of(s.take(0), ars, ms, name_norm@).to_set());
    while i < albums.len()
        invariant
            i <= albums@.len(),
            s == views(albums@),
            ars == views(artists@),
            ms == views(members@),
            views(seen@).no_duplicates(),
            views(seen@).to_set() == labels_of(s.take(i as int), ars, ms, name_norm@).to_set(),
        decreases albums@.len() - i,
    {
        let ghost before = views(seen@);
        let ghost labels = labels_of(s.take(i as int), ars, ms, name_norm@);
        proof {
            assert(s.take(i + 1).drop_last() =~= s.take(i as int));
            assert(s.take(i + 1).last() == albums@[i as int]@);
        }
        match &albums[i].artist_id {
            Some(id) => {
                if has_name(artists, id.as_str(), name_norm) {
                    let label = label_of(members, albums[i].id.as_str());
                    let ghost lv = label@;
                    proof {
                        assert(before.contains(lv) <==> before.to_set().contains(lv));
                        lemma_push_set(labels, lv);
                        lemma_push_set(before, lv);
                    }
                    if !contains_text(&seen, label.as_str()) {
                        seen.push(label);
                        assert(views(seen@) =~= before.push(lv));
                    } else {
                        assert(before.to_set().insert(lv) =~= before.to_set());
                    }
                }
            },
            None => {},
        }
        i += 1;
    }
    assert(s.take(i as int) =~= s);
    proof {
        views(seen@).unique_seq_to_set();
    }
    seen.len()
}

proof fn lemma_push_set<A>(s: Seq<A>, x: A)
    ensures
        s.push(x).to_set() == s.to_set().insert(x),
{
    assert forall|y: A| s.push(x).to_set().contains(y) == s.to_set().insert(x).contains(y) by {
        if s.contains(y) {
            let i = choose|i: int| 0 <= i < s.len() && s[i] == y;
            assert(s.push(x)[i] == y);
        }
        assert(s.push(x)[s.len() as int] == x);
        if s.push(x).contains(y) && y != x {
            let i = choose|i: int| 0 <= i < s.push(x).len() && s.push(x)[i] == y;
            assert(s[i] == y);
        }
    }
    assert(s.push(x).to_set() =~= s.to_set().insert(x));
}

/// An artist as clients see it: with the number of different albums that all
/// artists of its name have.
pub open spec fn counted_artist(
    a: ArtistEntryView,
    artists: Seq<ArtistEntryView>,
    albums: Seq<AlbumEntryView>,
    ms: Seq<MemberEntryView>,
) -> (Option<i64>, Seq<char>, Seq<char>, JsonView) {
    (
        None,
        ""@,
        a.name_norm,
        a.data.with(
            "albumCount"@,
            integer(unique_albums(albums, artists, ms, a.name_norm) as int),
        ),
    )
}

/// All artists, one for each name, sorted by name. Of artists of the same name
/// the one with the most albums is there, and its number of albums is that of
/// all different albums of that name.
pub fn get_all_artists_deduped(
    artists: &Vec<ArtistEntry>,
    albums: &Vec<AlbumEntry>,
    members: &Vec<MemberEntry>,
) -> (r: Vec<Json>)
    requires
        albums@.len() <= i64::MAX,
    ensures
        views(r@) == stable_sort(
            leading(views(artists@), artists@.len()).map_values(
                |a: ArtistEntryView|
                    counted_artist(a, views(artists@), views(albums@), views(members@)),
            ),
            ranking::<AlbumKeyed>(),
        ).map_values(|t: (Option<i64>, Seq<char>, Seq<char>, JsonView)| t.3),
{
    let ghost s = views(artists@);
    let ghost f = |a: ArtistEntryView| counted_artist(a, s, views(albums@), views(members@));
    let mut keyed: Vec<AlbumKeyed> = Vec::new();
    let mut i: usize = 0;
    assert(views(keyed@) =~= leading(s, 0).map_values(f));
    while i < artists.len()
        invariant
            i <= artists@.len(),
            albums@.len() <= i64::MAX,
            s == views(artists@),
            f == (|a: ArtistEntryView| counted_artist(a, s, views(albums@), views(members@))),
            views(keyed@) == leading(s, i as nat).map_values(f),
        decreases artists@.len() - i,
    {
        let ghost before = keyed@;
        if is_leading(artists, i) {
            let n = count_unique_albums(albums, artists, members, artists[i].name_norm.as_str());
            proof {
                lemma_labels_len(views(albums@), s, views(members@), artists@[i as int].name_norm@);
                assert(views(albums@).len() == albums@.len());
            }
            let k = AlbumKeyed {
                year: None,
                first: "".to_owned(),
                second: artists[i].name_norm.clone(),
                item: artists[i].data.clone().with("albumCount", Json::integer(n as i64)),
            };
            let ghost kv = k@;
            assert(kv == f(s[i as int]));
            keyed.push(k);
            assert(views(keyed@) =~= views(before).push(kv));
            assert(leading(s, (i + 1) as nat) == leading(s, i as nat).push(s[i as int]));
            assert(leading(s, i as nat).push(s[i as int]).map_values(f) =~= leading(
                s,
                i as nat,
            ).map_values(f).push(kv));
        }
        i += 1;
    }
    items_in_order(&sort(keyed))
}

proof fn lemma_labels_len(
    albums: Seq<AlbumEntryView>,
    artists: Seq<ArtistEntryView>,
    ms: Seq<MemberEntryView>,
    name_norm: Seq<char>,
)
    ensures
        labels_of(albums, artists, ms, name_norm).len() <= albums.len(),
        unique_albums(albums, artists, ms, name_norm) <= albums.len(),
    decreases albums.len(),
{
    if albums.len() > 0 {
        lemma_labels_len(albums.drop_last(), artists, ms, name_norm);
    }
    labels_of(albums, artists, ms, name_norm).lemma_cardinality_of_set();
}

/// The name of the artist with this identifier.
pub open spec fn name_of(rows: Seq<ArtistEntryView>, id: Seq<char>) -> Option<Seq<char>>
    decreases rows.len(),
{
    if rows.len() == 0 {
        None
    } else if rows[0].id == id {
        Some(rows[0].name_norm)
    } else {
        name_of(rows.skip(1), id)
    }
}

/// The artists of a name, each with its backend.
pub open spec fn namesakes(rows: Seq<ArtistEntryView>, name_norm: Seq<char>) -> Seq<
    (Seq<char>, usize),
>
    decreases rows.len(),
{
    if rows.len() == 0 {
        seq![]
    } else {
        let rest = namesakes(rows.drop_last(), name_norm);
        if rows.last().name_norm == name_norm {
            rest.push((rows.last().id, rows.last().backend_idx))
        } else {
            rest
        }
    }
}

/// Identifiers with backends, as characters and numbers.
pub open spec fn located(s: Seq<(String, usize)>) -> Seq<(Seq<char>, usize)> {
    s.map_values(|t: (String, usize)| (t.0@, t.1))
}

/// Finds all artists of the same name across backends, the artist itself among
/// them. None are found for an artist that is not cached.
pub fn find_artist_ids_by_name(rows: &Vec<ArtistEntry>, artist_namespaced_id: &str) -> (r: Vec<
    (String, usize),
>)
    ensures
        match name_of(views(rows@), artist_namespaced_id@) {
            Some(n) => located(r@) == namesakes(views(rows@), n),
            None => r@.len() == 0,
        },
{
    let ghost s = views(rows@);
    let mut at: usize = 0;
    assert(s.skip(0) =~= s);
    while at < rows.len() && !str_eq(rows[at].id.as_str(), artist_namespaced_id)
        invariant
            at <= rows@.len(),
            s == views(rows@),
            name_of(s, artist_namespaced_id@) == name_of(
                s.skip(at as int),
                artist_namespaced_id@,
            ),
        decreases rows@.len() - at,
    {
        proof {
            assert(s.skip(at as int)[0] == rows@[at as int]@);
            assert(s.skip(at as int).skip(1) =~= s.skip(at + 1));
        }
        at += 1;
    }
    let mut out: Vec<(String, usize)> = Vec::new();
    if at == rows.len() {
        return out;
    }
    assert(s.skip(at as int)[0] == rows@[at as int]@);
    let ghost name = rows@[at as int].name_norm@;
    let mut i: usize = 0;
    assert(s.take(0) =~= seq![]);
    assert(located(out@) =~= seq![]);
    while i < rows.len()
        invariant
            i <= rows@.len(),
            at < rows@.len(),
            name == rows@[at as int].name_norm@,
            s == views(rows@),
            located(out@) == namesakes(s.take(i as int), name),
        decreases rows@.len() - i,
    {
        let ghost before = out@;
        proof {
            assert(s.take(i + 1).drop_last() =~= s.take(i as int));
            assert(s.take(i + 1).last() == rows@[i as int]@);
        }
        if str_eq(rows[i].name_norm.as_str(), rows[at].name_norm.as_str()) {
            let t = (rows[i].id.clone(), rows[i].backend_idx);
            out.push(t);
            assert(located(out@) =~= located(before).push((t.0@, t.1)));
        }
        i += 1;
    }
    assert(s.take(i as int) =~= s);
    out
}

// ── Searching ───────────────────────────────────────────────────

/// What names are matched against: the query in lower case, with anything
/// before and after it.
pub open spec fn pattern_of(query: Seq<char>) -> Seq<char> {
    "%"@ + lowercase(query) + "%"@
}

/// The artists whose names match.
pub open spec fn matching_artists(rows: Seq<ArtistEntryView>, pattern: Seq<char>) -> Seq<
    ArtistEntryView,
>
    decreases rows.len(),
{
    if rows.len() == 0 {
        seq![]
    } else {
        let rest = matching_artists(rows.drop_last(), pattern);
        if like(pattern, rows.last().name_norm) {
            rest.push(rows.last())
        } else {
            rest
        }
    }
}

/// The albums whose names match.
pub open spec fn matching_albums(rows: Seq<AlbumEntryView>, pattern: Seq<char>) -> Seq<
    AlbumEntryView,
>
    decreases rows.len(),
{
    if rows.len() == 0 {
        seq![]
    } else {
        let rest = matching_albums(rows.drop_last(), pattern);
        if like(pattern, rows.last().name_norm) {
            rest.push(rows.last())
        } else {
            rest
        }
    }
}

/// The tracks whose titles match and that are no duplicates of better ones.
pub open spec fn matching_tracks(
    rows: Seq<TrackEntryView>,
    ms: Seq<MemberEntryView>,
    pattern: Seq<char>,
) -> Seq<JsonView>
    decreases rows.len(),
{
    if rows.len() == 0 {
        seq![]
    } else {
        let rest = matching_tracks(rows.drop_last(), ms, pattern);
        if like(pattern, rows.last().title_norm) && !hidden(ms, "track"@, rows.last().id) {
            rest.push(rows.last().data)
        } else {
            rest
        }
    }
}

/// What a search finds in the cache: artists, albums and songs.
#[derive(Debug)]
pub struct Found {
    pub artists: Vec<Json>,
    pub albums: Vec<Json>,
    pub songs: Vec<Json>,
}

/// Searches the cache for names and titles that hold the query. Of artists of
/// the same name the one with the most albums is found, of duplicate albums and
/// songs the best.
pub fn search_cached(
    artists: &Vec<ArtistEntry>,
    albums: &Vec<AlbumEntry>,
    tracks: &Vec<TrackEntry>,
    members: &Vec<MemberEntry>,
    query: &str,
    artist_count: usize,
    album_count: usize,
    song_count: usize,
) -> (r: Found)
    ensures
        ({
            let named = matching_artists(views(artists@), pattern_of(query@));
            views(r.artists@) == first_n(
                leading(named, named.len()).map_values(|a: ArtistEntryView| a.data),
                artist_count as nat,
            )
        }),
        views(r.albums@) == first_n(
            shown_albums(
                matching_albums(views(albums@), pattern_of(query@)),
                views(members@),
            ).map_values(|a: AlbumEntryView| a.data),
            album_count as nat,
        ),
        views(r.songs@) == first_n(
            matching_tracks(views(tracks@), views(members@), pattern_of(query@)),
            song_count as nat,
        ),
{
    let pattern = holding(to_lowercase(query).as_str());
    let named = match_artists(artists, pattern.as_str());
    assert(views(named@).len() == named@.len());
    let found_artists = leading_data(&named);
    let matching = match_albums(albums, pattern.as_str());
    let shown = show_albums(&matching, members);
    let found_albums = album_data(&shown);
    let found_songs = match_tracks(tracks, members, pattern.as_str());
    Found {
        artists: take_page(&found_artists, 0, artist_count),
        albums: take_page(&found_albums, 0, album_count),
        songs: take_page(&found_songs, 0, song_count),
    }
}

fn match_artists(artists: &Vec<ArtistEntry>, pattern: &str) -> (r: Vec<ArtistEntry>)
    ensures
        views(r@) == matching_artists(views(artists@), pattern@),
{
    let ghost s = views(artists@);
    let mut out: Vec<ArtistEntry> = Vec::new();
    let mut i: usize = 0;
    assert(s.take(0) =~= seq![]);
    assert(views(out@) =~= seq![]);
    while i < artists.len()
        invariant
            i <= artists@.len(),
            s == views(artists@),
            views(out@) == matching_artists(s.take(i as int), pattern@),
        decreases artists@.len() - i,
    {
        let ghost before = out@;
        proof {
            assert(s.take(i + 1).drop_last() =~= s.take(i as int));
            assert(s.take(i + 1).last() == artists@[i as int]@);
        }
        if is_like(pattern, artists[i].name_norm.as_str()) {
            let c = artists[i].clone();
            out.push(c);
            assert(views(out@) =~= views(before).push(c@));
        }
        i += 1;
    }
    assert(s.take(i as int) =~= s);
    out
}

fn match_albums(albums: &Vec<AlbumEntry>, pattern: &str) -> (r: Vec<AlbumEntry>)
    ensures
        views(r@) == matching_albums(views(albums@), pattern@),
{
    let ghost s = views(albums@);
    let mut out: Vec<AlbumEntry> = Vec::new();
    let mut i: usize = 0;
    assert(s.take(0) =~= seq![]);
    assert(views(out@) =~= seq![]);
    while i < albums.len()
        invariant
            i <= albums@.len(),
            s == views(albums@),
            views(out@) == matching_albums(s.take(i as int), pattern@),
        decreases albums@.len() - i,
    {
        let ghost before = out@;
        proof {
            assert(s.take(i + 1).drop_last() =~= s.take(i as int));
            assert(s.take(i + 1).last() == albums@[i as int]@);
        }
        if is_like(pattern, albums[i].name_norm.as_str()) {
            let c = albums[i].clone();
            out.push(c);
            assert(views(out@) =~= views(before).push(c@));
        }
        i += 1;
    }
    assert(s.take(i as int) =~= s);
    out
}

fn leading_data(artists: &Vec<ArtistEntry>) -> (r: Vec<Json>)
    ensures
        views(r@) == leading(views(artists@), artists@.len()).map_values(
            |a: ArtistEntryView| a.data,
        ),
{
    let ghost s = views(artists@);
    let ghost f = |a: ArtistEntryView| a.data;
    let mut out: Vec<Json> = Vec::new();
    let mut i: usize = 0;
    assert(views(out@) =~= leading(s, 0).map_values(f));
    while i < artists.len()
        invariant
            i <= artists@.len(),
            s == views(artists@),
            f == (|a: ArtistEntryView| a.data),
            views(out@) == leading(s, i as nat).map_values(f),
        decreases artists@.len() - i,
    {
        let ghost before = out@;
        if is_leading(artists, i) {
            let c = artists[i].data.clone();
            out.push(c);
            assert(c@ == f(s[i as int]));
            assert(views(out@) =~= views(before).push(c@));
            assert(leading(s, (i + 1) as nat) == leading(s, i as nat).push(s[i as int]));
            assert(leading(s, i as nat).push(s[i as int]).map_values(f) =~= leading(
                s,
                i as nat,
            ).map_values(f).push(c@));
        }
        i += 1;
    }
    out
}

fn album_data(rows: &Vec<AlbumEntry>) -> (r: Vec<Json>)
    ensures
        views(r@) == views(rows@).map_values(|a: AlbumEntryView| a.data),
{
    let ghost want = views(rows@).map_values(|a: AlbumEntryView| a.data);
    let mut out: Vec<Json> = Vec::new();
    let mut i: usize = 0;
    while i < rows.len()
        invariant
            i <= rows@.len(),
            want == views(rows@).map_values(|a: AlbumEntryView| a.data),
            views(out@) == want.take(i as int),
        decreases rows@.len() - i,
    {
        let ghost before = out@;
        let c = rows[i].data.clone();
        out.push(c);
        assert(views(out@) =~= views(before).push(c@));
        assert(want.take(i + 1) =~= want.take(i as int).push(c@));
        i += 1;
    }
    assert(want.take(i as int) =~= want);
    out
}

fn match_tracks(tracks: &Vec<TrackEntry>, members: &Vec<MemberEntry>, pattern: &str) -> (r: Vec<
    Json,
>)
    ensures
        views(r@) == matching_tracks(views(tracks@), views(members@), pattern@),
{
    let ghost s = views(tracks@);
    let mut out: Vec<Json> = Vec::new();
    let mut i: usize = 0;
    assert(s.take(0) =~= seq![]);
    assert(views(out@) =~= seq![]);
    while i < tracks.len()
        invariant
            i <= tracks@.len(),
            s == views(tracks@),
            views(out@) == matching_tracks(s.take(i as int), views(members@), pattern@),
        decreases tracks@.len() - i,
    {
        let ghost before = out@;
        proof {
            assert(s.take(i + 1).drop_last() =~= s.take(i as int));
            assert(s.take(i + 1).last() == tracks@[i as int]@);
        }
        if is_like(pattern, tracks[i].title_norm.as_str()) && !is_hidden(
            members,
            "track",
            tracks[i].id.as_str(),
        ) {
            let c = tracks[i].data.clone();
            out.push(c);
            assert(views(out@) =~= views(before).push(c@));
        }
        i += 1;
    }
    assert(s.take(i as int) =~= s);
    out
}

/// Among few enough tracks a search finds every one whose title holds the
/// query in lower case, unless a better duplicate is found in its place.
pub proof fn held_titles_are_found(
    rows: Seq<TrackEntryView>,
    ms: Seq<MemberEntryView>,
    query: Seq<char>,
    i: int,
    before: Seq<char>,
    after: Seq<char>,
)
    requires
        0 <= i < rows.len(),
        rows[i].title_norm == before + lowercase(query) + after,
        !hidden(ms, "track"@, rows[i].id),
    ensures
        matching_tracks(rows, ms, pattern_of(query)).contains(rows[i].data),
        forall|n: nat|
            n >= rows.len() ==> #[trigger] first_n(
                matching_tracks(rows, ms, pattern_of(query)),
                n,
            ).contains(rows[i].data),
    decreases rows.len(),
{
    let p = pattern_of(query);
    let all = matching_tracks(rows, ms, p);
    let rest = matching_tracks(rows.drop_last(), ms, p);
    lemma_matching_len(rows, ms, p);
    held_texts_match(before, lowercase(query), after);
    if i == rows.len() - 1 {
        assert(all == rest.push(rows[i].data));
        assert(all[rest.len() as int] == rows[i].data);
    } else {
        held_titles_are_found(rows.drop_last(), ms, query, i, before, after);
        let k = choose|k: int| 0 <= k < rest.len() && rest[k] == rows[i].data;
        assert(all[k] == rest[k]);
    }
    assert forall|n: nat| n >= rows.len() implies #[trigger] first_n(all, n).contains(
        rows[i].data,
    ) by {
        assert(first_n(all, n) =~= all);
    }
}

proof fn lemma_matching_len(
    rows: Seq<TrackEntryView>,
    ms: Seq<MemberEntryView>,
    pattern: Seq<char>,
)
    ensures
        matching_tracks(rows, ms, pattern).len() <= rows.len(),
    decreases rows.len(),
{
    if rows.len() > 0 {
        lemma_matching_len(rows.drop_last(), ms, pattern);
    }
}

// ── Laws of what the cache shows ────────────────────────────────

/// The best member of a group is one of its members, and none scores higher; of
/// those that score the same it is the first.
pub proof fn best_member_scores_highest(ms: Seq<MemberEntryView>, fingerprint: Seq<char>) -> (k: int)
    requires
        exists|i: int| 0 <= i < ms.len() && (#[trigger] ms[i]).fingerprint == fingerprint,
    ensures
        0 <= k < ms.len(),
        ms[k].fingerprint == fingerprint,
        best_member(ms, fingerprint) == Some((ms[k].namespaced_id, ms[k].score)),
        forall|i: int|
            0 <= i < ms.len() && (#[trigger] ms[i]).fingerprint == fingerprint ==> ms[i].score
                <= ms[k].score,
        forall|i: int|
            0 <= i < k && (#[trigger] ms[i]).fingerprint == fingerprint ==> ms[i].score
                < ms[k].score,
    decreases ms.len(),
{
    let d = ms.drop_last();
    let n = ms.len() - 1;
    assert(ms.last() == ms[n]);
    if exists|i: int| 0 <= i < d.len() && (#[trigger] d[i]).fingerprint == fingerprint {
        let k = best_member_scores_highest(d, fingerprint);
        assert forall|i: int| 0 <= i < d.len() implies d[i] == ms[i] by {}
        if ms.last().fingerprint == fingerprint && ms.last().score > d[k].score {
            assert forall|i: int|
                0 <= i < ms.len() && (#[trigger] ms[i]).fingerprint == fingerprint implies ms[i].score
                <= ms[n].score && (i < n ==> ms[i].score < ms[n].score) by {
                if i < n {
                    assert(d[i].score <= d[k].score);
                }
            }
            n
        } else {
            assert forall|i: int|
                0 <= i < ms.len() && (#[trigger] ms[i]).fingerprint == fingerprint implies ms[i].score
                <= ms[k].score && (i < k ==> ms[i].score < ms[k].score) by {
                if i < n {
                    assert(d[i].score <= d[k].score);
                }
            }
            k
        }
    } else {
        assert forall|i: int| 0 <= i < n implies (#[trigger] ms[i]).fingerprint != fingerprint by {
            assert(d[i] == ms[i]);
        }
        lemma_no_best(d, fingerprint);
        n
    }
}

proof fn lemma_no_best(ms: Seq<MemberEntryView>, fingerprint: Seq<char>)
    requires
        forall|i: int| 0 <= i < ms.len() ==> (#[trigger] ms[i]).fingerprint != fingerprint,
    ensures
        best_member(ms, fingerprint) is None,
    decreases ms.len(),
{
    if ms.len() > 0 {
        let d = ms.drop_last();
        assert forall|i: int| 0 <= i < d.len() implies (#[trigger] d[i]).fingerprint
            != fingerprint by {
            assert(d[i] == ms[i]);
        }
        lemma_no_best(d, fingerprint);
        assert(ms.last() == ms[ms.len() - 1]);
    }
}

/// A copy is hidden where another copy of its group scores higher.
pub proof fn worse_copies_are_hidden(ms: Seq<MemberEntryView>, i: int, j: int)
    requires
        0 <= i < ms.len(),
        0 <= j < ms.len(),
        ms[i].fingerprint == ms[j].fingerprint,
        ms[j].score > ms[i].score,
        forall|k: int|
            0 <= k < ms.len() && (#[trigger] ms[k]).namespaced_id == ms[i].namespaced_id
                && ms[k].fingerprint == ms[i].fingerprint ==> ms[k].score == ms[i].score,
    ensures
        hidden(ms, ms[i].entity_type, ms[i].namespaced_id),
{
    let k = best_member_scores_highest(ms, ms[i].fingerprint);
    assert(ms[j].score <= ms[k].score);
    assert(is_spare(ms, i));
}

/// An item that is in no group of duplicates is not hidden.
pub proof fn items_without_copies_are_shown(
    ms: Seq<MemberEntryView>,
    entity_type: Seq<char>,
    id: Seq<char>,
)
    requires
        forall|i: int| 0 <= i < ms.len() ==> (#[trigger] ms[i]).namespaced_id != id,
    ensures
        !hidden(ms, entity_type, id),
{
}

/// What is shown of the albums are all that are not hidden, in their order.
pub proof fn shown_albums_are_those_not_hidden(
    rows: Seq<AlbumEntryView>,
    ms: Seq<MemberEntryView>,
)
    ensures
        shown_albums(rows, ms) == rows.filter(|a: AlbumEntryView| !hidden(ms, "album"@, a.id)),
    decreases rows.len(),
{
    lemma_filter_end(rows, |a: AlbumEntryView| !hidden(ms, "album"@, a.id));
    if rows.len() > 0 {
        shown_albums_are_those_not_hidden(rows.drop_last(), ms);
    }
}

/// Cached albums are listed in the order that the list type asks for, each
/// once: the latest first; by artist without regard to case; by year, those
/// without one first; in every other case by name. Within an artist or a year
/// they are by name.
pub proof fn cached_albums_are_sorted(rows: Seq<AlbumEntryView>, by: Seq<char>) -> (t: Seq<
    AlbumEntryView,
>)
    ensures
        sorted_albums(rows, by) == t.map_values(|a: AlbumEntryView| a.data),
        t.to_multiset() == rows.to_multiset(),
        forall|i: int, j: int|
            #![trigger t[i], t[j]]
            0 <= i < j < t.len() ==> if by == "newest"@ {
                !text_less(t[i].updated_at, t[j].updated_at)
            } else if by == "alphabeticalByArtist"@ {
                let a = ascii_lower(
                    match t[i].artist {
                        Some(s) => s,
                        None => ""@,
                    },
                );
                let b = ascii_lower(
                    match t[j].artist {
                        Some(s) => s,
                        None => ""@,
                    },
                );
                !text_less(b, a) && (a == b ==> !text_less(t[j].name_norm, t[i].name_norm))
            } else if by == "byYear"@ {
                match (t[i].year, t[j].year) {
                    (Some(x), Some(y)) => x <= y && (x == y ==> !text_less(
                        t[j].name_norm,
                        t[i].name_norm,
                    )),
                    (Some(_), None) => false,
                    (None, Some(_)) => true,
                    (None, None) => !text_less(t[j].name_norm, t[i].name_norm),
                }
            } else {
                !text_less(t[j].name_norm, t[i].name_norm)
            },
{
    if by == "newest"@ {
        let key = |a: AlbumEntryView| (a.updated_at, a.data);
        ranking_is_total_preorder::<TextKeyedDown>();
        let leq = ranking::<TextKeyedDown>();
        let t = sorting_keys_sorts_items(rows, key, leq);
        assert(sorted_albums(rows, by) =~= t.map_values(|a: AlbumEntryView| a.data));
        assert forall|i: int, j: int| #![trigger t[i], t[j]] 0 <= i < j < t.len() implies !text_less(
            t[i].updated_at,
            t[j].updated_at,
        ) by {
            assert(leq(key(t[i]), key(t[j])));
        }
        t
    } else {
        let key = |a: AlbumEntryView| album_key(a, by);
        ranking_is_total_preorder::<AlbumKeyed>();
        let leq = ranking::<AlbumKeyed>();
        let t = sorting_keys_sorts_items(rows, key, leq);
        assert(sorted_albums(rows, by) =~= t.map_values(|a: AlbumEntryView| a.data));
        assert forall|i: int, j: int| #![trigger t[i], t[j]] 0 <= i < j < t.len() implies AlbumKeyed::leq(
            album_key(t[i], by),
            album_key(t[j], by),
        ) by {
            assert(leq(key(t[i]), key(t[j])));
        }
        lemma_distinct_kinds();
        assert forall|i: int, j: int| #![trigger t[i], t[j]] 0 <= i < j < t.len() implies if by
            == "alphabeticalByArtist"@ {
            let a = ascii_lower(
                match t[i].artist {
                    Some(s) => s,
                    None => ""@,
                },
            );
            let b = ascii_lower(
                match t[j].artist {
                    Some(s) => s,
                    None => ""@,
                },
            );
            !text_less(b, a) && (a == b ==> !text_less(t[j].name_norm, t[i].name_norm))
        } else if by == "byYear"@ {
            match (t[i].year, t[j].year) {
                (Some(x), Some(y)) => x <= y && (x == y ==> !text_less(
                    t[j].name_norm,
                    t[i].name_norm,
                )),
                (Some(_), None) => false,
                (None, Some(_)) => true,
                (None, None) => !text_less(t[j].name_norm, t[i].name_norm),
            }
        } else {
            !text_less(t[j].name_norm, t[i].name_norm)
        } by {
            let a = album_key(t[i], by);
            let b = album_key(t[j], by);
            assert(AlbumKeyed::leq(a, b));
            text_less_irreflexive(a.1);
            text_less_irreflexive(""@);
            if text_less(a.1, b.1) && text_less(b.1, a.1) {
                text_less_transitive(a.1, b.1, a.1);
            }
        }
        t
    }
}

proof fn lemma_distinct_kinds()
    ensures
        "newest"@ != "alphabeticalByArtist"@,
        "byYear"@ != "alphabeticalByArtist"@,
        "byYear"@ != "newest"@,
{
    reveal_strlit("newest");
    reveal_strlit("alphabeticalByArtist");
    reveal_strlit("byYear");
    assert("newest"@[0] == 'n' && "byYear"@[0] == 'b');
}

/// The cached albums of an artist are all albums that name this artist, by
/// year, an unknown one as zero, and by name within a year.
pub proof fn albums_of_an_artist_are_found(rows: Seq<AlbumEntryView>, artist_id: Seq<char>) -> (t:
    Seq<AlbumEntryView>)
    ensures
        stable_sort(
            albums_with_artist(rows, artist_id),
            ranking::<AlbumKeyed>(),
        ).map_values(|t: (Option<i64>, Seq<char>, Seq<char>, JsonView)| t.3) == t.map_values(
            |a: AlbumEntryView| a.data,
        ),
        t.to_multiset() == rows.filter(
            |a: AlbumEntryView| a.artist_id == Some(artist_id),
        ).to_multiset(),
        forall|i: int, j: int|
            #![trigger t[i], t[j]]
            0 <= i < j < t.len() ==> {
                let x = match t[i].year {
                    Some(y) => y,
                    None => 0,
                };
                let y = match t[j].year {
                    Some(y) => y,
                    None => 0,
                };
                x <= y && (x == y ==> !text_less(t[j].name_norm, t[i].name_norm))
            },
{
    let own = rows.filter(|a: AlbumEntryView| a.artist_id == Some(artist_id));
    let key = |a: AlbumEntryView|
        (
            Some(
                match a.year {
                    Some(y) => y,
                    None => 0,
                },
            ),
            ""@,
            a.name_norm,
            a.data,
        );
    lemma_albums_with_artist(rows, artist_id);
    assert(albums_with_artist(rows, artist_id) == own.map_values(key));
    ranking_is_total_preorder::<AlbumKeyed>();
    let leq = ranking::<AlbumKeyed>();
    let t = sorting_keys_sorts_items(own, key, leq);
    assert(t.map_values(key).map_values(
        |t: (Option<i64>, Seq<char>, Seq<char>, JsonView)| t.3,
    ) =~= t.map_values(|a: AlbumEntryView| a.data));
    assert forall|i: int, j: int| #![trigger t[i], t[j]] 0 <= i < j < t.len() implies {
        let x = match t[i].year {
            Some(y) => y,
            None => 0,
        };
        let y = match t[j].year {
            Some(y) => y,
            None => 0,
        };
        x <= y && (x == y ==> !text_less(t[j].name_norm, t[i].name_norm))
    } by {
        assert(leq(key(t[i]), key(t[j])));
        text_less_irreflexive(""@);
    }
    t
}

proof fn lemma_albums_with_artist(rows: Seq<AlbumEntryView>, artist_id: Seq<char>)
    ensures
        albums_with_artist(rows, artist_id) == rows.filter(
            |a: AlbumEntryView| a.artist_id == Some(artist_id),
        ).map_values(
            |a: AlbumEntryView|
                (
                    Some(
                        match a.year {
                            Some(y) => y,
                            None => 0,
                        },
                    ),
                    ""@,
                    a.name_norm,
                    a.data,
                ),
        ),
    decreases rows.len(),
{
    lemma_pick_end(
        rows,
        |a: AlbumEntryView| a.artist_id == Some(artist_id),
        |a: AlbumEntryView|
            (
                Some(
                    match a.year {
                        Some(y) => y,
                        None => 0,
                    },
                ),
                ""@,
                a.name_norm,
                a.data,
            ),
    );
    if rows.len() > 0 {
        lemma_albums_with_artist(rows.drop_last(), artist_id);
    }
}

proof fn lemma_leading(rows: Seq<ArtistEntryView>, n: nat, x: ArtistEntryView)
    requires
        n <= rows.len(),
    ensures
        leading(rows, n).contains(x) <==> exists|i: int|
            0 <= i < n && leads(rows, i) && #[trigger] rows[i] == x,
    decreases n,
{
    if n > 0 {
        let m = (n - 1) as nat;
        lemma_leading(rows, m, x);
        let rest = leading(rows, m);
        let all = leading(rows, n);
        if all.contains(x) {
            let k = choose|k: int| 0 <= k < all.len() && all[k] == x;
            if k < rest.len() {
                assert(rest[k] == x);
                let i = choose|i: int| 0 <= i < m && leads(rows, i) && #[trigger] rows[i] == x;
                assert(rows[i] == x);
            } else {
                assert(rows[n - 1] == x);
            }
        }
        if exists|i: int| 0 <= i < n && leads(rows, i) && #[trigger] rows[i] == x {
            let i = choose|i: int| 0 <= i < n && leads(rows, i) && #[trigger] rows[i] == x;
            if i < m {
                assert(rest.contains(x));
                let k = choose|k: int| 0 <= k < rest.len() && rest[k] == x;
                assert(all[k] == x);
            } else {
                assert(all[all.len() - 1] == x);
            }
        }
    }
}

/// Each name stands once among the listed artists, and it is an artist with as
/// many albums as any other of that name.
pub proof fn names_are_listed_once_by_their_richest(
    rows: Seq<ArtistEntryView>,
    i: int,
) -> (k: int)
    requires
        0 <= i < rows.len(),
    ensures
        ({
            let shown = leading(rows, rows.len());
            &&& 0 <= k < shown.len()
            &&& shown[k].name_norm == rows[i].name_norm
            &&& rows.contains(shown[k])
            &&& forall|j: int|
                0 <= j < rows.len() && (#[trigger] rows[j]).name_norm == rows[i].name_norm
                    ==> rows[j].album_count <= shown[k].album_count
            &&& forall|j: int|
                0 <= j < shown.len() && (#[trigger] shown[j]).name_norm == rows[i].name_norm ==> j
                    == k
        }),
{
    let shown = leading(rows, rows.len());
    let l = every_name_is_led(rows, i);
    lemma_leading(rows, rows.len(), rows[l]);
    assert(shown.contains(rows[l]));
    let k = choose|k: int| 0 <= k < shown.len() && shown[k] == rows[l];
    assert forall|j: int|
        0 <= j < rows.len() && (#[trigger] rows[j]).name_norm == rows[i].name_norm implies rows[j].album_count
        <= shown[k].album_count by {
        assert(!outranks(rows, j, l));
    }
    assert forall|j: int|
        0 <= j < shown.len() && (#[trigger] shown[j]).name_norm == rows[i].name_norm implies j
        == k by {
        lemma_leading_places(rows, rows.len(), j, k);
    }
    k
}

proof fn lemma_leading_at(rows: Seq<ArtistEntryView>, n: nat, j: int) -> (p: int)
    requires
        n <= rows.len(),
        0 <= j < leading(rows, n).len(),
    ensures
        0 <= p < n,
        leads(rows, p),
        rows[p] == leading(rows, n)[j],
        p >= j,
    decreases n,
{
    let m = (n - 1) as nat;
    let rest = leading(rows, m);
    lemma_leading_len(rows, m);
    if j < rest.len() {
        lemma_leading_at(rows, m, j)
    } else {
        m as int
    }
}

proof fn lemma_leading_len(rows: Seq<ArtistEntryView>, n: nat)
    ensures
        leading(rows, n).len() <= n,
    decreases n,
{
    if n > 0 {
        lemma_leading_len(rows, (n - 1) as nat);
    }
}

proof fn lemma_leading_places(rows: Seq<ArtistEntryView>, n: nat, j: int, k: int)
    requires
        n <= rows.len(),
        0 <= j < leading(rows, n).len(),
        0 <= k < leading(rows, n).len(),
        leading(rows, n)[j].name_norm == leading(rows, n)[k].name_norm,
    ensures
        j == k,
    decreases n,
{
    let m = (n - 1) as nat;
    let rest = leading(rows, m);
    if j < rest.len() && k < rest.len() {
        lemma_leading_places(rows, m, j, k);
    } else if j < rest.len() {
        let p = lemma_leading_at(rows, m, j);
        names_are_led_once(rows, p, m as int);
    } else if k < rest.len() {
        let p = lemma_leading_at(rows, m, k);
        names_are_led_once(rows, p, m as int);
    }
}

/// Copies of an album, which are in one group, count once; an album that is in
/// no group counts for itself.
pub proof fn albums_are_labelled_by_group(ms: Seq<MemberEntryView>, id: Seq<char>, i: int)
    ensures
        (forall|k: int|
            0 <= k < ms.len() ==> !((#[trigger] ms[k]).entity_type == "album"@
                && ms[k].namespaced_id == id)) ==> album_label(ms, id) == id,
        0 <= i < ms.len() && ms[i].entity_type == "album"@ && ms[i].namespaced_id == id && (forall|
            k: int,
        |
            0 <= k < i ==> !((#[trigger] ms[k]).entity_type == "album"@ && ms[k].namespaced_id
                == id)) ==> album_label(ms, id) == ms[i].fingerprint,
    decreases ms.len(),
{
    if ms.len() > 0 {
        let t = ms.skip(1);
        albums_are_labelled_by_group(t, id, i - 1);
        assert(ms[0] == ms[0]);
        assert forall|k: int| 0 <= k < t.len() implies (#[trigger] t[k]) == ms[k + 1] by {}
        if forall|k: int|
            0 <= k < ms.len() ==> !((#[trigger] ms[k]).entity_type == "album"@
                && ms[k].namespaced_id == id) {
            assert forall|k: int| 0 <= k < t.len() implies !((#[trigger] t[k]).entity_type
                == "album"@ && t[k].namespaced_id == id) by {
                assert(t[k] == ms[k + 1]);
            }
        }
        if 0 < i < ms.len() && ms[i].entity_type == "album"@ && ms[i].namespaced_id == id && (
        forall|k: int|
            0 <= k < i ==> !((#[trigger] ms[k]).entity_type == "album"@ && ms[k].namespaced_id
                == id)) {
            assert(t[i - 1] == ms[i]);
            assert forall|k: int| 0 <= k < i - 1 implies !((#[trigger] t[k]).entity_type
                == "album"@ && t[k].namespaced_id == id) by {
                assert(t[k] == ms[k + 1]);
            }
        }
    }
}

/// The number of albums of a name is that of the different labels of the albums
/// whose artist has that name.
pub proof fn different_albums_are_counted(
    albums: Seq<AlbumEntryView>,
    artists: Seq<ArtistEntryView>,
    ms: Seq<MemberEntryView>,
    name_norm: Seq<char>,
)
    ensures
        unique_albums(albums, artists, ms, name_norm) == albums.filter(
            |a: AlbumEntryView|
                exists|i: int|
                    0 <= i < artists.len() && Some((#[trigger] artists[i]).id) == a.artist_id
                        && artists[i].name_norm == name_norm,
        ).map_values(|a: AlbumEntryView| album_label(ms, a.id)).to_set().len(),
{
    lemma_labels(albums, artists, ms, name_norm);
}

proof fn lemma_labels(
    albums: Seq<AlbumEntryView>,
    artists: Seq<ArtistEntryView>,
    ms: Seq<MemberEntryView>,
    name_norm: Seq<char>,
)
    ensures
        labels_of(albums, artists, ms, name_norm) == albums.filter(
            |a: AlbumEntryView|
                exists|i: int|
                    0 <= i < artists.len() && Some((#[trigger] artists[i]).id) == a.artist_id
                        && artists[i].name_norm == name_norm,
        ).map_values(|a: AlbumEntryView| album_label(ms, a.id)),
    decreases albums.len(),
{
    let p = |a: AlbumEntryView|
        exists|i: int|
            0 <= i < artists.len() && Some((#[trigger] artists[i]).id) == a.artist_id
                && artists[i].name_norm == name_norm;
    let f = |a: AlbumEntryView| album_label(ms, a.id);
    lemma_pick_end(albums, p, f);
    if albums.len() > 0 {
        lemma_labels(albums.drop_last(), artists, ms, name_norm);
        let a = albums.last();
        match a.artist_id {
            Some(id) => {
                if is_named(artists, id, name_norm) {
                    let i = choose|i: int|
                        0 <= i < artists.len() && (#[trigger] artists[i]).id == id
                            && artists[i].name_norm == name_norm;
                    assert(Some(artists[i].id) == a.artist_id);
                    assert(p(a));
                } else if p(a) {
                    let i = choose|i: int|
                        0 <= i < artists.len() && Some((#[trigger] artists[i]).id) == a.artist_id
                            && artists[i].name_norm == name_norm;
                    assert(artists[i].id == id);
                }
            },
            None => {},
        }
    }
}

/// An artist is shown with the number of different albums of its name, and with
/// all else that is cached of it.
pub proof fn shown_artists_count_their_albums(
    a: ArtistEntryView,
    artists: Seq<ArtistEntryView>,
    albums: Seq<AlbumEntryView>,
    ms: Seq<MemberEntryView>,
    key: Seq<char>,
)
    requires
        a.data is Object,
        albums.len() <= i64::MAX,
    ensures
        counted_artist(a, artists, albums, ms).2 == a.name_norm,
        counted_artist(a, artists, albums, ms).3.get_signed("albumCount"@) == Some(
            unique_albums(albums, artists, ms, a.name_norm) as i64,
        ),
        key != "albumCount"@ ==> counted_artist(a, artists, albums, ms).3.get(key) == a.data.get(
            key,
        ),
{
    broadcast use reading_after_setting;

    lemma_labels_len(albums, artists, ms, a.name_norm);
}

/// Artists are listed by name.
pub proof fn cached_artists_are_sorted(rows: Seq<ArtistEntryView>) -> (t: Seq<ArtistEntryView>)
    ensures
        stable_sort(
            rows.map_values(|a: ArtistEntryView| artist_key(a)),
            ranking::<AlbumKeyed>(),
        ).map_values(|t: (Option<i64>, Seq<char>, Seq<char>, JsonView)| t.3) == t.map_values(
            |a: ArtistEntryView| a.data,
        ),
        t.to_multiset() == rows.to_multiset(),
        forall|i: int, j: int|
            #![trigger t[i], t[j]]
            0 <= i < j < t.len() ==> !text_less(t[j].name_norm, t[i].name_norm),
{
    let key = |a: ArtistEntryView| artist_key(a);
    ranking_is_total_preorder::<AlbumKeyed>();
    let leq = ranking::<AlbumKeyed>();
    let t = sorting_keys_sorts_items(rows, key, leq);
    assert(t.map_values(key).map_values(
        |t: (Option<i64>, Seq<char>, Seq<char>, JsonView)| t.3,
    ) =~= t.map_values(|a: ArtistEntryView| a.data));
    assert forall|i: int, j: int| #![trigger t[i], t[j]] 0 <= i < j < t.len() implies !text_less(
        t[j].name_norm,
        t[i].name_norm,
    ) by {
        assert(leq(key(t[i]), key(t[j])));
        text_less_irreflexive(""@);
    }
    t
}

/// The artists of one name are found on all backends, whichever of them is
/// asked for.
pub proof fn artists_of_one_name_are_found(rows: Seq<ArtistEntryView>, i: int)
    requires
        0 <= i < rows.len(),
        forall|j: int| 0 <= j < i ==> (#[trigger] rows[j]).id != rows[i].id,
    ensures
        name_of(rows, rows[i].id) == Some(rows[i].name_norm),
        namesakes(rows, rows[i].name_norm) == rows.filter(
            |a: ArtistEntryView| a.name_norm == rows[i].name_norm,
        ).map_values(|a: ArtistEntryView| (a.id, a.backend_idx)),
{
    lemma_name_of(rows, i);
    lemma_namesakes(rows, rows[i].name_norm);
    let name = rows[i].name_norm;
    let p = |a: ArtistEntryView| a.name_norm == rows[i].name_norm;
    assert(p =~= (|a: ArtistEntryView| a.name_norm == name));
}

proof fn lemma_name_of(rows: Seq<ArtistEntryView>, i: int)
    requires
        0 <= i < rows.len(),
        forall|j: int| 0 <= j < i ==> (#[trigger] rows[j]).id != rows[i].id,
    ensures
        name_of(rows, rows[i].id) == Some(rows[i].name_norm),
    decreases rows.len(),
{
    if i > 0 {
        let t = rows.skip(1);
        assert(rows[0].id != rows[i].id);
        assert forall|j: int| 0 <= j < i - 1 implies (#[trigger] t[j]).id != t[i - 1].id by {
            assert(t[j] == rows[j + 1]);
        }
        assert(t[i - 1] == rows[i]);
        lemma_name_of(t, i - 1);
    }
}

proof fn lemma_namesakes(rows: Seq<ArtistEntryView>, name: Seq<char>)
    ensures
        namesakes(rows, name) == rows.filter(
            |a: ArtistEntryView| a.name_norm == name,
        ).map_values(|a: ArtistEntryView| (a.id, a.backend_idx)),
    decreases rows.len(),
{
    lemma_pick_end(
        rows,
        |a: ArtistEntryView| a.name_norm == name,
        |a: ArtistEntryView| (a.id, a.backend_idx),
    );
    if rows.len() > 0 {
        lemma_namesakes(rows.drop_last(), name);
    }
}

/// A search finds the artists and albums whose names hold the query in lower
/// case, with anything before and after it, and no others; of tracks those that
/// are not hidden.
pub proof fn searches_find_what_holds_the_query(
    artists: Seq<ArtistEntryView>,
    albums: Seq<AlbumEntryView>,
    tracks: Seq<TrackEntryView>,
    ms: Seq<MemberEntryView>,
    query: Seq<char>,
)
    ensures
        matching_artists(artists, pattern_of(query)) == artists.filter(
            |a: ArtistEntryView| like(seq!['%'] + lowercase(query) + seq!['%'], a.name_norm),
        ),
        matching_albums(albums, pattern_of(query)) == albums.filter(
            |a: AlbumEntryView| like(seq!['%'] + lowercase(query) + seq!['%'], a.name_norm),
        ),
        matching_tracks(tracks, ms, pattern_of(query)) == tracks.filter(
            |t: TrackEntryView|
                like(seq!['%'] + lowercase(query) + seq!['%'], t.title_norm) && !hidden(
                    ms,
                    "track"@,
                    t.id,
                ),
        ).map_values(|t: TrackEntryView| t.data),
{
    reveal_strlit("%");
    assert("%"@ =~= seq!['%']);
    let p = pattern_of(query);
    assert(p == seq!['%'] + lowercase(query) + seq!['%']);
    lemma_matching(artists, albums, tracks, ms, p);
}

proof fn lemma_matching(
    artists: Seq<ArtistEntryView>,
    albums: Seq<AlbumEntryView>,
    tracks: Seq<TrackEntryView>,
    ms: Seq<MemberEntryView>,
    p: Seq<char>,
)
    ensures
        matching_artists(artists, p) == artists.filter(|a: ArtistEntryView| like(p, a.name_norm)),
        matching_albums(albums, p) == albums.filter(|a: AlbumEntryView| like(p, a.name_norm)),
        matching_tracks(tracks, ms, p) == tracks.filter(
            |t: TrackEntryView| like(p, t.title_norm) && !hidden(ms, "track"@, t.id),
        ).map_values(|t: TrackEntryView| t.data),
    decreases artists.len() + albums.len() + tracks.len(),
{
    lemma_filter_end(artists, |a: ArtistEntryView| like(p, a.name_norm));
    lemma_filter_end(albums, |a: AlbumEntryView| like(p, a.name_norm));
    lemma_pick_end(
        tracks,
        |t: TrackEntryView| like(p, t.title_norm) && !hidden(ms, "track"@, t.id),
        |t: TrackEntryView| t.data,
    );
    if artists.len() > 0 {
        lemma_matching(artists.drop_last(), albums, tracks, ms, p);
    }
    if albums.len() > 0 {
        lemma_matching(artists, albums.drop_last(), tracks, ms, p);
    }
    if tracks.len() > 0 {
        lemma_matching(artists, albums, tracks.drop_last(), ms, p);
    }
}

} // verus!
