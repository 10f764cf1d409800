//! Merging what several backends answer into one answer.

use crate::id::{encode_id, namespaced_id};
use crate::json::{
    append_items, clone_items, json_view_parts, lemma_item_smaller, lemma_member_smaller,
    members_view, object, reading_after_setting, set_then_get, Json, JsonView,
};
use crate::random::{is_order, order_drawn, random_order, reordered};
use crate::seqs::lemma_flat_end;
use crate::sorting::{
    mapping_keeps_items, ranking, ranking_is_total_preorder, sort, stable_sort, stable_sort_sorts,
    Ranked,
};
use crate::strs::{
    str_eq, str_less, text_less, text_less_irreflexive, text_less_total, text_less_transitive,
    views,
};
use crate::unicode::{lowercase, to_lowercase};
use vstd::prelude::*;

verus! {

/// A member of this name holds a Subsonic ID.
pub open spec fn is_id_name(key: Seq<char>) -> bool {
    key == "id"@ || key == "parent"@ || key == "coverArt"@ || key == "artistId"@ || key
        == "albumId"@ || key == "songId"@ || key == "playlistId"@
}

fn is_id_field(key: &str) -> (r: bool)
    ensures
        r == is_id_name(key@),
{
    str_eq(key, "id") || str_eq(key, "parent") || str_eq(key, "coverArt") || str_eq(
        key,
        "artistId",
    ) || str_eq(key, "albumId") || str_eq(key, "songId") || str_eq(key, "playlistId")
}

/// `v` with every ID in it namespaced, at every depth.
pub open spec fn namespaced(v: JsonView, idx: nat) -> JsonView
    decreases v,
{
    match v {
        JsonView::Array(a) => JsonView::Array(
            Seq::new(
                a.len(),
                |i: int| if 0 <= i < a.len() { namespaced(a[i], idx) } else { JsonView::Null },
            ),
        ),
        JsonView::Object(m) => JsonView::Object(
            Seq::new(
                m.len(),
                |i: int|
                    if 0 <= i < m.len() {
                        (
                            m[i].0,
                            match m[i].1 {
                                JsonView::Text(s) => if is_id_name(m[i].0) {
                                    JsonView::Text(namespaced_id(idx, s))
                                } else {
                                    m[i].1
                                },
                                _ => namespaced(m[i].1, idx),
                            },
                        )
                    } else {
                        (seq![], JsonView::Null)
                    },
            ),
        ),
        _ => v,
    }
}

/// A copy of `v` with every ID in it namespaced.
pub fn namespaced_copy(v: &Json, backend_idx: usize) -> (r: Json)
    ensures
        r@ == namespaced(v@, backend_idx as nat),
    decreases v,
{
    broadcast use json_view_parts;

    match v {
        Json::Array(a) => {
            let mut out: Vec<Json> = Vec::new();
            let mut i: usize = 0;
            while i < a.len()
                invariant
                    i <= a@.len(),
                    *v == Json::Array(*a),
                    out@.len() == i,
                    forall|k: int|
                        0 <= k < i ==> (#[trigger] out@[k])@ == namespaced(
                            a@[k]@,
                            backend_idx as nat,
                        ),
                decreases a@.len() - i,
            {
                proof {
                    lemma_item_smaller(*v, i as int);
                }
                let c = namespaced_copy(&a[i], backend_idx);
                out.push(c);
                i += 1;
            }
            let r = Json::array(out);
            assert(r@->Array_0 =~= namespaced(v@, backend_idx as nat)->Array_0);
            r
        },
        Json::Object(m) => {
            let mut out: Vec<(String, Json)> = Vec::new();
            let mut i: usize = 0;
            let ghost want = namespaced(v@, backend_idx as nat)->Object_0;
            while i < m.len()
                invariant
                    i <= m@.len(),
                    *v == Json::Object(*m),
                    v@ == JsonView::Object(members_view(m@)),
                    want == namespaced(v@, backend_idx as nat)->Object_0,
                    out@.len() == i,
                    forall|k: int|
                        0 <= k < i ==> ((#[trigger] out@[k]).0@, out@[k].1@) == want[k],
                decreases m@.len() - i,
            {
                proof {
                    lemma_member_smaller(*v, i as int);
                    assert(members_view(m@)[i as int] == (m@[i as int].0@, m@[i as int].1@));
                }
                let k = m[i].0.clone();
                let c = match &m[i].1 {
                    Json::Text(s) => if is_id_field(k.as_str()) {
                        Json::Text(encode_id(backend_idx, s.as_str()))
                    } else {
                        Json::Text(s.clone())
                    },
                    other => namespaced_copy(other, backend_idx),
                };
                out.push((k, c));
                i += 1;
            }
            let r = Json::Object(out);
            assert(r@->Object_0 =~= want);
            r
        },
        other => other.clone(),
    }
}

/// Rewriting all Subsonic IDs in a value to be namespaced.
pub trait NamespaceIds {
    fn namespace_ids(&mut self, backend_idx: usize);
}

impl NamespaceIds for Json {
    fn namespace_ids(&mut self, backend_idx: usize)
        ensures
            final(self)@ == namespaced(old(self)@, backend_idx as nat),
    {
        let r = namespaced_copy(&*self, backend_idx);
        *self = r;
    }
}

/// What backends answered, each with the index of the backend.
pub open spec fn responses_view(s: Seq<(usize, Json)>) -> Seq<(usize, JsonView)> {
    s.map_values(|p: (usize, Json)| (p.0, p.1@))
}

/// The part of a response under the name `first`, or else under `second`.
pub open spec fn section(resp: JsonView, first: Seq<char>, second: Seq<char>) -> Option<JsonView> {
    if resp.get(first) is Some {
        resp.get(first)
    } else {
        resp.get(second)
    }
}

/// All items of the member `field` in that part of each response, namespaced,
/// in the order of the responses.
pub open spec fn gathered(
    rs: Seq<(usize, JsonView)>,
    first: Seq<char>,
    second: Seq<char>,
    field: Seq<char>,
) -> Seq<JsonView>
    decreases rs.len(),
{
    if rs.len() == 0 {
        seq![]
    } else {
        let (idx, resp) = rs.last();
        gathered(rs.drop_last(), first, second, field) + match section(resp, first, second) {
            Some(s) => namespaced(s, idx as nat).items(field),
            None => seq![],
        }
    }
}

/// Gathers the items of one member from all responses.
pub fn gather(responses: &Vec<(usize, Json)>, first: &str, second: &str, field: &str) -> (r: Vec<
    Json,
>)
    ensures
        views(r@) == gathered(responses_view(responses@), first@, second@, field@),
{
    let ghost rs = responses_view(responses@);
    let mut all: Vec<Json> = Vec::new();
    let mut i: usize = 0;
    assert(views(all@) =~= seq![]);
    assert(rs.take(0) =~= seq![]);
    while i < responses.len()
        invariant
            i <= responses@.len(),
            rs == responses_view(responses@),
            views(all@) == gathered(rs.take(i as int), first@, second@, field@),
        decreases responses@.len() - i,
    {
        let ghost before = views(all@);
        proof {
            assert(rs.take(i + 1).drop_last() =~= rs.take(i as int));
            assert(rs.take(i + 1).last() == (responses@[i as int].0, responses@[i as int].1@));
        }
        let resp = &responses[i].1;
        let part = match resp.get(first) {
            Some(p) => Some(p),
            None => resp.get(second),
        };
        match part {
            Some(p) => {
                let n = namespaced_copy(p, responses[i].0);
                n.append_to(field, &mut all);
            },
            None => {
                assert(before + seq![] =~= before);
            },
        }
        i += 1;
    }
    assert(rs.take(i as int) =~= rs);
    all
}

/// An item with the text that it is sorted by.
pub struct TextKeyed {
    pub key: String,
    pub item: Json,
}

impl View for TextKeyed {
    type V = (Seq<char>, JsonView);

    open spec fn view(&self) -> (Seq<char>, JsonView) {
        (self.key@, self.item@)
    }
}

proof fn lemma_not_less_total(a: Seq<char>, b: Seq<char>)
    ensures
        !text_less(b, a) || !text_less(a, b),
{
    if text_less(a, b) && text_less(b, a) {
        text_less_transitive(a, b, a);
        text_less_irreflexive(a);
    }
}

proof fn lemma_not_less_transitive(a: Seq<char>, b: Seq<char>, c: Seq<char>)
    requires
        !text_less(b, a),
        !text_less(c, b),
    ensures
        !text_less(c, a),
{
    if text_less(c, a) {
        text_less_total(a, b);
        text_less_total(b, c);
        if text_less(a, b) {
            text_less_transitive(c, a, b);
        } else if text_less(b, c) {
            text_less_transitive(b, c, a);
        }
    }
}

impl Ranked for TextKeyed {
    open spec fn leq(a: (Seq<char>, JsonView), b: (Seq<char>, JsonView)) -> bool {
        !text_less(b.0, a.0)
    }

    proof fn leq_total(a: (Seq<char>, JsonView), b: (Seq<char>, JsonView)) {
        lemma_not_less_total(a.0, b.0);
    }

    proof fn leq_transitive(
        a: (Seq<char>, JsonView),
        b: (Seq<char>, JsonView),
        c: (Seq<char>, JsonView),
    ) {
        lemma_not_less_transitive(a.0, b.0, c.0);
    }

    fn may_precede(&self, other: &Self) -> (r: bool) {
        !str_less(other.key.as_str(), self.key.as_str())
    }
}

/// An item with the text that it is sorted by, the last text first.
pub struct TextKeyedDown {
    pub key: String,
    pub item: Json,
}

impl View for TextKeyedDown {
    type V = (Seq<char>, JsonView);

    open spec fn view(&self) -> (Seq<char>, JsonView) {
        (self.key@, self.item@)
    }
}

impl Ranked for TextKeyedDown {
    open spec fn leq(a: (Seq<char>, JsonView), b: (Seq<char>, JsonView)) -> bool {
        !text_less(a.0, b.0)
    }

    proof fn leq_total(a: (Seq<char>, JsonView), b: (Seq<char>, JsonView)) {
        lemma_not_less_total(a.0, b.0);
    }

    proof fn leq_transitive(
        a: (Seq<char>, JsonView),
        b: (Seq<char>, JsonView),
        c: (Seq<char>, JsonView),
    ) {
        lemma_not_less_transitive(c.0, b.0, a.0);
    }

    fn may_precede(&self, other: &Self) -> (r: bool) {
        !str_less(self.key.as_str(), other.key.as_str())
    }
}

/// Each item with its text under `field` in lower case.
pub open spec fn keyed_lower(items: Seq<JsonView>, field: Seq<char>) -> Seq<(Seq<char>, JsonView)> {
    items.map_values(|x: JsonView| (lowercase(x.text_or(field, seq![])), x))
}

/// Each item with its text under `field`.
pub open spec fn keyed(items: Seq<JsonView>, field: Seq<char>) -> Seq<(Seq<char>, JsonView)> {
    items.map_values(|x: JsonView| (x.text_or(field, seq![]), x))
}

/// The items alone.
pub open spec fn unkeyed(s: Seq<(Seq<char>, JsonView)>) -> Seq<JsonView> {
    s.map_values(|p: (Seq<char>, JsonView)| p.1)
}

/// `items` by their text under `field`, without regard to case.
pub open spec fn alphabetical(items: Seq<JsonView>, field: Seq<char>) -> Seq<JsonView> {
    unkeyed(stable_sort(keyed_lower(items, field), ranking::<TextKeyed>()))
}

/// `items` by their text under `field`, the last text first.
pub open spec fn latest_first(items: Seq<JsonView>, field: Seq<char>) -> Seq<JsonView> {
    unkeyed(stable_sort(keyed(items, field), ranking::<TextKeyedDown>()))
}

/// Sorts by the text under `field`, without regard to case.
pub fn sort_alphabetically(items: &Vec<Json>, field: &str) -> (r: Vec<Json>)
    ensures
        views(r@) == alphabetical(views(items@), field@),
{
    let mut pairs: Vec<TextKeyed> = Vec::new();
    let mut i: usize = 0;
    let ghost want = keyed_lower(views(items@), field@);
    while i < items.len()
        invariant
            i <= items@.len(),
            want == keyed_lower(views(items@), field@),
            views(pairs@) == want.take(i as int),
        decreases items@.len() - i,
    {
        let ghost before = pairs@;
        let key = to_lowercase(items[i].str_or(field, ""));
        let item = items[i].clone();
        let pair = TextKeyed { key, item };
        proof {
            reveal_strlit("");
            assert(""@ =~= Seq::<char>::empty());
            assert(want[i as int] == pair@);
            assert(want.take(i + 1) =~= want.take(i as int).push(pair@));
        }
        pairs.push(pair);
        assert(views(pairs@) =~= views(before).push(pair@));
        i += 1;
    }
    assert(want.take(i as int) =~= want);
    let sorted = sort(pairs);
    let mut out: Vec<Json> = Vec::new();
    let mut j: usize = 0;
    let ghost s = views(sorted@);
    while j < sorted.len()
        invariant
            j <= sorted@.len(),
            s == views(sorted@),
            views(out@) == unkeyed(s).take(j as int),
        decreases sorted@.len() - j,
    {
        let ghost before = out@;
        let c = sorted[j].item.clone();
        out.push(c);
        proof {
            assert(unkeyed(s)[j as int] == sorted@[j as int]@.1);
            assert(unkeyed(s).take(j + 1) =~= unkeyed(s).take(j as int).push(c@));
            assert(views(out@) =~= views(before).push(c@));
        }
        j += 1;
    }
    assert(unkeyed(s).take(j as int) =~= unkeyed(s));
    out
}

/// Sorts by the text under `field`, the last text first.
pub fn sort_latest_first(items: &Vec<Json>, field: &str) -> (r: Vec<Json>)
    ensures
        views(r@) == latest_first(views(items@), field@),
{
    let mut pairs: Vec<TextKeyedDown> = Vec::new();
    let mut i: usize = 0;
    let ghost want = keyed(views(items@), field@);
    while i < items.len()
        invariant
            i <= items@.len(),
            want == keyed(views(items@), field@),
            views(pairs@) == want.take(i as int),
        decreases items@.len() - i,
    {
        let ghost before = pairs@;
        let key = items[i].str_or(field, "").to_owned();
        let item = items[i].clone();
        let pair = TextKeyedDown { key, item };
        proof {
            reveal_strlit("");
            assert(""@ =~= Seq::<char>::empty());
            assert(want[i as int] == pair@);
            assert(want.take(i + 1) =~= want.take(i as int).push(pair@));
        }
        pairs.push(pair);
        assert(views(pairs@) =~= views(before).push(pair@));
        i += 1;
    }
    assert(want.take(i as int) =~= want);
    let sorted = sort(pairs);
    let mut out: Vec<Json> = Vec::new();
    let mut j: usize = 0;
    let ghost s = views(sorted@);
    while j < sorted.len()
        invariant
            j <= sorted@.len(),
            s == views(sorted@),
            views(out@) == unkeyed(s).take(j as int),
        decreases sorted@.len() - j,
    {
        let ghost before = out@;
        let c = sorted[j].item.clone();
        out.push(c);
        proof {
            assert(unkeyed(s)[j as int] == sorted@[j as int]@.1);
            assert(unkeyed(s).take(j + 1) =~= unkeyed(s).take(j as int).push(c@));
            assert(views(out@) =~= views(before).push(c@));
        }
        j += 1;
    }
    assert(unkeyed(s).take(j as int) =~= unkeyed(s));
    out
}

/// The items that `from..to` picks, as far as there are any.
pub open spec fn page<A>(s: Seq<A>, offset: nat, size: nat) -> Seq<A> {
    let from = if offset < s.len() { offset as int } else { s.len() as int };
    let to = if from + size < s.len() { from + size } else { s.len() as int };
    s.subrange(from, to)
}

/// Copies the page of `size` items behind the first `offset`.
pub fn take_page(items: &Vec<Json>, offset: usize, size: usize) -> (r: Vec<Json>)
    ensures
        views(r@) == page(views(items@), offset as nat, size as nat),
{
    let n: usize = items.len();
    let from: usize = if offset < n {
        offset
    } else {
        n
    };
    let to: usize = if size < n - from {
        from + size
    } else {
        n
    };
    let mut out: Vec<Json> = Vec::new();
    let mut i: usize = from;
    while i < to
        invariant
            from <= i <= to <= items@.len(),
            views(out@) == views(items@).subrange(from as int, i as int),
        decreases to - i,
    {
        let ghost before = out@;
        let c = items[i].clone();
        out.push(c);
        proof {
            assert(views(out@) =~= views(before).push(c@));
            assert(views(items@).subrange(from as int, i + 1) =~= views(items@).subrange(
                from as int,
                i as int,
            ).push(items@[i as int]@));
        }
        i += 1;
    }
    out
}

/// The first `n` items.
pub open spec fn first_n<A>(s: Seq<A>, n: nat) -> Seq<A> {
    page(s, 0, n)
}

/// Copies items in the order that `order` gives.
pub fn reorder(items: &Vec<Json>, order: &Vec<usize>) -> (r: Vec<Json>)
    requires
        is_order(order@, items@.len()),
    ensures
        views(r@) == reordered(views(items@), order@),
{
    let mut out: Vec<Json> = Vec::new();
    let mut i: usize = 0;
    let ghost want = reordered(views(items@), order@);
    while i < order.len()
        invariant
            i <= order@.len(),
            is_order(order@, items@.len()),
            want == reordered(views(items@), order@),
            views(out@) == want.take(i as int),
        decreases order@.len() - i,
    {
        let ghost before = out@;
        assert(order@[i as int] < items@.len());
        let c = items[order[i]].clone();
        out.push(c);
        proof {
            assert(views(out@) =~= views(before).push(c@));
            assert(want.take(i + 1) =~= want.take(i as int).push(c@));
        }
        i += 1;
    }
    assert(want.take(i as int) =~= want);
    out
}

// ── Artist indexes ──────────────────────────────────────────────

/// What one index entry lists: its letter and its artists.
pub open spec fn index_entry(e: JsonView) -> Option<(Seq<char>, Seq<JsonView>)> {
    match e.get("artist"@) {
        Some(JsonView::Array(a)) => Some((e.text_or("name"@, "#"@), a)),
        _ => None,
    }
}

/// What the index entries list, in their order.
pub open spec fn index_entries(s: Seq<JsonView>) -> Seq<(Seq<char>, Seq<JsonView>)>
    decreases s.len(),
{
    if s.len() == 0 {
        seq![]
    } else {
        match index_entry(s.last()) {
            Some(e) => index_entries(s.drop_last()).push(e),
            None => index_entries(s.drop_last()),
        }
    }
}

/// The letters of the entries, each once, in order.
pub open spec fn letters(entries: Seq<(Seq<char>, Seq<JsonView>)>) -> Seq<Seq<char>>
    decreases entries.len(),
{
    if entries.len() == 0 {
        seq![]
    } else {
        with_letter(letters(entries.drop_last()), entries.last().0)
    }
}

/// `names` with `name` where the order puts it, unless it is there.
pub open spec fn with_letter(names: Seq<Seq<char>>, name: Seq<char>) -> Seq<Seq<char>>
    decreases names.len(),
{
    if names.len() == 0 {
        seq![name]
    } else if names.last() == name {
        names
    } else if text_less(names.last(), name) {
        names.push(name)
    } else {
        with_letter(names.drop_last(), name).push(names.last())
    }
}

/// All artists under a letter, in the order of the entries.
pub open spec fn artists_under(entries: Seq<(Seq<char>, Seq<JsonView>)>, name: Seq<char>) -> Seq<
    JsonView,
>
    decreases entries.len(),
{
    if entries.len() == 0 {
        seq![]
    } else if entries.last().0 == name {
        artists_under(entries.drop_last(), name) + entries.last().1
    } else {
        artists_under(entries.drop_last(), name)
    }
}

/// One index: its letter and its artists by name.
pub open spec fn merged_index(entries: Seq<(Seq<char>, Seq<JsonView>)>, name: Seq<char>) -> JsonView {
    object().with("name"@, JsonView::Text(name)).with(
        "artist"@,
        JsonView::Array(alphabetical(artists_under(entries, name), "name"@)),
    )
}

/// The merged artist index of all responses.
pub open spec fn merged_artists(rs: Seq<(usize, JsonView)>) -> JsonView {
    let entries = index_entries(gathered(rs, "artists"@, "artists"@, "index"@));
    object().with(
        "artists"@,
        object().with("ignoredArticles"@, JsonView::Text("The El La Los Las Le Les"@)).with(
            "index"@,
            JsonView::Array(letters(entries).map_values(|n: Seq<char>| merged_index(entries, n))),
        ),
    )
}

/// The letter and the artists of each entry.
pub open spec fn entries_view(s: Seq<(String, Vec<Json>)>) -> Seq<(Seq<char>, Seq<JsonView>)> {
    s.map_values(|p: (String, Vec<Json>)| (p.0@, views(p.1@)))
}

fn read_entries(indexes: &Vec<Json>) -> (r: Vec<(String, Vec<Json>)>)
    ensures
        entries_view(r@) == index_entries(views(indexes@)),
{
    let mut out: Vec<(String, Vec<Json>)> = Vec::new();
    let mut i: usize = 0;
    let ghost s = views(indexes@);
    assert(entries_view(out@) =~= seq![]);
    assert(s.take(0) =~= seq![]);
    while i < indexes.len()
        invariant
            i <= indexes@.len(),
            s == views(indexes@),
            entries_view(out@) == index_entries(s.take(i as int)),
        decreases indexes@.len() - i,
    {
        let ghost before = out@;
        proof {
            assert(s.take(i + 1).drop_last() =~= s.take(i as int));
            assert(s.take(i + 1).last() == indexes@[i as int]@);
        }
        let e = &indexes[i];
        match e.get("artist") {
            Some(v) => match v.as_array() {
                Some(a) => {
                    let name = e.str_or("name", "#").to_owned();
                    let artists = clone_items(a);
                    out.push((name, artists));
                    assert(entries_view(out@) =~= entries_view(before).push(
                        (name@, views(artists@)),
                    ));
                },
                None => {},
            },
            None => {},
        }
        i += 1;
    }
    assert(s.take(i as int) =~= s);
    out
}

pub(crate) fn insert_letter(names: &mut Vec<String>, name: &String)
    ensures
        views(final(names)@) == with_letter(views(old(names)@), name@),
{
    let ghost before = views(names@);
    let mut i: usize = names.len();
    assert(before.take(i as int) =~= before);
    assert(with_letter(before, name@) =~= with_letter(before.take(i as int), name@) + before.skip(
        i as int,
    ));
    while i > 0 && !str_eq(names[i - 1].as_str(), name.as_str()) && !str_less(
        names[i - 1].as_str(),
        name.as_str(),
    )
        invariant
            i <= names@.len(),
            before == views(names@),
            with_letter(before, name@) == with_letter(before.take(i as int), name@) + before.skip(
                i as int,
            ),
        decreases i,
    {
        proof {
            let t = before.take(i as int);
            assert(t.drop_last() =~= before.take(i - 1));
            assert(t.last() == names@[i - 1]@);
            assert(with_letter(t, name@) + before.skip(i as int) =~= with_letter(
                before.take(i - 1),
                name@,
            ) + before.skip(i - 1));
        }
        i -= 1;
    }
    let ghost t = before.take(i as int);
    let ghost rest = before.skip(i as int);
    if i > 0 && str_eq(names[i - 1].as_str(), name.as_str()) {
        proof {
            assert(t.last() == before[i - 1]);
            assert(t + rest =~= before);
        }
    } else {
        let n = name.clone();
        names.insert(i, n);
        proof {
            if i > 0 {
                assert(t.last() == before[i - 1]);
            }
            assert(views(names@) =~= t.push(name@) + rest);
            assert(i == 0 ==> t.push(name@) =~= seq![name@]);
        }
    }
}

pub(crate) fn collect_artists(entries: &Vec<(String, Vec<Json>)>, name: &str) -> (r: Vec<Json>)
    ensures
        views(r@) == artists_under(entries_view(entries@), name@),
{
    let mut out: Vec<Json> = Vec::new();
    let mut i: usize = 0;
    let ghost es = entries_view(entries@);
    assert(views(out@) =~= seq![]);
    assert(es.take(0) =~= seq![]);
    while i < entries.len()
        invariant
            i <= entries@.len(),
            es == entries_view(entries@),
            views(out@) == artists_under(es.take(i as int), name@),
        decreases entries@.len() - i,
    {
        proof {
            assert(es.take(i + 1).drop_last() =~= es.take(i as int));
            assert(es.take(i + 1).last() == (
                entries@[i as int].0@,
                views(entries@[i as int].1@),
            ));
        }
        if str_eq(entries[i].0.as_str(), name) {
            append_items(&mut out, &entries[i].1);
        }
        i += 1;
    }
    assert(es.take(i as int) =~= es);
    out
}

/// Merges the artist indexes of several backends: indexes with the same letter
/// become one, its artists sorted by name.
pub fn merge_artist_indexes(responses: Vec<(usize, Json)>) -> (r: Json)
    ensures
        r@ == merged_artists(responses_view(responses@)),
{
    let indexes = gather(&responses, "artists", "artists", "index");
    let entries = read_entries(&indexes);
    let ghost es = entries_view(entries@);
    let mut names: Vec<String> = Vec::new();
    let mut i: usize = 0;
    assert(views(names@) =~= seq![]);
    assert(es.take(0) =~= seq![]);
    while i < entries.len()
        invariant
            i <= entries@.len(),
            es == entries_view(entries@),
            views(names@) == letters(es.take(i as int)),
        decreases entries@.len() - i,
    {
        proof {
            assert(es.take(i + 1).drop_last() =~= es.take(i as int));
            assert(es.take(i + 1).last().0 == entries@[i as int].0@);
        }
        insert_letter(&mut names, &entries[i].0);
        i += 1;
    }
    assert(es.take(i as int) =~= es);
    let ghost want = letters(es).map_values(|n: Seq<char>| merged_index(es, n));
    let mut merged: Vec<Json> = Vec::new();
    let mut j: usize = 0;
    while j < names.len()
        invariant
            j <= names@.len(),
            es == entries_view(entries@),
            views(names@) == letters(es),
            want == letters(es).map_values(|n: Seq<char>| merged_index(es, n)),
            views(merged@) == want.take(j as int),
        decreases names@.len() - j,
    {
        let ghost before = merged@;
        let artists = collect_artists(&entries, names[j].as_str());
        let sorted = sort_alphabetically(&artists, "name");
        let one = Json::object().with_text("name", names[j].as_str()).with(
            "artist",
            Json::array(sorted),
        );
        proof {
            assert(letters(es)[j as int] == names@[j as int]@);
            assert(want[j as int] == one@);
            assert(want.take(j + 1) =~= want.take(j as int).push(one@));
        }
        merged.push(one);
        assert(views(merged@) =~= views(before).push(one@));
        j += 1;
    }
    assert(want.take(j as int) =~= want);
    Json::object().with(
        "artists",
        Json::object().with_text("ignoredArticles", "The El La Los Las Le Les").with(
            "index",
            Json::array(merged),
        ),
    )
}

// ── Album lists ─────────────────────────────────────────────────

/// The albums of all responses, in the order of the responses.
pub open spec fn listed_albums(rs: Seq<(usize, JsonView)>) -> Seq<JsonView> {
    gathered(rs, "albumList2"@, "albumList"@, "album"@)
}

/// `albums` in the order that a list type asks for, chance aside.
pub open spec fn arranged(albums: Seq<JsonView>, list_type: Seq<char>) -> Seq<JsonView> {
    if list_type == "newest"@ {
        latest_first(albums, "created"@)
    } else if list_type == "alphabeticalByName"@ {
        alphabetical(albums, "name"@)
    } else if list_type == "alphabeticalByArtist"@ {
        alphabetical(albums, "artist"@)
    } else {
        albums
    }
}

/// One page of an album list.
pub open spec fn album_list(albums: Seq<JsonView>, size: nat, offset: nat) -> JsonView {
    object().with(
        "albumList2"@,
        object().with("album"@, JsonView::Array(page(albums, offset, size))),
    )
}

/// Puts albums in the order that a list type asks for, chance aside.
pub fn arrange_albums(albums: Vec<Json>, list_type: &str) -> (r: Vec<Json>)
    ensures
        views(r@) == arranged(views(albums@), list_type@),
{
    if str_eq(list_type, "newest") {
        sort_latest_first(&albums, "created")
    } else if str_eq(list_type, "alphabeticalByName") {
        sort_alphabetically(&albums, "name")
    } else if str_eq(list_type, "alphabeticalByArtist") {
        sort_alphabetically(&albums, "artist")
    } else {
        albums
    }
}

/// One page of an album list.
pub fn album_page(albums: &Vec<Json>, size: usize, offset: usize) -> (r: Json)
    ensures
        r@ == album_list(views(albums@), size as nat, offset as nat),
{
    Json::object().with(
        "albumList2",
        Json::object().with("album", Json::array(take_page(albums, offset, size))),
    )
}

/// The albums of all responses in the order that `order` gives, one page of
/// them.
pub fn merge_albums_in_order(
    responses: &Vec<(usize, Json)>,
    size: usize,
    offset: usize,
    order: &Vec<usize>,
) -> (r: Json)
    requires
        is_order(order@, listed_albums(responses_view(responses@)).len()),
    ensures
        r@ == album_list(
            reordered(listed_albums(responses_view(responses@)), order@),
            size as nat,
            offset as nat,
        ),
{
    let all = gather(responses, "albumList2", "albumList", "album");
    assert(views(all@).len() == all@.len());
    let shuffled = reorder(&all, order);
    album_page(&shuffled, size, offset)
}

/// Merges album lists from several backends.
pub fn merge_album_lists(
    responses: Vec<(usize, Json)>,
    list_type: &str,
    size: usize,
    offset: usize,
) -> (r: Json)
    ensures
        list_type@ != "random"@ ==> r@ == album_list(
            arranged(listed_albums(responses_view(responses@)), list_type@),
            size as nat,
            offset as nat,
        ),
        list_type@ == "random"@ ==> exists|order: Vec<usize>| #[trigger]
            order_drawn(order, listed_albums(responses_view(responses@)).len()) && is_order(
                order@,
                listed_albums(responses_view(responses@)).len(),
            ) && r@ == album_list(
                reordered(listed_albums(responses_view(responses@)), order@),
                size as nat,
                offset as nat,
            ),
{
    let all = gather(&responses, "albumList2", "albumList", "album");
    if str_eq(list_type, "random") {
        assert(views(all@).len() == all@.len());
        let order = random_order(all.len());
        merge_albums_in_order(&responses, size, offset, &order)
    } else {
        let sorted = arrange_albums(all, list_type);
        album_page(&sorted, size, offset)
    }
}

/// The albums that a page of an album list shows.
pub open spec fn shown_albums(r: JsonView) -> Seq<JsonView> {
    r.items_in("albumList2"@, "album"@)
}

/// The albums that successive pages show, one page after the other, from an
/// offset on.
pub open spec fn shown_on_pages(albums: Seq<JsonView>, size: nat, offset: nat) -> Seq<JsonView>
    decreases
        if offset < albums.len() {
            albums.len() - offset
        } else {
            0
        },
{
    if size == 0 || offset >= albums.len() {
        seq![]
    } else {
        shown_albums(album_list(albums, size, offset)) + shown_on_pages(
            albums,
            size,
            offset + size,
        )
    }
}

/// A page shows the albums behind the first `offset`, as many as fit.
pub proof fn page_shows_albums(albums: Seq<JsonView>, size: nat, offset: nat)
    ensures
        shown_albums(album_list(albums, size, offset)) == page(albums, offset, size),
{
    let inner = object().with("album"@, JsonView::Array(page(albums, offset, size)));
    set_then_get(
        object()->Object_0,
        "album"@,
        JsonView::Array(page(albums, offset, size)),
        "album"@,
    );
    set_then_get(object()->Object_0, "albumList2"@, inner, "albumList2"@);
}

proof fn lemma_shown_on_pages(albums: Seq<JsonView>, size: nat, offset: nat)
    requires
        size > 0,
        offset <= albums.len(),
    ensures
        shown_on_pages(albums, size, offset) == albums.skip(offset as int),
    decreases albums.len() - offset,
{
    if offset < albums.len() {
        page_shows_albums(albums, size, offset);
        if offset + size <= albums.len() {
            lemma_shown_on_pages(albums, size, offset + size);
        } else {
            assert(shown_on_pages(albums, size, offset + size) =~= seq![]);
        }
        assert(shown_on_pages(albums, size, offset) =~= albums.skip(offset as int));
    } else {
        assert(albums.skip(offset as int) =~= seq![]);
    }
}

/// Items by their text under `field` without regard to case, never a larger one
/// first.
pub open spec fn in_alphabetical_order(items: Seq<JsonView>, field: Seq<char>) -> bool {
    forall|i: int, j: int|
        0 <= i < j < items.len() ==> !text_less(
            lowercase((#[trigger] items[j]).text_or(field, seq![])),
            lowercase((#[trigger] items[i]).text_or(field, seq![])),
        )
}

/// Alphabetical sorting keeps the items and puts them in order.
pub proof fn alphabetical_sorts(items: Seq<JsonView>, field: Seq<char>)
    ensures
        alphabetical(items, field).to_multiset() == items.to_multiset(),
        in_alphabetical_order(alphabetical(items, field), field),
{
    broadcast use vstd::seq_lib::group_to_multiset_ensures;

    let pairs = keyed_lower(items, field);
    let leq = ranking::<TextKeyed>();
    let sorted = stable_sort(pairs, leq);
    let all = unkeyed(sorted);
    ranking_is_total_preorder::<TextKeyed>();
    stable_sort_sorts(pairs, leq);
    mapping_keeps_items(sorted, pairs, |p: (Seq<char>, JsonView)| p.1);
    assert(unkeyed(pairs) =~= items);
    assert forall|i: int| 0 <= i < sorted.len() implies (#[trigger] sorted[i]).0 == lowercase(
        all[i].text_or(field, seq![]),
    ) by {
        assert(sorted.contains(sorted[i]));
        assert(sorted.to_multiset().count(sorted[i]) > 0);
        assert(pairs.contains(sorted[i]));
        let k = choose|k: int| 0 <= k < pairs.len() && pairs[k] == sorted[i];
    }
    assert forall|i: int, j: int| 0 <= i < j < all.len() implies !text_less(
        lowercase((#[trigger] all[j]).text_or(field, seq![])),
        lowercase((#[trigger] all[i]).text_or(field, seq![])),
    ) by {
        assert(leq(sorted[i], sorted[j]));
        assert(sorted[i].0 == lowercase(all[i].text_or(field, seq![])));
        assert(sorted[j].0 == lowercase(all[j].text_or(field, seq![])));
    }
}

/// Successive pages of an album list make up the whole list in the order that
/// the list type asks for: no album of any response is lost, repeated or made
/// up. A list by name or by artist is in alphabetical order.
pub proof fn album_pages_make_up_the_list(
    rs: Seq<(usize, JsonView)>,
    list_type: Seq<char>,
    size: nat,
)
    requires
        size > 0,
        list_type != "random"@,
    ensures
        ({
            let all = arranged(listed_albums(rs), list_type);
            &&& shown_on_pages(all, size, 0) == all
            &&& all.to_multiset() == listed_albums(rs).to_multiset()
            &&& list_type == "alphabeticalByName"@ ==> in_alphabetical_order(all, "name"@)
            &&& list_type == "alphabeticalByArtist"@ ==> in_alphabetical_order(all, "artist"@)
        }),
{
    let albums = listed_albums(rs);
    let all = arranged(albums, list_type);
    lemma_shown_on_pages(all, size, 0);
    assert(all.skip(0) =~= all);
    reveal_strlit("newest");
    reveal_strlit("alphabeticalByName");
    reveal_strlit("alphabeticalByArtist");
    assert("newest"@.len() == 6);
    assert("alphabeticalByName"@.len() == 18);
    assert("alphabeticalByArtist"@.len() == 20);
    alphabetical_sorts(albums, "name"@);
    alphabetical_sorts(albums, "artist"@);
    let pairs = keyed(albums, "created"@);
    let leq = ranking::<TextKeyedDown>();
    ranking_is_total_preorder::<TextKeyedDown>();
    stable_sort_sorts(pairs, leq);
    mapping_keeps_items(stable_sort(pairs, leq), pairs, |p: (Seq<char>, JsonView)| p.1);
    assert(unkeyed(pairs) =~= albums);
}

// ── Search results ──────────────────────────────────────────────

/// The merged search result.
pub open spec fn merged_search(
    rs: Seq<(usize, JsonView)>,
    artist_count: nat,
    album_count: nat,
    song_count: nat,
) -> JsonView {
    object().with(
        "searchResult3"@,
        object().with(
            "artist"@,
            JsonView::Array(
                first_n(gathered(rs, "searchResult3"@, "searchResult2"@, "artist"@), artist_count),
            ),
        ).with(
            "album"@,
            JsonView::Array(
                first_n(gathered(rs, "searchResult3"@, "searchResult2"@, "album"@), album_count),
            ),
        ).with(
            "song"@,
            JsonView::Array(
                first_n(gathered(rs, "searchResult3"@, "searchResult2"@, "song"@), song_count),
            ),
        ),
    )
}

/// Merges search results from several backends.
pub fn merge_search_results(
    responses: Vec<(usize, Json)>,
    artist_count: usize,
    album_count: usize,
    song_count: usize,
) -> (r: Json)
    ensures
        r@ == merged_search(
            responses_view(responses@),
            artist_count as nat,
            album_count as nat,
            song_count as nat,
        ),
{
    let artists = gather(&responses, "searchResult3", "searchResult2", "artist");
    let albums = gather(&responses, "searchResult3", "searchResult2", "album");
    let songs = gather(&responses, "searchResult3", "searchResult2", "song");
    Json::object().with(
        "searchResult3",
        Json::object().with("artist", Json::array(take_page(&artists, 0, artist_count))).with(
            "album",
            Json::array(take_page(&albums, 0, album_count)),
        ).with("song", Json::array(take_page(&songs, 0, song_count))),
    )
}

// ── Playlists, random songs, starred items ──────────────────────

/// The merged list of playlists.
pub open spec fn merged_playlists(rs: Seq<(usize, JsonView)>) -> JsonView {
    object().with(
        "playlists"@,
        object().with(
            "playlist"@,
            JsonView::Array(gathered(rs, "playlists"@, "playlists"@, "playlist"@)),
        ),
    )
}

/// Merges playlists from several backends.
pub fn merge_playlists(responses: Vec<(usize, Json)>) -> (r: Json)
    ensures
        r@ == merged_playlists(responses_view(responses@)),
{
    let all = gather(&responses, "playlists", "playlists", "playlist");
    Json::object().with("playlists", Json::object().with("playlist", Json::array(all)))
}

/// The songs of all responses, in the order of the responses.
pub open spec fn listed_songs(rs: Seq<(usize, JsonView)>) -> Seq<JsonView> {
    gathered(rs, "randomSongs"@, "randomSongs"@, "song"@)
}

/// The first songs in the order that chance decided.
pub open spec fn merged_random_songs(
    rs: Seq<(usize, JsonView)>,
    size: nat,
    order: Seq<usize>,
) -> JsonView {
    object().with(
        "randomSongs"@,
        object().with(
            "song"@,
            JsonView::Array(first_n(reordered(listed_songs(rs), order), size)),
        ),
    )
}

/// Random songs from all responses, in the order that `order` gives.
pub fn merge_songs_in_order(
    responses: &Vec<(usize, Json)>,
    size: usize,
    order: &Vec<usize>,
) -> (r: Json)
    requires
        is_order(order@, listed_songs(responses_view(responses@)).len()),
    ensures
        r@ == merged_random_songs(responses_view(responses@), size as nat, order@),
{
    let all = gather(responses, "randomSongs", "randomSongs", "song");
    assert(views(all@).len() == all@.len());
    let shuffled = reorder(&all, order);
    Json::object().with(
        "randomSongs",
        Json::object().with("song", Json::array(take_page(&shuffled, 0, size))),
    )
}

/// Merges random songs from several backends.
pub fn merge_random_songs(responses: Vec<(usize, Json)>, size: usize) -> (r: Json)
    ensures
        exists|order: Vec<usize>| #[trigger]
            order_drawn(order, listed_songs(responses_view(responses@)).len()) && is_order(
                order@,
                listed_songs(responses_view(responses@)).len(),
            ) && r@ == merged_random_songs(responses_view(responses@), size as nat, order@),
{
    let all = gather(&responses, "randomSongs", "randomSongs", "song");
    assert(views(all@).len() == all@.len());
    let order = random_order(all.len());
    merge_songs_in_order(&responses, size, &order)
}

/// The merged starred items.
pub open spec fn merged_starred(rs: Seq<(usize, JsonView)>) -> JsonView {
    object().with(
        "starred2"@,
        object().with(
            "artist"@,
            JsonView::Array(gathered(rs, "starred2"@, "starred"@, "artist"@)),
        ).with("album"@, JsonView::Array(gathered(rs, "starred2"@, "starred"@, "album"@))).with(
            "song"@,
            JsonView::Array(gathered(rs, "starred2"@, "starred"@, "song"@)),
        ),
    )
}

/// Merges starred items from several backends.
pub fn merge_starred(responses: Vec<(usize, Json)>) -> (r: Json)
    ensures
        r@ == merged_starred(responses_view(responses@)),
{
    let artists = gather(&responses, "starred2", "starred", "artist");
    let albums = gather(&responses, "starred2", "starred", "album");
    let songs = gather(&responses, "starred2", "starred", "song");
    Json::object().with(
        "starred2",
        Json::object().with("artist", Json::array(artists)).with(
            "album",
            Json::array(albums),
        ).with("song", Json::array(songs)),
    )
}

// ── Laws of namespacing ─────────────────────────────────────────

proof fn lemma_namespaced_member(m: Seq<(Seq<char>, JsonView)>, idx: nat, key: Seq<char>)
    ensures
        namespaced(JsonView::Object(m), idx).get(key) == match JsonView::Object(m).get(key) {
            Some(JsonView::Text(s)) => Some(
                if is_id_name(key) {
                    JsonView::Text(namespaced_id(idx, s))
                } else {
                    JsonView::Text(s)
                },
            ),
            Some(x) => Some(namespaced(x, idx)),
            None => None,
        },
    decreases m.len(),
{
    let n = namespaced(JsonView::Object(m), idx)->Object_0;
    if m.len() > 0 {
        let d = m.drop_last();
        lemma_namespaced_member(d, idx, key);
        let nd = namespaced(JsonView::Object(d), idx)->Object_0;
        assert(n.drop_last() =~= nd);
        assert(n.last() == n[m.len() - 1]);
        assert(m.last() == m[m.len() - 1]);
    }
}

/// The identifiers of items, of their parents, artists, albums, songs and
/// playlists and of their cover art lead back to the backend; every other text
/// stays as the backend wrote it.
pub proof fn identifiers_are_namespaced(v: JsonView, idx: nat, key: Seq<char>, s: Seq<char>)
    requires
        v.get(key) == Some(JsonView::Text(s)),
    ensures
        namespaced(v, idx).get(key) == Some(
            JsonView::Text(
                if seq![
                    "albumId"@,
                    "artistId"@,
                    "coverArt"@,
                    "id"@,
                    "parent"@,
                    "playlistId"@,
                    "songId"@,
                ].contains(key) {
                    namespaced_id(idx, s)
                } else {
                    s
                },
            ),
        ),
{
    let names = seq![
        "albumId"@,
        "artistId"@,
        "coverArt"@,
        "id"@,
        "parent"@,
        "playlistId"@,
        "songId"@,
    ];
    assert(names[0] == "albumId"@ && names[1] == "artistId"@ && names[2] == "coverArt"@);
    assert(names[3] == "id"@ && names[4] == "parent"@ && names[5] == "playlistId"@);
    assert(names[6] == "songId"@);
    lemma_namespaced_member(v->Object_0, idx, key);
}

/// Namespacing reaches every depth and drops nothing: members and items stay
/// where they are, each with what is inside it namespaced; numbers, flags and
/// nulls stay as they are.
pub proof fn namespacing_reaches_everything(v: JsonView, idx: nat, key: Seq<char>, i: int)
    ensures
        v is Object ==> namespaced(v, idx) is Object,
        v.get(key) matches Some(x) ==> !(x is Text) ==> namespaced(v, idx).get(key) == Some(
            namespaced(x, idx),
        ),
        v.get(key) is None ==> namespaced(v, idx).get(key) is None,
        v matches JsonView::Array(a) ==> (namespaced(v, idx) matches JsonView::Array(b) && b.len()
            == a.len() && (0 <= i < a.len() ==> b[i] == namespaced(a[i], idx))),
        v is Null || v is Bool || v is Number || v is Text ==> namespaced(v, idx) == v,
{
    if v is Object {
        lemma_namespaced_member(v->Object_0, idx, key);
    }
}

/// What stands in a list of a namespaced answer is what the backend listed, each
/// item namespaced.
pub proof fn listed_items_are_namespaced(v: JsonView, idx: nat, key: Seq<char>, i: int)
    ensures
        namespaced(v, idx).items(key).len() == v.items(key).len(),
        0 <= i < v.items(key).len() ==> namespaced(v, idx).items(key)[i] == namespaced(
            v.items(key)[i],
            idx,
        ),
{
    if v is Object {
        lemma_namespaced_member(v->Object_0, idx, key);
    }
}

// ── Laws of merging ─────────────────────────────────────────────

/// Merging takes the items of every response, one response after the other and
/// each in its own order, namespaced for their backend; of two parts of a
/// response that may hold them, the first that is there.
pub proof fn merging_takes_every_item(
    rs: Seq<(usize, JsonView)>,
    first: Seq<char>,
    second: Seq<char>,
    field: Seq<char>,
)
    ensures
        gathered(rs, first, second, field) == rs.map_values(
            |p: (usize, JsonView)|
                match p.1.get(first) {
                    Some(s) => namespaced(s, p.0 as nat).items(field),
                    None => match p.1.get(second) {
                        Some(s) => namespaced(s, p.0 as nat).items(field),
                        None => seq![],
                    },
                },
        ).flatten(),
    decreases rs.len(),
{
    let f = |p: (usize, JsonView)|
        match p.1.get(first) {
            Some(s) => namespaced(s, p.0 as nat).items(field),
            None => match p.1.get(second) {
                Some(s) => namespaced(s, p.0 as nat).items(field),
                None => seq![],
            },
        };
    lemma_flat_end(rs, f);
    if rs.len() > 0 {
        merging_takes_every_item(rs.drop_last(), first, second, field);
    }
}

/// A page holds as many items as asked for, as far as there are any, from the
/// one at the offset on.
pub proof fn pages_are_cut_out<A>(s: Seq<A>, offset: nat, size: nat, i: int)
    ensures
        offset + size <= s.len() ==> page(s, offset, size).len() == size,
        offset <= s.len() < offset + size ==> page(s, offset, size).len() == s.len() - offset,
        offset > s.len() ==> page(s, offset, size).len() == 0,
        0 <= i < page(s, offset, size).len() ==> page(s, offset, size)[i] == s[offset + i],
{
}

/// The newest albums come first: none stands behind one that was created
/// earlier, and all are there.
pub proof fn newest_albums_come_first(albums: Seq<JsonView>, i: int, j: int)
    ensures
        arranged(albums, "newest"@).to_multiset() == albums.to_multiset(),
        0 <= i < j < arranged(albums, "newest"@).len() ==> !text_less(
            arranged(albums, "newest"@)[i].text_or("created"@, seq![]),
            arranged(albums, "newest"@)[j].text_or("created"@, seq![]),
        ),
{
    broadcast use vstd::seq_lib::group_to_multiset_ensures;

    let pairs = keyed(albums, "created"@);
    let leq = ranking::<TextKeyedDown>();
    let sorted = stable_sort(pairs, leq);
    let all = unkeyed(sorted);
    ranking_is_total_preorder::<TextKeyedDown>();
    stable_sort_sorts(pairs, leq);
    mapping_keeps_items(sorted, pairs, |p: (Seq<char>, JsonView)| p.1);
    assert(unkeyed(pairs) =~= albums);
    assert forall|k: int| 0 <= k < sorted.len() implies (#[trigger] sorted[k]).0
        == all[k].text_or("created"@, seq![]) by {
        assert(sorted.contains(sorted[k]));
        assert(sorted.to_multiset().count(sorted[k]) > 0);
        assert(pairs.contains(sorted[k]));
        let q = choose|q: int| 0 <= q < pairs.len() && pairs[q] == sorted[k];
    }
    if 0 <= i < j < all.len() {
        assert(leq(sorted[i], sorted[j]));
        assert(sorted[i].0 == all[i].text_or("created"@, seq![]));
        assert(sorted[j].0 == all[j].text_or("created"@, seq![]));
    }
}

/// Lists of other kinds keep the order in which the backends gave them.
pub proof fn other_lists_keep_their_order(albums: Seq<JsonView>, list_type: Seq<char>)
    requires
        list_type != "newest"@,
        list_type != "alphabeticalByName"@,
        list_type != "alphabeticalByArtist"@,
    ensures
        arranged(albums, list_type) == albums,
{
}

/// A search shows what all backends found, of each kind the first, as many as
/// asked for.
pub proof fn searches_show_what_all_found(
    rs: Seq<(usize, JsonView)>,
    artist_count: nat,
    album_count: nat,
    song_count: nat,
)
    ensures
        ({
            let r = merged_search(rs, artist_count, album_count, song_count);
            &&& r.items_in("searchResult3"@, "artist"@) == page(
                gathered(rs, "searchResult3"@, "searchResult2"@, "artist"@),
                0,
                artist_count,
            )
            &&& r.items_in("searchResult3"@, "album"@) == page(
                gathered(rs, "searchResult3"@, "searchResult2"@, "album"@),
                0,
                album_count,
            )
            &&& r.items_in("searchResult3"@, "song"@) == page(
                gathered(rs, "searchResult3"@, "searchResult2"@, "song"@),
                0,
                song_count,
            )
        }),
{
    broadcast use reading_after_setting;

    reveal_strlit("artist");
    reveal_strlit("album");
    reveal_strlit("song");
}

/// Merged playlists, starred items and random songs show what all backends
/// gave; random songs in the order that chance decided, as many as asked for.
pub proof fn merged_answers_show_what_all_gave(
    rs: Seq<(usize, JsonView)>,
    size: nat,
    order: Seq<usize>,
    i: int,
)
    requires
        is_order(order, gathered(rs, "randomSongs"@, "randomSongs"@, "song"@).len()),
    ensures
        merged_playlists(rs).items_in("playlists"@, "playlist"@) == gathered(
            rs,
            "playlists"@,
            "playlists"@,
            "playlist"@,
        ),
        merged_starred(rs).items_in("starred2"@, "artist"@) == gathered(
            rs,
            "starred2"@,
            "starred"@,
            "artist"@,
        ),
        merged_starred(rs).items_in("starred2"@, "album"@) == gathered(
            rs,
            "starred2"@,
            "starred"@,
            "album"@,
        ),
        merged_starred(rs).items_in("starred2"@, "song"@) == gathered(
            rs,
            "starred2"@,
            "starred"@,
            "song"@,
        ),
        ({
            let songs = gathered(rs, "randomSongs"@, "randomSongs"@, "song"@);
            let shown = merged_random_songs(rs, size, order).items_in("randomSongs"@, "song"@);
            &&& shown.len() == if size < songs.len() {
                size
            } else {
                songs.len()
            }
            &&& 0 <= i < shown.len() ==> shown[i] == songs[order[i] as int]
        }),
{
    broadcast use reading_after_setting;

    reveal_strlit("artist");
    reveal_strlit("album");
    reveal_strlit("song");
}

/// The letters stand in order, and they are those of the entries.
pub proof fn lemma_letters(entries: Seq<(Seq<char>, Seq<JsonView>)>)
    ensures
        forall|i: int, j: int|
            0 <= i < j < letters(entries).len() ==> text_less(
                #[trigger] letters(entries)[i],
                #[trigger] letters(entries)[j],
            ),
        forall|n: Seq<char>| #[trigger]
            letters(entries).contains(n) <==> exists|i: int|
                0 <= i < entries.len() && (#[trigger] entries[i]).0 == n,
    decreases entries.len(),
{
    if entries.len() > 0 {
        let d = entries.drop_last();
        lemma_letters(d);
        let names = letters(d);
        let name = entries.last().0;
        lemma_with_letter(names, name);
        assert forall|n: Seq<char>| #[trigger] letters(entries).contains(n) <==> exists|i: int|
            0 <= i < entries.len() && (#[trigger] entries[i]).0 == n by {
            if letters(entries).contains(n) {
                if n == name {
                    assert(entries[entries.len() - 1].0 == n);
                } else {
                    assert(names.contains(n));
                    let i = choose|i: int| 0 <= i < d.len() && (#[trigger] d[i]).0 == n;
                    assert(entries[i].0 == n);
                }
            }
            if exists|i: int| 0 <= i < entries.len() && (#[trigger] entries[i]).0 == n {
                let i = choose|i: int| 0 <= i < entries.len() && (#[trigger] entries[i]).0 == n;
                if i < d.len() {
                    assert(d[i].0 == n);
                    assert(names.contains(n));
                }
            }
        }
    }
}

proof fn lemma_with_letter(names: Seq<Seq<char>>, name: Seq<char>)
    requires
        forall|i: int, j: int|
            0 <= i < j < names.len() ==> text_less(#[trigger] names[i], #[trigger] names[j]),
    ensures
        forall|i: int, j: int|
            0 <= i < j < with_letter(names, name).len() ==> text_less(
                #[trigger] with_letter(names, name)[i],
                #[trigger] with_letter(names, name)[j],
            ),
        forall|n: Seq<char>| #[trigger]
            with_letter(names, name).contains(n) <==> names.contains(n) || n == name,
    decreases names.len(),
{
    let w = with_letter(names, name);
    if names.len() == 0 {
        assert(w[0] == name);
    } else if names.last() == name {
        assert(names[names.len() - 1] == name);
    } else if text_less(names.last(), name) {
        assert forall|i: int, j: int| 0 <= i < j < w.len() implies text_less(
            #[trigger] w[i],
            #[trigger] w[j],
        ) by {
            if j == names.len() && i < names.len() - 1 {
                assert(text_less(names[i], names[names.len() - 1]));
                text_less_transitive(names[i], names.last(), name);
            }
        }
        assert forall|n: Seq<char>| #[trigger] w.contains(n) <==> names.contains(n) || n
            == name by {
            if names.contains(n) {
                let k = choose|k: int| 0 <= k < names.len() && names[k] == n;
                assert(w[k] == n);
            }
            assert(w[names.len() as int] == name);
        }
    } else {
        let d = names.drop_last();
        let last = names.last();
        assert forall|i: int, j: int| 0 <= i < j < d.len() implies text_less(
            #[trigger] d[i],
            #[trigger] d[j],
        ) by {
            assert(text_less(names[i], names[j]));
        }
        lemma_with_letter(d, name);
        let v = with_letter(d, name);
        text_less_total(last, name);
        assert(text_less(name, last));
        assert forall|i: int, j: int| 0 <= i < j < w.len() implies text_less(
            #[trigger] w[i],
            #[trigger] w[j],
        ) by {
            if j == v.len() {
                assert(v.contains(v[i]));
                if v[i] != name {
                    let k = choose|k: int| 0 <= k < d.len() && d[k] == v[i];
                    assert(text_less(names[k], names[names.len() - 1]));
                }
            } else {
                assert(text_less(v[i], v[j]));
            }
        }
        assert forall|n: Seq<char>| #[trigger] w.contains(n) <==> names.contains(n) || n
            == name by {
            if w.contains(n) {
                let k = choose|k: int| 0 <= k < w.len() && w[k] == n;
                if k < v.len() {
                    assert(v[k] == n);
                    assert(v.contains(n));
                    if d.contains(n) {
                        let q = choose|q: int| 0 <= q < d.len() && d[q] == n;
                        assert(names[q] == n);
                    }
                } else {
                    assert(names[names.len() - 1] == n);
                }
            }
            if names.contains(n) {
                let k = choose|k: int| 0 <= k < names.len() && names[k] == n;
                if k < d.len() {
                    assert(d[k] == n);
                    assert(d.contains(n));
                    assert(v.contains(n));
                    let q = choose|q: int| 0 <= q < v.len() && v[q] == n;
                    assert(w[q] == n);
                } else {
                    assert(w[w.len() - 1] == n);
                }
            }
            if n == name {
                assert(v.contains(n));
                let q = choose|q: int| 0 <= q < v.len() && v[q] == n;
                assert(w[q] == n);
            }
        }
    }
}

proof fn lemma_artists_under(indexes: Seq<JsonView>, name: Seq<char>)
    ensures
        artists_under(index_entries(indexes), name) == indexes.map_values(
            |e: JsonView|
                if e.text_or("name"@, "#"@) == name {
                    e.items("artist"@)
                } else {
                    seq![]
                },
        ).flatten(),
    decreases indexes.len(),
{
    let f = |e: JsonView|
        if e.text_or("name"@, "#"@) == name {
            e.items("artist"@)
        } else {
            seq![]
        };
    lemma_flat_end(indexes, f);
    if indexes.len() > 0 {
        let d = indexes.drop_last();
        let e = indexes.last();
        lemma_artists_under(d, name);
        match index_entry(e) {
            Some(x) => {
                assert(index_entries(d).push(x).drop_last() =~= index_entries(d));
            },
            None => {},
        }
        let rest = artists_under(index_entries(d), name);
        assert(rest + seq![] =~= rest);
    }
}

proof fn lemma_merged_index(entries: Seq<(Seq<char>, Seq<JsonView>)>, name: Seq<char>)
    ensures
        merged_index(entries, name).get("name"@) == Some(JsonView::Text(name)),
        merged_index(entries, name).get("artist"@) == Some(
            JsonView::Array(alphabetical(artists_under(entries, name), "name"@)),
        ),
{
    broadcast use reading_after_setting;

    reveal_strlit("name");
    reveal_strlit("artist");
    assert("name"@.len() != "artist"@.len());
    let o = object().with("name"@, JsonView::Text(name));
    assert(o is Object);
    assert(o.get("name"@) == Some(JsonView::Text(name)));
}

/// The merged artist index has one entry for each letter, in order. An entry
/// lists the artists of all entries with its letter, of whatever backend, each
/// as often as they list it, by name.
pub proof fn merged_index_lists_every_artist(rs: Seq<(usize, JsonView)>, p: int, q: int)
    ensures
        ({
            let indexes = gathered(rs, "artists"@, "artists"@, "index"@);
            let shown = merged_artists(rs).items_in("artists"@, "index"@);
            let name = shown[p].text_or("name"@, seq![]);
            &&& 0 <= p < q < shown.len() ==> text_less(
                name,
                shown[q].text_or("name"@, seq![]),
            )
            &&& 0 <= p < shown.len() ==> in_alphabetical_order(
                shown[p].items("artist"@),
                "name"@,
            )
            &&& 0 <= p < shown.len() ==> shown[p].items("artist"@).to_multiset()
                == indexes.map_values(
                |e: JsonView|
                    if e.text_or("name"@, "#"@) == name {
                        e.items("artist"@)
                    } else {
                        seq![]
                    },
            ).flatten().to_multiset()
        }),
{
    broadcast use reading_after_setting;

    let indexes = gathered(rs, "artists"@, "artists"@, "index"@);
    let entries = index_entries(indexes);
    let shown = merged_artists(rs).items_in("artists"@, "index"@);
    reveal_strlit("ignoredArticles");
    reveal_strlit("index");
    reveal_strlit("name");
    reveal_strlit("artist");
    lemma_letters(entries);
    assert(shown == letters(entries).map_values(|n: Seq<char>| merged_index(entries, n)));
    if 0 <= p < shown.len() {
        let name = letters(entries)[p];
        assert(shown[p] == merged_index(entries, name));
        lemma_merged_index(entries, name);
        lemma_artists_under(indexes, name);
        alphabetical_sorts(artists_under(entries, name), "name"@);
    }
    if 0 <= q < shown.len() {
        assert(shown[q] == merged_index(entries, letters(entries)[q]));
        lemma_merged_index(entries, letters(entries)[q]);
    }
}

/// Every letter under which some backend lists artists is in the merged index.
pub proof fn merged_index_has_every_letter(rs: Seq<(usize, JsonView)>, k: int) -> (p: int)
    requires
        0 <= k < gathered(rs, "artists"@, "artists"@, "index"@).len(),
        gathered(rs, "artists"@, "artists"@, "index"@)[k].get("artist"@) matches Some(
            JsonView::Array(_),
        ),
    ensures
        0 <= p < merged_artists(rs).items_in("artists"@, "index"@).len(),
        merged_artists(rs).items_in("artists"@, "index"@)[p].text_or("name"@, seq![]) == gathered(
            rs,
            "artists"@,
            "artists"@,
            "index"@,
        )[k].text_or("name"@, "#"@),
{
    broadcast use reading_after_setting;

    let indexes = gathered(rs, "artists"@, "artists"@, "index"@);
    let entries = index_entries(indexes);
    let shown = merged_artists(rs).items_in("artists"@, "index"@);
    reveal_strlit("ignoredArticles");
    reveal_strlit("index");
    reveal_strlit("name");
    reveal_strlit("artist");
    lemma_letters(entries);
    lemma_entry_of(indexes, k);
    let name = indexes[k].text_or("name"@, "#"@);
    assert(letters(entries).contains(name));
    let p = choose|p: int| 0 <= p < letters(entries).len() && letters(entries)[p] == name;
    assert(shown[p] == merged_index(entries, name));
    lemma_merged_index(entries, name);
    p
}

proof fn lemma_entry_of(indexes: Seq<JsonView>, k: int)
    requires
        0 <= k < indexes.len(),
        indexes[k].get("artist"@) matches Some(JsonView::Array(_)),
    ensures
        exists|i: int|
            0 <= i < index_entries(indexes).len() && (#[trigger] index_entries(indexes)[i]).0
                == indexes[k].text_or("name"@, "#"@),
    decreases indexes.len(),
{
    let d = indexes.drop_last();
    let all = index_entries(indexes);
    if k < d.len() {
        lemma_entry_of(d, k);
        assert(d[k] == indexes[k]);
        let i = choose|i: int|
            0 <= i < index_entries(d).len() && (#[trigger] index_entries(d)[i]).0
                == indexes[k].text_or("name"@, "#"@);
        assert(all[i] == index_entries(d)[i]);
    } else {
        assert(all[all.len() - 1].0 == indexes[k].text_or("name"@, "#"@));
    }
}

/// An album list takes the albums of every backend, from the newer form of its
/// answer or else from the older.
pub proof fn album_lists_take_every_album(rs: Seq<(usize, JsonView)>)
    ensures
        listed_albums(rs) == rs.map_values(
            |p: (usize, JsonView)|
                match p.1.get("albumList2"@) {
                    Some(s) => namespaced(s, p.0 as nat).items("album"@),
                    None => match p.1.get("albumList"@) {
                        Some(s) => namespaced(s, p.0 as nat).items("album"@),
                        None => seq![],
                    },
                },
        ).flatten(),
{
    merging_takes_every_item(rs, "albumList2"@, "albumList"@, "album"@);
}

} // verus!
