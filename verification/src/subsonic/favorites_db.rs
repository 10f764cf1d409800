//! What users have starred.

use crate::seqs::lemma_filter_end;
use crate::sorting::{
    ranking, ranking_is_total_preorder, sort, stable_sort, stable_sort_sorts, Ranked,
};
use crate::strs::{
    str_eq, str_less, text_less, text_less_irreflexive, text_less_total, text_less_transitive,
    views,
};
use vstd::prelude::*;

verus! {

/// Something that a user has starred.
#[derive(Debug)]
pub struct Favorite {
    pub owner: String,
    pub item_id: String,
    /// "artist", "album" or "song"
    pub item_type: String,
    pub starred_at: String,
}

/// Something that a user has starred, as characters.
pub struct FavoriteView {
    pub owner: Seq<char>,
    pub item_id: Seq<char>,
    pub item_type: Seq<char>,
    pub starred_at: Seq<char>,
}

impl View for Favorite {
    type V = FavoriteView;

    open spec fn view(&self) -> FavoriteView {
        FavoriteView {
            owner: self.owner@,
            item_id: self.item_id@,
            item_type: self.item_type@,
            starred_at: self.starred_at@,
        }
    }
}

impl Clone for Favorite {
    fn clone(&self) -> (r: Self)
        ensures
            r@ == self@,
    {
        Favorite {
            owner: self.owner.clone(),
            item_id: self.item_id.clone(),
            item_type: self.item_type.clone(),
            starred_at: self.starred_at.clone(),
        }
    }
}

impl Ranked for Favorite {
    open spec fn leq(a: FavoriteView, b: FavoriteView) -> bool {
        !text_less(a.starred_at, b.starred_at)
    }

    proof fn leq_total(a: FavoriteView, b: FavoriteView) {
        if text_less(a.starred_at, b.starred_at) && text_less(b.starred_at, a.starred_at) {
            text_less_transitive(a.starred_at, b.starred_at, a.starred_at);
            text_less_irreflexive(a.starred_at);
        }
    }

    proof fn leq_transitive(a: FavoriteView, b: FavoriteView, c: FavoriteView) {
        if text_less(a.starred_at, c.starred_at) {
            text_less_total(a.starred_at, b.starred_at);
            text_less_total(b.starred_at, c.starred_at);
            if text_less(b.starred_at, a.starred_at) {
                text_less_transitive(b.starred_at, a.starred_at, c.starred_at);
            } else if text_less(c.starred_at, b.starred_at) {
                text_less_transitive(a.starred_at, c.starred_at, b.starred_at);
            }
        }
    }

    fn may_precede(&self, other: &Self) -> (r: bool) {
        !str_less(self.starred_at.as_str(), other.starred_at.as_str())
    }
}

/// The user has starred the item as this type.
pub open spec fn has_star(
    s: Seq<FavoriteView>,
    owner: Seq<char>,
    item_id: Seq<char>,
    item_type: Seq<char>,
) -> bool {
    exists|i: int|
        0 <= i < s.len() && (#[trigger] s[i]).owner == owner && s[i].item_id == item_id
            && s[i].item_type == item_type
}

/// The user has starred the item.
pub open spec fn has_any_star(s: Seq<FavoriteView>, owner: Seq<char>, item_id: Seq<char>) -> bool {
    exists|i: int|
        0 <= i < s.len() && (#[trigger] s[i]).owner == owner && s[i].item_id == item_id
}

/// The stars after one more; a star that is there already is not given twice.
pub open spec fn starred(s: Seq<FavoriteView>, f: FavoriteView) -> Seq<FavoriteView> {
    if has_star(s, f.owner, f.item_id, f.item_type) {
        s
    } else {
        s.push(f)
    }
}

/// The stars without those of a user on an item.
pub open spec fn unstarred(
    s: Seq<FavoriteView>,
    owner: Seq<char>,
    item_id: Seq<char>,
) -> Seq<FavoriteView>
    decreases s.len(),
{
    if s.len() == 0 {
        seq![]
    } else {
        let rest = unstarred(s.drop_last(), owner, item_id);
        if s.last().owner == owner && s.last().item_id == item_id {
            rest
        } else {
            rest.push(s.last())
        }
    }
}

/// The stars of a user on items of a type.
pub open spec fn stars_of(
    s: Seq<FavoriteView>,
    owner: Seq<char>,
    item_type: Seq<char>,
) -> Seq<FavoriteView>
    decreases s.len(),
{
    if s.len() == 0 {
        seq![]
    } else {
        let rest = stars_of(s.drop_last(), owner, item_type);
        if s.last().owner == owner && s.last().item_type == item_type {
            rest.push(s.last())
        } else {
            rest
        }
    }
}

/// Stars an item; says whether the star is new.
pub fn star(
    favorites: &mut Vec<Favorite>,
    owner: &str,
    item_id: &str,
    item_type: &str,
    starred_at: &str,
) -> (new: bool)
    ensures
        views(final(favorites)@) == starred(
            views(old(favorites)@),
            (FavoriteView {
                owner: owner@,
                item_id: item_id@,
                item_type: item_type@,
                starred_at: starred_at@,
            }),
        ),
        new == !has_star(views(old(favorites)@), owner@, item_id@, item_type@),
{
    let ghost s = views(favorites@);
    let mut i: usize = 0;
    while i < favorites.len()
        invariant
            i <= favorites@.len(),
            s == views(favorites@),
            forall|j: int|
                0 <= j < i ==> !((#[trigger] s[j]).owner == owner@ && s[j].item_id == item_id@
                    && s[j].item_type == item_type@),
        decreases favorites@.len() - i,
    {
        assert(s[i as int] == favorites@[i as int]@);
        if str_eq(favorites[i].owner.as_str(), owner) && str_eq(
            favorites[i].item_id.as_str(),
            item_id,
        ) && str_eq(favorites[i].item_type.as_str(), item_type) {
            return false;
        }
        i += 1;
    }
    let f = Favorite {
        owner: owner.to_owned(),
        item_id: item_id.to_owned(),
        item_type: item_type.to_owned(),
        starred_at: starred_at.to_owned(),
    };
    let ghost fv = f@;
    favorites.push(f);
    assert(views(favorites@) =~= s.push(fv));
    true
}

/// Takes all stars of a user from an item.
pub fn unstar(favorites: &mut Vec<Favorite>, owner: &str, item_id: &str)
    ensures
        views(final(favorites)@) == unstarred(views(old(favorites)@), owner@, item_id@),
{
    let ghost s = views(favorites@);
    let mut out: Vec<Favorite> = Vec::new();
    let mut i: usize = 0;
    assert(s.take(0) =~= seq![]);
    assert(views(out@) =~= seq![]);
    while i < favorites.len()
        invariant
            i <= favorites@.len(),
            s == views(favorites@),
            views(out@) == unstarred(s.take(i as int), owner@, item_id@),
        decreases favorites@.len() - i,
    {
        let ghost before = out@;
        proof {
            assert(s.take(i + 1).drop_last() =~= s.take(i as int));
            assert(s.take(i + 1).last() == favorites@[i as int]@);
        }
        if !(str_eq(favorites[i].owner.as_str(), owner) && str_eq(
            favorites[i].item_id.as_str(),
            item_id,
        )) {
            let f = favorites[i].clone();
            let ghost fv = f@;
            out.push(f);
            assert(views(out@) =~= views(before).push(fv));
        }
        i += 1;
    }
    assert(s.take(i as int) =~= s);
    *favorites = out;
}

/// Items with the times at which they were starred.
pub open spec fn dated(s: Seq<(String, String)>) -> Seq<(Seq<char>, Seq<char>)> {
    s.map_values(|t: (String, String)| (t.0@, t.1@))
}

/// What a user has starred of a type, the latest first, with the times.
pub fn get_starred_ids(favorites: &Vec<Favorite>, owner: &str, item_type: &str) -> (r: Vec<
    (String, String),
>)
    ensures
        dated(r@) == stable_sort(
            stars_of(views(favorites@), owner@, item_type@),
            ranking::<Favorite>(),
        ).map_values(|f: FavoriteView| (f.item_id, f.starred_at)),
{
    let ghost s = views(favorites@);
    let mut mine: Vec<Favorite> = Vec::new();
    let mut i: usize = 0;
    assert(s.take(0) =~= seq![]);
    assert(views(mine@) =~= seq![]);
    while i < favorites.len()
        invariant
            i <= favorites@.len(),
            s == views(favorites@),
            views(mine@) == stars_of(s.take(i as int), owner@, item_type@),
        decreases favorites@.len() - i,
    {
        let ghost before = mine@;
        proof {
            assert(s.take(i + 1).drop_last() =~= s.take(i as int));
            assert(s.take(i + 1).last() == favorites@[i as int]@);
        }
        if str_eq(favorites[i].owner.as_str(), owner) && str_eq(
            favorites[i].item_type.as_str(),
            item_type,
        ) {
            let f = favorites[i].clone();
            let ghost fv = f@;
            mine.push(f);
            assert(views(mine@) =~= views(before).push(fv));
        }
        i += 1;
    }
    assert(s.take(i as int) =~= s);
    let sorted = sort(mine);
    let ghost want = views(sorted@).map_values(|f: FavoriteView| (f.item_id, f.starred_at));
    let mut out: Vec<(String, String)> = Vec::new();
    let mut k: usize = 0;
    while k < sorted.len()
        invariant
            k <= sorted@.len(),
            want == views(sorted@).map_values(|f: FavoriteView| (f.item_id, f.starred_at)),
            dated(out@) == want.take(k as int),
        decreases sorted@.len() - k,
    {
        let ghost before = out@;
        let t = (sorted[k].item_id.clone(), sorted[k].starred_at.clone());
        out.push(t);
        assert(dated(out@) =~= dated(before).push((t.0@, t.1@)));
        assert(want.take(k + 1) =~= want.take(k as int).push((t.0@, t.1@)));
        k += 1;
    }
    assert(want.take(k as int) =~= want);
    out
}

/// Whether a user has starred an item.
pub fn is_starred(favorites: &Vec<Favorite>, owner: &str, item_id: &str) -> (r: bool)
    ensures
        r == has_any_star(views(favorites@), owner@, item_id@),
{
    let ghost s = views(favorites@);
    let mut i: usize = 0;
    while i < favorites.len()
        invariant
            i <= favorites@.len(),
            s == views(favorites@),
            forall|j: int|
                0 <= j < i ==> !((#[trigger] s[j]).owner == owner@ && s[j].item_id == item_id@),
        decreases favorites@.len() - i,
    {
        assert(s[i as int] == favorites@[i as int]@);
        if str_eq(favorites[i].owner.as_str(), owner) && str_eq(
            favorites[i].item_id.as_str(),
            item_id,
        ) {
            return true;
        }
        i += 1;
    }
    false
}

/// What is starred has a star, and starring it again changes nothing.
pub proof fn starring_is_idempotent(s: Seq<FavoriteView>, f: FavoriteView)
    ensures
        has_any_star(starred(s, f), f.owner, f.item_id),
        starred(starred(s, f), f) == starred(s, f),
{
    if has_star(s, f.owner, f.item_id, f.item_type) {
        let i = choose|i: int|
            0 <= i < s.len() && (#[trigger] s[i]).owner == f.owner && s[i].item_id == f.item_id
                && s[i].item_type == f.item_type;
        assert(starred(s, f)[i].owner == f.owner);
    } else {
        assert(starred(s, f)[s.len() as int] == f);
    }
}

/// What is unstarred has no star of that user left, whatever its type; stars
/// on other items and of other users stay.
pub proof fn unstarring_removes_star(
    s: Seq<FavoriteView>,
    owner: Seq<char>,
    item_id: Seq<char>,
    other: Seq<char>,
    other_id: Seq<char>,
)
    ensures
        !has_any_star(unstarred(s, owner, item_id), owner, item_id),
        (other, other_id) != (owner, item_id) ==> has_any_star(
            unstarred(s, owner, item_id),
            other,
            other_id,
        ) == has_any_star(s, other, other_id),
    decreases s.len(),
{
    if s.len() > 0 {
        let d = s.drop_last();
        unstarring_removes_star(d, owner, item_id, other, other_id);
        let rest = unstarred(d, owner, item_id);
        let all = unstarred(s, owner, item_id);
        if has_any_star(all, owner, item_id) {
            let i = choose|i: int|
                0 <= i < all.len() && (#[trigger] all[i]).owner == owner && all[i].item_id == item_id;
            assert(i < rest.len() ==> rest[i] == all[i]);
        }
        if (other, other_id) != (owner, item_id) {
            if has_any_star(s, other, other_id) {
                let i = choose|i: int|
                    0 <= i < s.len() && (#[trigger] s[i]).owner == other && s[i].item_id == other_id;
                if i < d.len() {
                    assert(d[i] == s[i]);
                    let k = choose|k: int|
                        0 <= k < rest.len() && (#[trigger] rest[k]).owner == other
                            && rest[k].item_id == other_id;
                    assert(all[k] == rest[k]);
                } else {
                    assert(all[rest.len() as int] == s[i]);
                }
            }
            if has_any_star(all, other, other_id) {
                let i = choose|i: int|
                    0 <= i < all.len() && (#[trigger] all[i]).owner == other && all[i].item_id
                        == other_id;
                if i < rest.len() {
                    assert(rest[i] == all[i]);
                    let k = choose|k: int|
                        0 <= k < d.len() && (#[trigger] d[k]).owner == other && d[k].item_id
                            == other_id;
                    assert(s[k] == d[k]);
                } else {
                    assert(s[s.len() - 1] == all[i]);
                }
            }
        }
    }
}

/// The stars of a user on items of a type are all those, in their order.
pub proof fn stars_of_a_user_are_picked(
    s: Seq<FavoriteView>,
    owner: Seq<char>,
    item_type: Seq<char>,
)
    ensures
        stars_of(s, owner, item_type) == s.filter(
            |f: FavoriteView| f.owner == owner && f.item_type == item_type,
        ),
    decreases s.len(),
{
    lemma_filter_end(s, |f: FavoriteView| f.owner == owner && f.item_type == item_type);
    if s.len() > 0 {
        stars_of_a_user_are_picked(s.drop_last(), owner, item_type);
    }
}

/// Unstarring takes the stars of that user on that item, and no others.
pub proof fn unstarring_keeps_all_other_stars(
    s: Seq<FavoriteView>,
    owner: Seq<char>,
    item_id: Seq<char>,
)
    ensures
        unstarred(s, owner, item_id) == s.filter(
            |f: FavoriteView| f.owner != owner || f.item_id != item_id,
        ),
    decreases s.len(),
{
    lemma_filter_end(s, |f: FavoriteView| f.owner != owner || f.item_id != item_id);
    if s.len() > 0 {
        unstarring_keeps_all_other_stars(s.drop_last(), owner, item_id);
    }
}

/// A star that differs from all that are there, in its owner, its item or its
/// type, is put behind them; after starring the item is starred.
pub proof fn new_stars_are_kept(s: Seq<FavoriteView>, f: FavoriteView)
    ensures
        (forall|i: int|
            0 <= i < s.len() ==> (#[trigger] s[i]).owner != f.owner || s[i].item_id != f.item_id
                || s[i].item_type != f.item_type) ==> starred(s, f) == s.push(f),
        has_star(starred(s, f), f.owner, f.item_id, f.item_type),
        has_any_star(starred(s, f), f.owner, f.item_id),
{
    let t = s.push(f);
    assert(t[s.len() as int] == f);
}

/// What was starred later is listed earlier, and all that the user starred of
/// the type is listed.
pub proof fn latest_stars_come_first(
    s: Seq<FavoriteView>,
    owner: Seq<char>,
    item_type: Seq<char>,
    i: int,
    j: int,
)
    requires
        0 <= i < j < s.filter(
            |f: FavoriteView| f.owner == owner && f.item_type == item_type,
        ).len(),
    ensures
        ({
            let picked = s.filter(|f: FavoriteView| f.owner == owner && f.item_type == item_type);
            let listed = stable_sort(stars_of(s, owner, item_type), ranking::<Favorite>());
            &&& listed.to_multiset() == picked.to_multiset()
            &&& listed.len() == picked.len()
            &&& !text_less(listed[i].starred_at, listed[j].starred_at)
        }),
{
    stars_of_a_user_are_picked(s, owner, item_type);
    ranking_is_total_preorder::<Favorite>();
    stable_sort_sorts(stars_of(s, owner, item_type), ranking::<Favorite>());
    let listed = stable_sort(stars_of(s, owner, item_type), ranking::<Favorite>());
    assert(ranking::<Favorite>()(listed[i], listed[j]));
}

} // verus!
