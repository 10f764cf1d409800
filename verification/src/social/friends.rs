//! Friends: adding, removing and listing them.

use crate::seqs::lemma_filter_end;
use crate::sorting::{
    ranking, ranking_is_total_preorder, sort, stable_sort, stable_sort_sorts, Ranked,
};
use crate::strs::{
    opt_text, str_eq, str_less, text_less, text_less_irreflexive, text_less_total,
    text_less_transitive, views,
};
use crate::table::{
    found, keys_distinct, put, written, written_row_is_found, writing_keeps_keys_distinct, Row,
};
use vstd::prelude::*;

verus! {

/// A friend.
#[derive(Debug)]
pub struct Friend {
    pub id: i64,
    pub name: String,
    pub public_key: String,
    pub ticket: String,
    pub added_at: String,
    pub last_seen: Option<String>,
}

/// A friend, as characters and numbers.
pub struct FriendView {
    pub id: i64,
    pub name: Seq<char>,
    pub public_key: Seq<char>,
    pub ticket: Seq<char>,
    pub added_at: Seq<char>,
    pub last_seen: Option<Seq<char>>,
}

impl View for Friend {
    type V = FriendView;

    open spec fn view(&self) -> FriendView {
        FriendView {
            id: self.id,
            name: self.name@,
            public_key: self.public_key@,
            ticket: self.ticket@,
            added_at: self.added_at@,
            last_seen: opt_text(self.last_seen),
        }
    }
}

impl Clone for Friend {
    fn clone(&self) -> (r: Self)
        ensures
            r@ == self@,
    {
        Friend {
            id: self.id,
            name: self.name.clone(),
            public_key: self.public_key.clone(),
            ticket: self.ticket.clone(),
            added_at: self.added_at.clone(),
            last_seen: self.last_seen.clone(),
        }
    }
}

impl Ranked for Friend {
    open spec fn leq(a: FriendView, b: FriendView) -> bool {
        !text_less(b.name, a.name)
    }

    proof fn leq_total(a: FriendView, b: FriendView) {
        if text_less(a.name, b.name) && text_less(b.name, a.name) {
            text_less_transitive(a.name, b.name, a.name);
            text_less_irreflexive(a.name);
        }
    }

    proof fn leq_transitive(a: FriendView, b: FriendView, c: FriendView) {
        if text_less(c.name, a.name) {
            text_less_total(a.name, b.name);
            text_less_total(b.name, c.name);
            if text_less(a.name, b.name) {
                text_less_transitive(c.name, a.name, b.name);
            } else if text_less(b.name, c.name) {
                text_less_transitive(b.name, c.name, a.name);
            }
        }
    }

    fn may_precede(&self, other: &Self) -> (r: bool) {
        !str_less(other.name.as_str(), self.name.as_str())
    }
}

/// A friend under another name and with another ticket.
pub open spec fn readdressed(f: FriendView, name: Seq<char>, ticket: Seq<char>) -> FriendView {
    FriendView {
        id: f.id,
        name,
        public_key: f.public_key,
        ticket,
        added_at: f.added_at,
        last_seen: f.last_seen,
    }
}

impl Row for Friend {
    open spec fn key(v: FriendView) -> Seq<Seq<char>> {
        seq![v.public_key]
    }

    open spec fn over(stored: FriendView, new: FriendView) -> FriendView {
        readdressed(stored, new.name, new.ticket)
    }

    proof fn over_keeps_key(stored: FriendView, new: FriendView) {
    }

    fn same_key(&self, other: &Self) -> (r: bool) {
        proof {
            lemma_one_key(self.public_key@, other.public_key@);
        }
        str_eq(self.public_key.as_str(), other.public_key.as_str())
    }

    fn put_over(&self, new: Self) -> (r: Self) {
        let mut f = self.clone();
        f.name = new.name;
        f.ticket = new.ticket;
        f
    }

    fn copy(&self) -> (r: Self) {
        self.clone()
    }
}

proof fn lemma_one_key(a: Seq<char>, b: Seq<char>)
    ensures
        (seq![a] == seq![b]) == (a == b),
{
    if seq![a] == seq![b] {
        assert(seq![a][0] == seq![b][0]);
    }
}

/// The friend with this key, if there is one.
pub open spec fn friend_with_key(s: Seq<FriendView>, public_key: Seq<char>) -> Option<FriendView> {
    found::<Friend>(s, seq![public_key])
}

/// Adds a friend. A key that is known gets the new name and ticket; a new one
/// stands at the end, never seen. `id` and `added_at` are for one who is new.
pub fn add_friend(
    friends: &mut Vec<Friend>,
    name: &str,
    public_key: &str,
    ticket: &str,
    id: i64,
    added_at: &str,
)
    ensures
        views(final(friends)@) == written::<Friend>(
            views(old(friends)@),
            (FriendView {
                id,
                name: name@,
                public_key: public_key@,
                ticket: ticket@,
                added_at: added_at@,
                last_seen: None,
            }),
        ),
{
    put(
        friends,
        Friend {
            id,
            name: name.to_owned(),
            public_key: public_key.to_owned(),
            ticket: ticket.to_owned(),
            added_at: added_at.to_owned(),
            last_seen: None,
        },
    );
}

/// A friend with this key was seen; others stay as they are.
pub open spec fn seen(f: FriendView, public_key: Seq<char>, at: Seq<char>) -> FriendView {
    if f.public_key == public_key {
        FriendView {
            id: f.id,
            name: f.name,
            public_key: f.public_key,
            ticket: f.ticket,
            added_at: f.added_at,
            last_seen: Some(at),
        }
    } else {
        f
    }
}

/// Notes when a friend was last seen.
pub fn update_last_seen(friends: &mut Vec<Friend>, public_key: &str, at: &str)
    ensures
        views(final(friends)@) == views(old(friends)@).map_values(
            |f: FriendView| seen(f, public_key@, at@),
        ),
{
    let ghost s = views(friends@);
    let ghost want = s.map_values(|f: FriendView| seen(f, public_key@, at@));
    let mut i: usize = 0;
    while i < friends.len()
        invariant
            i <= friends@.len(),
            friends@.len() == s.len(),
            want == s.map_values(|f: FriendView| seen(f, public_key@, at@)),
            forall|j: int| 0 <= j < i ==> (#[trigger] friends@[j])@ == want[j],
            forall|j: int| i <= j < s.len() ==> (#[trigger] friends@[j])@ == s[j],
        decreases friends@.len() - i,
    {
        if str_eq(friends[i].public_key.as_str(), public_key) {
            let mut f = friends[i].clone();
            f.last_seen = Some(at.to_owned());
            friends.set(i, f);
        }
        i += 1;
    }
    assert(views(friends@) =~= want);
}

/// The friends without those of this name.
pub open spec fn without_name(s: Seq<FriendView>, name: Seq<char>) -> Seq<FriendView>
    decreases s.len(),
{
    if s.len() == 0 {
        seq![]
    } else {
        let rest = without_name(s.drop_last(), name);
        if s.last().name == name {
            rest
        } else {
            rest.push(s.last())
        }
    }
}

/// Removes friends by name; says whether there were any.
pub fn remove_friend(friends: &mut Vec<Friend>, name: &str) -> (removed: bool)
    ensures
        views(final(friends)@) == without_name(views(old(friends)@), name@),
        removed == (final(friends)@.len() < old(friends)@.len()),
{
    let ghost s = views(friends@);
    let mut out: Vec<Friend> = Vec::new();
    let mut removed = false;
    let mut i: usize = 0;
    assert(s.take(0) =~= seq![]);
    assert(views(out@) =~= seq![]);
    while i < friends.len()
        invariant
            i <= friends@.len(),
            s == views(friends@),
            views(out@) == without_name(s.take(i as int), name@),
            out@.len() <= i,
            removed == (out@.len() < i),
        decreases friends@.len() - i,
    {
        let ghost before = out@;
        proof {
            assert(s.take(i + 1).drop_last() =~= s.take(i as int));
            assert(s.take(i + 1).last() == friends@[i as int]@);
        }
        if str_eq(friends[i].name.as_str(), name) {
            removed = true;
        } else {
            let f = friends[i].clone();
            let ghost fv = f@;
            out.push(f);
            assert(views(out@) =~= views(before).push(fv));
        }
        i += 1;
    }
    assert(s.take(i as int) =~= s);
    *friends = out;
    removed
}

/// All friends, by name.
pub fn list_friends(friends: &Vec<Friend>) -> (r: Vec<Friend>)
    ensures
        views(r@) == stable_sort(views(friends@), ranking::<Friend>()),
{
    let ghost s = views(friends@);
    let mut all: Vec<Friend> = Vec::new();
    let mut i: usize = 0;
    while i < friends.len()
        invariant
            i <= friends@.len(),
            s == views(friends@),
            views(all@) == s.take(i as int),
        decreases friends@.len() - i,
    {
        let ghost before = all@;
        let f = friends[i].clone();
        let ghost fv = f@;
        all.push(f);
        assert(views(all@) =~= views(before).push(fv));
        assert(s.take(i + 1) =~= s.take(i as int).push(fv));
        i += 1;
    }
    assert(s.take(i as int) =~= s);
    sort(all)
}

/// The friend with this key.
pub fn get_friend_by_key<'a>(friends: &'a Vec<Friend>, public_key: &str) -> (r: Option<&'a Friend>)
    ensures
        match r {
            Some(f) => friend_with_key(views(friends@), public_key@) == Some(f@),
            None => friend_with_key(views(friends@), public_key@) is None,
        },
{
    let ghost s = views(friends@);
    let mut i: usize = 0;
    assert(s.skip(0) =~= s);
    while i < friends.len()
        invariant
            i <= friends@.len(),
            s == views(friends@),
            friend_with_key(s, public_key@) == friend_with_key(s.skip(i as int), public_key@),
        decreases friends@.len() - i,
    {
        proof {
            assert(s.skip(i as int)[0] == friends@[i as int]@);
            assert(s.skip(i as int).skip(1) =~= s.skip(i + 1));
            lemma_one_key(friends@[i as int].public_key@, public_key@);
        }
        if str_eq(friends[i].public_key.as_str(), public_key) {
            return Some(&friends[i]);
        }
        i += 1;
    }
    None
}

/// A friend who was added is found by their key, under the new name and ticket;
/// other friends are found as before.
pub proof fn added_friend_is_found(s: Seq<FriendView>, f: FriendView, other: Seq<char>)
    ensures
        friend_with_key(written::<Friend>(s, f), f.public_key) matches Some(g) && g.name == f.name
            && g.ticket == f.ticket,
        other != f.public_key ==> friend_with_key(written::<Friend>(s, f), other)
            == friend_with_key(s, other),
{
    written_row_is_found::<Friend>(s, f, seq![other]);
    lemma_one_key(other, f.public_key);
}

/// Adding a friend keeps the keys of the friends distinct.
pub proof fn adding_keeps_keys_distinct(s: Seq<FriendView>, f: FriendView)
    requires
        keys_distinct::<Friend>(s),
    ensures
        keys_distinct::<Friend>(written::<Friend>(s, f)),
{
    writing_keeps_keys_distinct::<Friend>(s, f);
}

/// Nobody of a name that was removed is left, and nobody else is gone.
pub proof fn removed_friend_is_gone(s: Seq<FriendView>, name: Seq<char>)
    ensures
        forall|i: int|
            0 <= i < without_name(s, name).len() ==> (#[trigger] without_name(s, name)[i]).name
                != name,
        forall|i: int|
            0 <= i < s.len() && (#[trigger] s[i]).name != name ==> without_name(s, name).contains(
                s[i],
            ),
    decreases s.len(),
{
    if s.len() > 0 {
        let d = s.drop_last();
        removed_friend_is_gone(d, name);
        let rest = without_name(d, name);
        let all = without_name(s, name);
        assert forall|i: int| 0 <= i < all.len() implies (#[trigger] all[i]).name != name by {
            if i < rest.len() {
                assert(all[i] == rest[i]);
            }
        }
        assert forall|i: int| 0 <= i < s.len() && (#[trigger] s[i]).name != name implies all.contains(
            s[i],
        ) by {
            if i < d.len() {
                assert(d[i] == s[i]);
                let k = choose|k: int| 0 <= k < rest.len() && rest[k] == s[i];
                assert(all[k] == s[i]);
            } else {
                assert(all[rest.len() as int] == s[i]);
            }
        }
    }
}

/// Adding a friend again changes name and ticket, and being seen changes the time
/// of that; all else stays.
pub proof fn friends_change_only_in_what_is_new(
    f: FriendView,
    name: Seq<char>,
    ticket: Seq<char>,
    key: Seq<char>,
    at: Seq<char>,
)
    ensures
        readdressed(f, name, ticket) == (FriendView { name, ticket, ..f }),
        f.public_key == key ==> seen(f, key, at) == (FriendView { last_seen: Some(at), ..f }),
        f.public_key != key ==> seen(f, key, at) == f,
{
}

/// Removing a friend by name takes all friends of that name, and no others.
pub proof fn removal_takes_friends_of_the_name(s: Seq<FriendView>, name: Seq<char>)
    ensures
        without_name(s, name) == s.filter(|f: FriendView| f.name != name),
    decreases s.len(),
{
    lemma_filter_end(s, |f: FriendView| f.name != name);
    if s.len() > 0 {
        removal_takes_friends_of_the_name(s.drop_last(), name);
    }
}

/// Friends are listed by name, and all of them are.
pub proof fn friends_are_listed_by_name(s: Seq<FriendView>, i: int, j: int)
    requires
        0 <= i < j < s.len(),
    ensures
        ({
            let listed = stable_sort(s, ranking::<Friend>());
            &&& listed.to_multiset() == s.to_multiset()
            &&& listed.len() == s.len()
            &&& !text_less(listed[j].name, listed[i].name)
        }),
{
    ranking_is_total_preorder::<Friend>();
    stable_sort_sorts(s, ranking::<Friend>());
    let listed = stable_sort(s, ranking::<Friend>());
    assert(ranking::<Friend>()(listed[i], listed[j]));
}

} // verus!
