//! JSON values.

use crate::strs::{
    decimal, decimal_string, signed_decimal, signed_decimal_string, str_eq, str_less, text_less,
    views,
};
use vstd::prelude::*;

verus! {

/// A JSON number. One that is no 64-bit integer is kept as it is written.
#[derive(Debug)]
pub enum Number {
    PosInt(u64),
    NegInt(i64),
    Float(String),
}

/// A JSON value. The members of an object stand in the order of their names.
#[derive(Debug)]
pub enum Json {
    Null,
    Bool(bool),
    Number(Number),
    Text(String),
    Array(Vec<Json>),
    Object(Vec<(String, Json)>),
}

/// A JSON number, with its text as characters.
pub enum NumberView {
    PosInt(u64),
    NegInt(i64),
    Float(Seq<char>),
}

/// A JSON value, with its texts as characters and its lists as sequences.
pub enum JsonView {
    Null,
    Bool(bool),
    Number(NumberView),
    Text(Seq<char>),
    Array(Seq<JsonView>),
    Object(Seq<(Seq<char>, JsonView)>),
}

impl View for Number {
    type V = NumberView;

    open spec fn view(&self) -> NumberView {
        match *self {
            Number::PosInt(n) => NumberView::PosInt(n),
            Number::NegInt(n) => NumberView::NegInt(n),
            Number::Float(s) => NumberView::Float(s@),
        }
    }
}

/// What a JSON value holds.
pub open spec fn json_view(j: Json) -> JsonView
    decreases j,
{
    match j {
        Json::Null => JsonView::Null,
        Json::Bool(b) => JsonView::Bool(b),
        Json::Number(n) => JsonView::Number(n@),
        Json::Text(s) => JsonView::Text(s@),
        Json::Array(a) => JsonView::Array(
            Seq::new(
                a@.len(),
                |i: int| if 0 <= i < a@.len() { json_view(a@[i]) } else { JsonView::Null },
            ),
        ),
        Json::Object(m) => JsonView::Object(
            Seq::new(
                m@.len(),
                |i: int|
                    if 0 <= i < m@.len() {
                        (m@[i].0@, json_view(m@[i].1))
                    } else {
                        (seq![], JsonView::Null)
                    },
            ),
        ),
    }
}

impl View for Json {
    type V = JsonView;

    open spec fn view(&self) -> JsonView {
        json_view(*self)
    }
}

/// The members of an object, their names as characters.
pub open spec fn members_view(m: Seq<(String, Json)>) -> Seq<(Seq<char>, JsonView)> {
    m.map_values(|p: (String, Json)| (p.0@, p.1@))
}

/// What arrays and objects hold, in terms of what their items hold.
pub broadcast proof fn json_view_parts(j: Json)
    ensures
        #![trigger j@]
        j matches Json::Array(a) ==> j@ == JsonView::Array(views(a@)),
        j matches Json::Object(m) ==> j@ == JsonView::Object(members_view(m@)),
{
    match j {
        Json::Array(a) => {
            assert(j@->Array_0 =~= views(a@));
        },
        Json::Object(m) => {
            assert(j@->Object_0 =~= members_view(m@));
        },
        _ => {},
    }
}

/// An item of an array is smaller than the array.
pub proof fn lemma_item_smaller(j: Json, i: int)
    requires
        j is Array,
        0 <= i < j->Array_0@.len(),
    ensures
        decreases_to!(j => j->Array_0@[i]),
{
    assert(decreases_to!(j => j->Array_0));
    assert(decreases_to!(j->Array_0 => j->Array_0@));
    assert(decreases_to!(j->Array_0@ => j->Array_0@[i]));
}

/// A member of an object is smaller than the object.
pub proof fn lemma_member_smaller(j: Json, i: int)
    requires
        j is Object,
        0 <= i < j->Object_0@.len(),
    ensures
        decreases_to!(j => j->Object_0@[i].1),
{
    assert(decreases_to!(j => j->Object_0));
    assert(decreases_to!(j->Object_0 => j->Object_0@));
    assert(decreases_to!(j->Object_0@ => j->Object_0@[i]));
    assert(decreases_to!(j->Object_0@[i] => j->Object_0@[i].1));
}

/// The value of the member `key`.
pub open spec fn member(m: Seq<(Seq<char>, JsonView)>, key: Seq<char>) -> Option<JsonView>
    decreases m.len(),
{
    if m.len() == 0 {
        None
    } else if m.last().0 == key {
        Some(m.last().1)
    } else {
        member(m.drop_last(), key)
    }
}

/// `m` with the member `key` set to `v`: in place of the old value, or as a new
/// member where the order of names puts it.
pub open spec fn with_member(
    m: Seq<(Seq<char>, JsonView)>,
    key: Seq<char>,
    v: JsonView,
) -> Seq<(Seq<char>, JsonView)>
    decreases m.len(),
{
    if m.len() == 0 {
        seq![(key, v)]
    } else if m.last().0 == key {
        m.drop_last().push((key, v))
    } else if text_less(m.last().0, key) {
        m.push((key, v))
    } else {
        with_member(m.drop_last(), key, v).push(m.last())
    }
}

/// The member that was set is read back, and all others stay as they were.
pub proof fn set_then_get(m: Seq<(Seq<char>, JsonView)>, key: Seq<char>, v: JsonView, other: Seq<char>)
    ensures
        member(with_member(m, key, v), key) == Some(v),
        other != key ==> member(with_member(m, key, v), other) == member(m, other),
    decreases m.len(),
{
    let w = with_member(m, key, v);
    if m.len() == 0 {
        assert(w.drop_last() =~= seq![]);
        assert(member(w.drop_last(), other) is None);
    } else if m.last().0 == key {
        assert(w.drop_last() =~= m.drop_last());
    } else if text_less(m.last().0, key) {
        assert(w.drop_last() =~= m);
    } else {
        set_then_get(m.drop_last(), key, v, other);
        assert(w.drop_last() =~= with_member(m.drop_last(), key, v));
    }
}

/// The member that was set is read back, and all others stay as they were.
pub broadcast proof fn reading_after_setting(
    o: JsonView,
    key: Seq<char>,
    v: JsonView,
    other: Seq<char>,
)
    requires
        o is Object,
    ensures
        #[trigger] o.with(key, v).get(other) == if other == key {
            Some(v)
        } else {
            o.get(other)
        },
{
    set_then_get(o->Object_0, key, v, other);
}

/// The members without those named `key`.
pub open spec fn without_member(m: Seq<(Seq<char>, JsonView)>, key: Seq<char>) -> Seq<
    (Seq<char>, JsonView),
>
    decreases m.len(),
{
    if m.len() == 0 {
        m
    } else {
        let rest = without_member(m.drop_last(), key);
        if m.last().0 == key {
            rest
        } else {
            rest.push(m.last())
        }
    }
}

/// An object without members.
pub open spec fn object() -> JsonView {
    JsonView::Object(seq![])
}

/// A natural number as JSON.
pub open spec fn whole(n: nat) -> JsonView
    recommends
        n <= u64::MAX,
{
    JsonView::Number(NumberView::PosInt(n as u64))
}

/// An integer as JSON.
pub open spec fn integer(i: int) -> JsonView
    recommends
        i64::MIN <= i <= i64::MAX,
{
    if i < 0 {
        JsonView::Number(NumberView::NegInt(i as i64))
    } else {
        JsonView::Number(NumberView::PosInt(i as u64))
    }
}

impl JsonView {
    /// The member `key`, if this is an object that has it.
    pub open spec fn get(self, key: Seq<char>) -> Option<JsonView> {
        match self {
            JsonView::Object(m) => member(m, key),
            _ => None,
        }
    }

    /// This object with the member `key` set to `v`; other values stay.
    pub open spec fn with(self, key: Seq<char>, v: JsonView) -> JsonView {
        match self {
            JsonView::Object(m) => JsonView::Object(with_member(m, key, v)),
            _ => self,
        }
    }

    /// This object with its member `from` under the name `to`; a value without
    /// that member stays.
    pub open spec fn renamed(self, from: Seq<char>, to: Seq<char>) -> JsonView {
        match self {
            JsonView::Object(m) => match member(m, from) {
                Some(v) => JsonView::Object(with_member(without_member(m, from), to, v)),
                None => self,
            },
            _ => self,
        }
    }

    /// The text, if this is one.
    pub open spec fn text(self) -> Option<Seq<char>> {
        match self {
            JsonView::Text(s) => Some(s),
            _ => None,
        }
    }

    /// The items, if this is an array.
    pub open spec fn list(self) -> Option<Seq<JsonView>> {
        match self {
            JsonView::Array(a) => Some(a),
            _ => None,
        }
    }

    /// The number, if this is a natural number.
    pub open spec fn natural(self) -> Option<u64> {
        match self {
            JsonView::Number(NumberView::PosInt(n)) => Some(n),
            _ => None,
        }
    }

    /// The number, if this is an integer that fits in 64 signed bits.
    pub open spec fn signed(self) -> Option<i64> {
        match self {
            JsonView::Number(NumberView::PosInt(n)) => if n <= i64::MAX {
                Some(n as i64)
            } else {
                None
            },
            JsonView::Number(NumberView::NegInt(n)) => Some(n),
            _ => None,
        }
    }

    /// Whether the member `key` is true.
    pub open spec fn is_set(self, key: Seq<char>) -> bool {
        self.get(key) == Some(JsonView::Bool(true))
    }

    /// The text of the member `key`, if it is one.
    pub open spec fn get_text(self, key: Seq<char>) -> Option<Seq<char>> {
        match self.get(key) {
            Some(v) => v.text(),
            None => None,
        }
    }

    /// The integer that the member `key` is, if it is one.
    pub open spec fn get_signed(self, key: Seq<char>) -> Option<i64> {
        match self.get(key) {
            Some(v) => v.signed(),
            None => None,
        }
    }

    /// The items of the member `inner` of the member `outer`.
    pub open spec fn items_in(self, outer: Seq<char>, inner: Seq<char>) -> Seq<JsonView> {
        match self.get(outer) {
            Some(v) => v.items(inner),
            None => seq![],
        }
    }

    /// The text of the member `key`, `default` if there is none.
    pub open spec fn text_or(self, key: Seq<char>, default: Seq<char>) -> Seq<char> {
        match self.get_text(key) {
            Some(s) => s,
            None => default,
        }
    }

    /// The items of the member `key`, none if it is no array.
    pub open spec fn items(self, key: Seq<char>) -> Seq<JsonView> {
        match self.get(key) {
            Some(JsonView::Array(a)) => a,
            _ => seq![],
        }
    }
}

/// Renaming the only member of an object gives the object with that member
/// under the other name.
pub proof fn renamed_only_member(from: Seq<char>, to: Seq<char>, v: JsonView)
    ensures
        object().with(from, v).renamed(from, to) == object().with(to, v),
{
    reveal_with_fuel(with_member, 2);
    reveal_with_fuel(without_member, 2);
    reveal_with_fuel(member, 2);
    let m = with_member(seq![], from, v);
    assert(m =~= seq![(from, v)]);
    assert(m.drop_last() =~= seq![]);
    assert(without_member(m, from) =~= seq![]);
}

impl NumberView {
    /// The number as a float is written: an integer has ".0" behind it. Digits
    /// beyond what a float holds stay in the text.
    pub open spec fn as_float(self) -> NumberView {
        match self {
            NumberView::PosInt(n) => NumberView::Float(decimal(n as nat) + ".0"@),
            NumberView::NegInt(i) => NumberView::Float(signed_decimal(i as int) + ".0"@),
            NumberView::Float(t) => NumberView::Float(t),
        }
    }
}

impl Number {
    /// The number as a float is written.
    pub fn as_float(&self) -> (r: Number)
        ensures
            r@ == self@.as_float(),
    {
        match self {
            Number::PosInt(n) => {
                let mut t = decimal_string(*n as u128);
                t.append(".0");
                Number::Float(t)
            },
            Number::NegInt(i) => {
                let mut t = signed_decimal_string(*i);
                t.append(".0");
                Number::Float(t)
            },
            Number::Float(t) => Number::Float(t.clone()),
        }
    }
}

impl Clone for Number {
    fn clone(&self) -> (r: Self)
        ensures
            r@ == self@,
    {
        match self {
            Number::PosInt(n) => Number::PosInt(*n),
            Number::NegInt(n) => Number::NegInt(*n),
            Number::Float(s) => Number::Float(s.clone()),
        }
    }
}

impl Clone for Json {
    fn clone(&self) -> (r: Self)
        ensures
            r@ == self@,
        decreases self,
    {
        broadcast use json_view_parts;

        match self {
            Json::Null => Json::Null,
            Json::Bool(b) => Json::Bool(*b),
            Json::Number(n) => Json::Number(n.clone()),
            Json::Text(s) => Json::Text(s.clone()),
            Json::Array(a) => {
                let mut out: Vec<Json> = Vec::new();
                let mut i: usize = 0;
                while i < a.len()
                    invariant
                        i <= a@.len(),
                        *self == Json::Array(*a),
                        out@.len() == i,
                        forall|k: int| 0 <= k < i ==> (#[trigger] out@[k])@ == a@[k]@,
                    decreases a@.len() - i,
                {
                    proof {
                        lemma_item_smaller(*self, i as int);
                    }
                    let c = a[i].clone();
                    out.push(c);
                    i += 1;
                }
                assert(views(out@) =~= views(a@));
                Json::Array(out)
            },
            Json::Object(m) => {
                let mut out: Vec<(String, Json)> = Vec::new();
                let mut i: usize = 0;
                while i < m.len()
                    invariant
                        i <= m@.len(),
                        *self == Json::Object(*m),
                        out@.len() == i,
                        forall|k: int|
                            0 <= k < i ==> (#[trigger] out@[k]).0@ == m@[k].0@ && out@[k].1@
                                == m@[k].1@,
                    decreases m@.len() - i,
                {
                    let k = m[i].0.clone();
                    proof {
                        lemma_member_smaller(*self, i as int);
                    }
                    let v = m[i].1.clone();
                    out.push((k, v));
                    i += 1;
                }
                assert(members_view(out@) =~= members_view(m@));
                Json::Object(out)
            },
        }
    }
}

/// Copies a list of values.
pub fn clone_items(a: &Vec<Json>) -> (r: Vec<Json>)
    ensures
        views(r@) == views(a@),
{
    let mut out: Vec<Json> = Vec::new();
    append_items(&mut out, a);
    assert(views(out@) =~= views(a@));
    out
}

/// Appends copies of the values of `a`.
pub fn append_items(out: &mut Vec<Json>, a: &Vec<Json>)
    ensures
        views(final(out)@) == views(old(out)@) + views(a@),
{
    let ghost before = out@;
    let mut i: usize = 0;
    while i < a.len()
        invariant
            i <= a@.len(),
            views(out@) == views(before) + views(a@).take(i as int),
        decreases a@.len() - i,
    {
        let ghost sofar = out@;
        let c = a[i].clone();
        out.push(c);
        proof {
            assert(views(out@) =~= views(sofar).push(c@));
            assert(views(a@).take(i + 1) =~= views(a@).take(i as int).push(a@[i as int]@));
        }
        i += 1;
    }
    assert(views(a@).take(i as int) =~= views(a@));
}

impl Json {
    /// An object without members.
    pub fn object() -> (r: Json)
        ensures
            r@ == object(),
    {
        broadcast use json_view_parts;

        let r = Json::Object(Vec::new());
        assert(r@->Object_0 =~= seq![]);
        r
    }

    /// A text.
    pub fn text(s: &str) -> (r: Json)
        ensures
            r@ == JsonView::Text(s@),
    {
        Json::Text(s.to_owned())
    }

    /// A list.
    pub fn array(items: Vec<Json>) -> (r: Json)
        ensures
            r@ == JsonView::Array(views(items@)),
    {
        broadcast use json_view_parts;

        Json::Array(items)
    }

    /// A natural number.
    pub fn whole(n: u64) -> (r: Json)
        ensures
            r@ == whole(n as nat),
    {
        Json::Number(Number::PosInt(n))
    }

    /// An integer.
    pub fn integer(i: i64) -> (r: Json)
        ensures
            r@ == integer(i as int),
    {
        if i < 0 {
            Json::Number(Number::NegInt(i))
        } else {
            Json::Number(Number::PosInt(i as u64))
        }
    }

    /// The member `key`, if this is an object that has it.
    pub fn get(&self, key: &str) -> (r: Option<&Json>)
        ensures
            match r {
                Some(v) => self@.get(key@) == Some(v@),
                None => self@.get(key@) is None,
            },
    {
        broadcast use json_view_parts;

        match self {
            Json::Object(m) => {
                let mut i: usize = m.len();
                assert(members_view(m@).take(i as int) =~= members_view(m@));
                while i > 0
                    invariant
                        i <= m@.len(),
                        self@.get(key@) == member(members_view(m@).take(i as int), key@),
                    decreases i,
                {
                    proof {
                        assert(members_view(m@).take(i as int).drop_last() =~= members_view(
                            m@,
                        ).take(i - 1));
                        assert(members_view(m@).take(i as int).last() == (
                            m@[i - 1].0@,
                            m@[i - 1].1@,
                        ));
                    }
                    if str_eq(m[i - 1].0.as_str(), key) {
                        return Some(&m[i - 1].1);
                    }
                    i -= 1;
                }
                None
            },
            _ => None,
        }
    }

    /// Sets the member `key` of an object; other values stay as they are.
    pub fn set(&mut self, key: &str, v: Json)
        ensures
            final(self)@ == old(self)@.with(key@, v@),
    {
        broadcast use json_view_parts;

        match self {
            Json::Object(m) => {
                insert_member(m, key, v);
            },
            _ => {},
        }
    }

    /// This object with the member `key` set.
    pub fn with(self, key: &str, v: Json) -> (r: Json)
        ensures
            r@ == self@.with(key@, v@),
    {
        let mut o = self;
        o.set(key, v);
        o
    }

    /// This object with the text member `key`.
    pub fn with_text(self, key: &str, s: &str) -> (r: Json)
        ensures
            r@ == self@.with(key@, JsonView::Text(s@)),
    {
        self.with(key, Json::text(s))
    }

    /// This object with its member `from` under the name `to`.
    pub fn rename(self, from: &str, to: &str) -> (r: Json)
        ensures
            r@ == self@.renamed(from@, to@),
    {
        broadcast use json_view_parts;

        let value = match self.get(from) {
            Some(v) => v.clone(),
            None => return self,
        };
        match self {
            Json::Object(m) => {
                let ghost all = members_view(m@);
                let mut rest: Vec<(String, Json)> = Vec::new();
                let mut i: usize = 0;
                assert(all.take(0) =~= seq![]);
                assert(members_view(rest@) =~= seq![]);
                while i < m.len()
                    invariant
                        i <= m@.len(),
                        all == members_view(m@),
                        members_view(rest@) == without_member(all.take(i as int), from@),
                    decreases m@.len() - i,
                {
                    let ghost before = rest@;
                    proof {
                        assert(all.take(i + 1).drop_last() =~= all.take(i as int));
                        assert(all.take(i + 1).last() == (m@[i as int].0@, m@[i as int].1@));
                    }
                    if !str_eq(m[i].0.as_str(), from) {
                        let e = (m[i].0.clone(), m[i].1.clone());
                        rest.push(e);
                        assert(members_view(rest@) =~= members_view(before).push((e.0@, e.1@)));
                    }
                    i += 1;
                }
                assert(all.take(i as int) =~= all);
                let mut o = Json::Object(rest);
                assert(o@ == JsonView::Object(without_member(all, from@)));
                o.set(to, value);
                o
            },
            _ => self,
        }
    }

    /// The text, if this is one.
    pub fn as_str(&self) -> (r: Option<&String>)
        ensures
            match r {
                Some(s) => self@.text() == Some(s@),
                None => self@.text() is None,
            },
    {
        match self {
            Json::Text(s) => Some(s),
            _ => None,
        }
    }

    /// The items, if this is an array.
    pub fn as_array(&self) -> (r: Option<&Vec<Json>>)
        ensures
            match r {
                Some(a) => self@.list() == Some(views(a@)),
                None => self@.list() is None,
            },
    {
        broadcast use json_view_parts;

        match self {
            Json::Array(a) => Some(a),
            _ => None,
        }
    }

    /// The number, if this is a natural number.
    pub fn as_u64(&self) -> (r: Option<u64>)
        ensures
            r == self@.natural(),
    {
        match self {
            Json::Number(Number::PosInt(n)) => Some(*n),
            _ => None,
        }
    }

    /// The number, if this is an integer that fits in 64 signed bits.
    pub fn as_i64(&self) -> (r: Option<i64>)
        ensures
            r == self@.signed(),
    {
        match self {
            Json::Number(Number::PosInt(n)) => if *n <= 9223372036854775807 {
                Some(*n as i64)
            } else {
                None
            },
            Json::Number(Number::NegInt(n)) => Some(*n),
            _ => None,
        }
    }

    /// The text of the member `key`, if it is one.
    pub fn get_str(&self, key: &str) -> (r: Option<&String>)
        ensures
            match r {
                Some(s) => self@.get_text(key@) == Some(s@),
                None => self@.get_text(key@) is None,
            },
    {
        match self.get(key) {
            Some(v) => v.as_str(),
            None => None,
        }
    }

    /// The text of the member `key`, `default` if there is none.
    pub fn str_or<'a>(&'a self, key: &str, default: &'a str) -> (r: &'a str)
        ensures
            r@ == self@.text_or(key@, default@),
    {
        match self.get_str(key) {
            Some(s) => s.as_str(),
            None => default,
        }
    }

    /// The integer that the member `key` is, if it is one.
    pub fn get_i64(&self, key: &str) -> (r: Option<i64>)
        ensures
            r == self@.get_signed(key@),
    {
        match self.get(key) {
            Some(v) => v.as_i64(),
            None => None,
        }
    }

    /// Whether the member `key` is true.
    pub fn is_true(&self, key: &str) -> (r: bool)
        ensures
            r == self@.is_set(key@),
    {
        match self.get(key) {
            Some(Json::Bool(b)) => *b,
            _ => false,
        }
    }

    /// A copy of the text of the member `key`, if it is one.
    pub fn copy_str(&self, key: &str) -> (r: Option<String>)
        ensures
            crate::strs::opt_text(r) == self@.get_text(key@),
    {
        match self.get_str(key) {
            Some(s) => Some(s.clone()),
            None => None,
        }
    }

    /// Copies of the items of the member `inner` of the member `outer`.
    pub fn copy_items(&self, outer: &str, inner: &str) -> (r: Vec<Json>)
        ensures
            views(r@) == self@.items_in(outer@, inner@),
    {
        let mut out: Vec<Json> = Vec::new();
        assert(views(out@) =~= seq![]);
        match self.get(outer) {
            Some(v) => {
                v.append_to(inner, &mut out);
                assert(Seq::<JsonView>::empty() + v@.items(inner@) =~= v@.items(inner@));
            },
            None => {},
        }
        out
    }

    /// Appends copies of the items of the member `key`.
    pub fn append_to(&self, key: &str, out: &mut Vec<Json>)
        ensures
            views(final(out)@) == views(old(out)@) + self@.items(key@),
    {
        let ghost before = views(out@);
        match self.get(key) {
            Some(v) => match v.as_array() {
                Some(a) => {
                    append_items(out, a);
                },
                None => {
                    assert(before + seq![] =~= before);
                },
            },
            None => {
                assert(before + seq![] =~= before);
            },
        }
    }
}

fn insert_member(m: &mut Vec<(String, Json)>, key: &str, v: Json)
    ensures
        members_view(final(m)@) == with_member(members_view(old(m)@), key@, v@),
{
    let ghost before = members_view(m@);
    let mut i: usize = m.len();
    let ghost tail = Seq::<(Seq<char>, JsonView)>::empty();
    proof {
        assert(before.take(i as int) =~= before);
        assert(before =~= before.take(i as int) + tail);
    }
    while i > 0 && !str_eq(m[i - 1].0.as_str(), key) && !str_less(m[i - 1].0.as_str(), key)
        invariant
            i <= m@.len(),
            before == members_view(m@),
            with_member(before, key@, v@) == with_member(before.take(i as int), key@, v@)
                + before.skip(i as int),
        decreases i,
    {
        proof {
            let t = before.take(i as int);
            assert(t.drop_last() =~= before.take(i - 1));
            assert(t.last() == (m@[i - 1].0@, m@[i - 1].1@));
            assert(with_member(t, key@, v@) + before.skip(i as int) =~= with_member(
                before.take(i - 1),
                key@,
                v@,
            ) + before.skip(i - 1));
        }
        i -= 1;
    }
    let ghost t = before.take(i as int);
    let ghost rest = before.skip(i as int);
    if i > 0 && str_eq(m[i - 1].0.as_str(), key) {
        let k = key.to_owned();
        m[i - 1] = (k, v);
        proof {
            assert(t.last() == before[i - 1]);
            assert(members_view(m@) =~= t.drop_last().push((key@, v@)) + rest);
        }
    } else {
        let k = key.to_owned();
        m.insert(i, (k, v));
        proof {
            if i > 0 {
                assert(t.last() == before[i - 1]);
            }
            assert(members_view(m@) =~= t.push((key@, v@)) + rest);
            assert(i == 0 ==> t.push((key@, v@)) =~= seq![(key@, v@)]);
        }
    }
}

// ── Laws of reading ─────────────────────────────────────────────

/// A member is read by its name: the last of that name; without one, nothing is
/// read.
pub proof fn members_are_read_by_name(m: Seq<(Seq<char>, JsonView)>, key: Seq<char>, i: int)
    ensures
        0 <= i < m.len() && m[i].0 == key && (forall|j: int|
            i < j < m.len() ==> (#[trigger] m[j]).0 != key) ==> JsonView::Object(m).get(key)
            == Some(m[i].1),
        (forall|j: int| 0 <= j < m.len() ==> (#[trigger] m[j]).0 != key) ==> JsonView::Object(
            m,
        ).get(key) is None,
    decreases m.len(),
{
    if m.len() > 0 {
        let d = m.drop_last();
        members_are_read_by_name(d, key, i);
        assert(m.last() == m[m.len() - 1]);
        assert forall|j: int| 0 <= j < d.len() implies (#[trigger] d[j]) == m[j] by {}
        if 0 <= i < m.len() && m[i].0 == key && (forall|j: int|
            i < j < m.len() ==> (#[trigger] m[j]).0 != key) {
            if i < m.len() - 1 {
                assert(m[m.len() - 1].0 != key);
                assert forall|j: int| i < j < d.len() implies (#[trigger] d[j]).0 != key by {
                    assert(d[j] == m[j]);
                }
            }
        }
        if forall|j: int| 0 <= j < m.len() ==> (#[trigger] m[j]).0 != key {
            assert forall|j: int| 0 <= j < d.len() implies (#[trigger] d[j]).0 != key by {
                assert(d[j] == m[j]);
            }
        }
    }
}

/// What is read of a value is what stands in it: texts, numbers, flags and
/// lists, each only where the value is of that kind.
pub proof fn values_are_read_as_written(v: JsonView, key: Seq<char>, x: JsonView)
    requires
        v.get(key) == Some(x),
    ensures
        x matches JsonView::Text(s) ==> v.get_text(key) == Some(s) && v.text_or(key, seq![]) == s,
        !(x is Text) ==> v.get_text(key) is None && v.text_or(key, seq!['x']) == seq!['x'],
        x matches JsonView::Array(a) ==> v.items(key) == a && x.list() == Some(a),
        !(x is Array) ==> v.items(key).len() == 0 && x.list() is None,
        x matches JsonView::Number(NumberView::PosInt(n)) ==> x.natural() == Some(n),
        forall|n: i64| x == #[trigger] integer(n as int) ==> v.get_signed(key) == Some(n),
        !(x is Number) ==> v.get_signed(key) is None && x.natural() is None,
        v.is_set(key) <==> x == JsonView::Bool(true),
{
}

/// A value without a member gives no text, no number, no flag and no items for
/// it.
pub proof fn missing_members_give_nothing(v: JsonView, key: Seq<char>, default: Seq<char>)
    requires
        v.get(key) is None,
    ensures
        v.get_text(key) is None,
        v.text_or(key, default) == default,
        v.get_signed(key) is None,
        v.items(key).len() == 0,
        !v.is_set(key),
{
}

/// Renaming a member keeps its value and every other member, and the old name
/// is gone.
pub proof fn renaming_keeps_values(v: JsonView, from: Seq<char>, to: Seq<char>, other: Seq<char>)
    requires
        v is Object,
        from != to,
        v.get(from) is Some,
    ensures
        v.renamed(from, to).get(to) == v.get(from),
        v.renamed(from, to).get(from) is None,
        other != from && other != to ==> v.renamed(from, to).get(other) == v.get(other),
{
    let m = v->Object_0;
    let rest = without_member(m, from);
    let x = v.get(from)->0;
    set_then_get(rest, to, x, from);
    set_then_get(rest, to, x, other);
    lemma_without_member(m, from, from);
    lemma_without_member(m, from, other);
}

proof fn lemma_without_member(m: Seq<(Seq<char>, JsonView)>, key: Seq<char>, other: Seq<char>)
    ensures
        member(without_member(m, key), other) == if other == key {
            None
        } else {
            member(m, other)
        },
    decreases m.len(),
{
    if m.len() > 0 {
        lemma_without_member(m.drop_last(), key, other);
        let rest = without_member(m.drop_last(), key);
        if m.last().0 != key {
            assert(rest.push(m.last()).drop_last() =~= rest);
        }
    }
}

/// A number is read as an integer if it is one that fits; only whole numbers that
/// are not negative are read as natural ones.
pub proof fn numbers_are_read_in_range(n: u64, i: i64, t: Seq<char>)
    ensures
        n <= i64::MAX ==> JsonView::Number(NumberView::PosInt(n)).signed() == Some(n as i64),
        n > i64::MAX ==> JsonView::Number(NumberView::PosInt(n)).signed() is None,
        JsonView::Number(NumberView::NegInt(i)).signed() == Some(i),
        JsonView::Number(NumberView::Float(t)).signed() is None,
        JsonView::Text(t).signed() is None,
        JsonView::Number(NumberView::PosInt(n)).natural() == Some(n),
        JsonView::Number(NumberView::NegInt(i)).natural() is None,
        JsonView::Number(NumberView::Float(t)).natural() is None,
        JsonView::Text(t).natural() is None,
        NumberView::PosInt(n).as_float() == NumberView::Float(decimal(n as nat) + ".0"@),
        i < 0 ==> NumberView::NegInt(i).as_float() == NumberView::Float(
            seq!['-'] + decimal((-i) as nat) + ".0"@,
        ),
        NumberView::Float(t).as_float() == NumberView::Float(t),
        i >= 0 ==> integer(i as int) == JsonView::Number(NumberView::PosInt(i as u64)),
        i < 0 ==> integer(i as int) == JsonView::Number(NumberView::NegInt(i)),
        whole(n as nat) == JsonView::Number(NumberView::PosInt(n)),
{
}

} // verus!
