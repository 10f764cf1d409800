//! Fingerprints, and the groups of items that share one.

use crate::id::{dedup_id, encode_dedup_id};
use crate::strs::{
    chars_of, concat3, decimal, decimal_read_back, decimal_starts_with_digit, opt_text,
    signed_decimal, signed_decimal_string, str_eq, views,
};
use crate::unicode::{
    is_ascii_text, is_space, is_whitespace, lowercase, no_capitals, to_lowercase,
};
use vstd::prelude::*;

verus! {

/// A member of a dedup group.
#[derive(Debug)]
pub struct DedupMember {
    pub namespaced_id: String,
    pub backend_idx: usize,
    pub bitrate: Option<i64>,
    pub format: Option<String>,
}

/// A member, as characters and numbers.
pub struct DedupMemberView {
    pub namespaced_id: Seq<char>,
    pub backend_idx: usize,
    pub bitrate: Option<i64>,
    pub format: Option<Seq<char>>,
}

impl View for DedupMember {
    type V = DedupMemberView;

    open spec fn view(&self) -> DedupMemberView {
        DedupMemberView {
            namespaced_id: self.namespaced_id@,
            backend_idx: self.backend_idx,
            bitrate: self.bitrate,
            format: opt_text(self.format),
        }
    }
}

impl Clone for DedupMember {
    fn clone(&self) -> (r: Self)
        ensures
            r@ == self@,
    {
        DedupMember {
            namespaced_id: self.namespaced_id.clone(),
            backend_idx: self.backend_idx,
            bitrate: self.bitrate,
            format: self.format.clone(),
        }
    }
}

// ── Normalization ───────────────────────────────────────────────

/// What is left of a text, and how many parentheses and brackets are open at
/// its end.
pub struct Stripped {
    pub text: Seq<char>,
    pub parens: nat,
    pub brackets: nat,
}

/// One less, not below zero.
pub open spec fn one_less(n: nat) -> nat {
    if n > 0 {
        (n - 1) as nat
    } else {
        0
    }
}

/// `s` without what stands in parentheses or brackets.
pub open spec fn stripped(s: Seq<char>) -> Stripped
    decreases s.len(),
{
    if s.len() == 0 {
        Stripped { text: seq![], parens: 0, brackets: 0 }
    } else {
        let p = stripped(s.drop_last());
        let c = s.last();
        if c == '(' {
            Stripped { parens: p.parens + 1, ..p }
        } else if c == ')' {
            Stripped { parens: one_less(p.parens), ..p }
        } else if c == '[' {
            Stripped { brackets: p.brackets + 1, ..p }
        } else if c == ']' {
            Stripped { brackets: one_less(p.brackets), ..p }
        } else if p.parens > 0 || p.brackets > 0 {
            p
        } else {
            Stripped { text: p.text.push(c), ..p }
        }
    }
}

/// The words of `s` with one space between them.
pub open spec fn collapsed(s: Seq<char>) -> Seq<char>
    decreases s.len(),
{
    if s.len() == 0 {
        seq![]
    } else {
        let r = collapsed(s.drop_last());
        let c = s.last();
        if is_space(c) {
            r
        } else if r.len() > 0 && is_space(s[s.len() - 2]) {
            r.push(' ').push(c)
        } else {
            r.push(c)
        }
    }
}

/// A text as fingerprints see it: in lower case, without what stands in
/// parentheses or brackets, its words with one space between them.
pub open spec fn normalized(s: Seq<char>) -> Seq<char> {
    collapsed(stripped(lowercase(s)).text)
}

/// Strips what stands in parentheses or brackets.
pub fn regex_lite_strip(s: &str) -> (r: String)
    ensures
        r@ == stripped(s@).text,
{
    let x = chars_of(s);
    let mut out = String::new();
    let mut parens: usize = 0;
    let mut brackets: usize = 0;
    let mut i: usize = 0;
    assert(x@.take(0) =~= seq![]);
    while i < x.len()
        invariant
            i <= x@.len(),
            parens <= i,
            brackets <= i,
            stripped(x@.take(i as int)) == (Stripped {
                text: out@,
                parens: parens as nat,
                brackets: brackets as nat,
            }),
        decreases x@.len() - i,
    {
        let c = x[i];
        proof {
            assert(x@.take(i + 1).drop_last() =~= x@.take(i as int));
            assert(x@.take(i + 1).last() == c);
        }
        if c == '(' {
            parens = parens + 1;
        } else if c == ')' {
            if parens > 0 {
                parens = parens - 1;
            }
        } else if c == '[' {
            brackets = brackets + 1;
        } else if c == ']' {
            if brackets > 0 {
                brackets = brackets - 1;
            }
        } else if parens > 0 || brackets > 0 {
        } else {
            out.push(c);
        }
        i += 1;
    }
    assert(x@.take(i as int) =~= s@);
    out
}

fn collapse_whitespace(s: &str) -> (r: String)
    ensures
        r@ == collapsed(s@),
{
    let x = chars_of(s);
    let mut out = String::new();
    let mut empty: bool = true;
    let mut after_space: bool = false;
    let mut i: usize = 0;
    assert(x@.take(0) =~= seq![]);
    while i < x.len()
        invariant
            i <= x@.len(),
            out@ == collapsed(x@.take(i as int)),
            empty == (out@.len() == 0),
            i > 0 ==> after_space == is_space(x@[i - 1]),
            i == 0 ==> empty,
        decreases x@.len() - i,
    {
        let c = x[i];
        proof {
            assert(x@.take(i + 1).drop_last() =~= x@.take(i as int));
            assert(x@.take(i + 1).last() == c);
            if i > 0 {
                assert(x@.take(i + 1)[i - 1] == x@[i - 1]);
            }
        }
        if is_whitespace(c) {
            after_space = true;
        } else {
            if !empty && after_space {
                out.push(' ');
            }
            out.push(c);
            empty = false;
            after_space = false;
        }
        i += 1;
    }
    assert(x@.take(i as int) =~= s@);
    out
}

/// Normalizes a text for fingerprints: lower case, without noise like
/// "(Remastered)" or "[Deluxe Edition]", white space collapsed.
pub fn normalize(s: &str) -> (r: String)
    ensures
        r@ == normalized(s@),
        no_capitals(r@),
{
    let lower = to_lowercase(s);
    let plain = regex_lite_strip(lower.as_str());
    proof {
        lemma_stripped_from(lower@);
        lemma_collapsed_from(plain@);
        assert forall|i: int| 0 <= i < collapsed(plain@).len() implies !('A' <= (
        #[trigger] collapsed(plain@)[i]) <= 'Z') by {
            let c = collapsed(plain@)[i];
            if c != ' ' {
                assert(lower@.contains(c));
            }
        }
    }
    collapse_whitespace(plain.as_str())
}

/// The fingerprint of a track.
pub open spec fn track_print(
    artist: Seq<char>,
    album: Seq<char>,
    title: Seq<char>,
    track_number: Option<i64>,
) -> Seq<char> {
    "t::"@ + normalized(artist) + "::"@ + normalized(album) + "::"@ + normalized(title) + "::"@
        + match track_number {
        Some(n) => signed_decimal(n as int),
        None => seq![],
    }
}

/// The fingerprint of an album.
pub open spec fn album_print(artist: Seq<char>, album: Seq<char>) -> Seq<char> {
    "a::"@ + normalized(artist) + "::"@ + normalized(album)
}

/// Generates a track fingerprint: "t::artist::album::title::track_number".
pub fn track_fingerprint(artist: &str, album: &str, title: &str, track_number: Option<i64>) -> (r:
    String)
    ensures
        r@ == track_print(artist@, album@, title@, track_number),
{
    let mut s = concat3("t::", normalize(artist).as_str(), "::");
    s.append(normalize(album).as_str());
    s.append("::");
    s.append(normalize(title).as_str());
    s.append("::");
    match track_number {
        Some(n) => {
            s.append(signed_decimal_string(n).as_str());
        },
        None => {
            assert(s@ + seq![] =~= s@);
        },
    }
    s
}

/// Generates an album fingerprint: "a::artist::album".
pub fn album_fingerprint(artist: &str, album: &str) -> (r: String)
    ensures
        r@ == album_print(artist@, album@),
{
    let mut s = concat3("a::", normalize(artist).as_str(), "::");
    s.append(normalize(album).as_str());
    s
}

/// Texts that differ only in case have the same fingerprints.
pub proof fn fingerprints_ignore_case(
    a1: Seq<char>,
    b1: Seq<char>,
    t1: Seq<char>,
    a2: Seq<char>,
    b2: Seq<char>,
    t2: Seq<char>,
    n: Option<i64>,
)
    requires
        lowercase(a1) == lowercase(a2),
        lowercase(b1) == lowercase(b2),
        lowercase(t1) == lowercase(t2),
    ensures
        track_print(a1, b1, t1, n) == track_print(a2, b2, t2, n),
        album_print(a1, b1) == album_print(a2, b2),
{
}

/// A text without parentheses and brackets.
pub open spec fn unbracketed(s: Seq<char>) -> bool {
    forall|i: int|
        0 <= i < s.len() ==> (#[trigger] s[i]) != '(' && s[i] != ')' && s[i] != '[' && s[i] != ']'
}

proof fn lemma_inside(a: Seq<char>, x: Seq<char>)
    requires
        unbracketed(x),
        stripped(a).parens > 0 || stripped(a).brackets > 0,
    ensures
        stripped(a + x) == stripped(a),
    decreases x.len(),
{
    if x.len() == 0 {
        assert(a + x =~= a);
    } else {
        assert forall|i: int| 0 <= i < x.drop_last().len() implies (#[trigger] x.drop_last()[i])
            != '(' && x.drop_last()[i] != ')' && x.drop_last()[i] != '[' && x.drop_last()[i]
            != ']' by {
            assert(x[i] == x.drop_last()[i]);
        }
        lemma_inside(a, x.drop_last());
        assert((a + x).drop_last() =~= a + x.drop_last());
        assert((a + x).last() == x[x.len() - 1]);
    }
}

proof fn lemma_trailing_space(s: Seq<char>)
    ensures
        collapsed(s.push(' ')) == collapsed(s),
{
    assert(s.push(' ').drop_last() =~= s);
}

/// A remark in parentheses or brackets behind a title does not matter to what
/// fingerprints see: "the wall (remastered 2011)" is "the wall".
pub proof fn remarks_are_noise(a: Seq<char>, remark: Seq<char>)
    requires
        unbracketed(remark),
        stripped(a).parens == 0,
        stripped(a).brackets == 0,
    ensures
        collapsed(stripped(a.push(' ').push('(') + remark.push(')')).text) == collapsed(
            stripped(a).text,
        ),
        collapsed(stripped(a.push(' ').push('[') + remark.push(']')).text) == collapsed(
            stripped(a).text,
        ),
{
    let s = a.push(' ');
    assert(s.drop_last() =~= a);
    assert(stripped(s).text == stripped(a).text.push(' '));
    let p = s.push('(');
    assert(p.drop_last() =~= s);
    lemma_inside(p, remark);
    let w = p + remark.push(')');
    assert(w.drop_last() =~= p + remark);
    assert(stripped(w).text == stripped(s).text);
    let b = s.push('[');
    assert(b.drop_last() =~= s);
    lemma_inside(b, remark);
    let v = b + remark.push(']');
    assert(v.drop_last() =~= b + remark);
    assert(stripped(v).text == stripped(s).text);
    lemma_trailing_space(stripped(a).text);
}

// ── Laws of normalizing ─────────────────────────────────────────

proof fn lemma_stripped_from(s: Seq<char>)
    ensures
        unbracketed(stripped(s).text),
        forall|i: int| 0 <= i < stripped(s).text.len() ==> s.contains(#[trigger] stripped(s).text[i]),
    decreases s.len(),
{
    if s.len() > 0 {
        let d = s.drop_last();
        lemma_stripped_from(d);
        let t = stripped(s).text;
        let u = stripped(d).text;
        assert forall|i: int| 0 <= i < t.len() implies s.contains(#[trigger] t[i]) && t[i] != '('
            && t[i] != ')' && t[i] != '[' && t[i] != ']' by {
            if i < u.len() {
                assert(t[i] == u[i]);
                assert(d.contains(u[i]));
                let k = choose|k: int| 0 <= k < d.len() && d[k] == u[i];
                assert(s[k] == t[i]);
            } else {
                assert(s[s.len() - 1] == t[i]);
            }
        }
    }
}

proof fn lemma_collapsed_from(s: Seq<char>)
    ensures
        forall|i: int|
            0 <= i < collapsed(s).len() ==> (#[trigger] collapsed(s)[i]) == ' ' || s.contains(
                collapsed(s)[i],
            ),
    decreases s.len(),
{
    if s.len() > 0 {
        let d = s.drop_last();
        lemma_collapsed_from(d);
        let t = collapsed(s);
        let u = collapsed(d);
        assert forall|i: int| 0 <= i < t.len() implies (#[trigger] t[i]) == ' ' || s.contains(
            t[i],
        ) by {
            if i < u.len() {
                assert(t[i] == u[i]);
                if u[i] != ' ' {
                    assert(d.contains(u[i]));
                    let k = choose|k: int| 0 <= k < d.len() && d[k] == u[i];
                    assert(s[k] == t[i]);
                }
            } else if t[i] != ' ' {
                assert(s[s.len() - 1] == t[i]);
            }
        }
    }
}

/// Words with one space between them, which may be followed by one more.
pub open spec fn spaced_singly(s: Seq<char>) -> bool {
    &&& forall|i: int| 0 <= i < s.len() && is_space(#[trigger] s[i]) ==> s[i] == ' ' && 0 < i
    &&& forall|i: int, j: int|
        0 <= i < s.len() && j == i + 1 && j < s.len() ==> !(is_space(#[trigger] s[i]) && is_space(
            #[trigger] s[j],
        ))
}

/// The only white space is single spaces inside: none at either end, no two
/// next to each other.
pub open spec fn is_tidy(s: Seq<char>) -> bool {
    spaced_singly(s) && (s.len() > 0 ==> !is_space(s.last()))
}

proof fn lemma_collapsed_is_tidy(s: Seq<char>)
    ensures
        is_tidy(collapsed(s)),
    decreases s.len(),
{
    if s.len() > 0 {
        lemma_collapsed_is_tidy(s.drop_last());
    }
}

proof fn lemma_tidy_stays(s: Seq<char>)
    requires
        spaced_singly(s),
    ensures
        collapsed(s) == if s.len() > 0 && is_space(s.last()) {
            s.drop_last()
        } else {
            s
        },
    decreases s.len(),
{
    if s.len() > 0 {
        let d = s.drop_last();
        let n = s.len() - 1;
        assert forall|i: int| 0 <= i < d.len() && is_space(#[trigger] d[i]) implies d[i] == ' ' && 0
            < i by {
            assert(d[i] == s[i]);
        }
        assert forall|i: int, j: int|
            0 <= i < d.len() && j == i + 1 && j < d.len() implies !(is_space(#[trigger] d[i])
            && is_space(#[trigger] d[j])) by {
            assert(d[i] == s[i] && d[j] == s[j]);
        }
        lemma_tidy_stays(d);
        assert(s.last() == s[n]);
        if n > 0 {
            assert(d.last() == s[n - 1]);
        }
        if is_space(s.last()) {
            assert(n > 0);
            assert(!is_space(s[n - 1]));
        } else if n > 0 && is_space(s[n - 1]) {
            assert(n - 1 > 0);
            assert(s =~= d.drop_last().push(' ').push(s.last()));
        } else {
            assert(s =~= d.push(s.last()));
        }
    }
}

/// Text without parentheses and brackets is kept as it is.
pub proof fn plain_text_is_kept(s: Seq<char>)
    requires
        unbracketed(s),
    ensures
        stripped(s) == (Stripped { text: s, parens: 0, brackets: 0 }),
    decreases s.len(),
{
    if s.len() > 0 {
        let d = s.drop_last();
        assert(unbracketed(d)) by {
            assert forall|i: int| 0 <= i < d.len() implies (#[trigger] d[i]) != '(' && d[i] != ')'
                && d[i] != '[' && d[i] != ']' by {
                assert(d[i] == s[i]);
            }
        }
        plain_text_is_kept(d);
        assert(s.last() == s[s.len() - 1]);
        assert(d.push(s.last()) =~= s);
    } else {
        assert(s =~= seq![]);
    }
}

/// Whatever the text, what fingerprints see of it has no parentheses and no
/// brackets, and its only white space is single spaces between words.
pub proof fn normalized_texts_are_tidy(s: Seq<char>)
    ensures
        unbracketed(normalized(s)),
        is_tidy(normalized(s)),
{
    let t = stripped(lowercase(s)).text;
    let r = normalized(s);
    lemma_stripped_from(lowercase(s));
    lemma_collapsed_from(t);
    lemma_collapsed_is_tidy(t);
    assert forall|i: int| 0 <= i < r.len() implies (#[trigger] r[i]) != '(' && r[i] != ')' && r[i]
        != '[' && r[i] != ']' by {
        if r[i] != ' ' {
            let k = choose|k: int| 0 <= k < t.len() && t[k] == r[i];
            assert(t[k] == r[i]);
        }
    }
}

/// Normalizing a second time changes nothing, where lower case leaves what the
/// first time gave as it is.
pub proof fn normalizing_again_changes_nothing(s: Seq<char>)
    requires
        lowercase(normalized(s)) == normalized(s),
    ensures
        normalized(normalized(s)) == normalized(s),
{
    let r = normalized(s);
    normalized_texts_are_tidy(s);
    plain_text_is_kept(r);
    lemma_tidy_stays(r);
}

/// Of a text of ASCII, normalizing leaves no upper-case letter, and normalizing
/// a second time changes nothing.
pub proof fn normalizing_ascii_again_changes_nothing(s: Seq<char>)
    requires
        is_ascii_text(s),
    ensures
        is_ascii_text(normalized(s)),
        no_capitals(normalized(s)),
        normalized(normalized(s)) == normalized(s),
{
    let low = lowercase(s);
    let t = stripped(low).text;
    let r = normalized(s);
    lemma_stripped_from(low);
    lemma_collapsed_from(t);
    assert forall|i: int| 0 <= i < r.len() implies (#[trigger] r[i]) <= '\u{7f}' && !('A' <= r[i]
        <= 'Z') by {
        if r[i] != ' ' {
            let k = choose|k: int| 0 <= k < t.len() && t[k] == r[i];
            assert(t[k] == r[i]);
            let q = choose|q: int| 0 <= q < low.len() && low[q] == t[k];
            assert(low[q] == r[i]);
            assert(s[q] <= '\u{7f}');
        }
    }
    assert(lowercase(r) =~= r);
    normalizing_again_changes_nothing(s);
}

// ── Groups ──────────────────────────────────────────────────────

/// An item with its fingerprint.
#[derive(Debug)]
pub struct Printed {
    pub fingerprint: String,
    pub member: DedupMember,
}

impl View for Printed {
    type V = (Seq<char>, DedupMemberView);

    open spec fn view(&self) -> (Seq<char>, DedupMemberView) {
        (self.fingerprint@, self.member@)
    }
}

/// The items with this fingerprint, in their order.
pub open spec fn members_of(s: Seq<(Seq<char>, DedupMemberView)>, print: Seq<char>) -> Seq<
    DedupMemberView,
>
    decreases s.len(),
{
    if s.len() == 0 {
        seq![]
    } else if s.last().0 == print {
        members_of(s.drop_last(), print).push(s.last().1)
    } else {
        members_of(s.drop_last(), print)
    }
}

/// The fingerprint is among the items.
pub open spec fn has_print(s: Seq<(Seq<char>, DedupMemberView)>, print: Seq<char>) -> bool {
    exists|i: int| 0 <= i < s.len() && (#[trigger] s[i]).0 == print
}

/// The groups of the first `n` items' fingerprints that two or more of all the
/// items share, in the order in which the fingerprints first occur.
pub open spec fn groups_of(s: Seq<(Seq<char>, DedupMemberView)>, n: nat) -> Seq<
    (Seq<char>, Seq<DedupMemberView>),
>
    decreases n,
{
    if n == 0 {
        seq![]
    } else {
        let rest = groups_of(s, (n - 1) as nat);
        let print = s[n - 1].0;
        if has_print(s.take(n - 1), print) || members_of(s, print).len() < 2 {
            rest
        } else {
            rest.push((print, members_of(s, print)))
        }
    }
}

/// The groups of duplicates among the items.
pub open spec fn duplicates(s: Seq<(Seq<char>, DedupMemberView)>) -> Seq<
    (Seq<char>, Seq<DedupMemberView>),
> {
    groups_of(s, s.len())
}

/// A group of items that are the same music.
#[derive(Debug)]
pub struct DedupGroup {
    pub fingerprint: String,
    pub members: Vec<DedupMember>,
}

impl View for DedupGroup {
    type V = (Seq<char>, Seq<DedupMemberView>);

    open spec fn view(&self) -> (Seq<char>, Seq<DedupMemberView>) {
        (self.fingerprint@, views(self.members@))
    }
}

fn collect_members(items: &Vec<Printed>, print: &str) -> (r: Vec<DedupMember>)
    ensures
        views(r@) == members_of(views(items@), print@),
{
    let ghost s = views(items@);
    let mut out: Vec<DedupMember> = Vec::new();
    let mut i: usize = 0;
    assert(s.take(0) =~= seq![]);
    assert(views(out@) =~= seq![]);
    while i < items.len()
        invariant
            i <= items@.len(),
            s == views(items@),
            views(out@) == members_of(s.take(i as int), print@),
        decreases items@.len() - i,
    {
        let ghost before = out@;
        proof {
            assert(s.take(i + 1).drop_last() =~= s.take(i as int));
            assert(s.take(i + 1).last() == items@[i as int]@);
        }
        if str_eq(items[i].fingerprint.as_str(), print) {
            let c = items[i].member.clone();
            out.push(c);
            assert(views(out@) =~= views(before).push(c@));
        }
        i += 1;
    }
    assert(s.take(i as int) =~= s);
    out
}

fn seen_before(items: &Vec<Printed>, n: usize, print: &str) -> (r: bool)
    requires
        n <= items@.len(),
    ensures
        r == has_print(views(items@).take(n as int), print@),
{
    let ghost s = views(items@).take(n as int);
    let mut i: usize = 0;
    while i < n
        invariant
            i <= n <= items@.len(),
            s == views(items@).take(n as int),
            forall|k: int| 0 <= k < i ==> (#[trigger] s[k]).0 != print@,
        decreases n - i,
    {
        assert(s[i as int] == items@[i as int]@);
        if str_eq(items[i].fingerprint.as_str(), print) {
            return true;
        }
        i += 1;
    }
    false
}

/// Groups items by their fingerprints; only groups of two or more are
/// duplicates.
pub fn group_duplicates(items: &Vec<Printed>) -> (r: Vec<DedupGroup>)
    ensures
        views(r@) == duplicates(views(items@)),
{
    let ghost s = views(items@);
    let mut out: Vec<DedupGroup> = Vec::new();
    let mut i: usize = 0;
    assert(views(out@) =~= seq![]);
    while i < items.len()
        invariant
            i <= items@.len(),
            s == views(items@),
            views(out@) == groups_of(s, i as nat),
        decreases items@.len() - i,
    {
        let ghost before = out@;
        let print = items[i].fingerprint.as_str();
        assert(s[i as int] == items@[i as int]@);
        if !seen_before(items, i, print) {
            let members = collect_members(items, print);
            assert(views(members@).len() == members@.len());
            if members.len() >= 2 {
                let g = DedupGroup { fingerprint: items[i].fingerprint.clone(), members };
                let ghost gv = g@;
                out.push(g);
                assert(views(out@) =~= views(before).push(gv));
            }
        }
        i += 1;
    }
    out
}

/// A cached track, as far as duplicates are concerned.
#[derive(Debug)]
pub struct TrackRow {
    pub namespaced_id: String,
    pub artist: String,
    pub backend_idx: usize,
    pub album: String,
    pub title: Option<String>,
    pub track_number: Option<i64>,
    pub bitrate: Option<i64>,
    pub suffix: Option<String>,
}

/// A cached album, as far as duplicates are concerned.
#[derive(Debug)]
pub struct AlbumRow {
    pub namespaced_id: String,
    pub artist: String,
    pub backend_idx: usize,
    pub name: String,
}

/// The title, empty if it is unknown.
pub open spec fn title_of(t: Option<String>) -> Seq<char> {
    match t {
        Some(s) => s@,
        None => ""@,
    }
}

/// A track with its fingerprint.
pub open spec fn printed_track(t: TrackRow) -> (Seq<char>, DedupMemberView) {
    (
        track_print(t.artist@, t.album@, title_of(t.title), t.track_number),
        DedupMemberView {
            namespaced_id: t.namespaced_id@,
            backend_idx: t.backend_idx,
            bitrate: t.bitrate,
            format: opt_text(t.suffix),
        },
    )
}

/// An album with its fingerprint.
pub open spec fn printed_album(a: AlbumRow) -> (Seq<char>, DedupMemberView) {
    (
        album_print(a.artist@, a.name@),
        DedupMemberView {
            namespaced_id: a.namespaced_id@,
            backend_idx: a.backend_idx,
            bitrate: None,
            format: None,
        },
    )
}

/// Finds duplicate tracks by grouping on normalized fingerprints.
pub fn find_duplicate_tracks(rows: &Vec<TrackRow>) -> (r: Vec<DedupGroup>)
    ensures
        views(r@) == duplicates(rows@.map_values(|t: TrackRow| printed_track(t))),
{
    let ghost want = rows@.map_values(|t: TrackRow| printed_track(t));
    let mut items: Vec<Printed> = Vec::new();
    let mut i: usize = 0;
    while i < rows.len()
        invariant
            i <= rows@.len(),
            want == rows@.map_values(|t: TrackRow| printed_track(t)),
            views(items@) == want.take(i as int),
        decreases rows@.len() - i,
    {
        let ghost before = items@;
        let row = &rows[i];
        let title = match &row.title {
            Some(t) => t.as_str(),
            None => "",
        };
        let p = Printed {
            fingerprint: track_fingerprint(
                row.artist.as_str(),
                row.album.as_str(),
                title,
                row.track_number,
            ),
            member: DedupMember {
                namespaced_id: row.namespaced_id.clone(),
                backend_idx: row.backend_idx,
                bitrate: row.bitrate,
                format: row.suffix.clone(),
            },
        };
        let ghost pv = p@;
        assert(want[i as int] == pv);
        items.push(p);
        assert(views(items@) =~= views(before).push(pv));
        assert(want.take(i + 1) =~= want.take(i as int).push(pv));
        i += 1;
    }
    assert(want.take(i as int) =~= want);
    group_duplicates(&items)
}

/// Finds duplicate albums by grouping on normalized fingerprints.
pub fn find_duplicate_albums(rows: &Vec<AlbumRow>) -> (r: Vec<DedupGroup>)
    ensures
        views(r@) == duplicates(rows@.map_values(|a: AlbumRow| printed_album(a))),
{
    let ghost want = rows@.map_values(|a: AlbumRow| printed_album(a));
    let mut items: Vec<Printed> = Vec::new();
    let mut i: usize = 0;
    while i < rows.len()
        invariant
            i <= rows@.len(),
            want == rows@.map_values(|a: AlbumRow| printed_album(a)),
            views(items@) == want.take(i as int),
        decreases rows@.len() - i,
    {
        let ghost before = items@;
        let row = &rows[i];
        let p = Printed {
            fingerprint: album_fingerprint(row.artist.as_str(), row.name.as_str()),
            member: DedupMember {
                namespaced_id: row.namespaced_id.clone(),
                backend_idx: row.backend_idx,
                bitrate: None,
                format: None,
            },
        };
        let ghost pv = p@;
        assert(want[i as int] == pv);
        items.push(p);
        assert(views(items@) =~= views(before).push(pv));
        assert(want.take(i + 1) =~= want.take(i as int).push(pv));
        i += 1;
    }
    assert(want.take(i as int) =~= want);
    group_duplicates(&items)
}

/// The identifier under which a group of duplicates is addressed.
pub fn canonical_id(fingerprint: &str) -> (r: String)
    ensures
        r@ == dedup_id(fingerprint@),
{
    encode_dedup_id(fingerprint)
}

/// A group of duplicates that is to be stored.
#[derive(Debug)]
pub struct StoredGroup {
    pub group: DedupGroup,
    pub canonical_id: String,
    /// "track" or "album"
    pub entity_type: &'static str,
}

/// What is to be stored of groups of one type.
pub open spec fn to_store(
    groups: Seq<(Seq<char>, Seq<DedupMemberView>)>,
    entity_type: Seq<char>,
) -> Seq<((Seq<char>, Seq<DedupMemberView>), Seq<char>, Seq<char>)> {
    groups.map_values(
        |g: (Seq<char>, Seq<DedupMemberView>)| (g, dedup_id(g.0), entity_type),
    )
}

impl View for StoredGroup {
    type V = ((Seq<char>, Seq<DedupMemberView>), Seq<char>, Seq<char>);

    open spec fn view(&self) -> ((Seq<char>, Seq<DedupMemberView>), Seq<char>, Seq<char>) {
        (self.group@, self.canonical_id@, self.entity_type@)
    }
}

fn name_groups(groups: Vec<DedupGroup>, entity_type: &'static str, out: &mut Vec<StoredGroup>)
    ensures
        views(final(out)@) == views(old(out)@) + to_store(views(groups@), entity_type@),
{
    let ghost before = views(out@);
    let ghost all = views(groups@);
    let ghost want = to_store(all, entity_type@);
    let mut rest = groups;
    let mut back: Vec<DedupGroup> = Vec::new();
    while rest.len() > 0
        invariant
            all == views(rest@) + views(back@).reverse(),
        decreases rest@.len(),
    {
        let ghost r0 = rest@;
        let ghost b0 = back@;
        let g = rest.pop().unwrap();
        let ghost gv = g@;
        back.push(g);
        proof {
            assert(views(r0) =~= views(rest@).push(gv));
            assert(views(back@) =~= views(b0).push(gv));
            assert(views(back@).reverse() =~= seq![gv] + views(b0).reverse());
            assert(views(rest@) + views(back@).reverse() =~= views(r0) + views(b0).reverse());
        }
    }
    assert(views(rest@) =~= seq![]);
    assert(all =~= views(back@).reverse());
    let ghost n = all.len();
    assert(views(back@).len() == back@.len());
    assert(before + want.take(0) =~= before);
    while back.len() > 0
        invariant
            n == all.len(),
            back@.len() <= n,
            want == to_store(all, entity_type@),
            views(back@) =~= all.reverse().take(back@.len() as int),
            views(out@) == before + want.take(n - back@.len()),
        decreases back@.len(),
    {
        let ghost b0 = back@;
        let ghost o0 = out@;
        let ghost k = n - back@.len();
        let g = back.pop().unwrap();
        let ghost gv = g@;
        proof {
            assert(views(b0).last() == gv);
            assert(all.reverse()[b0.len() - 1] == all[k]);
            assert(gv == all[k]);
        }
        let id = encode_dedup_id(g.fingerprint.as_str());
        let s = StoredGroup { group: g, canonical_id: id, entity_type };
        let ghost sv = s@;
        out.push(s);
        proof {
            assert(views(out@) =~= views(o0).push(sv));
            assert(want[k] == sv);
            assert(before + want.take(k + 1) =~= (before + want.take(k)).push(sv));
            assert(views(back@) =~= views(b0).drop_last());
        }
    }
    assert(want.take(n as int) =~= want);
}

/// What a deduplication pass stores: the groups of duplicate tracks, then those
/// of duplicate albums.
pub fn run_dedup(tracks: &Vec<TrackRow>, albums: &Vec<AlbumRow>) -> (r: Vec<StoredGroup>)
    ensures
        views(r@) == to_store(
            duplicates(tracks@.map_values(|t: TrackRow| printed_track(t))),
            "track"@,
        ) + to_store(duplicates(albums@.map_values(|a: AlbumRow| printed_album(a))), "album"@),
{
    let mut out: Vec<StoredGroup> = Vec::new();
    assert(views(out@) =~= seq![]);
    name_groups(find_duplicate_tracks(tracks), "track", &mut out);
    assert(views(out@) =~= to_store(
        duplicates(tracks@.map_values(|t: TrackRow| printed_track(t))),
        "track"@,
    ));
    name_groups(find_duplicate_albums(albums), "album", &mut out);
    out
}

/// Every group of duplicates has two or more members, which all share its
/// fingerprint, and no fingerprint has two groups.
pub proof fn groups_are_duplicates(s: Seq<(Seq<char>, DedupMemberView)>, g: int, h: int)
    requires
        0 <= g < duplicates(s).len(),
        0 <= h < duplicates(s).len(),
        g != h,
    ensures
        duplicates(s)[g].1.len() >= 2,
        duplicates(s)[g].1 == members_of(s, duplicates(s)[g].0),
        duplicates(s)[g].0 != duplicates(s)[h].0,
{
    lemma_groups(s, s.len());
}

proof fn lemma_groups(s: Seq<(Seq<char>, DedupMemberView)>, n: nat)
    requires
        n <= s.len(),
    ensures
        forall|g: int|
            0 <= g < groups_of(s, n).len() ==> (#[trigger] groups_of(s, n)[g]).1.len() >= 2
                && groups_of(s, n)[g].1 == members_of(s, groups_of(s, n)[g].0) && has_print(
                s.take(n as int),
                groups_of(s, n)[g].0,
            ),
        forall|g: int, h: int|
            0 <= g < groups_of(s, n).len() && 0 <= h < groups_of(s, n).len() && g != h ==> (
            #[trigger] groups_of(s, n)[g]).0 != (#[trigger] groups_of(s, n)[h]).0,
    decreases n,
{
    if n > 0 {
        let m = (n - 1) as nat;
        lemma_groups(s, m);
        let rest = groups_of(s, m);
        let all = groups_of(s, n);
        let print = s[m as int].0;
        assert forall|p: Seq<char>| has_print(s.take(m as int), p) implies has_print(
            s.take(n as int),
            p,
        ) by {
            let i = choose|i: int|
                0 <= i < s.take(m as int).len() && (#[trigger] s.take(m as int)[i]).0 == p;
            assert(s.take(n as int)[i].0 == p);
        }
        assert(s.take(n as int)[m as int].0 == print);
        assert(has_print(s.take(n as int), print));
        assert forall|g: int| 0 <= g < all.len() implies (#[trigger] all[g]).1.len() >= 2
            && all[g].1 == members_of(s, all[g].0) && has_print(s.take(n as int), all[g].0) by {
            if g < rest.len() {
                assert(all[g] == rest[g]);
            }
        }
        assert forall|g: int, h: int|
            0 <= g < all.len() && 0 <= h < all.len() && g != h implies (#[trigger] all[g]).0 != (
        #[trigger] all[h]).0 by {
            if g < rest.len() && h < rest.len() {
                assert(rest[g].0 != rest[h].0);
            } else if g < rest.len() {
                assert(has_print(s.take(m as int), rest[g].0));
            } else {
                assert(has_print(s.take(m as int), rest[h].0));
            }
        }
    }
}

/// The group has this member.
pub open spec fn has_member(members: Seq<DedupMemberView>, namespaced_id: Seq<char>) -> bool {
    exists|i: int| 0 <= i < members.len() && (#[trigger] members[i]).namespaced_id == namespaced_id
}

/// The canonical identifier of the first group with this member.
pub open spec fn canonical_of(
    groups: Seq<((Seq<char>, Seq<DedupMemberView>), Seq<char>, Seq<char>)>,
    namespaced_id: Seq<char>,
) -> Option<Seq<char>>
    decreases groups.len(),
{
    if groups.len() == 0 {
        None
    } else if has_member(groups[0].0.1, namespaced_id) {
        Some(groups[0].1)
    } else {
        canonical_of(groups.skip(1), namespaced_id)
    }
}

fn is_member(members: &Vec<DedupMember>, namespaced_id: &str) -> (r: bool)
    ensures
        r == has_member(views(members@), namespaced_id@),
{
    let ghost s = views(members@);
    let mut i: usize = 0;
    while i < members.len()
        invariant
            i <= members@.len(),
            s == views(members@),
            forall|j: int| 0 <= j < i ==> (#[trigger] s[j]).namespaced_id != namespaced_id@,
        decreases members@.len() - i,
    {
        assert(s[i as int] == members@[i as int]@);
        if str_eq(members[i].namespaced_id.as_str(), namespaced_id) {
            return true;
        }
        i += 1;
    }
    false
}

/// The canonical identifier of the group of duplicates that an item belongs to,
/// if it belongs to one.
pub fn find_dedup_canonical(groups: &Vec<StoredGroup>, namespaced_id: &str) -> (r: Option<String>)
    ensures
        opt_text(r) == canonical_of(views(groups@), namespaced_id@),
{
    let ghost s = views(groups@);
    let mut i: usize = 0;
    assert(s.skip(0) =~= s);
    while i < groups.len()
        invariant
            i <= groups@.len(),
            s == views(groups@),
            canonical_of(s, namespaced_id@) == canonical_of(s.skip(i as int), namespaced_id@),
        decreases groups@.len() - i,
    {
        proof {
            assert(s.skip(i as int)[0] == groups@[i as int]@);
            assert(s.skip(i as int).skip(1) =~= s.skip(i + 1));
        }
        if is_member(&groups[i].group.members, namespaced_id) {
            return Some(groups[i].canonical_id.clone());
        }
        i += 1;
    }
    None
}

// ── Laws of grouping ────────────────────────────────────────────

proof fn lemma_members_filter(s: Seq<(Seq<char>, DedupMemberView)>, print: Seq<char>)
    ensures
        members_of(s, print) == s.filter(
            |p: (Seq<char>, DedupMemberView)| p.0 == print,
        ).map_values(|p: (Seq<char>, DedupMemberView)| p.1),
    decreases s.len(),
{
    reveal(Seq::filter);
    let same = |p: (Seq<char>, DedupMemberView)| p.0 == print;
    let f = |p: (Seq<char>, DedupMemberView)| p.1;
    if s.len() > 0 {
        lemma_members_filter(s.drop_last(), print);
        if s.last().0 == print {
            assert(s.filter(same).map_values(f) =~= s.drop_last().filter(same).map_values(f).push(
                s.last().1,
            ));
        }
    } else {
        assert(s.filter(same).map_values(f) =~= seq![]);
    }
}

proof fn lemma_members_hold(s: Seq<(Seq<char>, DedupMemberView)>, print: Seq<char>, i: int)
    requires
        0 <= i < s.len(),
        s[i].0 == print,
    ensures
        members_of(s, print).contains(s[i].1),
    decreases s.len(),
{
    let d = s.drop_last();
    let all = members_of(s, print);
    if i == s.len() - 1 {
        assert(all[all.len() - 1] == s[i].1);
    } else {
        lemma_members_hold(d, print, i);
        assert(d[i] == s[i]);
        let k = choose|k: int| 0 <= k < members_of(d, print).len() && members_of(d, print)[k]
            == s[i].1;
        assert(all[k] == s[i].1);
    }
}

proof fn lemma_members_count(s: Seq<(Seq<char>, DedupMemberView)>, print: Seq<char>, i: int, j: int)
    requires
        0 <= i < j < s.len(),
        s[i].0 == print,
        s[j].0 == print,
    ensures
        members_of(s, print).len() >= 2,
    decreases s.len(),
{
    let d = s.drop_last();
    if j == s.len() - 1 {
        lemma_members_hold(d, print, i);
        assert(d[i] == s[i]);
    } else {
        assert(d[i] == s[i] && d[j] == s[j]);
        lemma_members_count(d, print, i, j);
    }
}

proof fn lemma_group_of(s: Seq<(Seq<char>, DedupMemberView)>, n: nat, i: int) -> (g: int)
    requires
        0 <= i < n <= s.len(),
        members_of(s, s[i].0).len() >= 2,
    ensures
        0 <= g < groups_of(s, n).len(),
        groups_of(s, n)[g].0 == s[i].0,
    decreases n,
{
    let m = (n - 1) as nat;
    let rest = groups_of(s, m);
    let print = s[m as int].0;
    if i < m {
        let g = lemma_group_of(s, m, i);
        assert(groups_of(s, n)[g] == rest[g]);
        g
    } else if has_print(s.take(m as int), print) {
        let k = choose|k: int|
            0 <= k < s.take(m as int).len() && (#[trigger] s.take(m as int)[k]).0 == print;
        assert(s[k].0 == print);
        let g = lemma_group_of(s, m, k);
        g
    } else {
        rest.len() as int
    }
}

/// Two items that share a fingerprint are duplicates: there is a group of that
/// fingerprint, and both are in it.
pub proof fn shared_fingerprints_have_a_group(
    s: Seq<(Seq<char>, DedupMemberView)>,
    i: int,
    j: int,
) -> (g: int)
    requires
        0 <= i < s.len(),
        0 <= j < s.len(),
        i != j,
        s[i].0 == s[j].0,
    ensures
        0 <= g < duplicates(s).len(),
        duplicates(s)[g].0 == s[i].0,
        duplicates(s)[g].1.contains(s[i].1),
        duplicates(s)[g].1.contains(s[j].1),
{
    if i < j {
        lemma_members_count(s, s[i].0, i, j);
    } else {
        lemma_members_count(s, s[i].0, j, i);
    }
    let g = lemma_group_of(s, s.len(), i);
    lemma_groups(s, s.len());
    assert(duplicates(s)[g].1 == members_of(s, s[i].0));
    lemma_members_hold(s, s[i].0, i);
    lemma_members_hold(s, s[i].0, j);
    g
}

/// The members of a group are all items with its fingerprint, in their order,
/// and nothing else; there are two of them or more.
pub proof fn groups_hold_all_copies(s: Seq<(Seq<char>, DedupMemberView)>, g: int)
    requires
        0 <= g < duplicates(s).len(),
    ensures
        ({
            let print = duplicates(s)[g].0;
            duplicates(s)[g].1 == s.filter(
                |p: (Seq<char>, DedupMemberView)| p.0 == print,
            ).map_values(|p: (Seq<char>, DedupMemberView)| p.1)
        }),
        duplicates(s)[g].1.len() >= 2,
{
    lemma_groups(s, s.len());
    assert(duplicates(s)[g].1.len() >= 2);
    lemma_members_filter(s, duplicates(s)[g].0);
}

/// An item that no other shares a fingerprint with is in no group.
pub proof fn single_items_have_no_group(s: Seq<(Seq<char>, DedupMemberView)>, i: int, g: int)
    requires
        0 <= i < s.len(),
        forall|j: int| 0 <= j < s.len() && j != i ==> (#[trigger] s[j]).0 != s[i].0,
        0 <= g < duplicates(s).len(),
    ensures
        duplicates(s)[g].0 != s[i].0,
{
    lemma_groups(s, s.len());
    assert(duplicates(s)[g].1.len() >= 2);
    if duplicates(s)[g].0 == s[i].0 {
        lemma_single(s, s[i].0, i);
    }
}

proof fn lemma_single(s: Seq<(Seq<char>, DedupMemberView)>, print: Seq<char>, i: int)
    requires
        forall|j: int| 0 <= j < s.len() && j != i ==> (#[trigger] s[j]).0 != print,
    ensures
        members_of(s, print).len() <= 1,
        i >= s.len() ==> members_of(s, print).len() == 0,
    decreases s.len(),
{
    if s.len() > 0 {
        let d = s.drop_last();
        assert forall|j: int| 0 <= j < d.len() && j != i implies (#[trigger] d[j]).0 != print by {
            assert(d[j] == s[j]);
        }
        lemma_single(d, print, i);
        assert(s.last() == s[s.len() - 1]);
    }
}

/// Two cached tracks that agree in artist, album, title and number, but for
/// case, remarks in brackets and spaces, are in one group, whatever backends
/// they are on: as a deduplication pass finds them.
pub proof fn same_tracks_are_grouped(rows: Seq<TrackRow>, i: int, j: int) -> (g: int)
    requires
        0 <= i < rows.len(),
        0 <= j < rows.len(),
        i != j,
        normalized(rows[i].artist@) == normalized(rows[j].artist@),
        normalized(rows[i].album@) == normalized(rows[j].album@),
        normalized(
            match rows[i].title {
                Some(t) => t@,
                None => ""@,
            },
        ) == normalized(
            match rows[j].title {
                Some(t) => t@,
                None => ""@,
            },
        ),
        rows[i].track_number == rows[j].track_number,
    ensures
        ({
            let groups = duplicates(rows.map_values(|t: TrackRow| printed_track(t)));
            &&& 0 <= g < groups.len()
            &&& groups[g].1.contains(
                DedupMemberView {
                    namespaced_id: rows[i].namespaced_id@,
                    backend_idx: rows[i].backend_idx,
                    bitrate: rows[i].bitrate,
                    format: match rows[i].suffix {
                        Some(f) => Some(f@),
                        None => None,
                    },
                },
            )
            &&& groups[g].1.contains(
                DedupMemberView {
                    namespaced_id: rows[j].namespaced_id@,
                    backend_idx: rows[j].backend_idx,
                    bitrate: rows[j].bitrate,
                    format: match rows[j].suffix {
                        Some(f) => Some(f@),
                        None => None,
                    },
                },
            )
        }),
{
    let s = rows.map_values(|t: TrackRow| printed_track(t));
    assert(s[i] == printed_track(rows[i]));
    assert(s[j] == printed_track(rows[j]));
    shared_fingerprints_have_a_group(s, i, j)
}

/// Two cached albums that agree in artist and name, but for case, remarks in
/// brackets and spaces, are in one group.
pub proof fn same_albums_are_grouped(rows: Seq<AlbumRow>, i: int, j: int) -> (g: int)
    requires
        0 <= i < rows.len(),
        0 <= j < rows.len(),
        i != j,
        normalized(rows[i].artist@) == normalized(rows[j].artist@),
        normalized(rows[i].name@) == normalized(rows[j].name@),
    ensures
        ({
            let groups = duplicates(rows.map_values(|a: AlbumRow| printed_album(a)));
            &&& 0 <= g < groups.len()
            &&& groups[g].1.contains(
                DedupMemberView {
                    namespaced_id: rows[i].namespaced_id@,
                    backend_idx: rows[i].backend_idx,
                    bitrate: None,
                    format: None,
                },
            )
            &&& groups[g].1.contains(
                DedupMemberView {
                    namespaced_id: rows[j].namespaced_id@,
                    backend_idx: rows[j].backend_idx,
                    bitrate: None,
                    format: None,
                },
            )
        }),
{
    let s = rows.map_values(|a: AlbumRow| printed_album(a));
    assert(s[i] == printed_album(rows[i]));
    assert(s[j] == printed_album(rows[j]));
    shared_fingerprints_have_a_group(s, i, j)
}

proof fn lemma_same_tail<A>(a: Seq<A>, x: Seq<A>, y: Seq<A>)
    requires
        a + x == a + y,
    ensures
        x == y,
{
    assert((a + x).skip(a.len() as int) =~= x);
    assert((a + y).skip(a.len() as int) =~= y);
}

proof fn lemma_same_head<A>(x: Seq<A>, y: Seq<A>, b: Seq<A>)
    requires
        x + b == y + b,
    ensures
        x == y,
{
    assert((x + b).len() == x.len() + b.len());
    assert((y + b).len() == y.len() + b.len());
    assert((x + b).take(x.len() as int) =~= x);
    assert((y + b).take(y.len() as int) =~= y);
}

proof fn lemma_middle(h: Seq<char>, x: Seq<char>, y: Seq<char>, tail: Seq<char>)
    requires
        h + (x + tail) == h + (y + tail),
    ensures
        x == y,
{
    lemma_same_tail(h, x + tail, y + tail);
    lemma_same_head(x, y, tail);
}

/// The number of a track as fingerprints show it.
pub open spec fn number_text(n: Option<i64>) -> Seq<char> {
    match n {
        Some(x) => signed_decimal(x as int),
        None => seq![],
    }
}

proof fn lemma_track_print(
    a: Seq<char>,
    b: Seq<char>,
    t: Seq<char>,
    n: Option<i64>,
    x: Seq<char>,
    y: Seq<char>,
    z: Seq<char>,
    num: Seq<char>,
)
    requires
        x == normalized(a),
        y == normalized(b),
        z == normalized(t),
        num == number_text(n),
    ensures
        track_print(a, b, t, n) == "t::"@ + (x + ("::"@ + y + "::"@ + z + "::"@ + num)),
        track_print(a, b, t, n) == ("t::"@ + x + "::"@) + (y + ("::"@ + z + "::"@ + num)),
        track_print(a, b, t, n) == ("t::"@ + x + "::"@ + y + "::"@) + (z + ("::"@ + num)),
        track_print(a, b, t, n) == ("t::"@ + x + "::"@ + y + "::"@ + z + "::"@) + num,
{
    let c = "::"@;
    let h = "t::"@;
    let p = track_print(a, b, t, n);
    assert(p == h + x + c + y + c + z + c + num);
    assert(p =~= h + (x + (c + y + c + z + c + num)));
    assert(p =~= (h + x + c) + (y + (c + z + c + num)));
    assert(p =~= (h + x + c + y + c) + (z + (c + num)));
}

/// A fingerprint tells tracks apart: where all but one of artist, album, title
/// and number agree, tracks have the same fingerprint only if that one agrees
/// too.
pub proof fn fingerprints_tell_tracks_apart(
    a: Seq<char>,
    b: Seq<char>,
    t: Seq<char>,
    n: Option<i64>,
    a2: Seq<char>,
    b2: Seq<char>,
    t2: Seq<char>,
    n2: Option<i64>,
)
    ensures
        track_print(a, b, t, n) == track_print(a2, b, t, n) ==> normalized(a) == normalized(a2),
        track_print(a, b, t, n) == track_print(a, b2, t, n) ==> normalized(b) == normalized(b2),
        track_print(a, b, t, n) == track_print(a, b, t2, n) ==> normalized(t) == normalized(t2),
        track_print(a, b, t, n) == track_print(a, b, t, n2) ==> n == n2,
{
    let c = "::"@;
    let h = "t::"@;
    let (x, y, z) = (normalized(a), normalized(b), normalized(t));
    let (x2, y2, z2) = (normalized(a2), normalized(b2), normalized(t2));
    let num = number_text(n);
    let num2 = number_text(n2);
    lemma_track_print(a, b, t, n, x, y, z, num);
    lemma_track_print(a2, b, t, n, x2, y, z, num);
    lemma_track_print(a, b2, t, n, x, y2, z, num);
    lemma_track_print(a, b, t2, n, x, y, z2, num);
    lemma_track_print(a, b, t, n2, x, y, z, num2);
    if track_print(a, b, t, n) == track_print(a2, b, t, n) {
        lemma_middle(h, x, x2, c + y + c + z + c + num);
    }
    if track_print(a, b, t, n) == track_print(a, b2, t, n) {
        lemma_middle(h + x + c, y, y2, c + z + c + num);
    }
    if track_print(a, b, t, n) == track_print(a, b, t2, n) {
        lemma_middle(h + x + c + y + c, z, z2, c + num);
    }
    if track_print(a, b, t, n) == track_print(a, b, t, n2) {
        lemma_same_tail(h + x + c + y + c + z + c, num, num2);
        lemma_numbers_differ(n, n2);
    }
}

/// A fingerprint tells albums apart, and no track has the fingerprint of an
/// album.
pub proof fn fingerprints_tell_albums_apart(
    a: Seq<char>,
    b: Seq<char>,
    a2: Seq<char>,
    b2: Seq<char>,
    t: Seq<char>,
    n: Option<i64>,
)
    ensures
        album_print(a, b) == album_print(a2, b) ==> normalized(a) == normalized(a2),
        album_print(a, b) == album_print(a, b2) ==> normalized(b) == normalized(b2),
        track_print(a2, b2, t, n) != album_print(a, b),
{
    let c = "::"@;
    let h = "a::"@;
    let (x, y) = (normalized(a), normalized(b));
    let (x2, y2) = (normalized(a2), normalized(b2));
    assert(album_print(a, b) =~= h + (x + (c + y)));
    assert(album_print(a2, b) =~= h + (x2 + (c + y)));
    if album_print(a, b) == album_print(a2, b) {
        lemma_middle(h, x, x2, c + y);
    }
    if album_print(a, b) == album_print(a, b2) {
        lemma_same_tail(h + x + c, y, y2);
    }
    lemma_track_print(a2, b2, t, n, x2, y2, normalized(t), number_text(n));
    reveal_strlit("t::");
    reveal_strlit("a::");
    assert(track_print(a2, b2, t, n)[0] == 't');
    assert(album_print(a, b)[0] == 'a');
}

proof fn lemma_numbers_differ(n: Option<i64>, m: Option<i64>)
    requires
        match n {
            Some(x) => signed_decimal(x as int),
            None => seq![],
        } == match m {
            Some(x) => signed_decimal(x as int),
            None => seq![],
        },
    ensures
        n == m,
{
    if n is Some {
        lemma_signed_starts(n->0 as int);
    }
    if m is Some {
        lemma_signed_starts(m->0 as int);
    }
    if n is Some && m is Some {
        let x = n->0 as int;
        let y = m->0 as int;
        let xm = if x < 0 { (-x) as nat } else { x as nat };
        let ym = if y < 0 { (-y) as nat } else { y as nat };
        decimal_starts_with_digit(xm);
        decimal_starts_with_digit(ym);
        decimal_read_back(xm);
        decimal_read_back(ym);
        if x < 0 && y < 0 {
            assert(signed_decimal(x).skip(1) =~= decimal(xm));
            assert(signed_decimal(y).skip(1) =~= decimal(ym));
        }
    }
}

proof fn lemma_signed_starts(x: int)
    ensures
        signed_decimal(x).len() > 0,
{
    decimal_starts_with_digit(if x < 0 { (-x) as nat } else { x as nat });
}

/// A group is stored under the identifier that its fingerprint gives.
pub proof fn groups_are_stored_by_fingerprint(
    groups: Seq<(Seq<char>, Seq<DedupMemberView>)>,
    entity_type: Seq<char>,
    i: int,
)
    requires
        0 <= i < groups.len(),
    ensures
        to_store(groups, entity_type).len() == groups.len(),
        to_store(groups, entity_type)[i] == (groups[i], dedup_id(groups[i].0), entity_type),
{
}

/// An item stands for itself under the identifier of the first group that it is
/// in; an item in no group has no such identifier.
pub proof fn items_are_known_by_their_group(
    groups: Seq<((Seq<char>, Seq<DedupMemberView>), Seq<char>, Seq<char>)>,
    namespaced_id: Seq<char>,
    k: int,
)
    ensures
        0 <= k < groups.len() && (exists|i: int|
            0 <= i < groups[k].0.1.len() && (#[trigger] groups[k].0.1[i]).namespaced_id
                == namespaced_id) && (forall|j: int, i: int|
            0 <= j < k && 0 <= i < groups[j].0.1.len() ==> (
            #[trigger] groups[j].0.1[i]).namespaced_id != namespaced_id) ==> canonical_of(
            groups,
            namespaced_id,
        ) == Some(groups[k].1),
        (forall|j: int, i: int|
            0 <= j < groups.len() && 0 <= i < groups[j].0.1.len() ==> (
            #[trigger] groups[j].0.1[i]).namespaced_id != namespaced_id) ==> canonical_of(
            groups,
            namespaced_id,
        ) is None,
    decreases groups.len(),
{
    if groups.len() > 0 {
        let t = groups.skip(1);
        items_are_known_by_their_group(t, namespaced_id, k - 1);
        assert forall|j: int, i: int| 0 <= j < t.len() && 0 <= i < t[j].0.1.len() implies (
        #[trigger] t[j].0.1[i]) == groups[j + 1].0.1[i] by {}
        if has_member(groups[0].0.1, namespaced_id) {
            let i = choose|i: int|
                0 <= i < groups[0].0.1.len() && (#[trigger] groups[0].0.1[i]).namespaced_id
                    == namespaced_id;
            assert(groups[0].0.1[i].namespaced_id == namespaced_id);
        } else if 0 < k < groups.len() {
            assert(t[k - 1] == groups[k]);
        }
    }
}

} // verus!
