//! Patterns with wildcards, as stored texts are matched against them.

use crate::strs::{ascii_lower, chars_of, concat2, concat3};
use vstd::prelude::*;

verus! {

/// Two characters are the same, ASCII case aside.
pub open spec fn same_letter(a: char, b: char) -> bool {
    ascii_lower(seq![a])[0] == ascii_lower(seq![b])[0]
}

/// `text` matches `pattern`: a percent sign stands for any characters, an
/// underscore for one, and every other character for itself, ASCII case aside.
pub open spec fn like(pattern: Seq<char>, text: Seq<char>) -> bool
    decreases pattern.len() + text.len(),
{
    if pattern.len() == 0 {
        text.len() == 0
    } else if pattern[0] == '%' {
        like(pattern.skip(1), text) || (text.len() > 0 && like(pattern, text.skip(1)))
    } else {
        &&& text.len() > 0
        &&& pattern[0] == '_' || same_letter(pattern[0], text[0])
        &&& like(pattern.skip(1), text.skip(1))
    }
}

fn lower(c: char) -> (r: char)
    ensures
        r == ascii_lower(seq![c])[0],
{
    if 'A' <= c && c <= 'Z' {
        (c as u8 + 32) as char
    } else {
        c
    }
}

/// Whether `text` matches `pattern`.
pub fn is_like(pattern: &str, text: &str) -> (r: bool)
    ensures
        r == like(pattern@, text@),
{
    let p = chars_of(pattern);
    let t = chars_of(text);
    let n = t.len();
    // `row[k]` says whether the text from `k` on matches the pattern from `i` on.
    let mut row: Vec<bool> = Vec::new();
    for k in 0..n
        invariant
            row@.len() == k,
            n == t@.len(),
            forall|j: int| 0 <= j < k ==> #[trigger] row@[j] == like(seq![], t@.skip(j)),
    {
        row.push(false);
    }
    row.push(true);
    let mut i: usize = p.len();
    assert(p@.skip(i as int) =~= seq![]);
    while i > 0
        invariant
            i <= p@.len(),
            n == t@.len(),
            row@.len() == n + 1,
            forall|j: int|
                0 <= j <= n ==> #[trigger] row@[j] == like(p@.skip(i as int), t@.skip(j)),
        decreases i,
    {
        i -= 1;
        let c = p[i];
        let ghost pat = p@.skip(i as int);
        let ghost rest = p@.skip(i + 1);
        assert(pat[0] == c && pat.skip(1) =~= rest);
        let mut next: Vec<bool> = Vec::new();
        for k in 0..row.len()
            invariant
                next@.len() == k,
        {
            next.push(false);
        }
        let mut k: usize = row.len();
        while k > 0
            invariant
                k <= n + 1,
                n == t@.len(),
                row@.len() == n + 1,
                next@.len() == n + 1,
                pat.len() > 0,
                pat[0] == c,
                pat.skip(1) == rest,
                forall|j: int| 0 <= j <= n ==> #[trigger] row@[j] == like(rest, t@.skip(j)),
                forall|j: int| k <= j <= n ==> #[trigger] next@[j] == like(pat, t@.skip(j)),
            decreases k,
        {
            k -= 1;
            let ghost s = t@.skip(k as int);
            proof {
                if k < n {
                    assert(s[0] == t@[k as int]);
                    assert(s.skip(1) =~= t@.skip(k + 1));
                }
            }
            let hit = if c == '%' {
                row[k] || (k < n && next[k + 1])
            } else {
                k < n && (c == '_' || lower(c) == lower(t[k])) && row[k + 1]
            };
            assert(hit == like(pat, s));
            next.set(k, hit);
        }
        row = next;
    }
    assert(p@.skip(0) =~= p@);
    assert(t@.skip(0) =~= t@);
    row[0]
}

/// The pattern of what begins with `text`.
pub fn starting_with(text: &str) -> (r: String)
    ensures
        r@ == text@ + "%"@,
{
    concat2(text, "%")
}

/// The pattern of what holds `text`.
pub fn holding(text: &str) -> (r: String)
    ensures
        r@ == "%"@ + text@ + "%"@,
{
    concat3("%", text, "%")
}

proof fn lemma_anything(text: Seq<char>)
    ensures
        like(seq!['%'], text),
    decreases text.len(),
{
    reveal_with_fuel(like, 2);
    assert(seq!['%'].skip(1) =~= seq![]);
    if text.len() > 0 {
        lemma_anything(text.skip(1));
    }
}

proof fn lemma_begins(start: Seq<char>, rest: Seq<char>)
    ensures
        like(start + seq!['%'], start + rest),
    decreases start.len(),
{
    let p = start + seq!['%'];
    let t = start + rest;
    if start.len() == 0 {
        assert(p =~= seq!['%']);
        assert(t =~= rest);
        lemma_anything(rest);
    } else {
        let s = start.skip(1);
        lemma_begins(s, rest);
        assert(p.skip(1) =~= s + seq!['%']);
        assert(t.skip(1) =~= s + rest);
        assert(p[0] == start[0] && t[0] == start[0]);
        if start[0] == '%' {
            // The sign stands for itself here.
            assert(like(p.skip(1), t.skip(1)));
            assert(like(p, t.skip(1))) by {
                reveal_with_fuel(like, 2);
            }
        }
    }
}

/// A text that begins with another matches the pattern of what begins with it,
/// wildcards or not.
pub proof fn beginnings_match(start: Seq<char>, text: Seq<char>)
    requires
        crate::strs::has_prefix(text, start),
    ensures
        like(start + "%"@, text),
{
    reveal_strlit("%");
    let rest = text.skip(start.len() as int);
    assert("%"@ =~= seq!['%']);
    assert(text =~= start + rest);
    lemma_begins(start, rest);
}

/// A text that holds another matches the pattern of what holds it, wildcards or
/// not.
pub proof fn held_texts_match(before: Seq<char>, held: Seq<char>, after: Seq<char>)
    ensures
        like("%"@ + held + "%"@, before + held + after),
    decreases before.len(),
{
    reveal_strlit("%");
    assert("%"@ =~= seq!['%']);
    let p = "%"@ + held + "%"@;
    let t = before + held + after;
    assert(p[0] == '%');
    assert(p.skip(1) =~= held + seq!['%']);
    if before.len() == 0 {
        assert(t =~= held + after);
        lemma_begins(held, after);
    } else {
        held_texts_match(before.skip(1), held, after);
        assert(t.skip(1) =~= before.skip(1) + held + after);
    }
}

proof fn lemma_begins_only(start: Seq<char>, text: Seq<char>)
    requires
        forall|i: int| 0 <= i < start.len() ==> (#[trigger] start[i]) != '%' && start[i] != '_',
        like(start + seq!['%'], text),
    ensures
        text.len() >= start.len(),
        ascii_lower(text.take(start.len() as int)) == ascii_lower(start),
    decreases start.len(),
{
    let p = start + seq!['%'];
    if start.len() > 0 {
        assert(p[0] == start[0]);
        let s = start.skip(1);
        assert forall|i: int| 0 <= i < s.len() implies (#[trigger] s[i]) != '%' && s[i] != '_' by {
            assert(s[i] == start[i + 1]);
        }
        assert(p.skip(1) =~= s + seq!['%']);
        lemma_begins_only(s, text.skip(1));
        let a = ascii_lower(text.take(start.len() as int));
        let b = ascii_lower(start);
        assert forall|i: int| 0 <= i < b.len() implies a[i] == b[i] by {
            if i == 0 {
                assert(ascii_lower(seq![text[0]])[0] == ascii_lower(seq![start[0]])[0]);
            } else {
                assert(ascii_lower(text.skip(1).take(s.len() as int))[i - 1] == ascii_lower(
                    s,
                )[i - 1]);
                assert(text.skip(1).take(s.len() as int)[i - 1] == text[i]);
            }
        }
        assert(a =~= b);
    } else {
        assert(text.take(0) =~= start);
    }
}

/// A text matches the pattern of what begins with another only if it begins
/// with it, ASCII case aside, where that one has no wildcards.
pub proof fn only_beginnings_match(start: Seq<char>, text: Seq<char>)
    requires
        forall|i: int| 0 <= i < start.len() ==> (#[trigger] start[i]) != '%' && start[i] != '_',
        like(start + "%"@, text),
    ensures
        text.len() >= start.len(),
        ascii_lower(text.take(start.len() as int)) == ascii_lower(start),
{
    reveal_strlit("%");
    assert("%"@ =~= seq!['%']);
    lemma_begins_only(start, text);
}

/// A text matches the pattern of what holds another only if it holds it
/// somewhere, ASCII case aside, where that one has no wildcards.
pub proof fn only_held_texts_match(held: Seq<char>, text: Seq<char>) -> (at: int)
    requires
        forall|i: int| 0 <= i < held.len() ==> (#[trigger] held[i]) != '%' && held[i] != '_',
        like("%"@ + held + "%"@, text),
    ensures
        0 <= at <= text.len() - held.len(),
        ascii_lower(text.subrange(at, at + held.len())) == ascii_lower(held),
    decreases text.len(),
{
    reveal_strlit("%");
    assert("%"@ =~= seq!['%']);
    let p = "%"@ + held + "%"@;
    assert(p[0] == '%');
    assert(p.skip(1) =~= held + seq!['%']);
    if like(p.skip(1), text) {
        lemma_begins_only(held, text);
        assert(text.subrange(0, held.len() as int) =~= text.take(held.len() as int));
        0
    } else {
        let k = only_held_texts_match(held, text.skip(1));
        assert(text.skip(1).subrange(k, k + held.len()) =~= text.subrange(
            k + 1,
            k + 1 + held.len(),
        ));
        k + 1
    }
}

/// A pattern without wildcards matches only texts of its own letters, ASCII
/// case aside.
pub proof fn plain_patterns_match_themselves(pattern: Seq<char>, text: Seq<char>)
    requires
        forall|i: int|
            0 <= i < pattern.len() ==> (#[trigger] pattern[i]) != '%' && pattern[i] != '_',
    ensures
        like(pattern, text) <==> ascii_lower(pattern) == ascii_lower(text),
    decreases pattern.len(),
{
    if pattern.len() > 0 {
        let s = pattern.skip(1);
        assert forall|i: int| 0 <= i < s.len() implies (#[trigger] s[i]) != '%' && s[i] != '_' by {
            assert(s[i] == pattern[i + 1]);
        }
        let a = ascii_lower(pattern);
        assert(a.len() == pattern.len());
        assert(pattern[0] != '%');
        if text.len() > 0 {
            plain_patterns_match_themselves(s, text.skip(1));
            let b = ascii_lower(text);
            assert(ascii_lower(s) =~= a.skip(1));
            assert(ascii_lower(text.skip(1)) =~= b.skip(1));
            assert(a[0] == ascii_lower(seq![pattern[0]])[0]);
            assert(b[0] == ascii_lower(seq![text[0]])[0]);
            if like(pattern, text) {
                assert(a =~= seq![a[0]] + a.skip(1));
                assert(b =~= seq![b[0]] + b.skip(1));
            }
        } else {
            assert(ascii_lower(text).len() == 0);
        }
    } else {
        assert(ascii_lower(text).len() == text.len());
        if text.len() == 0 {
            assert(pattern =~= text);
        }
    }
}

} // verus!
