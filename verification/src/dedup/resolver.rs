//! Which copy of a duplicate is the best.

use crate::error::{FugueError, FugueErrorView};
use crate::id::{decode_dedup_id, dedup_hash};
use crate::seqs::lemma_flat_end;
use crate::sorting::{
    ranking, ranking_is_total_preorder, sort, sorting_keys_sorts_items, stable_sort, Ranked,
};
use crate::strs::{opt_text, str_eq, views};
use vstd::prelude::*;

verus! {

/// A resolved source for a deduplicated item.
#[derive(Debug)]
pub struct ResolvedSource {
    pub namespaced_id: String,
    pub backend_idx: usize,
    /// The score in tenths.
    pub score: i128,
}

/// A source, as characters and numbers.
pub struct ResolvedSourceView {
    pub namespaced_id: Seq<char>,
    pub backend_idx: usize,
    pub score: i128,
}

impl View for ResolvedSource {
    type V = ResolvedSourceView;

    open spec fn view(&self) -> ResolvedSourceView {
        ResolvedSourceView {
            namespaced_id: self.namespaced_id@,
            backend_idx: self.backend_idx,
            score: self.score,
        }
    }
}

/// A stored member of a group of duplicates.
#[derive(Debug)]
pub struct SourceRow {
    pub namespaced_id: String,
    pub backend_idx: usize,
    pub bitrate: Option<i64>,
    pub format: Option<String>,
    /// The stored score in tenths; zero or less if there is none.
    pub score: i128,
}

/// How much a format counts, in tenths.
pub open spec fn format_weight(format: Option<Seq<char>>) -> int {
    match format {
        Some(f) => if f == "flac"@ {
            20
        } else if f == "opus"@ {
            15
        } else if f == "ogg"@ {
            13
        } else if f == "mp3"@ {
            10
        } else if f == "aac"@ || f == "m4a"@ {
            11
        } else if f == "wav"@ {
            18
        } else {
            10
        },
        None => 10,
    }
}

/// The quality of a source in tenths: its bitrate (128 if unknown) times the
/// weight of its format.
pub open spec fn quality(bitrate: Option<i64>, format: Option<Seq<char>>) -> int {
    (match bitrate {
        Some(b) => b as int,
        None => 128,
    }) * format_weight(format)
}

fn weight_of(format: Option<&String>) -> (r: i128)
    ensures
        r == format_weight(
            match format {
                Some(f) => Some(f@),
                None => None,
            },
        ),
        10 <= r <= 20,
{
    match format {
        Some(f) => {
            let f = f.as_str();
            if str_eq(f, "flac") {
                20
            } else if str_eq(f, "opus") {
                15
            } else if str_eq(f, "ogg") {
                13
            } else if str_eq(f, "mp3") {
                10
            } else if str_eq(f, "aac") || str_eq(f, "m4a") {
                11
            } else if str_eq(f, "wav") {
                18
            } else {
                10
            }
        },
        None => 10,
    }
}

/// A quality score for source selection, in tenths. Higher is better.
pub fn compute_score(bitrate: Option<i64>, format: Option<&String>) -> (r: i128)
    ensures
        r == quality(
            bitrate,
            match format {
                Some(f) => Some(f@),
                None => None,
            },
        ),
        -184467440737095516160 <= r <= 184467440737095516160,
{
    let b: i128 = match bitrate {
        Some(x) => x as i128,
        None => 128,
    };
    let w = weight_of(format);
    proof {
        assert(-9223372036854775808 * 20 <= b * w <= 9223372036854775808 * 20) by (nonlinear_arith)
            requires
                -9223372036854775808 <= b <= 9223372036854775808,
                10 <= w <= 20,
        ;
    }
    b * w
}

/// The score that is stored for a member: its quality and the weight of its
/// backend, in tenths.
pub fn weighted_score(bitrate: Option<i64>, format: Option<&String>, backend_weight: i32) -> (r:
    i128)
    ensures
        r == quality(
            bitrate,
            match format {
                Some(f) => Some(f@),
                None => None,
            },
        ) + backend_weight * 10,
{
    compute_score(bitrate, format) + backend_weight as i128 * 10
}

/// A source with what it is ranked by.
pub struct Candidate {
    pub source: ResolvedSource,
    pub bitrate: Option<i64>,
}

impl View for Candidate {
    type V = (ResolvedSourceView, Option<i64>);

    open spec fn view(&self) -> (ResolvedSourceView, Option<i64>) {
        (self.source@, self.bitrate)
    }
}

/// A higher bitrate before a lower one, a known one before an unknown one.
pub open spec fn bitrate_leq(a: Option<i64>, b: Option<i64>) -> bool {
    match (a, b) {
        (Some(x), Some(y)) => x >= y,
        (None, Some(_)) => false,
        (_, None) => true,
    }
}

impl Ranked for Candidate {
    open spec fn leq(
        a: (ResolvedSourceView, Option<i64>),
        b: (ResolvedSourceView, Option<i64>),
    ) -> bool {
        a.0.score > b.0.score || (a.0.score == b.0.score && bitrate_leq(a.1, b.1))
    }

    proof fn leq_total(
        a: (ResolvedSourceView, Option<i64>),
        b: (ResolvedSourceView, Option<i64>),
    ) {
    }

    proof fn leq_transitive(
        a: (ResolvedSourceView, Option<i64>),
        b: (ResolvedSourceView, Option<i64>),
        c: (ResolvedSourceView, Option<i64>),
    ) {
    }

    fn may_precede(&self, other: &Self) -> (r: bool) {
        if self.source.score != other.source.score {
            self.source.score > other.source.score
        } else {
            match (self.bitrate, other.bitrate) {
                (Some(x), Some(y)) => x >= y,
                (None, Some(_)) => false,
                (_, None) => true,
            }
        }
    }
}

/// The score that counts: the stored one, or the quality if none is stored.
pub open spec fn effective_score(row: SourceRow) -> int {
    if row.score > 0 {
        row.score as int
    } else {
        quality(row.bitrate, opt_text(row.format))
    }
}

/// A stored member as a candidate.
pub open spec fn candidate(row: SourceRow) -> (ResolvedSourceView, Option<i64>) {
    (
        ResolvedSourceView {
            namespaced_id: row.namespaced_id@,
            backend_idx: row.backend_idx,
            score: effective_score(row) as i128,
        },
        row.bitrate,
    )
}

/// The sources, the best first.
pub open spec fn best_first(rows: Seq<SourceRow>) -> Seq<ResolvedSourceView> {
    stable_sort(
        rows.map_values(|r: SourceRow| candidate(r)),
        ranking::<Candidate>(),
    ).map_values(|c: (ResolvedSourceView, Option<i64>)| c.0)
}

/// Ranks the members of a group of duplicates, the best first.
pub fn resolve_best_sources(rows: &Vec<SourceRow>) -> (r: Vec<ResolvedSource>)
    ensures
        views(r@) == best_first(rows@),
{
    let ghost want = rows@.map_values(|r: SourceRow| candidate(r));
    let mut all: Vec<Candidate> = Vec::new();
    let mut i: usize = 0;
    while i < rows.len()
        invariant
            i <= rows@.len(),
            want == rows@.map_values(|r: SourceRow| candidate(r)),
            views(all@) == want.take(i as int),
        decreases rows@.len() - i,
    {
        let ghost before = all@;
        let row = &rows[i];
        let score: i128 = if row.score > 0 {
            row.score
        } else {
            compute_score(row.bitrate, row.format.as_ref())
        };
        let c = Candidate {
            source: ResolvedSource {
                namespaced_id: row.namespaced_id.clone(),
                backend_idx: row.backend_idx,
                score,
            },
            bitrate: row.bitrate,
        };
        let ghost cv = c@;
        assert(want[i as int] == cv);
        all.push(c);
        assert(views(all@) =~= views(before).push(cv));
        assert(want.take(i + 1) =~= want.take(i as int).push(cv));
        i += 1;
    }
    assert(want.take(i as int) =~= want);
    let sorted = sort(all);
    let ghost s = views(sorted@);
    let ghost out_want = s.map_values(|c: (ResolvedSourceView, Option<i64>)| c.0);
    let mut out: Vec<ResolvedSource> = Vec::new();
    let mut j: usize = 0;
    while j < sorted.len()
        invariant
            j <= sorted@.len(),
            s == views(sorted@),
            out_want == s.map_values(|c: (ResolvedSourceView, Option<i64>)| c.0),
            views(out@) == out_want.take(j as int),
        decreases sorted@.len() - j,
    {
        let ghost before = out@;
        let c = ResolvedSource {
            namespaced_id: sorted[j].source.namespaced_id.clone(),
            backend_idx: sorted[j].source.backend_idx,
            score: sorted[j].source.score,
        };
        let ghost cv = c@;
        out.push(c);
        proof {
            assert(out_want[j as int] == sorted@[j as int]@.0);
            assert(views(out@) =~= views(before).push(cv));
            assert(out_want.take(j + 1) =~= out_want.take(j as int).push(cv));
        }
        j += 1;
    }
    assert(out_want.take(j as int) =~= out_want);
    out
}

/// The fingerprint to look up for a dedup canonical ID.
pub fn source_fingerprint(dedup_id: &str) -> (r: Result<String, FugueError>)
    ensures
        match r {
            Ok(h) => dedup_hash(dedup_id@) == Ok::<Seq<char>, FugueErrorView>(h@),
            Err(e) => dedup_hash(dedup_id@) == Err::<Seq<char>, FugueErrorView>(e@),
        },
{
    decode_dedup_id(dedup_id)
}

/// The best source of a group of duplicates, if it has any.
pub fn resolve_best_source(rows: &Vec<SourceRow>) -> (r: Option<ResolvedSource>)
    ensures
        match r {
            Some(s) => rows@.len() > 0 && s@ == best_first(rows@)[0],
            None => rows@.len() == 0,
        },
{
    let mut sources = resolve_best_sources(rows);
    proof {
        crate::sorting::ranking_is_total_preorder::<Candidate>();
        crate::sorting::stable_sort_sorts(
            rows@.map_values(|r: SourceRow| candidate(r)),
            ranking::<Candidate>(),
        );
        assert(views(sources@).len() == sources@.len());
        assert(best_first(rows@).len() == rows@.len());
    }
    if sources.len() == 0 {
        None
    } else {
        assert(views(sources@)[0] == sources@[0]@);
        Some(sources.remove(0))
    }
}

/// FLAC counts more than Opus, and Opus more than MP3, at equal positive
/// bitrates; a higher bitrate counts more in the same format.
pub proof fn quality_prefers(b: i64, c: i64, f: Option<Seq<char>>)
    requires
        b > 0,
    ensures
        quality(Some(b), Some("flac"@)) > quality(Some(b), Some("opus"@)),
        quality(Some(b), Some("opus"@)) > quality(Some(b), Some("mp3"@)),
        c > b ==> quality(Some(c), f) > quality(Some(b), f),
{
    reveal_strlit("flac");
    reveal_strlit("opus");
    reveal_strlit("ogg");
    reveal_strlit("mp3");
    assert("flac"@[0] != "opus"@[0]);
    assert("flac"@.len() == 4 && "opus"@.len() == 4 && "ogg"@.len() == 3 && "mp3"@.len() == 3);
    assert("ogg"@[0] != "mp3"@[0]);
    let w = format_weight(f);
    assert(c > b ==> c * w > b * w) by (nonlinear_arith)
        requires
            w >= 10,
    ;
}

/// No source that is listed later scores higher.
pub proof fn best_source_comes_first(rows: Seq<SourceRow>, i: int, j: int)
    requires
        0 <= i < j < best_first(rows).len(),
    ensures
        best_first(rows)[i].score >= best_first(rows)[j].score,
{
    let all = rows.map_values(|r: SourceRow| candidate(r));
    let leq = ranking::<Candidate>();
    crate::sorting::ranking_is_total_preorder::<Candidate>();
    crate::sorting::stable_sort_sorts(all, leq);
    let s = stable_sort(all, leq);
    assert(leq(s[i], s[j]));
}

/// A stored member whose score is computed anew.
#[derive(Debug)]
pub struct ScoreRow {
    pub id: i64,
    pub backend_idx: usize,
    pub bitrate: Option<i64>,
    pub format: Option<String>,
}

/// The weight that a backend is given, the last if it is given several.
pub open spec fn weight_given(weights: Seq<(usize, i32)>, backend_idx: usize) -> Option<i32>
    decreases weights.len(),
{
    if weights.len() == 0 {
        None
    } else if weights.last().0 == backend_idx {
        Some(weights.last().1)
    } else {
        weight_given(weights.drop_last(), backend_idx)
    }
}

/// The scores of those members whose backends have weights.
pub open spec fn new_scores(rows: Seq<ScoreRow>, weights: Seq<(usize, i32)>) -> Seq<(i64, i128)>
    decreases rows.len(),
{
    if rows.len() == 0 {
        seq![]
    } else {
        let rest = new_scores(rows.drop_last(), weights);
        let r = rows.last();
        match weight_given(weights, r.backend_idx) {
            Some(w) => rest.push(
                (r.id, (quality(r.bitrate, opt_text(r.format)) + w * 10) as i128),
            ),
            None => rest,
        }
    }
}

fn find_weight(weights: &Vec<(usize, i32)>, backend_idx: usize) -> (r: Option<i32>)
    ensures
        r == weight_given(weights@, backend_idx),
{
    let mut i: usize = weights.len();
    assert(weights@.take(i as int) =~= weights@);
    while i > 0
        invariant
            i <= weights@.len(),
            weight_given(weights@, backend_idx) == weight_given(
                weights@.take(i as int),
                backend_idx,
            ),
        decreases i,
    {
        proof {
            assert(weights@.take(i as int).drop_last() =~= weights@.take(i - 1));
            assert(weights@.take(i as int).last() == weights@[i - 1]);
        }
        if weights[i - 1].0 == backend_idx {
            return Some(weights[i - 1].1);
        }
        i -= 1;
    }
    None
}

/// Computes the scores of stored members anew, from their quality and the
/// weights of their backends. Members of other backends keep theirs.
pub fn update_scores(rows: &Vec<ScoreRow>, backend_weights: &Vec<(usize, i32)>) -> (r: Vec<
    (i64, i128),
>)
    ensures
        r@ == new_scores(rows@, backend_weights@),
{
    let mut out: Vec<(i64, i128)> = Vec::new();
    let mut i: usize = 0;
    assert(rows@.take(0) =~= seq![]);
    while i < rows.len()
        invariant
            i <= rows@.len(),
            out@ == new_scores(rows@.take(i as int), backend_weights@),
        decreases rows@.len() - i,
    {
        proof {
            assert(rows@.take(i + 1).drop_last() =~= rows@.take(i as int));
            assert(rows@.take(i + 1).last() == rows@[i as int]);
        }
        match find_weight(backend_weights, rows[i].backend_idx) {
            Some(w) => {
                out.push(
                    (rows[i].id, weighted_score(rows[i].bitrate, rows[i].format.as_ref(), w)),
                );
            },
            None => {},
        }
        i += 1;
    }
    assert(rows@.take(i as int) =~= rows@);
    out
}

/// What a kilobit per second counts in tenths, format by format; a source of
/// unknown bitrate counts as one of 128.
pub proof fn formats_have_their_weights(b: i64, f: Seq<char>, known: Option<Seq<char>>)
    ensures
        quality(Some(b), Some("flac"@)) == 20 * b,
        quality(Some(b), Some("wav"@)) == 18 * b,
        quality(Some(b), Some("opus"@)) == 15 * b,
        quality(Some(b), Some("ogg"@)) == 13 * b,
        quality(Some(b), Some("aac"@)) == 11 * b,
        quality(Some(b), Some("m4a"@)) == 11 * b,
        quality(Some(b), Some("mp3"@)) == 10 * b,
        quality(Some(b), None) == 10 * b,
        !seq!["flac"@, "wav"@, "opus"@, "ogg"@, "aac"@, "m4a"@].contains(f) ==> quality(
            Some(b),
            Some(f),
        ) == 10 * b,
        quality(None, known) == quality(Some(128), known),
{
    reveal_strlit("flac");
    reveal_strlit("opus");
    reveal_strlit("ogg");
    reveal_strlit("mp3");
    reveal_strlit("aac");
    reveal_strlit("m4a");
    reveal_strlit("wav");
    assert("flac"@.len() == 4 && "opus"@.len() == 4 && "ogg"@.len() == 3 && "mp3"@.len() == 3);
    assert("aac"@.len() == 3 && "m4a"@.len() == 3 && "wav"@.len() == 3);
    assert("flac"@[0] != "opus"@[0]);
    assert("ogg"@[0] != "mp3"@[0]);
    assert("ogg"@[0] != "aac"@[0]);
    assert("ogg"@[0] != "m4a"@[0]);
    assert("ogg"@[0] != "wav"@[0]);
    assert("mp3"@[0] != "aac"@[0]);
    assert("mp3"@[1] != "m4a"@[1]);
    assert("mp3"@[0] != "wav"@[0]);
    assert("aac"@[0] != "m4a"@[0]);
    assert("aac"@[0] != "wav"@[0]);
    assert("m4a"@[0] != "wav"@[0]);
    let names = seq!["flac"@, "wav"@, "opus"@, "ogg"@, "aac"@, "m4a"@];
    assert(names[0] == "flac"@ && names[1] == "wav"@ && names[2] == "opus"@ && names[3] == "ogg"@
        && names[4] == "aac"@ && names[5] == "m4a"@);
}

/// The sources are all members of the group, each with its stored score or, where
/// none is stored, its quality; a higher score comes first, and of equal scores
/// the higher bitrate, a known one before an unknown one.
pub proof fn sources_are_ranked_by_score_and_bitrate(rows: Seq<SourceRow>) -> (t: Seq<SourceRow>)
    ensures
        t.to_multiset() == rows.to_multiset(),
        best_first(rows) == t.map_values(
            |r: SourceRow|
                (ResolvedSourceView {
                    namespaced_id: r.namespaced_id@,
                    backend_idx: r.backend_idx,
                    score: if r.score > 0 {
                        r.score
                    } else {
                        quality(r.bitrate, opt_text(r.format)) as i128
                    },
                }),
        ),
        forall|i: int, j: int|
            0 <= i < j < t.len() ==> (#[trigger] best_first(rows)[i]).score > (
            #[trigger] best_first(rows)[j]).score || (best_first(rows)[i].score == best_first(
                rows,
            )[j].score && (t[j].bitrate is None || (t[i].bitrate is Some && t[i].bitrate->0
                >= t[j].bitrate->0))),
{
    let leq = ranking::<Candidate>();
    let key = |r: SourceRow| candidate(r);
    ranking_is_total_preorder::<Candidate>();
    let t = sorting_keys_sorts_items(rows, key, leq);
    let sorted = stable_sort(rows.map_values(key), leq);
    assert(sorted == t.map_values(key));
    let shown = |r: SourceRow|
        (ResolvedSourceView {
            namespaced_id: r.namespaced_id@,
            backend_idx: r.backend_idx,
            score: if r.score > 0 {
                r.score
            } else {
                quality(r.bitrate, opt_text(r.format)) as i128
            },
        });
    assert(best_first(rows) =~= t.map_values(shown));
    assert forall|i: int, j: int| 0 <= i < j < t.len() implies (#[trigger] best_first(rows)[i]).score
        > (#[trigger] best_first(rows)[j]).score || (best_first(rows)[i].score == best_first(
        rows,
    )[j].score && (t[j].bitrate is None || (t[i].bitrate is Some && t[i].bitrate->0
        >= t[j].bitrate->0))) by {
        assert(leq(sorted[i], sorted[j]));
    }
    t
}

/// A backend has the weight that it was given last.
pub proof fn last_weight_counts(weights: Seq<(usize, i32)>, backend_idx: usize, i: int)
    requires
        0 <= i < weights.len(),
        weights[i].0 == backend_idx,
        forall|j: int| i < j < weights.len() ==> (#[trigger] weights[j]).0 != backend_idx,
    ensures
        weight_given(weights, backend_idx) == Some(weights[i].1),
    decreases weights.len(),
{
    if i < weights.len() - 1 {
        assert(weights[weights.len() - 1].0 != backend_idx);
        let d = weights.drop_last();
        assert forall|j: int| i < j < d.len() implies (#[trigger] d[j]).0 != backend_idx by {
            assert(weights[j].0 != backend_idx);
        }
        last_weight_counts(d, backend_idx, i);
    }
}

/// Each member whose backend has a weight gets its quality and ten for each point
/// of the weight; the others get nothing.
pub proof fn weights_add_ten_a_point(rows: Seq<ScoreRow>, weights: Seq<(usize, i32)>)
    ensures
        new_scores(rows, weights) == rows.map_values(
            |r: ScoreRow|
                match weight_given(weights, r.backend_idx) {
                    Some(w) => seq![
                        (r.id, (quality(r.bitrate, opt_text(r.format)) + 10 * w) as i128),
                    ],
                    None => seq![],
                },
        ).flatten(),
    decreases rows.len(),
{
    lemma_flat_end(
        rows,
        |r: ScoreRow|
            match weight_given(weights, r.backend_idx) {
                Some(w) => seq![
                    (r.id, (quality(r.bitrate, opt_text(r.format)) + 10 * w) as i128),
                ],
                None => seq![],
            },
    );
    if rows.len() > 0 {
        weights_add_ten_a_point(rows.drop_last(), weights);
    }
}

} // verus!
