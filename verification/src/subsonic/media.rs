//! Where a stream comes from, and what is tried when a source fails.

use crate::cache::db::{MemberEntry, MemberEntryView};
use crate::codec::pair_views;
use crate::config::StreamingConfig;
use crate::dedup::resolver::{ResolvedSource, ResolvedSourceView};
use crate::error::{FugueError, FugueErrorView};
use crate::health::probe::{
    counts_as_available, known_latency, BackendHealth, HealthRegistry,
};
use crate::id::{
    backend_ids_are_not_dedup_ids, decode_dedup_id, dedup_hash, dedup_id, dedup_id_round_trip,
    is_dedup_id, names_dedup, namespaced_id, token_round_trip,
};
use crate::proxy::router::{ids_lead_back, route, route_to_backend};
use crate::seqs::{lemma_flat_end, lemma_layout_end, lemma_pick_end};
use crate::social::bandwidth::{agreed_quality, select_quality};
use crate::social::collab_playlist::{
    decode_remote_track_id, remote_track, remote_track_id, remote_track_id_round_trip,
};
use crate::social::protocol::RequestMessage;
use crate::sorting::{
    ranking, ranking_is_total_preorder, sort, sorting_keys_sorts_items, stable_sort,
    stable_sort_sorts, Ranked,
};
use crate::strs::{concat2, decimal, decimal_starts_with_digit, str_eq, views};
use crate::subsonic::params::{field_value, pass_on, passed_on, Params};
use vstd::prelude::*;

verus! {

/// The parameters of a stream, download or cover art request.
pub open spec fn stream_params(
    original_id: Seq<char>,
    extra: Seq<(Seq<char>, Seq<char>)>,
) -> Seq<(Seq<char>, Seq<char>)> {
    seq![("id"@, original_id)] + extra
}

/// Builds the parameters of a stream, download or cover art request.
pub fn build_stream_params(original_id: &str, extra: &Vec<(String, String)>) -> (r: Vec<
    (String, String),
>)
    ensures
        pair_views(r@) == stream_params(original_id@, pair_views(extra@)),
{
    let ghost want = stream_params(original_id@, pair_views(extra@));
    let mut out: Vec<(String, String)> = Vec::new();
    out.push(("id".to_owned(), original_id.to_owned()));
    assert(pair_views(out@) =~= want.take(1));
    let mut i: usize = 0;
    while i < extra.len()
        invariant
            i <= extra@.len(),
            want == stream_params(original_id@, pair_views(extra@)),
            pair_views(out@) == want.take(1 + i),
        decreases extra@.len() - i,
    {
        let ghost before = out@;
        let p = (extra[i].0.clone(), extra[i].1.clone());
        out.push(p);
        proof {
            assert(want[1 + i] == pair_views(extra@)[i as int]);
            assert(pair_views(out@) =~= pair_views(before).push((p.0@, p.1@)));
            assert(want.take(1 + i + 1) =~= want.take(1 + i).push((p.0@, p.1@)));
        }
        i += 1;
    }
    assert(want.take(1 + i) =~= want);
    out
}

/// What a stream request passes on to the backend: transcoding parameters,
/// untouched.
pub open spec fn stream_extra(fields: Seq<(Seq<char>, Seq<char>)>) -> Seq<(Seq<char>, Seq<char>)> {
    passed_on(
        passed_on(
            passed_on(passed_on(seq![], fields, "maxBitRate"@), fields, "format"@),
            fields,
            "timeOffset"@,
        ),
        fields,
        "estimatedContentLength"@,
    )
}

/// What a stream request passes on to the backend.
pub fn stream(params: &Params) -> (r: Vec<(String, String)>)
    ensures
        pair_views(r@) == stream_extra(params@),
{
    let mut out: Vec<(String, String)> = Vec::new();
    assert(pair_views(out@) =~= seq![]);
    pass_on(&mut out, params, "maxBitRate");
    pass_on(&mut out, params, "format");
    pass_on(&mut out, params, "timeOffset");
    pass_on(&mut out, params, "estimatedContentLength");
    out
}

/// What a cover art request passes on to the backend.
pub fn get_cover_art(params: &Params) -> (r: Vec<(String, String)>)
    ensures
        pair_views(r@) == passed_on(seq![], params@, "size"@),
{
    let mut out: Vec<(String, String)> = Vec::new();
    assert(pair_views(out@) =~= seq![]);
    pass_on(&mut out, params, "size");
    out
}

// ── Where a stream comes from ───────────────────────────────────

/// A request to one backend.
#[derive(Debug)]
pub struct Attempt {
    /// The position of the backend.
    pub backend: usize,
    pub params: Vec<(String, String)>,
}

/// A request to one backend, as characters and numbers.
pub struct AttemptView {
    pub backend: usize,
    pub params: Seq<(Seq<char>, Seq<char>)>,
}

impl View for Attempt {
    type V = AttemptView;

    open spec fn view(&self) -> AttemptView {
        AttemptView { backend: self.backend, params: pair_views(self.params@) }
    }
}

/// Where a stream comes from.
#[derive(Debug)]
pub enum StreamPlan {
    /// One of our backends, and nothing else.
    Own(Attempt),
    /// A friend's node.
    Friend { owner_node: String, track_id: String },
    /// The sources of a duplicate, which are to be looked up.
    Sources { fingerprint: String },
    /// One of our backends; if it fails, other copies of the track.
    Backend(Attempt),
    /// Nowhere.
    Refused(FugueError),
}

/// Where a stream comes from, as characters and numbers.
pub enum StreamPlanView {
    Own(AttemptView),
    Friend { owner_node: Seq<char>, track_id: Seq<char> },
    Sources { fingerprint: Seq<char> },
    Backend(AttemptView),
    Refused(FugueErrorView),
}

impl View for StreamPlan {
    type V = StreamPlanView;

    open spec fn view(&self) -> StreamPlanView {
        match *self {
            StreamPlan::Own(a) => StreamPlanView::Own(a@),
            StreamPlan::Friend { owner_node, track_id } => StreamPlanView::Friend {
                owner_node: owner_node@,
                track_id: track_id@,
            },
            StreamPlan::Sources { fingerprint } => StreamPlanView::Sources {
                fingerprint: fingerprint@,
            },
            StreamPlan::Backend(a) => StreamPlanView::Backend(a@),
            StreamPlan::Refused(e) => StreamPlanView::Refused(e@),
        }
    }
}

/// The request for an item of one of `backends` backends.
pub open spec fn attempt_for(
    id: Seq<char>,
    backends: nat,
    extra: Seq<(Seq<char>, Seq<char>)>,
) -> Result<AttemptView, FugueErrorView> {
    match route(id, backends) {
        Ok((idx, original)) => Ok(
            AttemptView { backend: idx as usize, params: stream_params(original, extra) },
        ),
        Err(e) => Err(e),
    }
}

/// Where a stream comes from: a remote track from its node, which may be our
/// own; a duplicate from its sources; anything else from its backend.
pub open spec fn stream_plan(
    id: Seq<char>,
    my_node: Seq<char>,
    backends: nat,
    extra: Seq<(Seq<char>, Seq<char>)>,
) -> StreamPlanView {
    match remote_track(id) {
        Some((owner, track)) => if owner == my_node {
            match attempt_for(track, backends, extra) {
                Ok(a) => StreamPlanView::Own(a),
                Err(e) => StreamPlanView::Refused(e),
            }
        } else {
            StreamPlanView::Friend { owner_node: owner, track_id: track }
        },
        None => if names_dedup(id) {
            match dedup_hash(id) {
                Ok(f) => StreamPlanView::Sources { fingerprint: f },
                Err(e) => StreamPlanView::Refused(e),
            }
        } else {
            match attempt_for(id, backends, extra) {
                Ok(a) => StreamPlanView::Backend(a),
                Err(e) => StreamPlanView::Refused(e),
            }
        },
    }
}

fn make_attempt(id: &str, backends: usize, extra: &Vec<(String, String)>) -> (r: Result<
    Attempt,
    FugueError,
>)
    ensures
        match r {
            Ok(a) => attempt_for(id@, backends as nat, pair_views(extra@)) == Ok::<
                AttemptView,
                FugueErrorView,
            >(a@) && a.backend < backends,
            Err(e) => attempt_for(id@, backends as nat, pair_views(extra@)) == Err::<
                AttemptView,
                FugueErrorView,
            >(e@),
        },
{
    match route_to_backend(backends, id) {
        Ok((backend, original)) => Ok(
            Attempt { backend, params: build_stream_params(original.as_str(), extra) },
        ),
        Err(e) => Err(e),
    }
}

/// Where a stream comes from. `my_node` is empty if this node has no identity.
pub fn stream_with_fallback(
    id: &str,
    my_node: &str,
    backends: usize,
    extra: &Vec<(String, String)>,
) -> (r: StreamPlan)
    ensures
        r@ == stream_plan(id@, my_node@, backends as nat, pair_views(extra@)),
{
    match decode_remote_track_id(id) {
        Some((owner_node, track_id)) => if str_eq(owner_node.as_str(), my_node) {
            match make_attempt(track_id.as_str(), backends, extra) {
                Ok(a) => StreamPlan::Own(a),
                Err(e) => StreamPlan::Refused(e),
            }
        } else {
            StreamPlan::Friend { owner_node, track_id }
        },
        None => if is_dedup_id(id) {
            match decode_dedup_id(id) {
                Ok(fingerprint) => StreamPlan::Sources { fingerprint },
                Err(e) => StreamPlan::Refused(e),
            }
        } else {
            match make_attempt(id, backends, extra) {
                Ok(a) => StreamPlan::Backend(a),
                Err(e) => StreamPlan::Refused(e),
            }
        },
    }
}

// ── The sources of a duplicate ──────────────────────────────────

/// The score of a source, a tenth less for each millisecond of latency, as far
/// as 128 bits go.
pub open spec fn adjusted_score(score: i128, latency_ms: u64) -> i128 {
    if score - latency_ms < i128::MIN {
        i128::MIN
    } else {
        (score - latency_ms) as i128
    }
}

/// A source with what is known of its backend.
pub struct HealthySource {
    pub source: ResolvedSource,
    pub available: bool,
    pub adjusted: i128,
}

impl View for HealthySource {
    type V = (ResolvedSourceView, bool, i128);

    open spec fn view(&self) -> (ResolvedSourceView, bool, i128) {
        (self.source@, self.available, self.adjusted)
    }
}

impl Ranked for HealthySource {
    open spec fn leq(
        a: (ResolvedSourceView, bool, i128),
        b: (ResolvedSourceView, bool, i128),
    ) -> bool {
        if a.1 != b.1 {
            a.1
        } else {
            a.2 >= b.2
        }
    }

    proof fn leq_total(
        a: (ResolvedSourceView, bool, i128),
        b: (ResolvedSourceView, bool, i128),
    ) {
    }

    proof fn leq_transitive(
        a: (ResolvedSourceView, bool, i128),
        b: (ResolvedSourceView, bool, i128),
        c: (ResolvedSourceView, bool, i128),
    ) {
    }

    fn may_precede(&self, other: &Self) -> (r: bool) {
        if self.available != other.available {
            self.available
        } else {
            self.adjusted >= other.adjusted
        }
    }
}

/// A source with what is known of its backend.
pub open spec fn with_health(s: ResolvedSourceView, health: Map<usize, BackendHealth>) -> (
    ResolvedSourceView,
    bool,
    i128,
) {
    (
        s,
        counts_as_available(health, s.backend_idx),
        adjusted_score(s.score, known_latency(health, s.backend_idx)),
    )
}

/// The sources in the order in which they are tried: those of unavailable
/// backends last, otherwise by score less the latency.
pub open spec fn by_health(
    sources: Seq<ResolvedSourceView>,
    health: Map<usize, BackendHealth>,
) -> Seq<ResolvedSourceView> {
    stable_sort(
        sources.map_values(|s: ResolvedSourceView| with_health(s, health)),
        ranking::<HealthySource>(),
    ).map_values(|t: (ResolvedSourceView, bool, i128)| t.0)
}

/// The requests for those sources whose identifiers lead to a backend.
pub open spec fn source_attempts(
    sources: Seq<ResolvedSourceView>,
    backends: nat,
    extra: Seq<(Seq<char>, Seq<char>)>,
) -> Seq<AttemptView>
    decreases sources.len(),
{
    if sources.len() == 0 {
        seq![]
    } else {
        let rest = source_attempts(sources.drop_last(), backends, extra);
        match attempt_for(sources.last().namespaced_id, backends, extra) {
            Ok(a) => rest.push(a),
            Err(_) => rest,
        }
    }
}

fn order_sources(sources: &Vec<ResolvedSource>, health: &HealthRegistry) -> (r: Vec<HealthySource>)
    ensures
        views(r@).map_values(|t: (ResolvedSourceView, bool, i128)| t.0) == by_health(
            views(sources@),
            health@,
        ),
{
    let ghost want = views(sources@).map_values(
        |s: ResolvedSourceView| with_health(s, health@),
    );
    let mut all: Vec<HealthySource> = Vec::new();
    let mut i: usize = 0;
    while i < sources.len()
        invariant
            i <= sources@.len(),
            want == views(sources@).map_values(|s: ResolvedSourceView| with_health(s, health@)),
            views(all@) == want.take(i as int),
        decreases sources@.len() - i,
    {
        let ghost before = all@;
        let s = &sources[i];
        let latency = health.latency_ms(s.backend_idx);
        let adjusted: i128 = if s.score < i128::MIN + latency as i128 {
            i128::MIN
        } else {
            s.score - latency as i128
        };
        let h = HealthySource {
            source: ResolvedSource {
                namespaced_id: s.namespaced_id.clone(),
                backend_idx: s.backend_idx,
                score: s.score,
            },
            available: health.is_available(s.backend_idx),
            adjusted,
        };
        let ghost hv = h@;
        assert(want[i as int] == hv);
        all.push(h);
        assert(views(all@) =~= views(before).push(hv));
        assert(want.take(i + 1) =~= want.take(i as int).push(hv));
        i += 1;
    }
    assert(want.take(i as int) =~= want);
    sort(all)
}

/// The requests to try, in order, for a duplicate with these sources. A
/// duplicate without sources is not found.
pub fn dedup_attempts(
    sources: &Vec<ResolvedSource>,
    health: &HealthRegistry,
    backends: usize,
    extra: &Vec<(String, String)>,
) -> (r: Result<Vec<Attempt>, FugueError>)
    ensures
        if sources@.len() == 0 {
            r matches Err(e) && e@ == FugueErrorView::NotFound("No sources for dedup track"@)
        } else {
            r matches Ok(v) && views(v@) == source_attempts(
                by_health(views(sources@), health@),
                backends as nat,
                pair_views(extra@),
            )
        },
{
    if sources.len() == 0 {
        return Err(FugueError::NotFound("No sources for dedup track".to_owned()));
    }
    let ordered = order_sources(sources, health);
    let ghost s = by_health(views(sources@), health@);
    let mut out: Vec<Attempt> = Vec::new();
    let mut i: usize = 0;
    assert(s.take(0) =~= seq![]);
    assert(views(out@) =~= seq![]);
    assert(s.len() == ordered@.len());
    while i < ordered.len()
        invariant
            i <= ordered@.len(),
            s == views(ordered@).map_values(|t: (ResolvedSourceView, bool, i128)| t.0),
            views(out@) == source_attempts(s.take(i as int), backends as nat, pair_views(extra@)),
        decreases ordered@.len() - i,
    {
        let ghost before = out@;
        proof {
            assert(s.take(i + 1).drop_last() =~= s.take(i as int));
            assert(s.take(i + 1).last() == ordered@[i as int].source@);
        }
        match make_attempt(ordered[i].source.namespaced_id.as_str(), backends, extra) {
            Ok(a) => {
                let ghost av = a@;
                out.push(a);
                assert(views(out@) =~= views(before).push(av));
            },
            Err(_) => {},
        }
        i += 1;
    }
    assert(s.take(i as int) =~= s);
    Ok(out)
}

/// The error when every source of a duplicate has failed: the last one's.
pub fn all_sources_failed(last_error: Option<FugueError>) -> (r: FugueError)
    ensures
        match last_error {
            Some(e) => r == e,
            None => r@ == FugueErrorView::NotFound("All dedup sources failed"@),
        },
{
    match last_error {
        Some(e) => e,
        None => FugueError::NotFound("All dedup sources failed".to_owned()),
    }
}

/// A source of an available backend is tried before any of an unavailable one;
/// among sources of equal availability none that is tried later scores higher,
/// latency taken into account.
pub proof fn best_source_is_tried_first(
    sources: Seq<ResolvedSourceView>,
    health: Map<usize, BackendHealth>,
    i: int,
    j: int,
)
    requires
        0 <= i < j < by_health(sources, health).len(),
    ensures
        ({
            let a = with_health(by_health(sources, health)[i], health);
            let b = with_health(by_health(sources, health)[j], health);
            (b.1 ==> a.1) && (a.1 == b.1 ==> a.2 >= b.2)
        }),
{
    broadcast use vstd::seq_lib::group_to_multiset_ensures;

    let m = sources.map_values(|s: ResolvedSourceView| with_health(s, health));
    let leq = ranking::<HealthySource>();
    crate::sorting::ranking_is_total_preorder::<HealthySource>();
    crate::sorting::stable_sort_sorts(m, leq);
    let t = stable_sort(m, leq);
    assert(leq(t[i], t[j]));
    assert forall|k: int| 0 <= k < t.len() implies #[trigger] t[k] == with_health(t[k].0, health) by {
        assert(t.contains(t[k]));
        assert(t.to_multiset().count(t[k]) > 0);
        assert(m.to_multiset().count(t[k]) > 0);
        assert(m.contains(t[k]));
        let q = choose|q: int| 0 <= q < m.len() && m[q] == t[k];
        assert(m[q] == with_health(sources[q], health));
    }
    assert(t[i] == with_health(t[i].0, health));
    assert(t[j] == with_health(t[j].0, health));
}

// ── Other copies of a track ─────────────────────────────────────

/// The requests to try when the backend of a track has failed: for the other
/// copies of the track, as far as their backends are available.
pub open spec fn sibling_attempts(
    id: Seq<char>,
    siblings: Seq<Seq<char>>,
    health: Map<usize, BackendHealth>,
    backends: nat,
    extra: Seq<(Seq<char>, Seq<char>)>,
) -> Seq<AttemptView>
    decreases siblings.len(),
{
    if siblings.len() == 0 {
        seq![]
    } else {
        let rest = sibling_attempts(id, siblings.drop_last(), health, backends, extra);
        let sib = siblings.last();
        if sib == id {
            rest
        } else {
            match attempt_for(sib, backends, extra) {
                Ok(a) => if counts_as_available(health, a.backend) {
                    rest.push(a)
                } else {
                    rest
                },
                Err(_) => rest,
            }
        }
    }
}

/// The requests to try when the backend of a track has failed. `siblings` are
/// all copies of the track, the track itself among them; a single one is no
/// choice.
pub fn fallback_attempts(
    id: &str,
    siblings: &Vec<String>,
    health: &HealthRegistry,
    backends: usize,
    extra: &Vec<(String, String)>,
) -> (r: Vec<Attempt>)
    ensures
        views(r@) == if siblings@.len() <= 1 {
            seq![]
        } else {
            sibling_attempts(
                id@,
                views(siblings@),
                health@,
                backends as nat,
                pair_views(extra@),
            )
        },
{
    let ghost s = views(siblings@);
    let mut out: Vec<Attempt> = Vec::new();
    assert(views(out@) =~= seq![]);
    if siblings.len() <= 1 {
        return out;
    }
    let mut i: usize = 0;
    assert(s.take(0) =~= seq![]);
    while i < siblings.len()
        invariant
            i <= siblings@.len(),
            s == views(siblings@),
            views(out@) == sibling_attempts(
                id@,
                s.take(i as int),
                health@,
                backends as nat,
                pair_views(extra@),
            ),
        decreases siblings@.len() - i,
    {
        let ghost before = out@;
        proof {
            assert(s.take(i + 1).drop_last() =~= s.take(i as int));
            assert(s.take(i + 1).last() == siblings@[i as int]@);
        }
        if !str_eq(siblings[i].as_str(), id) {
            match make_attempt(siblings[i].as_str(), backends, extra) {
                Ok(a) => {
                    if health.is_available(a.backend) {
                        let ghost av = a@;
                        out.push(a);
                        assert(views(out@) =~= views(before).push(av));
                    }
                },
                Err(_) => {},
            }
        }
        i += 1;
    }
    assert(s.take(i as int) =~= s);
    out
}

/// A fallback never goes to an unavailable backend.
pub proof fn fallback_avoids_unavailable(
    id: Seq<char>,
    siblings: Seq<Seq<char>>,
    health: Map<usize, BackendHealth>,
    backends: nat,
    extra: Seq<(Seq<char>, Seq<char>)>,
    i: int,
)
    requires
        0 <= i < sibling_attempts(id, siblings, health, backends, extra).len(),
    ensures
        counts_as_available(
            health,
            sibling_attempts(id, siblings, health, backends, extra)[i].backend,
        ),
    decreases siblings.len(),
{
    let rest = sibling_attempts(id, siblings.drop_last(), health, backends, extra);
    if i < rest.len() {
        fallback_avoids_unavailable(id, siblings.drop_last(), health, backends, extra, i);
    }
}

// ── The walk over the attempts ──────────────────────────────────

/// What to do next on the way through the attempts.
#[derive(Debug)]
pub enum WalkStep {
    /// Make this attempt.
    Try(usize),
    /// Pass on the answer of the attempt that was made last.
    Done,
    /// Give up with this error.
    Failed(FugueError),
}

/// What to do next, as numbers and characters.
pub enum WalkStepView {
    Try(int),
    Done,
    Failed(FugueErrorView),
}

impl View for WalkStep {
    type V = WalkStepView;

    open spec fn view(&self) -> WalkStepView {
        match *self {
            WalkStep::Try(i) => WalkStepView::Try(i as int),
            WalkStep::Done => WalkStepView::Done,
            WalkStep::Failed(e) => WalkStepView::Failed(e@),
        }
    }
}

/// An error as characters, if there is one.
pub open spec fn opt_error(e: Option<FugueError>) -> Option<FugueErrorView> {
    match e {
        Some(e) => Some(e@),
        None => None,
    }
}

/// How the walk begins: with the first attempt. Where there is none, it fails
/// with the error that came before the walk, or else as not found.
pub open spec fn walk_start(attempts: nat, first_error: Option<FugueErrorView>) -> WalkStepView {
    if attempts > 0 {
        WalkStepView::Try(0)
    } else {
        WalkStepView::Failed(
            match first_error {
                Some(f) => f,
                None => FugueErrorView::NotFound("All dedup sources failed"@),
            },
        )
    }
}

/// What follows an attempt, which answered if it gave no error: after an
/// answer, nothing; after a failure, the next attempt; after the last failure,
/// the error that came before the walk, or else the last one.
pub open spec fn walk_step(
    tried: int,
    attempts: nat,
    first_error: Option<FugueErrorView>,
    error: Option<FugueErrorView>,
) -> WalkStepView {
    match error {
        None => WalkStepView::Done,
        Some(e) => if tried + 1 < attempts {
            WalkStepView::Try(tried + 1)
        } else {
            WalkStepView::Failed(
                match first_error {
                    Some(f) => f,
                    None => e,
                },
            )
        },
    }
}

/// The first step on the way through the attempts. `first_error` is the error
/// of the track's own backend where the attempts are a fallback.
pub fn first_attempt(attempts: usize, first_error: Option<FugueError>) -> (r: WalkStep)
    ensures
        r@ == walk_start(attempts as nat, opt_error(first_error)),
{
    if attempts > 0 {
        WalkStep::Try(0)
    } else {
        WalkStep::Failed(all_sources_failed(first_error))
    }
}

/// The step after an attempt.
pub fn after_attempt(
    tried: usize,
    attempts: usize,
    first_error: Option<FugueError>,
    outcome: Result<(), FugueError>,
) -> (r: WalkStep)
    requires
        tried < attempts,
    ensures
        outcome is Ok ==> r is Done,
        outcome is Err && tried + 1 < attempts ==> r == WalkStep::Try((tried + 1) as usize),
        outcome matches Err(e) ==> tried + 1 == attempts ==> r == WalkStep::Failed(
            match first_error {
                Some(f) => f,
                None => e,
            },
        ),
        r@ == walk_step(
            tried as int,
            attempts as nat,
            opt_error(first_error),
            match outcome {
                Ok(_) => None,
                Err(e) => Some(e@),
            },
        ),
{
    match outcome {
        Ok(_) => WalkStep::Done,
        Err(e) => if tried + 1 < attempts {
            WalkStep::Try(tried + 1)
        } else {
            match first_error {
                Some(f) => WalkStep::Failed(f),
                None => WalkStep::Failed(e),
            }
        },
    }
}

/// A whole walk: which attempts are made, one after the other, and how it ends.
pub struct Walk {
    pub made: Seq<int>,
    pub end: WalkStepView,
}

/// The walk that goes on with `step`. `errors` has for each attempt the error
/// that it would give, nothing for one that would answer.
pub open spec fn walk(
    step: WalkStepView,
    errors: Seq<Option<FugueErrorView>>,
    first_error: Option<FugueErrorView>,
) -> Walk
    decreases
        match step {
            WalkStepView::Try(i) => errors.len() - i,
            _ => 0,
        },
{
    match step {
        WalkStepView::Try(i) => if 0 <= i < errors.len() {
            let rest = walk(
                walk_step(i, errors.len(), first_error, errors[i]),
                errors,
                first_error,
            );
            Walk { made: seq![i] + rest.made, end: rest.end }
        } else {
            Walk { made: seq![], end: step }
        },
        _ => Walk { made: seq![], end: step },
    }
}

/// The attempts from `i` to before `n`, in order.
pub open spec fn attempts_between(i: int, n: int) -> Seq<int> {
    Seq::new((n - i) as nat, |k: int| i + k)
}

proof fn lemma_walk_answers(
    errors: Seq<Option<FugueErrorView>>,
    first_error: Option<FugueErrorView>,
    i: int,
    k: int,
)
    requires
        0 <= i <= k < errors.len(),
        errors[k] is None,
        forall|j: int| 0 <= j < k ==> (#[trigger] errors[j]) is Some,
    ensures
        walk(WalkStepView::Try(i), errors, first_error) == (Walk {
            made: attempts_between(i, k + 1),
            end: WalkStepView::Done,
        }),
    decreases k - i,
{
    reveal_with_fuel(walk, 2);
    if i == k {
        assert(seq![i] + Seq::<int>::empty() =~= attempts_between(i, k + 1));
    } else {
        assert(errors[i] is Some);
        lemma_walk_answers(errors, first_error, i + 1, k);
        assert(seq![i] + attempts_between(i + 1, k + 1) =~= attempts_between(i, k + 1));
    }
}

/// The first attempt that answers is the answer: those before it are made in
/// order, and none after it.
pub proof fn first_answer_ends_the_walk(
    errors: Seq<Option<FugueErrorView>>,
    first_error: Option<FugueErrorView>,
    k: int,
)
    requires
        0 <= k < errors.len(),
        errors[k] is None,
        forall|j: int| 0 <= j < k ==> (#[trigger] errors[j]) is Some,
    ensures
        walk(walk_start(errors.len(), first_error), errors, first_error) == (Walk {
            made: attempts_between(0, k + 1),
            end: WalkStepView::Done,
        }),
{
    lemma_walk_answers(errors, first_error, 0, k);
}

proof fn lemma_walk_fails(
    errors: Seq<Option<FugueErrorView>>,
    first_error: Option<FugueErrorView>,
    i: int,
)
    requires
        0 <= i < errors.len(),
        forall|j: int| 0 <= j < errors.len() ==> (#[trigger] errors[j]) is Some,
    ensures
        walk(WalkStepView::Try(i), errors, first_error) == (Walk {
            made: attempts_between(i, errors.len() as int),
            end: WalkStepView::Failed(
                match first_error {
                    Some(f) => f,
                    None => errors.last()->0,
                },
            ),
        }),
    decreases errors.len() - i,
{
    assert(errors[i] is Some);
    let n = errors.len() as int;
    reveal_with_fuel(walk, 2);
    if i + 1 == n {
        assert(seq![i] + Seq::<int>::empty() =~= attempts_between(i, n));
    } else {
        lemma_walk_fails(errors, first_error, i + 1);
        assert(seq![i] + attempts_between(i + 1, n) =~= attempts_between(i, n));
    }
}

/// A walk on which nothing answers has made every attempt, in order. It ends
/// with the error that came before it (that of a track's own backend); for a
/// duplicate, which has none, with the last error, and without any attempt as
/// not found.
pub proof fn failed_walks_tried_everything(
    errors: Seq<Option<FugueErrorView>>,
    first_error: Option<FugueErrorView>,
)
    requires
        forall|j: int| 0 <= j < errors.len() ==> (#[trigger] errors[j]) is Some,
    ensures
        walk(walk_start(errors.len(), first_error), errors, first_error) == (Walk {
            made: attempts_between(0, errors.len() as int),
            end: WalkStepView::Failed(
                match first_error {
                    Some(f) => f,
                    None => if errors.len() > 0 {
                        errors.last()->0
                    } else {
                        FugueErrorView::NotFound("All dedup sources failed"@)
                    },
                },
            ),
        }),
{
    if errors.len() > 0 {
        lemma_walk_fails(errors, first_error, 0);
    } else {
        assert(attempts_between(0, 0) =~= seq![]);
    }
}

// ── Streams between friends ─────────────────────────────────────

/// The request that asks a friend for a track or its cover art. The quality
/// follows from the bandwidth that was measured and from what is preferred.
pub fn stream_from_friend(
    endpoint: &str,
    track_id: &str,
    measured_kbps: u32,
    streaming: &StreamingConfig,
) -> (r: RequestMessage)
    ensures
        if endpoint@ == "getCoverArt"@ {
            r matches RequestMessage::StreamCoverArt { track_id: t } && t@ == track_id@
        } else {
            let q = agreed_quality(
                measured_kbps,
                0,
                "raw"@,
                streaming.preferred_bitrate,
                streaming.preferred_format@,
            );
            r matches RequestMessage::StreamTrack { track_id: t, max_bitrate, format } && t@
                == track_id@ && max_bitrate == (match q.bitrate {
                Some(b) => b,
                None => 0,
            }) && format@ == (match q.format {
                Some(f) => f,
                None => ""@,
            })
        },
{
    if str_eq(endpoint, "getCoverArt") {
        RequestMessage::StreamCoverArt { track_id: track_id.to_owned() }
    } else {
        let (bitrate, format) = select_quality(
            measured_kbps,
            0,
            "raw",
            streaming.preferred_bitrate,
            streaming.preferred_format.as_str(),
        );
        RequestMessage::StreamTrack {
            track_id: track_id.to_owned(),
            max_bitrate: match bitrate {
                Some(b) => b,
                None => 0,
            },
            format: match format {
                Some(f) => f,
                None => "".to_owned(),
            },
        }
    }
}

/// What is served to a friend that asks for a bitrate and a format: no more
/// than the configured bitrate, and the configured format if none is asked for.
pub fn serve_quality(max_bitrate: u32, format: &str, streaming: &StreamingConfig) -> (r: (
    u32,
    String,
))
    ensures
        r.0 == crate::social::bandwidth::capped(max_bitrate, streaming.max_serve_bitrate),
        r.1@ == if format@.len() > 0 {
            format@
        } else {
            streaming.serve_format@
        },
{
    let cap = streaming.max_serve_bitrate;
    let bitrate: u32 = if cap == 0 {
        max_bitrate
    } else if max_bitrate == 0 || max_bitrate > cap {
        cap
    } else {
        max_bitrate
    };
    let f = if format.is_empty() {
        streaming.serve_format.clone()
    } else {
        format.to_owned()
    };
    (bitrate, f)
}

/// The content type of a friend's stream.
pub fn friend_content_type(endpoint: &str) -> (r: String)
    ensures
        r@ == if endpoint@ == "getCoverArt"@ {
            "image/jpeg"@
        } else {
            "audio/mpeg"@
        },
{
    if str_eq(endpoint, "getCoverArt") {
        "image/jpeg".to_owned()
    } else {
        "audio/mpeg".to_owned()
    }
}

/// The error for a friend whose node identifier cannot be read.
pub fn invalid_friend(owner_node: &str) -> (r: FugueError)
    ensures
        r@ == FugueErrorView::Internal("Invalid friend node ID: "@ + owner_node@),
{
    FugueError::Internal(concat2("Invalid friend node ID: ", owner_node))
}

// ── Copies of a track ───────────────────────────────────────────

/// A copy with its score.
pub struct ScoredCopy {
    pub score: i128,
    pub id: String,
}

impl View for ScoredCopy {
    type V = (i128, Seq<char>);

    open spec fn view(&self) -> (i128, Seq<char>) {
        (self.score, self.id@)
    }
}

impl Ranked for ScoredCopy {
    open spec fn leq(a: (i128, Seq<char>), b: (i128, Seq<char>)) -> bool {
        a.0 >= b.0
    }

    proof fn leq_total(a: (i128, Seq<char>), b: (i128, Seq<char>)) {
    }

    proof fn leq_transitive(a: (i128, Seq<char>), b: (i128, Seq<char>), c: (i128, Seq<char>)) {
    }

    fn may_precede(&self, other: &Self) -> (r: bool) {
        self.score >= other.score
    }
}

/// The members of a group of duplicates, with their scores.
pub open spec fn group_members(ms: Seq<MemberEntryView>, fingerprint: Seq<char>) -> Seq<
    (i128, Seq<char>),
>
    decreases ms.len(),
{
    if ms.len() == 0 {
        seq![]
    } else {
        let rest = group_members(ms.drop_last(), fingerprint);
        if ms.last().fingerprint == fingerprint {
            rest.push((ms.last().score, ms.last().namespaced_id))
        } else {
            rest
        }
    }
}

/// The members of the groups that an item is in, as far as its first `n`
/// memberships go.
pub open spec fn copies_of(ms: Seq<MemberEntryView>, id: Seq<char>, n: nat) -> Seq<
    (i128, Seq<char>),
>
    decreases n,
{
    if n == 0 {
        seq![]
    } else {
        let rest = copies_of(ms, id, (n - 1) as nat);
        if ms[n - 1].namespaced_id == id {
            rest + group_members(ms, ms[n - 1].fingerprint)
        } else {
            rest
        }
    }
}

fn add_group(members: &Vec<MemberEntry>, fingerprint: &str, out: &mut Vec<ScoredCopy>)
    ensures
        views(final(out)@) == views(old(out)@) + group_members(views(members@), fingerprint@),
{
    let ghost ms = views(members@);
    let ghost start = views(out@);
    let mut i: usize = 0;
    assert(ms.take(0) =~= seq![]);
    assert(start + seq![] =~= start);
    while i < members.len()
        invariant
            i <= members@.len(),
            ms == views(members@),
            views(out@) == start + group_members(ms.take(i as int), fingerprint@),
        decreases members@.len() - i,
    {
        let ghost before = out@;
        proof {
            assert(ms.take(i + 1).drop_last() =~= ms.take(i as int));
            assert(ms.take(i + 1).last() == members@[i as int]@);
        }
        if str_eq(members[i].fingerprint.as_str(), fingerprint) {
            let c = ScoredCopy {
                score: members[i].score,
                id: members[i].namespaced_id.clone(),
            };
            let ghost cv = c@;
            out.push(c);
            assert(views(out@) =~= views(before).push(cv));
            assert(views(before).push(cv) =~= start + group_members(
                ms.take(i as int),
                fingerprint@,
            ).push(cv));
        }
        i += 1;
    }
    assert(ms.take(i as int) =~= ms);
}

/// All copies of a track, the best first; none if the track is in no group of
/// duplicates. A track in a group is among its own copies.
pub fn find_dedup_siblings(members: &Vec<MemberEntry>, namespaced_id: &str) -> (r: Vec<String>)
    ensures
        views(r@) == stable_sort(
            copies_of(views(members@), namespaced_id@, members@.len()),
            ranking::<ScoredCopy>(),
        ).map_values(|c: (i128, Seq<char>)| c.1),
{
    let ghost ms = views(members@);
    let mut copies: Vec<ScoredCopy> = Vec::new();
    let mut i: usize = 0;
    assert(views(copies@) =~= seq![]);
    while i < members.len()
        invariant
            i <= members@.len(),
            ms == views(members@),
            views(copies@) == copies_of(ms, namespaced_id@, i as nat),
        decreases members@.len() - i,
    {
        assert(ms[i as int] == members@[i as int]@);
        if str_eq(members[i].namespaced_id.as_str(), namespaced_id) {
            add_group(members, members[i].fingerprint.as_str(), &mut copies);
        }
        i += 1;
    }
    let sorted = sort(copies);
    let ghost want = views(sorted@).map_values(|c: (i128, Seq<char>)| c.1);
    let mut out: Vec<String> = Vec::new();
    let mut k: usize = 0;
    while k < sorted.len()
        invariant
            k <= sorted@.len(),
            want == views(sorted@).map_values(|c: (i128, Seq<char>)| c.1),
            views(out@) == want.take(k as int),
        decreases sorted@.len() - k,
    {
        let ghost before = out@;
        let c = sorted[k].id.clone();
        out.push(c);
        assert(views(out@) =~= views(before).push(c@));
        assert(want.take(k + 1) =~= want.take(k as int).push(c@));
        k += 1;
    }
    assert(want.take(k as int) =~= want);
    out
}

// ── Laws of where streams come from ─────────────────────────────

/// The parameters that shape a stream are handed on, and no others.
pub proof fn stream_parameters_are_handed_on(fields: Seq<(Seq<char>, Seq<char>)>)
    ensures
        stream_extra(fields) == seq![
            "maxBitRate"@,
            "format"@,
            "timeOffset"@,
            "estimatedContentLength"@,
        ].map_values(
            |key: Seq<char>|
                match field_value(fields, key) {
                    Some(v) => seq![(key, v)],
                    None => seq![],
                },
        ).flatten(),
{
    let keys = seq!["maxBitRate"@, "format"@, "timeOffset"@, "estimatedContentLength"@];
    let f = |key: Seq<char>|
        match field_value(fields, key) {
            Some(v) => seq![(key, v)],
            None => seq![],
        };
    let none = Seq::<(Seq<char>, Seq<char>)>::empty();
    lemma_flat_end(keys, f);
    let three = keys.drop_last();
    lemma_flat_end(three, f);
    let two = three.drop_last();
    lemma_flat_end(two, f);
    let one = two.drop_last();
    lemma_flat_end(one, f);
    lemma_flat_end(one.drop_last(), f);
    assert(one.map_values(f).flatten() =~= passed_on(none, fields, "maxBitRate"@));
    assert(two.map_values(f).flatten() =~= passed_on(
        one.map_values(f).flatten(),
        fields,
        "format"@,
    ));
    assert(three.map_values(f).flatten() =~= passed_on(
        two.map_values(f).flatten(),
        fields,
        "timeOffset"@,
    ));
}

/// A stream of an item of a backend is asked of that backend, under the
/// identifier that the item has there, with all further parameters.
pub proof fn items_are_streamed_by_their_backends(
    backend: nat,
    original: Seq<char>,
    backends: nat,
    extra: Seq<(Seq<char>, Seq<char>)>,
)
    requires
        backend < backends <= usize::MAX,
    ensures
        attempt_for(namespaced_id(backend, original), backends, extra) == Ok::<
            AttemptView,
            FugueErrorView,
        >((AttemptView { backend: backend as usize, params: seq![("id"@, original)] + extra })),
{
    ids_lead_back(backend, original, backends);
}

/// An item of a backend is streamed from there; a track of another node from that
/// node, one of this node from its own backend; a deduplicated item from its
/// sources.
pub proof fn streams_come_from_where_items_live(
    backend: nat,
    original: Seq<char>,
    backends: nat,
    extra: Seq<(Seq<char>, Seq<char>)>,
    my_node: Seq<char>,
    owner: Seq<char>,
    track: Seq<char>,
    hash: Seq<char>,
)
    requires
        backend < backends <= usize::MAX,
        !owner.contains(':'),
    ensures
        ({
            let id = namespaced_id(backend, original);
            let there = AttemptView {
                backend: backend as usize,
                params: seq![("id"@, original)] + extra,
            };
            &&& stream_plan(id, my_node, backends, extra) == StreamPlanView::Backend(there)
            &&& owner == my_node ==> stream_plan(
                remote_track_id(owner, id),
                my_node,
                backends,
                extra,
            ) == StreamPlanView::Own(there)
            &&& owner != my_node ==> stream_plan(
                remote_track_id(owner, track),
                my_node,
                backends,
                extra,
            ) == (StreamPlanView::Friend { owner_node: owner, track_id: track })
            &&& stream_plan(dedup_id(hash), my_node, backends, extra) == (StreamPlanView::Sources {
                fingerprint: hash,
            })
        }),
{
    let id = namespaced_id(backend, original);
    reveal_strlit("r:");
    reveal_strlit("d:");
    items_are_streamed_by_their_backends(backend, original, backends, extra);
    remote_track_id_round_trip(owner, id);
    remote_track_id_round_trip(owner, track);
    dedup_id_round_trip(hash);
    let own = "d:"@ + hash;
    token_round_trip(own);
    assert(own[0] == 'd' && own.take(2)[0] == own[0] && "r:"@[0] == 'r');
    assert(remote_track(dedup_id(hash)) is None);
    let text = decimal(backend) + seq![':'] + original;
    token_round_trip(text);
    decimal_starts_with_digit(backend);
    assert(text[0] == decimal(backend)[0] && text.take(2)[0] == text[0]);
    assert(remote_track(id) is None);
    backend_ids_are_not_dedup_ids(backend, original);
}

/// Of two equally good sources the one that answers faster is the better one; a
/// millisecond weighs as much as a point.
pub proof fn faster_sources_score_higher(score: i128, fast: u64, slow: u64)
    requires
        fast < slow,
        score - slow >= i128::MIN,
    ensures
        adjusted_score(score, fast) - adjusted_score(score, slow) == slow - fast,
        adjusted_score(score, 0) == score,
{
}

/// Every source whose backend is known is tried, in order.
pub proof fn every_source_is_tried(
    sources: Seq<ResolvedSourceView>,
    backends: nat,
    extra: Seq<(Seq<char>, Seq<char>)>,
)
    ensures
        source_attempts(sources, backends, extra) == sources.map_values(
            |s: ResolvedSourceView|
                match route(s.namespaced_id, backends) {
                    Ok((idx, original)) => seq![
                        (AttemptView {
                            backend: idx as usize,
                            params: seq![("id"@, original)] + extra,
                        }),
                    ],
                    Err(_) => seq![],
                },
        ).flatten(),
    decreases sources.len(),
{
    lemma_flat_end(
        sources,
        |s: ResolvedSourceView|
            match route(s.namespaced_id, backends) {
                Ok((idx, original)) => seq![
                    (AttemptView {
                        backend: idx as usize,
                        params: seq![("id"@, original)] + extra,
                    }),
                ],
                Err(_) => seq![],
            },
    );
    if sources.len() > 0 {
        every_source_is_tried(sources.drop_last(), backends, extra);
    }
}

/// After an error the next source is tried while there is one; when all have
/// failed, the error of the first is the answer.
pub proof fn errors_lead_to_the_next_source(
    tried: int,
    attempts: nat,
    first: FugueErrorView,
    error: FugueErrorView,
)
    ensures
        walk_step(tried, attempts, None, None) is Done,
        walk_step(tried, attempts, Some(first), None) is Done,
        tried + 1 < attempts ==> walk_step(tried, attempts, Some(first), Some(error))
            == WalkStepView::Try(tried + 1),
        tried + 1 < attempts ==> walk_step(tried, attempts, None, Some(error))
            == WalkStepView::Try(tried + 1),
        tried + 1 >= attempts ==> walk_step(tried, attempts, Some(first), Some(error))
            == WalkStepView::Failed(first),
        tried + 1 >= attempts ==> walk_step(tried, attempts, None, Some(error))
            == WalkStepView::Failed(error),
{
}

proof fn lemma_group_members(ms: Seq<MemberEntryView>, fingerprint: Seq<char>)
    ensures
        group_members(ms, fingerprint) == ms.filter(
            |m: MemberEntryView| m.fingerprint == fingerprint,
        ).map_values(|m: MemberEntryView| (m.score, m.namespaced_id)),
    decreases ms.len(),
{
    lemma_pick_end(
        ms,
        |m: MemberEntryView| m.fingerprint == fingerprint,
        |m: MemberEntryView| (m.score, m.namespaced_id),
    );
    if ms.len() > 0 {
        lemma_group_members(ms.drop_last(), fingerprint);
    }
}

/// The copies of an item are all members of the groups that it is in, with their
/// scores.
pub proof fn copies_are_all_members_of_its_groups(
    ms: Seq<MemberEntryView>,
    id: Seq<char>,
    n: nat,
)
    ensures
        copies_of(ms, id, n) == Seq::new(
            n,
            |k: int|
                if ms[k].namespaced_id == id {
                    ms.filter(
                        |m: MemberEntryView| m.fingerprint == ms[k].fingerprint,
                    ).map_values(|m: MemberEntryView| (m.score, m.namespaced_id))
                } else {
                    seq![]
                },
        ).flatten(),
    decreases n,
{
    let f = |k: int|
        if ms[k].namespaced_id == id {
            ms.filter(|m: MemberEntryView| m.fingerprint == ms[k].fingerprint).map_values(
                |m: MemberEntryView| (m.score, m.namespaced_id),
            )
        } else {
            seq![]
        };
    let all = Seq::new(n, f);
    lemma_layout_end(all);
    if n > 0 {
        copies_are_all_members_of_its_groups(ms, id, (n - 1) as nat);
        assert(all.drop_last() =~= Seq::new((n - 1) as nat, f));
        lemma_group_members(ms, ms[n - 1].fingerprint);
        assert(ms.filter(|m: MemberEntryView| m.fingerprint == ms[n - 1].fingerprint).map_values(
            |m: MemberEntryView| (m.score, m.namespaced_id),
        ) == group_members(ms, ms[n - 1].fingerprint));
    }
}

/// Better copies come before worse ones, and none is lost.
pub proof fn better_copies_come_first(copies: Seq<(i128, Seq<char>)>, i: int, j: int)
    requires
        0 <= i < j < copies.len(),
    ensures
        ({
            let listed = stable_sort(copies, ranking::<ScoredCopy>());
            &&& listed.to_multiset() == copies.to_multiset()
            &&& listed.len() == copies.len()
            &&& listed[i].0 >= listed[j].0
        }),
{
    ranking_is_total_preorder::<ScoredCopy>();
    stable_sort_sorts(copies, ranking::<ScoredCopy>());
    let listed = stable_sort(copies, ranking::<ScoredCopy>());
    assert(ranking::<ScoredCopy>()(listed[i], listed[j]));
}

/// When an item fails, all its copies are tried whose backends are known and count
/// as available, in order, but not the item itself.
pub proof fn available_copies_are_tried(
    id: Seq<char>,
    siblings: Seq<Seq<char>>,
    health: Map<usize, BackendHealth>,
    backends: nat,
    extra: Seq<(Seq<char>, Seq<char>)>,
)
    ensures
        sibling_attempts(id, siblings, health, backends, extra) == siblings.map_values(
            |sib: Seq<char>|
                match route(sib, backends) {
                    Ok((idx, original)) => if sib != id && counts_as_available(
                        health,
                        idx as usize,
                    ) {
                        seq![
                            (AttemptView {
                                backend: idx as usize,
                                params: seq![("id"@, original)] + extra,
                            }),
                        ]
                    } else {
                        seq![]
                    },
                    Err(_) => seq![],
                },
        ).flatten(),
    decreases siblings.len(),
{
    lemma_flat_end(
        siblings,
        |sib: Seq<char>|
            match route(sib, backends) {
                Ok((idx, original)) => if sib != id && counts_as_available(health, idx as usize) {
                    seq![
                        (AttemptView {
                            backend: idx as usize,
                            params: seq![("id"@, original)] + extra,
                        }),
                    ]
                } else {
                    seq![]
                },
                Err(_) => seq![],
            },
    );
    if siblings.len() > 0 {
        available_copies_are_tried(id, siblings.drop_last(), health, backends, extra);
    }
}

/// Ordering sources by health loses none of them.
pub proof fn no_source_is_lost(
    sources: Seq<ResolvedSourceView>,
    health: Map<usize, BackendHealth>,
)
    ensures
        by_health(sources, health).to_multiset() == sources.to_multiset(),
{
    let key = |s: ResolvedSourceView| with_health(s, health);
    let leq = ranking::<HealthySource>();
    ranking_is_total_preorder::<HealthySource>();
    let t = sorting_keys_sorts_items(sources, key, leq);
    assert(by_health(sources, health) =~= t);
}

/// What counts of a source is whether its backend counts as available, and its
/// score less the latency of its backend.
pub proof fn sources_are_weighed_by_health(
    s: ResolvedSourceView,
    health: Map<usize, BackendHealth>,
    h: BackendHealth,
)
    requires
        s.score - u64::MAX >= i128::MIN,
    ensures
        with_health(s, health.insert(s.backend_idx, h)) == (
            s,
            h.available,
            (s.score - h.latency_ms) as i128,
        ),
        with_health(s, health.remove(s.backend_idx)) == (s, true, s.score),
{
}

/// A walk starts with the first source; without sources it has failed.
pub proof fn walks_start_with_the_first_source(n: nat, e: FugueErrorView)
    ensures
        n > 0 ==> walk_start(n, None) == WalkStepView::Try(0) && walk_start(n, Some(e))
            == WalkStepView::Try(0),
        walk_start(0, Some(e)) == WalkStepView::Failed(e),
        walk_start(0, None) == WalkStepView::Failed(
            FugueErrorView::NotFound("All dedup sources failed"@),
        ),
{
}

} // verus!
