//! Asking all backends.

use crate::error::{FugueError, FugueErrorView};
use crate::json::{Json, JsonView};
use crate::seqs::lemma_flat_end;
use vstd::prelude::*;

verus! {

/// What backends answered, each with the index of the backend.
pub open spec fn answers_view(s: Seq<(usize, Result<Json, FugueError>)>) -> Seq<
    (usize, Result<JsonView, FugueErrorView>),
> {
    s.map_values(
        |p: (usize, Result<Json, FugueError>)|
            (
                p.0,
                match p.1 {
                    Ok(j) => Ok::<JsonView, FugueErrorView>(j@),
                    Err(e) => Err::<JsonView, FugueErrorView>(e@),
                },
            ),
    )
}

/// The answers of those backends that answered, in their order.
pub open spec fn successes(s: Seq<(usize, Result<JsonView, FugueErrorView>)>) -> Seq<
    (usize, JsonView),
>
    decreases s.len(),
{
    if s.len() == 0 {
        seq![]
    } else {
        match s.last().1 {
            Ok(v) => successes(s.drop_last()).push((s.last().0, v)),
            Err(_) => successes(s.drop_last()),
        }
    }
}

/// The last error among the answers.
pub open spec fn last_error(s: Seq<(usize, Result<JsonView, FugueErrorView>)>) -> Option<
    FugueErrorView,
>
    decreases s.len(),
{
    if s.len() == 0 {
        None
    } else {
        match s.last().1 {
            Ok(_) => last_error(s.drop_last()),
            Err(e) => Some(e),
        }
    }
}

/// The answers of those backends that answered; failures are tolerated as long
/// as one answered. If none did, the last error is returned.
pub fn fan_out(results: Vec<(usize, Result<Json, FugueError>)>) -> (r: Result<
    Vec<(usize, Json)>,
    FugueError,
>)
    ensures
        ({
            let s = answers_view(results@);
            if successes(s).len() > 0 {
                r matches Ok(v) && crate::subsonic::models::responses_view(v@) == successes(s)
            } else {
                r matches Err(e) && e@ == match last_error(s) {
                    Some(x) => x,
                    None => FugueErrorView::Backend("No backends configured"@),
                }
            }
        }),
{
    let ghost s = answers_view(results@);
    let mut rest = results;
    let mut found: Vec<(usize, Json)> = Vec::new();
    let mut error: Option<FugueError> = None;
    assert(s.take(0) =~= seq![]);
    assert(crate::subsonic::models::responses_view(found@) =~= seq![]);
    let mut back: Vec<(usize, Result<Json, FugueError>)> = Vec::new();
    while rest.len() > 0
        invariant
            s =~= answers_view(rest@) + answers_view(back@).reverse(),
        decreases rest@.len(),
    {
        let ghost r0 = rest@;
        let ghost b0 = back@;
        let x = rest.pop().unwrap();
        back.push(x);
        proof {
            let v = answers_view(r0).last();
            assert(answers_view(r0) =~= answers_view(rest@).push(v));
            assert(answers_view(back@) =~= answers_view(b0).push(v));
            assert(answers_view(back@).reverse() =~= seq![v] + answers_view(b0).reverse());
        }
    }
    assert(answers_view(rest@) =~= seq![]);
    assert(answers_view(back@).reverse() =~= s);
    assert(answers_view(back@).len() == back@.len());
    while back.len() > 0
        invariant
            back@.len() <= s.len(),
            answers_view(back@) =~= s.reverse().take(back@.len() as int),
            crate::subsonic::models::responses_view(found@) == successes(
                s.take(s.len() - back@.len()),
            ),
            match error {
                Some(e) => last_error(s.take(s.len() - back@.len())) == Some(e@),
                None => last_error(s.take(s.len() - back@.len())) is None,
            },
        decreases back@.len(),
    {
        let ghost b0 = back@;
        let ghost k = s.len() - back@.len();
        let ghost f0 = found@;
        let (idx, result) = back.pop().unwrap();
        proof {
            assert(answers_view(b0).last() == s.reverse()[b0.len() - 1]);
            assert(s.reverse()[b0.len() - 1] == s[k]);
            assert(s.take(k + 1).drop_last() =~= s.take(k));
            assert(s.take(k + 1).last() == s[k]);
            assert(answers_view(back@) =~= answers_view(b0).drop_last());
        }
        match result {
            Ok(v) => {
                let ghost vv = v@;
                found.push((idx, v));
                assert(crate::subsonic::models::responses_view(found@)
                    =~= crate::subsonic::models::responses_view(f0).push((idx, vv)));
            },
            Err(e) => {
                error = Some(e);
            },
        }
    }
    assert(s.take(s.len() as int) =~= s);
    assert(crate::subsonic::models::responses_view(found@).len() == found@.len());
    if found.len() == 0 {
        match error {
            Some(e) => Err(e),
            None => Err(FugueError::Backend("No backends configured".to_owned())),
        }
    } else {
        Ok(found)
    }
}

/// All answers are kept, in order and with their backends; errors are left out.
pub proof fn every_answer_is_kept(s: Seq<(usize, Result<JsonView, FugueErrorView>)>)
    ensures
        successes(s) == s.map_values(
            |p: (usize, Result<JsonView, FugueErrorView>)|
                match p.1 {
                    Ok(v) => seq![(p.0, v)],
                    Err(_) => seq![],
                },
        ).flatten(),
    decreases s.len(),
{
    lemma_flat_end(
        s,
        |p: (usize, Result<JsonView, FugueErrorView>)|
            match p.1 {
                Ok(v) => seq![(p.0, v)],
                Err(_) => seq![],
            },
    );
    if s.len() > 0 {
        every_answer_is_kept(s.drop_last());
    }
}

/// The last error is the one behind which there are only answers; where all
/// answered there is none.
pub proof fn last_error_is_the_last(
    s: Seq<(usize, Result<JsonView, FugueErrorView>)>,
    k: int,
)
    ensures
        0 <= k < s.len() && (forall|j: int| k < j < s.len() ==> (#[trigger] s[j]).1 is Ok) ==> (
        s[k].1 matches Err(e) ==> last_error(s) == Some(e)),
        (forall|j: int| 0 <= j < s.len() ==> (#[trigger] s[j]).1 is Ok) ==> last_error(s) is None,
    decreases s.len(),
{
    if s.len() > 0 {
        let d = s.drop_last();
        last_error_is_the_last(d, k);
        assert(s[s.len() - 1] == s.last());
        assert forall|j: int| 0 <= j < d.len() implies (#[trigger] d[j]) == s[j] by {}
    }
}

} // verus!
