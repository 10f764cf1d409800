//! Which backend an identifier belongs to.

use crate::error::{FugueError, FugueErrorView};
use crate::id::{decode_id, id_parts, id_round_trip, namespaced_id};
use crate::strs::{concat3, decimal, decimal_string};
use vstd::prelude::*;

verus! {

/// The backend and the original identifier that a namespaced identifier stands
/// for, among `backends` backends.
pub open spec fn route(namespaced: Seq<char>, backends: nat) -> Result<
    (nat, Seq<char>),
    FugueErrorView,
> {
    match id_parts(namespaced) {
        Err(e) => Err(e),
        Ok((idx, original)) => if idx < backends {
            Ok((idx, original))
        } else {
            Err(
                FugueErrorView::Internal(
                    "Backend index "@ + decimal(idx) + " out of range"@,
                ),
            )
        },
    }
}

/// Decodes a namespaced ID to the position of its backend and the original ID.
pub fn route_to_backend(backends: usize, namespaced_id: &str) -> (r: Result<
    (usize, String),
    FugueError,
>)
    ensures
        match r {
            Ok((idx, original)) => idx < backends && route(namespaced_id@, backends as nat) == Ok::<
                (nat, Seq<char>),
                FugueErrorView,
            >((idx as nat, original@)),
            Err(e) => route(namespaced_id@, backends as nat) == Err::<
                (nat, Seq<char>),
                FugueErrorView,
            >(e@),
        },
{
    match decode_id(namespaced_id) {
        Err(e) => Err(e),
        Ok((idx, original)) => if idx < backends {
            Ok((idx, original))
        } else {
            Err(
                FugueError::Internal(
                    concat3(
                        "Backend index ",
                        decimal_string(idx as u128).as_str(),
                        " out of range",
                    ),
                ),
            )
        },
    }
}

/// An identifier that was given out for an item of a backend leads back to that
/// backend and that item.
pub proof fn ids_lead_back(idx: nat, original: Seq<char>, backends: nat)
    requires
        idx < backends,
        backends <= usize::MAX,
    ensures
        route(namespaced_id(idx, original), backends) == Ok::<(nat, Seq<char>), FugueErrorView>(
            (idx, original),
        ),
{
    id_round_trip(idx, original);
}

} // verus!
