//! Lifecycle controller: the thin authorization and translation layer over
//! the session registry. External request handlers call these functions and
//! nothing else; a request with no usable credentials is refused here,
//! before the registry is touched.

use vstd::prelude::*;

use crate::error::HttpError;
use crate::message::Message;
use crate::principal::Principal;
use crate::registry::create_outcome;
use crate::registry::delete_outcome;
use crate::registry::has_session;
use crate::registry::index_of_session;
use crate::registry::summary_of;
use crate::registry::Registry;
use crate::registry::SessionSummary;

verus! {

/// Create a session for `principal`. A request without a resolved principal
/// is `Unauthorized` outright; the registry then enforces the game-master
/// requirement.
pub fn create_session(reg: &mut Registry, principal: Option<Principal>) -> (r: Result<
    u64,
    HttpError,
>)
    ensures
        principal is None ==> r == Err::<u64, HttpError>(HttpError::Unauthorized) && final(reg)@
            == old(reg)@,
        principal is Some ==> final(reg)@ == create_outcome(old(reg)@, principal->0).0 && r
            == create_outcome(old(reg)@, principal->0).1,
    {
    match principal {
        None => Err(HttpError::Unauthorized),
        Some(p) => reg.create(&p),
    }
}

/// List every live session. Listing needs no credentials.
pub fn list_sessions(reg: &Registry) -> (r: Vec<SessionSummary>)
    ensures
        r@.len() == reg@.sessions.len(),
        forall|i: int| 0 <= i < r@.len() ==> r@[i] == summary_of(reg@.sessions[i]),
{
    reg.list()
}

/// Report one session. Lookup needs no credentials.
pub fn get_session(reg: &Registry, id: u64) -> (r: Result<SessionSummary, HttpError>)
    ensures
        match r {
            Ok(sum) => has_session(reg@.sessions, id) && sum == summary_of(
                reg@.sessions[index_of_session(reg@.sessions, id)],
            ),
            Err(e) => e == HttpError::NotFound && !has_session(reg@.sessions, id),
        },
{
    reg.get(id)
}

/// Delete a session for `principal`. A request without a resolved principal
/// is `Unauthorized` outright; the registry then enforces ownership and the
/// empty-participants invariant.
pub fn delete_session(reg: &mut Registry, principal: Option<Principal>, id: u64) -> (r: Result<
    (),
    HttpError,
>)
    ensures
        principal is None ==> r == Err::<(), HttpError>(HttpError::Unauthorized) && final(reg)@
            == old(reg)@,
        principal is Some ==> final(reg)@ == delete_outcome(old(reg)@, id, principal->0).0 && r
            == delete_outcome(old(reg)@, id, principal->0).1,
    {
    match principal {
        None => Err(HttpError::Unauthorized),
        Some(p) => reg.delete(id, &p),
    }
}

/// A broadcast requested over a live connection: `m` goes to every attached
/// connection except the sender's own, matching the default echo-suppression
/// policy.
pub fn relay_from(reg: &mut Registry, id: u64, sender: u64, m: &Message) -> (r: Result<
    (),
    HttpError,
>)
    ensures
        final(reg)@.next_id == old(reg)@.next_id,
        !has_session(old(reg)@.sessions, id) ==> r == Err::<(), HttpError>(HttpError::NotFound)
            && final(reg)@ == old(reg)@,
        has_session(old(reg)@.sessions, id) ==> ({
            let i = index_of_session(old(reg)@.sessions, id);
            &&& r == Ok::<(), HttpError>(())
            &&& final(reg)@.sessions == old(reg)@.sessions.update(
                i,
                crate::session::broadcast_outcome(old(reg)@.sessions[i], m@, Some(sender)),
            )
        }),
{
    reg.broadcast(id, m, Some(sender))
}

} // verus!
