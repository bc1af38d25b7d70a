//! Realtime gateway decisions. The transport layer accepts the persistent
//! connection upgrade, resolves the presented token to a principal (or to
//! nothing, when the token is bad) and reads frames off the wire; this module
//! decides what each of those events does to the session core. Any failure
//! rejects the upgrade before anything is attached.

use vstd::prelude::*;

use crate::error::HttpError;
use crate::message::Message;
use crate::principal::Principal;
use crate::registry::has_session;
use crate::registry::index_of_session;
use crate::registry::Registry;
use crate::session::greeted_attach_outcome;

verus! {

/// An inbound frame, as the transport hands it over: game traffic, an
/// orderly close, or transport housekeeping (pings and the like).
pub enum Frame {
    Data(Message),
    Close,
    Control,
}

/// What the read loop does with one inbound frame.
#[derive(Clone, Copy, Debug, PartialEq, Eq, Structural)]
pub enum FrameAction {
    /// Hand the payload to the rule collaborator and broadcast its output.
    Deliver,
    /// Detach the connection and tear the transport down.
    Detach,
    /// Nothing; the transport handles it by itself.
    Ignore,
}

/// The action each kind of frame asks for.
pub open spec fn spec_frame_action(f: Frame) -> FrameAction {
    match f {
        Frame::Data(_) => FrameAction::Deliver,
        Frame::Close => FrameAction::Detach,
        Frame::Control => FrameAction::Ignore,
    }
}

/// Decide what one inbound frame does: data frames carry session messages,
/// a close frame detaches, anything else is left to the transport.
pub fn frame_action(f: &Frame) -> (a: FrameAction)
    ensures
        a == spec_frame_action(*f),
{
    match f {
        Frame::Data(_) => FrameAction::Deliver,
        Frame::Close => FrameAction::Detach,
        Frame::Control => FrameAction::Ignore,
    }
}

/// Authorize a connection upgrade and bind it to its session.
///
/// The token was already resolved outside the core: `principal` is `None`
/// for a bad or expired token, and the upgrade is then rejected
/// `Unauthorized` before `attach` is ever reached — no session changes. An
/// unknown session rejects with `NotFound`, a closed session or a duplicate
/// attach with `Conflict`, all without attaching. On success the connection
/// is attached and the greeting frame is queued on it, ahead of any other
/// traffic.
pub fn authorize_and_attach(
    reg: &mut Registry,
    principal: Option<Principal>,
    session_id: u64,
    greeting: &Message,
) -> (r: Result<(), HttpError>)
    ensures
        final(reg)@.next_id == old(reg)@.next_id,
        principal is None ==> r == Err::<(), HttpError>(HttpError::Unauthorized) && final(reg)@
            == old(reg)@,
        principal is Some && !has_session(old(reg)@.sessions, session_id) ==> r == Err::<
            (),
            HttpError,
        >(HttpError::NotFound) && final(reg)@ == old(reg)@,
        principal is Some && has_session(old(reg)@.sessions, session_id) ==> ({
            let i = index_of_session(old(reg)@.sessions, session_id);
            let outcome = greeted_attach_outcome(
                old(reg)@.sessions[i],
                principal->0.id,
                greeting@,
            );
            &&& r == outcome.1
            &&& final(reg)@.sessions == old(reg)@.sessions.update(i, outcome.0)
        }),
{
    match principal {
        None => Err(HttpError::Unauthorized),
        Some(p) => reg.attach_with_greeting(session_id, p.id, greeting),
    }
}

} // verus!
