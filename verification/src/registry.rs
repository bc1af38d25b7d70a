//! The session registry: the authoritative in-memory map of live sessions.
//! It is the sole owner of session existence — creation, lookup and deletion
//! all go through it, and every per-session operation reaches the session
//! under the registry's exclusive access, so a delete can never race an
//! attach into deleting a session that just became non-empty.

use vstd::prelude::*;

use crate::connection::has_pid;
use crate::connection::index_of_pid;
use crate::error::HttpError;
use crate::message::Message;
use crate::principal::Principal;
use crate::principal::Role;
use crate::session::attach_outcome;
use crate::session::broadcast_outcome;
use crate::session::detach_outcome;
use crate::session::drained_view;
use crate::session::greeted_attach_outcome;
use crate::session::mark_broken_view;
use crate::session::new_session_view;
use crate::session::send_outcome;
use crate::session::Session;
use crate::session::SessionState;
use crate::session::SessionView;

verus! {

/// Abstract state of the registry: the live sessions and the next identifier
/// to hand out. Identifiers only ever grow, so an id is never reused.
pub ghost struct RegistryView {
    pub sessions: Seq<SessionView>,
    pub next_id: u64,
}

/// Whether a session with identifier `id` is live.
pub open spec fn has_session(sessions: Seq<SessionView>, id: u64) -> bool {
    exists|i: int| 0 <= i < sessions.len() && sessions[i].id == id
}

/// The index of the session with identifier `id`; meaningful when
/// `has_session` holds and the identifiers are unique.
pub open spec fn index_of_session(sessions: Seq<SessionView>, id: u64) -> int {
    choose|i: int| 0 <= i < sessions.len() && sessions[i].id == id
}

/// No two live sessions share an identifier.
pub open spec fn unique_session_ids(sessions: Seq<SessionView>) -> bool {
    forall|i: int, j: int| 0 <= i < j < sessions.len() ==> sessions[i].id != sessions[j].id
}

/// The index `index_of_session` picks is the one and only index of `id` when
/// the identifiers are unique.
pub proof fn lemma_index_of_session(sessions: Seq<SessionView>, id: u64, i: int)
    requires
        unique_session_ids(sessions),
        0 <= i < sessions.len(),
        sessions[i].id == id,
    ensures
        has_session(sessions, id),
        index_of_session(sessions, id) == i,
{
    assert(has_session(sessions, id));
    let j = index_of_session(sessions, id);
    if i != j {
        assert(sessions[i].id != sessions[j].id);
    }
}

/// Creating a session: refused with `Unauthorized` unless the owner is a
/// game-master (nothing is stored then); otherwise a fresh id is allocated
/// and a `Created` session stored under it. `Internal` in the unreachable
/// case that the id space is spent.
pub open spec fn create_outcome(r: RegistryView, owner: Principal) -> (RegistryView, Result<
    u64,
    HttpError,
>) {
    if owner.role != Role::GameMaster {
        (r, Err(HttpError::Unauthorized))
    } else if r.next_id == u64::MAX {
        (r, Err(HttpError::Internal))
    } else {
        (
            RegistryView {
                sessions: r.sessions.push(new_session_view(r.next_id, owner.id)),
                next_id: (r.next_id + 1) as u64,
            },
            Ok(r.next_id),
        )
    }
}

/// Deleting a session: `NotFound` for an unknown id, `Unauthorized` unless
/// the requester is the owning game-master, `Conflict` while any participant
/// is still attached; only then is the session removed. Failures leave the
/// registry untouched.
pub open spec fn delete_outcome(r: RegistryView, id: u64, requester: Principal) -> (
    RegistryView,
    Result<(), HttpError>,
) {
    if !has_session(r.sessions, id) {
        (r, Err(HttpError::NotFound))
    } else {
        let i = index_of_session(r.sessions, id);
        let s = r.sessions[i];
        if requester.id != s.owner || requester.role != Role::GameMaster {
            (r, Err(HttpError::Unauthorized))
        } else if s.conns.len() > 0 {
            (r, Err(HttpError::Conflict))
        } else {
            (RegistryView { sessions: r.sessions.remove(i), next_id: r.next_id }, Ok(()))
        }
    }
}

/// What `list` and `get` report of one session.
#[derive(Clone, Copy, Debug, PartialEq, Eq, Structural)]
pub struct SessionSummary {
    pub id: u64,
    pub state: SessionState,
    pub participants: usize,
}

/// The summary a session is reported as.
pub open spec fn summary_of(s: SessionView) -> SessionSummary {
    SessionSummary { id: s.id, state: s.state, participants: s.participants as usize }
}

/// Replacing a session by one with the same identifier keeps the live
/// identifiers unique.
proof fn lemma_unique_update(sessions: Seq<SessionView>, i: int, s: SessionView)
    requires
        unique_session_ids(sessions),
        0 <= i < sessions.len(),
        s.id == sessions[i].id,
    ensures
        unique_session_ids(sessions.update(i, s)),
{
    let u = sessions.update(i, s);
    assert forall|x: int, y: int| 0 <= x < y < u.len() implies u[x].id != u[y].id by {
        assert(sessions[x].id != sessions[y].id);
    }
}

/// The authoritative map of live sessions.
#[derive(Debug)]
pub struct Registry {
    sessions: Vec<Session>,
    next_id: u64,
}

impl View for Registry {
    type V = RegistryView;

    closed spec fn view(&self) -> RegistryView {
        RegistryView {
            sessions: self.sessions@.map_values(|s: Session| s@),
            next_id: self.next_id,
        }
    }
}

impl Registry {
    #[verifier::type_invariant]
    spec fn wf(self) -> bool {
        &&& unique_session_ids(self@.sessions)
        &&& forall|i: int|
            0 <= i < self@.sessions.len() ==> (#[trigger] self@.sessions[i]).id < self.next_id
        &&& forall|i: int| 0 <= i < self@.sessions.len() ==> (#[trigger] self@.sessions[i]).wf()
        &&& forall|i: int|
            0 <= i < self@.sessions.len() ==> (#[trigger] self@.sessions[i]).state
                != SessionState::Closed
    }

    /// An empty registry.
    pub fn new() -> (r: Registry)
        ensures
            r@.sessions == Seq::<SessionView>::empty(),
            r@.next_id == 0,
    {
        let r = Registry { sessions: Vec::new(), next_id: 0 };
        proof {
            assert(r@.sessions =~= Seq::<SessionView>::empty());
        }
        r
    }

    /// The index of the session with identifier `id`, if it is live.
    fn find_session(&self, id: u64) -> (r: Option<usize>)
        ensures
            match r {
                Some(i) => 0 <= i < self@.sessions.len() && self@.sessions[i as int].id == id,
                None => !has_session(self@.sessions, id),
            },
    {
        let mut i: usize = 0;
        while i < self.sessions.len()
            invariant
                i <= self.sessions.len(),
                forall|j: int| 0 <= j < i ==> self@.sessions[j].id != id,
            decreases self.sessions.len() - i,
        {
            if self.sessions[i].id() == id {
                return Some(i);
            }
            i = i + 1;
        }
        None
    }

    /// Create a session owned by `owner`; only a game-master may.
    pub fn create(&mut self, owner: &Principal) -> (r: Result<u64, HttpError>)
        ensures
            final(self)@ == create_outcome(old(self)@, *owner).0,
            r == create_outcome(old(self)@, *owner).1,
            r is Ok ==> !has_session(old(self)@.sessions, r->Ok_0),
    {
        proof {
            use_type_invariant(&*self);
        }
        if !owner.is_game_master() {
            return Err(HttpError::Unauthorized);
        }
        if self.next_id == u64::MAX {
            return Err(HttpError::Internal);
        }
        let id = self.next_id;
        self.next_id = id + 1;
        let mut sessions: Vec<Session> = Vec::new();
        core::mem::swap(&mut self.sessions, &mut sessions);
        sessions.push(Session::new(id, owner.id));
        proof {
            assert(sessions@.map_values(|s: Session| s@) =~= old(self)@.sessions.push(
                new_session_view(id, owner.id),
            ));
        }
        self.sessions = sessions;
        Ok(id)
    }

    /// A snapshot of every live session: id, state, participant count. The
    /// snapshot shares nothing with the registry's own state.
    pub fn list(&self) -> (r: Vec<SessionSummary>)
        ensures
            r@.len() == self@.sessions.len(),
            forall|i: int| 0 <= i < r@.len() ==> r@[i] == summary_of(self@.sessions[i]),
    {
        let mut r: Vec<SessionSummary> = Vec::new();
        let mut i: usize = 0;
        while i < self.sessions.len()
            invariant
                i <= self.sessions.len(),
                r@.len() == i,
                forall|j: int| 0 <= j < i ==> r@[j] == summary_of(self@.sessions[j]),
            decreases self.sessions.len() - i,
        {
            let s = &self.sessions[i];
            r.push(
                SessionSummary { id: s.id(), state: s.state(), participants: s.participant_count() },
            );
            i = i + 1;
        }
        r
    }

    /// Report the session with identifier `id`; `NotFound` when none is live.
    pub fn get(&self, id: u64) -> (r: Result<SessionSummary, HttpError>)
        ensures
            match r {
                Ok(sum) => has_session(self@.sessions, id) && sum == summary_of(
                    self@.sessions[index_of_session(self@.sessions, id)],
                ),
                Err(e) => e == HttpError::NotFound && !has_session(self@.sessions, id),
            },
    {
        proof {
            use_type_invariant(&*self);
        }
        match self.find_session(id) {
            None => Err(HttpError::NotFound),
            Some(i) => {
                proof {
                    lemma_index_of_session(self@.sessions, id, i as int);
                }
                let s = &self.sessions[i];
                Ok(
                    SessionSummary {
                        id: s.id(),
                        state: s.state(),
                        participants: s.participant_count(),
                    },
                )
            },
        }
    }

    /// Delete the session with identifier `id` on behalf of `requester`.
    /// The participant count is checked under the same exclusive access that
    /// removes the session, so a delete racing an attach fails `Conflict`
    /// rather than deleting a session that just became non-empty. On success
    /// the removed session takes its terminal `Closed` transition before it
    /// is discarded.
    pub fn delete(&mut self, id: u64, requester: &Principal) -> (r: Result<(), HttpError>)
        ensures
            final(self)@ == delete_outcome(old(self)@, id, *requester).0,
            r == delete_outcome(old(self)@, id, *requester).1,
    {
        proof {
            use_type_invariant(&*self);
        }
        match self.find_session(id) {
            None => Err(HttpError::NotFound),
            Some(i) => {
                proof {
                    lemma_index_of_session(self@.sessions, id, i as int);
                }
                let not_owner = requester.id != self.sessions[i].owner();
                if not_owner || !requester.is_game_master() {
                    return Err(HttpError::Unauthorized);
                }
                if self.sessions[i].participant_count() > 0 {
                    return Err(HttpError::Conflict);
                }
                let mut sessions: Vec<Session> = Vec::new();
                core::mem::swap(&mut self.sessions, &mut sessions);
                let mut s = sessions.remove(i);
                let _ = s.close();
                proof {
                    assert(sessions@.map_values(|s: Session| s@) =~= old(self)@.sessions.remove(
                        i as int,
                    ));
                }
                self.sessions = sessions;
                Ok(())
            },
        }
    }

    /// Attach `pid` to the session with identifier `id`.
    pub fn attach(&mut self, id: u64, pid: u64) -> (r: Result<(), HttpError>)
        ensures
            final(self)@.next_id == old(self)@.next_id,
            !has_session(old(self)@.sessions, id) ==> r == Err::<(), HttpError>(
                HttpError::NotFound,
            ) && final(self)@ == old(self)@,
            has_session(old(self)@.sessions, id) ==> ({
                let i = index_of_session(old(self)@.sessions, id);
                &&& r == attach_outcome(old(self)@.sessions[i], pid).1
                &&& final(self)@.sessions == old(self)@.sessions.update(
                    i,
                    attach_outcome(old(self)@.sessions[i], pid).0,
                )
            }),
    {
        proof {
            use_type_invariant(&*self);
        }
        match self.find_session(id) {
            None => Err(HttpError::NotFound),
            Some(i) => {
                proof {
                    lemma_index_of_session(old(self)@.sessions, id, i as int);
                }
                let mut sessions: Vec<Session> = Vec::new();
                core::mem::swap(&mut self.sessions, &mut sessions);
                let mut s = sessions.remove(i);
                let r = s.attach(pid);
                sessions.insert(i, s);
                proof {
                    assert(sessions@.map_values(|x: Session| x@) =~= old(self)@.sessions.update(
                        i as int,
                        s@,
                    ));
                    lemma_unique_update(old(self)@.sessions, i as int, s@);
                }
                self.sessions = sessions;
                r
            },
        }
    }

    /// Attach `pid` to session `id` and queue the greeting frame on the new
    /// connection in the same step.
    pub fn attach_with_greeting(&mut self, id: u64, pid: u64, greeting: &Message) -> (r: Result<
        (),
        HttpError,
    >)
        ensures
            final(self)@.next_id == old(self)@.next_id,
            !has_session(old(self)@.sessions, id) ==> r == Err::<(), HttpError>(
                HttpError::NotFound,
            ) && final(self)@ == old(self)@,
            has_session(old(self)@.sessions, id) ==> ({
                let i = index_of_session(old(self)@.sessions, id);
                &&& r == greeted_attach_outcome(old(self)@.sessions[i], pid, greeting@).1
                &&& final(self)@.sessions == old(self)@.sessions.update(
                    i,
                    greeted_attach_outcome(old(self)@.sessions[i], pid, greeting@).0,
                )
            }),
    {
        proof {
            use_type_invariant(&*self);
        }
        match self.find_session(id) {
            None => Err(HttpError::NotFound),
            Some(i) => {
                proof {
                    lemma_index_of_session(old(self)@.sessions, id, i as int);
                }
                let mut sessions: Vec<Session> = Vec::new();
                core::mem::swap(&mut self.sessions, &mut sessions);
                let mut s = sessions.remove(i);
                let r = s.attach_with_greeting(pid, greeting);
                sessions.insert(i, s);
                proof {
                    assert(sessions@.map_values(|x: Session| x@) =~= old(self)@.sessions.update(
                        i as int,
                        s@,
                    ));
                    lemma_unique_update(old(self)@.sessions, i as int, s@);
                }
                self.sessions = sessions;
                r
            },
        }
    }

    /// Detach `pid` from the session with identifier `id`.
    pub fn detach(&mut self, id: u64, pid: u64) -> (r: Result<(), HttpError>)
        ensures
            final(self)@.next_id == old(self)@.next_id,
            !has_session(old(self)@.sessions, id) ==> r == Err::<(), HttpError>(
                HttpError::NotFound,
            ) && final(self)@ == old(self)@,
            has_session(old(self)@.sessions, id) ==> ({
                let i = index_of_session(old(self)@.sessions, id);
                &&& r == detach_outcome(old(self)@.sessions[i], pid).1
                &&& final(self)@.sessions == old(self)@.sessions.update(
                    i,
                    detach_outcome(old(self)@.sessions[i], pid).0,
                )
            }),
    {
        proof {
            use_type_invariant(&*self);
        }
        match self.find_session(id) {
            None => Err(HttpError::NotFound),
            Some(i) => {
                proof {
                    lemma_index_of_session(old(self)@.sessions, id, i as int);
                }
                let mut sessions: Vec<Session> = Vec::new();
                core::mem::swap(&mut self.sessions, &mut sessions);
                let mut s = sessions.remove(i);
                let r = s.detach(pid);
                sessions.insert(i, s);
                proof {
                    assert(sessions@.map_values(|x: Session| x@) =~= old(self)@.sessions.update(
                        i as int,
                        s@,
                    ));
                    lemma_unique_update(old(self)@.sessions, i as int, s@);
                }
                self.sessions = sessions;
                r
            },
        }
    }

    /// Broadcast `m` to every connection of session `id` except the excluded
    /// one.
    pub fn broadcast(&mut self, id: u64, m: &Message, exclude: Option<u64>) -> (r: Result<
        (),
        HttpError,
    >)
        ensures
            final(self)@.next_id == old(self)@.next_id,
            !has_session(old(self)@.sessions, id) ==> r == Err::<(), HttpError>(
                HttpError::NotFound,
            ) && final(self)@ == old(self)@,
            has_session(old(self)@.sessions, id) ==> ({
                let i = index_of_session(old(self)@.sessions, id);
                &&& r == Ok::<(), HttpError>(())
                &&& final(self)@.sessions == old(self)@.sessions.update(
                    i,
                    broadcast_outcome(old(self)@.sessions[i], m@, exclude),
                )
            }),
    {
        proof {
            use_type_invariant(&*self);
        }
        match self.find_session(id) {
            None => Err(HttpError::NotFound),
            Some(i) => {
                proof {
                    lemma_index_of_session(old(self)@.sessions, id, i as int);
                }
                let mut sessions: Vec<Session> = Vec::new();
                core::mem::swap(&mut self.sessions, &mut sessions);
                let mut s = sessions.remove(i);
                s.broadcast(m, exclude);
                sessions.insert(i, s);
                proof {
                    assert(sessions@.map_values(|x: Session| x@) =~= old(self)@.sessions.update(
                        i as int,
                        s@,
                    ));
                    lemma_unique_update(old(self)@.sessions, i as int, s@);
                }
                self.sessions = sessions;
                Ok(())
            },
        }
    }

    /// Queue `m` for participant `pid` of session `id` alone.
    pub fn send_to(&mut self, id: u64, pid: u64, m: &Message) -> (r: Result<(), HttpError>)
        ensures
            final(self)@.next_id == old(self)@.next_id,
            !has_session(old(self)@.sessions, id) ==> r == Err::<(), HttpError>(
                HttpError::NotFound,
            ) && final(self)@ == old(self)@,
            has_session(old(self)@.sessions, id) ==> ({
                let i = index_of_session(old(self)@.sessions, id);
                &&& r == send_outcome(old(self)@.sessions[i], pid, m@).1
                &&& final(self)@.sessions == old(self)@.sessions.update(
                    i,
                    send_outcome(old(self)@.sessions[i], pid, m@).0,
                )
            }),
    {
        proof {
            use_type_invariant(&*self);
        }
        match self.find_session(id) {
            None => Err(HttpError::NotFound),
            Some(i) => {
                proof {
                    lemma_index_of_session(old(self)@.sessions, id, i as int);
                }
                let mut sessions: Vec<Session> = Vec::new();
                core::mem::swap(&mut self.sessions, &mut sessions);
                let mut s = sessions.remove(i);
                let r = s.send_to(pid, m);
                sessions.insert(i, s);
                proof {
                    assert(sessions@.map_values(|x: Session| x@) =~= old(self)@.sessions.update(
                        i as int,
                        s@,
                    ));
                    lemma_unique_update(old(self)@.sessions, i as int, s@);
                }
                self.sessions = sessions;
                r
            },
        }
    }

    /// Note that `pid`'s transport in session `id` broke.
    pub fn mark_broken(&mut self, id: u64, pid: u64) -> (r: Result<(), HttpError>)
        ensures
            final(self)@.next_id == old(self)@.next_id,
            match r {
                Ok(()) => ({
                    let i = index_of_session(old(self)@.sessions, id);
                    &&& has_session(old(self)@.sessions, id)
                    &&& has_pid(old(self)@.sessions[i].conns, pid)
                    &&& final(self)@.sessions == old(self)@.sessions.update(
                        i,
                        mark_broken_view(old(self)@.sessions[i], pid),
                    )
                }),
                Err(e) => e == HttpError::NotFound && final(self)@ == old(self)@ && (!has_session(
                    old(self)@.sessions,
                    id,
                ) || !has_pid(
                    old(self)@.sessions[index_of_session(old(self)@.sessions, id)].conns,
                    pid,
                )),
            },
    {
        proof {
            use_type_invariant(&*self);
        }
        match self.find_session(id) {
            None => Err(HttpError::NotFound),
            Some(i) => {
                proof {
                    lemma_index_of_session(old(self)@.sessions, id, i as int);
                }
                let mut sessions: Vec<Session> = Vec::new();
                core::mem::swap(&mut self.sessions, &mut sessions);
                let mut s = sessions.remove(i);
                let r = s.mark_broken(pid);
                sessions.insert(i, s);
                proof {
                    assert(sessions@.map_values(|x: Session| x@) =~= old(self)@.sessions.update(
                        i as int,
                        s@,
                    ));
                    if r is Err {
                        assert(sessions@.map_values(|x: Session| x@) =~= old(self)@.sessions);
                    }
                    lemma_unique_update(old(self)@.sessions, i as int, s@);
                }
                self.sessions = sessions;
                r
            },
        }
    }

    /// Hand out everything queued for `pid` in session `id`; the transport
    /// layer writes the returned messages to the wire.
    pub fn drain_outbox(&mut self, id: u64, pid: u64) -> (r: Result<Vec<Message>, HttpError>)
        ensures
            final(self)@.next_id == old(self)@.next_id,
            match r {
                Ok(msgs) => ({
                    let i = index_of_session(old(self)@.sessions, id);
                    &&& has_session(old(self)@.sessions, id)
                    &&& has_pid(old(self)@.sessions[i].conns, pid)
                    &&& msgs@.map_values(|m: Message| m@) == old(self)@.sessions[i].conns[
                        index_of_pid(old(self)@.sessions[i].conns, pid)
                    ].outbox
                    &&& final(self)@.sessions == old(self)@.sessions.update(
                        i,
                        drained_view(old(self)@.sessions[i], pid),
                    )
                }),
                Err(e) => e == HttpError::NotFound && final(self)@ == old(self)@ && (!has_session(
                    old(self)@.sessions,
                    id,
                ) || !has_pid(
                    old(self)@.sessions[index_of_session(old(self)@.sessions, id)].conns,
                    pid,
                )),
            },
    {
        proof {
            use_type_invariant(&*self);
        }
        match self.find_session(id) {
            None => Err(HttpError::NotFound),
            Some(i) => {
                proof {
                    lemma_index_of_session(old(self)@.sessions, id, i as int);
                }
                let mut sessions: Vec<Session> = Vec::new();
                core::mem::swap(&mut self.sessions, &mut sessions);
                let mut s = sessions.remove(i);
                let r = s.drain_outbox(pid);
                sessions.insert(i, s);
                proof {
                    assert(sessions@.map_values(|x: Session| x@) =~= old(self)@.sessions.update(
                        i as int,
                        s@,
                    ));
                    if r is Err {
                        assert(sessions@.map_values(|x: Session| x@) =~= old(self)@.sessions);
                    }
                    lemma_unique_update(old(self)@.sessions, i as int, s@);
                }
                self.sessions = sessions;
                r
            },
        }
    }

    /// Replace session `id`'s opaque game payload with what the rule
    /// collaborator computed.
    pub fn set_payload(&mut self, id: u64, payload: Vec<u8>) -> (r: Result<(), HttpError>)
        ensures
            final(self)@.next_id == old(self)@.next_id,
            !has_session(old(self)@.sessions, id) ==> r == Err::<(), HttpError>(
                HttpError::NotFound,
            ) && final(self)@ == old(self)@,
            has_session(old(self)@.sessions, id) ==> ({
                let i = index_of_session(old(self)@.sessions, id);
                &&& r == Ok::<(), HttpError>(())
                &&& final(self)@.sessions == old(self)@.sessions.update(
                    i,
                    SessionView { payload: payload@, ..old(self)@.sessions[i] },
                )
            }),
    {
        proof {
            use_type_invariant(&*self);
        }
        match self.find_session(id) {
            None => Err(HttpError::NotFound),
            Some(i) => {
                proof {
                    lemma_index_of_session(old(self)@.sessions, id, i as int);
                }
                let mut sessions: Vec<Session> = Vec::new();
                core::mem::swap(&mut self.sessions, &mut sessions);
                let mut s = sessions.remove(i);
                s.set_payload(payload);
                sessions.insert(i, s);
                proof {
                    assert(sessions@.map_values(|x: Session| x@) =~= old(self)@.sessions.update(
                        i as int,
                        s@,
                    ));
                    lemma_unique_update(old(self)@.sessions, i as int, s@);
                }
                self.sessions = sessions;
                Ok(())
            },
        }
    }

    /// Read session `id`'s opaque game payload, for the rule collaborator.
    pub fn payload_of(&self, id: u64) -> (r: Result<&Vec<u8>, HttpError>)
        ensures
            match r {
                Ok(p) => has_session(self@.sessions, id) && p@ == self@.sessions[index_of_session(
                    self@.sessions,
                    id,
                )].payload,
                Err(e) => e == HttpError::NotFound && !has_session(self@.sessions, id),
            },
    {
        proof {
            use_type_invariant(&*self);
        }
        match self.find_session(id) {
            None => Err(HttpError::NotFound),
            Some(i) => {
                proof {
                    lemma_index_of_session(self@.sessions, id, i as int);
                }
                Ok(self.sessions[i].payload())
            },
        }
    }
}

/// Law: a player-role principal can never create a session — the call fails
/// `Unauthorized` and the registry keeps exactly the sessions it had.
pub proof fn lemma_player_cannot_create(r: RegistryView, owner: Principal)
    requires
        owner.role == Role::Player,
    ensures
        create_outcome(r, owner).1 == Err::<u64, HttpError>(HttpError::Unauthorized),
        create_outcome(r, owner).0 == r,
{
}

/// Law: deleting a session that still has participants never removes it —
/// the registry is left unchanged whoever asks, and the owning game-master
/// is told `Conflict`.
pub proof fn lemma_delete_occupied_conflicts(r: RegistryView, id: u64, requester: Principal)
    requires
        has_session(r.sessions, id),
        r.sessions[index_of_session(r.sessions, id)].conns.len() > 0,
    ensures
        delete_outcome(r, id, requester).0 == r,
        requester.id == r.sessions[index_of_session(r.sessions, id)].owner && requester.role
            == Role::GameMaster ==> delete_outcome(r, id, requester).1 == Err::<
            (),
            HttpError,
        >(HttpError::Conflict),
{
}

/// Law: a delete that loses the race against an attach fails. Once an attach
/// on the session has succeeded, a delete of that session leaves the registry
/// unchanged and tells the owning game-master `Conflict`, until someone
/// detaches.
pub proof fn lemma_delete_after_attach_conflicts(
    r: RegistryView,
    id: u64,
    pid: u64,
    requester: Principal,
)
    requires
        unique_session_ids(r.sessions),
        has_session(r.sessions, id),
        attach_outcome(r.sessions[index_of_session(r.sessions, id)], pid).1 is Ok,
    ensures
        ({
            let i = index_of_session(r.sessions, id);
            let r2 = RegistryView {
                sessions: r.sessions.update(i, attach_outcome(r.sessions[i], pid).0),
                next_id: r.next_id,
            };
            &&& delete_outcome(r2, id, requester).0 == r2
            &&& requester.id == r.sessions[i].owner && requester.role == Role::GameMaster
                ==> delete_outcome(r2, id, requester).1 == Err::<(), HttpError>(HttpError::Conflict)
        }),
{
    let i = index_of_session(r.sessions, id);
    let s2 = attach_outcome(r.sessions[i], pid).0;
    let r2 = RegistryView { sessions: r.sessions.update(i, s2), next_id: r.next_id };
    assert(s2.id == id);
    assert(s2.conns.len() > 0);
    assert forall|x: int, y: int| 0 <= x < y < r2.sessions.len() implies r2.sessions[x].id
        != r2.sessions[y].id by {
        assert(r.sessions[x].id != r.sessions[y].id);
    }
    lemma_index_of_session(r2.sessions, id, i);
}

} // verus!
