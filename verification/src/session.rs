//! One game session: its lifecycle state machine plus the set of attached
//! connections.
//!
//! States move `Created` → `Active` once a connection attaches, back to
//! `Created` when the last one detaches (detachment alone never destroys a
//! session), and to the terminal `Closed` only by an explicit close while no
//! participant remains.

use vstd::prelude::*;

use crate::connection::broadcast_result;
use crate::connection::delivered;
use crate::connection::fresh_conn;
use crate::connection::has_pid;
use crate::connection::index_of_pid;
use crate::connection::lemma_broadcast_pids;
use crate::connection::lemma_index_of_pid;
use crate::connection::lemma_unique_remove;
use crate::connection::unique_pids;
use crate::connection::ConnView;
use crate::connection::ConnectionManager;
use crate::error::HttpError;
use crate::message::Message;

verus! {

/// Lifecycle states of a session.
#[derive(Clone, Copy, Debug, PartialEq, Eq, Structural)]
pub enum SessionState {
    Created,
    Active,
    Closed,
}

/// Abstract state of one session.
pub ghost struct SessionView {
    pub id: u64,
    pub owner: u64,
    pub state: SessionState,
    pub participants: nat,
    pub conns: Seq<ConnView>,
    pub payload: Seq<u8>,
}

impl SessionView {
    /// The session invariant: the participant count tracks the registered
    /// connections exactly, the state mirrors whether any connection is
    /// attached, and no participant holds two connections.
    pub open spec fn wf(self) -> bool {
        &&& self.participants == self.conns.len()
        &&& (self.state == SessionState::Active <==> self.conns.len() > 0)
        &&& unique_pids(self.conns)
    }
}

/// The state of a session fresh out of creation.
pub open spec fn new_session_view(id: u64, owner: u64) -> SessionView {
    SessionView {
        id,
        owner,
        state: SessionState::Created,
        participants: 0,
        conns: Seq::empty(),
        payload: Seq::empty(),
    }
}

/// Attaching `pid`: refused with `Conflict` on a closed session or a
/// duplicate registration; otherwise a fresh connection joins and the
/// session is `Active`.
pub open spec fn attach_outcome(s: SessionView, pid: u64) -> (SessionView, Result<
    (),
    HttpError,
>) {
    if s.state == SessionState::Closed || has_pid(s.conns, pid) {
        (s, Err(HttpError::Conflict))
    } else {
        (
            SessionView {
                id: s.id,
                owner: s.owner,
                state: SessionState::Active,
                participants: s.conns.len() + 1,
                conns: s.conns.push(fresh_conn(pid)),
                payload: s.payload,
            },
            Ok(()),
        )
    }
}

/// Detaching `pid`: `NotFound` when it holds no connection; otherwise its
/// connection leaves, and the session reverts to `Created` when it was the
/// last one.
pub open spec fn detach_outcome(s: SessionView, pid: u64) -> (SessionView, Result<
    (),
    HttpError,
>) {
    if !has_pid(s.conns, pid) {
        (s, Err(HttpError::NotFound))
    } else {
        let conns = s.conns.remove(index_of_pid(s.conns, pid));
        (
            SessionView {
                id: s.id,
                owner: s.owner,
                state: if conns.len() == 0 {
                    SessionState::Created
                } else {
                    s.state
                },
                participants: conns.len(),
                conns,
                payload: s.payload,
            },
            Ok(()),
        )
    }
}

/// Broadcasting `m`: every open, non-excluded connection gets `m` queued,
/// broken ones are detached, and the session reverts to `Created` when that
/// detaches the last connection.
pub open spec fn broadcast_outcome(s: SessionView, m: Seq<u8>, exclude: Option<u64>) -> SessionView {
    let conns = broadcast_result(s.conns, m, exclude);
    SessionView {
        id: s.id,
        owner: s.owner,
        state: if conns.len() == 0 && s.state == SessionState::Active {
            SessionState::Created
        } else {
            s.state
        },
        participants: conns.len(),
        conns,
        payload: s.payload,
    }
}

/// Closing: the terminal transition, allowed only while no participant is
/// attached and the session is not already closed; refused as `Conflict`
/// otherwise.
pub open spec fn close_outcome(s: SessionView) -> (SessionView, Result<(), HttpError>) {
    if s.conns.len() > 0 || s.state == SessionState::Closed {
        (s, Err(HttpError::Conflict))
    } else {
        (
            SessionView {
                id: s.id,
                owner: s.owner,
                state: SessionState::Closed,
                participants: s.participants,
                conns: s.conns,
                payload: s.payload,
            },
            Ok(()),
        )
    }
}

/// Targeted delivery to `pid`: `NotFound` when it holds no connection; a
/// broken transport fails the delivery, detaches the connection and surfaces
/// as `Internal`.
pub open spec fn send_outcome(s: SessionView, pid: u64, m: Seq<u8>) -> (SessionView, Result<
    (),
    HttpError,
>) {
    if !has_pid(s.conns, pid) {
        (s, Err(HttpError::NotFound))
    } else {
        let i = index_of_pid(s.conns, pid);
        if s.conns[i].open {
            (
                SessionView {
                    id: s.id,
                    owner: s.owner,
                    state: s.state,
                    participants: s.participants,
                    conns: s.conns.update(i, delivered(s.conns[i], m)),
                    payload: s.payload,
                },
                Ok(()),
            )
        } else {
            let conns = s.conns.remove(i);
            (
                SessionView {
                    id: s.id,
                    owner: s.owner,
                    state: if conns.len() == 0 {
                        SessionState::Created
                    } else {
                        s.state
                    },
                    participants: conns.len(),
                    conns,
                    payload: s.payload,
                },
                Err(HttpError::Internal),
            )
        }
    }
}

/// `pid`'s connection with its transport noted broken; defined when `pid`
/// holds a connection.
pub open spec fn mark_broken_view(s: SessionView, pid: u64) -> SessionView {
    let i = index_of_pid(s.conns, pid);
    SessionView {
        conns: s.conns.update(
            i,
            ConnView {
                principal_id: s.conns[i].principal_id,
                open: false,
                outbox: s.conns[i].outbox,
            },
        ),
        ..s
    }
}

/// `pid`'s connection with its outbound queue emptied; defined when `pid`
/// holds a connection.
pub open spec fn drained_view(s: SessionView, pid: u64) -> SessionView {
    let i = index_of_pid(s.conns, pid);
    SessionView {
        conns: s.conns.update(
            i,
            ConnView {
                principal_id: s.conns[i].principal_id,
                open: s.conns[i].open,
                outbox: Seq::empty(),
            },
        ),
        ..s
    }
}

/// The session after a gateway attach: a fresh connection for `pid` whose
/// queue already holds the greeting frame sent right after the attach.
pub open spec fn greeted_attach_view(s: SessionView, pid: u64, greeting: Seq<u8>) -> SessionView {
    SessionView {
        state: SessionState::Active,
        participants: s.conns.len() + 1,
        conns: s.conns.push(ConnView { principal_id: pid, open: true, outbox: seq![greeting] }),
        ..s
    }
}

/// A gateway attach: refused exactly as a plain attach is; on success the
/// new connection is attached and greeted in one step.
pub open spec fn greeted_attach_outcome(s: SessionView, pid: u64, greeting: Seq<u8>) -> (
    SessionView,
    Result<(), HttpError>,
) {
    if s.state == SessionState::Closed || has_pid(s.conns, pid) {
        (s, Err(HttpError::Conflict))
    } else {
        (greeted_attach_view(s, pid, greeting), Ok(()))
    }
}

/// One game session and its attached connections.
#[derive(Debug)]
pub struct Session {
    id: u64,
    owner: u64,
    state: SessionState,
    participants: usize,
    manager: ConnectionManager,
    payload: Vec<u8>,
}

impl View for Session {
    type V = SessionView;

    closed spec fn view(&self) -> SessionView {
        SessionView {
            id: self.id,
            owner: self.owner,
            state: self.state,
            participants: self.participants as nat,
            conns: self.manager@,
            payload: self.payload@,
        }
    }
}

impl Session {
    /// The session invariant, lifted to the concrete type.
    pub open spec fn wf(self) -> bool {
        self@.wf()
    }

    /// A fresh session: `Created`, no participants, empty payload.
    pub fn new(id: u64, owner: u64) -> (s: Session)
        ensures
            s@ == new_session_view(id, owner),
            s.wf(),
    {
        let s = Session {
            id,
            owner,
            state: SessionState::Created,
            participants: 0,
            manager: ConnectionManager::new(),
            payload: Vec::new(),
        };
        proof {
            assert(s@.payload =~= Seq::<u8>::empty());
        }
        s
    }

    /// The session's identifier.
    pub fn id(&self) -> (r: u64)
        ensures
            r == self@.id,
    {
        self.id
    }

    /// The principal id of the owning game-master.
    pub fn owner(&self) -> (r: u64)
        ensures
            r == self@.owner,
    {
        self.owner
    }

    /// The current lifecycle state.
    pub fn state(&self) -> (r: SessionState)
        ensures
            r == self@.state,
    {
        self.state
    }

    /// How many participants are attached.
    pub fn participant_count(&self) -> (n: usize)
        ensures
            n == self@.participants,
    {
        self.participants
    }

    /// The opaque game payload, owned by the game-rule collaborator.
    pub fn payload(&self) -> (r: &Vec<u8>)
        ensures
            r@ == self@.payload,
    {
        &self.payload
    }

    /// Replace the game payload; the rule collaborator computed it from the
    /// old payload and an incoming message.
    pub fn set_payload(&mut self, payload: Vec<u8>)
        requires
            old(self).wf(),
        ensures
            final(self).wf(),
            final(self)@ == (SessionView { payload: payload@, ..old(self)@ }),
    {
        self.payload = payload;
    }

    /// Attach `pid`'s connection.
    pub fn attach(&mut self, pid: u64) -> (r: Result<(), HttpError>)
        requires
            old(self).wf(),
        ensures
            final(self).wf(),
            final(self)@ == attach_outcome(old(self)@, pid).0,
            r == attach_outcome(old(self)@, pid).1,
    {
        if matches!(self.state, SessionState::Closed) {
            return Err(HttpError::Conflict);
        }
        match self.manager.register(pid) {
            Err(e) => Err(e),
            Ok(()) => {
                self.participants = self.manager.len();
                self.state = SessionState::Active;
                Ok(())
            },
        }
    }

    /// Attach `pid`'s connection and immediately queue the greeting frame on
    /// it, so the handshake goes out before any other traffic.
    pub fn attach_with_greeting(&mut self, pid: u64, greeting: &Message) -> (r: Result<
        (),
        HttpError,
    >)
        requires
            old(self).wf(),
        ensures
            final(self).wf(),
            final(self)@ == greeted_attach_outcome(old(self)@, pid, greeting@).0,
            r == greeted_attach_outcome(old(self)@, pid, greeting@).1,
    {
        let ghost pre: SessionView = self@;
        match self.attach(pid) {
            Err(e) => Err(e),
            Ok(()) => {
                proof {
                    assert(self@.conns[pre.conns.len() as int] == fresh_conn(pid));
                    lemma_index_of_pid(self@.conns, pid, pre.conns.len() as int);
                }
                let r = self.send_to(pid, greeting);
                proof {
                    assert(r is Ok);
                    assert(self@.conns =~= pre.conns.push(
                        ConnView { principal_id: pid, open: true, outbox: seq![greeting@] },
                    )) by {
                        assert(delivered(fresh_conn(pid), greeting@).outbox =~= seq![greeting@]);
                    }
                    assert(self@ == greeted_attach_view(pre, pid, greeting@));
                }
                Ok(())
            },
        }
    }

    /// Detach `pid`'s connection.
    pub fn detach(&mut self, pid: u64) -> (r: Result<(), HttpError>)
        requires
            old(self).wf(),
        ensures
            final(self).wf(),
            final(self)@ == detach_outcome(old(self)@, pid).0,
            r == detach_outcome(old(self)@, pid).1,
    {
        proof {
            if has_pid(old(self)@.conns, pid) {
                lemma_unique_remove(old(self)@.conns, index_of_pid(old(self)@.conns, pid));
            }
        }
        match self.manager.unregister(pid) {
            Err(e) => Err(e),
            Ok(()) => {
                self.participants = self.manager.len();
                if self.participants == 0 {
                    self.state = SessionState::Created;
                }
                Ok(())
            },
        }
    }

    /// Broadcast `m` to every attached connection except the excluded one.
    pub fn broadcast(&mut self, m: &Message, exclude: Option<u64>)
        requires
            old(self).wf(),
        ensures
            final(self).wf(),
            final(self)@ == broadcast_outcome(old(self)@, m@, exclude),
    {
        proof {
            lemma_broadcast_pids(old(self)@.conns, m@, exclude);
        }
        self.manager.broadcast(m, exclude);
        self.participants = self.manager.len();
        if self.participants == 0 {
            if matches!(self.state, SessionState::Active) {
                self.state = SessionState::Created;
            }
        }
    }

    /// Queue `m` for `pid` alone.
    pub fn send_to(&mut self, pid: u64, m: &Message) -> (r: Result<(), HttpError>)
        requires
            old(self).wf(),
        ensures
            final(self).wf(),
            final(self)@ == send_outcome(old(self)@, pid, m@).0,
            r == send_outcome(old(self)@, pid, m@).1,
    {
        proof {
            if has_pid(old(self)@.conns, pid) {
                lemma_unique_remove(old(self)@.conns, index_of_pid(old(self)@.conns, pid));
            }
        }
        match self.manager.send_to(pid, m) {
            Ok(()) => Ok(()),
            Err(e) => {
                if matches!(e, HttpError::Internal) {
                    self.participants = self.manager.len();
                    if self.participants == 0 {
                        self.state = SessionState::Created;
                    }
                }
                Err(e)
            },
        }
    }

    /// Note that `pid`'s transport broke; its next delivery fails and
    /// detaches it.
    pub fn mark_broken(&mut self, pid: u64) -> (r: Result<(), HttpError>)
        requires
            old(self).wf(),
        ensures
            final(self).wf(),
            match r {
                Ok(()) => has_pid(old(self)@.conns, pid) && final(self)@ == mark_broken_view(
                    old(self)@,
                    pid,
                ),
                Err(e) => e == HttpError::NotFound && !has_pid(old(self)@.conns, pid) && final(self)@ == old(self)@,
            },
    {
        let r = self.manager.mark_broken(pid);
        proof {
            if r is Ok {
                let i = index_of_pid(old(self)@.conns, pid);
                assert forall|x: int, y: int|
                    0 <= x < y < self@.conns.len() implies self@.conns[x].principal_id
                    != self@.conns[y].principal_id by {
                    assert(old(self)@.conns[x].principal_id != old(self)@.conns[y].principal_id);
                }
            }
        }
        r
    }

    /// Hand out everything queued for `pid`, leaving its queue empty.
    pub fn drain_outbox(&mut self, pid: u64) -> (r: Result<Vec<Message>, HttpError>)
        requires
            old(self).wf(),
        ensures
            final(self).wf(),
            match r {
                Ok(msgs) => has_pid(old(self)@.conns, pid) && msgs@.map_values(|m: Message| m@)
                    == old(self)@.conns[index_of_pid(old(self)@.conns, pid)].outbox && final(self)@
                    == drained_view(old(self)@, pid),
                Err(e) => e == HttpError::NotFound && !has_pid(old(self)@.conns, pid) && final(self)@ == old(self)@,
            },
    {
        let r = self.manager.drain_outbox(pid);
        proof {
            if r is Ok {
                assert forall|x: int, y: int|
                    0 <= x < y < self@.conns.len() implies self@.conns[x].principal_id
                    != self@.conns[y].principal_id by {
                    assert(old(self)@.conns[x].principal_id != old(self)@.conns[y].principal_id);
                }
            }
        }
        r
    }

    /// Close the session for good.
    pub fn close(&mut self) -> (r: Result<(), HttpError>)
        requires
            old(self).wf(),
        ensures
            final(self).wf(),
            final(self)@ == close_outcome(old(self)@).0,
            r == close_outcome(old(self)@).1,
    {
        if self.participants > 0 || matches!(self.state, SessionState::Closed) {
            return Err(HttpError::Conflict);
        }
        self.state = SessionState::Closed;
        Ok(())
    }
}

/// One step of the attach/detach history of a session.
pub enum SessionEvent {
    Attach { pid: u64 },
    Detach { pid: u64 },
}

/// The session state after one attach or detach event; a refused event
/// leaves the session as it was.
pub open spec fn apply_event(s: SessionView, ev: SessionEvent) -> SessionView {
    match ev {
        SessionEvent::Attach { pid } => attach_outcome(s, pid).0,
        SessionEvent::Detach { pid } => detach_outcome(s, pid).0,
    }
}

/// The session state after a whole sequence of attach/detach events.
pub open spec fn apply_events(s: SessionView, evs: Seq<SessionEvent>) -> SessionView
    decreases evs.len(),
{
    if evs.len() == 0 {
        s
    } else {
        apply_event(apply_events(s, evs.drop_last()), evs.last())
    }
}

/// Each attach or detach event preserves the session invariant.
pub proof fn lemma_event_preserves_wf(s: SessionView, ev: SessionEvent)
    requires
        s.wf(),
    ensures
        apply_event(s, ev).wf(),
{
    match ev {
        SessionEvent::Attach { pid } => {
            if s.state == SessionState::Closed || has_pid(s.conns, pid) {
            } else {
                let conns = s.conns.push(fresh_conn(pid));
                assert forall|i: int, j: int| 0 <= i < j < conns.len() implies conns[i].principal_id
                    != conns[j].principal_id by {
                    if j < s.conns.len() {
                        assert(s.conns[i].principal_id != s.conns[j].principal_id);
                    } else {
                        assert(conns[i] == s.conns[i]);
                        assert(!has_pid(s.conns, pid));
                    }
                }
            }
        },
        SessionEvent::Detach { pid } => {
            if has_pid(s.conns, pid) {
                let i = index_of_pid(s.conns, pid);
                lemma_unique_remove(s.conns, i);
            }
        },
    }
}

/// Law: over every sequence of attach/detach events, the participant count
/// never drifts — it is a natural number (so it cannot go negative) and it
/// always equals the number of currently registered connections.
pub proof fn lemma_participant_count_consistent(s: SessionView, evs: Seq<SessionEvent>)
    requires
        s.wf(),
    ensures
        apply_events(s, evs).wf(),
        apply_events(s, evs).participants == apply_events(s, evs).conns.len(),
    decreases evs.len(),
{
    if evs.len() == 0 {
    } else {
        lemma_participant_count_consistent(s, evs.drop_last());
        lemma_event_preserves_wf(apply_events(s, evs.drop_last()), evs.last());
    }
}

} // verus!
