//! Per-session connection management: the live set of attached connections,
//! fan-out broadcast, and targeted delivery.
//!
//! Delivery is modelled by an outbound queue per connection: the transport
//! layer drains a connection's queue and writes the bytes to the wire. A
//! connection whose transport has broken (`open == false`) fails delivery;
//! a failed delivery never blocks the others, it only gets the broken
//! connection unregistered.

use vstd::prelude::*;

use crate::error::HttpError;
use crate::message::Message;

verus! {

/// Abstract state of one connection.
pub ghost struct ConnView {
    pub principal_id: u64,
    pub open: bool,
    pub outbox: Seq<Seq<u8>>,
}

/// One attached realtime connection: the participant it belongs to, whether
/// its transport is still usable, and the messages queued for it.
#[derive(Debug)]
pub struct Connection {
    principal_id: u64,
    open: bool,
    outbox: Vec<Message>,
}

impl View for Connection {
    type V = ConnView;

    closed spec fn view(&self) -> ConnView {
        ConnView {
            principal_id: self.principal_id,
            open: self.open,
            outbox: self.outbox@.map_values(|m: Message| m@),
        }
    }
}

/// Whether some connection in `conns` belongs to `pid`.
pub open spec fn has_pid(conns: Seq<ConnView>, pid: u64) -> bool {
    exists|i: int| 0 <= i < conns.len() && conns[i].principal_id == pid
}

/// The index of `pid`'s connection; meaningful when `has_pid` holds and the
/// ids are unique.
pub open spec fn index_of_pid(conns: Seq<ConnView>, pid: u64) -> int {
    choose|i: int| 0 <= i < conns.len() && conns[i].principal_id == pid
}

/// Each participant holds at most one connection.
pub open spec fn unique_pids(conns: Seq<ConnView>) -> bool {
    forall|i: int, j: int|
        0 <= i < j < conns.len() ==> conns[i].principal_id != conns[j].principal_id
}

/// Whether `pid` is the connection a broadcast was asked to skip.
pub open spec fn excluded(pid: u64, exclude: Option<u64>) -> bool {
    match exclude {
        Some(e) => e == pid,
        None => false,
    }
}

/// The connection a fresh registration adds.
pub open spec fn fresh_conn(pid: u64) -> ConnView {
    ConnView { principal_id: pid, open: true, outbox: Seq::empty() }
}

/// `c` with `m` queued on its outbox.
pub open spec fn delivered(c: ConnView, m: Seq<u8>) -> ConnView {
    ConnView { principal_id: c.principal_id, open: c.open, outbox: c.outbox.push(m) }
}

/// The connection set after broadcasting `m`: an excluded connection is left
/// alone, an open one gets `m` queued, and a broken one — where delivery
/// fails — is unregistered.
pub open spec fn broadcast_result(conns: Seq<ConnView>, m: Seq<u8>, exclude: Option<u64>) -> Seq<
    ConnView,
>
    decreases conns.len(),
{
    if conns.len() == 0 {
        Seq::empty()
    } else {
        let c = conns[0];
        let rest = broadcast_result(conns.drop_first(), m, exclude);
        if excluded(c.principal_id, exclude) {
            seq![c] + rest
        } else if c.open {
            seq![delivered(c, m)] + rest
        } else {
            rest
        }
    }
}

/// The index `index_of_pid` picks is the one and only index of `pid` when the
/// ids are unique.
pub proof fn lemma_index_of_pid(conns: Seq<ConnView>, pid: u64, i: int)
    requires
        unique_pids(conns),
        0 <= i < conns.len(),
        conns[i].principal_id == pid,
    ensures
        has_pid(conns, pid),
        index_of_pid(conns, pid) == i,
{
    assert(has_pid(conns, pid));
    let j = index_of_pid(conns, pid);
    if i != j {
        assert(conns[i].principal_id != conns[j].principal_id);
    }
}

/// Removing a connection keeps the remaining ids unique, and removes no other
/// participant.
pub proof fn lemma_unique_remove(conns: Seq<ConnView>, i: int)
    requires
        unique_pids(conns),
        0 <= i < conns.len(),
    ensures
        unique_pids(conns.remove(i)),
        forall|p: u64|
            has_pid(conns.remove(i), p) <==> (has_pid(conns, p) && p != conns[i].principal_id),
{
    let rest = conns.remove(i);
    assert forall|p: u64| has_pid(rest, p) implies has_pid(conns, p) && p
        != conns[i].principal_id by {
        let k = choose|k: int| 0 <= k < rest.len() && rest[k].principal_id == p;
        if k < i {
            assert(conns[k].principal_id == p);
        } else {
            assert(conns[k + 1].principal_id == p);
        }
    }
    assert forall|p: u64| has_pid(conns, p) && p != conns[i].principal_id implies has_pid(
        rest,
        p,
    ) by {
        let k = choose|k: int| 0 <= k < conns.len() && conns[k].principal_id == p;
        if k < i {
            assert(rest[k].principal_id == p);
        } else {
            assert(rest[k - 1].principal_id == p);
        }
    }
}

/// Broadcast neither invents participants nor breaks uniqueness.
pub proof fn lemma_broadcast_pids(conns: Seq<ConnView>, m: Seq<u8>, exclude: Option<u64>)
    ensures
        forall|p: u64| has_pid(broadcast_result(conns, m, exclude), p) ==> has_pid(conns, p),
        unique_pids(conns) ==> unique_pids(broadcast_result(conns, m, exclude)),
    decreases conns.len(),
{
    let out = broadcast_result(conns, m, exclude);
    if conns.len() == 0 {
    } else {
        let c = conns[0];
        let tail = conns.drop_first();
        let rest = broadcast_result(tail, m, exclude);
        lemma_broadcast_pids(tail, m, exclude);
        assert forall|p: u64| has_pid(tail, p) implies has_pid(conns, p) by {
            let k = choose|k: int| 0 <= k < tail.len() && tail[k].principal_id == p;
            assert(conns[k + 1].principal_id == p);
        }
        if excluded(c.principal_id, exclude) || c.open {
            let head = if excluded(c.principal_id, exclude) {
                c
            } else {
                delivered(c, m)
            };
            assert(out == seq![head] + rest);
            assert forall|p: u64| has_pid(out, p) implies has_pid(conns, p) by {
                let k = choose|k: int| 0 <= k < out.len() && out[k].principal_id == p;
                if k == 0 {
                    assert(conns[0].principal_id == p);
                } else {
                    assert(rest[k - 1].principal_id == p);
                    assert(has_pid(rest, p));
                }
            }
            if unique_pids(conns) {
                assert forall|i: int, j: int| 0 <= i < j < out.len() implies out[i].principal_id
                    != out[j].principal_id by {
                    if i == 0 {
                        assert(rest[j - 1].principal_id == out[j].principal_id);
                        assert(has_pid(rest, out[j].principal_id));
                        if out[0].principal_id == out[j].principal_id {
                            assert(has_pid(tail, out[j].principal_id));
                            let k = choose|k: int|
                                0 <= k < tail.len() && tail[k].principal_id
                                    == out[j].principal_id;
                            assert(conns[k + 1].principal_id == conns[0].principal_id);
                        }
                    } else {
                        assert(out[i] == rest[i - 1]);
                        assert(out[j] == rest[j - 1]);
                    }
                }
            }
        } else {
            assert(out == rest);
        }
    }
}

/// A broadcast delivers the message to every connection that was registered,
/// open, and not excluded at the time of the call — even when some other
/// connection's delivery fails.
pub proof fn lemma_broadcast_delivers(conns: Seq<ConnView>, m: Seq<u8>, exclude: Option<u64>)
    ensures
        forall|i: int|
            0 <= i < conns.len() && conns[i].open && !excluded(conns[i].principal_id, exclude)
                ==> #[trigger] broadcast_result(conns, m, exclude).contains(
                delivered(conns[i], m),
            ),
    decreases conns.len(),
{
    let out = broadcast_result(conns, m, exclude);
    if conns.len() == 0 {
    } else {
        let c = conns[0];
        let tail = conns.drop_first();
        let rest = broadcast_result(tail, m, exclude);
        lemma_broadcast_delivers(tail, m, exclude);
        assert forall|i: int|
            0 <= i < conns.len() && conns[i].open && !excluded(
                conns[i].principal_id,
                exclude,
            ) implies #[trigger] out.contains(delivered(conns[i], m)) by {
            if i == 0 {
                assert(out[0] == delivered(c, m));
            } else {
                assert(tail[i - 1] == conns[i]);
                assert(rest.contains(delivered(conns[i], m)));
                let k = choose|k: int| 0 <= k < rest.len() && rest[k] == delivered(conns[i], m);
                if excluded(c.principal_id, exclude) || c.open {
                    assert(out[k + 1] == rest[k]);
                } else {
                    assert(out[k] == rest[k]);
                }
            }
        }
    }
}

/// A broadcast leaves the excluded connection exactly as it was: nothing is
/// queued on it and it stays registered.
pub proof fn lemma_broadcast_spares_excluded(conns: Seq<ConnView>, m: Seq<u8>, exclude: Option<u64>)
    ensures
        forall|i: int|
            0 <= i < conns.len() && excluded(conns[i].principal_id, exclude)
                ==> #[trigger] broadcast_result(conns, m, exclude).contains(conns[i]),
    decreases conns.len(),
{
    let out = broadcast_result(conns, m, exclude);
    if conns.len() == 0 {
    } else {
        let c = conns[0];
        let tail = conns.drop_first();
        let rest = broadcast_result(tail, m, exclude);
        lemma_broadcast_spares_excluded(tail, m, exclude);
        assert forall|i: int|
            0 <= i < conns.len() && excluded(
                conns[i].principal_id,
                exclude,
            ) implies #[trigger] out.contains(conns[i]) by {
            if i == 0 {
                assert(out[0] == c);
            } else {
                assert(tail[i - 1] == conns[i]);
                assert(rest.contains(conns[i]));
                let k = choose|k: int| 0 <= k < rest.len() && rest[k] == conns[i];
                if excluded(c.principal_id, exclude) || c.open {
                    assert(out[k + 1] == rest[k]);
                } else {
                    assert(out[k] == rest[k]);
                }
            }
        }
    }
}

/// A broadcast detaches a broken connection it attempted: after the failed
/// delivery that participant is no longer registered.
pub proof fn lemma_broadcast_detaches_broken(conns: Seq<ConnView>, m: Seq<u8>, exclude: Option<u64>)
    requires
        unique_pids(conns),
    ensures
        forall|i: int|
            0 <= i < conns.len() && !excluded(conns[i].principal_id, exclude) && !conns[i].open
                ==> !has_pid(broadcast_result(conns, m, exclude), #[trigger] conns[i].principal_id),
    decreases conns.len(),
{
    let out = broadcast_result(conns, m, exclude);
    if conns.len() == 0 {
    } else {
        let c = conns[0];
        let tail = conns.drop_first();
        let rest = broadcast_result(tail, m, exclude);
        assert forall|x: int, y: int| 0 <= x < y < tail.len() implies tail[x].principal_id
            != tail[y].principal_id by {
            assert(conns[x + 1].principal_id != conns[y + 1].principal_id);
        }
        lemma_broadcast_detaches_broken(tail, m, exclude);
        lemma_broadcast_pids(tail, m, exclude);
        assert forall|i: int|
            0 <= i < conns.len() && !excluded(conns[i].principal_id, exclude)
                && !conns[i].open implies !has_pid(
            out,
            #[trigger] conns[i].principal_id,
        ) by {
            let p = conns[i].principal_id;
            if i == 0 {
                if has_pid(rest, p) {
                    assert(has_pid(tail, p));
                    let k = choose|k: int| 0 <= k < tail.len() && tail[k].principal_id == p;
                    assert(conns[k + 1].principal_id == conns[0].principal_id);
                }
                assert(out == rest);
            } else {
                assert(tail[i - 1] == conns[i]);
                assert(!has_pid(rest, p));
                if excluded(c.principal_id, exclude) || c.open {
                    if has_pid(out, p) {
                        let k = choose|k: int| 0 <= k < out.len() && out[k].principal_id == p;
                        if k == 0 {
                            assert(conns[0].principal_id == conns[i].principal_id);
                        } else {
                            assert(rest[k - 1].principal_id == p);
                        }
                    }
                } else {
                    assert(out == rest);
                }
            }
        }
    }
}

/// The live set of connections of one session: fan-in targets and fan-out
/// source. Well-formed when no participant holds two connections.
#[derive(Debug)]
pub struct ConnectionManager {
    conns: Vec<Connection>,
}

impl View for ConnectionManager {
    type V = Seq<ConnView>;

    closed spec fn view(&self) -> Seq<ConnView> {
        self.conns@.map_values(|c: Connection| c@)
    }
}

impl ConnectionManager {
    /// Each participant holds at most one connection.
    pub open spec fn wf(self) -> bool {
        unique_pids(self@)
    }

    /// An empty connection set.
    pub fn new() -> (m: ConnectionManager)
        ensures
            m@ == Seq::<ConnView>::empty(),
            m.wf(),
    {
        let m = ConnectionManager { conns: Vec::new() };
        proof {
            assert(m@ =~= Seq::<ConnView>::empty());
        }
        m
    }

    /// How many connections are registered.
    pub fn len(&self) -> (n: usize)
        ensures
            n == self@.len(),
    {
        self.conns.len()
    }

    /// The index of `pid`'s connection, if it is registered.
    fn find_index(&self, pid: u64) -> (r: Option<usize>)
        ensures
            match r {
                Some(i) => 0 <= i < self@.len() && self@[i as int].principal_id == pid,
                None => !has_pid(self@, pid),
            },
    {
        let mut i: usize = 0;
        while i < self.conns.len()
            invariant
                i <= self.conns.len(),
                forall|j: int| 0 <= j < i ==> self@[j].principal_id != pid,
            decreases self.conns.len() - i,
        {
            if self.conns[i].principal_id == pid {
                return Some(i);
            }
            i = i + 1;
        }
        None
    }

    /// Whether `pid` currently holds a connection.
    pub fn contains(&self, pid: u64) -> (r: bool)
        ensures
            r == has_pid(self@, pid),
    {
        self.find_index(pid).is_some()
    }

    /// Register a fresh connection for `pid`. A participant that is already
    /// registered is refused: duplicate registration is a `Conflict`.
    pub fn register(&mut self, pid: u64) -> (r: Result<(), HttpError>)
        requires
            old(self).wf(),
        ensures
            final(self).wf(),
            match r {
                Ok(()) => !has_pid(old(self)@, pid) && final(self)@ == old(self)@.push(
                    fresh_conn(pid),
                ),
                Err(e) => e == HttpError::Conflict && has_pid(old(self)@, pid) && final(self)@
                    == old(self)@,
            },
    {
        if self.contains(pid) {
            return Err(HttpError::Conflict);
        }
        let conn = Connection { principal_id: pid, open: true, outbox: Vec::new() };
        proof {
            assert(conn@ == fresh_conn(pid)) by {
                assert(conn@.outbox =~= Seq::<Seq<u8>>::empty());
            }
        }
        self.conns.push(conn);
        proof {
            assert(self@ =~= old(self)@.push(fresh_conn(pid)));
        }
        Ok(())
    }

    /// Remove `pid`'s connection; `NotFound` when it holds none.
    pub fn unregister(&mut self, pid: u64) -> (r: Result<(), HttpError>)
        requires
            old(self).wf(),
        ensures
            final(self).wf(),
            match r {
                Ok(()) => has_pid(old(self)@, pid) && final(self)@ == old(self)@.remove(
                    index_of_pid(old(self)@, pid),
                ),
                Err(e) => e == HttpError::NotFound && !has_pid(old(self)@, pid) && final(self)@
                    == old(self)@,
            },
    {
        match self.find_index(pid) {
            None => Err(HttpError::NotFound),
            Some(i) => {
                proof {
                    lemma_index_of_pid(old(self)@, pid, i as int);
                    lemma_unique_remove(old(self)@, i as int);
                }
                self.conns.remove(i);
                proof {
                    assert(self@ =~= old(self)@.remove(i as int));
                }
                Ok(())
            },
        }
    }

    /// Queue `m` on `pid`'s connection. `NotFound` when `pid` holds no
    /// connection; a broken transport fails the delivery, which unregisters
    /// the connection and surfaces as `Internal`.
    pub fn send_to(&mut self, pid: u64, m: &Message) -> (r: Result<(), HttpError>)
        requires
            old(self).wf(),
        ensures
            final(self).wf(),
            match r {
                Ok(()) => {
                    let i = index_of_pid(old(self)@, pid);
                    has_pid(old(self)@, pid) && old(self)@[i].open && final(self)@ == old(
                        self,
                    )@.update(i, delivered(old(self)@[i], m@))
                },
                Err(e) => if e == HttpError::NotFound {
                    !has_pid(old(self)@, pid) && final(self)@ == old(self)@
                } else {
                    let i = index_of_pid(old(self)@, pid);
                    e == HttpError::Internal && has_pid(old(self)@, pid) && !old(self)@[i].open
                        && final(self)@ == old(self)@.remove(i)
                },
            },
    {
        match self.find_index(pid) {
            None => Err(HttpError::NotFound),
            Some(i) => {
                proof {
                    lemma_index_of_pid(old(self)@, pid, i as int);
                }
                let mut c = self.conns.remove(i);
                if c.open {
                    c.outbox.push(m.duplicate());
                    proof {
                        assert(c@ == delivered(old(self)@[i as int], m@)) by {
                            assert(c@.outbox =~= old(self)@[i as int].outbox.push(m@));
                        }
                    }
                    self.conns.insert(i, c);
                    proof {
                        assert(self@ =~= old(self)@.update(
                            i as int,
                            delivered(old(self)@[i as int], m@),
                        ));
                        assert forall|x: int, y: int|
                            0 <= x < y < self@.len() implies self@[x].principal_id
                            != self@[y].principal_id by {
                            assert(old(self)@[x].principal_id != old(self)@[y].principal_id);
                        }
                    }
                    Ok(())
                } else {
                    proof {
                        lemma_unique_remove(old(self)@, i as int);
                        assert(self@ =~= old(self)@.remove(i as int));
                    }
                    Err(HttpError::Internal)
                }
            },
        }
    }

    /// Note that `pid`'s transport broke: later deliveries to it fail.
    pub fn mark_broken(&mut self, pid: u64) -> (r: Result<(), HttpError>)
        requires
            old(self).wf(),
        ensures
            final(self).wf(),
            match r {
                Ok(()) => {
                    let i = index_of_pid(old(self)@, pid);
                    has_pid(old(self)@, pid) && final(self)@ == old(self)@.update(
                        i,
                        ConnView {
                            principal_id: old(self)@[i].principal_id,
                            open: false,
                            outbox: old(self)@[i].outbox,
                        },
                    )
                },
                Err(e) => e == HttpError::NotFound && !has_pid(old(self)@, pid) && final(self)@
                    == old(self)@,
            },
    {
        match self.find_index(pid) {
            None => Err(HttpError::NotFound),
            Some(i) => {
                proof {
                    lemma_index_of_pid(old(self)@, pid, i as int);
                }
                let mut c = self.conns.remove(i);
                c.open = false;
                self.conns.insert(i, c);
                proof {
                    assert(self@ =~= old(self)@.update(i as int, c@));
                    assert forall|x: int, y: int|
                        0 <= x < y < self@.len() implies self@[x].principal_id
                        != self@[y].principal_id by {
                        assert(old(self)@[x].principal_id != old(self)@[y].principal_id);
                    }
                }
                Ok(())
            },
        }
    }

    /// Hand out everything queued for `pid`, leaving its queue empty; the
    /// transport layer writes the returned messages to the wire.
    pub fn drain_outbox(&mut self, pid: u64) -> (r: Result<Vec<Message>, HttpError>)
        requires
            old(self).wf(),
        ensures
            final(self).wf(),
            match r {
                Ok(msgs) => {
                    let i = index_of_pid(old(self)@, pid);
                    has_pid(old(self)@, pid) && msgs@.map_values(|m: Message| m@) == old(
                        self,
                    )@[i].outbox && final(self)@ == old(self)@.update(
                        i,
                        ConnView {
                            principal_id: old(self)@[i].principal_id,
                            open: old(self)@[i].open,
                            outbox: Seq::empty(),
                        },
                    )
                },
                Err(e) => e == HttpError::NotFound && !has_pid(old(self)@, pid) && final(self)@
                    == old(self)@,
            },
    {
        match self.find_index(pid) {
            None => Err(HttpError::NotFound),
            Some(i) => {
                proof {
                    lemma_index_of_pid(old(self)@, pid, i as int);
                }
                let mut c = self.conns.remove(i);
                let mut msgs: Vec<Message> = Vec::new();
                core::mem::swap(&mut c.outbox, &mut msgs);
                self.conns.insert(i, c);
                proof {
                    assert(c@.outbox =~= Seq::<Seq<u8>>::empty());
                    assert(self@ =~= old(self)@.update(i as int, c@));
                    assert forall|x: int, y: int|
                        0 <= x < y < self@.len() implies self@[x].principal_id
                        != self@[y].principal_id by {
                        assert(old(self)@[x].principal_id != old(self)@[y].principal_id);
                    }
                }
                Ok(msgs)
            },
        }
    }

    /// Broadcast `m` to every registered connection except the excluded one.
    /// Open connections get `m` queued; broken ones fail delivery and are
    /// unregistered, without disturbing the rest.
    pub fn broadcast(&mut self, m: &Message, exclude: Option<u64>)
        requires
            old(self).wf(),
        ensures
            final(self).wf(),
            final(self)@ == broadcast_result(old(self)@, m@, exclude),
    {
        let ghost orig: Seq<ConnView> = self@;
        let mut pending: Vec<Connection> = Vec::new();
        core::mem::swap(&mut self.conns, &mut pending);
        proof {
            assert(self@ =~= Seq::<ConnView>::empty());
            assert(self@ + broadcast_result(pending@.map_values(|c: Connection| c@), m@, exclude)
                =~= broadcast_result(orig, m@, exclude));
        }
        while pending.len() > 0
            invariant
                self@ + broadcast_result(pending@.map_values(|c: Connection| c@), m@, exclude)
                    == broadcast_result(orig, m@, exclude),
            decreases pending.len(),
        {
            let ghost before: Seq<ConnView> = pending@.map_values(|c: Connection| c@);
            let ghost done: Seq<ConnView> = self@;
            let mut c = pending.remove(0);
            proof {
                assert(pending@.map_values(|c: Connection| c@) =~= before.drop_first());
            }
            let ghost rest: Seq<ConnView> = broadcast_result(before.drop_first(), m@, exclude);
            let skip = match exclude {
                Some(e) => c.principal_id == e,
                None => false,
            };
            if skip {
                proof {
                    assert(broadcast_result(before, m@, exclude) == seq![before[0]] + rest);
                }
                self.conns.push(c);
                proof {
                    assert(self@ =~= done.push(before[0]));
                    assert(self@ + rest =~= done + broadcast_result(before, m@, exclude));
                }
            } else if c.open {
                proof {
                    assert(broadcast_result(before, m@, exclude) == seq![delivered(before[0], m@)]
                        + rest);
                }
                c.outbox.push(m.duplicate());
                proof {
                    assert(c@ == delivered(before[0], m@)) by {
                        assert(c@.outbox =~= before[0].outbox.push(m@));
                    }
                }
                self.conns.push(c);
                proof {
                    assert(self@ =~= done.push(delivered(before[0], m@)));
                    assert(self@ + rest =~= done + broadcast_result(before, m@, exclude));
                }
            } else {
                proof {
                    assert(broadcast_result(before, m@, exclude) == rest);
                }
            }
        }
        proof {
            assert(pending@.map_values(|c: Connection| c@) =~= Seq::<ConnView>::empty());
            assert(self@ =~= broadcast_result(orig, m@, exclude));
            lemma_broadcast_pids(orig, m@, exclude);
        }
    }
}

} // verus!
