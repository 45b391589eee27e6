use vstd::prelude::*;

use crate::cell::{local_cell, merge_spec, write_local_spec, CellView, Store};
use crate::convergence::apply_all;
use crate::kv_message::KVMessage;
use crate::message::data_frame;
use crate::peer::{Peer, PeerError, PeerResult, PeerView};
use crate::socket_worker::{opt_bytes, receive_all, send_spec, EndpointView};

verus! {

/// What is known of a configured peer.
#[derive(PartialEq, Eq, Structural, Clone, Copy, Debug)]
pub enum PeerMapState {
    Unknown,
    Live,
    Inactive,
}

/// A configured peer: where it is reached and which replica it is.
pub struct PeerMapItem {
    pub address: String,
    pub client_id: u32,
    pub state: PeerMapState,
}

impl PeerMapItem {
    /// A configured peer, taken to be live until found otherwise.
    pub fn new(address: String, client_id: u32) -> (r: PeerMapItem)
        ensures
            r.address@ == address@,
            r.client_id == client_id,
            r.state == PeerMapState::Live,
    {
        PeerMapItem { address, client_id, state: PeerMapState::Live }
    }
}

/// Why a step of the replication worker did not complete.
#[derive(PartialEq, Eq, Structural, Clone, Copy, Debug)]
pub enum WorkerError {
    /// The key's version cannot move up any more.
    VersionExhausted,
    /// A peer handed over a result that is not a key update.
    UnknownResult,
    /// A live peer could not take the update: its message ids are used up.
    PeerIdsExhausted,
}

/// The mathematical value of a peer result.
pub enum PeerResultView {
    Unknown,
    KeyUpdate(Seq<char>, Seq<char>, u64, u32),
}

impl View for PeerResult {
    type V = PeerResultView;

    open spec fn view(&self) -> PeerResultView {
        match self {
            PeerResult::Unknown => PeerResultView::Unknown,
            PeerResult::KeyUpdate(k, v, ver, o) => PeerResultView::KeyUpdate(k@, v@, *ver, *o),
        }
    }
}

/// The keyed cell that a key update offers to the table.
pub open spec fn update_of(r: PeerResultView) -> (Seq<char>, CellView) {
    match r {
        PeerResultView::KeyUpdate(k, v, ver, o) => (k, CellView { client_id: o, version: ver, value: v }),
        PeerResultView::Unknown => (Seq::empty(), CellView { client_id: 0, version: 0, value: Seq::empty() }),
    }
}

/// The peer after `payload` was offered to it: queued under the next id,
/// unless it is dead or out of ids.
pub open spec fn pushed(p: PeerView, payload: Seq<u8>) -> PeerView {
    if p.is_dead || p.endpoint.message_id == u64::MAX {
        p
    } else {
        PeerView {
            endpoint: EndpointView {
                outgoing: p.endpoint.outgoing.push(data_frame(p.endpoint.message_id, payload)),
                message_id: (p.endpoint.message_id + 1) as u64,
                ..p.endpoint
            },
            ..p
        }
    }
}

/// No peer of `peers` is reached at `a`.
pub open spec fn no_peer_at(peers: Seq<PeerView>, a: Seq<char>) -> bool {
    forall|i: int| 0 <= i < peers.len() ==> (#[trigger] peers[i]).address != a
}

/// Whether a configured entry has no peer at its address.
pub open spec fn unmatched_in(peers: Seq<PeerView>) -> spec_fn((Seq<char>, u32)) -> bool {
    |it: (Seq<char>, u32)| no_peer_at(peers, it.0)
}

/// The mathematical state of the worker.
pub struct WorkerView {
    pub client_id: u32,
    /// Configured peers: address and replica id.
    pub peer_map: Seq<(Seq<char>, u32)>,
    pub peers: Seq<PeerView>,
}

/// The replication worker's state and decisions: which peers exist, what a
/// local write becomes, what goes to whom, and how received updates reach
/// the table. Sockets, the pending-write queue and the loop live with the
/// caller.
pub struct CdsWorker {
    pub client_id: u32,
    peer_map: Vec<PeerMapItem>,
    peers: Vec<Peer>,
}

impl View for CdsWorker {
    type V = WorkerView;

    closed spec fn view(&self) -> WorkerView {
        WorkerView {
            client_id: self.client_id,
            peer_map: self.peer_map@.map_values(|it: PeerMapItem| (it.address@, it.client_id)),
            peers: self.peers@.map_values(|p: Peer| p@),
        }
    }
}

impl CdsWorker {
    /// Every peer's endpoint is well formed.
    pub closed spec fn wf(&self) -> bool {
        forall|i: int| 0 <= i < self.peers@.len() ==> #[trigger] self.peers@[i].wf()
    }

    /// A worker for replica `client_id` with the configured peers `peer_map`
    /// and no connection yet.
    pub fn new(client_id: u32, peer_map: Vec<PeerMapItem>) -> (r: CdsWorker)
        ensures
            r.wf(),
            r@.client_id == client_id,
            r@.peer_map == peer_map@.map_values(|it: PeerMapItem| (it.address@, it.client_id)),
            r@.peers.len() == 0,
    {
        CdsWorker { client_id, peer_map, peers: Vec::new() }
    }

    /// This replica's id.
    pub fn id(&self) -> (r: u32)
        ensures
            r == self@.client_id,
    {
        self.client_id
    }

    /// Offers a foreign update to the table; see `Store::merge_foreign`.
    pub fn set_key_foreign(&self, store: &mut Store, key: String, val: String, client_id: u32, version: u64) -> (r: bool)
        requires
            old(store).wf(),
        ensures
            final(store).wf(),
            final(store)@ == merge_spec(old(store)@, key@, CellView { client_id, version, value: val@ }),
            r == (!old(store)@.contains_key(key@) || crate::cell::cell_beats(
                CellView { client_id, version, value: val@ },
                old(store)@[key@],
            )),
    {
        store.merge_foreign(key, val, client_id, version)
    }

    /// Applies a pending local write to the table and returns the update to
    /// send to the peers. Fails, leaving the table as it was, when the key's
    /// version is already the largest.
    pub fn set_key_local(&self, store: &mut Store, key: String, value: String) -> (r: Result<KVMessage, WorkerError>)
        requires
            old(store).wf(),
        ensures
            final(store).wf(),
            match r {
                Ok(m) => {
                    &&& final(store)@ == write_local_spec(old(store)@, key@, value@, self@.client_id)
                    &&& m.key@ == key@
                    &&& m.value@ == value@
                    &&& m.client_id == self@.client_id
                    &&& m.version == local_cell(old(store)@, key@, value@, self@.client_id).version
                },
                Err(e) => {
                    &&& e == WorkerError::VersionExhausted
                    &&& old(store)@.contains_key(key@)
                    &&& old(store)@[key@].version == u64::MAX
                    &&& final(store)@ == old(store)@
                },
            },
    {
        if !store.can_write_local(&key) {
            return Err(WorkerError::VersionExhausted);
        }
        let ver = store.write_local(key.clone(), value.clone(), self.client_id);
        Ok(KVMessage::new(key, value, self.client_id, ver))
    }

    /// Queues an encoded update to every live peer. Fails when a live peer is
    /// out of message ids; every other live peer still gets the update.
    pub fn push_to_peers(&mut self, payload: &Vec<u8>) -> (r: Result<(), WorkerError>)
        requires
            old(self).wf(),
        ensures
            final(self).wf(),
            final(self)@.client_id == old(self)@.client_id,
            final(self)@.peer_map == old(self)@.peer_map,
            final(self)@.peers.len() == old(self)@.peers.len(),
            forall|i: int|
                0 <= i < old(self)@.peers.len() ==> final(self)@.peers[i] == pushed(
                    #[trigger] old(self)@.peers[i],
                    payload@,
                ),
            r is Err == exists|i: int|
                0 <= i < old(self)@.peers.len() && !(#[trigger] old(self)@.peers[i]).is_dead
                    && old(self)@.peers[i].endpoint.message_id == u64::MAX,
            r is Err ==> r == Err::<(), WorkerError>(WorkerError::PeerIdsExhausted),
    {
        let mut failed = false;
        let mut i: usize = 0;
        while i < self.peers.len()
            invariant
                self.wf(),
                i <= self.peers@.len(),
                self.peers@.len() == old(self).peers@.len(),
                self.client_id == old(self).client_id,
                self.peer_map == old(self).peer_map,
                forall|j: int| 0 <= j < i ==> #[trigger] self@.peers[j] == pushed(old(self)@.peers[j], payload@),
                forall|j: int| i <= j < self.peers@.len() ==> #[trigger] self@.peers[j] == old(self)@.peers[j],
                failed == exists|j: int|
                    0 <= j < i && !(#[trigger] old(self)@.peers[j]).is_dead
                        && old(self)@.peers[j].endpoint.message_id == u64::MAX,
            decreases self.peers@.len() - i,
        {
            let ghost pre = self.peers@;
            let ghost prev = self@.peers;
            assert(prev[i as int] == pre[i as int]@);
            let mut p = self.peers.remove(i);
            let res = p.push_val(payload.clone());
            if let Err(PeerError::IdsExhausted) = res {
                failed = true;
            }
            self.peers.insert(i, p);
            proof {
                assert forall|j: int| 0 <= j < self.peers@.len() implies #[trigger] self.peers@[j].wf() by {
                    if j != i {
                        assert(self.peers@[j] == pre[j]);
                    }
                }
                assert forall|j: int| 0 <= j <= i implies #[trigger] self@.peers[j] == pushed(old(self)@.peers[j], payload@) by {
                    if j < i {
                        assert(self.peers@[j] == pre[j]);
                        assert(prev[j] == pre[j]@);
                    }
                }
                assert forall|j: int| i < j < self.peers@.len() implies #[trigger] self@.peers[j] == old(self)@.peers[j] by {
                    assert(self.peers@[j] == pre[j]);
                    assert(prev[j] == pre[j]@);
                }
                assert(failed == exists|j: int|
                    0 <= j < i + 1 && !(#[trigger] old(self)@.peers[j]).is_dead
                        && old(self)@.peers[j].endpoint.message_id == u64::MAX);
            }
            i += 1;
        }
        proof {
            assert(self@.peer_map == old(self)@.peer_map);
        }
        if failed {
            Err(WorkerError::PeerIdsExhausted)
        } else {
            Ok(())
        }
    }

    /// Merges the updates that a peer handed over, in order. Stops with an
    /// error at the first result that is not a key update; the updates
    /// before it stay applied.
    pub fn consume_peer_result(&self, store: &mut Store, results: Vec<PeerResult>) -> (r: Result<(), WorkerError>)
        requires
            old(store).wf(),
        ensures
            final(store).wf(),
            ({
                let rs = results@.map_values(|x: PeerResult| x@);
                match r {
                    Ok(()) => {
                        &&& forall|j: int| 0 <= j < rs.len() ==> #[trigger] rs[j] is KeyUpdate
                        &&& final(store)@ == apply_all(old(store)@, rs.map_values(|x: PeerResultView| update_of(x)))
                    },
                    Err(e) => {
                        &&& e == WorkerError::UnknownResult
                        &&& exists|i: int| {
                            &&& 0 <= i < rs.len()
                            &&& #[trigger] rs[i] is Unknown
                            &&& forall|j: int| 0 <= j < i ==> #[trigger] rs[j] is KeyUpdate
                            &&& final(store)@ == apply_all(
                                old(store)@,
                                rs.take(i).map_values(|x: PeerResultView| update_of(x)),
                            )
                        }
                    },
                }
            }),
    {
        let ghost rs = results@.map_values(|x: PeerResult| x@);
        let mut i: usize = 0;
        while i < results.len()
            invariant
                store.wf(),
                i <= results@.len(),
                rs == results@.map_values(|x: PeerResult| x@),
                forall|j: int| 0 <= j < i ==> #[trigger] rs[j] is KeyUpdate,
                store@ == apply_all(old(store)@, rs.take(i as int).map_values(|x: PeerResultView| update_of(x))),
            decreases results@.len() - i,
        {
            match &results[i] {
                PeerResult::KeyUpdate(key, value, version, client_id) => {
                    store.merge_foreign(key.clone(), value.clone(), *client_id, *version);
                    proof {
                        let us = rs.take(i + 1).map_values(|x: PeerResultView| update_of(x));
                        assert(us.drop_last() =~= rs.take(i as int).map_values(|x: PeerResultView| update_of(x)));
                    }
                },
                PeerResult::Unknown => {
                    assert(rs[i as int] is Unknown);
                    return Err(WorkerError::UnknownResult);
                },
            }
            i += 1;
        }
        assert(rs.take(results@.len() as int) =~= rs);
        Ok(())
    }

    /// Whether no peer is reached at `address`.
    pub fn dont_have_peer_with_addr(&self, address: &String) -> (r: bool)
        ensures
            r == no_peer_at(self@.peers, address@),
    {
        let mut i: usize = 0;
        while i < self.peers.len()
            invariant
                i <= self.peers@.len(),
                forall|j: int| 0 <= j < i ==> (#[trigger] self@.peers[j]).address != address@,
            decreases self.peers@.len() - i,
        {
            if self.peers[i].has_address(address) {
                assert(self@.peers[i as int].address == address@);
                return false;
            }
            i += 1;
        }
        true
    }

    /// Admits a peer that a handshake produced, unless one is already
    /// reached at its address. Returns whether it was added.
    pub fn accept_new_peer(&mut self, peer: Peer) -> (r: bool)
        requires
            old(self).wf(),
            peer.wf(),
        ensures
            final(self).wf(),
            r == no_peer_at(old(self)@.peers, peer@.address),
            final(self)@ == (if r {
                WorkerView { peers: old(self)@.peers.push(peer@), ..old(self)@ }
            } else {
                old(self)@
            }),
    {
        let fresh = self.dont_have_peer_with_addr(peer.address());
        if fresh {
            self.peers.push(peer);
            proof {
                assert forall|j: int| 0 <= j < self.peers@.len() implies #[trigger] self.peers@[j].wf() by {
                    if j < old(self).peers@.len() {
                        assert(self.peers@[j] == old(self).peers@[j]);
                    }
                }
                assert(self@.peers =~= old(self)@.peers.push(peer@));
            }
        }
        fresh
    }

    /// The configured peers that no current peer is reached at, in
    /// configuration order: those to dial again.
    pub fn regenerate_from_map(&self) -> (r: Vec<(String, u32)>)
        ensures
            r@.map_values(|x: (String, u32)| (x.0@, x.1)) == self@.peer_map.filter(unmatched_in(self@.peers)),
    {
        let ghost pm = self@.peer_map;
        let mut out: Vec<(String, u32)> = Vec::new();
        let mut i: usize = 0;
        while i < self.peer_map.len()
            invariant
                i <= self.peer_map@.len(),
                pm == self@.peer_map,
                out@.map_values(|x: (String, u32)| (x.0@, x.1)) == pm.take(i as int).filter(unmatched_in(self@.peers)),
            decreases self.peer_map@.len() - i,
        {
            let item = &self.peer_map[i];
            let ghost before = out@;
            assert(pm[i as int] == (item.address@, item.client_id));
            proof {
                reveal(Seq::filter);
                assert(pm.take(i + 1).drop_last() =~= pm.take(i as int));
            }
            let keep = self.dont_have_peer_with_addr(&item.address);
            proof {
                let t = pm.take(i + 1);
                assert(t.last() == pm[i as int]);
                assert(keep == unmatched_in(self@.peers)(pm[i as int]));
                assert(t.filter(unmatched_in(self@.peers)) == if unmatched_in(self@.peers)(t.last()) {
                    t.drop_last().filter(unmatched_in(self@.peers)).push(t.last())
                } else {
                    t.drop_last().filter(unmatched_in(self@.peers))
                });
            }
            if keep {
                out.push((item.address.clone(), item.client_id));
                assert(out@.map_values(|x: (String, u32)| (x.0@, x.1)) =~= before.map_values(
                    |x: (String, u32)| (x.0@, x.1),
                ).push(pm[i as int]));
            }
            i += 1;
        }
        assert(pm.take(pm.len() as int) =~= pm);
        out
    }

    /// Drops the peers marked dead, keeping the others in order.
    pub fn prune_dead_peers(&mut self)
        requires
            old(self).wf(),
        ensures
            final(self).wf(),
            final(self)@ == (WorkerView {
                peers: old(self)@.peers.filter(|p: PeerView| !p.is_dead),
                ..old(self)@
            }),
    {
        let ghost all = self@.peers;
        let mut rest: Vec<Peer> = Vec::new();
        std::mem::swap(&mut rest, &mut self.peers);
        let n: usize = rest.len();
        let mut i: usize = 0;
        while rest.len() > 0
            invariant
                all == old(self)@.peers,
                n == all.len(),
                i <= n,
                rest@.len() == n - i,
                forall|j: int| 0 <= j < rest@.len() ==> (#[trigger] rest@[j])@ == all[j + i],
                forall|j: int| 0 <= j < rest@.len() ==> (#[trigger] rest@[j]).wf(),
                forall|j: int| 0 <= j < self.peers@.len() ==> (#[trigger] self.peers@[j]).wf(),
                self.peers@.map_values(|p: Peer| p@) == all.take(i as int).filter(|p: PeerView| !p.is_dead),
                self.client_id == old(self).client_id,
                self.peer_map == old(self).peer_map,
            decreases rest@.len(),
        {
            let ghost pre = rest@;
            let p = rest.remove(0);
            proof {
                reveal(Seq::filter);
                assert(all.take(i + 1).drop_last() =~= all.take(i as int));
                assert(p@ == all[i as int]);
                assert forall|j: int| 0 <= j < rest@.len() implies (#[trigger] rest@[j])@ == all[j + i + 1] by {
                    assert(rest@[j] == pre[j + 1]);
                }
                assert forall|j: int| 0 <= j < rest@.len() implies (#[trigger] rest@[j]).wf() by {
                    assert(rest@[j] == pre[j + 1]);
                }
            }
            if !p.dead() {
                let ghost before = self.peers@;
                self.peers.push(p);
                proof {
                    assert(self.peers@.map_values(|p: Peer| p@) =~= before.map_values(|p: Peer| p@).push(p@));
                    assert forall|j: int| 0 <= j < self.peers@.len() implies (#[trigger] self.peers@[j]).wf() by {
                        if j < before.len() {
                            assert(self.peers@[j] == before[j]);
                        }
                    }
                }
            }
            i += 1;
        }
        assert(all.take(n as int) =~= all);
    }

    /// Number of peers.
    pub fn peer_count(&self) -> (r: usize)
        ensures
            r == self@.peers.len(),
    {
        self.peers.len()
    }

    /// The address of peer `i`.
    pub fn peer_address(&self, i: usize) -> (r: String)
        requires
            i < self@.peers.len(),
        ensures
            r@ == self@.peers[i as int].address,
    {
        let p = &self.peers[i];
        let a = p.address().clone();
        proof {
            assert(self@.peers[i as int] == p@);
        }
        a
    }

    /// One tick of peer `i`; see `Peer::work`.
    pub fn peer_work(&mut self, i: usize, inbound: Vec<Vec<u8>>) -> (r: (Vec<Vec<u8>>, Option<Vec<u8>>))
        requires
            old(self).wf(),
            i < old(self)@.peers.len(),
        ensures
            final(self).wf(),
            final(self)@ == (WorkerView {
                peers: final(self)@.peers,
                ..old(self)@
            }),
            final(self)@.peers == old(self)@.peers.update(i as int, final(self)@.peers[i as int]),
            ({
                let p = old(self)@.peers[i as int];
                let q = final(self)@.peers[i as int];
                if p.is_dead {
                    q == p && r.0@.len() == 0 && r.1.is_none()
                } else {
                    let (s1, ps) = receive_all(p.endpoint, inbound@.map_values(|d: Vec<u8>| d@));
                    let (s2, out) = send_spec(s1);
                    &&& q == (PeerView { endpoint: s2, ..p })
                    &&& r.0@.map_values(|d: Vec<u8>| d@) == ps
                    &&& opt_bytes(r.1) == out
                }
            }),
    {
        let ghost pre = self.peers@;
        let mut p = self.peers.remove(i);
        assert(p == pre[i as int]);
        let r = p.work(inbound);
        self.peers.insert(i, p);
        proof {
            assert forall|j: int| 0 <= j < self.peers@.len() implies #[trigger] self.peers@[j].wf() by {
                if j != i {
                    assert(self.peers@[j] == pre[j]);
                }
            }
            assert(self@.peers =~= old(self)@.peers.update(i as int, self@.peers[i as int]));
        }
        r
    }

    /// Marks peer `i` dead after an unrecoverable transport fault.
    pub fn peer_die(&mut self, i: usize)
        requires
            old(self).wf(),
            i < old(self)@.peers.len(),
        ensures
            final(self).wf(),
            final(self)@ == (WorkerView {
                peers: old(self)@.peers.update(i as int, PeerView { is_dead: true, ..old(self)@.peers[i as int] }),
                ..old(self)@
            }),
    {
        let ghost pre = self.peers@;
        let mut p = self.peers.remove(i);
        assert(p == pre[i as int]);
        p.die();
        self.peers.insert(i, p);
        proof {
            assert forall|j: int| 0 <= j < self.peers@.len() implies #[trigger] self.peers@[j].wf() by {
                if j != i {
                    assert(self.peers@[j] == pre[j]);
                }
            }
            assert(self@.peers =~= old(self)@.peers.update(i as int, PeerView { is_dead: true, ..old(self)@.peers[i as int] }));
        }
    }
}

} // verus!
