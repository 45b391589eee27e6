use vstd::prelude::*;

use crate::message::data_frame;
use crate::socket_worker::{opt_bytes, receive_all, send_spec, EndpointView, SocketWorker};

verus! {

/// What a peer's traffic comes to at the replication level.
pub enum PeerResult {
    Unknown,
    /// KeyUpdate(key, value, version, client_id)
    KeyUpdate(String, String, u64, u32),
}

/// Why a peer could not take an outbound payload.
#[derive(PartialEq, Eq, Structural, Clone, Copy, Debug)]
pub enum PeerError {
    /// The peer is marked dead and takes no more traffic.
    Dead,
    /// The endpoint has used up its message ids.
    IdsExhausted,
}

/// The mathematical state of a peer.
pub struct PeerView {
    pub address: Seq<char>,
    pub id: u32,
    pub is_dead: bool,
    pub endpoint: EndpointView,
}

/// A remote replica reached through one connection endpoint.
pub struct Peer {
    pub address: String,
    pub id: u32,
    pub is_dead: bool,
    connect: SocketWorker,
}

impl View for Peer {
    type V = PeerView;

    closed spec fn view(&self) -> PeerView {
        PeerView {
            address: self.address@,
            id: self.id,
            is_dead: self.is_dead,
            endpoint: self.connect@,
        }
    }
}

impl Peer {
    /// The endpoint is well formed.
    pub closed spec fn wf(&self) -> bool {
        self.connect.wf()
    }

    /// Whether this peer is reached at `address`.
    pub fn has_address(&self, address: &String) -> (r: bool)
        ensures
            r == (self@.address == address@),
    {
        self.address == *address
    }

    /// The address this peer is reached at.
    pub fn address(&self) -> (r: &String)
        ensures
            r@ == self@.address,
    {
        &self.address
    }

    /// Whether this peer is marked dead.
    pub fn dead(&self) -> (r: bool)
        ensures
            r == self@.is_dead,
    {
        self.is_dead
    }

    /// A live peer with a fresh endpoint, once a handshake with `address`
    /// has succeeded.
    pub fn new(address: String, id: u32) -> (r: Peer)
        ensures
            r.wf(),
            r@.address == address@,
            r@.id == id,
            !r@.is_dead,
            r@.endpoint.outgoing.len() == 0,
            r@.endpoint.seen.is_empty(),
    {
        let connect = SocketWorker::new(address.clone());
        Peer { address, id, is_dead: false, connect }
    }

    /// A live peer around an endpoint that is already set up.
    pub fn new_from_worker(address: String, id: u32, worker: SocketWorker) -> (r: Peer)
        requires
            worker.wf(),
        ensures
            r.wf(),
            r@ == (PeerView { address: address@, id, is_dead: false, endpoint: worker@ }),
    {
        Peer { address, id, is_dead: false, connect: worker }
    }

    /// Queues an encoded key update for reliable delivery to this peer.
    pub fn push_val(&mut self, payload: Vec<u8>) -> (r: Result<(), PeerError>)
        requires
            old(self).wf(),
        ensures
            final(self).wf(),
            r == (if old(self)@.is_dead {
                Err::<(), PeerError>(PeerError::Dead)
            } else if old(self)@.endpoint.message_id == u64::MAX {
                Err(PeerError::IdsExhausted)
            } else {
                Ok(())
            }),
            r is Ok ==> final(self)@ == (PeerView {
                endpoint: EndpointView {
                    outgoing: old(self)@.endpoint.outgoing.push(
                        data_frame(old(self)@.endpoint.message_id, payload@),
                    ),
                    message_id: (old(self)@.endpoint.message_id + 1) as u64,
                    ..old(self)@.endpoint
                },
                ..old(self)@
            }),
            r is Err ==> final(self)@ == old(self)@,
    {
        if self.is_dead {
            return Err(PeerError::Dead);
        }
        if self.connect.next_id() == u64::MAX {
            return Err(PeerError::IdsExhausted);
        }
        self.connect.send_message(payload);
        Ok(())
    }

    /// One tick of the endpoint: hands it the datagrams that arrived, and
    /// returns the payloads surfaced and the datagram to send. A dead peer
    /// does nothing.
    pub fn work(&mut self, inbound: Vec<Vec<u8>>) -> (r: (Vec<Vec<u8>>, Option<Vec<u8>>))
        requires
            old(self).wf(),
        ensures
            final(self).wf(),
            old(self)@.is_dead ==> final(self)@ == old(self)@ && r.0@.len() == 0 && r.1.is_none(),
            !old(self)@.is_dead ==> ({
                let (s1, ps) = receive_all(old(self)@.endpoint, inbound@.map_values(|d: Vec<u8>| d@));
                let (s2, out) = send_spec(s1);
                &&& final(self)@ == (PeerView { endpoint: s2, ..old(self)@ })
                &&& r.0@.map_values(|d: Vec<u8>| d@) == ps
                &&& opt_bytes(r.1) == out
            }),
    {
        if self.is_dead {
            return (Vec::new(), None);
        }
        self.connect.work(inbound)
    }

    /// Marks the peer dead after an unrecoverable transport fault.
    pub fn die(&mut self)
        requires
            old(self).wf(),
        ensures
            final(self).wf(),
            final(self)@ == (PeerView { is_dead: true, ..old(self)@ }),
    {
        self.is_dead = true;
    }
}

} // verus!
