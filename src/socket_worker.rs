use std::collections::VecDeque;

use vstd::prelude::*;

use crate::message::{
    ack_frame, data_frame, frame_bytes, hash_ok, lemma_frame_round_trip, parse_control, parse_frame,
    ControlMessage, Message, MessageView,
};

verus! {

/// The mathematical state of a connection endpoint.
pub struct EndpointView {
    /// Frames waiting to be sent, head first.
    pub outgoing: Seq<MessageView>,
    /// Ids of the data frames already surfaced.
    pub seen: Set<u64>,
    /// The id that the next outbound data frame gets.
    pub message_id: u64,
}

/// What one inbound datagram came to.
pub enum ReceiveResult {
    /// A new data frame: its payload is surfaced.
    Payload(Vec<u8>),
    /// A control frame, handled.
    Ctrl,
    /// A data frame whose checksum failed: dropped without an acknowledgment.
    Bad,
    /// A data frame already surfaced: acknowledged again, not surfaced.
    Skip,
    /// Not a frame, or a control frame of an unknown kind.
    Invalid,
}

/// The mathematical value of a `ReceiveResult`.
pub enum ReceivedView {
    Payload(Seq<u8>),
    Ctrl,
    Bad,
    Skip,
    Invalid,
}

impl View for ReceiveResult {
    type V = ReceivedView;

    open spec fn view(&self) -> ReceivedView {
        match self {
            ReceiveResult::Payload(d) => ReceivedView::Payload(d@),
            ReceiveResult::Ctrl => ReceivedView::Ctrl,
            ReceiveResult::Bad => ReceivedView::Bad,
            ReceiveResult::Skip => ReceivedView::Skip,
            ReceiveResult::Invalid => ReceivedView::Invalid,
        }
    }
}

/// `q` without its first frame whose id is `id`; `q` itself when there is none.
pub open spec fn without_id(q: Seq<MessageView>, id: u64) -> Seq<MessageView>
    decreases q.len(),
{
    if q.len() == 0 {
        q
    } else if q[0].id == id {
        q.drop_first()
    } else {
        seq![q[0]] + without_id(q.drop_first(), id)
    }
}

/// The endpoint after datagram `d` came in, and what it came to.
pub open spec fn receive_spec(s: EndpointView, d: Seq<u8>) -> (EndpointView, ReceivedView) {
    match parse_frame(d) {
        None => (s, ReceivedView::Invalid),
        Some(m) => if m.id == 0 {
            match parse_control(m.data) {
                Some(ControlMessage::Acc { id }) => (
                    EndpointView { outgoing: without_id(s.outgoing, id), ..s },
                    ReceivedView::Ctrl,
                ),
                None => (s, ReceivedView::Invalid),
            }
        } else if !hash_ok(m) {
            (s, ReceivedView::Bad)
        } else if s.seen.contains(m.id) {
            (
                EndpointView { outgoing: seq![ack_frame(m.id)] + s.outgoing, ..s },
                ReceivedView::Skip,
            )
        } else {
            (
                EndpointView {
                    outgoing: seq![ack_frame(m.id)] + s.outgoing,
                    seen: s.seen.insert(m.id),
                    ..s
                },
                ReceivedView::Payload(m.data),
            )
        },
    }
}

/// The endpoint after the datagrams `ds` came in, in order, and the payloads
/// surfaced on the way.
pub open spec fn receive_all(s: EndpointView, ds: Seq<Seq<u8>>) -> (EndpointView, Seq<Seq<u8>>)
    decreases ds.len(),
{
    if ds.len() == 0 {
        (s, Seq::empty())
    } else {
        let (s1, ps) = receive_all(s, ds.drop_last());
        let (s2, r) = receive_spec(s1, ds.last());
        match r {
            ReceivedView::Payload(p) => (s2, ps.push(p)),
            _ => (s2, ps),
        }
    }
}

/// One send step: the head of the queue goes out; a data frame goes back to
/// the tail until it is acknowledged, a control frame is dropped.
pub open spec fn send_spec(s: EndpointView) -> (EndpointView, Option<Seq<u8>>) {
    if s.outgoing.len() == 0 {
        (s, None)
    } else {
        let head = s.outgoing[0];
        let rest = s.outgoing.drop_first();
        (
            EndpointView { outgoing: if head.id != 0 { rest.push(head) } else { rest }, ..s },
            Some(frame_bytes(head)),
        )
    }
}

/// The endpoint after `n` send steps with nothing received.
pub open spec fn send_n(s: EndpointView, n: nat) -> EndpointView
    decreases n,
{
    if n == 0 {
        s
    } else {
        send_spec(send_n(s, (n - 1) as nat)).0
    }
}

/// The bytes that an optional datagram holds.
pub open spec fn opt_bytes(o: Option<Vec<u8>>) -> Option<Seq<u8>> {
    match o {
        Some(v) => Some(v@),
        None => None,
    }
}

/// One end of a reliable channel over datagrams: frames outbound payloads,
/// retransmits them until acknowledged, acknowledges and deduplicates
/// inbound ones. The datagrams themselves are moved by the caller.
#[derive(Debug)]
pub struct SocketWorker {
    pub address: String,
    outgoing: VecDeque<Message>,
    incoming: Vec<u64>,
    message_id: u64,
}

impl View for SocketWorker {
    type V = EndpointView;

    closed spec fn view(&self) -> EndpointView {
        EndpointView {
            outgoing: self.outgoing@.map_values(|m: Message| m@),
            seen: Set::new(|x: u64| self.incoming@.contains(x)),
            message_id: self.message_id,
        }
    }
}

proof fn lemma_without_id_at(q: Seq<MessageView>, id: u64, i: int)
    requires
        0 <= i <= q.len(),
        forall|j: int| 0 <= j < i ==> q[j].id != id,
        i < q.len() ==> q[i].id == id,
    ensures
        without_id(q, id) == (if i < q.len() { q.remove(i) } else { q }),
    decreases q.len(),
{
    if q.len() > 0 {
        if i == 0 {
            assert(q.drop_first() =~= q.remove(0));
        } else {
            let t = q.drop_first();
            lemma_without_id_at(t, id, i - 1);
            if i < q.len() {
                assert(seq![q[0]] + t.remove(i - 1) =~= q.remove(i));
            } else {
                assert(seq![q[0]] + t =~= q);
            }
        }
    }
}

impl SocketWorker {
    /// The id counter starts at 1: id 0 is reserved for control frames.
    pub closed spec fn wf(&self) -> bool {
        self.message_id >= 1
    }

    /// The peer address that datagrams go to.
    pub closed spec fn address_view(&self) -> Seq<char> {
        self.address@
    }

    /// An endpoint for the peer at `address`, with nothing queued or seen.
    pub fn new(address: String) -> (r: SocketWorker)
        ensures
            r.wf(),
            r.address_view() == address@,
            r@.outgoing.len() == 0,
            r@.seen.is_empty(),
            r@.message_id == 1,
    {
        let r = SocketWorker {
            address,
            outgoing: VecDeque::new(),
            incoming: Vec::new(),
            message_id: 1,
        };
        assert(r@.seen =~= Set::<u64>::empty());
        r
    }

    /// The id that the next outbound data frame will get.
    pub fn next_id(&self) -> (r: u64)
        ensures
            r == self@.message_id,
    {
        self.message_id
    }

    /// Number of frames waiting to be sent.
    pub fn pending(&self) -> (r: usize)
        ensures
            r == self@.outgoing.len(),
    {
        self.outgoing.len()
    }

    /// Frames `msg` under the next id and queues it at the tail.
    pub fn send_message(&mut self, msg: Vec<u8>)
        requires
            old(self).wf(),
            old(self)@.message_id < u64::MAX,
        ensures
            final(self).wf(),
            final(self).address_view() == old(self).address_view(),
            final(self)@ == (EndpointView {
                outgoing: old(self)@.outgoing.push(data_frame(old(self)@.message_id, msg@)),
                message_id: (old(self)@.message_id + 1) as u64,
                ..old(self)@
            }),
    {
        let ghost payload = msg@;
        let msg = Message::new(self.message_id, msg);
        self.message_id = self.message_id + 1;
        self.outgoing.push_back(msg);
        proof {
            assert(self@.outgoing =~= old(self)@.outgoing.push(data_frame(old(self)@.message_id, payload)));
            assert(self@.seen =~= old(self)@.seen);
        }
    }

    /// Queues an acknowledgment of `id` at the head: acknowledgments go
    /// before retransmissions.
    fn send_acc_message(&mut self, id: u64)
        ensures
            final(self).address_view() == old(self).address_view(),
            final(self).message_id == old(self).message_id,
            final(self).incoming == old(self).incoming,
            final(self)@.outgoing == seq![ack_frame(id)] + old(self)@.outgoing,
    {
        let msg = Message::new_acc(id);
        self.outgoing.push_front(msg);
        assert(self@.outgoing =~= seq![ack_frame(id)] + old(self)@.outgoing);
    }

    /// Handles an acknowledgment of `id`: removes the first queued frame
    /// with that id, if any.
    fn handle_ctrl(&mut self, id: u64)
        ensures
            final(self).address_view() == old(self).address_view(),
            final(self).message_id == old(self).message_id,
            final(self).incoming == old(self).incoming,
            final(self)@.outgoing == without_id(old(self)@.outgoing, id),
    {
        let ghost q = self@.outgoing;
        let mut i: usize = 0;
        while i < self.outgoing.len()
            invariant
                i <= self.outgoing@.len(),
                *self == *old(self),
                q == self.outgoing@.map_values(|m: Message| m@),
                forall|j: int| 0 <= j < i ==> q[j].id != id,
            decreases self.outgoing@.len() - i,
        {
            if self.outgoing[i].id == id {
                proof {
                    lemma_without_id_at(q, id, i as int);
                }
                let _ = self.outgoing.remove(i);
                assert(self@.outgoing =~= q.remove(i as int));
                return;
            }
            i += 1;
        }
        proof {
            lemma_without_id_at(q, id, i as int);
        }
    }

    fn has_seen(&self, id: u64) -> (r: bool)
        ensures
            r == self@.seen.contains(id),
    {
        let mut i: usize = 0;
        while i < self.incoming.len()
            invariant
                i <= self.incoming@.len(),
                forall|j: int| 0 <= j < i ==> self.incoming@[j] != id,
            decreases self.incoming@.len() - i,
        {
            if self.incoming[i] == id {
                return true;
            }
            i += 1;
        }
        false
    }

    /// Handles one inbound datagram.
    pub fn receive(&mut self, datagram: &[u8]) -> (r: ReceiveResult)
        requires
            old(self).wf(),
        ensures
            final(self).wf(),
            final(self).address_view() == old(self).address_view(),
            (final(self)@, r@) == receive_spec(old(self)@, datagram@),
    {
        match Message::deserialize(datagram) {
            None => ReceiveResult::Invalid,
            Some(msg) => {
                if msg.id == 0 {
                    match msg.get_control() {
                        Some(ControlMessage::Acc { id }) => {
                            self.handle_ctrl(id);
                            assert(self@.seen =~= old(self)@.seen);
                            ReceiveResult::Ctrl
                        },
                        None => ReceiveResult::Invalid,
                    }
                } else if !msg.check_hash() {
                    ReceiveResult::Bad
                } else {
                    self.send_acc_message(msg.id);
                    assert(self@.seen =~= old(self)@.seen);
                    if self.has_seen(msg.id) {
                        ReceiveResult::Skip
                    } else {
                        self.incoming.push(msg.id);
                        proof {
                            assert forall|x: u64| #[trigger] self@.seen.contains(x) == old(self)@.seen.insert(msg.id).contains(x) by {
                                if old(self).incoming@.contains(x) {
                                    let j = choose|j: int| 0 <= j < old(self).incoming@.len() && old(self).incoming@[j] == x;
                                    assert(self.incoming@[j] == x);
                                }
                                if x == msg.id {
                                    assert(self.incoming@[self.incoming@.len() - 1] == x);
                                }
                                if self.incoming@.contains(x) && x != msg.id {
                                    let j = choose|j: int| 0 <= j < self.incoming@.len() && self.incoming@[j] == x;
                                    assert(old(self).incoming@[j] == x);
                                }
                            }
                            assert(self@.seen =~= old(self)@.seen.insert(msg.id));
                        }
                        ReceiveResult::Payload(msg.data)
                    }
                }
            },
        }
    }

    /// One send step: returns the datagram to put on the wire, if any.
    pub fn send(&mut self) -> (r: Option<Vec<u8>>)
        requires
            old(self).wf(),
        ensures
            final(self).wf(),
            final(self).address_view() == old(self).address_view(),
            (final(self)@, opt_bytes(r)) == send_spec(old(self)@),
    {
        match self.outgoing.pop_front() {
            None => None,
            Some(msg) => {
                let bytes = msg.serialize();
                let ghost head = msg@;
                if msg.id != 0 {
                    self.outgoing.push_back(msg);
                }
                proof {
                    let q = old(self)@.outgoing;
                    if head.id != 0 {
                        assert(self@.outgoing =~= q.drop_first().push(head));
                    } else {
                        assert(self@.outgoing =~= q.drop_first());
                    }
                    assert(self@.seen =~= old(self)@.seen);
                }
                Some(bytes)
            },
        }
    }

    /// One tick: handles every datagram of `inbound` in order, then takes one
    /// send step. Returns the payloads surfaced, in order, and the datagram to
    /// send, if any.
    pub fn work(&mut self, inbound: Vec<Vec<u8>>) -> (r: (Vec<Vec<u8>>, Option<Vec<u8>>))
        requires
            old(self).wf(),
        ensures
            final(self).wf(),
            final(self).address_view() == old(self).address_view(),
            ({
                let (s1, ps) = receive_all(old(self)@, inbound@.map_values(|d: Vec<u8>| d@));
                let (s2, out) = send_spec(s1);
                &&& final(self)@ == s2
                &&& r.0@.map_values(|d: Vec<u8>| d@) == ps
                &&& opt_bytes(r.1) == out
            }),
    {
        let ghost ds = inbound@.map_values(|d: Vec<u8>| d@);
        let mut msgs: Vec<Vec<u8>> = Vec::new();
        let mut i: usize = 0;
        while i < inbound.len()
            invariant
                self.wf(),
                self.address_view() == old(self).address_view(),
                i <= inbound@.len(),
                ds == inbound@.map_values(|d: Vec<u8>| d@),
                ({
                    let (s1, ps) = receive_all(old(self)@, ds.subrange(0, i as int));
                    &&& self@ == s1
                    &&& msgs@.map_values(|d: Vec<u8>| d@) == ps
                }),
            decreases inbound@.len() - i,
        {
            let r = self.receive(inbound[i].as_slice());
            proof {
                assert(ds.subrange(0, i + 1).drop_last() =~= ds.subrange(0, i as int));
            }
            match r {
                ReceiveResult::Payload(p) => {
                    let ghost before = msgs@;
                    msgs.push(p);
                    assert(msgs@.map_values(|d: Vec<u8>| d@) =~= before.map_values(|d: Vec<u8>| d@).push(p@));
                },
                _ => {},
            }
            i += 1;
        }
        assert(ds.subrange(0, inbound@.len() as int) =~= ds);
        let out = self.send();
        (msgs, out)
    }
}

/// **Duplicate suppression.** The same data frame delivered twice surfaces its
/// payload once and queues two acknowledgments.
pub proof fn lemma_duplicate_suppression(s: EndpointView, m: MessageView)
    requires
        m.id != 0,
        hash_ok(m),
        !s.seen.contains(m.id),
    ensures
        ({
            let d = frame_bytes(m);
            let (s1, r1) = receive_spec(s, d);
            let (s2, r2) = receive_spec(s1, d);
            &&& r1 == ReceivedView::Payload(m.data)
            &&& r2 == ReceivedView::Skip
            &&& s2.outgoing == seq![ack_frame(m.id), ack_frame(m.id)] + s.outgoing
            &&& s2.seen == s.seen.insert(m.id)
        }),
{
    lemma_frame_round_trip(m);
    let d = frame_bytes(m);
    let s1 = receive_spec(s, d).0;
    assert(receive_spec(s1, d).0.outgoing =~= seq![ack_frame(m.id), ack_frame(m.id)] + s.outgoing);
}

/// A send step never drops a queued data frame.
pub proof fn lemma_send_keeps_data(s: EndpointView, m: MessageView)
    requires
        s.outgoing.contains(m),
        m.id != 0,
    ensures
        send_spec(s).0.outgoing.contains(m),
{
    let i = choose|i: int| 0 <= i < s.outgoing.len() && s.outgoing[i] == m;
    let q = send_spec(s).0.outgoing;
    if i == 0 {
        assert(q[q.len() - 1] == m);
    } else {
        assert(q[i - 1] == m);
    }
}

/// An inbound datagram removes a queued data frame only when it is the
/// acknowledgment of that frame's id.
pub proof fn lemma_only_ack_removes(s: EndpointView, d: Seq<u8>, m: MessageView)
    requires
        s.outgoing.contains(m),
        parse_frame(d) matches Some(f) ==> !(f.id == 0 && parse_control(f.data) == Some(
            ControlMessage::Acc { id: m.id },
        )),
    ensures
        receive_spec(s, d).0.outgoing.contains(m),
{
    let i = choose|i: int| 0 <= i < s.outgoing.len() && s.outgoing[i] == m;
    let q = receive_spec(s, d).0.outgoing;
    match parse_frame(d) {
        None => {},
        Some(f) => {
            if f.id == 0 {
                match parse_control(f.data) {
                    Some(ControlMessage::Acc { id }) => {
                        lemma_without_id_keeps(s.outgoing, id, i);
                    },
                    None => {},
                }
            } else if hash_ok(f) {
                assert(q[i + 1] == m);
            }
        },
    }
}

proof fn lemma_without_id_keeps(q: Seq<MessageView>, id: u64, i: int)
    requires
        0 <= i < q.len(),
        q[i].id != id,
    ensures
        without_id(q, id).contains(q[i]),
    decreases q.len(),
{
    let w = without_id(q, id);
    if q[0].id == id {
        assert(w[i - 1] == q[i]);
    } else if i == 0 {
        assert(w[0] == q[0]);
    } else {
        lemma_without_id_keeps(q.drop_first(), id, i - 1);
        let t = without_id(q.drop_first(), id);
        let j = choose|j: int| 0 <= j < t.len() && t[j] == q[i];
        assert(w[j + 1] == q[i]);
    }
}

proof fn lemma_send_n_shifts(s: EndpointView, n: nat, j: int)
    requires
        n <= j < s.outgoing.len(),
    ensures
        send_n(s, n).outgoing.len() >= s.outgoing.len() - n,
        send_n(s, n).outgoing[j - n] == s.outgoing[j],
    decreases n,
{
    if n > 0 {
        lemma_send_n_shifts(s, (n - 1) as nat, j);
        let p = send_n(s, (n - 1) as nat);
        let q = send_spec(p).0.outgoing;
        assert(q[j - n] == p.outgoing[j - n + 1]);
    }
}

/// **Retransmission.** With nothing received, the frame at position `i` of the
/// queue goes out at send step `i` (counting from 0); a data frame is still
/// queued after that, so it keeps being sent until acknowledged.
pub proof fn lemma_sent_in_turn(s: EndpointView, i: nat)
    requires
        i < s.outgoing.len(),
    ensures
        send_spec(send_n(s, i)).1 == Some(frame_bytes(s.outgoing[i as int])),
        s.outgoing[i as int].id != 0 ==> send_n(s, i + 1).outgoing.contains(s.outgoing[i as int]),
{
    lemma_send_n_shifts(s, i, i as int);
    let p = send_n(s, i);
    if s.outgoing[i as int].id != 0 {
        assert(p.outgoing[0] == s.outgoing[i as int]);
        lemma_send_keeps_data(p, s.outgoing[i as int]);
    }
}

} // verus!
