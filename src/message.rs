use vstd::bytes::*;
use vstd::prelude::*;
use vstd::slice::slice_subrange;

verus! {

/// The integrity check value of an empty payload.
pub const CHECKSUM_SEED: u64 = 17;

/// The multiplier of the rolling checksum.
pub const CHECKSUM_FACTOR: u64 = 31;

/// Length of a frame's header: the id and the checksum, eight bytes each.
pub const HEADER_LEN: usize = 16;

/// Tag byte of an acknowledgment control message.
pub const ACK_TAG: u8 = 1;

/// Rolling checksum of a payload: each byte is folded in as
/// `h * 31 + byte`, modulo 2^64. It detects corruption; it is no
/// authentication.
pub open spec fn checksum_of(s: Seq<u8>) -> u64
    decreases s.len(),
{
    if s.len() == 0 {
        CHECKSUM_SEED
    } else {
        checksum_of(s.drop_last()).wrapping_mul(CHECKSUM_FACTOR).wrapping_add(s.last() as u64)
    }
}

/// Computes `checksum_of` over `data`.
pub fn checksum(data: &[u8]) -> (r: u64)
    ensures
        r == checksum_of(data@),
{
    let mut h: u64 = CHECKSUM_SEED;
    let mut i: usize = 0;
    while i < data.len()
        invariant
            i <= data@.len(),
            h == checksum_of(data@.subrange(0, i as int)),
        decreases data@.len() - i,
    {
        proof {
            let next = data@.subrange(0, i + 1);
            assert(next.drop_last() =~= data@.subrange(0, i as int));
        }
        h = h.wrapping_mul(CHECKSUM_FACTOR).wrapping_add(data[i] as u64);
        i += 1;
    }
    assert(data@.subrange(0, data@.len() as int) =~= data@);
    h
}

/// An out-of-band transport message, carried in a frame with id 0.
#[derive(PartialEq, Eq, Structural, Clone, Copy, Debug)]
pub enum ControlMessage {
    /// The data frame with this id has been received.
    Acc { id: u64 },
}

/// Bytes of a control message: its tag, then its fields.
pub open spec fn control_bytes(c: ControlMessage) -> Seq<u8> {
    match c {
        ControlMessage::Acc { id } => seq![ACK_TAG] + spec_u64_to_le_bytes(id),
    }
}

/// The control message that `s` encodes, if any.
pub open spec fn parse_control(s: Seq<u8>) -> Option<ControlMessage> {
    if s.len() == 9 && s[0] == ACK_TAG {
        Some(ControlMessage::Acc { id: spec_u64_from_le_bytes(s.subrange(1, 9)) })
    } else {
        None
    }
}

impl ControlMessage {
    /// Encodes the control message.
    pub fn encode(&self) -> (r: Vec<u8>)
        ensures
            r@ == control_bytes(*self),
    {
        match self {
            ControlMessage::Acc { id } => {
                let mut r: Vec<u8> = vec![ACK_TAG];
                let mut b = u64_to_le_bytes(*id);
                r.append(&mut b);
                r
            },
        }
    }

    /// Decodes a control message; an unknown tag or a wrong length gives `None`.
    pub fn decode(s: &[u8]) -> (r: Option<ControlMessage>)
        ensures
            r == parse_control(s@),
    {
        if s.len() == 9 && s[0] == ACK_TAG {
            let id = u64_from_le_bytes(slice_subrange(s, 1, 9));
            Some(ControlMessage::Acc { id })
        } else {
            None
        }
    }
}

/// The mathematical value of a frame.
pub struct MessageView {
    pub id: u64,
    pub hash: u64,
    pub data: Seq<u8>,
}

/// A frame on the wire: id (0 for control), checksum of the payload, payload.
#[derive(Debug)]
pub struct Message {
    pub id: u64,
    pub hash: u64,
    pub data: Vec<u8>,
}

impl View for Message {
    type V = MessageView;

    open spec fn view(&self) -> MessageView {
        MessageView { id: self.id, hash: self.hash, data: self.data@ }
    }
}

/// Bytes of a frame: id and checksum in little-endian order, then the payload.
pub open spec fn frame_bytes(m: MessageView) -> Seq<u8> {
    spec_u64_to_le_bytes(m.id) + spec_u64_to_le_bytes(m.hash) + m.data
}

/// The frame that `s` holds, if it is long enough to hold a header.
pub open spec fn parse_frame(s: Seq<u8>) -> Option<MessageView> {
    if s.len() < HEADER_LEN {
        None
    } else {
        Some(
            MessageView {
                id: spec_u64_from_le_bytes(s.subrange(0, 8)),
                hash: spec_u64_from_le_bytes(s.subrange(8, 16)),
                data: s.subrange(16, s.len() as int),
            },
        )
    }
}

/// The data frame with id `id` and payload `data`, checksum filled in.
pub open spec fn data_frame(id: u64, data: Seq<u8>) -> MessageView {
    MessageView { id, hash: checksum_of(data), data }
}

/// The control frame that acknowledges `id`.
pub open spec fn ack_frame(id: u64) -> MessageView {
    let data = control_bytes(ControlMessage::Acc { id });
    MessageView { id: 0, hash: checksum_of(data), data }
}

/// Whether a frame's checksum matches its payload.
pub open spec fn hash_ok(m: MessageView) -> bool {
    m.hash == checksum_of(m.data)
}

fn clone_bytes(s: &[u8]) -> (r: Vec<u8>)
    ensures
        r@ == s@,
{
    let mut r: Vec<u8> = Vec::new();
    let mut i: usize = 0;
    while i < s.len()
        invariant
            i <= s@.len(),
            r@ == s@.subrange(0, i as int),
        decreases s@.len() - i,
    {
        r.push(s[i]);
        i += 1;
        assert(r@ =~= s@.subrange(0, i as int));
    }
    assert(s@.subrange(0, s@.len() as int) =~= s@);
    r
}

impl Message {
    /// A data frame with id `id` carrying `data`.
    pub fn new(id: u64, data: Vec<u8>) -> (r: Message)
        ensures
            r@ == data_frame(id, data@),
    {
        let hash = checksum(data.as_slice());
        Message { id, hash, data }
    }

    /// The control frame that acknowledges the data frame `id`.
    pub fn new_acc(id: u64) -> (r: Message)
        ensures
            r@ == ack_frame(id),
    {
        let data = ControlMessage::Acc { id }.encode();
        let hash = checksum(data.as_slice());
        Message { id: 0, hash, data }
    }

    /// Whether the checksum matches the payload.
    pub fn check_hash(&self) -> (r: bool)
        ensures
            r == hash_ok(self@),
    {
        checksum(self.data.as_slice()) == self.hash
    }

    /// The control message in the payload, if it holds a known one.
    pub fn get_control(&self) -> (r: Option<ControlMessage>)
        ensures
            r == parse_control(self.data@),
    {
        ControlMessage::decode(self.data.as_slice())
    }

    /// Encodes the frame.
    pub fn serialize(&self) -> (r: Vec<u8>)
        ensures
            r@ == frame_bytes(self@),
    {
        let mut r = u64_to_le_bytes(self.id);
        let mut h = u64_to_le_bytes(self.hash);
        r.append(&mut h);
        let mut d = clone_bytes(self.data.as_slice());
        r.append(&mut d);
        r
    }

    /// Decodes a frame; input shorter than a header gives `None`.
    pub fn deserialize(s: &[u8]) -> (r: Option<Message>)
        ensures
            match r {
                Some(m) => parse_frame(s@) == Some(m@),
                None => parse_frame(s@).is_none(),
            },
    {
        if s.len() < HEADER_LEN {
            None
        } else {
            let id = u64_from_le_bytes(slice_subrange(s, 0, 8));
            let hash = u64_from_le_bytes(slice_subrange(s, 8, 16));
            let data = clone_bytes(slice_subrange(s, 16, s.len()));
            Some(Message { id, hash, data })
        }
    }
}

/// Decoding the bytes of a frame gives the frame back.
pub proof fn lemma_frame_round_trip(m: MessageView)
    ensures
        parse_frame(frame_bytes(m)) == Some(m),
{
    lemma_auto_spec_u64_to_from_le_bytes();
    let s = frame_bytes(m);
    assert(s.subrange(0, 8) =~= spec_u64_to_le_bytes(m.id));
    assert(s.subrange(8, 16) =~= spec_u64_to_le_bytes(m.hash));
    assert(s.subrange(16, s.len() as int) =~= m.data);
}

/// Encoding a decoded frame gives back the bytes it came from.
pub proof fn lemma_frame_bytes_round_trip(s: Seq<u8>)
    requires
        s.len() >= HEADER_LEN,
    ensures
        frame_bytes(parse_frame(s).unwrap()) == s,
{
    lemma_auto_spec_u64_to_from_le_bytes();
    let s0 = s.subrange(0, 8);
    let s1 = s.subrange(8, 16);
    assert(spec_u64_to_le_bytes(spec_u64_from_le_bytes(s0)) == s0);
    assert(spec_u64_to_le_bytes(spec_u64_from_le_bytes(s1)) == s1);
    assert(frame_bytes(parse_frame(s).unwrap()) =~= s);
}

/// Decoding an encoded control message gives it back.
pub proof fn lemma_control_round_trip(c: ControlMessage)
    ensures
        parse_control(control_bytes(c)) == Some(c),
{
    lemma_auto_spec_u64_to_from_le_bytes();
    match c {
        ControlMessage::Acc { id } => {
            let s = control_bytes(c);
            assert(s.subrange(1, 9) =~= spec_u64_to_le_bytes(id));
        },
    }
}

} // verus!
