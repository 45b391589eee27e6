use vstd::bytes::*;
use vstd::prelude::*;
use vstd::slice::slice_subrange;

verus! {

/// Tag byte of a handshake datagram.
pub const HELLO_TAG: u8 = 0x48;

/// Bytes of the handshake datagram of replica `client_id`: the tag, then the
/// id in little-endian order.
pub open spec fn hello_bytes(client_id: u32) -> Seq<u8> {
    seq![HELLO_TAG] + spec_u32_to_le_bytes(client_id)
}

/// The replica id that a handshake datagram announces, if `s` is one.
pub open spec fn parse_hello(s: Seq<u8>) -> Option<u32> {
    if s.len() == 5 && s[0] == HELLO_TAG {
        Some(spec_u32_from_le_bytes(s.subrange(1, 5)))
    } else {
        None
    }
}

/// The handshake datagram that replica `client_id` sends to open a connection,
/// and answers with.
pub fn handshake_bytes(client_id: u32) -> (r: Vec<u8>)
    ensures
        r@ == hello_bytes(client_id),
{
    let mut r: Vec<u8> = vec![HELLO_TAG];
    let mut b = u32_to_le_bytes(client_id);
    r.append(&mut b);
    r
}

/// The replica id announced by a handshake datagram; `None` for anything else.
pub fn parse_handshake(s: &[u8]) -> (r: Option<u32>)
    ensures
        r == parse_hello(s@),
{
    if s.len() == 5 && s[0] == HELLO_TAG {
        Some(u32_from_le_bytes(slice_subrange(s, 1, 5)))
    } else {
        None
    }
}

/// A handshake datagram announces the id it was made for.
pub proof fn lemma_hello_round_trip(client_id: u32)
    ensures
        parse_hello(hello_bytes(client_id)) == Some(client_id),
{
    lemma_auto_spec_u32_to_from_le_bytes();
    assert(hello_bytes(client_id).subrange(1, 5) =~= spec_u32_to_le_bytes(client_id));
}

} // verus!
