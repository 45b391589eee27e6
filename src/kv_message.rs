use vstd::prelude::*;

verus! {

/// A key update as peers exchange it.
pub struct KVMessage {
    pub key: String,
    pub client_id: u32,
    pub version: u64,
    pub value: String,
}

impl KVMessage {
    /// The update that replica `client_id` made to `key` at `version`.
    pub fn new(key: String, value: String, client_id: u32, version: u64) -> (r: KVMessage)
        ensures
            r.key@ == key@,
            r.value@ == value@,
            r.client_id == client_id,
            r.version == version,
    {
        KVMessage { key, client_id, version, value }
    }
}

} // verus!
