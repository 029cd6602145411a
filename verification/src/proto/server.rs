use vstd::prelude::*;
use crate::proto::IndexMethod;

verus! {

/// A response or feed message sent by the server.
pub enum Message {
    HandshakeOk(HandshakeOk),
    UpdateKeyList(Vec<IndexMethod>),
    StatusFeed(StatusFeed),
}

/// Acknowledges a successful handshake.
pub struct HandshakeOk {}

/// The identities of all currently registered indices.
pub struct IndexList {
    pub indices: Vec<IndexMethod>,
}

/// Periodic ingestion status.
pub struct StatusFeed {
    pub file_name: String,
    pub lines_in_index: u64,
}

} // verus!
