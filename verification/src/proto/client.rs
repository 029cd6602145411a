use vstd::prelude::*;

verus! {

/// A request sent by a client after connecting.
pub enum Message {
    Handshake(Handshake),
    ListKeys(ListKeys),
}

/// The first message of a connection: presents the shared-secret token.
pub struct Handshake {
    pub token: String,
}

/// Asks for the identities of all currently registered indices.
pub struct ListKeys {}

} // verus!
