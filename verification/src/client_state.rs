use vstd::prelude::*;
use crate::proto::{CondRepr, IndexMethod};
use crate::proto::server;

verus! {

/// The client-side view of the server's registered indices, updated from the
/// server's feed messages.
pub struct ClientState {
    key_list: Vec<IndexMethod>,
}

impl ClientState {
    /// The identities currently known to the client.
    pub closed spec fn keys(&self) -> Seq<Seq<CondRepr>> {
        Seq::new(self.key_list@.len(), |k: int| self.key_list@[k]@)
    }

    /// A fresh client knows no keys.
    pub fn new() -> (r: ClientState)
        ensures
            r.keys() == Seq::<Seq<CondRepr>>::empty(),
    {
        let r = ClientState { key_list: Vec::new() };
        proof {
            assert(r.keys() =~= Seq::<Seq<CondRepr>>::empty());
        }
        r
    }

    /// Number of known keys, as shown in the status line.
    pub fn key_count(&self) -> (n: usize)
        ensures
            n == self.keys().len(),
    {
        self.key_list.len()
    }

    /// Applies one server message: a handshake acknowledgement changes
    /// nothing; a key-list update replaces the known keys. The status feed
    /// is not handled yet and is kept out by the precondition.
    pub fn apply_message(&mut self, message: server::Message)
        requires
            !(message matches server::Message::StatusFeed(_)),
        ensures
            match message {
                server::Message::HandshakeOk(_) => final(self).keys() == old(self).keys(),
                server::Message::UpdateKeyList(list) => {
                    &&& final(self).keys().len() == list@.len()
                    &&& forall|k: int| 0 <= k < list@.len()
                        ==> #[trigger] final(self).keys()[k] == list@[k]@
                },
                server::Message::StatusFeed(_) => true,
            },
    {
        match message {
            server::Message::HandshakeOk(_) => {},
            server::Message::UpdateKeyList(list) => {
                self.key_list = list;
            },
            server::Message::StatusFeed(_) => {},
        }
    }
}

} // verus!
