use vstd::prelude::*;
use crate::proto::client;
use crate::proto::server;
use crate::store::Store;

verus! {

/// A violation of the session protocol by an authenticated client.
#[derive(Debug, Clone, Copy, PartialEq, Eq, Structural)]
pub enum SessionError {
    /// The client sent an auth message after already authenticating.
    MultiAuth,
}

/// A violation of the connection handshake.
#[derive(Debug, Clone, Copy, PartialEq, Eq, Structural)]
pub enum HandshakeError {
    /// The first message of a connection was not a handshake.
    NoHandshake,
    /// The client presented an incorrect auth token.
    BadAuthToken,
}

/// Decides the response to one message of an already authenticated session:
/// a repeated handshake is a protocol violation; a key-list request is
/// answered with a snapshot of the registered index identities.
pub fn session_respond(store: &Store, message: &client::Message) -> (r: Result<
    server::Message,
    SessionError,
>)
    ensures
        match message {
            client::Message::Handshake(_) => r matches Err(SessionError::MultiAuth),
            client::Message::ListKeys(_) => r matches Ok(server::Message::UpdateKeyList(keys))
                && keys@.len() == store.num_indices()
                && forall|k: int| 0 <= k < keys@.len()
                    ==> (#[trigger] keys@[k])@ == store.method_at(k),
        },
{
    match message {
        client::Message::Handshake(_) => Err(SessionError::MultiAuth),
        client::Message::ListKeys(_) => Ok(
            server::Message::UpdateKeyList(store.list_indices()),
        ),
    }
}

/// Decides whether the first message of a connection authenticates the
/// client: it must be a handshake, and its token must equal the server's
/// shared-secret token exactly.
pub fn check_handshake(first: &client::Message, expected_token: &String) -> (r: Result<
    (),
    HandshakeError,
>)
    ensures
        match first {
            client::Message::Handshake(h) => {
                &&& (r is Ok <==> h.token@ == expected_token@)
                &&& (r matches Err(e) ==> e == HandshakeError::BadAuthToken)
            },
            _ => r matches Err(HandshakeError::NoHandshake),
        },
{
    match first {
        client::Message::Handshake(h) => {
            if h.token == *expected_token {
                Ok(())
            } else {
                Err(HandshakeError::BadAuthToken)
            }
        },
        _ => Err(HandshakeError::NoHandshake),
    }
}

} // verus!
