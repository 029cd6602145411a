use slv::client_state::ClientState;
use slv::proto::client;
use slv::proto::server;
use slv::proto::{FieldCondition, IndexMethod};
use slv::session::{check_handshake, session_respond, HandshakeError, SessionError};
use slv::store::{Options, Store};

fn b(s: &str) -> Vec<u8> {
    s.as_bytes().to_vec()
}

#[test]
fn list_keys_is_answered_with_the_registered_identities() {
    let mut s = Store::new(Options { buffer_size: 4 }).expect("positive bound");
    let m = IndexMethod::new(vec![FieldCondition::HasKey(b("a"))]);
    s.register_index(m.clone());
    let r = session_respond(&s, &client::Message::ListKeys(client::ListKeys {}));
    match r {
        Ok(server::Message::UpdateKeyList(keys)) => assert_eq!(keys, vec![m]),
        _ => panic!("expected a key list update"),
    }
}

#[test]
fn repeated_handshake_is_rejected() {
    let s = Store::new(Options { buffer_size: 4 }).expect("positive bound");
    let r = session_respond(
        &s,
        &client::Message::Handshake(client::Handshake { token: String::from("t") }),
    );
    assert!(matches!(r, Err(SessionError::MultiAuth)));
}

#[test]
fn handshake_requires_the_exact_token() {
    let expected = String::from("expected-token");
    let ok = client::Message::Handshake(client::Handshake { token: expected.clone() });
    assert!(check_handshake(&ok, &expected).is_ok());

    let bad = client::Message::Handshake(client::Handshake { token: String::from("wrong") });
    assert!(matches!(check_handshake(&bad, &expected), Err(HandshakeError::BadAuthToken)));

    let not_handshake = client::Message::ListKeys(client::ListKeys {});
    assert!(matches!(
        check_handshake(&not_handshake, &expected),
        Err(HandshakeError::NoHandshake)
    ));
}

#[test]
fn client_state_tracks_key_list_updates() {
    let mut c = ClientState::new();
    assert_eq!(c.key_count(), 0);
    c.apply_message(server::Message::HandshakeOk(server::HandshakeOk {}));
    assert_eq!(c.key_count(), 0);
    let m = IndexMethod::new(vec![FieldCondition::HasKey(b("a"))]);
    c.apply_message(server::Message::UpdateKeyList(vec![m]));
    assert_eq!(c.key_count(), 1);
}
