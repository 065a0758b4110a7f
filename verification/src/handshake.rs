//! The messages of the handshake, as far as they can be written and read
//! without a key.

use vstd::prelude::*;

use crate::crypto::{zeros, PublicKey};
use crate::error::Error;
use crate::flat::byte_array;
use crate::ids::ThreemaID;

verus! {

/// Length of the first message of the handshake: the client's ephemeral
/// public key and the prefix of its nonce.
pub const CLIENT_HELLO_LEN: usize = 48;

/// Length of the server's answer: the prefix of its nonce, and a box of
/// 48 bytes.
pub const SERVER_HELLO_LEN: usize = 80;

/// Length of the vouch: the client's ephemeral public key, sealed.
pub const VOUCH_LEN: usize = 48;

/// Length of the sealed login.
pub const LOGIN_LEN: usize = 144;

/// Length of the server's last word in the handshake.
pub const SERVER_ACK_LEN: usize = 32;

/// The first message of the handshake.
pub open spec fn client_hello_bytes(ephemeral_public: Seq<u8>, client_prefix: Seq<u8>) -> Seq<u8> {
    ephemeral_public + client_prefix
}

/// The server's ephemeral key, as the opened server hello `plain` gives
/// it: the hello holds the key, and then the prefix that the client sent.
/// `None` where it holds anything else.
pub open spec fn server_hello_key(plain: Seq<u8>, client_prefix: Seq<u8>) -> Option<Seq<u8>> {
    if plain.len() == 48 && plain.subrange(32, 48) == client_prefix {
        Some(plain.subrange(0, 32))
    } else {
        None
    }
}

/// What the login holds before it is sealed: the identity, 32 zero bytes,
/// the prefix of the server's nonce, and the vouch with its nonce.
pub open spec fn login_payload_bytes(
    identity: Seq<u8>,
    server_prefix: Seq<u8>,
    vouch_nonce: Seq<u8>,
    vouch: Seq<u8>,
) -> Seq<u8> {
    identity + zeros(32) + server_prefix + vouch_nonce + vouch
}

/// Writes the first message of the handshake.
pub fn client_hello(ephemeral_public: &PublicKey, client_prefix: &[u8; 16]) -> (hello: Vec<u8>)
    ensures
        hello@ == client_hello_bytes(ephemeral_public@, client_prefix@),
        hello@.len() == CLIENT_HELLO_LEN,
{
    let mut hello = vstd::slice::slice_to_vec(ephemeral_public.0.as_slice());
    let mut prefix = vstd::slice::slice_to_vec(client_prefix.as_slice());
    hello.append(&mut prefix);
    hello
}

/// Takes the server's ephemeral key out of its opened hello, having
/// checked that the hello echoes the prefix that the client sent.
pub fn read_server_hello(plain: &[u8], client_prefix: &[u8]) -> (r: Result<PublicKey, Error>)
    ensures
        match r {
            Ok(key) => server_hello_key(plain@, client_prefix@) == Some(key@),
            Err(e) => server_hello_key(plain@, client_prefix@) is None && e is ParseError,
        },
{
    if plain.len() != 48 || client_prefix.len() != 16 {
        proof {
            if plain@.len() == 48 {
                assert(plain@.subrange(32, 48).len() == 16);
            }
        }
        return Err(Error::ParseError("server hello".to_owned()));
    }
    let echoed = vstd::slice::slice_subrange(plain, 32, 48);
    let mut i: usize = 0;
    while i < 16
        invariant
            i <= 16,
            echoed@.len() == 16,
            client_prefix@.len() == 16,
            echoed@ == plain@.subrange(32, 48),
            forall|j: int| 0 <= j < i ==> echoed@[j] == client_prefix@[j],
        decreases 16 - i,
    {
        if echoed[i] != client_prefix[i] {
            return Err(Error::ParseError("server hello".to_owned()));
        }
        i += 1;
    }
    assert(echoed@ =~= client_prefix@);
    let key: [u8; 32] = byte_array(vstd::slice::slice_subrange(plain, 0, 32));
    Ok(PublicKey(key))
}

/// Writes what the login holds before it is sealed.
pub fn login_payload(
    identity: ThreemaID,
    server_prefix: &[u8],
    vouch_nonce: &[u8; 24],
    vouch: &[u8],
) -> (payload: Vec<u8>)
    ensures
        payload@ == login_payload_bytes(identity@, server_prefix@, vouch_nonce@, vouch@),
        payload@.len() == 64 + server_prefix@.len() + vouch@.len(),
{
    proof {
        identity.lemma_view();
    }
    let id_bytes = identity.as_bytes();
    let mut payload = vstd::slice::slice_to_vec(id_bytes.as_slice());
    let filler = [0u8; 32];
    assert(filler@ =~= zeros(32));
    let mut part = vstd::slice::slice_to_vec(filler.as_slice());
    payload.append(&mut part);
    let mut part = vstd::slice::slice_to_vec(server_prefix);
    payload.append(&mut part);
    let mut part = vstd::slice::slice_to_vec(vouch_nonce.as_slice());
    payload.append(&mut part);
    let mut part = vstd::slice::slice_to_vec(vouch);
    payload.append(&mut part);
    payload
}

/// Checks the server's last word in the handshake, once opened: it is 16
/// zero bytes.
pub fn check_server_ack(plain: &[u8]) -> (r: Result<(), Error>)
    ensures
        match r {
            Ok(_) => plain@ == zeros(16),
            Err(e) => plain@ != zeros(16) && e is ParseError,
        },
{
    if plain.len() != 16 {
        return Err(Error::ParseError("server acknowledgement".to_owned()));
    }
    let mut i: usize = 0;
    while i < 16
        invariant
            i <= 16,
            plain@.len() == 16,
            forall|j: int| 0 <= j < i ==> plain@[j] == 0,
        decreases 16 - i,
    {
        if plain[i] != 0 {
            assert(zeros(16)[i as int] == 0);
            return Err(Error::ParseError("server acknowledgement".to_owned()));
        }
        i += 1;
    }
    assert(plain@ =~= zeros(16));
    Ok(())
}

} // verus!
