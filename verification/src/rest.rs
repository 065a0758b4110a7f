//! What the directory of public keys answers.

use vstd::prelude::*;

use crate::crypto::{PublicKey, KEY_LEN};
use crate::error::Error;

verus! {

/// Bytes that travel as base64 text.
#[derive(Debug, Default)]
pub struct Bytes(Vec<u8>);

impl View for Bytes {
    type V = Seq<u8>;

    closed spec fn view(&self) -> Seq<u8> {
        self.0@
    }
}

impl Bytes {
    pub fn as_slice(&self) -> (bytes: &[u8])
        ensures
            bytes@ == self@,
    {
        self.0.as_slice()
    }

    pub fn into_vec(self) -> (bytes: Vec<u8>)
        ensures
            bytes@ == self@,
    {
        self.0
    }
}

impl From<Vec<u8>> for Bytes {
    fn from(v: Vec<u8>) -> (bytes: Self) {
        Bytes(v)
    }
}

impl vstd::std_specs::convert::FromSpecImpl<Vec<u8>> for Bytes {
    open spec fn obeys_from_spec() -> bool {
        true
    }

    closed spec fn from_spec(v: Vec<u8>) -> Self {
        Bytes(v)
    }
}

impl Bytes {
    /// The bytes made from a vector are those of the vector.
    pub proof fn lemma_from(v: Vec<u8>)
        ensures
            <Bytes as vstd::std_specs::convert::FromSpec<Vec<u8>>>::from_spec(v)@ == v@,
    {
    }
}

/// The answer to the question for the public key of an identity.
#[derive(Debug, Default)]
pub struct GetPubKeyResponse {
    pub identity: String,
    pub public_key: Bytes,
}

impl GetPubKeyResponse {
    /// The public key that the answer holds, or `InvalidPublicKey` where
    /// what it holds is not 32 bytes long.
    pub fn peer_key(&self) -> (r: Result<PublicKey, Error>)
        ensures
            match r {
                Ok(key) => self.public_key@.len() == KEY_LEN && key@ == self.public_key@,
                Err(e) => self.public_key@.len() != KEY_LEN && e is InvalidPublicKey,
            },
    {
        match PublicKey::from_slice(self.public_key.as_slice()) {
            Some(key) => Ok(key),
            None => Err(Error::InvalidPublicKey),
        }
    }
}

} // verus!
