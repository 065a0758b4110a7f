//! Keys, and the cryptographic primitives that the protocol is built on.
//!
//! The primitives are computed by libsodium (through `sodiumoxide`) and by
//! the RustCrypto crates. Nothing here proves anything about them: each
//! function below states what its crate documents, and names the rest.

use sodiumoxide::crypto::box_;
use sodiumoxide::crypto::scalarmult::curve25519;
use sodiumoxide::crypto::stream::xsalsa20;
use vstd::prelude::*;

use crate::flat::byte_array;

verus! {

/// Length of a public or secret key, in bytes.
pub const KEY_LEN: usize = 32;

/// Number of bytes by which a sealed box is longer than its plaintext.
pub const MAC_LEN: usize = 16;

/// `count` zero bytes.
pub open spec fn zeros(count: nat) -> Seq<u8> {
    Seq::new(count, |i: int| 0u8)
}

/// A public key for authenticated encryption.
#[derive(Clone, Copy, Debug)]
pub struct PublicKey(pub [u8; 32]);

/// A secret key for authenticated encryption.
#[derive(Clone, Copy)]
pub struct SecretKey(pub [u8; 32]);

impl View for PublicKey {
    type V = Seq<u8>;

    open spec fn view(&self) -> Seq<u8> {
        self.0@
    }
}

impl View for SecretKey {
    type V = Seq<u8>;

    open spec fn view(&self) -> Seq<u8> {
        self.0@
    }
}

impl PublicKey {
    /// The key that `bytes` hold, where there are 32 of them.
    pub fn from_slice(bytes: &[u8]) -> (key: Option<Self>)
        ensures
            key is Some <==> bytes@.len() == KEY_LEN,
            key matches Some(k) ==> k@ == bytes@,
    {
        if bytes.len() != KEY_LEN {
            return None;
        }
        Some(PublicKey(byte_array(bytes)))
    }
}

impl PublicKey {
    /// Whether this key and the secret key `secret` make a shared secret,
    /// so that boxes can be sealed between their holders. A public key of
    /// small order, such as 32 zero bytes, makes none with any secret key.
    pub fn agrees_with(&self, secret: &SecretKey) -> (agreed: bool)
        ensures
            agreed == keys_agree(self@, secret@),
    {
        agree(self, secret)
    }
}

impl SecretKey {
    /// The key that `bytes` hold, where there are 32 of them.
    pub fn from_slice(bytes: &[u8]) -> (key: Option<Self>)
        ensures
            key is Some <==> bytes@.len() == KEY_LEN,
            key matches Some(k) ==> k@ == bytes@,
    {
        if bytes.len() != KEY_LEN {
            return None;
        }
        Some(SecretKey(byte_array(bytes)))
    }
}

/// The point that the holder of `secret` and the holder of `public` share,
/// as X25519 computes it; `None` where it computes none.
pub uninterp spec fn shared_point(secret: Seq<u8>, public: Seq<u8>) -> Option<Seq<u8>>;

/// Whether the two keys make a shared secret.
pub open spec fn keys_agree(their_public: Seq<u8>, our_secret: Seq<u8>) -> bool {
    shared_point(our_secret, their_public) is Some
}

/// The box that seals `message` from the holder of `our_secret` to the
/// holder of `their_public` under `nonce`, where the two keys agree.
pub uninterp spec fn sealed_box(
    message: Seq<u8>,
    nonce: Seq<u8>,
    their_public: Seq<u8>,
    our_secret: Seq<u8>,
) -> Seq<u8>;

/// What the box `sealed` holds for the holder of `our_secret`, if it was
/// sealed by the holder of `their_public` under `nonce`; `None` if it does
/// not verify.
pub uninterp spec fn opened_box(
    sealed: Seq<u8>,
    nonce: Seq<u8>,
    their_public: Seq<u8>,
    our_secret: Seq<u8>,
) -> Option<Seq<u8>>;

/// `message` combined with the XSalsa20 key stream of `key` and `nonce`.
pub uninterp spec fn xsalsa20_xor(message: Seq<u8>, nonce: Seq<u8>, key: Seq<u8>) -> Seq<u8>;

/// The 32 bytes that PBKDF2 with HMAC-SHA256 derives from `password` and
/// `salt` in `rounds` rounds.
pub uninterp spec fn pbkdf2_hmac_sha256(password: Seq<u8>, salt: Seq<u8>, rounds: u32) -> Seq<u8>;

/// The SHA-256 digest of `data`.
pub uninterp spec fn sha256_digest(data: Seq<u8>) -> Seq<u8>;

/// Draws `size` random bytes with `sodiumoxide::randombytes::randombytes`.
/// The contract states only their number.
#[verifier::external_body]
pub(crate) fn random_bytes(size: usize) -> (bytes: Vec<u8>)
    ensures
        bytes@.len() == size,
{
    sodiumoxide::randombytes::randombytes(size)
}

/// Draws a number with `sodiumoxide::randombytes::randombytes_uniform`,
/// which documents it as lying below `upper_bound`, and as 0 where
/// `upper_bound` is below 2.
#[verifier::external_body]
pub(crate) fn random_below(upper_bound: u32) -> (drawn: u32)
    ensures
        upper_bound >= 1 ==> drawn < upper_bound,
        upper_bound < 2 ==> drawn == 0,
{
    sodiumoxide::randombytes::randombytes_uniform(upper_bound)
}

/// Makes a fresh key pair with `sodiumoxide::crypto::box_::gen_keypair`.
/// Nothing is stated of the keys.
#[verifier::external_body]
pub(crate) fn generate_keypair() -> (pair: (PublicKey, SecretKey)) {
    let (public, secret) = box_::gen_keypair();
    (PublicKey(public.0), SecretKey(secret.0))
}

/// Multiplies a public key by a secret key with
/// `sodiumoxide::crypto::scalarmult::curve25519::scalarmult`, and tells
/// whether a point came out. The result is named by `shared_point`.
#[verifier::external_body]
pub(crate) fn agree(their_public: &PublicKey, our_secret: &SecretKey) -> (agreed: bool)
    ensures
        agreed == (shared_point(our_secret@, their_public@) is Some),
{
    curve25519::scalarmult(
        &curve25519::Scalar(our_secret.0),
        &curve25519::GroupElement(their_public.0),
    ).is_ok()
}

/// Seals a box with `sodiumoxide::crypto::box_::seal`. The result is named
/// by `sealed_box`; it is 16 bytes longer than the message. The keys must
/// agree: where they do not, the outside function leaves the box unwritten.
#[verifier::external_body]
pub(crate) fn box_seal(
    message: &[u8],
    nonce: &[u8; 24],
    their_public: &PublicKey,
    our_secret: &SecretKey,
) -> (sealed: Vec<u8>)
    requires
        message@.len() + MAC_LEN <= usize::MAX,
        shared_point(our_secret@, their_public@) is Some,
    ensures
        sealed@ == sealed_box(message@, nonce@, their_public@, our_secret@),
        sealed@.len() == message@.len() + MAC_LEN,
{
    box_::seal(
        message,
        &box_::Nonce(*nonce),
        &box_::PublicKey(their_public.0),
        &box_::SecretKey(our_secret.0),
    )
}

/// Opens a box with `sodiumoxide::crypto::box_::open`. The result is named
/// by `opened_box`; a plaintext is 16 bytes shorter than the box, and a box
/// of under 16 bytes does not open.
#[verifier::external_body]
pub(crate) fn box_open(
    sealed: &[u8],
    nonce: &[u8; 24],
    their_public: &PublicKey,
    our_secret: &SecretKey,
) -> (message: Option<Vec<u8>>)
    ensures
        match message {
            Some(m) => opened_box(sealed@, nonce@, their_public@, our_secret@) == Some(m@)
                && m@.len() + MAC_LEN == sealed@.len(),
            None => opened_box(sealed@, nonce@, their_public@, our_secret@) is None,
        },
        sealed@.len() < MAC_LEN ==> message is None,
{
    box_::open(
        sealed,
        &box_::Nonce(*nonce),
        &box_::PublicKey(their_public.0),
        &box_::SecretKey(our_secret.0),
    ).ok()
}

/// Combines `message` with a key stream, with
/// `sodiumoxide::crypto::stream::xsalsa20::stream_xor`. The result is named
/// by `xsalsa20_xor`; it is as long as the message.
#[verifier::external_body]
pub(crate) fn stream_xor(message: &[u8], nonce: &[u8; 24], key: &[u8; 32]) -> (out: Vec<u8>)
    ensures
        out@ == xsalsa20_xor(message@, nonce@, key@),
        out@.len() == message@.len(),
{
    xsalsa20::stream_xor(message, &xsalsa20::Nonce(*nonce), &xsalsa20::Key(*key))
}

/// Derives a key from a password with `pbkdf2::pbkdf2` over HMAC-SHA256.
/// The result is named by `pbkdf2_hmac_sha256`.
#[verifier::external_body]
pub(crate) fn derive_key(password: &[u8], salt: &[u8], rounds: u32) -> (key: [u8; 32])
    ensures
        key@ == pbkdf2_hmac_sha256(password@, salt@, rounds),
{
    let mut key = [0u8; 32];
    pbkdf2::pbkdf2::<hmac::Hmac<sha2::Sha256>>(password, salt, rounds, &mut key);
    key
}

/// Hashes `data` with `sha2::Sha256`. The result is named by `sha256_digest`.
#[verifier::external_body]
pub(crate) fn sha256(data: &[u8]) -> (digest: [u8; 32])
    ensures
        digest@ == sha256_digest(data@),
{
    <sha2::Sha256 as sha2::Digest>::digest(data).into()
}

} // verus!
