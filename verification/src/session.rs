//! A session with the messaging server: the handshake, the sealed frames
//! that follow it, and the messages that travel inside them.
//!
//! Nothing here touches a socket. Every step takes the bytes that came in
//! and gives back the bytes that are to go out; the caller moves them.

use vstd::prelude::*;
use vstd::utf8::encode_utf8;

use crate::crypto::{
    box_open, box_seal, generate_keypair, keys_agree, opened_box, random_below, random_bytes,
    sealed_box, zeros, PublicKey, SecretKey, KEY_LEN, MAC_LEN,
};
use crate::error::Error;
use crate::flat::{
    byte_array, encode_le, le_bytes, le_value, lemma_le_bytes_len, lemma_le_value_bound,
    lemma_pow256_values, starts_with_known_tag, Flat,
};
use crate::handshake::{
    check_server_ack, client_hello, client_hello_bytes, login_payload, login_payload_bytes,
    read_server_hello, server_hello_key, LOGIN_LEN, SERVER_ACK_LEN, SERVER_HELLO_LEN, VOUCH_LEN,
};
use crate::identity::{decrypt, decrypted};
use crate::ids::{is_identity, MessageID, ThreemaID};
use crate::nonce::{Nonce, NONCE_PREFIX_LEN};
use crate::packets::{
    Header, Message, MessageStatus, Packet, Text, HEADER_LEN, NICKNAME_LEN, PACKET_TAG_LEN,
};
use crate::padding::{pad_message, padded, strip_padding, unpadded, MAX_PADDING};
use crate::peers::PeerKeyCache;

verus! {

/// Where the messaging server listens.
pub const MSG_SERVER: &'static str = "g-33.0.threema.ch:5222";

/// The long-term public key of the messaging server.
pub const SERVER_LONG_TERM_PUBKEY: [u8; 32] = [
    69, 11, 151, 87, 53, 39, 159, 222, 203, 51, 19, 100, 143, 95, 198, 238, 159, 244, 54, 14, 169,
    42, 140, 23, 81, 198, 97, 228, 192, 216, 201, 9,
];

/// How far a session has come.
#[derive(Debug, Clone, Copy, PartialEq, Eq)]
pub enum SessionState {
    /// No connection, and no keys for one.
    Disconnected,
    /// The handshake is under way; the server has not yet proved itself.
    Handshaking,
    /// The server has proved itself; frames flow in both directions.
    Connected,
    /// The session broke. Nothing further can be done with it.
    Failed,
}

/// A client of the messaging service: an identity, its secret key, the
/// keys of its peers, and the state of its session with the server.
pub struct Threema {
    id: ThreemaID,
    private_key: SecretKey,
    server_long_term_key: PublicKey,
    peers: PeerKeyCache,
    pub nick: Option<String>,
    state: SessionState,
    client_nonce: Option<Nonce>,
    server_nonce: Option<Nonce>,
    server_pubkey: Option<PublicKey>,
    ephemeral_public_key: Option<PublicKey>,
    ephemeral_private_key: Option<SecretKey>,
}

/// A nonce as bytes: its prefix, and then its counter, least significant
/// byte first.
pub open spec fn nonce_bytes(prefix: Seq<u8>, counter: nat) -> Seq<u8> {
    prefix + le_bytes(counter, 8)
}

/// The nickname field of a header: the first 32 bytes of `name`, filled up
/// with zero bytes.
pub open spec fn nickname_field(name: Seq<u8>) -> Seq<u8> {
    Seq::new(
        NICKNAME_LEN as nat,
        |i: int|
            if i < name.len() {
                name[i]
            } else {
                0u8
            },
    )
}

impl Threema {
    /// The identity that the client speaks for.
    pub closed spec fn identity(&self) -> ThreemaID {
        self.id
    }

    /// The long-term secret key of the identity.
    pub closed spec fn secret_key(&self) -> SecretKey {
        self.private_key
    }

    /// The long-term public key of the server that the client talks to.
    pub closed spec fn server_long_term(&self) -> PublicKey {
        self.server_long_term_key
    }

    /// The keys of the peers.
    pub closed spec fn peers(&self) -> PeerKeyCache {
        self.peers
    }

    /// The nickname that the client goes by, if it has one.
    pub closed spec fn nickname(&self) -> Option<String> {
        self.nick
    }

    /// How far the session has come.
    pub closed spec fn state(&self) -> SessionState {
        self.state
    }

    /// The nonce of the frames that go to the server.
    pub closed spec fn client_nonce(&self) -> Option<Nonce> {
        self.client_nonce
    }

    /// The nonce of the frames that come from the server.
    pub closed spec fn server_nonce(&self) -> Option<Nonce> {
        self.server_nonce
    }

    /// The key that the server made for this session.
    pub closed spec fn server_key(&self) -> Option<PublicKey> {
        self.server_pubkey
    }

    /// The public key that the client made for this session.
    pub closed spec fn ephemeral_public(&self) -> Option<PublicKey> {
        self.ephemeral_public_key
    }

    /// The secret key that the client made for this session.
    pub closed spec fn ephemeral_secret(&self) -> Option<SecretKey> {
        self.ephemeral_private_key
    }

    /// Whether `later` speaks for the same identity, with the same key
    /// and nickname, and has forgotten none of the keys of the peers.
    pub open spec fn same_account(&self, later: &Threema) -> bool {
        &&& later.identity() == self.identity()
        &&& later.secret_key() == self.secret_key()
        &&& later.server_long_term() == self.server_long_term()
        &&& later.nickname() == self.nickname()
        &&& self.peers().kept_by(&later.peers())
    }

    /// Whether the session of `later` is as this one's.
    pub open spec fn same_session(&self, later: &Threema) -> bool {
        &&& later.state() == self.state()
        &&& later.client_nonce() == self.client_nonce()
        &&& later.server_nonce() == self.server_nonce()
        &&& later.server_key() == self.server_key()
        &&& later.ephemeral_public() == self.ephemeral_public()
        &&& later.ephemeral_secret() == self.ephemeral_secret()
    }

    /// Whether no key of a session is held.
    pub open spec fn holds_no_session_keys(&self) -> bool {
        &&& self.client_nonce() is None
        &&& self.server_nonce() is None
        &&& self.server_key() is None
        &&& self.ephemeral_public() is None
        &&& self.ephemeral_secret() is None
    }

    /// A client for the identity `id` with the secret key `private_key`,
    /// not connected, that talks to the messaging server of the service.
    /// `InvalidPrivateKey` where the key is not 32 bytes long.
    pub fn new(id: ThreemaID, private_key: &[u8]) -> (r: Result<Self, Error>)
        ensures
            match r {
                Ok(client) => {
                    &&& private_key@.len() == KEY_LEN
                    &&& client.identity() == id
                    &&& client.secret_key()@ == private_key@
                    &&& client.server_long_term()@ == SERVER_LONG_TERM_PUBKEY@
                    &&& client.nickname() is None
                    &&& client.state() is Disconnected
                    &&& client.holds_no_session_keys()
                    &&& forall|peer: ThreemaID| (#[trigger] client.peers().key_of(peer)) is None
                },
                Err(e) => private_key@.len() != KEY_LEN && e is InvalidPrivateKey,
            },
    {
        Self::with_server(id, private_key, PublicKey(SERVER_LONG_TERM_PUBKEY))
    }

    /// A client as `new` makes it, for a server with another long-term
    /// public key.
    pub fn with_server(id: ThreemaID, private_key: &[u8], server: PublicKey) -> (r: Result<
        Self,
        Error,
    >)
        ensures
            match r {
                Ok(client) => {
                    &&& private_key@.len() == KEY_LEN
                    &&& client.identity() == id
                    &&& client.secret_key()@ == private_key@
                    &&& client.server_long_term() == server
                    &&& client.nickname() is None
                    &&& client.state() is Disconnected
                    &&& client.holds_no_session_keys()
                    &&& forall|peer: ThreemaID| (#[trigger] client.peers().key_of(peer)) is None
                },
                Err(e) => private_key@.len() != KEY_LEN && e is InvalidPrivateKey,
            },
    {
        let key = match SecretKey::from_slice(private_key) {
            Some(key) => key,
            None => {
                return Err(Error::InvalidPrivateKey);
            },
        };
        Ok(
            Threema {
                id,
                private_key: key,
                server_long_term_key: server,
                peers: PeerKeyCache::new(),
                nick: None,
                state: SessionState::Disconnected,
                client_nonce: None,
                server_nonce: None,
                server_pubkey: None,
                ephemeral_public_key: None,
                ephemeral_private_key: None,
            },
        )
    }

    /// A client for the identity that the backup `data` holds under
    /// `password`. `InvalidBackupOrPassword` where the backup does not
    /// open, `InvalidID` where what it holds is no identity, and
    /// `InvalidPrivateKey` where its key is not 32 bytes long.
    pub fn from_backup(data: &str, password: &str) -> (r: Result<Self, Error>)
        ensures
            match r {
                Ok(client) => {
                    &&& decrypted(data@, encode_utf8(password@)) matches Some((id, key))
                    &&& is_identity(encode_utf8(id))
                    &&& client.identity()@ == encode_utf8(id)
                    &&& client.secret_key()@ == key
                    &&& client.server_long_term()@ == SERVER_LONG_TERM_PUBKEY@
                    &&& client.state() is Disconnected
                    &&& client.holds_no_session_keys()
                    &&& client.nickname() is None
                    &&& forall|peer: ThreemaID| (#[trigger] client.peers().key_of(peer)) is None
                },
                Err(e) => match decrypted(data@, encode_utf8(password@)) {
                    None => e is InvalidBackupOrPassword,
                    Some((id, key)) => if !is_identity(encode_utf8(id)) {
                        e is InvalidID
                    } else {
                        key.len() != KEY_LEN && e is InvalidPrivateKey
                    },
                },
            },
    {
        let (id, private_key) = match decrypt(data, password) {
            Some(found) => found,
            None => {
                return Err(Error::InvalidBackupOrPassword);
            },
        };
        let id = ThreemaID::from_string(id.as_str())?;
        Self::new(id, private_key.as_slice())
    }

    /// The identity that the client speaks for.
    pub fn id(&self) -> (id: ThreemaID)
        ensures
            id == self.identity(),
    {
        self.id
    }

    /// How far the session has come.
    pub fn session_state(&self) -> (state: SessionState)
        ensures
            state == self.state(),
    {
        self.state
    }

    /// The key held for the peer `peer`, if one was learned.
    pub fn peer_key(&self, peer: ThreemaID) -> (key: Option<PublicKey>)
        ensures
            key == self.peers().key_of(peer),
    {
        self.peers.get(peer)
    }

    /// Takes in what the directory says is the public key of `peer`. Where
    /// a key is held for the peer already, that key stands. Gives back
    /// the key held from now on, or `InvalidPublicKey` where none is held
    /// and `key` is not 32 bytes long.
    pub fn remember_peer_key(&mut self, peer: ThreemaID, key: &[u8]) -> (r: Result<
        PublicKey,
        Error,
    >)
        ensures
            old(self).same_account(final(self)),
            old(self).same_session(final(self)),
            forall|other: ThreemaID|
                other != peer ==> (#[trigger] final(self).peers().key_of(other)) == old(
                    self,
                ).peers().key_of(other),
            match r {
                Ok(kept) => final(self).peers().key_of(peer) == Some(kept) && match old(
                    self,
                ).peers().key_of(peer) {
                    Some(held) => kept == held,
                    None => key@.len() == KEY_LEN && kept@ == key@,
                },
                Err(e) => {
                    &&& e is InvalidPublicKey
                    &&& key@.len() != KEY_LEN
                    &&& old(self).peers().key_of(peer) is None
                    &&& final(self).peers().key_of(peer) is None
                },
            },
    {
        match self.peers.get(peer) {
            Some(held) => Ok(held),
            None => match PublicKey::from_slice(key) {
                Some(key) => Ok(self.peers.remember(peer, key)),
                None => Err(Error::InvalidPublicKey),
            },
        }
    }

    /// The nickname field of the headers that this client sends: the
    /// nickname, or the identity where no nickname is set, cut or filled up
    /// to 32 bytes.
    pub fn get_nickname(&self) -> (field: [u8; 32])
        ensures
            field@ == nickname_field(
                match self.nickname() {
                    Some(nick) => encode_utf8(nick@),
                    None => self.identity()@,
                },
            ),
    {
        let id_bytes = self.id.as_bytes();
        let name: &[u8] = match &self.nick {
            Some(nick) => nick.as_str().as_bytes(),
            None => id_bytes.as_slice(),
        };
        let mut field = [0u8; 32];
        let n: usize = if name.len() < NICKNAME_LEN {
            name.len()
        } else {
            NICKNAME_LEN
        };
        let mut i: usize = 0;
        while i < n
            invariant
                i <= n <= NICKNAME_LEN,
                n <= name@.len(),
                forall|j: int| 0 <= j < i ==> field@[j] == name@[j],
                forall|j: int| i <= j < NICKNAME_LEN ==> field@[j] == 0,
            decreases n - i,
        {
            field[i] = name[i];
            i += 1;
        }
        assert(field@ =~= nickname_field(name@));
        field
    }
}


impl Threema {
    /// Whether the client has said hello and waits for the server's.
    pub open spec fn awaits_server_hello(&self) -> bool {
        &&& self.state() is Handshaking
        &&& self.server_key() is None
        &&& self.server_nonce() is None
        &&& self.ephemeral_public() is Some
        &&& self.ephemeral_secret() is Some
        &&& self.client_nonce() matches Some(nonce)
        &&& nonce.prefix_bytes().len() == NONCE_PREFIX_LEN
        &&& nonce.counter() == 1
    }

    /// Whether the server's key of the session and the client's ephemeral
    /// secret key agree, so that frames can be sealed.
    pub open spec fn session_keys_agree(&self) -> bool {
        keys_agree(self.server_key().unwrap()@, self.ephemeral_secret().unwrap()@)
    }

    /// Whether the client has logged in and waits for the server to accept.
    pub open spec fn awaits_server_ack(&self) -> bool {
        &&& self.state() is Handshaking
        &&& self.server_key() is Some
        &&& self.ephemeral_public() is Some
        &&& self.ephemeral_secret() is Some
        &&& self.session_keys_agree()
        &&& self.client_nonce() matches Some(nonce)
        &&& nonce.prefix_bytes().len() == NONCE_PREFIX_LEN
        &&& nonce.counter() == 2
        &&& self.server_nonce() matches Some(theirs)
        &&& theirs.prefix_bytes().len() == NONCE_PREFIX_LEN
        &&& theirs.counter() == 2
    }

    /// Whether frames can flow: the handshake is done, and the keys that
    /// came out of it agree.
    pub open spec fn is_connected(&self) -> bool {
        &&& self.state() is Connected
        &&& self.server_key() is Some
        &&& self.ephemeral_secret() is Some
        &&& self.session_keys_agree()
        &&& self.client_nonce() matches Some(nonce)
        &&& nonce.prefix_bytes().len() == NONCE_PREFIX_LEN
        &&& self.server_nonce() matches Some(theirs)
        &&& theirs.prefix_bytes().len() == NONCE_PREFIX_LEN
    }

    /// What the box of the server hello `hello` holds.
    pub open spec fn opened_server_hello(&self, hello: Seq<u8>) -> Option<Seq<u8>> {
        opened_box(
            hello.subrange(16, 80),
            nonce_bytes(hello.subrange(0, 16), 1),
            self.server_long_term()@,
            self.ephemeral_secret().unwrap()@,
        )
    }

    /// The server's ephemeral key, where the client waits for the hello
    /// `hello` and accepts it.
    pub open spec fn accepted_server_key(&self, hello: Seq<u8>) -> Option<Seq<u8>> {
        if self.awaits_server_hello() && hello.len() == SERVER_HELLO_LEN {
            match self.opened_server_hello(hello) {
                Some(plain) => server_hello_key(
                    plain,
                    self.client_nonce().unwrap().prefix_bytes(),
                ),
                None => None,
            }
        } else {
            None
        }
    }

    /// Whether the login can be sealed: the long-term keys of server and
    /// identity agree, and so do the server's ephemeral key `server_key`
    /// and the client's ephemeral secret key.
    pub open spec fn can_seal_login(&self, server_key: Seq<u8>) -> bool {
        &&& keys_agree(self.server_long_term()@, self.secret_key()@)
        &&& keys_agree(server_key, self.ephemeral_secret().unwrap()@)
    }

    /// The vouch: the client's ephemeral public key, sealed for the server
    /// with the long-term secret key of the identity.
    pub open spec fn vouch(&self, vouch_nonce: Seq<u8>) -> Seq<u8> {
        sealed_box(
            self.ephemeral_public().unwrap()@,
            vouch_nonce,
            self.server_long_term()@,
            self.secret_key()@,
        )
    }

    /// The sealed login that answers the server hello `hello`, given the
    /// server's ephemeral key and the prefix of the nonce of the vouch.
    pub open spec fn login_bytes(
        &self,
        hello: Seq<u8>,
        server_key: Seq<u8>,
        vouch_prefix: Seq<u8>,
    ) -> Seq<u8> {
        let vouch_nonce = nonce_bytes(vouch_prefix, 1);
        sealed_box(
            login_payload_bytes(
                self.identity()@,
                hello.subrange(0, 16),
                vouch_nonce,
                self.vouch(vouch_nonce),
            ),
            self.client_nonce().unwrap().bytes(),
            server_key,
            self.ephemeral_secret().unwrap()@,
        )
    }

    /// What the box of the server's last word `ack` holds.
    pub open spec fn opened_server_ack(&self, ack: Seq<u8>) -> Option<Seq<u8>> {
        opened_box(
            ack,
            self.server_nonce().unwrap().bytes(),
            self.server_key().unwrap()@,
            self.ephemeral_secret().unwrap()@,
        )
    }

    /// What `begin_handshake` does.
    pub open spec fn began(
        &self,
        later: &Threema,
        ephemeral_public: PublicKey,
        ephemeral_secret: SecretKey,
        client_prefix: Seq<u8>,
        r: Result<Vec<u8>, Error>,
    ) -> bool {
        &&& self.same_account(later)
        &&& match r {
            Ok(hello) => {
                &&& !(self.state() is Failed)
                &&& hello@ == client_hello_bytes(ephemeral_public@, client_prefix)
                &&& later.awaits_server_hello()
                &&& later.ephemeral_public() == Some(ephemeral_public)
                &&& later.ephemeral_secret() == Some(ephemeral_secret)
                &&& later.client_nonce().unwrap().prefix_bytes() == client_prefix
            },
            Err(e) => self.state() is Failed && e is NotConnected && self.same_session(later),
        }
    }

    /// What `login` does.
    pub open spec fn logged_in(
        &self,
        later: &Threema,
        hello: Seq<u8>,
        vouch_prefix: Seq<u8>,
        r: Result<Vec<u8>, Error>,
    ) -> bool {
        &&& self.same_account(later)
        &&& match r {
            Ok(login) => {
                &&& self.accepted_server_key(hello) matches Some(key)
                &&& self.can_seal_login(key)
                &&& self.vouch(nonce_bytes(vouch_prefix, 1)).len() == VOUCH_LEN
                &&& login@ == self.login_bytes(hello, key, vouch_prefix)
                &&& login@.len() == LOGIN_LEN
                &&& later.awaits_server_ack()
                &&& later.server_key().unwrap()@ == key
                &&& later.server_nonce().unwrap().prefix_bytes() == hello.subrange(0, 16)
                &&& later.client_nonce().unwrap().prefix_bytes() == self.client_nonce().unwrap().prefix_bytes()
                &&& later.ephemeral_public() == self.ephemeral_public()
                &&& later.ephemeral_secret() == self.ephemeral_secret()
            },
            Err(e) => if !self.awaits_server_hello() {
                e is NotConnected && self.same_session(later)
            } else {
                &&& later.state() is Failed
                &&& later.holds_no_session_keys()
                &&& match self.accepted_server_key(hello) {
                    Some(key) => !self.can_seal_login(key) && e is InvalidPublicKey,
                    None => if hello.len() == SERVER_HELLO_LEN && self.opened_server_hello(
                        hello,
                    ) is None {
                        e is DecryptionFailed
                    } else {
                        e is ParseError
                    },
                }
            },
        }
    }

    /// What `finish_handshake` does.
    pub open spec fn finished(&self, later: &Threema, ack: Seq<u8>, r: Result<(), Error>) -> bool {
        &&& self.same_account(later)
        &&& match r {
            Ok(_) => {
                &&& self.awaits_server_ack()
                &&& self.opened_server_ack(ack) == Some(zeros(16))
                &&& later.is_connected()
                &&& later.client_nonce() == self.client_nonce()
                &&& later.server_nonce().unwrap().prefix_bytes() == self.server_nonce().unwrap().prefix_bytes()
                &&& later.server_nonce().unwrap().counter() == 3
                &&& later.server_key() == self.server_key()
                &&& later.ephemeral_secret() == self.ephemeral_secret()
            },
            Err(e) => if !self.awaits_server_ack() {
                e is NotConnected && self.same_session(later)
            } else {
                &&& later.state() is Failed
                &&& later.holds_no_session_keys()
                &&& match self.opened_server_ack(ack) {
                    None => e is DecryptionFailed,
                    Some(plain) => plain != zeros(16) && e is ParseError,
                }
            },
        }
    }

    /// Breaks the session off for good, and drops its keys: for the
    /// caller whose connection broke.
    pub fn abort(&mut self)
        ensures
            old(self).same_account(final(self)),
            final(self).state() is Failed,
            final(self).holds_no_session_keys(),
    {
        self.fail()
    }

    /// Breaks the session off for good, and drops its keys.
    fn fail(&mut self)
        ensures
            old(self).same_account(final(self)),
            final(self).state() is Failed,
            final(self).holds_no_session_keys(),
    {
        self.state = SessionState::Failed;
        self.client_nonce = None;
        self.server_nonce = None;
        self.server_pubkey = None;
        self.ephemeral_public_key = None;
        self.ephemeral_private_key = None;
    }

    /// Ends the session, and drops its keys. A session that has failed
    /// stays failed.
    pub fn disconnect(&mut self)
        ensures
            old(self).same_account(final(self)),
            final(self).holds_no_session_keys(),
            final(self).state() == if old(self).state() is Failed {
                SessionState::Failed
            } else {
                SessionState::Disconnected
            },
    {
        match self.state {
            SessionState::Failed => {},
            _ => {
                self.state = SessionState::Disconnected;
            },
        }
        self.client_nonce = None;
        self.server_nonce = None;
        self.server_pubkey = None;
        self.ephemeral_public_key = None;
        self.ephemeral_private_key = None;
    }

    /// Opens the handshake with the given ephemeral key pair and nonce
    /// prefix, and gives the 48 bytes to send: the ephemeral public key and
    /// the prefix. A session that has failed cannot be opened again;
    /// any other is begun anew.
    pub fn begin_handshake(
        &mut self,
        ephemeral_public: PublicKey,
        ephemeral_secret: SecretKey,
        client_prefix: [u8; 16],
    ) -> (r: Result<Vec<u8>, Error>)
        ensures
            old(self).began(final(self), ephemeral_public, ephemeral_secret, client_prefix@, r),
    {
        match self.state {
            SessionState::Failed => {
                return Err(Error::NotConnected);
            },
            _ => {},
        }
        let hello = client_hello(&ephemeral_public, &client_prefix);
        self.state = SessionState::Handshaking;
        self.client_nonce = Some(Nonce::new(vstd::slice::slice_to_vec(client_prefix.as_slice())));
        self.server_nonce = None;
        self.server_pubkey = None;
        self.ephemeral_public_key = Some(ephemeral_public);
        self.ephemeral_private_key = Some(ephemeral_secret);
        Ok(hello)
    }

    /// Opens the handshake with a fresh ephemeral key pair and a random
    /// nonce prefix, and gives the 48 bytes to send.
    pub fn start_handshake(&mut self) -> (r: Result<Vec<u8>, Error>)
        ensures
            exists|ephemeral_public: PublicKey, ephemeral_secret: SecretKey, prefix: Seq<u8>|
                prefix.len() == NONCE_PREFIX_LEN && #[trigger] old(self).began(
                    final(self),
                    ephemeral_public,
                    ephemeral_secret,
                    prefix,
                    r,
                ),
    {
        let (ephemeral_public, ephemeral_secret) = generate_keypair();
        let drawn = random_bytes(NONCE_PREFIX_LEN);
        let prefix: [u8; 16] = byte_array(drawn.as_slice());
        let r = self.begin_handshake(ephemeral_public, ephemeral_secret, prefix);
        assert(old(self).began(self, ephemeral_public, ephemeral_secret, prefix@, r));
        r
    }

    fn is_awaiting_server_hello(&self) -> (awaiting: bool)
        ensures
            awaiting == self.awaits_server_hello(),
    {
        let handshaking = match self.state {
            SessionState::Handshaking => true,
            _ => false,
        };
        let nonce_fresh = match &self.client_nonce {
            Some(nonce) => nonce.prefix().len() == NONCE_PREFIX_LEN && nonce.count() == 1,
            None => false,
        };
        handshaking && nonce_fresh && self.server_pubkey.is_none() && self.server_nonce.is_none()
            && self.ephemeral_public_key.is_some() && self.ephemeral_private_key.is_some()
    }

    fn session_keys_agreed(&self) -> (agreed: bool)
        ensures
            agreed == (self.server_key() is Some && self.ephemeral_secret() is Some
                && self.session_keys_agree()),
    {
        match (self.server_pubkey, self.ephemeral_private_key) {
            (Some(theirs), Some(ours)) => theirs.agrees_with(&ours),
            _ => false,
        }
    }

    fn is_awaiting_server_ack(&self) -> (awaiting: bool)
        ensures
            awaiting == self.awaits_server_ack(),
    {
        let handshaking = match self.state {
            SessionState::Handshaking => true,
            _ => false,
        };
        let ours = match &self.client_nonce {
            Some(nonce) => nonce.prefix().len() == NONCE_PREFIX_LEN && nonce.count() == 2,
            None => false,
        };
        let theirs = match &self.server_nonce {
            Some(nonce) => nonce.prefix().len() == NONCE_PREFIX_LEN && nonce.count() == 2,
            None => false,
        };
        handshaking && ours && theirs && self.ephemeral_public_key.is_some()
            && self.session_keys_agreed()
    }

    /// Takes the server's hello, the 80 bytes that answer the client's,
    /// and gives the 144 bytes of the login to send. The nonce of the
    /// vouch is made of `vouch_prefix`. Where the hello is not the
    /// server's, or holds a key that no box can be sealed for, the
    /// session has failed.
    pub fn login(&mut self, server_hello: &[u8], vouch_prefix: [u8; 16]) -> (r: Result<
        Vec<u8>,
        Error,
    >)
        ensures
            old(self).logged_in(final(self), server_hello@, vouch_prefix@, r),
    {
        if !self.is_awaiting_server_hello() {
            return Err(Error::NotConnected);
        }
        if server_hello.len() != SERVER_HELLO_LEN {
            self.fail();
            return Err(Error::ParseError("server hello".to_owned()));
        }
        let ephemeral_public = self.ephemeral_public_key.unwrap();
        let ephemeral_secret = self.ephemeral_private_key.unwrap();
        let server_long_term = self.server_long_term_key;
        let server_prefix = vstd::slice::slice_subrange(server_hello, 0, 16);
        let mut server_nonce = Nonce::new(vstd::slice::slice_to_vec(server_prefix));
        let opened = match server_nonce.as_nonce() {
            Some(nonce) => box_open(
                vstd::slice::slice_subrange(server_hello, 16, 80),
                &nonce,
                &server_long_term,
                &ephemeral_secret,
            ),
            None => None,
        };
        let plain = match opened {
            Some(plain) => plain,
            None => {
                self.fail();
                return Err(Error::DecryptionFailed);
            },
        };
        let client_nonce = match self.client_nonce.take() {
            Some(nonce) => nonce,
            None => {
                self.fail();
                return Err(Error::NotConnected);
            },
        };
        let server_key = match read_server_hello(plain.as_slice(), client_nonce.prefix()) {
            Ok(key) => key,
            Err(e) => {
                self.fail();
                return Err(e);
            },
        };
        if !server_long_term.agrees_with(&self.private_key) || !server_key.agrees_with(
            &ephemeral_secret,
        ) {
            self.fail();
            return Err(Error::InvalidPublicKey);
        }
        server_nonce.inc();
        let vouch_nonce = Nonce::new(vstd::slice::slice_to_vec(vouch_prefix.as_slice()));
        let (vouch_nonce, sealing_nonce) = match (vouch_nonce.as_nonce(), client_nonce.as_nonce()) {
            (Some(vouch_nonce), Some(sealing_nonce)) => (vouch_nonce, sealing_nonce),
            _ => {
                self.fail();
                return Err(Error::NotConnected);
            },
        };
        let vouch = box_seal(
            ephemeral_public.0.as_slice(),
            &vouch_nonce,
            &server_long_term,
            &self.private_key,
        );
        let payload = login_payload(self.id, server_prefix, &vouch_nonce, vouch.as_slice());
        let login = box_seal(payload.as_slice(), &sealing_nonce, &server_key, &ephemeral_secret);
        let mut client_nonce = client_nonce;
        client_nonce.inc();
        self.client_nonce = Some(client_nonce);
        self.server_nonce = Some(server_nonce);
        self.server_pubkey = Some(server_key);
        Ok(login)
    }

    /// Takes the server's hello and gives the login to send, as `login`
    /// does, with a random nonce for the vouch.
    pub fn answer_server_hello(&mut self, server_hello: &[u8]) -> (r: Result<Vec<u8>, Error>)
        ensures
            exists|vouch_prefix: Seq<u8>|
                vouch_prefix.len() == NONCE_PREFIX_LEN && #[trigger] old(self).logged_in(
                    final(self),
                    server_hello@,
                    vouch_prefix,
                    r,
                ),
    {
        let drawn = random_bytes(NONCE_PREFIX_LEN);
        let vouch_prefix: [u8; 16] = byte_array(drawn.as_slice());
        let r = self.login(server_hello, vouch_prefix);
        assert(old(self).logged_in(self, server_hello@, vouch_prefix@, r));
        r
    }

    /// The number of bytes from the server that the next step of the
    /// handshake takes.
    pub open spec fn awaited(&self) -> nat {
        if self.awaits_server_hello() {
            SERVER_HELLO_LEN as nat
        } else if self.awaits_server_ack() {
            SERVER_ACK_LEN as nat
        } else {
            0
        }
    }

    /// What `connect` does: the step of the handshake that is due.
    pub open spec fn connect_step(
        &self,
        later: &Threema,
        received: Seq<u8>,
        r: Result<Vec<u8>, Error>,
    ) -> bool {
        if self.awaits_server_hello() {
            exists|vouch_prefix: Seq<u8>|
                vouch_prefix.len() == NONCE_PREFIX_LEN && #[trigger] self.logged_in(
                    later,
                    received,
                    vouch_prefix,
                    r,
                )
        } else if self.awaits_server_ack() {
            match r {
                Ok(out) => out@.len() == 0 && self.finished(later, received, Ok(())),
                Err(e) => self.finished(later, received, Err(e)),
            }
        } else {
            exists|ephemeral_public: PublicKey, ephemeral_secret: SecretKey, prefix: Seq<u8>|
                prefix.len() == NONCE_PREFIX_LEN && #[trigger] self.began(
                    later,
                    ephemeral_public,
                    ephemeral_secret,
                    prefix,
                    r,
                )
        }
    }

    /// The number of bytes from the server that the next step of the
    /// handshake takes: none to begin with, then the 80 of the server's
    /// hello, then the 32 of its last word.
    pub fn awaited_bytes(&self) -> (count: usize)
        ensures
            count == self.awaited(),
    {
        if self.is_awaiting_server_hello() {
            SERVER_HELLO_LEN
        } else if self.is_awaiting_server_ack() {
            SERVER_ACK_LEN
        } else {
            0
        }
    }

    /// Takes the handshake one step further: given what came from the
    /// server, as many bytes as `awaited_bytes` tells, it gives what is to
    /// be sent to the server. The first step takes nothing and opens the
    /// handshake; the last gives nothing, and leaves the session
    /// connected. A step that fails leaves the session failed.
    pub fn connect(&mut self, received: &[u8]) -> (r: Result<Vec<u8>, Error>)
        ensures
            old(self).connect_step(final(self), received@, r),
    {
        if self.is_awaiting_server_hello() {
            self.answer_server_hello(received)
        } else if self.is_awaiting_server_ack() {
            match self.finish_handshake(received) {
                Ok(_) => Ok(Vec::new()),
                Err(e) => Err(e),
            }
        } else {
            self.start_handshake()
        }
    }

    /// Takes the server's last word in the handshake, 32 bytes. Where it
    /// opens to 16 zero bytes, the session is connected; else it has
    /// failed.
    pub fn finish_handshake(&mut self, server_ack: &[u8]) -> (r: Result<(), Error>)
        ensures
            old(self).finished(final(self), server_ack@, r),
    {
        if !self.is_awaiting_server_ack() {
            return Err(Error::NotConnected);
        }
        let ephemeral_secret = self.ephemeral_private_key.unwrap();
        let server_key = self.server_pubkey.unwrap();
        let mut server_nonce = match self.server_nonce.take() {
            Some(nonce) => nonce,
            None => {
                self.fail();
                return Err(Error::NotConnected);
            },
        };
        let opened = match server_nonce.as_nonce() {
            Some(nonce) => box_open(server_ack, &nonce, &server_key, &ephemeral_secret),
            None => None,
        };
        let plain = match opened {
            Some(plain) => plain,
            None => {
                self.fail();
                return Err(Error::DecryptionFailed);
            },
        };
        match check_server_ack(plain.as_slice()) {
            Ok(_) => {},
            Err(e) => {
                self.fail();
                return Err(e);
            },
        }
        server_nonce.inc();
        self.server_nonce = Some(server_nonce);
        self.state = SessionState::Connected;
        Ok(())
    }
}

/// Length of the length that stands in front of every frame, in bytes.
pub const FRAME_PREFIX_LEN: usize = 2;

/// Length of the packet that tells the server that a message has arrived:
/// its tag, the identity of the sender and the identifier of the message.
pub const CLIENT_ACK_LEN: usize = 20;

/// A frame as it goes over the wire: the length of the sealed bytes, on
/// two bytes and so cut to its low 16 bits, and then the sealed bytes.
pub open spec fn frame_bytes(sealed: Seq<u8>) -> Seq<u8> {
    le_bytes(sealed.len(), 2) + sealed
}

/// Puts the length of `sealed` in front of it.
pub fn frame(sealed: Vec<u8>) -> (framed: Vec<u8>)
    ensures
        framed@ == frame_bytes(sealed@),
{
    let mut sealed = sealed;
    let mut framed = encode_le(sealed.len() as u64, FRAME_PREFIX_LEN);
    framed.append(&mut sealed);
    framed
}

/// The number of sealed bytes that follow the two bytes `prefix`.
pub fn frame_length(prefix: [u8; 2]) -> (length: usize)
    ensures
        length == le_value(prefix@),
        length < 0x1_0000,
{
    proof {
        lemma_le_value_bound(prefix@);
        lemma_pow256_values();
    }
    let length = crate::flat::decode_le(prefix.as_slice(), FRAME_PREFIX_LEN);
    assert(prefix@.take(2) =~= prefix@);
    length as usize
}

/// Takes the packet off the front of an opened frame, and gives it with
/// what follows it. `ParseError` where no packet stands there.
pub fn split_packet(plain: Vec<u8>) -> (r: Result<(Packet, Vec<u8>), Error>)
    ensures
        match r {
            Ok((packet, rest)) => Packet::decoding(plain@) matches Some((p, used)) && p == packet
                && rest@ == plain@.skip(used as int),
            Err(e) => Packet::decoding(plain@) is None && e is ParseError,
        },
{
    match Packet::deserialize_with_size(plain.as_slice()) {
        Some((packet, used)) => {
            let rest = vstd::slice::slice_to_vec(
                vstd::slice::slice_subrange(plain.as_slice(), used, plain.len()),
            );
            assert(rest@ =~= plain@.skip(used as int));
            Ok((packet, rest))
        },
        None => Err(Error::ParseError("packet".to_owned())),
    }
}

impl Threema {
    /// Whether a frame can be sealed: the session is connected, and the
    /// nonce of the client has a value left.
    pub open spec fn can_send(&self) -> bool {
        self.is_connected() && self.client_nonce().unwrap().counter() < u64::MAX
    }

    /// Whether a frame can be opened: the session is connected, and the
    /// nonce of the server has a value left.
    pub open spec fn can_receive(&self) -> bool {
        self.is_connected() && self.server_nonce().unwrap().counter() < u64::MAX
    }

    /// `payload` sealed for the server under the client's nonce.
    pub open spec fn sealed_frame(&self, payload: Seq<u8>) -> Seq<u8> {
        sealed_box(
            payload,
            self.client_nonce().unwrap().bytes(),
            self.server_key().unwrap()@,
            self.ephemeral_secret().unwrap()@,
        )
    }

    /// What the sealed bytes `sealed` of a frame hold under the server's
    /// nonce.
    pub open spec fn opened_frame(&self, sealed: Seq<u8>) -> Option<Seq<u8>> {
        opened_box(
            sealed,
            self.server_nonce().unwrap().bytes(),
            self.server_key().unwrap()@,
            self.ephemeral_secret().unwrap()@,
        )
    }

    /// Whether `later` is this session after one frame was sealed.
    pub open spec fn one_sent(&self, later: &Threema) -> bool {
        &&& later.is_connected()
        &&& later.client_nonce().unwrap().prefix_bytes() == self.client_nonce().unwrap().prefix_bytes()
        &&& later.client_nonce().unwrap().counter() == self.client_nonce().unwrap().counter() + 1
        &&& later.server_nonce() == self.server_nonce()
        &&& later.server_key() == self.server_key()
        &&& later.ephemeral_public() == self.ephemeral_public()
        &&& later.ephemeral_secret() == self.ephemeral_secret()
    }

    /// Whether `later` is this session after one frame was opened.
    pub open spec fn one_received(&self, later: &Threema) -> bool {
        &&& later.is_connected()
        &&& later.server_nonce().unwrap().prefix_bytes() == self.server_nonce().unwrap().prefix_bytes()
        &&& later.server_nonce().unwrap().counter() == self.server_nonce().unwrap().counter() + 1
        &&& later.client_nonce() == self.client_nonce()
        &&& later.server_key() == self.server_key()
        &&& later.ephemeral_public() == self.ephemeral_public()
        &&& later.ephemeral_secret() == self.ephemeral_secret()
    }

    /// Whether `later` is what is left where no frame could be sealed or
    /// opened: a session that is not connected stays as it is, and one
    /// whose nonce has run out has failed.
    pub open spec fn refused(&self, later: &Threema) -> bool {
        if self.is_connected() {
            later.state() is Failed && later.holds_no_session_keys()
        } else {
            self.same_session(later)
        }
    }

    /// What is left where no frame could be sealed: a session that is not
    /// connected stays as it is, and one whose nonce has run out has
    /// failed. Both give `NotConnected`.
    pub open spec fn send_refused(&self, later: &Threema, e: Error) -> bool {
        !self.can_send() && e is NotConnected && self.refused(later)
    }

    /// What `send` does.
    pub open spec fn sent(&self, later: &Threema, data: Seq<u8>, r: Result<Vec<u8>, Error>) -> bool {
        &&& self.same_account(later)
        &&& match r {
            Ok(framed) => {
                &&& self.can_send()
                &&& framed@ == frame_bytes(self.sealed_frame(data))
                &&& self.sealed_frame(data).len() == data.len() + MAC_LEN
                &&& framed@.len() == FRAME_PREFIX_LEN + data.len() + MAC_LEN
                &&& self.one_sent(later)
            },
            Err(e) => self.send_refused(later, e),
        }
    }

    /// What opening a frame does.
    pub open spec fn opened(&self, later: &Threema, sealed: Seq<u8>, r: Result<Vec<u8>, Error>) -> bool {
        &&& self.same_account(later)
        &&& match r {
            Ok(plain) => {
                &&& self.can_receive()
                &&& self.opened_frame(sealed) == Some(plain@)
                &&& self.one_received(later)
            },
            Err(e) => if !self.can_receive() {
                e is NotConnected && self.refused(later)
            } else {
                &&& self.opened_frame(sealed) is None
                &&& e is DecryptionFailed
                &&& later.state() is Failed
                &&& later.holds_no_session_keys()
            },
        }
    }

    /// What `receive_packet` does.
    pub open spec fn packet_received(
        &self,
        later: &Threema,
        sealed: Seq<u8>,
        r: Result<(Packet, Vec<u8>), Error>,
    ) -> bool {
        &&& self.same_account(later)
        &&& match r {
            Ok((packet, rest)) => {
                &&& self.can_receive()
                &&& self.opened_frame(sealed) matches Some(plain)
                &&& Packet::decoding(plain) matches Some((p, used))
                &&& p == packet
                &&& rest@ == plain.skip(used as int)
                &&& self.one_received(later)
            },
            Err(e) => if !self.can_receive() {
                e is NotConnected && self.refused(later)
            } else {
                match self.opened_frame(sealed) {
                    None => {
                        &&& e is DecryptionFailed
                        &&& later.state() is Failed
                        &&& later.holds_no_session_keys()
                    },
                    Some(plain) => {
                        &&& Packet::decoding(plain) is None
                        &&& e is ParseError
                        &&& self.one_received(later)
                    },
                }
            },
        }
    }

    /// A frame that is sealed or opened moves the nonce of its direction
    /// on to a value that differs from the one before, and leaves the
    /// prefix alone: no two frames of a direction share a nonce.
    pub proof fn lemma_nonces_move_on(&self, later: &Threema)
        requires
            self.is_connected(),
            self.one_sent(later) || self.one_received(later) || self.one_each_way(later),
        ensures
            self.one_sent(later) || self.one_each_way(later) ==> later.client_nonce().unwrap().bytes()
                != self.client_nonce().unwrap().bytes() && later.client_nonce().unwrap().counter()
                > self.client_nonce().unwrap().counter(),
            self.one_received(later) || self.one_each_way(later)
                ==> later.server_nonce().unwrap().bytes() != self.server_nonce().unwrap().bytes()
                && later.server_nonce().unwrap().counter() > self.server_nonce().unwrap().counter(),
    {
        if self.one_sent(later) || self.one_each_way(later) {
            self.client_nonce().unwrap().lemma_counter_monotonic(&later.client_nonce().unwrap());
        }
        if self.one_received(later) || self.one_each_way(later) {
            self.server_nonce().unwrap().lemma_counter_monotonic(&later.server_nonce().unwrap());
        }
    }

    fn is_ready(&self) -> (ready: bool)
        ensures
            ready == self.is_connected(),
    {
        let connected = match self.state {
            SessionState::Connected => true,
            _ => false,
        };
        let ours = match &self.client_nonce {
            Some(nonce) => nonce.prefix().len() == NONCE_PREFIX_LEN,
            None => false,
        };
        let theirs = match &self.server_nonce {
            Some(nonce) => nonce.prefix().len() == NONCE_PREFIX_LEN,
            None => false,
        };
        connected && ours && theirs && self.session_keys_agreed()
    }

    /// Seals `data` into a frame for the server, and gives the bytes to
    /// send: the length of the sealed bytes and the sealed bytes, which
    /// are 16 more than those of `data`. The nonce moves on, so that no
    /// frame is sealed under the nonce of another. `NotConnected` where
    /// the session is not connected or its nonce has run out.
    pub fn send(&mut self, data: &[u8]) -> (r: Result<Vec<u8>, Error>)
        requires
            data@.len() + MAC_LEN <= usize::MAX,
        ensures
            old(self).sent(final(self), data@, r),
    {
        if !self.is_ready() {
            return Err(Error::NotConnected);
        }
        let server_key = self.server_pubkey.unwrap();
        let ephemeral_secret = self.ephemeral_private_key.unwrap();
        let mut nonce = match self.client_nonce.take() {
            Some(nonce) => nonce,
            None => {
                self.fail();
                return Err(Error::NotConnected);
            },
        };
        let bytes = match nonce.as_nonce() {
            Some(bytes) => bytes,
            None => {
                self.fail();
                return Err(Error::NotConnected);
            },
        };
        if nonce.is_exhausted() {
            self.fail();
            return Err(Error::NotConnected);
        }
        let sealed = box_seal(data, &bytes, &server_key, &ephemeral_secret);
        proof {
            lemma_le_bytes_len(sealed@.len(), 2);
        }
        nonce.inc();
        self.client_nonce = Some(nonce);
        Ok(frame(sealed))
    }

    /// Opens the sealed bytes of a frame from the server. The nonce moves
    /// on. A frame that does not open breaks the session.
    fn open_frame(&mut self, sealed: &[u8]) -> (r: Result<Vec<u8>, Error>)
        ensures
            old(self).opened(final(self), sealed@, r),
    {
        if !self.is_ready() {
            return Err(Error::NotConnected);
        }
        let server_key = self.server_pubkey.unwrap();
        let ephemeral_secret = self.ephemeral_private_key.unwrap();
        let mut nonce = match self.server_nonce.take() {
            Some(nonce) => nonce,
            None => {
                self.fail();
                return Err(Error::NotConnected);
            },
        };
        let bytes = match nonce.as_nonce() {
            Some(bytes) => bytes,
            None => {
                self.fail();
                return Err(Error::NotConnected);
            },
        };
        if nonce.is_exhausted() {
            self.fail();
            return Err(Error::NotConnected);
        }
        let plain = match box_open(sealed, &bytes, &server_key, &ephemeral_secret) {
            Some(plain) => plain,
            None => {
                self.fail();
                return Err(Error::DecryptionFailed);
            },
        };
        nonce.inc();
        self.server_nonce = Some(nonce);
        Ok(plain)
    }

    /// Opens the sealed bytes of a frame from the server, and gives the
    /// packet that it holds with what follows the packet. A frame that
    /// does not open breaks the session; one that holds no packet does
    /// not.
    pub fn receive_packet(&mut self, sealed: &[u8]) -> (r: Result<(Packet, Vec<u8>), Error>)
        ensures
            old(self).packet_received(final(self), sealed@, r),
    {
        let plain = self.open_frame(sealed)?;
        split_packet(plain)
    }
}

/// What chance adds to an outgoing message: its identifier, the nonce
/// under which its body is sealed, and the amount of its padding.
#[derive(Debug, Clone, Copy)]
pub struct Draw {
    pub msg_id: MessageID,
    pub nonce: [u8; 24],
    pub pad: u8,
}

impl Draw {
    /// A fresh draw, with padding of 1 to 32 bytes.
    pub fn random() -> (draw: Self)
        ensures
            1 <= draw.pad <= MAX_PADDING,
    {
        let nonce = random_bytes(24);
        let pad = random_below(MAX_PADDING as u32) + 1;
        Draw { msg_id: MessageID::random(), nonce: byte_array(nonce.as_slice()), pad: pad as u8 }
    }
}

/// A message on its way to the server: the packet with the header, and
/// then the sealed body.
pub open spec fn envelope_bytes(header: Header, sealed_body: Seq<u8>) -> Seq<u8> {
    Packet::ClientToServer(header).encoding() + sealed_body
}

/// Puts header and sealed body together for the server.
pub fn envelope(header: Header, sealed_body: Vec<u8>) -> (out: Vec<u8>)
    ensures
        out@ == envelope_bytes(header, sealed_body@),
        out@.len() == PACKET_TAG_LEN + HEADER_LEN + sealed_body@.len(),
{
    proof {
        header.lemma_encoding_len();
        Packet::ClientToServer(header).lemma_encoding_len();
    }
    let mut sealed_body = sealed_body;
    let mut out = Packet::ClientToServer(header).serialize();
    out.append(&mut sealed_body);
    out
}

/// What a packet from the server asks for.
#[derive(Debug, Clone, Copy)]
pub enum Dispatch {
    /// A message came in under this header; its sealed body follows the
    /// packet.
    Deliver(Header),
    /// The server has ended the session.
    Disconnect,
    /// Nothing.
    Continue,
}

/// What the packet `packet` asks for.
pub open spec fn dispatched(packet: Packet) -> Dispatch {
    match packet {
        Packet::ClientToServer(header) => Dispatch::Deliver(header),
        Packet::ServerToClient(header) => Dispatch::Deliver(header),
        Packet::DuplicateConnection => Dispatch::Disconnect,
        _ => Dispatch::Continue,
    }
}

/// Tells what a packet from the server asks for.
pub fn dispatch(packet: &Packet) -> (what: Dispatch)
    ensures
        what == dispatched(*packet),
{
    match packet {
        Packet::ClientToServer(header) => Dispatch::Deliver(*header),
        Packet::ServerToClient(header) => Dispatch::Deliver(*header),
        Packet::DuplicateConnection => Dispatch::Disconnect,
        _ => Dispatch::Continue,
    }
}

/// Whether a message of this kind is answered with a delivery receipt:
/// each is, but a receipt itself and the word that someone is typing.
pub open spec fn wants_receipt(message: Message) -> bool {
    !(message is TypingNotification || message is DeliveryReceipt)
}

/// Tells whether a message is answered with a delivery receipt.
pub fn answers_with_receipt(message: &Message) -> (wanted: bool)
    ensures
        wanted == wants_receipt(*message),
{
    match message {
        Message::TypingNotification => false,
        Message::DeliveryReceipt(_, _) => false,
        _ => true,
    }
}

/// Reads an opened message body: takes the padding off, and decodes what
/// is left. `Ok(None)` where what is left starts with the tag of no
/// message; `ParseError` where the padding is wrong or the message does
/// not decode.
pub fn read_body(plain: &[u8]) -> (r: Result<Option<Message>, Error>)
    ensures
        match unpadded(plain@) {
            None => r matches Err(e) && e is ParseError,
            Some(data) => if !starts_with_known_tag::<Message>(data) {
                r matches Ok(None)
            } else {
                match Message::decoding(data) {
                    None => r matches Err(e) && e is ParseError,
                    Some((decoded, _)) => r matches Ok(Some(message)) && message.same_value(
                        &decoded,
                    ),
                }
            },
        },
{
    let data = match strip_padding(plain) {
        Some(data) => data,
        None => {
            return Err(Error::ParseError("padding".to_owned()));
        },
    };
    if !Message::has_known_tag(data.as_slice()) {
        return Ok(None);
    }
    match Message::deserialize_with_size(data.as_slice()) {
        Some((message, _)) => Ok(Some(message)),
        None => Err(Error::ParseError("message".to_owned())),
    }
}

/// A message that came in, with its sender and its identifier.
#[derive(Debug)]
pub struct ServerMessage {
    pub msg_id: MessageID,
    pub sender: ThreemaID,
    pub data: Message,
}

/// What a frame from the server brought.
#[derive(Debug)]
pub enum Inbound {
    /// A message. `ack` is the frame that tells the server that the
    /// message has arrived; it is to be sent before the message is opened.
    Delivery { header: Header, body: Vec<u8>, ack: Vec<u8> },
    /// A packet that asks for nothing.
    Packet(Packet),
    /// Something that starts with the tag of no packet. It is passed over.
    Unknown,
}

/// What opening a delivery brought.
#[derive(Debug)]
pub enum Opened {
    /// A message. `receipt` is the frame that tells the sender that the
    /// message has arrived, where the message is of a kind that is
    /// answered so.
    Message { message: ServerMessage, receipt: Option<Vec<u8>> },
    /// Something that starts with the tag of no message. It is passed over.
    Unknown,
}

/// The body of a text message.
pub open spec fn text_body(text: Seq<char>) -> Seq<u8> {
    seq![0x01u8] + encode_utf8(text)
}

/// The body of the receipt that tells that the message `message` has been
/// delivered.
pub open spec fn receipt_body(message: MessageID) -> Seq<u8> {
    seq![0x80u8, 0x01u8] + message@
}

impl Threema {
    /// The header of a message to `receiver` at the time `unix_seconds`.
    pub open spec fn header_for(&self, receiver: ThreemaID, unix_seconds: u64, draw: Draw) -> Header {
        Header {
            sender: self.identity(),
            receiver,
            msg_id: draw.msg_id,
            timestamp: (unix_seconds % 0x1_0000_0000) as u32,
            flags: 1,
            nickname: crate::flat::array_of(
                nickname_field(
                    match self.nickname() {
                        Some(nick) => encode_utf8(nick@),
                        None => self.identity()@,
                    },
                ),
            ),
            nonce: draw.nonce,
        }
    }

    /// The body `data`, padded and sealed for the holder of `key`.
    pub open spec fn sealed_body(&self, key: PublicKey, data: Seq<u8>, draw: Draw) -> Seq<u8> {
        sealed_box(padded(data, draw.pad), draw.nonce@, key@, self.secret_key()@)
    }

    /// What goes into the frame that carries the body `data` to `receiver`.
    pub open spec fn outgoing(
        &self,
        receiver: ThreemaID,
        key: PublicKey,
        data: Seq<u8>,
        unix_seconds: u64,
        draw: Draw,
    ) -> Seq<u8> {
        envelope_bytes(
            self.header_for(receiver, unix_seconds, draw),
            self.sealed_body(key, data, draw),
        )
    }

    /// What sending a message does: without the key of the receiver, or
    /// with a key that does not agree with the secret key of the identity,
    /// nothing is sent; else the message goes out in one frame.
    pub open spec fn message_sent(
        &self,
        later: &Threema,
        receiver: ThreemaID,
        data: Seq<u8>,
        unix_seconds: u64,
        draw: Draw,
        r: Result<(MessageID, Vec<u8>), Error>,
    ) -> bool {
        &&& self.same_account(later)
        &&& match self.peers().key_of(receiver) {
            None => r matches Err(e) && e is RequestError && self.same_session(later),
            Some(key) => if !keys_agree(key@, self.secret_key()@) {
                r matches Err(e) && e is InvalidPublicKey && self.same_session(later)
            } else {
                match r {
                    Ok((id, framed)) => {
                        &&& id == draw.msg_id
                        &&& self.can_send()
                        &&& framed@ == frame_bytes(
                            self.sealed_frame(
                                self.outgoing(receiver, key, data, unix_seconds, draw),
                            ),
                        )
                        &&& self.sealed_body(key, data, draw).len() == data.len() + draw.pad
                            + MAC_LEN
                        &&& self.outgoing(receiver, key, data, unix_seconds, draw).len()
                            == PACKET_TAG_LEN + HEADER_LEN + data.len() + draw.pad + MAC_LEN
                        &&& framed@.len() == FRAME_PREFIX_LEN + PACKET_TAG_LEN + HEADER_LEN
                            + data.len() + draw.pad + MAC_LEN + MAC_LEN
                        &&& self.one_sent(later)
                    },
                    Err(e) => self.send_refused(later, e),
                }
            },
        }
    }

    /// Seals the message body `data` for `receiver` and gives its
    /// identifier and the frame to send, with what chance adds given as
    /// `draw`. The key of the receiver must have been learned, and must
    /// agree with the secret key of the identity.
    pub fn seal_message(
        &mut self,
        receiver: ThreemaID,
        data: Vec<u8>,
        unix_seconds: u64,
        draw: Draw,
    ) -> (r: Result<(MessageID, Vec<u8>), Error>)
        requires
            data@.len() + 512 <= usize::MAX,
        ensures
            old(self).message_sent(final(self), receiver, data@, unix_seconds, draw, r),
    {
        let key = match self.peers.get(receiver) {
            Some(key) => key,
            None => {
                return Err(Error::RequestError);
            },
        };
        if !key.agrees_with(&self.private_key) {
            return Err(Error::InvalidPublicKey);
        }
        let nickname = self.get_nickname();
        proof {
            crate::flat::lemma_array_of_view::<u8, 32>(nickname);
        }
        let header = Header {
            sender: self.id,
            receiver,
            msg_id: draw.msg_id,
            timestamp: (unix_seconds % 0x1_0000_0000) as u32,
            flags: 1,
            nickname,
            nonce: draw.nonce,
        };
        let body = pad_message(data, draw.pad);
        let sealed = box_seal(body.as_slice(), &draw.nonce, &key, &self.private_key);
        let packet = envelope(header, sealed);
        let framed = self.send(packet.as_slice())?;
        Ok((draw.msg_id, framed))
    }

    /// Seals the message body `data` for `receiver`, with a fresh
    /// identifier, nonce and padding, and gives the identifier and the
    /// frame to send.
    pub fn send_message(&mut self, receiver: ThreemaID, data: Vec<u8>, unix_seconds: u64) -> (r:
        Result<(MessageID, Vec<u8>), Error>)
        requires
            data@.len() + 512 <= usize::MAX,
        ensures
            exists|draw: Draw|
                1 <= draw.pad <= MAX_PADDING && #[trigger] old(self).message_sent(
                    final(self),
                    receiver,
                    data@,
                    unix_seconds,
                    draw,
                    r,
                ),
    {
        let draw = Draw::random();
        let r = self.seal_message(receiver, data, unix_seconds, draw);
        assert(old(self).message_sent(self, receiver, data@, unix_seconds, draw, r));
        r
    }

    /// Seals the text `message` for `receiver`, and gives the identifier
    /// of the message and the frame to send. That the frame is sent does
    /// not mean that the server has taken the message: the server says so
    /// later, in a packet of its own.
    pub fn send_text_message(
        &mut self,
        receiver: ThreemaID,
        message: String,
        unix_seconds: u64,
    ) -> (r: Result<(MessageID, Vec<u8>), Error>)
        requires
            encode_utf8(message@).len() + 513 <= usize::MAX,
        ensures
            exists|draw: Draw|
                1 <= draw.pad <= MAX_PADDING && #[trigger] old(self).message_sent(
                    final(self),
                    receiver,
                    text_body(message@),
                    unix_seconds,
                    draw,
                    r,
                ),
    {
        let ghost body = text_body(message@);
        let msg = Message::Text(Text { message });
        let data = msg.serialize();
        assert(data@ =~= body);
        let r = self.send_message(receiver, data, unix_seconds);
        proof {
            let draw = choose|draw: Draw|
                1 <= draw.pad <= MAX_PADDING && #[trigger] old(self).message_sent(
                    self,
                    receiver,
                    body,
                    unix_seconds,
                    draw,
                    r,
                );
            assert(old(self).message_sent(self, receiver, body, unix_seconds, draw, r));
        }
        r
    }

    /// Seals the receipt that tells `receiver` that the message `msg_id`
    /// has been delivered, and gives the frame to send.
    pub fn confirm_receipt(&mut self, receiver: ThreemaID, msg_id: MessageID, unix_seconds: u64) -> (r:
        Result<(MessageID, Vec<u8>), Error>)
        ensures
            exists|draw: Draw|
                1 <= draw.pad <= MAX_PADDING && #[trigger] old(self).message_sent(
                    final(self),
                    receiver,
                    receipt_body(msg_id),
                    unix_seconds,
                    draw,
                    r,
                ),
    {
        let draw = Draw::random();
        let r = self.seal_receipt(receiver, msg_id, unix_seconds, draw);
        assert(old(self).message_sent(self, receiver, receipt_body(msg_id), unix_seconds, draw, r));
        r
    }

    /// Seals the receipt that tells `receiver` that the message `msg_id`
    /// has been delivered, with what chance adds given as `draw`.
    pub fn seal_receipt(
        &mut self,
        receiver: ThreemaID,
        msg_id: MessageID,
        unix_seconds: u64,
        draw: Draw,
    ) -> (r: Result<(MessageID, Vec<u8>), Error>)
        ensures
            old(self).message_sent(
                final(self),
                receiver,
                receipt_body(msg_id),
                unix_seconds,
                draw,
                r,
            ),
    {
        let receipt = Message::DeliveryReceipt(MessageStatus::Delivered, msg_id);
        let data = receipt.serialize();
        proof {
            msg_id.lemma_view();
            assert(data@ =~= receipt_body(msg_id));
        }
        self.seal_message(receiver, data, unix_seconds, draw)
    }

    /// Seals the word to the server that the message `msg_id` of
    /// `receiver` has arrived, and gives the frame to send.
    pub fn send_ack(&mut self, receiver: ThreemaID, msg_id: MessageID) -> (r: Result<Vec<u8>, Error>)
        ensures
            old(self).sent(final(self), Packet::ClientAck(receiver, msg_id).encoding(), r),
    {
        let ack = Packet::ClientAck(receiver, msg_id);
        proof {
            ack.lemma_encoding_len();
            receiver.lemma_view();
            msg_id.lemma_view();
        }
        let data = ack.serialize();
        self.send(data.as_slice())
    }
}

impl Threema {
    /// Whether `later` is this session after one frame was opened and one
    /// was sealed.
    pub open spec fn one_each_way(&self, later: &Threema) -> bool {
        &&& later.is_connected()
        &&& later.client_nonce().unwrap().prefix_bytes() == self.client_nonce().unwrap().prefix_bytes()
        &&& later.client_nonce().unwrap().counter() == self.client_nonce().unwrap().counter() + 1
        &&& later.server_nonce().unwrap().prefix_bytes() == self.server_nonce().unwrap().prefix_bytes()
        &&& later.server_nonce().unwrap().counter() == self.server_nonce().unwrap().counter() + 1
        &&& later.server_key() == self.server_key()
        &&& later.ephemeral_public() == self.ephemeral_public()
        &&& later.ephemeral_secret() == self.ephemeral_secret()
    }

    /// What `receive` does with the packet `packet` that a frame
    /// brought, followed by `rest`.
    pub open spec fn packet_handled(
        &self,
        later: &Threema,
        packet: Packet,
        rest: Seq<u8>,
        r: Result<Inbound, Error>,
    ) -> bool {
        match dispatched(packet) {
            Dispatch::Continue => r matches Ok(Inbound::Packet(p)) && p == packet
                && self.one_received(later),
            Dispatch::Disconnect => {
                &&& r matches Err(e)
                &&& e is NotConnected
                &&& later.state() is Disconnected
                &&& later.holds_no_session_keys()
            },
            Dispatch::Deliver(header) => match r {
                Ok(Inbound::Delivery { header: given, body, ack }) => {
                    &&& given == header
                    &&& body@ == rest
                    &&& self.can_send()
                    &&& ack@ == frame_bytes(
                        self.sealed_frame(
                            Packet::ClientAck(header.sender, header.msg_id).encoding(),
                        ),
                    )
                    &&& ack@.len() == FRAME_PREFIX_LEN + CLIENT_ACK_LEN + MAC_LEN
                    &&& self.one_each_way(later)
                },
                Ok(_) => false,
                Err(e) => self.send_refused(later, e),
            },
        }
    }

    /// What `receive` does.
    pub open spec fn frame_received(
        &self,
        later: &Threema,
        sealed: Seq<u8>,
        r: Result<Inbound, Error>,
    ) -> bool {
        &&& self.same_account(later)
        &&& if !self.can_receive() {
            r matches Err(e) && e is NotConnected && self.refused(later)
        } else {
            match self.opened_frame(sealed) {
                None => {
                    &&& r matches Err(e)
                    &&& e is DecryptionFailed
                    &&& later.state() is Failed
                    &&& later.holds_no_session_keys()
                },
                Some(plain) => if !starts_with_known_tag::<Packet>(plain) {
                    r matches Ok(Inbound::Unknown) && self.one_received(later)
                } else {
                    match Packet::decoding(plain) {
                        None => r matches Err(e) && e is ParseError && self.one_received(later),
                        Some((packet, used)) => self.packet_handled(
                            later,
                            packet,
                            plain.skip(used as int),
                            r,
                        ),
                    }
                },
            }
        }
    }

    /// Takes the sealed bytes of a frame from the server, and tells what
    /// the frame brought. For a message it seals the word to the server
    /// that the message has arrived. What starts with the tag of no packet
    /// is passed over; where the server ends the session, the session is
    /// disconnected.
    pub fn receive(&mut self, sealed: &[u8]) -> (r: Result<Inbound, Error>)
        ensures
            old(self).frame_received(final(self), sealed@, r),
    {
        let plain = self.open_frame(sealed)?;
        if !Packet::has_known_tag(plain.as_slice()) {
            return Ok(Inbound::Unknown);
        }
        let (packet, rest) = split_packet(plain)?;
        match dispatch(&packet) {
            Dispatch::Continue => Ok(Inbound::Packet(packet)),
            Dispatch::Disconnect => {
                self.disconnect();
                Err(Error::NotConnected)
            },
            Dispatch::Deliver(header) => {
                proof {
                    Packet::ClientAck(header.sender, header.msg_id).lemma_encoding_len();
                    header.sender.lemma_view();
                    header.msg_id.lemma_view();
                }
                let ack = self.send_ack(header.sender, header.msg_id)?;
                Ok(Inbound::Delivery { header, body: rest, ack })
            },
        }
    }

    /// What the sealed body `body` of a message holds, where it comes
    /// from the holder of `key` under the nonce of `header`.
    pub open spec fn opened_body(&self, header: Header, key: PublicKey, body: Seq<u8>) -> Option<
        Seq<u8>,
    > {
        opened_box(body, header.nonce@, key@, self.secret_key()@)
    }

    /// What opening a delivery does, given the message `decoded` that the
    /// body holds.
    pub open spec fn message_taken(
        &self,
        later: &Threema,
        header: Header,
        decoded: Message,
        unix_seconds: u64,
        draw: Draw,
        r: Result<Opened, Error>,
    ) -> bool {
        if !wants_receipt(decoded) {
            &&& r matches Ok(Opened::Message { message, receipt })
            &&& receipt is None
            &&& message.msg_id == header.msg_id
            &&& message.sender == header.sender
            &&& message.data.same_value(&decoded)
            &&& self.same_session(later)
        } else {
            match r {
                Ok(Opened::Message { message, receipt }) => {
                    &&& message.msg_id == header.msg_id
                    &&& message.sender == header.sender
                    &&& message.data.same_value(&decoded)
                    &&& receipt matches Some(framed)
                    &&& self.message_sent(
                        later,
                        header.sender,
                        receipt_body(header.msg_id),
                        unix_seconds,
                        draw,
                        Ok((draw.msg_id, framed)),
                    )
                },
                Ok(Opened::Unknown) => false,
                Err(e) => self.message_sent(
                    later,
                    header.sender,
                    receipt_body(header.msg_id),
                    unix_seconds,
                    draw,
                    Err(e),
                ),
            }
        }
    }

    /// What `open_delivery_with` does.
    pub open spec fn delivery_opened(
        &self,
        later: &Threema,
        header: Header,
        body: Seq<u8>,
        unix_seconds: u64,
        draw: Draw,
        r: Result<Opened, Error>,
    ) -> bool {
        &&& self.same_account(later)
        &&& match self.peers().key_of(header.sender) {
            None => r matches Err(e) && e is RequestError && self.same_session(later),
            Some(key) => match self.opened_body(header, key, body) {
                None => r matches Err(e) && e is DecryptionFailed && self.same_session(later),
                Some(plain) => match unpadded(plain) {
                    None => r matches Err(e) && e is ParseError && self.same_session(later),
                    Some(data) => if !starts_with_known_tag::<Message>(data) {
                        r matches Ok(Opened::Unknown) && self.same_session(later)
                    } else {
                        match Message::decoding(data) {
                            None => r matches Err(e) && e is ParseError && self.same_session(
                                later,
                            ),
                            Some((decoded, _)) => self.message_taken(
                                later,
                                header,
                                decoded,
                                unix_seconds,
                                draw,
                                r,
                            ),
                        }
                    },
                },
            },
        }
    }

    /// Opens the sealed body of a message that came in under `header`,
    /// with the key held for its sender. Where the message is of a kind
    /// that is answered with a delivery receipt, the receipt is sealed,
    /// with what chance adds to it given as `draw`. A body that does not
    /// open, or holds no message, leaves the session as it is.
    pub fn open_delivery_with(
        &mut self,
        header: &Header,
        body: &[u8],
        unix_seconds: u64,
        draw: Draw,
    ) -> (r: Result<Opened, Error>)
        ensures
            old(self).delivery_opened(final(self), *header, body@, unix_seconds, draw, r),
    {
        let key = match self.peers.get(header.sender) {
            Some(key) => key,
            None => {
                return Err(Error::RequestError);
            },
        };
        let plain = match box_open(body, &header.nonce, &key, &self.private_key) {
            Some(plain) => plain,
            None => {
                return Err(Error::DecryptionFailed);
            },
        };
        let data = match read_body(plain.as_slice())? {
            Some(data) => data,
            None => {
                return Ok(Opened::Unknown);
            },
        };
        let receipt = if answers_with_receipt(&data) {
            let (_, framed) = self.seal_receipt(header.sender, header.msg_id, unix_seconds, draw)?;
            Some(framed)
        } else {
            None
        };
        Ok(
            Opened::Message {
                message: ServerMessage { msg_id: header.msg_id, sender: header.sender, data },
                receipt,
            },
        )
    }

    /// Opens the sealed body of a message that came in under `header`, as
    /// `open_delivery_with` does, with a fresh identifier, nonce and
    /// padding for the receipt.
    pub fn open_delivery(&mut self, header: &Header, body: &[u8], unix_seconds: u64) -> (r: Result<
        Opened,
        Error,
    >)
        ensures
            exists|draw: Draw|
                1 <= draw.pad <= MAX_PADDING && #[trigger] old(self).delivery_opened(
                    final(self),
                    *header,
                    body@,
                    unix_seconds,
                    draw,
                    r,
                ),
    {
        let draw = Draw::random();
        let r = self.open_delivery_with(header, body, unix_seconds, draw);
        assert(old(self).delivery_opened(self, *header, body@, unix_seconds, draw, r));
        r
    }
}

} // verus!
