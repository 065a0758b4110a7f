//! The public keys of the users we have talked to.

use std::collections::HashMap;
use vstd::prelude::*;

use crate::crypto::PublicKey;
use crate::flat::{le_value, lemma_le_value_bound, lemma_pow256_values};
use crate::ids::ThreemaID;

verus! {

broadcast use vstd::std_specs::hash::group_hash_axioms;

/// The public keys of peers, by identity. A key that was put in stays as
/// it is for as long as the cache lives.
pub struct PeerKeyCache {
    keys: HashMap<u64, PublicKey>,
}

impl PeerKeyCache {
    /// The key held for `id`, if there is one.
    pub closed spec fn key_of(&self, id: ThreemaID) -> Option<PublicKey> {
        let number = le_value(id@) as u64;
        if self.keys@.contains_key(number) {
            Some(self.keys@[number])
        } else {
            None
        }
    }

    /// Whether `later` holds every key that this cache holds.
    pub open spec fn kept_by(&self, later: &PeerKeyCache) -> bool {
        forall|id: ThreemaID| (#[trigger] self.key_of(id)) is Some ==> later.key_of(id) == self.key_of(id)
    }

    /// A cache that holds no key.
    pub fn new() -> (cache: Self)
        ensures
            forall|id: ThreemaID| (#[trigger] cache.key_of(id)) is None,
    {
        PeerKeyCache { keys: HashMap::new() }
    }

    /// The key held for `id`.
    pub fn get(&self, id: ThreemaID) -> (key: Option<PublicKey>)
        ensures
            key == self.key_of(id),
    {
        let number = id.as_u64();
        match self.keys.get(&number) {
            Some(key) => Some(*key),
            None => None,
        }
    }

    /// Puts `key` in for `id`, unless a key is held for `id` already: what
    /// was first learned of a peer stands. Gives back the key that is held
    /// from now on.
    pub fn remember(&mut self, id: ThreemaID, key: PublicKey) -> (kept: PublicKey)
        ensures
            final(self).key_of(id) == Some(kept),
            kept == match old(self).key_of(id) {
                Some(held) => held,
                None => key,
            },
            forall|other: ThreemaID|
                other != id ==> (#[trigger] final(self).key_of(other)) == old(self).key_of(other),
            old(self).kept_by(final(self)),
    {
        let number = id.as_u64();
        proof {
            lemma_le_value_bound(id@);
            id.lemma_view();
            lemma_pow256_values();
            assert forall|other: ThreemaID| other != id implies le_value(other@) as u64
                != number by {
                lemma_le_value_bound(other@);
                other.lemma_view();
                if le_value(other@) == le_value(id@) {
                    ThreemaID::lemma_number_tells(other, id);
                }
            }
        }
        let held = match self.keys.get(&number) {
            Some(held) => Some(*held),
            None => None,
        };
        match held {
            Some(held) => held,
            None => {
                self.keys.insert(number, key);
                key
            },
        }
    }
}

} // verus!
