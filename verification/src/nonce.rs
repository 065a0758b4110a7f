//! The nonce of one direction of a session: a fixed prefix and a counter.

use vstd::prelude::*;

use crate::flat::{
    byte_array, encode_le, le_bytes, le_value, lemma_le_bytes_len, lemma_le_value_of_bytes,
    lemma_pow256_values,
};

verus! {

/// Length of the prefix of a usable nonce, in bytes.
pub const NONCE_PREFIX_LEN: usize = 16;

/// Length of the counter of a nonce, in bytes.
pub const NONCE_COUNTER_LEN: usize = 8;

/// The nonce of one direction of a session. A value is used once: the
/// counter goes up after every box sealed or opened under it.
pub struct Nonce {
    prefix: Vec<u8>,
    counter: u64,
}

impl Nonce {
    /// The fixed front part.
    pub closed spec fn prefix_bytes(&self) -> Seq<u8> {
        self.prefix@
    }

    /// The number of the next box.
    pub closed spec fn counter(&self) -> u64 {
        self.counter
    }

    /// The nonce as bytes: the prefix, then the counter, least significant
    /// byte first.
    pub open spec fn bytes(&self) -> Seq<u8> {
        self.prefix_bytes() + le_bytes(self.counter() as nat, 8)
    }

    /// A nonce with the given prefix, whose counter stands at 1.
    pub fn new(prefix: Vec<u8>) -> (nonce: Self)
        ensures
            nonce.prefix_bytes() == prefix@,
            nonce.counter() == 1,
    {
        Nonce { prefix, counter: 1 }
    }

    pub fn prefix(&self) -> (prefix: &[u8])
        ensures
            prefix@ == self.prefix_bytes(),
    {
        self.prefix.as_slice()
    }

    pub fn as_bytes(&self) -> (bytes: Vec<u8>)
        ensures
            bytes@ == self.bytes(),
    {
        let mut bytes = vstd::slice::slice_to_vec(self.prefix.as_slice());
        let mut counter = encode_le(self.counter, NONCE_COUNTER_LEN);
        bytes.append(&mut counter);
        bytes
    }

    /// The nonce as the 24 bytes that a box takes. `None` where the prefix
    /// is not 16 bytes long.
    pub fn as_nonce(&self) -> (nonce: Option<[u8; 24]>)
        ensures
            nonce is Some <==> self.prefix_bytes().len() == NONCE_PREFIX_LEN,
            nonce matches Some(n) ==> n@ == self.bytes(),
    {
        proof {
            lemma_le_bytes_len(self.counter as nat, 8);
        }
        let bytes = self.as_bytes();
        if bytes.len() != 24 {
            return None;
        }
        Some(byte_array(bytes.as_slice()))
    }

    /// The number of the next box.
    pub fn count(&self) -> (count: u64)
        ensures
            count == self.counter(),
    {
        self.counter
    }

    /// Whether the counter has reached its end, so that no further box can
    /// be sealed or opened under this nonce.
    pub fn is_exhausted(&self) -> (exhausted: bool)
        ensures
            exhausted <==> self.counter() == u64::MAX,
    {
        self.counter == u64::MAX
    }

    /// Moves on to the next value.
    pub fn inc(&mut self)
        requires
            old(self).counter() < u64::MAX,
        ensures
            final(self).counter() == old(self).counter() + 1,
            final(self).prefix_bytes() == old(self).prefix_bytes(),
    {
        self.counter = self.counter + 1;
    }

    /// Two nonces of one prefix differ only in their last eight bytes,
    /// and there the one with the higher counter holds the higher number.
    pub proof fn lemma_counter_monotonic(&self, later: &Nonce)
        requires
            self.prefix_bytes() == later.prefix_bytes(),
            self.counter() < later.counter(),
        ensures
            self.bytes().len() == later.bytes().len(),
            self.bytes().len() == self.prefix_bytes().len() + NONCE_COUNTER_LEN,
            self.bytes().take(self.prefix_bytes().len() as int) == later.bytes().take(
                self.prefix_bytes().len() as int,
            ),
            le_value(self.bytes().skip(self.prefix_bytes().len() as int)) < le_value(
                later.bytes().skip(self.prefix_bytes().len() as int),
            ),
            self.bytes() != later.bytes(),
    {
        let front = self.prefix_bytes();
        let mine = le_bytes(self.counter() as nat, 8);
        let theirs = le_bytes(later.counter() as nat, 8);
        lemma_pow256_values();
        lemma_le_bytes_len(self.counter() as nat, 8);
        lemma_le_bytes_len(later.counter() as nat, 8);
        lemma_le_value_of_bytes(self.counter() as nat, 8);
        lemma_le_value_of_bytes(later.counter() as nat, 8);
        assert(self.bytes().take(front.len() as int) =~= front);
        assert(later.bytes().take(front.len() as int) =~= front);
        assert(self.bytes().skip(front.len() as int) =~= mine);
        assert(later.bytes().skip(front.len() as int) =~= theirs);
    }
}

} // verus!
