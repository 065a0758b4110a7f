//! The identifiers of messages, users and groups: eight bytes each.

use vstd::prelude::*;
use vstd::utf8::encode_utf8;

use crate::crypto::random_bytes;
use crate::error::Error;
use crate::flat::{
    array_of, byte_array, lemma_array_of_view, lemma_byte_array_decoding,
    lemma_byte_array_encoding, lemma_le_bytes_of_value, le_value, Flat, SelfDelimiting,
};
use crate::text::{
    ascii_chars, is_ascii_bytes, lemma_ascii_is_utf8, string_from_utf8, string_from_utf8_lossy,
};

verus! {

/// Length of an identifier, in bytes.
pub const ID_LEN: usize = 8;

/// Eight bytes stand in an array of eight.
proof fn lemma_array_of_eight(bytes: Seq<u8>)
    requires
        bytes.len() == 8,
    ensures
        array_of::<u8, 8>(bytes)@ == bytes,
{
    let witness: [u8; 8] = [
        bytes[0],
        bytes[1],
        bytes[2],
        bytes[3],
        bytes[4],
        bytes[5],
        bytes[6],
        bytes[7],
    ];
    assert(witness@ =~= bytes);
}

/// The identifier of a message.
#[derive(Copy, Clone, PartialEq, Eq, Debug)]
pub struct MessageID([u8; 8]);

/// The lower-case hexadecimal digit of a number below 16.
pub open spec fn hex_digit(nibble: int) -> u8 {
    if nibble < 10 {
        (0x30 + nibble) as u8
    } else {
        (0x61 + nibble - 10) as u8
    }
}

/// Two lower-case hexadecimal digits for each byte, as ASCII.
pub open spec fn hex_digits(bytes: Seq<u8>) -> Seq<u8> {
    Seq::new(
        2 * bytes.len(),
        |i: int|
            if i % 2 == 0 {
                hex_digit(bytes[i / 2] as int / 16)
            } else {
                hex_digit(bytes[i / 2] as int % 16)
            },
    )
}

fn digit_of(nibble: u8) -> (digit: u8)
    requires
        nibble < 16,
    ensures
        digit == hex_digit(nibble as int),
        digit < 128,
{
    if nibble < 10 {
        0x30 + nibble
    } else {
        0x61 + (nibble - 10)
    }
}

impl MessageID {
    pub fn from_bytes(data: [u8; 8]) -> (id: Self)
        ensures
            id@ == data@,
    {
        MessageID(data)
    }

    /// The identifier that `data` holds, where it is eight bytes long.
    pub fn from_slice(data: &[u8]) -> (id: Option<Self>)
        ensures
            id is Some <==> data@.len() == ID_LEN,
            id matches Some(i) ==> i@ == data@,
    {
        if data.len() != ID_LEN {
            return None;
        }
        Some(Self::from_bytes(byte_array(data)))
    }

    pub fn as_bytes(self) -> (bytes: [u8; 8])
        ensures
            bytes@ == self@,
    {
        self.0
    }

    /// A fresh identifier of eight random bytes.
    pub fn random() -> (id: Self) {
        let bytes = random_bytes(ID_LEN);
        MessageID(byte_array(bytes.as_slice()))
    }

    /// The identifier as sixteen hexadecimal digits.
    pub fn to_string(&self) -> (text: String)
        ensures
            text@ == ascii_chars(hex_digits(self@)),
    {
        let mut digits: Vec<u8> = Vec::new();
        let mut i: usize = 0;
        while i < ID_LEN
            invariant
                i <= ID_LEN,
                digits@.len() == 2 * i,
                forall|j: int| 0 <= j < 2 * i ==> digits@[j] == hex_digits(self@)[j],
                is_ascii_bytes(digits@),
            decreases ID_LEN - i,
        {
            let byte = self.0[i];
            digits.push(digit_of(byte / 16));
            digits.push(digit_of(byte % 16));
            i += 1;
        }
        proof {
            assert(digits@ =~= hex_digits(self@));
            lemma_ascii_is_utf8(digits@);
        }
        match string_from_utf8(digits) {
            Some(text) => text,
            None => String::new(),
        }
    }
}

impl Default for MessageID {
    /// A fresh identifier of eight random bytes.
    fn default() -> (id: Self) {
        Self::random()
    }
}

impl View for MessageID {
    type V = Seq<u8>;

    closed spec fn view(&self) -> Seq<u8> {
        self.0@
    }
}

impl MessageID {
    /// The identifier made of the eight bytes `bytes`.
    pub closed spec fn holding(bytes: Seq<u8>) -> Self {
        MessageID(array_of(bytes))
    }

    /// An identifier holds eight bytes, and is the one identifier that holds them.
    pub proof fn lemma_view(&self)
        ensures
            self@.len() == ID_LEN,
            Self::holding(self@) == *self,
    {
        lemma_array_of_view::<u8, 8>(self.0);
    }

    /// Any eight bytes make an identifier.
    pub proof fn lemma_holding(bytes: Seq<u8>)
        requires
            bytes.len() == ID_LEN,
        ensures
            Self::holding(bytes)@ == bytes,
    {
        lemma_array_of_eight(bytes);
    }
}

impl Flat for MessageID {
    open spec fn encoding(&self) -> Seq<u8> {
        self@
    }

    open spec fn decoding(data: Seq<u8>) -> Option<(Self, nat)> {
        if data.len() >= ID_LEN {
            Some((Self::holding(data.take(ID_LEN as int)), ID_LEN as nat))
        } else {
            None
        }
    }

    open spec fn is_valid(&self) -> bool {
        true
    }

    open spec fn same_value(&self, other: &Self) -> bool {
        *self == *other
    }

    proof fn lemma_decoding_fits(data: Seq<u8>) {
    }

    proof fn lemma_same_value(&self, other: &Self, third: &Self) {
    }

    proof fn lemma_round_trip(&self) {
        self.lemma_prefix(Seq::empty());
        assert(self.encoding() + Seq::<u8>::empty() =~= self.encoding());
    }

    fn serialize(&self) -> (out: Vec<u8>) {
        proof {
            lemma_byte_array_encoding::<8>(self.0);
        }
        self.0.serialize()
    }

    fn deserialize_with_size(data: &[u8]) -> (r: Option<(Self, usize)>) {
        proof {
            lemma_byte_array_decoding::<8>(data@);
        }
        match <[u8; 8]>::deserialize_with_size(data) {
            Some((bytes, used)) => Some((MessageID(bytes), used)),
            None => None,
        }
    }
}

impl SelfDelimiting for MessageID {
    proof fn lemma_plain(&self, other: &Self) {
    }

    proof fn lemma_prefix(&self, rest: Seq<u8>) {
        self.lemma_view();
        assert((self@ + rest).take(ID_LEN as int) =~= self@);
    }

    proof fn lemma_truncated(&self, kept: int) {
        self.lemma_view();
    }
}

/// The identity of a user: eight characters out of `A` to `Z` and `0` to `9`.
/// An identity read from the wire is taken as it comes.
#[derive(Copy, Clone, PartialEq, Eq, Hash, Debug)]
pub struct ThreemaID([u8; 8]);

/// Whether `byte` is a capital letter or a digit.
pub open spec fn is_id_char(byte: u8) -> bool {
    (0x41 <= byte <= 0x5a) || (0x30 <= byte <= 0x39)
}

/// Whether `bytes` spell an identity: eight capital letters or digits.
pub open spec fn is_identity(bytes: Seq<u8>) -> bool {
    bytes.len() == ID_LEN && forall|i: int| 0 <= i < bytes.len() ==> is_id_char(#[trigger] bytes[i])
}

impl ThreemaID {
    /// The identity that `id` spells, or `InvalidID` where it spells none.
    pub fn from_slice(id: &[u8]) -> (r: Result<Self, Error>)
        ensures
            match r {
                Ok(identity) => is_identity(id@) && identity@ == id@,
                Err(e) => !is_identity(id@) && e is InvalidID,
            },
    {
        if id.len() != ID_LEN {
            return Err(Error::InvalidID);
        }
        let mut i: usize = 0;
        while i < ID_LEN
            invariant
                i <= ID_LEN,
                id@.len() == ID_LEN,
                forall|j: int| 0 <= j < i ==> is_id_char(#[trigger] id@[j]),
            decreases ID_LEN - i,
        {
            let c = id[i];
            if !((0x41 <= c && c <= 0x5a) || (0x30 <= c && c <= 0x39)) {
                return Err(Error::InvalidID);
            }
            i += 1;
        }
        Ok(ThreemaID(byte_array(id)))
    }

    /// The identity that `s` spells, or `InvalidID` where it spells none.
    pub fn from_string(s: &str) -> (r: Result<Self, Error>)
        ensures
            match r {
                Ok(identity) => is_identity(encode_utf8(s@)) && identity@ == encode_utf8(s@),
                Err(e) => !is_identity(encode_utf8(s@)) && e is InvalidID,
            },
    {
        Self::from_slice(s.as_bytes())
    }

    pub fn as_bytes(self) -> (bytes: [u8; 8])
        ensures
            bytes@ == self@,
    {
        self.0
    }

    /// Two identities whose bytes make the same number are the same.
    pub proof fn lemma_number_tells(a: Self, b: Self)
        requires
            le_value(a@) == le_value(b@),
        ensures
            a == b,
    {
        a.lemma_view();
        b.lemma_view();
        lemma_le_bytes_of_value(a@);
        lemma_le_bytes_of_value(b@);
    }

    /// The number that the eight bytes make, least significant byte first.
    pub fn as_u64(self) -> (number: u64)
        ensures
            number == le_value(self@),
    {
        let number = crate::flat::decode_le(self.0.as_slice(), ID_LEN);
        assert(self.0@.take(ID_LEN as int) =~= self.0@);
        number
    }

    /// The identity as text. Where it is made of ASCII, as every valid
    /// identity is, each byte gives one character.
    pub fn to_string(&self) -> (text: String)
        ensures
            is_ascii_bytes(self@) ==> text@ == ascii_chars(self@),
    {
        proof {
            if is_ascii_bytes(self@) {
                lemma_ascii_is_utf8(self@);
            }
        }
        string_from_utf8_lossy(self.0.as_slice())
    }
}

impl View for ThreemaID {
    type V = Seq<u8>;

    closed spec fn view(&self) -> Seq<u8> {
        self.0@
    }
}

impl ThreemaID {
    /// The identifier made of the eight bytes `bytes`.
    pub closed spec fn holding(bytes: Seq<u8>) -> Self {
        ThreemaID(array_of(bytes))
    }

    /// An identifier holds eight bytes, and is the one identifier that holds them.
    pub proof fn lemma_view(&self)
        ensures
            self@.len() == ID_LEN,
            Self::holding(self@) == *self,
    {
        lemma_array_of_view::<u8, 8>(self.0);
    }

    /// Any eight bytes make an identifier.
    pub proof fn lemma_holding(bytes: Seq<u8>)
        requires
            bytes.len() == ID_LEN,
        ensures
            Self::holding(bytes)@ == bytes,
    {
        lemma_array_of_eight(bytes);
    }
}

impl Flat for ThreemaID {
    open spec fn encoding(&self) -> Seq<u8> {
        self@
    }

    open spec fn decoding(data: Seq<u8>) -> Option<(Self, nat)> {
        if data.len() >= ID_LEN {
            Some((Self::holding(data.take(ID_LEN as int)), ID_LEN as nat))
        } else {
            None
        }
    }

    open spec fn is_valid(&self) -> bool {
        true
    }

    open spec fn same_value(&self, other: &Self) -> bool {
        *self == *other
    }

    proof fn lemma_decoding_fits(data: Seq<u8>) {
    }

    proof fn lemma_same_value(&self, other: &Self, third: &Self) {
    }

    proof fn lemma_round_trip(&self) {
        self.lemma_prefix(Seq::empty());
        assert(self.encoding() + Seq::<u8>::empty() =~= self.encoding());
    }

    fn serialize(&self) -> (out: Vec<u8>) {
        proof {
            lemma_byte_array_encoding::<8>(self.0);
        }
        self.0.serialize()
    }

    fn deserialize_with_size(data: &[u8]) -> (r: Option<(Self, usize)>) {
        proof {
            lemma_byte_array_decoding::<8>(data@);
        }
        match <[u8; 8]>::deserialize_with_size(data) {
            Some((bytes, used)) => Some((ThreemaID(bytes), used)),
            None => None,
        }
    }
}

impl SelfDelimiting for ThreemaID {
    proof fn lemma_plain(&self, other: &Self) {
    }

    proof fn lemma_prefix(&self, rest: Seq<u8>) {
        self.lemma_view();
        assert((self@ + rest).take(ID_LEN as int) =~= self@);
    }

    proof fn lemma_truncated(&self, kept: int) {
        self.lemma_view();
    }
}

/// The identifier of a group, unique for its creator.
#[derive(Copy, Clone, PartialEq, Eq, Debug)]
pub struct GroupID([u8; 8]);

impl View for GroupID {
    type V = Seq<u8>;

    closed spec fn view(&self) -> Seq<u8> {
        self.0@
    }
}

impl GroupID {
    /// The identifier made of the eight bytes `bytes`.
    pub closed spec fn holding(bytes: Seq<u8>) -> Self {
        GroupID(array_of(bytes))
    }

    /// An identifier holds eight bytes, and is the one identifier that holds them.
    pub proof fn lemma_view(&self)
        ensures
            self@.len() == ID_LEN,
            Self::holding(self@) == *self,
    {
        lemma_array_of_view::<u8, 8>(self.0);
    }

    /// Any eight bytes make an identifier.
    pub proof fn lemma_holding(bytes: Seq<u8>)
        requires
            bytes.len() == ID_LEN,
        ensures
            Self::holding(bytes)@ == bytes,
    {
        lemma_array_of_eight(bytes);
    }
}

impl Flat for GroupID {
    open spec fn encoding(&self) -> Seq<u8> {
        self@
    }

    open spec fn decoding(data: Seq<u8>) -> Option<(Self, nat)> {
        if data.len() >= ID_LEN {
            Some((Self::holding(data.take(ID_LEN as int)), ID_LEN as nat))
        } else {
            None
        }
    }

    open spec fn is_valid(&self) -> bool {
        true
    }

    open spec fn same_value(&self, other: &Self) -> bool {
        *self == *other
    }

    proof fn lemma_decoding_fits(data: Seq<u8>) {
    }

    proof fn lemma_same_value(&self, other: &Self, third: &Self) {
    }

    proof fn lemma_round_trip(&self) {
        self.lemma_prefix(Seq::empty());
        assert(self.encoding() + Seq::<u8>::empty() =~= self.encoding());
    }

    fn serialize(&self) -> (out: Vec<u8>) {
        proof {
            lemma_byte_array_encoding::<8>(self.0);
        }
        self.0.serialize()
    }

    fn deserialize_with_size(data: &[u8]) -> (r: Option<(Self, usize)>) {
        proof {
            lemma_byte_array_decoding::<8>(data@);
        }
        match <[u8; 8]>::deserialize_with_size(data) {
            Some((bytes, used)) => Some((GroupID(bytes), used)),
            None => None,
        }
    }
}

impl SelfDelimiting for GroupID {
    proof fn lemma_plain(&self, other: &Self) {
    }

    proof fn lemma_prefix(&self, rest: Seq<u8>) {
        self.lemma_view();
        assert((self@ + rest).take(ID_LEN as int) =~= self@);
    }

    proof fn lemma_truncated(&self, kept: int) {
        self.lemma_view();
    }
}

} // verus!
