//! The packets that travel between client and server, and the messages
//! that travel inside them from user to user.

use vstd::prelude::*;
use vstd::utf8::{
    decode_utf8, encode_utf8, encode_utf8_decode_utf8, encode_utf8_valid_utf8, valid_utf8,
};

use crate::flat::{
    array_of, encode_le, le_bytes, le_value, lemma_array_of_view, lemma_byte_array_decoding,
    lemma_byte_array_encoding, lemma_le_bytes_len, lemma_le_read_back, lemma_le_value_bound,
    lemma_pow256_values, lemma_tag_at, read_field, starts_with_known_tag, tags_of, Flat,
    SelfDelimiting, TaggedUnion,
};
use crate::ids::{MessageID, ThreemaID};
use crate::text::string_from_utf8;

verus! {

/// What became of a message.
#[derive(Debug, Clone, Copy, PartialEq, Eq)]
pub enum MessageStatus {
    Delivered,
    Read,
    Approved,
    Disapproved,
}

impl MessageStatus {
    /// The byte that stands for the status.
    pub open spec fn code(&self) -> u8 {
        match self {
            MessageStatus::Delivered => 1,
            MessageStatus::Read => 2,
            MessageStatus::Approved => 3,
            MessageStatus::Disapproved => 4,
        }
    }

    /// What the variants declare, in their order: `Delivered` declares
    /// the tag 1, and the others follow it.
    pub open spec fn declared_tags() -> Seq<Option<u64>> {
        seq![Some(1u64), None, None, None]
    }

    /// The place of this value's variant among the variants.
    pub open spec fn variant_index(&self) -> int {
        match self {
            MessageStatus::Delivered => 0,
            MessageStatus::Read => 1,
            MessageStatus::Approved => 2,
            MessageStatus::Disapproved => 3,
        }
    }

    /// The tags are those that the numbering rule gives the declaration.
    pub proof fn lemma_tags_as_declared(&self)
        ensures
            tags_of(Self::declared_tags())[self.variant_index()] == self.code(),
    {
        let declared = Self::declared_tags();
        lemma_tag_at(declared, 0);
        lemma_tag_at(declared, 1);
        lemma_tag_at(declared, 2);
        lemma_tag_at(declared, 3);
    }

    /// The status that `code` stands for.
    pub open spec fn of_code(code: u8) -> Option<Self> {
        if code == 1 {
            Some(MessageStatus::Delivered)
        } else if code == 2 {
            Some(MessageStatus::Read)
        } else if code == 3 {
            Some(MessageStatus::Approved)
        } else if code == 4 {
            Some(MessageStatus::Disapproved)
        } else {
            None
        }
    }
}

impl Flat for MessageStatus {
    open spec fn encoding(&self) -> Seq<u8> {
        seq![self.code()]
    }

    open spec fn decoding(data: Seq<u8>) -> Option<(Self, nat)> {
        if data.len() >= 1 {
            match Self::of_code(data[0]) {
                Some(status) => Some((status, 1)),
                None => None,
            }
        } else {
            None
        }
    }

    open spec fn is_valid(&self) -> bool {
        true
    }

    open spec fn same_value(&self, other: &Self) -> bool {
        *self == *other
    }

    proof fn lemma_decoding_fits(data: Seq<u8>) {
    }

    proof fn lemma_same_value(&self, other: &Self, third: &Self) {
    }

    proof fn lemma_round_trip(&self) {
    }

    fn serialize(&self) -> (out: Vec<u8>) {
        let code: u8 = match self {
            MessageStatus::Delivered => 1,
            MessageStatus::Read => 2,
            MessageStatus::Approved => 3,
            MessageStatus::Disapproved => 4,
        };
        let mut out: Vec<u8> = Vec::new();
        out.push(code);
        out
    }

    fn deserialize_with_size(data: &[u8]) -> (r: Option<(Self, usize)>) {
        if data.len() < 1 {
            return None;
        }
        let code = data[0];
        if code == 1 {
            Some((MessageStatus::Delivered, 1))
        } else if code == 2 {
            Some((MessageStatus::Read, 1))
        } else if code == 3 {
            Some((MessageStatus::Approved, 1))
        } else if code == 4 {
            Some((MessageStatus::Disapproved, 1))
        } else {
            None
        }
    }
}

impl SelfDelimiting for MessageStatus {
    proof fn lemma_plain(&self, other: &Self) {
    }

    proof fn lemma_prefix(&self, rest: Seq<u8>) {
    }

    proof fn lemma_truncated(&self, kept: int) {
    }
}

impl TaggedUnion for MessageStatus {
    open spec fn tag_width() -> nat {
        1
    }

    open spec fn is_known_tag(tag: nat) -> bool {
        1 <= tag <= 4
    }

    open spec fn tag(&self) -> nat {
        self.code() as nat
    }

    proof fn lemma_tag_first(&self) {
        reveal_with_fuel(le_bytes, 2);
        assert(self.encoding().take(1) =~= le_bytes(self.tag(), 1));
    }

    proof fn lemma_unknown_tag(data: Seq<u8>) {
        if data.len() >= 1 {
            reveal_with_fuel(le_value, 2);
            assert(data.take(1).drop_first().len() == 0);
            assert(le_value(data.take(1)) == data[0] as nat);
        }
    }
}

/// Length of a message header, in bytes.
pub const HEADER_LEN: usize = 88;

/// Length of the nickname field of a header, in bytes.
pub const NICKNAME_LEN: usize = 32;

/// What stands in front of every message: who sends it to whom, when, and
/// under which nonce its body is sealed.
#[derive(Debug, Clone, Copy)]
pub struct Header {
    pub sender: ThreemaID,
    pub receiver: ThreemaID,
    pub msg_id: MessageID,
    pub timestamp: u32,
    pub flags: u32,
    pub nickname: [u8; 32],
    pub nonce: [u8; 24],
}

impl Flat for Header {
    open spec fn encoding(&self) -> Seq<u8> {
        self.sender@ + self.receiver@ + self.msg_id@ + le_bytes(self.timestamp as nat, 4)
            + le_bytes(self.flags as nat, 4) + self.nickname@ + self.nonce@
    }

    open spec fn decoding(data: Seq<u8>) -> Option<(Self, nat)> {
        if data.len() >= HEADER_LEN {
            Some(
                (
                    Header {
                        sender: ThreemaID::holding(data.subrange(0, 8)),
                        receiver: ThreemaID::holding(data.subrange(8, 16)),
                        msg_id: MessageID::holding(data.subrange(16, 24)),
                        timestamp: le_value(data.subrange(24, 28)) as u32,
                        flags: le_value(data.subrange(28, 32)) as u32,
                        nickname: array_of(data.subrange(32, 64)),
                        nonce: array_of(data.subrange(64, 88)),
                    },
                    HEADER_LEN as nat,
                ),
            )
        } else {
            None
        }
    }

    open spec fn is_valid(&self) -> bool {
        true
    }

    open spec fn same_value(&self, other: &Self) -> bool {
        *self == *other
    }

    proof fn lemma_decoding_fits(data: Seq<u8>) {
    }

    proof fn lemma_same_value(&self, other: &Self, third: &Self) {
    }

    proof fn lemma_round_trip(&self) {
        self.lemma_prefix(Seq::empty());
        assert(self.encoding() + Seq::<u8>::empty() =~= self.encoding());
    }

    fn serialize(&self) -> (out: Vec<u8>) {
        let mut out: Vec<u8> = Vec::new();
        let mut part = self.sender.serialize();
        out.append(&mut part);
        let mut part = self.receiver.serialize();
        out.append(&mut part);
        let mut part = self.msg_id.serialize();
        out.append(&mut part);
        let mut part = self.timestamp.serialize();
        out.append(&mut part);
        let mut part = self.flags.serialize();
        out.append(&mut part);
        proof {
            lemma_byte_array_encoding::<32>(self.nickname);
            lemma_byte_array_encoding::<24>(self.nonce);
        }
        let mut part = self.nickname.serialize();
        out.append(&mut part);
        let mut part = self.nonce.serialize();
        out.append(&mut part);
        assert(out@ =~= self.encoding());
        out
    }

    fn deserialize_with_size(data: &[u8]) -> (r: Option<(Self, usize)>) {
        let mut at: usize = 0;
        proof {
            assert(data@.skip(0) =~= data@);
            lemma_byte_array_decoding::<32>(data@.skip(32));
            lemma_byte_array_decoding::<24>(data@.skip(64));
            if data@.len() >= 88 {
                assert(data@.skip(0).take(8) =~= data@.subrange(0, 8));
                assert(data@.skip(8).take(8) =~= data@.subrange(8, 16));
                assert(data@.skip(16).take(8) =~= data@.subrange(16, 24));
                assert(data@.skip(24).take(4) =~= data@.subrange(24, 28));
                assert(data@.skip(28).take(4) =~= data@.subrange(28, 32));
                assert(data@.skip(32).take(32) =~= data@.subrange(32, 64));
                assert(data@.skip(64).take(24) =~= data@.subrange(64, 88));
            }
        }
        let sender: ThreemaID = read_field(data, &mut at)?;
        let receiver: ThreemaID = read_field(data, &mut at)?;
        let msg_id: MessageID = read_field(data, &mut at)?;
        let timestamp: u32 = read_field(data, &mut at)?;
        let flags: u32 = read_field(data, &mut at)?;
        let nickname: [u8; 32] = read_field(data, &mut at)?;
        let nonce: [u8; 24] = read_field(data, &mut at)?;
        Some((Header { sender, receiver, msg_id, timestamp, flags, nickname, nonce }, at))
    }
}

impl Header {
    /// A header takes up 88 bytes.
    pub proof fn lemma_encoding_len(&self)
        ensures
            self.encoding().len() == HEADER_LEN,
    {
        self.sender.lemma_view();
        self.receiver.lemma_view();
        self.msg_id.lemma_view();
        lemma_le_bytes_len(self.timestamp as nat, 4);
        lemma_le_bytes_len(self.flags as nat, 4);
    }
}

impl SelfDelimiting for Header {
    proof fn lemma_plain(&self, other: &Self) {
    }

    proof fn lemma_prefix(&self, rest: Seq<u8>) {
        self.lemma_encoding_len();
        self.sender.lemma_view();
        self.receiver.lemma_view();
        self.msg_id.lemma_view();
        lemma_pow256_values();
        lemma_le_read_back(self.timestamp as nat, 4, Seq::empty());
        lemma_le_read_back(self.flags as nat, 4, Seq::empty());
        lemma_array_of_view::<u8, 32>(self.nickname);
        lemma_array_of_view::<u8, 24>(self.nonce);
        let data = self.encoding() + rest;
        assert(data.subrange(0, 8) =~= self.sender@);
        assert(data.subrange(8, 16) =~= self.receiver@);
        assert(data.subrange(16, 24) =~= self.msg_id@);
        assert(data.subrange(24, 28) =~= le_bytes(self.timestamp as nat, 4));
        assert(data.subrange(28, 32) =~= le_bytes(self.flags as nat, 4));
        assert(data.subrange(32, 64) =~= self.nickname@);
        assert(data.subrange(64, 88) =~= self.nonce@);
        assert(le_bytes(self.timestamp as nat, 4) + Seq::<u8>::empty() =~= le_bytes(
            self.timestamp as nat,
            4,
        ));
        assert(le_bytes(self.flags as nat, 4) + Seq::<u8>::empty() =~= le_bytes(
            self.flags as nat,
            4,
        ));
        assert(le_bytes(self.timestamp as nat, 4).take(4) =~= le_bytes(self.timestamp as nat, 4));
        assert(le_bytes(self.flags as nat, 4).take(4) =~= le_bytes(self.flags as nat, 4));
    }

    proof fn lemma_truncated(&self, kept: int) {
        self.lemma_encoding_len();
    }
}

/// A text message.
#[derive(Debug)]
pub struct Text {
    pub message: String,
}

impl Text {
    /// The text message that says `chars`.
    pub open spec fn holding(chars: Seq<char>) -> Text {
        Text { message: choose|s: String| s@ == chars }
    }
}

impl Flat for Text {
    open spec fn encoding(&self) -> Seq<u8> {
        encode_utf8(self.message@)
    }

    open spec fn decoding(data: Seq<u8>) -> Option<(Self, nat)> {
        if valid_utf8(data) {
            Some((Text::holding(decode_utf8(data)), data.len()))
        } else {
            None
        }
    }

    open spec fn is_valid(&self) -> bool {
        true
    }

    open spec fn same_value(&self, other: &Self) -> bool {
        self.message@ == other.message@
    }

    proof fn lemma_decoding_fits(data: Seq<u8>) {
    }

    proof fn lemma_same_value(&self, other: &Self, third: &Self) {
    }

    proof fn lemma_round_trip(&self) {
        encode_utf8_valid_utf8(self.message@);
        encode_utf8_decode_utf8(self.message@);
        assert(self.message@ == decode_utf8(self.encoding()));
    }

    fn serialize(&self) -> (out: Vec<u8>) {
        vstd::slice::slice_to_vec(self.message.as_str().as_bytes())
    }

    fn deserialize_with_size(data: &[u8]) -> (r: Option<(Self, usize)>) {
        match string_from_utf8(vstd::slice::slice_to_vec(data)) {
            Some(message) => {
                assert(message@ == decode_utf8(data@));
                Some((Text { message }, data.len()))
            },
            None => None,
        }
    }
}

impl Text {
    /// A text cut short no longer reads as text where what is left is not
    /// valid UTF-8.
    pub proof fn lemma_truncated(&self, kept: int)
        requires
            0 <= kept < self.encoding().len(),
            !valid_utf8(self.encoding().take(kept)),
        ensures
            Self::decoding(self.encoding().take(kept)) is None,
    {
    }
}


/// What kind of JSON text some bytes are.
#[derive(Debug, Clone, Copy, PartialEq, Eq)]
pub enum JsonShape {
    /// A JSON object.
    Object,
    /// A JSON array.
    Array,
    /// JSON text of another kind: a string, a number, a boolean or null.
    Other,
    /// No JSON text at all.
    Invalid,
}

/// The kind of JSON text that `text` is, as `serde_json` reads it.
pub uninterp spec fn json_shape(text: Seq<u8>) -> JsonShape;

/// Reads `text` as JSON with `serde_json::from_slice` and tells the kind of
/// value that comes out. The result is named by `json_shape`.
#[verifier::external_body]
pub(crate) fn json_shape_of(text: &[u8]) -> (shape: JsonShape)
    ensures
        shape == json_shape(text@),
{
    match serde_json::from_slice::<serde_json::Value>(text) {
        Ok(serde_json::Value::Object(_)) => JsonShape::Object,
        Ok(serde_json::Value::Array(_)) => JsonShape::Array,
        Ok(_) => JsonShape::Other,
        Err(_) => JsonShape::Invalid,
    }
}

/// What a file message says of its file: a JSON object, kept as it came.
#[derive(Debug)]
pub struct File {
    json: Vec<u8>,
}

impl View for File {
    type V = Seq<u8>;

    closed spec fn view(&self) -> Seq<u8> {
        self.json@
    }
}

impl File {
    #[verifier::type_invariant]
    spec fn well_formed(self) -> bool {
        json_shape(self.json@) is Object
    }

    /// The value whose JSON text is `json`.
    pub closed spec fn holding(json: Seq<u8>) -> Self {
        File { json: choose|v: Vec<u8>| v@ == json }
    }

    /// Takes JSON text as the description of a file. `None` where the text is not a JSON object.
    pub fn from_json(json: Vec<u8>) -> (r: Option<Self>)
        ensures
            r is Some <==> json_shape(json@) is Object,
            r matches Some(value) ==> value@ == json@,
    {
        match json_shape_of(json.as_slice()) {
            JsonShape::Object => Some(File { json }),
            _ => None,
        }
    }

    /// The JSON text.
    pub fn as_json(&self) -> (json: &[u8])
        ensures
            json@ == self@,
            json_shape(json@) is Object,
    {
        proof {
            use_type_invariant(self);
        }
        self.json.as_slice()
    }
}

impl Flat for File {
    open spec fn encoding(&self) -> Seq<u8> {
        self@
    }

    open spec fn decoding(data: Seq<u8>) -> Option<(Self, nat)> {
        if json_shape(data) is Object {
            Some((Self::holding(data), data.len()))
        } else {
            None
        }
    }

    open spec fn is_valid(&self) -> bool {
        json_shape(self@) is Object
    }

    open spec fn same_value(&self, other: &Self) -> bool {
        self@ == other@
    }

    proof fn lemma_decoding_fits(data: Seq<u8>) {
    }

    proof fn lemma_same_value(&self, other: &Self, third: &Self) {
    }

    proof fn lemma_round_trip(&self) {
        assert(self.json@ == self@);
    }

    fn serialize(&self) -> (out: Vec<u8>) {
        vstd::slice::slice_to_vec(self.json.as_slice())
    }

    fn deserialize_with_size(data: &[u8]) -> (r: Option<(Self, usize)>) {
        match Self::from_json(vstd::slice::slice_to_vec(data)) {
            Some(value) => {
                assert(value.json@ == data@);
                Some((value, data.len()))
            },
            None => None,
        }
    }
}

/// What a poll asks: a JSON object, kept as it came.
#[derive(Debug)]
pub struct Ballot {
    json: Vec<u8>,
}

impl View for Ballot {
    type V = Seq<u8>;

    closed spec fn view(&self) -> Seq<u8> {
        self.json@
    }
}

impl Ballot {
    #[verifier::type_invariant]
    spec fn well_formed(self) -> bool {
        json_shape(self.json@) is Object
    }

    /// The value whose JSON text is `json`.
    pub closed spec fn holding(json: Seq<u8>) -> Self {
        Ballot { json: choose|v: Vec<u8>| v@ == json }
    }

    /// Takes JSON text as a poll. `None` where the text is not a JSON object.
    pub fn from_json(json: Vec<u8>) -> (r: Option<Self>)
        ensures
            r is Some <==> json_shape(json@) is Object,
            r matches Some(value) ==> value@ == json@,
    {
        match json_shape_of(json.as_slice()) {
            JsonShape::Object => Some(Ballot { json }),
            _ => None,
        }
    }

    /// The JSON text.
    pub fn as_json(&self) -> (json: &[u8])
        ensures
            json@ == self@,
            json_shape(json@) is Object,
    {
        proof {
            use_type_invariant(self);
        }
        self.json.as_slice()
    }
}

impl Flat for Ballot {
    open spec fn encoding(&self) -> Seq<u8> {
        self@
    }

    open spec fn decoding(data: Seq<u8>) -> Option<(Self, nat)> {
        if json_shape(data) is Object {
            Some((Self::holding(data), data.len()))
        } else {
            None
        }
    }

    open spec fn is_valid(&self) -> bool {
        json_shape(self@) is Object
    }

    open spec fn same_value(&self, other: &Self) -> bool {
        self@ == other@
    }

    proof fn lemma_decoding_fits(data: Seq<u8>) {
    }

    proof fn lemma_same_value(&self, other: &Self, third: &Self) {
    }

    proof fn lemma_round_trip(&self) {
        assert(self.json@ == self@);
    }

    fn serialize(&self) -> (out: Vec<u8>) {
        vstd::slice::slice_to_vec(self.json.as_slice())
    }

    fn deserialize_with_size(data: &[u8]) -> (r: Option<(Self, usize)>) {
        match Self::from_json(vstd::slice::slice_to_vec(data)) {
            Some(value) => {
                assert(value.json@ == data@);
                Some((value, data.len()))
            },
            None => None,
        }
    }
}

/// The votes cast in a poll: a JSON array, kept as it came.
#[derive(Debug)]
pub struct BallotUpdates {
    json: Vec<u8>,
}

impl View for BallotUpdates {
    type V = Seq<u8>;

    closed spec fn view(&self) -> Seq<u8> {
        self.json@
    }
}

impl BallotUpdates {
    #[verifier::type_invariant]
    spec fn well_formed(self) -> bool {
        json_shape(self.json@) is Array
    }

    /// The value whose JSON text is `json`.
    pub closed spec fn holding(json: Seq<u8>) -> Self {
        BallotUpdates { json: choose|v: Vec<u8>| v@ == json }
    }

    /// Takes JSON text as the votes of a poll. `None` where the text is not a JSON array.
    pub fn from_json(json: Vec<u8>) -> (r: Option<Self>)
        ensures
            r is Some <==> json_shape(json@) is Array,
            r matches Some(value) ==> value@ == json@,
    {
        match json_shape_of(json.as_slice()) {
            JsonShape::Array => Some(BallotUpdates { json }),
            _ => None,
        }
    }

    /// The JSON text.
    pub fn as_json(&self) -> (json: &[u8])
        ensures
            json@ == self@,
            json_shape(json@) is Array,
    {
        proof {
            use_type_invariant(self);
        }
        self.json.as_slice()
    }
}

impl Flat for BallotUpdates {
    open spec fn encoding(&self) -> Seq<u8> {
        self@
    }

    open spec fn decoding(data: Seq<u8>) -> Option<(Self, nat)> {
        if json_shape(data) is Array {
            Some((Self::holding(data), data.len()))
        } else {
            None
        }
    }

    open spec fn is_valid(&self) -> bool {
        json_shape(self@) is Array
    }

    open spec fn same_value(&self, other: &Self) -> bool {
        self@ == other@
    }

    proof fn lemma_decoding_fits(data: Seq<u8>) {
    }

    proof fn lemma_same_value(&self, other: &Self, third: &Self) {
    }

    proof fn lemma_round_trip(&self) {
        assert(self.json@ == self@);
    }

    fn serialize(&self) -> (out: Vec<u8>) {
        vstd::slice::slice_to_vec(self.json.as_slice())
    }

    fn deserialize_with_size(data: &[u8]) -> (r: Option<(Self, usize)>) {
        match Self::from_json(vstd::slice::slice_to_vec(data)) {
            Some(value) => {
                assert(value.json@ == data@);
                Some((value, data.len()))
            },
            None => None,
        }
    }
}

/// Length of the tag of a packet, in bytes.
pub const PACKET_TAG_LEN: usize = 4;

/// What client and server send each other inside the sealed frames.
#[derive(Debug, Clone, Copy)]
pub enum Packet {
    EchoRequest(u64),
    EchoReply(u64),
    /// A message on its way to the server; its sealed body follows.
    ClientToServer(Header),
    /// A message on its way from the server; its sealed body follows.
    ServerToClient(Header),
    /// The server has taken a message from us.
    ServerAck(ThreemaID, MessageID),
    /// We have taken a message from the server.
    ClientAck(ThreemaID, MessageID),
    ConnectionEstablished,
    DuplicateConnection,
    Alert,
}

impl Packet {
    /// What the variants declare, in their order: each its own tag.
    pub open spec fn declared_tags() -> Seq<Option<u64>> {
        seq![
            Some(0x00u64),
            Some(0x80u64),
            Some(0x01u64),
            Some(0x02u64),
            Some(0x81u64),
            Some(0x82u64),
            Some(0xd0u64),
            Some(0xe0u64),
            Some(0xe1u64),
        ]
    }

    /// The place of this value's variant among the variants.
    pub open spec fn variant_index(&self) -> int {
        match self {
            Packet::EchoRequest(_) => 0,
            Packet::EchoReply(_) => 1,
            Packet::ClientToServer(_) => 2,
            Packet::ServerToClient(_) => 3,
            Packet::ServerAck(_, _) => 4,
            Packet::ClientAck(_, _) => 5,
            Packet::ConnectionEstablished => 6,
            Packet::DuplicateConnection => 7,
            Packet::Alert => 8,
        }
    }

    /// The tags are those that the numbering rule gives the declaration.
    pub proof fn lemma_tags_as_declared(&self)
        ensures
            tags_of(Self::declared_tags())[self.variant_index()] == self.code(),
    {
        lemma_tag_at(Self::declared_tags(), self.variant_index());
    }

    /// The tag that tells the variant.
    pub open spec fn code(&self) -> u32 {
        match self {
            Packet::EchoRequest(_) => 0x00,
            Packet::EchoReply(_) => 0x80,
            Packet::ClientToServer(_) => 0x01,
            Packet::ServerToClient(_) => 0x02,
            Packet::ServerAck(_, _) => 0x81,
            Packet::ClientAck(_, _) => 0x82,
            Packet::ConnectionEstablished => 0xd0,
            Packet::DuplicateConnection => 0xe0,
            Packet::Alert => 0xe1,
        }
    }

    /// What follows the tag.
    pub open spec fn payload(&self) -> Seq<u8> {
        match self {
            Packet::EchoRequest(value) => le_bytes(*value as nat, 8),
            Packet::EchoReply(value) => le_bytes(*value as nat, 8),
            Packet::ClientToServer(header) => header.encoding(),
            Packet::ServerToClient(header) => header.encoding(),
            Packet::ServerAck(id, message) => id@ + message@,
            Packet::ClientAck(id, message) => id@ + message@,
            Packet::ConnectionEstablished => Seq::empty(),
            Packet::DuplicateConnection => Seq::empty(),
            Packet::Alert => Seq::empty(),
        }
    }

    /// The packet of tag `code` that `rest` starts with, and the number of
    /// bytes of `rest` that it takes up.
    pub open spec fn decoding_payload(code: nat, rest: Seq<u8>) -> Option<(Self, nat)> {
        if code == 0x00 {
            match u64::decoding(rest) {
                Some((value, used)) => Some((Packet::EchoRequest(value), used)),
                None => None,
            }
        } else if code == 0x80 {
            match u64::decoding(rest) {
                Some((value, used)) => Some((Packet::EchoReply(value), used)),
                None => None,
            }
        } else if code == 0x01 {
            match Header::decoding(rest) {
                Some((header, used)) => Some((Packet::ClientToServer(header), used)),
                None => None,
            }
        } else if code == 0x02 {
            match Header::decoding(rest) {
                Some((header, used)) => Some((Packet::ServerToClient(header), used)),
                None => None,
            }
        } else if code == 0x81 {
            if rest.len() >= 16 {
                Some(
                    (
                        Packet::ServerAck(
                            ThreemaID::holding(rest.subrange(0, 8)),
                            MessageID::holding(rest.subrange(8, 16)),
                        ),
                        16,
                    ),
                )
            } else {
                None
            }
        } else if code == 0x82 {
            if rest.len() >= 16 {
                Some(
                    (
                        Packet::ClientAck(
                            ThreemaID::holding(rest.subrange(0, 8)),
                            MessageID::holding(rest.subrange(8, 16)),
                        ),
                        16,
                    ),
                )
            } else {
                None
            }
        } else if code == 0xd0 {
            Some((Packet::ConnectionEstablished, 0))
        } else if code == 0xe0 {
            Some((Packet::DuplicateConnection, 0))
        } else if code == 0xe1 {
            Some((Packet::Alert, 0))
        } else {
            None
        }
    }

    /// A packet takes up its tag and its payload.
    pub proof fn lemma_encoding_len(&self)
        ensures
            self.encoding().len() == PACKET_TAG_LEN + self.payload().len(),
            le_bytes(self.code() as nat, 4).len() == PACKET_TAG_LEN,
    {
        lemma_le_bytes_len(self.code() as nat, 4);
    }

    fn tag_value(&self) -> (code: u32)
        ensures
            code == self.code(),
    {
        match self {
            Packet::EchoRequest(_) => 0x00,
            Packet::EchoReply(_) => 0x80,
            Packet::ClientToServer(_) => 0x01,
            Packet::ServerToClient(_) => 0x02,
            Packet::ServerAck(_, _) => 0x81,
            Packet::ClientAck(_, _) => 0x82,
            Packet::ConnectionEstablished => 0xd0,
            Packet::DuplicateConnection => 0xe0,
            Packet::Alert => 0xe1,
        }
    }
}

impl Packet {
    /// Whether `data` starts with the tag of a packet.
    pub fn has_known_tag(data: &[u8]) -> (known: bool)
        ensures
            known == starts_with_known_tag::<Packet>(data@),
    {
        if data.len() < PACKET_TAG_LEN {
            return false;
        }
        let tag = crate::flat::decode_le(data, PACKET_TAG_LEN);
        tag == 0x00 || tag == 0x80 || tag == 0x01 || tag == 0x02 || tag == 0x81 || tag == 0x82
            || tag == 0xd0 || tag == 0xe0 || tag == 0xe1
    }
}

impl Flat for Packet {
    open spec fn encoding(&self) -> Seq<u8> {
        le_bytes(self.code() as nat, 4) + self.payload()
    }

    open spec fn decoding(data: Seq<u8>) -> Option<(Self, nat)> {
        if data.len() >= PACKET_TAG_LEN {
            match Self::decoding_payload(le_value(data.take(4)), data.skip(4)) {
                Some((packet, used)) => Some((packet, 4 + used)),
                None => None,
            }
        } else {
            None
        }
    }

    open spec fn is_valid(&self) -> bool {
        true
    }

    open spec fn same_value(&self, other: &Self) -> bool {
        *self == *other
    }

    proof fn lemma_decoding_fits(data: Seq<u8>) {
        if data.len() >= PACKET_TAG_LEN {
            u64::lemma_decoding_fits(data.skip(4));
            Header::lemma_decoding_fits(data.skip(4));
        }
    }

    proof fn lemma_same_value(&self, other: &Self, third: &Self) {
    }

    proof fn lemma_round_trip(&self) {
        self.lemma_prefix(Seq::empty());
        assert(self.encoding() + Seq::<u8>::empty() =~= self.encoding());
    }

    fn serialize(&self) -> (out: Vec<u8>) {
        let mut out = encode_le(self.tag_value() as u64, PACKET_TAG_LEN);
        match self {
            Packet::EchoRequest(value) => {
                let mut part = value.serialize();
                out.append(&mut part);
            },
            Packet::EchoReply(value) => {
                let mut part = value.serialize();
                out.append(&mut part);
            },
            Packet::ClientToServer(header) => {
                let mut part = header.serialize();
                out.append(&mut part);
            },
            Packet::ServerToClient(header) => {
                let mut part = header.serialize();
                out.append(&mut part);
            },
            Packet::ServerAck(id, message) => {
                let mut part = id.serialize();
                out.append(&mut part);
                let mut part = message.serialize();
                out.append(&mut part);
            },
            Packet::ClientAck(id, message) => {
                let mut part = id.serialize();
                out.append(&mut part);
                let mut part = message.serialize();
                out.append(&mut part);
            },
            Packet::ConnectionEstablished => {},
            Packet::DuplicateConnection => {},
            Packet::Alert => {},
        }
        assert(out@ =~= self.encoding());
        out
    }

    fn deserialize_with_size(data: &[u8]) -> (r: Option<(Self, usize)>) {
        let mut at: usize = 0;
        proof {
            assert(data@.skip(0) =~= data@);
            if data@.len() >= 4 {
                lemma_le_value_bound(data@.take(4));
                lemma_pow256_values();
                let rest = data@.skip(4);
                if rest.len() >= 8 {
                    assert(rest.skip(8) =~= data@.skip(12));
                }
                if rest.len() >= 16 {
                    assert(rest.take(8) =~= rest.subrange(0, 8));
                    assert(rest.skip(8).take(8) =~= rest.subrange(8, 16));
                }
            }
        }
        let code: u32 = read_field(data, &mut at)?;
        if code == 0x00 {
            let value: u64 = read_field(data, &mut at)?;
            Some((Packet::EchoRequest(value), at))
        } else if code == 0x80 {
            let value: u64 = read_field(data, &mut at)?;
            Some((Packet::EchoReply(value), at))
        } else if code == 0x01 {
            let header: Header = read_field(data, &mut at)?;
            Some((Packet::ClientToServer(header), at))
        } else if code == 0x02 {
            let header: Header = read_field(data, &mut at)?;
            Some((Packet::ServerToClient(header), at))
        } else if code == 0x81 {
            let id: ThreemaID = read_field(data, &mut at)?;
            let message: MessageID = read_field(data, &mut at)?;
            Some((Packet::ServerAck(id, message), at))
        } else if code == 0x82 {
            let id: ThreemaID = read_field(data, &mut at)?;
            let message: MessageID = read_field(data, &mut at)?;
            Some((Packet::ClientAck(id, message), at))
        } else if code == 0xd0 {
            Some((Packet::ConnectionEstablished, at))
        } else if code == 0xe0 {
            Some((Packet::DuplicateConnection, at))
        } else if code == 0xe1 {
            Some((Packet::Alert, at))
        } else {
            None
        }
    }
}

impl SelfDelimiting for Packet {
    proof fn lemma_plain(&self, other: &Self) {
    }

    proof fn lemma_prefix(&self, rest: Seq<u8>) {
        let data = self.encoding() + rest;
        let tag = le_bytes(self.code() as nat, 4);
        lemma_pow256_values();
        lemma_le_read_back(self.code() as nat, 4, self.payload() + rest);
        assert(data =~= tag + (self.payload() + rest));
        assert(data.skip(4) =~= self.payload() + rest);
        let body = data.skip(4);
        match self {
            Packet::EchoRequest(value) => {
                value.lemma_prefix(rest);
                lemma_le_bytes_len(*value as nat, 8);
            },
            Packet::EchoReply(value) => {
                value.lemma_prefix(rest);
                lemma_le_bytes_len(*value as nat, 8);
            },
            Packet::ClientToServer(header) => {
                header.lemma_prefix(rest);
            },
            Packet::ServerToClient(header) => {
                header.lemma_prefix(rest);
            },
            Packet::ServerAck(id, message) => {
                id.lemma_view();
                message.lemma_view();
                assert(body.subrange(0, 8) =~= id@);
                assert(body.subrange(8, 16) =~= message@);
            },
            Packet::ClientAck(id, message) => {
                id.lemma_view();
                message.lemma_view();
                assert(body.subrange(0, 8) =~= id@);
                assert(body.subrange(8, 16) =~= message@);
            },
            Packet::ConnectionEstablished => {},
            Packet::DuplicateConnection => {},
            Packet::Alert => {},
        }
    }

    proof fn lemma_truncated(&self, kept: int) {
        let tag = le_bytes(self.code() as nat, 4);
        lemma_le_bytes_len(self.code() as nat, 4);
        let data = self.encoding().take(kept);
        if kept >= 4 {
            lemma_pow256_values();
            let tail = self.payload().take(kept - 4);
            assert(data =~= tag + tail);
            lemma_le_read_back(self.code() as nat, 4, tail);
            assert(data.skip(4) =~= tail);
            match self {
                Packet::EchoRequest(value) => {
                    value.lemma_truncated(kept - 4);
                },
                Packet::EchoReply(value) => {
                    value.lemma_truncated(kept - 4);
                },
                Packet::ClientToServer(header) => {
                    header.lemma_truncated(kept - 4);
                },
                Packet::ServerToClient(header) => {
                    header.lemma_truncated(kept - 4);
                },
                Packet::ServerAck(id, message) => {
                    id.lemma_view();
                    message.lemma_view();
                },
                Packet::ClientAck(id, message) => {
                    id.lemma_view();
                    message.lemma_view();
                },
                Packet::ConnectionEstablished => {},
                Packet::DuplicateConnection => {},
                Packet::Alert => {},
            }
        }
    }
}

impl TaggedUnion for Packet {
    open spec fn tag_width() -> nat {
        4
    }

    open spec fn is_known_tag(tag: nat) -> bool {
        tag == 0x00 || tag == 0x80 || tag == 0x01 || tag == 0x02 || tag == 0x81 || tag == 0x82
            || tag == 0xd0 || tag == 0xe0 || tag == 0xe1
    }

    open spec fn tag(&self) -> nat {
        self.code() as nat
    }

    proof fn lemma_tag_first(&self) {
        lemma_le_bytes_len(self.code() as nat, 4);
        assert(self.encoding().take(4) =~= le_bytes(self.code() as nat, 4));
    }

    proof fn lemma_unknown_tag(data: Seq<u8>) {
    }
}

/// The identifier of a poll, unique for its creator.
pub type BallotID = [u8; 8];

/// Length of the tag of a message, in bytes.
pub const MESSAGE_TAG_LEN: usize = 1;

/// What one user sends another. Only some kinds carry what they hold;
/// of the others the kind alone is known.
#[derive(Debug)]
pub enum Message {
    Text(Text),
    Image,
    Location,
    Video,
    Audio,
    BallotCreate { poll_id: BallotID, details: Ballot },
    BallotVote { sender: ThreemaID, poll_id: BallotID, updates: BallotUpdates },
    File(File),
    ContactSetPhoto,
    ContactDeletePhoto,
    ContactRequestPhoto,
    GroupText,
    GroupLocation,
    GroupImage,
    GroupVideo,
    GroupAudio,
    GroupFile,
    GroupCreate,
    GroupRename,
    GroupLeave,
    GroupAddMember,
    GroupRemoveMember,
    GroupDestroy,
    GroupSetPhoto,
    GroupRequestSync,
    GroupBallotCreate,
    GroupBallotVote,
    GroupDeletePhoto,
    VoipCallOffer,
    VoipCallAnswer,
    VoipIceCandidates,
    VoipCallHangup,
    VoipCallRinging,
    DeliveryReceipt(MessageStatus, MessageID),
    TypingNotification,
}

impl Message {
    /// What the variants declare, in their order: each its own tag, but
    /// for `Image`, which follows `Text`.
    pub open spec fn declared_tags() -> Seq<Option<u64>> {
        seq![
            Some(0x01u64),
            None,
            Some(0x10u64),
            Some(0x13u64),
            Some(0x14u64),
            Some(0x15u64),
            Some(0x16u64),
            Some(0x17u64),
            Some(0x18u64),
            Some(0x19u64),
            Some(0x1au64),
            Some(0x41u64),
            Some(0x42u64),
            Some(0x43u64),
            Some(0x44u64),
            Some(0x45u64),
            Some(0x46u64),
            Some(0x4au64),
            Some(0x4bu64),
            Some(0x4cu64),
            Some(0x4du64),
            Some(0x4eu64),
            Some(0x4fu64),
            Some(0x50u64),
            Some(0x51u64),
            Some(0x52u64),
            Some(0x53u64),
            Some(0x54u64),
            Some(0x60u64),
            Some(0x61u64),
            Some(0x62u64),
            Some(0x63u64),
            Some(0x64u64),
            Some(0x80u64),
            Some(0x90u64),
        ]
    }

    /// The place of this value's variant among the variants.
    pub open spec fn variant_index(&self) -> int {
        match self {
            Message::Text(_) => 0,
            Message::Image => 1,
            Message::Location => 2,
            Message::Video => 3,
            Message::Audio => 4,
            Message::BallotCreate { .. } => 5,
            Message::BallotVote { .. } => 6,
            Message::File(_) => 7,
            Message::ContactSetPhoto => 8,
            Message::ContactDeletePhoto => 9,
            Message::ContactRequestPhoto => 10,
            Message::GroupText => 11,
            Message::GroupLocation => 12,
            Message::GroupImage => 13,
            Message::GroupVideo => 14,
            Message::GroupAudio => 15,
            Message::GroupFile => 16,
            Message::GroupCreate => 17,
            Message::GroupRename => 18,
            Message::GroupLeave => 19,
            Message::GroupAddMember => 20,
            Message::GroupRemoveMember => 21,
            Message::GroupDestroy => 22,
            Message::GroupSetPhoto => 23,
            Message::GroupRequestSync => 24,
            Message::GroupBallotCreate => 25,
            Message::GroupBallotVote => 26,
            Message::GroupDeletePhoto => 27,
            Message::VoipCallOffer => 28,
            Message::VoipCallAnswer => 29,
            Message::VoipIceCandidates => 30,
            Message::VoipCallHangup => 31,
            Message::VoipCallRinging => 32,
            Message::DeliveryReceipt(_, _) => 33,
            Message::TypingNotification => 34,
        }
    }

    /// The tags are those that the numbering rule gives the declaration.
    pub proof fn lemma_tags_as_declared(&self)
        ensures
            tags_of(Self::declared_tags())[self.variant_index()] == self.code(),
    {
        let declared = Self::declared_tags();
        lemma_tag_at(declared, 0);
        lemma_tag_at(declared, self.variant_index());
    }

    /// The tag that tells the variant.
    pub open spec fn code(&self) -> u8 {
        match self {
            Message::Text(_) => 0x01,
            Message::Image => 0x02,
            Message::Location => 0x10,
            Message::Video => 0x13,
            Message::Audio => 0x14,
            Message::BallotCreate { .. } => 0x15,
            Message::BallotVote { .. } => 0x16,
            Message::File(_) => 0x17,
            Message::ContactSetPhoto => 0x18,
            Message::ContactDeletePhoto => 0x19,
            Message::ContactRequestPhoto => 0x1a,
            Message::GroupText => 0x41,
            Message::GroupLocation => 0x42,
            Message::GroupImage => 0x43,
            Message::GroupVideo => 0x44,
            Message::GroupAudio => 0x45,
            Message::GroupFile => 0x46,
            Message::GroupCreate => 0x4a,
            Message::GroupRename => 0x4b,
            Message::GroupLeave => 0x4c,
            Message::GroupAddMember => 0x4d,
            Message::GroupRemoveMember => 0x4e,
            Message::GroupDestroy => 0x4f,
            Message::GroupSetPhoto => 0x50,
            Message::GroupRequestSync => 0x51,
            Message::GroupBallotCreate => 0x52,
            Message::GroupBallotVote => 0x53,
            Message::GroupDeletePhoto => 0x54,
            Message::VoipCallOffer => 0x60,
            Message::VoipCallAnswer => 0x61,
            Message::VoipIceCandidates => 0x62,
            Message::VoipCallHangup => 0x63,
            Message::VoipCallRinging => 0x64,
            Message::DeliveryReceipt(_, _) => 0x80,
            Message::TypingNotification => 0x90,
        }
    }

    /// The message without content that `code` stands for.
    pub open spec fn unit_of_code(code: u8) -> Option<Message> {
        if code == 0x02 {
            Some(Message::Image)
        } else if code == 0x10 {
            Some(Message::Location)
        } else if code == 0x13 {
            Some(Message::Video)
        } else if code == 0x14 {
            Some(Message::Audio)
        } else if code == 0x18 {
            Some(Message::ContactSetPhoto)
        } else if code == 0x19 {
            Some(Message::ContactDeletePhoto)
        } else if code == 0x1a {
            Some(Message::ContactRequestPhoto)
        } else if code == 0x41 {
            Some(Message::GroupText)
        } else if code == 0x42 {
            Some(Message::GroupLocation)
        } else if code == 0x43 {
            Some(Message::GroupImage)
        } else if code == 0x44 {
            Some(Message::GroupVideo)
        } else if code == 0x45 {
            Some(Message::GroupAudio)
        } else if code == 0x46 {
            Some(Message::GroupFile)
        } else if code == 0x4a {
            Some(Message::GroupCreate)
        } else if code == 0x4b {
            Some(Message::GroupRename)
        } else if code == 0x4c {
            Some(Message::GroupLeave)
        } else if code == 0x4d {
            Some(Message::GroupAddMember)
        } else if code == 0x4e {
            Some(Message::GroupRemoveMember)
        } else if code == 0x4f {
            Some(Message::GroupDestroy)
        } else if code == 0x50 {
            Some(Message::GroupSetPhoto)
        } else if code == 0x51 {
            Some(Message::GroupRequestSync)
        } else if code == 0x52 {
            Some(Message::GroupBallotCreate)
        } else if code == 0x53 {
            Some(Message::GroupBallotVote)
        } else if code == 0x54 {
            Some(Message::GroupDeletePhoto)
        } else if code == 0x60 {
            Some(Message::VoipCallOffer)
        } else if code == 0x61 {
            Some(Message::VoipCallAnswer)
        } else if code == 0x62 {
            Some(Message::VoipIceCandidates)
        } else if code == 0x63 {
            Some(Message::VoipCallHangup)
        } else if code == 0x64 {
            Some(Message::VoipCallRinging)
        } else if code == 0x90 {
            Some(Message::TypingNotification)
        } else {
            None
        }
    }

    /// What follows the tag.
    pub open spec fn payload(&self) -> Seq<u8> {
        match self {
            Message::Text(text) => text.encoding(),
            Message::BallotCreate { poll_id, details } => poll_id@ + details.encoding(),
            Message::BallotVote { sender, poll_id, updates } => sender@ + poll_id@
                + updates.encoding(),
            Message::File(file) => file.encoding(),
            Message::DeliveryReceipt(status, message) => status.encoding() + message@,
            _ => Seq::empty(),
        }
    }

    /// The message of tag `code` that `rest` starts with, and the number
    /// of bytes of `rest` that it takes up.
    pub open spec fn decoding_payload(code: u8, rest: Seq<u8>) -> Option<(Self, nat)> {
        if code == 0x01 {
            match Text::decoding(rest) {
                Some((text, used)) => Some((Message::Text(text), used)),
                None => None,
            }
        } else if code == 0x15 {
            if rest.len() >= 8 {
                match Ballot::decoding(rest.skip(8)) {
                    Some((details, used)) => Some(
                        (
                            Message::BallotCreate {
                                poll_id: array_of(rest.subrange(0, 8)),
                                details,
                            },
                            8 + used,
                        ),
                    ),
                    None => None,
                }
            } else {
                None
            }
        } else if code == 0x16 {
            if rest.len() >= 16 {
                match BallotUpdates::decoding(rest.skip(16)) {
                    Some((updates, used)) => Some(
                        (
                            Message::BallotVote {
                                sender: ThreemaID::holding(rest.subrange(0, 8)),
                                poll_id: array_of(rest.subrange(8, 16)),
                                updates,
                            },
                            16 + used,
                        ),
                    ),
                    None => None,
                }
            } else {
                None
            }
        } else if code == 0x17 {
            match File::decoding(rest) {
                Some((file, used)) => Some((Message::File(file), used)),
                None => None,
            }
        } else if code == 0x80 {
            if rest.len() >= 9 {
                match MessageStatus::of_code(rest[0]) {
                    Some(status) => Some(
                        (
                            Message::DeliveryReceipt(
                                status,
                                MessageID::holding(rest.subrange(1, 9)),
                            ),
                            9,
                        ),
                    ),
                    None => None,
                }
            } else {
                None
            }
        } else {
            match Self::unit_of_code(code) {
                Some(message) => Some((message, 0)),
                None => None,
            }
        }
    }

    /// Whether the open-ended part of the message, if it has one, still
    /// reads after the encoding is cut down to `kept` bytes.
    pub open spec fn cut_still_reads(&self, kept: int) -> bool {
        match self {
            Message::Text(text) => kept >= 1 && valid_utf8(text.encoding().take(kept - 1)),
            Message::BallotCreate { details, .. } => kept >= 9 && json_shape(
                details@.take(kept - 9),
            ) is Object,
            Message::BallotVote { updates, .. } => kept >= 17 && json_shape(
                updates@.take(kept - 17),
            ) is Array,
            Message::File(file) => kept >= 1 && json_shape(file@.take(kept - 1)) is Object,
            _ => false,
        }
    }

    fn tag_value(&self) -> (code: u8)
        ensures
            code == self.code(),
    {
        match self {
            Message::Text(_) => 0x01,
            Message::Image => 0x02,
            Message::Location => 0x10,
            Message::Video => 0x13,
            Message::Audio => 0x14,
            Message::BallotCreate { .. } => 0x15,
            Message::BallotVote { .. } => 0x16,
            Message::File(_) => 0x17,
            Message::ContactSetPhoto => 0x18,
            Message::ContactDeletePhoto => 0x19,
            Message::ContactRequestPhoto => 0x1a,
            Message::GroupText => 0x41,
            Message::GroupLocation => 0x42,
            Message::GroupImage => 0x43,
            Message::GroupVideo => 0x44,
            Message::GroupAudio => 0x45,
            Message::GroupFile => 0x46,
            Message::GroupCreate => 0x4a,
            Message::GroupRename => 0x4b,
            Message::GroupLeave => 0x4c,
            Message::GroupAddMember => 0x4d,
            Message::GroupRemoveMember => 0x4e,
            Message::GroupDestroy => 0x4f,
            Message::GroupSetPhoto => 0x50,
            Message::GroupRequestSync => 0x51,
            Message::GroupBallotCreate => 0x52,
            Message::GroupBallotVote => 0x53,
            Message::GroupDeletePhoto => 0x54,
            Message::VoipCallOffer => 0x60,
            Message::VoipCallAnswer => 0x61,
            Message::VoipIceCandidates => 0x62,
            Message::VoipCallHangup => 0x63,
            Message::VoipCallRinging => 0x64,
            Message::DeliveryReceipt(_, _) => 0x80,
            Message::TypingNotification => 0x90,
        }
    }

    fn unit_from_code(code: u8) -> (message: Option<Message>)
        ensures
            message == Self::unit_of_code(code),
    {
        if code == 0x02 {
            Some(Message::Image)
        } else if code == 0x10 {
            Some(Message::Location)
        } else if code == 0x13 {
            Some(Message::Video)
        } else if code == 0x14 {
            Some(Message::Audio)
        } else if code == 0x18 {
            Some(Message::ContactSetPhoto)
        } else if code == 0x19 {
            Some(Message::ContactDeletePhoto)
        } else if code == 0x1a {
            Some(Message::ContactRequestPhoto)
        } else if code == 0x41 {
            Some(Message::GroupText)
        } else if code == 0x42 {
            Some(Message::GroupLocation)
        } else if code == 0x43 {
            Some(Message::GroupImage)
        } else if code == 0x44 {
            Some(Message::GroupVideo)
        } else if code == 0x45 {
            Some(Message::GroupAudio)
        } else if code == 0x46 {
            Some(Message::GroupFile)
        } else if code == 0x4a {
            Some(Message::GroupCreate)
        } else if code == 0x4b {
            Some(Message::GroupRename)
        } else if code == 0x4c {
            Some(Message::GroupLeave)
        } else if code == 0x4d {
            Some(Message::GroupAddMember)
        } else if code == 0x4e {
            Some(Message::GroupRemoveMember)
        } else if code == 0x4f {
            Some(Message::GroupDestroy)
        } else if code == 0x50 {
            Some(Message::GroupSetPhoto)
        } else if code == 0x51 {
            Some(Message::GroupRequestSync)
        } else if code == 0x52 {
            Some(Message::GroupBallotCreate)
        } else if code == 0x53 {
            Some(Message::GroupBallotVote)
        } else if code == 0x54 {
            Some(Message::GroupDeletePhoto)
        } else if code == 0x60 {
            Some(Message::VoipCallOffer)
        } else if code == 0x61 {
            Some(Message::VoipCallAnswer)
        } else if code == 0x62 {
            Some(Message::VoipIceCandidates)
        } else if code == 0x63 {
            Some(Message::VoipCallHangup)
        } else if code == 0x64 {
            Some(Message::VoipCallRinging)
        } else if code == 0x90 {
            Some(Message::TypingNotification)
        } else {
            None
        }
    }
}

impl Message {
    /// Whether `data` starts with the tag of a message.
    pub fn has_known_tag(data: &[u8]) -> (known: bool)
        ensures
            known == starts_with_known_tag::<Message>(data@),
    {
        if data.len() < MESSAGE_TAG_LEN {
            return false;
        }
        proof {
            reveal_with_fuel(le_value, 2);
            assert(data@.take(1).drop_first().len() == 0);
            assert(le_value(data@.take(1)) == data@[0] as nat);
        }
        let code = data[0];
        code == 0x01 || code == 0x15 || code == 0x16 || code == 0x17 || code == 0x80
            || Self::unit_from_code(code).is_some()
    }
}

impl Flat for Message {
    open spec fn encoding(&self) -> Seq<u8> {
        seq![self.code()] + self.payload()
    }

    open spec fn decoding(data: Seq<u8>) -> Option<(Self, nat)> {
        if data.len() >= MESSAGE_TAG_LEN {
            match Self::decoding_payload(data[0], data.skip(1)) {
                Some((message, used)) => Some((message, 1 + used)),
                None => None,
            }
        } else {
            None
        }
    }

    open spec fn is_valid(&self) -> bool {
        match self {
            Message::BallotCreate { details, .. } => details.is_valid(),
            Message::BallotVote { updates, .. } => updates.is_valid(),
            Message::File(file) => file.is_valid(),
            _ => true,
        }
    }

    open spec fn same_value(&self, other: &Self) -> bool {
        match (self, other) {
            (Message::Text(a), Message::Text(b)) => a.same_value(b),
            (
                Message::BallotCreate { poll_id: a_poll, details: a },
                Message::BallotCreate { poll_id: b_poll, details: b },
            ) => a_poll == b_poll && a.same_value(b),
            (
                Message::BallotVote { sender: a_sender, poll_id: a_poll, updates: a },
                Message::BallotVote { sender: b_sender, poll_id: b_poll, updates: b },
            ) => a_sender == b_sender && a_poll == b_poll && a.same_value(b),
            (Message::File(a), Message::File(b)) => a.same_value(b),
            _ => *self == *other,
        }
    }

    proof fn lemma_decoding_fits(data: Seq<u8>) {
        if data.len() >= 1 {
            let rest = data.skip(1);
            Text::lemma_decoding_fits(rest);
            File::lemma_decoding_fits(rest);
            if rest.len() >= 8 {
                Ballot::lemma_decoding_fits(rest.skip(8));
            }
            if rest.len() >= 16 {
                BallotUpdates::lemma_decoding_fits(rest.skip(16));
            }
        }
    }

    proof fn lemma_same_value(&self, other: &Self, third: &Self) {
    }

    proof fn lemma_round_trip(&self) {
        let data = self.encoding();
        assert(data.skip(1) =~= self.payload());
        let rest = data.skip(1);
        match self {
            Message::Text(text) => {
                text.lemma_round_trip();
            },
            Message::BallotCreate { poll_id, details } => {
                details.lemma_round_trip();
                lemma_array_of_view::<u8, 8>(*poll_id);
                assert(rest.subrange(0, 8) =~= poll_id@);
                assert(rest.skip(8) =~= details.encoding());
            },
            Message::BallotVote { sender, poll_id, updates } => {
                updates.lemma_round_trip();
                sender.lemma_view();
                lemma_array_of_view::<u8, 8>(*poll_id);
                assert(rest.subrange(0, 8) =~= sender@);
                assert(rest.subrange(8, 16) =~= poll_id@);
                assert(rest.skip(16) =~= updates.encoding());
            },
            Message::File(file) => {
                file.lemma_round_trip();
            },
            Message::DeliveryReceipt(status, message) => {
                message.lemma_view();
                assert(rest.subrange(1, 9) =~= message@);
            },
            _ => {},
        }
    }

    fn serialize(&self) -> (out: Vec<u8>) {
        let mut out: Vec<u8> = Vec::new();
        out.push(self.tag_value());
        match self {
            Message::Text(text) => {
                let mut part = text.serialize();
                out.append(&mut part);
            },
            Message::BallotCreate { poll_id, details } => {
                proof {
                    lemma_byte_array_encoding::<8>(*poll_id);
                }
                let mut part = poll_id.serialize();
                out.append(&mut part);
                let mut part = details.serialize();
                out.append(&mut part);
            },
            Message::BallotVote { sender, poll_id, updates } => {
                proof {
                    lemma_byte_array_encoding::<8>(*poll_id);
                }
                let mut part = sender.serialize();
                out.append(&mut part);
                let mut part = poll_id.serialize();
                out.append(&mut part);
                let mut part = updates.serialize();
                out.append(&mut part);
            },
            Message::File(file) => {
                let mut part = file.serialize();
                out.append(&mut part);
            },
            Message::DeliveryReceipt(status, message) => {
                let mut part = status.serialize();
                out.append(&mut part);
                let mut part = message.serialize();
                out.append(&mut part);
            },
            _ => {},
        }
        assert(out@ =~= self.encoding());
        out
    }

    fn deserialize_with_size(data: &[u8]) -> (r: Option<(Self, usize)>) {
        let mut at: usize = 0;
        proof {
            assert(data@.skip(0) =~= data@);
            if data@.len() >= 1 {
                let rest = data@.skip(1);
                lemma_byte_array_decoding::<8>(rest);
                if rest.len() >= 8 {
                    assert(rest.take(8) =~= rest.subrange(0, 8));
                    assert(rest.skip(8) =~= data@.skip(9));
                    lemma_byte_array_decoding::<8>(rest.skip(8));
                }
                if rest.len() >= 16 {
                    assert(rest.skip(8).take(8) =~= rest.subrange(8, 16));
                    assert(rest.skip(16) =~= data@.skip(17));
                }
                if rest.len() >= 1 {
                    assert(rest.skip(1) =~= data@.skip(2));
                }
                if rest.len() >= 9 {
                    assert(rest.skip(1).take(8) =~= rest.subrange(1, 9));
                }
            }
        }
        let code: u8 = read_field(data, &mut at)?;
        if code == 0x01 {
            let text: Text = read_field(data, &mut at)?;
            Some((Message::Text(text), at))
        } else if code == 0x15 {
            let poll_id: BallotID = read_field(data, &mut at)?;
            let details: Ballot = read_field(data, &mut at)?;
            Some((Message::BallotCreate { poll_id, details }, at))
        } else if code == 0x16 {
            let sender: ThreemaID = read_field(data, &mut at)?;
            let poll_id: BallotID = read_field(data, &mut at)?;
            let updates: BallotUpdates = read_field(data, &mut at)?;
            Some((Message::BallotVote { sender, poll_id, updates }, at))
        } else if code == 0x17 {
            let file: File = read_field(data, &mut at)?;
            Some((Message::File(file), at))
        } else if code == 0x80 {
            let status: MessageStatus = read_field(data, &mut at)?;
            let message: MessageID = read_field(data, &mut at)?;
            Some((Message::DeliveryReceipt(status, message), at))
        } else {
            match Self::unit_from_code(code) {
                Some(message) => Some((message, at)),
                None => None,
            }
        }
    }
}

impl Message {
    /// A message cut short does not read, unless it ends in text or JSON
    /// and what is left of that still reads.
    pub proof fn lemma_truncated(&self, kept: int)
        requires
            0 <= kept < self.encoding().len(),
            !self.cut_still_reads(kept),
        ensures
            Self::decoding(self.encoding().take(kept)) is None,
    {
        let data = self.encoding().take(kept);
        if kept >= 1 {
            let tail = self.payload().take(kept - 1);
            assert(data =~= seq![self.code()] + tail);
            assert(data.skip(1) =~= tail);
            match self {
                Message::BallotCreate { poll_id, details } => {
                    if kept >= 9 {
                        assert(tail.skip(8) =~= details@.take(kept - 9));
                    }
                },
                Message::BallotVote { sender, poll_id, updates } => {
                    sender.lemma_view();
                    if kept >= 17 {
                        assert(tail.skip(16) =~= updates@.take(kept - 17));
                    }
                },
                Message::DeliveryReceipt(status, message) => {
                    message.lemma_view();
                },
                _ => {},
            }
        }
    }
}

impl TaggedUnion for Message {
    open spec fn tag_width() -> nat {
        1
    }

    open spec fn is_known_tag(tag: nat) -> bool {
        tag == 0x01 || tag == 0x02 || tag == 0x10 || tag == 0x13 || tag == 0x14 || tag == 0x15
            || tag == 0x16 || tag == 0x17 || tag == 0x18 || tag == 0x19 || tag == 0x1a || tag ==
            0x41 || tag == 0x42 || tag == 0x43 || tag == 0x44 || tag == 0x45 || tag == 0x46 || tag
            == 0x4a || tag == 0x4b || tag == 0x4c || tag == 0x4d || tag == 0x4e || tag == 0x4f ||
            tag == 0x50 || tag == 0x51 || tag == 0x52 || tag == 0x53 || tag == 0x54 || tag == 0x60
            || tag == 0x61 || tag == 0x62 || tag == 0x63 || tag == 0x64 || tag == 0x80 || tag ==
            0x90
    }

    open spec fn tag(&self) -> nat {
        self.code() as nat
    }

    proof fn lemma_tag_first(&self) {
        reveal_with_fuel(le_bytes, 2);
        assert(self.encoding().take(1) =~= le_bytes(self.tag(), 1));
    }

    proof fn lemma_unknown_tag(data: Seq<u8>) {
        if data.len() >= 1 {
            reveal_with_fuel(le_value, 2);
            assert(data.take(1).drop_first().len() == 0);
            assert(le_value(data.take(1)) == data[0] as nat);
        }
    }
}

/// How a file message is to be shown.
#[derive(Debug, Clone, Copy, PartialEq, Eq)]
pub enum RenderingType {
    /// As a file.
    File,
    /// As a picture or a sound.
    Media,
    /// As a sticker: a picture without a frame.
    Sticker,
}

impl RenderingType {
    /// The number that stands for the rendering type.
    pub open spec fn code_of(&self) -> u8 {
        match self {
            RenderingType::File => 0,
            RenderingType::Media => 1,
            RenderingType::Sticker => 2,
        }
    }

    /// The number that stands for the rendering type.
    pub fn code(self) -> (code: u8)
        ensures
            code == self.code_of(),
    {
        match self {
            RenderingType::File => 0,
            RenderingType::Media => 1,
            RenderingType::Sticker => 2,
        }
    }

    /// The rendering type that `code` stands for.
    pub fn from_code(code: u64) -> (r: Option<Self>)
        ensures
            match r {
                Some(rendering) => rendering.code_of() == code,
                None => code > 2,
            },
    {
        if code == 0 {
            Some(RenderingType::File)
        } else if code == 1 {
            Some(RenderingType::Media)
        } else if code == 2 {
            Some(RenderingType::Sticker)
        } else {
            None
        }
    }
}

impl Default for RenderingType {
    fn default() -> (rendering: Self)
        ensures
            rendering == RenderingType::File,
    {
        RenderingType::File
    }
}

/// Whether a poll still takes votes.
#[derive(Debug, Clone, Copy, PartialEq, Eq)]
pub enum BallotState {
    /// The poll takes votes.
    Open,
    /// The poll is over.
    Closed,
}

impl BallotState {
    /// The number that stands for the value.
    pub open spec fn code_of(&self) -> u8 {
        match self {
            BallotState::Open => 0,
            BallotState::Closed => 1,
        }
    }

    /// The number that stands for the value.
    pub fn code(self) -> (code: u8)
        ensures
            code == self.code_of(),
    {
        match self {
            BallotState::Open => 0,
            BallotState::Closed => 1,
        }
    }

    /// The value that `code` stands for.
    pub fn from_code(code: u8) -> (r: Option<Self>)
        ensures
            match r {
                Some(value) => value.code_of() == code,
                None => code > 1,
            },
    {
        if code == 0 {
            Some(BallotState::Open)
        } else if code == 1 {
            Some(BallotState::Closed)
        } else {
            None
        }
    }
}

/// When the votes of a poll are shown.
#[derive(Debug, Clone, Copy, PartialEq, Eq)]
pub enum BallotType {
    /// When the poll is over.
    ResultOnClose,
    /// As they come in.
    Intermediate,
}

impl BallotType {
    /// The number that stands for the value.
    pub open spec fn code_of(&self) -> u8 {
        match self {
            BallotType::ResultOnClose => 0,
            BallotType::Intermediate => 1,
        }
    }

    /// The number that stands for the value.
    pub fn code(self) -> (code: u8)
        ensures
            code == self.code_of(),
    {
        match self {
            BallotType::ResultOnClose => 0,
            BallotType::Intermediate => 1,
        }
    }

    /// The value that `code` stands for.
    pub fn from_code(code: u8) -> (r: Option<Self>)
        ensures
            match r {
                Some(value) => value.code_of() == code,
                None => code > 1,
            },
    {
        if code == 0 {
            Some(BallotType::ResultOnClose)
        } else if code == 1 {
            Some(BallotType::Intermediate)
        } else {
            None
        }
    }
}

/// How many choices one vote may take.
#[derive(Debug, Clone, Copy, PartialEq, Eq)]
pub enum AssessmentType {
    /// One.
    Single,
    /// More than one.
    Multiple,
}

impl AssessmentType {
    /// The number that stands for the value.
    pub open spec fn code_of(&self) -> u8 {
        match self {
            AssessmentType::Single => 0,
            AssessmentType::Multiple => 1,
        }
    }

    /// The number that stands for the value.
    pub fn code(self) -> (code: u8)
        ensures
            code == self.code_of(),
    {
        match self {
            AssessmentType::Single => 0,
            AssessmentType::Multiple => 1,
        }
    }

    /// The value that `code` stands for.
    pub fn from_code(code: u8) -> (r: Option<Self>)
        ensures
            match r {
                Some(value) => value.code_of() == code,
                None => code > 1,
            },
    {
        if code == 0 {
            Some(AssessmentType::Single)
        } else if code == 1 {
            Some(AssessmentType::Multiple)
        } else {
            None
        }
    }
}

/// What the choices of a poll are.
#[derive(Debug, Clone, Copy, PartialEq, Eq)]
pub enum ChoiceType {
    /// Text.
    Text,
}

impl ChoiceType {
    /// The number that stands for the value.
    pub open spec fn code_of(&self) -> u8 {
        match self {
            ChoiceType::Text => 0,
        }
    }

    /// The number that stands for the value.
    pub fn code(self) -> (code: u8)
        ensures
            code == self.code_of(),
    {
        match self {
            ChoiceType::Text => 0,
        }
    }

    /// The value that `code` stands for.
    pub fn from_code(code: u8) -> (r: Option<Self>)
        ensures
            match r {
                Some(value) => value.code_of() == code,
                None => code > 0,
            },
    {
        if code == 0 {
            Some(ChoiceType::Text)
        } else {
            None
        }
    }
}

} // verus!
