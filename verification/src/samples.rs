//! Three small layouts that show the rules of the codec at work: a tagged
//! union, a record, and a record that wraps the union.

use vstd::prelude::*;

use crate::flat::{
    array_of, le_bytes, le_value, lemma_array_of_view, lemma_byte_array_decoding,
    lemma_byte_array_encoding, lemma_le_bytes_len, lemma_le_read_back, lemma_pow256_values,
    read_field, tags_of, Flat, SelfDelimiting, TaggedUnion,
};

verus! {

/// A tagged union with a one-byte tag. `Bar` is declared with the tag 1
/// and `Baz` with the tag 3; `Blubb` declares none and so takes 4.
#[derive(Debug, Clone, Copy, PartialEq, Eq)]
pub enum Foo {
    Bar,
    Baz(bool),
    Blubb { a: bool, b: u8 },
}

impl Foo {
    /// What the variants declare, in their order.
    pub open spec fn declared_tags() -> Seq<Option<u64>> {
        seq![Some(1u64), Some(3u64), None]
    }

    /// The place of this value's variant among the variants.
    pub open spec fn variant_index(&self) -> int {
        match self {
            Foo::Bar => 0,
            Foo::Baz(_) => 1,
            Foo::Blubb { .. } => 2,
        }
    }

    /// The tag that tells the variant.
    pub open spec fn code(&self) -> u8 {
        match self {
            Foo::Bar => 1,
            Foo::Baz(_) => 3,
            Foo::Blubb { .. } => 4,
        }
    }

    /// The tags are those that the numbering rule gives the declaration.
    pub proof fn lemma_tags_as_declared(&self)
        ensures
            tags_of(Self::declared_tags())[self.variant_index()] == self.code(),
    {
        let declared = Self::declared_tags();
        reveal_with_fuel(tags_of, 4);
        assert(declared.drop_last() =~= seq![Some(1u64), Some(3u64)]);
        assert(declared.drop_last().drop_last() =~= seq![Some(1u64)]);
        assert(declared.drop_last().drop_last().drop_last() =~= Seq::<Option<u64>>::empty());
    }
}

impl Flat for Foo {
    open spec fn encoding(&self) -> Seq<u8> {
        match self {
            Foo::Bar => seq![1u8],
            Foo::Baz(value) => seq![3u8] + value.encoding(),
            Foo::Blubb { a, b } => seq![4u8] + a.encoding() + b.encoding(),
        }
    }

    open spec fn decoding(data: Seq<u8>) -> Option<(Self, nat)> {
        if data.len() < 1 {
            None
        } else if data[0] == 1 {
            Some((Foo::Bar, 1))
        } else if data[0] == 3 {
            if data.len() >= 2 {
                Some((Foo::Baz(data[1] != 0), 2))
            } else {
                None
            }
        } else if data[0] == 4 {
            if data.len() >= 3 {
                Some((Foo::Blubb { a: data[1] != 0, b: data[2] }, 3))
            } else {
                None
            }
        } else {
            None
        }
    }

    open spec fn is_valid(&self) -> bool {
        true
    }

    open spec fn same_value(&self, other: &Self) -> bool {
        *self == *other
    }

    proof fn lemma_decoding_fits(data: Seq<u8>) {
    }

    proof fn lemma_same_value(&self, other: &Self, third: &Self) {
    }

    proof fn lemma_round_trip(&self) {
    }

    fn serialize(&self) -> (out: Vec<u8>) {
        let mut out: Vec<u8> = Vec::new();
        match self {
            Foo::Bar => {
                out.push(1);
            },
            Foo::Baz(value) => {
                out.push(3);
                let mut part = value.serialize();
                out.append(&mut part);
            },
            Foo::Blubb { a, b } => {
                out.push(4);
                let mut part = a.serialize();
                out.append(&mut part);
                let mut part = b.serialize();
                out.append(&mut part);
            },
        }
        assert(out@ =~= self.encoding());
        out
    }

    fn deserialize_with_size(data: &[u8]) -> (r: Option<(Self, usize)>) {
        let mut at: usize = 0;
        proof {
            assert(data@.skip(0) =~= data@);
        }
        let tag: u8 = read_field(data, &mut at)?;
        if tag == 1 {
            Some((Foo::Bar, at))
        } else if tag == 3 {
            let value: bool = read_field(data, &mut at)?;
            Some((Foo::Baz(value), at))
        } else if tag == 4 {
            let a: bool = read_field(data, &mut at)?;
            let b: u8 = read_field(data, &mut at)?;
            Some((Foo::Blubb { a, b }, at))
        } else {
            None
        }
    }
}

impl SelfDelimiting for Foo {
    proof fn lemma_plain(&self, other: &Self) {
    }

    proof fn lemma_prefix(&self, rest: Seq<u8>) {
    }

    proof fn lemma_truncated(&self, kept: int) {
    }
}

impl TaggedUnion for Foo {
    open spec fn tag_width() -> nat {
        1
    }

    open spec fn is_known_tag(tag: nat) -> bool {
        tag == 1 || tag == 3 || tag == 4
    }

    open spec fn tag(&self) -> nat {
        self.code() as nat
    }

    proof fn lemma_tag_first(&self) {
        reveal_with_fuel(le_bytes, 2);
        assert(self.encoding().take(1) =~= le_bytes(self.tag(), 1));
    }

    proof fn lemma_unknown_tag(data: Seq<u8>) {
        if data.len() >= 1 {
            reveal_with_fuel(le_value, 2);
            assert(data.take(1).drop_first().len() == 0);
            assert(le_value(data.take(1)) == data[0] as nat);
        }
    }
}

/// A record of three fields, written one after the other.
#[derive(Debug, Clone, Copy, PartialEq, Eq)]
pub struct Header {
    pub magic: [u8; 2],
    pub size: u16,
    pub admin: bool,
}

impl Flat for Header {
    open spec fn encoding(&self) -> Seq<u8> {
        self.magic@ + le_bytes(self.size as nat, 2) + self.admin.encoding()
    }

    open spec fn decoding(data: Seq<u8>) -> Option<(Self, nat)> {
        if data.len() >= 5 {
            Some(
                (
                    Header {
                        magic: array_of(data.subrange(0, 2)),
                        size: le_value(data.subrange(2, 4)) as u16,
                        admin: data[4] != 0,
                    },
                    5,
                ),
            )
        } else {
            None
        }
    }

    open spec fn is_valid(&self) -> bool {
        true
    }

    open spec fn same_value(&self, other: &Self) -> bool {
        *self == *other
    }

    proof fn lemma_decoding_fits(data: Seq<u8>) {
    }

    proof fn lemma_same_value(&self, other: &Self, third: &Self) {
    }

    proof fn lemma_round_trip(&self) {
        self.lemma_prefix(Seq::empty());
        assert(self.encoding() + Seq::<u8>::empty() =~= self.encoding());
    }

    fn serialize(&self) -> (out: Vec<u8>) {
        let mut out: Vec<u8> = Vec::new();
        proof {
            lemma_byte_array_encoding::<2>(self.magic);
        }
        let mut part = self.magic.serialize();
        out.append(&mut part);
        let mut part = self.size.serialize();
        out.append(&mut part);
        let mut part = self.admin.serialize();
        out.append(&mut part);
        assert(out@ =~= self.encoding());
        out
    }

    fn deserialize_with_size(data: &[u8]) -> (r: Option<(Self, usize)>) {
        let mut at: usize = 0;
        proof {
            assert(data@.skip(0) =~= data@);
            lemma_byte_array_decoding::<2>(data@);
            if data@.len() >= 5 {
                assert(data@.take(2) =~= data@.subrange(0, 2));
                assert(data@.skip(2).take(2) =~= data@.subrange(2, 4));
            }
        }
        let magic: [u8; 2] = read_field(data, &mut at)?;
        let size: u16 = read_field(data, &mut at)?;
        let admin: bool = read_field(data, &mut at)?;
        Some((Header { magic, size, admin }, at))
    }
}

impl SelfDelimiting for Header {
    proof fn lemma_plain(&self, other: &Self) {
    }

    proof fn lemma_prefix(&self, rest: Seq<u8>) {
        lemma_pow256_values();
        lemma_le_read_back(self.size as nat, 2, Seq::empty());
        lemma_array_of_view::<u8, 2>(self.magic);
        let size = le_bytes(self.size as nat, 2);
        let data = self.encoding() + rest;
        assert(data.subrange(0, 2) =~= self.magic@);
        assert(data.subrange(2, 4) =~= size);
        assert(size + Seq::<u8>::empty() =~= size);
        assert(size.take(2) =~= size);
    }

    proof fn lemma_truncated(&self, kept: int) {
        lemma_le_bytes_len(self.size as nat, 2);
    }
}

/// A record of one field.
#[derive(Debug, Clone, Copy, PartialEq, Eq)]
pub struct Wrapper(pub Foo);

impl Flat for Wrapper {
    open spec fn encoding(&self) -> Seq<u8> {
        self.0.encoding()
    }

    open spec fn decoding(data: Seq<u8>) -> Option<(Self, nat)> {
        match Foo::decoding(data) {
            Some((inner, used)) => Some((Wrapper(inner), used)),
            None => None,
        }
    }

    open spec fn is_valid(&self) -> bool {
        true
    }

    open spec fn same_value(&self, other: &Self) -> bool {
        *self == *other
    }

    proof fn lemma_decoding_fits(data: Seq<u8>) {
    }

    proof fn lemma_same_value(&self, other: &Self, third: &Self) {
    }

    proof fn lemma_round_trip(&self) {
    }

    fn serialize(&self) -> (out: Vec<u8>) {
        self.0.serialize()
    }

    fn deserialize_with_size(data: &[u8]) -> (r: Option<(Self, usize)>) {
        let mut at: usize = 0;
        proof {
            assert(data@.skip(0) =~= data@);
        }
        let inner: Foo = read_field(data, &mut at)?;
        Some((Wrapper(inner), at))
    }
}

impl SelfDelimiting for Wrapper {
    proof fn lemma_plain(&self, other: &Self) {
    }

    proof fn lemma_prefix(&self, rest: Seq<u8>) {
    }

    proof fn lemma_truncated(&self, kept: int) {
    }
}

} // verus!
