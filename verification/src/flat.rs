//! A flat little-endian codec: values are laid out byte for byte, without
//! length prefixes or self-description.

use vstd::prelude::*;

verus! {

/// 256 to the power `n`.
pub open spec fn pow256(n: nat) -> nat
    decreases n,
{
    if n == 0 {
        1
    } else {
        256 * pow256((n - 1) as nat)
    }
}

/// The `width` low bytes of `value`, least significant byte first.
pub open spec fn le_bytes(value: nat, width: nat) -> Seq<u8>
    decreases width,
{
    if width == 0 {
        Seq::empty()
    } else {
        seq![(value % 256) as u8] + le_bytes(value / 256, (width - 1) as nat)
    }
}

/// The number whose base-256 digits, least significant first, are `bytes`.
pub open spec fn le_value(bytes: Seq<u8>) -> nat
    decreases bytes.len(),
{
    if bytes.len() == 0 {
        0
    } else {
        bytes[0] as nat + 256 * le_value(bytes.drop_first())
    }
}

/// The unsigned number that stands for `value` in two's complement on `width` bytes.
pub open spec fn twos_complement(value: int, width: nat) -> nat {
    if value >= 0 {
        value as nat
    } else {
        (value + pow256(width)) as nat
    }
}

/// The signed number that `raw` stands for in two's complement on `width` bytes.
pub open spec fn from_twos_complement(raw: nat, width: nat) -> int {
    if 2 * raw >= pow256(width) {
        raw - pow256(width)
    } else {
        raw as int
    }
}

/// The first powers of 256, up to the one that a `u64` stops short of.
pub proof fn lemma_pow256_values()
    ensures
        pow256(0) == 1,
        pow256(1) == 0x100,
        pow256(2) == 0x1_0000,
        pow256(3) == 0x100_0000,
        pow256(4) == 0x1_0000_0000,
        pow256(5) == 0x100_0000_0000,
        pow256(6) == 0x1_0000_0000_0000,
        pow256(7) == 0x100_0000_0000_0000,
        pow256(8) == 0x1_0000_0000_0000_0000,
{
    reveal_with_fuel(pow256, 9);
}

/// A number written on `width` bytes takes up `width` bytes.
pub proof fn lemma_le_bytes_len(value: nat, width: nat)
    ensures
        le_bytes(value, width).len() == width,
    decreases width,
{
    if width > 0 {
        lemma_le_bytes_len(value / 256, (width - 1) as nat);
    }
}

/// Decoding the `width` little-endian bytes of a number that fits gives the number back.
pub proof fn lemma_le_value_of_bytes(value: nat, width: nat)
    requires
        value < pow256(width),
    ensures
        le_value(le_bytes(value, width)) == value,
    decreases width,
{
    if width > 0 {
        let tail = le_bytes(value / 256, (width - 1) as nat);
        lemma_le_bytes_len(value / 256, (width - 1) as nat);
        assert(le_bytes(value, width).drop_first() =~= tail);
        lemma_le_value_of_bytes(value / 256, (width - 1) as nat);
    }
}

/// A number read from `n` bytes is below 256 to the `n`.
pub proof fn lemma_le_value_bound(bytes: Seq<u8>)
    ensures
        le_value(bytes) < pow256(bytes.len()),
    decreases bytes.len(),
{
    if bytes.len() > 0 {
        lemma_le_value_bound(bytes.drop_first());
    }
}

/// Encoding the number read from some bytes, on as many bytes, gives the bytes back.
pub proof fn lemma_le_bytes_of_value(bytes: Seq<u8>)
    ensures
        le_bytes(le_value(bytes), bytes.len()) == bytes,
    decreases bytes.len(),
{
    if bytes.len() > 0 {
        let tail = bytes.drop_first();
        lemma_le_bytes_of_value(tail);
        let v = le_value(bytes);
        assert(v % 256 == bytes[0] as nat);
        assert(v / 256 == le_value(tail));
        assert(le_bytes(v, bytes.len()) =~= bytes);
    }
}

/// The `width` bytes of a number that fits, followed by anything, read back as the number.
pub proof fn lemma_le_read_back(value: nat, width: nat, rest: Seq<u8>)
    requires
        value < pow256(width),
    ensures
        le_bytes(value, width).len() == width,
        (le_bytes(value, width) + rest).take(width as int) == le_bytes(value, width),
        le_value((le_bytes(value, width) + rest).take(width as int)) == value,
{
    lemma_le_bytes_len(value, width);
    lemma_le_value_of_bytes(value, width);
    assert((le_bytes(value, width) + rest).take(width as int) =~= le_bytes(value, width));
}

/// 256 to a power grows with the power, and is never 0.
pub proof fn lemma_pow256_monotonic(a: nat, b: nat)
    requires
        a <= b,
    ensures
        pow256(a) <= pow256(b),
        pow256(a) >= 1,
    decreases b,
{
    if a < b {
        lemma_pow256_monotonic(a, (b - 1) as nat);
    } else if a > 0 {
        lemma_pow256_monotonic((a - 1) as nat, (a - 1) as nat);
    }
}

/// Writes the `width` low bytes of `value`, least significant first.
pub fn encode_le(value: u64, width: usize) -> (out: Vec<u8>)
    requires
        width <= 8,
    ensures
        out@ == le_bytes(value as nat, width as nat),
{
    let mut out: Vec<u8> = Vec::new();
    let mut rest: u64 = value;
    let mut i: usize = 0;
    while i < width
        invariant
            i <= width,
            out@ + le_bytes(rest as nat, (width - i) as nat) == le_bytes(
                value as nat,
                width as nat,
            ),
        decreases width - i,
    {
        let ghost before = out@;
        out.push((rest % 256) as u8);
        proof {
            let tail = le_bytes((rest / 256) as nat, (width - i - 1) as nat);
            assert(le_bytes(rest as nat, (width - i) as nat) == seq![(rest % 256) as u8] + tail);
            assert(out@ + tail =~= before + (seq![(rest % 256) as u8] + tail));
        }
        rest = rest / 256;
        i += 1;
    }
    assert(out@ + Seq::<u8>::empty() =~= out@);
    out
}

/// Reads the number that the first `width` bytes of `data` hold, least significant first.
pub fn decode_le(data: &[u8], width: usize) -> (value: u64)
    requires
        width <= 8,
        width <= data@.len(),
    ensures
        value as nat == le_value(data@.take(width as int)),
{
    let mut value: u64 = 0;
    let mut i: usize = width;
    assert(data@.subrange(width as int, width as int) =~= Seq::<u8>::empty());
    while i > 0
        invariant
            i <= width <= 8,
            width <= data@.len(),
            value as nat == le_value(data@.subrange(i as int, width as int)),
        decreases i,
    {
        proof {
            let read = data@.subrange(i as int, width as int);
            lemma_le_value_bound(read);
            lemma_pow256_values();
            lemma_pow256_monotonic(read.len(), 7);
            let next = data@.subrange(i - 1, width as int);
            assert(next.drop_first() =~= read);
        }
        i -= 1;
        value = value * 256 + data[i] as u64;
    }
    assert(data@.subrange(0, width as int) =~= data@.take(width as int));
    value
}

/// A type with a fixed byte layout.
pub trait Flat: Sized {
    /// The bytes that stand for this value.
    spec fn encoding(&self) -> Seq<u8>;

    /// The value that the front of `data` stands for, with the number of
    /// bytes it takes up; `None` where `data` starts with no value.
    spec fn decoding(data: Seq<u8>) -> Option<(Self, nat)>;

    /// Whether this value is one that the layout can carry.
    spec fn is_valid(&self) -> bool;

    /// Whether the two values hold the same data. For a type that owns no
    /// text this is equality.
    spec fn same_value(&self, other: &Self) -> bool;

    /// Holding the same data is an equivalence: a value holds the same
    /// data as itself, and the relation can be turned round and chained.
    proof fn lemma_same_value(&self, other: &Self, third: &Self)
        ensures
            self.same_value(self),
            self.same_value(other) ==> other.same_value(self),
            self.same_value(other) && other.same_value(third) ==> self.same_value(third),
    ;

    /// A decoded value never takes up more bytes than there are.
    proof fn lemma_decoding_fits(data: Seq<u8>)
        ensures
            Self::decoding(data) matches Some((_, n)) ==> n <= data.len(),
    ;

    /// Decoding the encoding of a valid value gives the value back, and
    /// uses all of the bytes.
    proof fn lemma_round_trip(&self)
        requires
            self.is_valid(),
        ensures
            match Self::decoding(self.encoding()) {
                Some((value, used)) => value.same_value(self) && used == self.encoding().len(),
                None => false,
            },
    ;

    fn serialize(&self) -> (out: Vec<u8>)
        ensures
            out@ == self.encoding(),
    ;

    fn deserialize_with_size(data: &[u8]) -> (r: Option<(Self, usize)>)
        ensures
            match r {
                Some((value, used)) => Self::decoding(data@) matches Some((v, n))
                    && value.same_value(&v) && used == n && used <= data@.len(),
                None => Self::decoding(data@) is None,
            },
    ;

    fn deserialize(data: &[u8]) -> (r: Option<Self>)
        ensures
            match r {
                Some(value) => Self::decoding(data@) matches Some((v, _)) && value.same_value(&v),
                None => Self::decoding(data@) is None,
            },
    {
        match Self::deserialize_with_size(data) {
            Some((value, _)) => Some(value),
            None => None,
        }
    }
}

/// What is read from the encoding of a valid value holds the same data as
/// the value that was written.
pub proof fn lemma_reads_what_was_written<T: Flat>(written: &T, read: &T)
    requires
        written.is_valid(),
        T::decoding(written.encoding()) matches Some((decoded, _)) && read.same_value(&decoded),
    ensures
        read.same_value(written),
{
    written.lemma_round_trip();
    let decoded = T::decoding(written.encoding()).unwrap().0;
    read.lemma_same_value(&decoded, written);
}

/// A layout whose values mark their own end: what follows an encoding
/// does not change what is read, and a cut encoding reads as nothing.
pub trait SelfDelimiting: Flat {
    /// Every value of the type is valid, and two values hold the same data
    /// only where they are equal.
    proof fn lemma_plain(&self, other: &Self)
        ensures
            self.is_valid(),
            self.same_value(other) <==> *self == *other,
    ;

    /// An encoding followed by any bytes decodes to the value, and takes
    /// up the encoding's length.
    proof fn lemma_prefix(&self, rest: Seq<u8>)
        ensures
            Self::decoding(self.encoding() + rest) == Some((*self, self.encoding().len())),
    ;

    /// No proper prefix of an encoding decodes.
    proof fn lemma_truncated(&self, kept: int)
        requires
            0 <= kept < self.encoding().len(),
        ensures
            Self::decoding(self.encoding().take(kept)) is None,
    ;
}

impl Flat for u8 {
    open spec fn encoding(&self) -> Seq<u8> {
        seq![*self]
    }

    open spec fn decoding(data: Seq<u8>) -> Option<(Self, nat)> {
        if data.len() >= 1 {
            Some((data[0], 1))
        } else {
            None
        }
    }

    open spec fn is_valid(&self) -> bool {
        true
    }

    open spec fn same_value(&self, other: &Self) -> bool {
        *self == *other
    }

    proof fn lemma_decoding_fits(data: Seq<u8>) {
    }

    proof fn lemma_same_value(&self, other: &Self, third: &Self) {
    }

    proof fn lemma_round_trip(&self) {
    }

    fn serialize(&self) -> (out: Vec<u8>) {
        let mut out: Vec<u8> = Vec::new();
        out.push(*self);
        out
    }

    fn deserialize_with_size(data: &[u8]) -> (r: Option<(Self, usize)>) {
        if data.len() < 1 {
            return None;
        }
        Some((data[0], 1))
    }
}

impl SelfDelimiting for u8 {
    proof fn lemma_plain(&self, other: &Self) {
    }

    proof fn lemma_prefix(&self, rest: Seq<u8>) {
    }

    proof fn lemma_truncated(&self, kept: int) {
    }
}


impl Flat for u16 {
    open spec fn encoding(&self) -> Seq<u8> {
        le_bytes(*self as nat, 2)
    }

    open spec fn decoding(data: Seq<u8>) -> Option<(Self, nat)> {
        if data.len() >= 2 {
            Some((le_value(data.take(2)) as u16, 2))
        } else {
            None
        }
    }

    open spec fn is_valid(&self) -> bool {
        true
    }

    open spec fn same_value(&self, other: &Self) -> bool {
        *self == *other
    }

    proof fn lemma_decoding_fits(data: Seq<u8>) {
    }

    proof fn lemma_same_value(&self, other: &Self, third: &Self) {
    }

    proof fn lemma_round_trip(&self) {
        lemma_pow256_values();
        lemma_le_read_back(*self as nat, 2, Seq::empty());
        assert(self.encoding() + Seq::<u8>::empty() =~= self.encoding());
    }

    fn serialize(&self) -> (out: Vec<u8>) {
        encode_le(*self as u64, 2)
    }

    fn deserialize_with_size(data: &[u8]) -> (r: Option<(Self, usize)>) {
        if data.len() < 2 {
            return None;
        }
        let raw = decode_le(data, 2);
        proof {
            lemma_pow256_values();
            lemma_le_value_bound(data@.take(2));
        }
        Some((raw as u16, 2))
    }
}

impl SelfDelimiting for u16 {
    proof fn lemma_plain(&self, other: &Self) {
    }

    proof fn lemma_prefix(&self, rest: Seq<u8>) {
        lemma_pow256_values();
        lemma_le_read_back(*self as nat, 2, rest);
    }

    proof fn lemma_truncated(&self, kept: int) {
        lemma_le_bytes_len(*self as nat, 2);
    }
}

impl Flat for u32 {
    open spec fn encoding(&self) -> Seq<u8> {
        le_bytes(*self as nat, 4)
    }

    open spec fn decoding(data: Seq<u8>) -> Option<(Self, nat)> {
        if data.len() >= 4 {
            Some((le_value(data.take(4)) as u32, 4))
        } else {
            None
        }
    }

    open spec fn is_valid(&self) -> bool {
        true
    }

    open spec fn same_value(&self, other: &Self) -> bool {
        *self == *other
    }

    proof fn lemma_decoding_fits(data: Seq<u8>) {
    }

    proof fn lemma_same_value(&self, other: &Self, third: &Self) {
    }

    proof fn lemma_round_trip(&self) {
        lemma_pow256_values();
        lemma_le_read_back(*self as nat, 4, Seq::empty());
        assert(self.encoding() + Seq::<u8>::empty() =~= self.encoding());
    }

    fn serialize(&self) -> (out: Vec<u8>) {
        encode_le(*self as u64, 4)
    }

    fn deserialize_with_size(data: &[u8]) -> (r: Option<(Self, usize)>) {
        if data.len() < 4 {
            return None;
        }
        let raw = decode_le(data, 4);
        proof {
            lemma_pow256_values();
            lemma_le_value_bound(data@.take(4));
        }
        Some((raw as u32, 4))
    }
}

impl SelfDelimiting for u32 {
    proof fn lemma_plain(&self, other: &Self) {
    }

    proof fn lemma_prefix(&self, rest: Seq<u8>) {
        lemma_pow256_values();
        lemma_le_read_back(*self as nat, 4, rest);
    }

    proof fn lemma_truncated(&self, kept: int) {
        lemma_le_bytes_len(*self as nat, 4);
    }
}

impl Flat for u64 {
    open spec fn encoding(&self) -> Seq<u8> {
        le_bytes(*self as nat, 8)
    }

    open spec fn decoding(data: Seq<u8>) -> Option<(Self, nat)> {
        if data.len() >= 8 {
            Some((le_value(data.take(8)) as u64, 8))
        } else {
            None
        }
    }

    open spec fn is_valid(&self) -> bool {
        true
    }

    open spec fn same_value(&self, other: &Self) -> bool {
        *self == *other
    }

    proof fn lemma_decoding_fits(data: Seq<u8>) {
    }

    proof fn lemma_same_value(&self, other: &Self, third: &Self) {
    }

    proof fn lemma_round_trip(&self) {
        lemma_pow256_values();
        lemma_le_read_back(*self as nat, 8, Seq::empty());
        assert(self.encoding() + Seq::<u8>::empty() =~= self.encoding());
    }

    fn serialize(&self) -> (out: Vec<u8>) {
        encode_le(*self as u64, 8)
    }

    fn deserialize_with_size(data: &[u8]) -> (r: Option<(Self, usize)>) {
        if data.len() < 8 {
            return None;
        }
        let raw = decode_le(data, 8);
        proof {
            lemma_pow256_values();
            lemma_le_value_bound(data@.take(8));
        }
        Some((raw as u64, 8))
    }
}

impl SelfDelimiting for u64 {
    proof fn lemma_plain(&self, other: &Self) {
    }

    proof fn lemma_prefix(&self, rest: Seq<u8>) {
        lemma_pow256_values();
        lemma_le_read_back(*self as nat, 8, rest);
    }

    proof fn lemma_truncated(&self, kept: int) {
        lemma_le_bytes_len(*self as nat, 8);
    }
}

impl Flat for i8 {
    open spec fn encoding(&self) -> Seq<u8> {
        le_bytes(twos_complement(*self as int, 1), 1)
    }

    open spec fn decoding(data: Seq<u8>) -> Option<(Self, nat)> {
        if data.len() >= 1 {
            Some((from_twos_complement(le_value(data.take(1)), 1) as i8, 1))
        } else {
            None
        }
    }

    open spec fn is_valid(&self) -> bool {
        true
    }

    open spec fn same_value(&self, other: &Self) -> bool {
        *self == *other
    }

    proof fn lemma_decoding_fits(data: Seq<u8>) {
    }

    proof fn lemma_same_value(&self, other: &Self, third: &Self) {
    }

    proof fn lemma_round_trip(&self) {
        lemma_pow256_values();
        lemma_le_read_back(twos_complement(*self as int, 1), 1, Seq::empty());
        assert(self.encoding() + Seq::<u8>::empty() =~= self.encoding());
    }

    fn serialize(&self) -> (out: Vec<u8>) {
        proof {
            lemma_pow256_values();
        }
        let raw: u64 = if *self >= 0 {
            *self as u64
        } else {
            (*self as i64 + 0x100) as u64
        };
        encode_le(raw, 1)
    }

    fn deserialize_with_size(data: &[u8]) -> (r: Option<(Self, usize)>) {
        if data.len() < 1 {
            return None;
        }
        let raw = decode_le(data, 1);
        proof {
            lemma_pow256_values();
            lemma_le_value_bound(data@.take(1));
        }
        let value: i8 = if raw >= 0x80 {
            (raw as i64 - 0x100) as i8
        } else {
            raw as i8
        };
        Some((value, 1))
    }
}

impl SelfDelimiting for i8 {
    proof fn lemma_plain(&self, other: &Self) {
    }

    proof fn lemma_prefix(&self, rest: Seq<u8>) {
        lemma_pow256_values();
        lemma_le_read_back(twos_complement(*self as int, 1), 1, rest);
    }

    proof fn lemma_truncated(&self, kept: int) {
        lemma_le_bytes_len(twos_complement(*self as int, 1), 1);
    }
}

impl Flat for i16 {
    open spec fn encoding(&self) -> Seq<u8> {
        le_bytes(twos_complement(*self as int, 2), 2)
    }

    open spec fn decoding(data: Seq<u8>) -> Option<(Self, nat)> {
        if data.len() >= 2 {
            Some((from_twos_complement(le_value(data.take(2)), 2) as i16, 2))
        } else {
            None
        }
    }

    open spec fn is_valid(&self) -> bool {
        true
    }

    open spec fn same_value(&self, other: &Self) -> bool {
        *self == *other
    }

    proof fn lemma_decoding_fits(data: Seq<u8>) {
    }

    proof fn lemma_same_value(&self, other: &Self, third: &Self) {
    }

    proof fn lemma_round_trip(&self) {
        lemma_pow256_values();
        lemma_le_read_back(twos_complement(*self as int, 2), 2, Seq::empty());
        assert(self.encoding() + Seq::<u8>::empty() =~= self.encoding());
    }

    fn serialize(&self) -> (out: Vec<u8>) {
        proof {
            lemma_pow256_values();
        }
        let raw: u64 = if *self >= 0 {
            *self as u64
        } else {
            (*self as i64 + 0x1_0000) as u64
        };
        encode_le(raw, 2)
    }

    fn deserialize_with_size(data: &[u8]) -> (r: Option<(Self, usize)>) {
        if data.len() < 2 {
            return None;
        }
        let raw = decode_le(data, 2);
        proof {
            lemma_pow256_values();
            lemma_le_value_bound(data@.take(2));
        }
        let value: i16 = if raw >= 0x8000 {
            (raw as i64 - 0x1_0000) as i16
        } else {
            raw as i16
        };
        Some((value, 2))
    }
}

impl SelfDelimiting for i16 {
    proof fn lemma_plain(&self, other: &Self) {
    }

    proof fn lemma_prefix(&self, rest: Seq<u8>) {
        lemma_pow256_values();
        lemma_le_read_back(twos_complement(*self as int, 2), 2, rest);
    }

    proof fn lemma_truncated(&self, kept: int) {
        lemma_le_bytes_len(twos_complement(*self as int, 2), 2);
    }
}

impl Flat for i32 {
    open spec fn encoding(&self) -> Seq<u8> {
        le_bytes(twos_complement(*self as int, 4), 4)
    }

    open spec fn decoding(data: Seq<u8>) -> Option<(Self, nat)> {
        if data.len() >= 4 {
            Some((from_twos_complement(le_value(data.take(4)), 4) as i32, 4))
        } else {
            None
        }
    }

    open spec fn is_valid(&self) -> bool {
        true
    }

    open spec fn same_value(&self, other: &Self) -> bool {
        *self == *other
    }

    proof fn lemma_decoding_fits(data: Seq<u8>) {
    }

    proof fn lemma_same_value(&self, other: &Self, third: &Self) {
    }

    proof fn lemma_round_trip(&self) {
        lemma_pow256_values();
        lemma_le_read_back(twos_complement(*self as int, 4), 4, Seq::empty());
        assert(self.encoding() + Seq::<u8>::empty() =~= self.encoding());
    }

    fn serialize(&self) -> (out: Vec<u8>) {
        proof {
            lemma_pow256_values();
        }
        let raw: u64 = if *self >= 0 {
            *self as u64
        } else {
            (*self as i64 + 0x1_0000_0000) as u64
        };
        encode_le(raw, 4)
    }

    fn deserialize_with_size(data: &[u8]) -> (r: Option<(Self, usize)>) {
        if data.len() < 4 {
            return None;
        }
        let raw = decode_le(data, 4);
        proof {
            lemma_pow256_values();
            lemma_le_value_bound(data@.take(4));
        }
        let value: i32 = if raw >= 0x8000_0000 {
            (raw as i64 - 0x1_0000_0000) as i32
        } else {
            raw as i32
        };
        Some((value, 4))
    }
}

impl SelfDelimiting for i32 {
    proof fn lemma_plain(&self, other: &Self) {
    }

    proof fn lemma_prefix(&self, rest: Seq<u8>) {
        lemma_pow256_values();
        lemma_le_read_back(twos_complement(*self as int, 4), 4, rest);
    }

    proof fn lemma_truncated(&self, kept: int) {
        lemma_le_bytes_len(twos_complement(*self as int, 4), 4);
    }
}

impl Flat for i64 {
    open spec fn encoding(&self) -> Seq<u8> {
        le_bytes(twos_complement(*self as int, 8), 8)
    }

    open spec fn decoding(data: Seq<u8>) -> Option<(Self, nat)> {
        if data.len() >= 8 {
            Some((from_twos_complement(le_value(data.take(8)), 8) as i64, 8))
        } else {
            None
        }
    }

    open spec fn is_valid(&self) -> bool {
        true
    }

    open spec fn same_value(&self, other: &Self) -> bool {
        *self == *other
    }

    proof fn lemma_decoding_fits(data: Seq<u8>) {
    }

    proof fn lemma_same_value(&self, other: &Self, third: &Self) {
    }

    proof fn lemma_round_trip(&self) {
        lemma_pow256_values();
        lemma_le_read_back(twos_complement(*self as int, 8), 8, Seq::empty());
        assert(self.encoding() + Seq::<u8>::empty() =~= self.encoding());
    }

    fn serialize(&self) -> (out: Vec<u8>) {
        proof {
            lemma_pow256_values();
        }
        let raw: u64 = if *self >= 0 {
            *self as u64
        } else {
            (*self as i128 + 0x1_0000_0000_0000_0000) as u64
        };
        encode_le(raw, 8)
    }

    fn deserialize_with_size(data: &[u8]) -> (r: Option<(Self, usize)>) {
        if data.len() < 8 {
            return None;
        }
        let raw = decode_le(data, 8);
        proof {
            lemma_pow256_values();
            lemma_le_value_bound(data@.take(8));
        }
        let value: i64 = if raw >= 0x8000_0000_0000_0000 {
            (raw as i128 - 0x1_0000_0000_0000_0000) as i64
        } else {
            raw as i64
        };
        Some((value, 8))
    }
}

impl SelfDelimiting for i64 {
    proof fn lemma_plain(&self, other: &Self) {
    }

    proof fn lemma_prefix(&self, rest: Seq<u8>) {
        lemma_pow256_values();
        lemma_le_read_back(twos_complement(*self as int, 8), 8, rest);
    }

    proof fn lemma_truncated(&self, kept: int) {
        lemma_le_bytes_len(twos_complement(*self as int, 8), 8);
    }
}

impl Flat for bool {
    open spec fn encoding(&self) -> Seq<u8> {
        seq![if *self { 1u8 } else { 0u8 }]
    }

    open spec fn decoding(data: Seq<u8>) -> Option<(Self, nat)> {
        if data.len() >= 1 {
            Some((data[0] != 0, 1))
        } else {
            None
        }
    }

    open spec fn is_valid(&self) -> bool {
        true
    }

    open spec fn same_value(&self, other: &Self) -> bool {
        *self == *other
    }

    proof fn lemma_decoding_fits(data: Seq<u8>) {
    }

    proof fn lemma_same_value(&self, other: &Self, third: &Self) {
    }

    proof fn lemma_round_trip(&self) {
    }

    fn serialize(&self) -> (out: Vec<u8>) {
        let mut out: Vec<u8> = Vec::new();
        out.push(if *self { 1u8 } else { 0u8 });
        out
    }

    fn deserialize_with_size(data: &[u8]) -> (r: Option<(Self, usize)>) {
        if data.len() < 1 {
            return None;
        }
        Some((data[0] != 0, 1))
    }
}

impl SelfDelimiting for bool {
    proof fn lemma_plain(&self, other: &Self) {
    }

    proof fn lemma_prefix(&self, rest: Seq<u8>) {
    }

    proof fn lemma_truncated(&self, kept: int) {
    }
}


/// The encodings of `items`, one after the other.
pub open spec fn encoding_of_all<T: Flat>(items: Seq<T>) -> Seq<u8>
    decreases items.len(),
{
    if items.len() == 0 {
        Seq::empty()
    } else {
        items[0].encoding() + encoding_of_all(items.drop_first())
    }
}

/// The `count` values that stand one after the other at the front of
/// `data`, with the number of bytes they take up together.
pub open spec fn decoding_of_all<T: Flat>(data: Seq<u8>, count: nat) -> Option<(Seq<T>, nat)>
    decreases count,
{
    if count == 0 {
        Some((Seq::empty(), 0))
    } else {
        match T::decoding(data) {
            None => None,
            Some((first, used)) => match decoding_of_all::<T>(
                data.skip(used as int),
                (count - 1) as nat,
            ) {
                None => None,
                Some((others, more)) => Some((seq![first] + others, used + more)),
            },
        }
    }
}

/// The array that holds `items`.
pub open spec fn array_of<T, const N: usize>(items: Seq<T>) -> [T; N] {
    choose|array: [T; N]| array@ == items
}

/// An array is the array that holds its items.
pub proof fn lemma_array_of_view<T, const N: usize>(array: [T; N])
    ensures
        array_of::<T, N>(array@) == array,
{
    let chosen = array_of::<T, N>(array@);
    assert(chosen@ == array@);
    assert(chosen =~= array);
}

/// Values read one after the other are as many as were asked for, and
/// take up no more bytes than there are.
pub proof fn lemma_decoding_of_all_fits<T: Flat>(data: Seq<u8>, count: nat)
    ensures
        decoding_of_all::<T>(data, count) matches Some((items, used)) ==> used <= data.len()
            && items.len() == count,
    decreases count,
{
    if count > 0 {
        T::lemma_decoding_fits(data);
        if let Some((first, used)) = T::decoding(data) {
            lemma_decoding_of_all_fits::<T>(data.skip(used as int), (count - 1) as nat);
        }
    }
}

/// Self-delimiting values written one after the other, and followed by
/// anything, are read back one by one.
pub proof fn lemma_all_prefix<T: SelfDelimiting>(items: Seq<T>, rest: Seq<u8>)
    ensures
        decoding_of_all::<T>(encoding_of_all(items) + rest, items.len()) == Some(
            (items, encoding_of_all(items).len()),
        ),
    decreases items.len(),
{
    if items.len() > 0 {
        let first = items[0];
        let others = items.drop_first();
        let data = encoding_of_all(items) + rest;
        assert(data =~= first.encoding() + (encoding_of_all(others) + rest));
        first.lemma_prefix(encoding_of_all(others) + rest);
        assert(data.skip(first.encoding().len() as int) =~= encoding_of_all(others) + rest);
        lemma_all_prefix::<T>(others, rest);
        assert(seq![first] + others =~= items);
    }
}

/// Self-delimiting values written one after the other and then cut short
/// are not read back.
pub proof fn lemma_all_truncated<T: SelfDelimiting>(items: Seq<T>, kept: int)
    requires
        0 <= kept < encoding_of_all(items).len(),
    ensures
        decoding_of_all::<T>(encoding_of_all(items).take(kept), items.len()) is None,
    decreases items.len(),
{
    if items.len() > 0 {
        let first = items[0];
        let others = items.drop_first();
        let size = first.encoding().len() as int;
        let data = encoding_of_all(items).take(kept);
        if kept < size {
            assert(data =~= first.encoding().take(kept));
            first.lemma_truncated(kept);
        } else {
            let tail = encoding_of_all(others).take(kept - size);
            assert(data =~= first.encoding() + tail);
            first.lemma_prefix(tail);
            assert(data.skip(size) =~= tail);
            lemma_all_truncated::<T>(others, kept - size);
        }
    }
}

/// Hands the items of a vector of the right length over as an array.
/// Wraps the conversion `TryFrom<Vec<T>> for [T; N]`, which gives the contents
/// of the vector, in order, where its length is `N`.
#[verifier::external_body]
fn array_from_vec<T, const N: usize>(items: Vec<T>) -> (array: [T; N])
    requires
        items@.len() == N,
    ensures
        array@ == items@,
{
    <[T; N]>::try_from(items).ok().unwrap()
}

impl<T: SelfDelimiting, const N: usize> Flat for [T; N] {
    open spec fn encoding(&self) -> Seq<u8> {
        encoding_of_all(self@)
    }

    open spec fn decoding(data: Seq<u8>) -> Option<(Self, nat)> {
        match decoding_of_all::<T>(data, N as nat) {
            Some((items, used)) => Some((array_of(items), used)),
            None => None,
        }
    }

    open spec fn is_valid(&self) -> bool {
        true
    }

    open spec fn same_value(&self, other: &Self) -> bool {
        *self == *other
    }

    proof fn lemma_decoding_fits(data: Seq<u8>) {
        lemma_decoding_of_all_fits::<T>(data, N as nat);
    }

    proof fn lemma_same_value(&self, other: &Self, third: &Self) {
    }

    proof fn lemma_round_trip(&self) {
        self.lemma_prefix(Seq::empty());
        assert(self.encoding() + Seq::<u8>::empty() =~= self.encoding());
    }

    fn serialize(&self) -> (out: Vec<u8>) {
        let mut out: Vec<u8> = Vec::new();
        let mut i: usize = 0;
        assert(self@.skip(0) =~= self@);
        while i < N
            invariant
                i <= N,
                out@ + encoding_of_all(self@.skip(i as int)) == encoding_of_all(self@),
            decreases N - i,
        {
            let ghost before = out@;
            let mut part = self[i].serialize();
            proof {
                let left = self@.skip(i as int);
                assert(left.drop_first() =~= self@.skip(i + 1));
                assert(left[0] == self@[i as int]);
                assert(before + part@ + encoding_of_all(self@.skip(i + 1)) =~= before + (part@
                    + encoding_of_all(self@.skip(i + 1))));
            }
            out.append(&mut part);
            i += 1;
        }
        assert(self@.skip(N as int) =~= Seq::<T>::empty());
        assert(out@ + Seq::<u8>::empty() =~= out@);
        out
    }

    fn deserialize_with_size(data: &[u8]) -> (r: Option<(Self, usize)>) {
        let mut items: Vec<T> = Vec::new();
        let mut used: usize = 0;
        let mut i: usize = 0;
        assert(data@.skip(0) =~= data@);
        while i < N
            invariant
                i <= N,
                used <= data@.len(),
                items@.len() == i,
                decoding_of_all::<T>(data@, N as nat) == match decoding_of_all::<T>(
                    data@.skip(used as int),
                    (N - i) as nat,
                ) {
                    Some((others, more)) => Some((items@ + others, (used + more) as nat)),
                    None => None,
                },
            decreases N - i,
        {
            let rest = vstd::slice::slice_subrange(data, used, data.len());
            assert(rest@ =~= data@.skip(used as int));
            match T::deserialize_with_size(rest) {
                None => {
                    return None;
                },
                Some((item, size)) => {
                    proof {
                        let ghost left = data@.skip(used as int);
                        let ghost read = T::decoding(left).unwrap().0;
                        item.lemma_plain(&read);
                        assert(left.skip(size as int) =~= data@.skip(used + size));
                        lemma_decoding_of_all_fits::<T>(left.skip(size as int), (N - i - 1) as nat);
                        match decoding_of_all::<T>(left.skip(size as int), (N - i - 1) as nat) {
                            Some((others, more)) => {
                                assert(items@.push(item) + others =~= items@ + (seq![item]
                                    + others));
                            },
                            None => {},
                        }
                    }
                    items.push(item);
                    used = used + size;
                    i += 1;
                },
            }
        }
        proof {
            assert(items@ + Seq::<T>::empty() =~= items@);
        }
        let array: [T; N] = array_from_vec(items);
        proof {
            lemma_array_of_view::<T, N>(array);
        }
        Some((array, used))
    }
}

impl<T: SelfDelimiting, const N: usize> SelfDelimiting for [T; N] {
    proof fn lemma_plain(&self, other: &Self) {
    }

    proof fn lemma_prefix(&self, rest: Seq<u8>) {
        lemma_all_prefix::<T>(self@, rest);
        lemma_array_of_view::<T, N>(*self);
    }

    proof fn lemma_truncated(&self, kept: int) {
        lemma_all_truncated::<T>(self@, kept);
    }
}


/// Bytes written one after the other are the bytes themselves.
pub proof fn lemma_bytes_encoding(items: Seq<u8>)
    ensures
        encoding_of_all(items) == items,
    decreases items.len(),
{
    if items.len() > 0 {
        lemma_bytes_encoding(items.drop_first());
        assert(seq![items[0]] + items.drop_first() =~= items);
    } else {
        assert(items =~= Seq::<u8>::empty());
    }
}

/// Reading `count` bytes one by one takes the first `count` bytes, where there are as many.
pub proof fn lemma_bytes_decoding(data: Seq<u8>, count: nat)
    ensures
        decoding_of_all::<u8>(data, count) == if data.len() >= count {
            Some((data.take(count as int), count))
        } else {
            None
        },
    decreases count,
{
    if count > 0 {
        if data.len() >= 1 {
            lemma_bytes_decoding(data.skip(1), (count - 1) as nat);
            if data.len() >= count {
                assert(seq![data[0]] + data.skip(1).take(count - 1) =~= data.take(count as int));
            }
        }
    } else {
        assert(data.take(0) =~= Seq::<u8>::empty());
    }
}


/// A byte array is written as its bytes.
pub proof fn lemma_byte_array_encoding<const N: usize>(array: [u8; N])
    ensures
        array.encoding() == array@,
{
    lemma_bytes_encoding(array@);
}

/// A byte array is read from the first `N` bytes, where there are as many.
pub proof fn lemma_byte_array_decoding<const N: usize>(data: Seq<u8>)
    ensures
        <[u8; N]>::decoding(data) == if data.len() >= N {
            Some((array_of::<u8, N>(data.take(N as int)), N as nat))
        } else {
            None
        },
{
    lemma_bytes_decoding(data, N as nat);
}

/// Copies `N` bytes into an array.
pub fn byte_array<const N: usize>(data: &[u8]) -> (array: [u8; N])
    requires
        data@.len() == N,
    ensures
        array@ == data@,
{
    let mut array = [0u8; N];
    let mut i: usize = 0;
    while i < N
        invariant
            i <= N,
            data@.len() == N,
            forall|j: int| 0 <= j < i ==> array@[j] == data@[j],
        decreases N - i,
    {
        array[i] = data[i];
        i += 1;
    }
    assert(array@ =~= data@);
    array
}


/// Reads the field of a record that stands at `at`, and moves `at` past it.
/// Where no field stands there, `at` stays.
pub fn read_field<T: Flat>(data: &[u8], at: &mut usize) -> (field: Option<T>)
    requires
        *old(at) <= data@.len(),
    ensures
        match field {
            Some(value) => T::decoding(data@.skip(*old(at) as int)) matches Some((v, n))
                && value.same_value(&v) && *final(at) == *old(at) + n && *final(at)
                <= data@.len(),
            None => T::decoding(data@.skip(*old(at) as int)) is None && *final(at) == *old(at),
        },
{
    let rest = vstd::slice::slice_subrange(data, *at, data.len());
    assert(rest@ =~= data@.skip(*at as int));
    match T::deserialize_with_size(rest) {
        Some((value, used)) => {
            *at = *at + used;
            Some(value)
        },
        None => None,
    }
}

/// A tagged union: a tag of fixed width, least significant byte first,
/// and then what the variant of that tag holds.
pub trait TaggedUnion: Flat {
    /// The number of bytes of the tag.
    spec fn tag_width() -> nat;

    /// Whether some variant has the tag `tag`.
    spec fn is_known_tag(tag: nat) -> bool;

    /// The tag of this value's variant.
    spec fn tag(&self) -> nat;

    /// An encoding starts with the value's tag, which is a known one.
    proof fn lemma_tag_first(&self)
        ensures
            Self::is_known_tag(self.tag()),
            self.encoding().len() >= Self::tag_width(),
            self.encoding().take(Self::tag_width() as int) == le_bytes(
                self.tag(),
                Self::tag_width(),
            ),
    ;

    /// Bytes that are too few for a tag, or start with the tag of no
    /// variant, decode to nothing.
    proof fn lemma_unknown_tag(data: Seq<u8>)
        requires
            data.len() < Self::tag_width() || !Self::is_known_tag(
                le_value(data.take(Self::tag_width() as int)),
            ),
        ensures
            Self::decoding(data) is None,
    ;
}

/// Whether `data` starts with the tag of a variant of `T`.
pub open spec fn starts_with_known_tag<T: TaggedUnion>(data: Seq<u8>) -> bool {
    data.len() >= T::tag_width() && T::is_known_tag(le_value(data.take(T::tag_width() as int)))
}

/// The tags of the variants of a tagged union, given what each variant
/// declares: a declared tag stands; a variant that declares none takes
/// the tag of the variant before it plus one, and 0 where it is the first.
pub open spec fn tags_of(declared: Seq<Option<u64>>) -> Seq<nat>
    decreases declared.len(),
{
    if declared.len() == 0 {
        Seq::empty()
    } else {
        let before = tags_of(declared.drop_last());
        let tag: nat = match declared.last() {
            Some(t) => t as nat,
            None => if before.len() == 0 {
                0
            } else {
                before.last() + 1
            },
        };
        before.push(tag)
    }
}

/// Every variant gets a tag.
pub proof fn lemma_tags_of_len(declared: Seq<Option<u64>>)
    ensures
        tags_of(declared).len() == declared.len(),
    decreases declared.len(),
{
    if declared.len() > 0 {
        lemma_tags_of_len(declared.drop_last());
    }
}

/// The numbering rule, variant by variant: a declared tag stands, and a
/// variant that declares none follows the variant before it.
pub proof fn lemma_tag_at(declared: Seq<Option<u64>>, i: int)
    requires
        0 <= i < declared.len(),
    ensures
        tags_of(declared).len() == declared.len(),
        tags_of(declared)[i] == match declared[i] {
            Some(t) => t as nat,
            None => if i == 0 {
                0nat
            } else {
                tags_of(declared)[i - 1] + 1
            },
        },
{
    let front = declared.take(i + 1);
    lemma_tags_of_len(declared);
    lemma_tags_of_len(front);
    lemma_tags_of_len(declared.take(i));
    lemma_tags_of_prefix(declared, i + 1);
    lemma_tags_of_prefix(declared, i);
    assert(front.drop_last() =~= declared.take(i));
    assert(front.last() == declared[i]);
    assert(tags_of(declared).take(i + 1)[i] == tags_of(declared)[i]);
    if i > 0 {
        assert(tags_of(declared).take(i)[i - 1] == tags_of(declared)[i - 1]);
    }
}

/// Numbers the variants of a tagged union. `None` where a tag would not
/// fit into 64 bits.
pub fn discriminants(declared: &[Option<u64>]) -> (tags: Option<Vec<u64>>)
    ensures
        match tags {
            Some(t) => t@.len() == declared@.len() && forall|i: int|
                0 <= i < t@.len() ==> t@[i] as nat == #[trigger] tags_of(declared@)[i],
            None => exists|i: int|
                0 <= i < declared@.len() && #[trigger] tags_of(declared@)[i] > u64::MAX,
        },
{
    let mut tags: Vec<u64> = Vec::new();
    let mut i: usize = 0;
    assert(declared@.take(0) =~= Seq::<Option<u64>>::empty());
    while i < declared.len()
        invariant
            i <= declared@.len(),
            tags@.len() == i,
            forall|j: int| 0 <= j < i ==> tags@[j] as nat == #[trigger] tags_of(declared@.take(i as int))[j],
            tags_of(declared@.take(i as int)).len() == i,
        decreases declared@.len() - i,
    {
        let ghost seen = declared@.take(i as int);
        let ghost next = declared@.take(i + 1);
        proof {
            assert(next.drop_last() =~= seen);
            assert(next.last() == declared@[i as int]);
            lemma_tags_of_len(next);
        }
        let tag: u64 = match declared[i] {
            Some(t) => t,
            None => {
                if i == 0 {
                    0
                } else if tags[i - 1] == u64::MAX {
                    proof {
                        lemma_tags_of_prefix(declared@, i + 1);
                        lemma_tags_of_len(declared@);
                        assert(tags_of(seen).last() == tags_of(seen)[i - 1]);
                        assert(tags_of(next)[i as int] == tags_of(seen).last() + 1);
                        assert(tags_of(declared@).take(i + 1)[i as int] == tags_of(declared@)[i as int]);
                        assert(tags_of(declared@)[i as int] > u64::MAX);
                    }
                    return None;
                } else {
                    tags[i - 1] + 1
                }
            },
        };
        tags.push(tag);
        i += 1;
    }
    assert(declared@.take(i as int) =~= declared@);
    Some(tags)
}

/// The tags of the first variants do not depend on the variants after them.
pub proof fn lemma_tags_of_prefix(declared: Seq<Option<u64>>, count: int)
    requires
        0 <= count <= declared.len(),
    ensures
        tags_of(declared.take(count)) == tags_of(declared).take(count),
    decreases declared.len(),
{
    lemma_tags_of_len(declared);
    if count == declared.len() {
        assert(declared.take(count) =~= declared);
        assert(tags_of(declared).take(count) =~= tags_of(declared));
    } else {
        let shorter = declared.drop_last();
        lemma_tags_of_prefix(shorter, count);
        lemma_tags_of_len(shorter);
        assert(shorter.take(count) =~= declared.take(count));
        assert(tags_of(declared).take(count) =~= tags_of(shorter).take(count));
    }
}

} // verus!
