//! The backup of an identity: the identity and its secret key, encrypted
//! under a password and written down in base32.

use vstd::prelude::*;
use vstd::utf8::{decode_utf8, encode_utf8, valid_utf8};

use crate::crypto::{
    derive_key, pbkdf2_hmac_sha256, sha256, sha256_digest, stream_xor, xsalsa20_xor, zeros,
};
use crate::text::string_from_utf8;

verus! {

/// The first character of the upper-case form of `c`, as the standard
/// library maps it.
pub uninterp spec fn first_uppercase(c: char) -> char;

/// Maps a character to upper case with `char::to_uppercase`, and takes the
/// first character of what comes out. The result is named by
/// `first_uppercase`.
#[verifier::external_body]
fn uppercase_of(c: char) -> (upper: char)
    ensures
        upper == first_uppercase(c),
{
    c.to_uppercase().next().unwrap_or(c)
}

/// The character that `c` is read as: `0` as `O`, `1` as `I`, and a letter
/// as its capital.
pub open spec fn normalised(c: char) -> char {
    if c == '0' {
        'O'
    } else if c == '1' {
        'I'
    } else if 'a' <= c <= 'z' {
        ((c as u32 - 0x20) as u32) as char
    } else if (c as u32) < 0x80 {
        c
    } else {
        first_uppercase(c)
    }
}

/// The place of `c`, once normalised, in the alphabet
/// `ABCDEFGHIJKLMNOPQRSTUVWXYZ234567`.
pub open spec fn digit_value(c: char) -> Option<u8> {
    let n = normalised(c);
    if 'A' <= n <= 'Z' {
        Some((n as u32 - 0x41) as u8)
    } else if '2' <= n <= '7' {
        Some((n as u32 - 0x32 + 26) as u8)
    } else {
        None
    }
}

/// Whether every character of `chars` is a base32 digit.
pub open spec fn is_base32(chars: Seq<char>) -> bool {
    forall|i: int| 0 <= i < chars.len() ==> (#[trigger] digit_value(chars[i])) is Some
}

/// The values of the digits `chars`; 0 for what is no digit.
pub open spec fn digit_values(chars: Seq<char>) -> Seq<u8> {
    Seq::new(
        chars.len(),
        |i: int|
            match digit_value(chars[i]) {
                Some(value) => value,
                None => 0u8,
            },
    )
}

/// Bit `i` of the five-bit digits strung together, the most significant
/// bit of each digit first.
pub open spec fn digit_bit(digits: Seq<u8>, i: int) -> bool {
    (digits[i / 5] >> ((4 - i % 5) as u8)) & 1 == 1
}

/// `weight` where the bit is set, and 0 where it is not.
pub open spec fn weighted(set: bool, weight: int) -> int {
    if set {
        weight
    } else {
        0
    }
}

/// Byte `j` of the bits of `digits`, eight bits to the byte, the first
/// bit the most significant.
pub open spec fn packed_byte(digits: Seq<u8>, j: int) -> u8 {
    (weighted(digit_bit(digits, 8 * j), 128) + weighted(digit_bit(digits, 8 * j + 1), 64)
        + weighted(digit_bit(digits, 8 * j + 2), 32) + weighted(digit_bit(digits, 8 * j + 3), 16)
        + weighted(digit_bit(digits, 8 * j + 4), 8) + weighted(digit_bit(digits, 8 * j + 5), 4)
        + weighted(digit_bit(digits, 8 * j + 6), 2) + weighted(
        digit_bit(digits, 8 * j + 7),
        1,
    )) as u8
}

/// The whole bytes that the bits of `digits` fill; bits left over are
/// dropped.
pub open spec fn packed(digits: Seq<u8>) -> Seq<u8> {
    Seq::new((5 * digits.len() / 8) as nat, |j: int| packed_byte(digits, j))
}

/// The bytes that the base32 text `chars` stands for, or `None` where a
/// character of it is no base32 digit.
pub open spec fn base32_decoded(chars: Seq<char>) -> Option<Seq<u8>> {
    if is_base32(chars) {
        Some(packed(digit_values(chars)))
    } else {
        None
    }
}

/// `chars` without its dashes.
pub open spec fn without_dashes(chars: Seq<char>) -> Seq<char>
    decreases chars.len(),
{
    if chars.len() == 0 {
        Seq::empty()
    } else if chars.last() == '-' {
        without_dashes(chars.drop_last())
    } else {
        without_dashes(chars.drop_last()).push(chars.last())
    }
}

/// Bit `t` of `byte`, counted from the most significant.
pub open spec fn top_bit(byte: u8, t: int) -> bool {
    (byte >> ((7 - t) as u8)) & 1 == 1
}

/// Laying a digit into a byte from bit `skip` on sets the bits of the
/// byte that the digit covers, and leaves the others as they are.
proof fn lemma_merge(byte: u8, digit: u8, skip: u8, t: u8, up: u8, b: u8, down: u8)
    by (bit_vector)
    requires
        digit < 32,
        skip < 8,
        t < 8,
        up == 7 - t,
        skip <= t && t < skip + 5 ==> b == t - skip && down == 4 - b,
    ensures
        ((byte | ((digit << 3u8) >> skip)) >> up) & 1 == 1 <==> ((byte >> up) & 1 == 1 || (skip
            <= t && t < skip + 5 && (digit >> down) & 1 == 1)),
{
}

/// What of a digit does not fit into a byte stands at the front of the
/// next: its last `skip` bits.
proof fn lemma_carry(digit: u8, skip: u8, shift: u8, t: u8, up: u8, down: u8)
    by (bit_vector)
    requires
        digit < 32,
        1 <= skip <= 4,
        shift == 5 - skip,
        t < 8,
        up == 7 - t,
        t < skip ==> down == skip - 1 - t,
    ensures
        (((digit << 3u8) << shift) >> up) & 1 == 1 <==> (t < skip && (digit >> down) & 1 == 1),
{
}

/// No bit of 0 is set.
proof fn lemma_no_bits(up: u8)
    by (bit_vector)
    requires
        up < 8,
    ensures
        !((0u8 >> up) & 1 == 1),
{
}

/// A byte is the sum of the weights of its bits.
proof fn lemma_byte_of_bits(byte: u8)
    by (bit_vector)
    ensures
        byte == (if (byte >> 7u8) & 1 == 1 { 128u8 } else { 0u8 }) + (if (byte >> 6u8) & 1 == 1 {
            64u8
        } else {
            0u8
        }) + (if (byte >> 5u8) & 1 == 1 { 32u8 } else { 0u8 }) + (if (byte >> 4u8) & 1 == 1 {
            16u8
        } else {
            0u8
        }) + (if (byte >> 3u8) & 1 == 1 { 8u8 } else { 0u8 }) + (if (byte >> 2u8) & 1 == 1 {
            4u8
        } else {
            0u8
        }) + (if (byte >> 1u8) & 1 == 1 { 2u8 } else { 0u8 }) + (if (byte >> 0u8) & 1 == 1 {
            1u8
        } else {
            0u8
        }),
{
}


/// The value of a base32 digit.
fn digit_of(c: char) -> (digit: Option<u8>)
    ensures
        digit == digit_value(c),
        digit matches Some(d) ==> d < 32,
{
    let code = c as u32;
    if code == 0x30 {
        Some(14)
    } else if code == 0x31 {
        Some(8)
    } else if 0x61 <= code && code <= 0x7a {
        Some((code - 0x61) as u8)
    } else {
        let upper = if code < 0x80 {
            code
        } else {
            uppercase_of(c) as u32
        };
        if 0x41 <= upper && upper <= 0x5a {
            Some((upper - 0x41) as u8)
        } else if 0x32 <= upper && upper <= 0x37 {
            Some((upper - 0x32 + 26) as u8)
        } else {
            None
        }
    }
}

/// Decodes base32 text, given as its characters.
fn decode_chars(chars: &Vec<char>) -> (bytes: Option<Vec<u8>>)
    ensures
        match bytes {
            Some(b) => base32_decoded(chars@) == Some(b@),
            None => base32_decoded(chars@) is None,
        },
{
    let ghost digits = digit_values(chars@);
    let mut out: Vec<u8> = Vec::new();
    let mut skip: u8 = 0;
    let mut byte: u8 = 0;
    let mut k: usize = 0;
    proof {
        assert forall|t: int| 0 <= t < 8 implies !top_bit(byte, t) by {
            lemma_no_bits((7 - t) as u8);
        }
    }
    while k < chars.len()
        invariant
            k <= chars@.len(),
            skip < 8,
            8 * out@.len() + skip == 5 * k,
            digits == digit_values(chars@),
            forall|i: int| 0 <= i < k ==> (#[trigger] digit_value(chars@[i])) is Some,
            forall|j: int| 0 <= j < out@.len() ==> out@[j] == packed_byte(digits, j),
            forall|t: int|
                0 <= t < 8 ==> (#[trigger] top_bit(byte, t)) == (t < skip && digit_bit(
                    digits,
                    8 * out@.len() + t,
                )),
        decreases chars@.len() - k,
    {
        let digit = match digit_of(chars[k]) {
            Some(d) => d,
            None => {
                return None;
            },
        };
        let val: u8 = digit << 3;
        let merged: u8 = byte | (val >> skip);
        let ghost filled = out@.len() as int;
        proof {
            assert(digits[k as int] == digit);
            assert forall|t: int| 0 <= t < 8 implies (#[trigger] top_bit(merged, t)) == (t < skip
                + 5 && digit_bit(digits, 8 * filled + t)) by {
                let b = t - skip;
                let i = 8 * filled + t;
                if skip <= t && t < skip + 5 {
                    assert(i == 5 * k + b);
                    assert(i / 5 == k as int);
                    assert(i % 5 == b);
                }
                lemma_merge(
                    byte,
                    digit,
                    skip,
                    t as u8,
                    (7 - t) as u8,
                    b as u8,
                    (4 - b) as u8,
                );
                assert(top_bit(byte, t) == (t < skip && digit_bit(digits, 8 * filled + t)));
            }
        }
        if skip + 5 >= 8 {
            proof {
                lemma_byte_of_bits(merged);
                assert(top_bit(merged, 0) == digit_bit(digits, 8 * filled));
                assert(top_bit(merged, 1) == digit_bit(digits, 8 * filled + 1));
                assert(top_bit(merged, 2) == digit_bit(digits, 8 * filled + 2));
                assert(top_bit(merged, 3) == digit_bit(digits, 8 * filled + 3));
                assert(top_bit(merged, 4) == digit_bit(digits, 8 * filled + 4));
                assert(top_bit(merged, 5) == digit_bit(digits, 8 * filled + 5));
                assert(top_bit(merged, 6) == digit_bit(digits, 8 * filled + 6));
                assert(top_bit(merged, 7) == digit_bit(digits, 8 * filled + 7));
                assert(merged == packed_byte(digits, filled));
            }
            out.push(merged);
            let left: u8 = skip + 5 - 8;
            let carried: u8 = if left > 0 {
                val << (5 - left)
            } else {
                0
            };
            proof {
                assert forall|t: int| 0 <= t < 8 implies (#[trigger] top_bit(carried, t)) == (t
                    < left && digit_bit(digits, 8 * (filled + 1) + t)) by {
                    if left > 0 {
                        let i = 8 * (filled + 1) + t;
                        if t < left {
                            assert(i == 5 * k + (5 - left + t));
                            assert(i / 5 == k as int);
                            assert(i % 5 == 5 - left + t);
                        }
                        lemma_carry(
                            digit,
                            left,
                            (5 - left) as u8,
                            t as u8,
                            (7 - t) as u8,
                            (left - 1 - t) as u8,
                        );
                    } else {
                        lemma_no_bits((7 - t) as u8);
                    }
                }
            }
            byte = carried;
            skip = left;
        } else {
            byte = merged;
            skip = skip + 5;
        }
        k += 1;
    }
    proof {
        assert(is_base32(chars@));
        assert(out@.len() == 5 * digits.len() / 8);
        assert(out@ =~= packed(digits));
    }
    Some(out)
}

/// The characters of `input`.
fn chars_of(input: &str) -> (chars: Vec<char>)
    ensures
        chars@ == input@,
{
    let mut chars: Vec<char> = Vec::new();
    for c in it: input.chars()
        invariant
            chars@ == it.seq().take(it.index() as int),
            it.seq() == input@,
    {
        chars.push(c);
        assert(it.seq().take(it.index() + 1) =~= it.seq().take(it.index() as int).push(c));
    }
    assert(input@.take(input@.len() as int) =~= input@);
    chars
}

/// Decodes base32 text: five bits to the character, packed into bytes
/// from the most significant bit down. Lower-case letters count as their
/// capitals, `0` as `O` and `1` as `I`. `None` where a character is no
/// base32 digit.
pub fn base32(input: &str) -> (bytes: Option<Vec<u8>>)
    ensures
        match bytes {
            Some(b) => base32_decoded(input@) == Some(b@),
            None => base32_decoded(input@) is None,
        },
{
    let chars = chars_of(input);
    decode_chars(&chars)
}


/// Number of bytes of a backup: the salt, and then, encrypted, the
/// identity, the secret key and two bytes of their digest.
pub const BACKUP_LEN: usize = 50;

/// Length of the salt that a backup starts with, in bytes.
pub const SALT_LEN: usize = 8;

/// Number of rounds by which the password is stretched.
pub const PBKDF2_ROUNDS: u32 = 100_000;

/// What the bytes of a backup decrypt to under `password`: the salt keys
/// the password, and the key stream of that key is taken off the rest.
pub open spec fn backup_plaintext(bytes: Seq<u8>, password: Seq<u8>) -> Seq<u8> {
    xsalsa20_xor(
        bytes.subrange(SALT_LEN as int, BACKUP_LEN as int),
        zeros(24),
        pbkdf2_hmac_sha256(password, bytes.subrange(0, SALT_LEN as int), PBKDF2_ROUNDS),
    )
}

/// The identity and the secret key that a decrypted backup holds, given
/// the digest of its first 40 bytes: the two bytes that follow them must
/// be the first two of the digest, and the identity must be text.
pub open spec fn backup_contents(plain: Seq<u8>, digest: Seq<u8>) -> Option<(Seq<char>, Seq<u8>)> {
    if plain.len() >= 42 && digest.len() >= 2 && plain[40] == digest[0] && plain[41] == digest[1]
        && valid_utf8(plain.subrange(0, 8)) {
        Some((decode_utf8(plain.subrange(0, 8)), plain.subrange(8, 40)))
    } else {
        None
    }
}

/// The identity and the secret key that the backup `identity` holds under
/// `password`, or `None` where the backup or the password is wrong.
pub open spec fn decrypted(identity: Seq<char>, password: Seq<u8>) -> Option<(Seq<char>, Seq<u8>)> {
    match base32_decoded(without_dashes(identity)) {
        Some(bytes) => if bytes.len() >= BACKUP_LEN {
            let plain = backup_plaintext(bytes, password);
            backup_contents(plain, sha256_digest(plain.subrange(0, 40)))
        } else {
            None
        },
        None => None,
    }
}

/// Takes identity and secret key out of a decrypted backup, given the
/// SHA-256 digest of its first 40 bytes.
pub fn open_backup(plain: &[u8], digest: &[u8; 32]) -> (r: Option<(String, Vec<u8>)>)
    ensures
        match r {
            Some((identity, key)) => backup_contents(plain@, digest@) == Some((identity@, key@)),
            None => backup_contents(plain@, digest@) is None,
        },
{
    if plain.len() < 42 {
        return None;
    }
    if plain[40] != digest[0] || plain[41] != digest[1] {
        return None;
    }
    let name = vstd::slice::slice_to_vec(vstd::slice::slice_subrange(plain, 0, 8));
    let key = vstd::slice::slice_to_vec(vstd::slice::slice_subrange(plain, 8, 40));
    match string_from_utf8(name) {
        Some(identity) => Some((identity, key)),
        None => None,
    }
}

/// The characters of `input` but for its dashes.
fn chars_without_dashes(input: &str) -> (kept: Vec<char>)
    ensures
        kept@ == without_dashes(input@),
{
    let chars = chars_of(input);
    let mut kept: Vec<char> = Vec::new();
    let mut i: usize = 0;
    assert(chars@.take(0) =~= Seq::<char>::empty());
    while i < chars.len()
        invariant
            i <= chars@.len(),
            kept@ == without_dashes(chars@.take(i as int)),
        decreases chars@.len() - i,
    {
        let c = chars[i];
        proof {
            let next = chars@.take(i + 1);
            assert(next.drop_last() =~= chars@.take(i as int));
            assert(next.last() == c);
        }
        if c != '-' {
            kept.push(c);
        }
        i += 1;
    }
    assert(chars@.take(chars@.len() as int) =~= chars@);
    kept
}

/// Recovers an identity and its secret key from a backup and its
/// password. Dashes in the backup are passed over. `None` where the backup
/// or the password is wrong; which of the two, nothing tells.
pub fn decrypt(identity: &str, password: &str) -> (r: Option<(String, Vec<u8>)>)
    ensures
        match r {
            Some((id, key)) => decrypted(identity@, encode_utf8(password@)) == Some((id@, key@)),
            None => decrypted(identity@, encode_utf8(password@)) is None,
        },
{
    let chars = chars_without_dashes(identity);
    let bytes = decode_chars(&chars)?;
    if bytes.len() < BACKUP_LEN {
        return None;
    }
    let salt = vstd::slice::slice_subrange(bytes.as_slice(), 0, SALT_LEN);
    let sealed = vstd::slice::slice_subrange(bytes.as_slice(), SALT_LEN, BACKUP_LEN);
    let key = derive_key(password.as_bytes(), salt, PBKDF2_ROUNDS);
    let nonce = [0u8; 24];
    assert(nonce@ =~= zeros(24));
    let plain = stream_xor(sealed, &nonce, &key);
    let digest = sha256(vstd::slice::slice_subrange(plain.as_slice(), 0, 40));
    open_backup(plain.as_slice(), &digest)
}

} // verus!
