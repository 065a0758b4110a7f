//! The padding that hides the length of a message.

use vstd::prelude::*;

verus! {

/// The most bytes of padding that a message gets.
pub const MAX_PADDING: u8 = 32;

/// `data` followed by `pad` bytes that each say `pad`.
pub open spec fn padded(data: Seq<u8>, pad: u8) -> Seq<u8> {
    data + Seq::new(pad as nat, |i: int| pad)
}

/// What is left of `plain` without its padding: the last byte tells how
/// many bytes to take off. `None` where it tells a number that is not
/// between 1 and 32, or larger than the length of `plain`.
pub open spec fn unpadded(plain: Seq<u8>) -> Option<Seq<u8>> {
    if plain.len() >= 1 && 1 <= plain.last() <= MAX_PADDING && plain.last() <= plain.len() {
        Some(plain.take(plain.len() - plain.last()))
    } else {
        None
    }
}

/// After padding with 1 to 32 bytes, the last byte tells the number of
/// bytes added, each of the bytes added says that number, and taking the
/// padding off gives the message back.
pub proof fn lemma_padding(data: Seq<u8>, pad: u8)
    requires
        1 <= pad <= MAX_PADDING,
    ensures
        padded(data, pad).len() == data.len() + pad,
        padded(data, pad).last() == pad,
        forall|i: int|
            padded(data, pad).len() - pad <= i < padded(data, pad).len() ==> padded(data, pad)[i]
                == pad,
        unpadded(padded(data, pad)) == Some(data),
{
    let all = padded(data, pad);
    assert(all.take(all.len() - pad) =~= data);
}

/// Pads `data` with `pad` bytes that each say `pad`.
pub fn pad_message(data: Vec<u8>, pad: u8) -> (out: Vec<u8>)
    ensures
        out@ == padded(data@, pad),
{
    let mut out = data;
    let mut i: u8 = 0;
    while i < pad
        invariant
            i <= pad,
            out@ == data@ + Seq::new(i as nat, |j: int| pad),
        decreases pad - i,
    {
        out.push(pad);
        i += 1;
        assert(out@ =~= data@ + Seq::new(i as nat, |j: int| pad));
    }
    out
}

/// Takes the padding off an opened message.
pub fn strip_padding(plain: &[u8]) -> (data: Option<Vec<u8>>)
    ensures
        match data {
            Some(d) => unpadded(plain@) == Some(d@),
            None => unpadded(plain@) is None,
        },
{
    if plain.len() < 1 {
        return None;
    }
    let pad = plain[plain.len() - 1];
    if pad < 1 || pad > MAX_PADDING || pad as usize > plain.len() {
        return None;
    }
    let kept = vstd::slice::slice_subrange(plain, 0, plain.len() - pad as usize);
    assert(kept@ =~= plain@.take(plain@.len() - pad));
    Some(vstd::slice::slice_to_vec(kept))
}

} // verus!
