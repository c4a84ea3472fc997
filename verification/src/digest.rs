//! Digest computation and its hex rendering.
//!
//! An object's name is the SHA-1 digest of its full encoded bytes. The
//! digest's lowercase hex form is the canonical 40-character identifier,
//! and its first two characters pick the storage subdirectory.

use vstd::prelude::*;
use sha1::Digest;
use sha1::Sha1;
use crate::bytes::copy_range;

verus! {

/// The 20-byte SHA-1 digest of a byte sequence. The hash itself is left
/// unspecified: it is a fixed function of the input bytes alone, computed
/// by the outside hash implementation.
pub uninterp spec fn spec_sha1(s: Seq<u8>) -> Seq<u8>;

/// Relies on sha1::Sha1 through the Digest trait (update, finalize): the
/// 20-byte SHA-1 digest of the input, a function of the input bytes alone.
#[verifier::external_body]
pub fn sha1_bytes(b: &Vec<u8>) -> (r: Vec<u8>)
    ensures
        r@ == spec_sha1(b@),
        r@.len() == 20,
{
    let mut hasher = Sha1::new();
    hasher.update(b.as_slice());
    hasher.finalize().to_vec()
}

/// The lowercase hex digit for a nibble value.
pub open spec fn spec_hex_digit(n: u8) -> u8
    recommends
        n < 16,
{
    if n < 10 {
        (48 + n) as u8
    } else {
        (87 + n) as u8
    }
}

/// The lowercase hex rendering of a byte sequence: two digits per byte,
/// high nibble first.
pub open spec fn spec_hex(s: Seq<u8>) -> Seq<u8>
    decreases s.len(),
{
    if s.len() == 0 {
        Seq::empty()
    } else {
        spec_hex(s.drop_last()) + seq![
            spec_hex_digit(s.last() / 16),
            spec_hex_digit(s.last() % 16),
        ]
    }
}

/// The hex rendering is twice as long as its input.
pub proof fn lemma_spec_hex_len(s: Seq<u8>)
    ensures
        spec_hex(s).len() == 2 * s.len(),
    decreases s.len(),
{
    if s.len() > 0 {
        lemma_spec_hex_len(s.drop_last());
    }
}

/// Hex rendering distributes over concatenation.
pub proof fn lemma_spec_hex_append(a: Seq<u8>, b: Seq<u8>)
    ensures
        spec_hex(a + b) == spec_hex(a) + spec_hex(b),
    decreases b.len(),
{
    if b.len() == 0 {
        assert(a + b =~= a);
        assert(spec_hex(a) + spec_hex(b) =~= spec_hex(a));
    } else {
        lemma_spec_hex_append(a, b.drop_last());
        assert((a + b).drop_last() =~= a + b.drop_last());
        assert((a + b).last() == b.last());
        assert(spec_hex(a) + spec_hex(b) =~= (spec_hex(a) + spec_hex(b.drop_last())) + seq![
            spec_hex_digit(b.last() / 16),
            spec_hex_digit(b.last() % 16),
        ]);
    }
}

/// Relies on hex::encode: the lowercase hex form of the bytes, two digits
/// per byte, high nibble first.
#[verifier::external_body]
pub fn hex_lower(b: &Vec<u8>) -> (r: Vec<u8>)
    ensures
        r@ == spec_hex(b@),
{
    hex::encode(b.as_slice()).into_bytes()
}

/// The store-relative location of a digest's object: the first two hex
/// characters name the subdirectory, the remaining 38 name the file. The
/// mapping is a pure function of the digest.
pub fn digest_path_parts(digest: &Vec<u8>) -> (r: (Vec<u8>, Vec<u8>))
    requires
        digest@.len() == 20,
    ensures
        r.0@ == spec_hex(digest@.take(1)),
        r.1@ == spec_hex(digest@.skip(1)),
        r.0@ + r.1@ == spec_hex(digest@),
        r.0@.len() == 2,
        r.1@.len() == 38,
{
    let head = copy_range(digest, 0, 1);
    let tail = copy_range(digest, 1, 20);
    let d = hex_lower(&head);
    let f = hex_lower(&tail);
    proof {
        assert(head@ =~= digest@.take(1));
        assert(tail@ =~= digest@.skip(1));
        lemma_spec_hex_len(head@);
        lemma_spec_hex_len(tail@);
        assert(digest@.take(1) + digest@.skip(1) =~= digest@);
        lemma_spec_hex_append(digest@.take(1), digest@.skip(1));
    }
    (d, f)
}

} // verus!
