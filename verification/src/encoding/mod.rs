mod rle;

pub use rle::{
    rle_bytes, rle_decode, rle_encode, rle_runs, words, words_concat, lemma_rle_round_trip,
    max_run, RLE,
};

use crate::collections::DynArray;
use vstd::prelude::*;

verus! {

/// A reversible encoding of byte sequences that are read as 32-bit words.
pub trait Encoding {
    /// The bytes `encode` produces from `values`.
    spec fn spec_encode(values: Seq<u8>) -> Seq<u8>;

    /// The bytes `decode` produces from `values`.
    spec fn spec_decode(values: Seq<u8>) -> Seq<u8>;

    /// The inputs that `encode` accepts.
    spec fn encode_requires(values: Seq<u8>) -> bool;

    /// Encodes a sequence and returns the resulting array.
    fn encode(values: &[u8]) -> (r: DynArray<u8>)
        requires
            Self::encode_requires(values@),
        ensures
            r@ == Self::spec_encode(values@),
    ;

    /// Encodes the array in place: its elements become the encoding and its capacity
    /// their number.
    fn encode_replace(values: &mut DynArray<u8>)
        requires
            Self::encode_requires(old(values)@),
        ensures
            final(values)@ == Self::spec_encode(old(values)@),
            final(values).spec_capacity() == final(values)@.len(),
    ;

    /// Decodes a sequence and returns the resulting array.
    fn decode(values: &[u8]) -> (r: DynArray<u8>)
        ensures
            r@ == Self::spec_decode(values@),
    ;

    /// Decodes the array in place: its elements become the decoding and its capacity
    /// their number.
    fn decode_replace(values: &mut DynArray<u8>)
        ensures
            final(values)@ == Self::spec_decode(old(values)@),
            final(values).spec_capacity() == final(values)@.len(),
    ;

    /// Decoding undoes encoding on the whole 32-bit words of the input.
    proof fn lemma_decode_encode(values: Seq<u8>)
        requires
            Self::encode_requires(values),
        ensures
            Self::spec_decode(Self::spec_encode(values)) == values.subrange(
                0,
                values.len() - values.len() % 4,
            ),
    ;
}

} // verus!
