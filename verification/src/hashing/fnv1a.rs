use super::HashMethod;
use vstd::prelude::*;

verus! {

/// The 32-bit FNV-1a hash function.
#[derive(Debug)]
pub struct FNV1a;

/// FNV-1a 32-bit offset basis.
pub open spec fn fnv1a_offset_basis() -> u32 {
    2166136261u32
}

/// FNV-1a 32-bit prime.
pub open spec fn fnv1a_prime() -> u32 {
    16777619u32
}

/// One step of FNV-1a: xor in the byte, then multiply by the prime modulo 2^32.
pub open spec fn fnv1a_step(h: u32, byte: u8) -> u32 {
    (h ^ (byte as u32)).wrapping_mul(fnv1a_prime())
}

/// FNV-1a of a byte sequence: the step folded over the bytes from the first to the last.
pub open spec fn fnv1a_spec(data: Seq<u8>) -> u32
    decreases data.len(),
{
    if data.len() == 0 {
        fnv1a_offset_basis()
    } else {
        fnv1a_step(fnv1a_spec(data.drop_last()), data.last())
    }
}

impl HashMethod for FNV1a {
    open spec fn spec_hash(data: Seq<u8>) -> u32 {
        fnv1a_spec(data)
    }

    fn hash(data: &[u8]) -> (h: u32) {
        let mut hash: u32 = 2166136261u32;
        let mut i: usize = 0;
        while i < data.len()
            invariant
                0 <= i <= data.len(),
                hash == fnv1a_spec(data@.subrange(0, i as int)),
            decreases data.len() - i,
        {
            let byte = data[i];
            assert(data@.subrange(0, i + 1).drop_last() =~= data@.subrange(0, i as int));
            hash = hash ^ (byte as u32);
            hash = hash.wrapping_mul(16777619u32);
            i = i + 1;
        }
        assert(data@.subrange(0, data.len() as int) =~= data@);
        assert(hash == fnv1a_spec(data@));
        assert(Self::spec_hash(data@) == fnv1a_spec(data@));
        hash
    }
}

} // verus!
