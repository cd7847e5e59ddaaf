use super::DynArray;
use crate::encoding::Encoding;
use crate::utils::{le_bytes_u32, u32_from_le, u32_from_le_bytes, u32_to_le_bytes};
use vstd::prelude::*;

verus! {

/// A byte array of 32-bit words that can be kept in an encoded form. Writes and reads work
/// on the decoded words; the array decodes itself when it is read or written.
pub struct EncodedDynArray<E: Encoding> {
    _encoding: std::marker::PhantomData<E>,
    array: DynArray<u8>,
    encoded: bool,
}

impl<E: Encoding> EncodedDynArray<E> {
    /// The bytes held, in their current (possibly encoded) form.
    pub closed spec fn raw(&self) -> Seq<u8> {
        self.array@
    }

    /// The number of bytes the array holds without growing.
    pub closed spec fn spec_capacity(&self) -> usize {
        self.array.spec_capacity()
    }

    /// The bytes are held in encoded form.
    pub closed spec fn is_encoded(&self) -> bool {
        self.encoded
    }

    /// The decoded bytes that the array stands for.
    pub open spec fn content(&self) -> Seq<u8> {
        if self.is_encoded() {
            E::spec_decode(self.raw())
        } else {
            self.raw()
        }
    }

    pub fn new() -> (a: Self)
        ensures
            !a.is_encoded(),
            a.raw() == Seq::<u8>::empty(),
    {
        Self { _encoding: std::marker::PhantomData, array: DynArray::new(), encoded: false }
    }

    /// The number of bytes held in the current form.
    pub fn get_count(&self) -> (n: usize)
        ensures
            n == self.raw().len(),
    {
        self.array.get_count()
    }

    pub fn get_capacity(&self) -> (n: usize)
        ensures
            n == self.spec_capacity(),
    {
        self.array.get_capacity()
    }

    /// Appends the four bytes of `val` to the decoded bytes.
    pub fn write(&mut self, val: u32)
        ensures
            !final(self).is_encoded(),
            final(self).content() == old(self).content() + le_bytes_u32(val),
    {
        if self.encoded {
            self.decode_all();
        }
        let b = u32_to_le_bytes(val);
        self.array.push(b[0]);
        self.array.push(b[1]);
        self.array.push(b[2]);
        self.array.push(b[3]);
        assert(self.array@ =~= old(self).content() + le_bytes_u32(val));
    }

    /// Appends `vals` to the decoded bytes and encodes the result.
    pub fn write_ptr(&mut self, vals: &[u8])
        requires
            E::encode_requires(old(self).content() + vals@),
            old(self).content().len() + vals@.len() <= usize::MAX,
        ensures
            final(self).is_encoded(),
            final(self).raw() == E::spec_encode(old(self).content() + vals@),
    {
        if self.encoded {
            self.decode_all();
        }
        self.array.push_ptr(vals);
        self.encode_all();
    }

    /// Brings the array into encoded form.
    pub fn encode_all(&mut self)
        requires
            E::encode_requires(old(self).content()),
        ensures
            final(self).is_encoded(),
            final(self).raw() == E::spec_encode(old(self).content()),
    {
        if self.encoded {
            self.decode_all();
        }
        E::encode_replace(&mut self.array);
        self.encoded = true;
    }

    /// Brings the array into decoded form.
    pub fn decode_all(&mut self)
        ensures
            !final(self).is_encoded(),
            final(self).raw() == old(self).content(),
    {
        if !self.encoded {
            return;
        }
        E::decode_replace(&mut self.array);
        self.encoded = false;
    }

    /// The word at word index `offset` of the decoded bytes (little-endian).
    pub fn read(&mut self, offset: usize) -> (v: u32)
        requires
            4 * offset + 4 <= old(self).content().len(),
        ensures
            !final(self).is_encoded(),
            final(self).content() == old(self).content(),
            v == u32_from_le(old(self).content().subrange(4 * offset, 4 * offset + 4)),
    {
        self.decode_all();
        let n = self.array.get_count();
        let b = 4 * offset;
        let v = u32_from_le_bytes(
            *self.array.get(b),
            *self.array.get(b + 1),
            *self.array.get(b + 2),
            *self.array.get(b + 3),
        );
        assert(seq![self.array@[b as int], self.array@[b + 1], self.array@[b + 2], self.array@[b + 3]]
            =~= self.array@.subrange(4 * offset, 4 * offset + 4));
        v
    }

    /// The word at word index `index` of the decoded bytes (little-endian).
    pub fn copy_read(&mut self, index: usize) -> (v: u32)
        requires
            4 * index + 4 <= old(self).content().len(),
        ensures
            !final(self).is_encoded(),
            final(self).content() == old(self).content(),
            v == u32_from_le(old(self).content().subrange(4 * index, 4 * index + 4)),
    {
        self.read(index)
    }
}

} // verus!
