use crate::collections::{DynArray, EncodedDynArray};
use crate::encoding::{Encoding, RLE};
use crate::utils::{le_bytes_u32, u32_from_le, u32_from_le_bytes, u32_to_le_bytes};
use crate::value::Value;
use crate::vm::opcode::{opcode_byte, OpCode};
use vstd::prelude::*;

verus! {

/// A block of bytecode whose line table is stored as one little-endian 32-bit word per byte
/// of code, and can be compressed with run-length encoding once the code is complete.
pub struct Chunk {
    code: DynArray<u8>,
    constants: DynArray<Value>,
    line_numbers_map: EncodedDynArray<RLE>,
}

/// The line stored for byte `index` of the code in the line table `table`.
pub open spec fn line_in(table: Seq<u8>, index: int) -> u32 {
    u32_from_le(table.subrange(4 * index, 4 * index + 4))
}

impl Chunk {
    /// The bytes of the code.
    pub closed spec fn code(&self) -> Seq<u8> {
        self.code@
    }

    /// The constants, in the order they were added.
    pub closed spec fn constants(&self) -> Seq<Value> {
        self.constants@
    }

    /// The line table, decoded: four bytes per byte of code.
    pub closed spec fn line_table(&self) -> Seq<u8> {
        self.line_numbers_map.content()
    }

    /// Whether the line table is currently held in encoded form.
    pub closed spec fn is_encoded(&self) -> bool {
        self.line_numbers_map.is_encoded()
    }

    /// Every byte of the code has its line.
    pub open spec fn wf(&self) -> bool {
        self.line_table().len() == 4 * self.code().len()
    }

    pub fn new() -> (c: Self)
        ensures
            c.wf(),
            c.code() == Seq::<u8>::empty(),
            c.constants() == Seq::<Value>::empty(),
            !c.is_encoded(),
    {
        let c = Self {
            code: DynArray::new(),
            constants: DynArray::new(),
            line_numbers_map: EncodedDynArray::new(),
        };
        c
    }

    pub fn write(&mut self, byte: u8, line_number: u32)
        requires
            old(self).wf(),
        ensures
            final(self).wf(),
            final(self).code() == old(self).code().push(byte),
            final(self).line_table() == old(self).line_table() + le_bytes_u32(line_number),
            final(self).constants() == old(self).constants(),
            !final(self).is_encoded(),
    {
        self.code.push(byte);
        self.line_numbers_map.write(line_number);
    }

    /// Appends `bytes`, each on `line_number`.
    pub fn write_ptr(&mut self, bytes: &[u8], line_number: u32)
        requires
            old(self).wf(),
            old(self).code().len() + bytes@.len() <= usize::MAX,
        ensures
            final(self).wf(),
            final(self).code() == old(self).code() + bytes@,
            final(self).constants() == old(self).constants(),
            forall|i: int|
                0 <= i < old(self).code().len() ==> line_in(final(self).line_table(), i)
                    == line_in(old(self).line_table(), i),
            forall|i: int|
                old(self).code().len() <= i < final(self).code().len() ==> line_in(
                    final(self).line_table(),
                    i,
                ) == line_number,
    {
        self.code.push_ptr(bytes);
        let mut k: usize = 0;
        while k < bytes.len()
            invariant
                0 <= k <= bytes@.len(),
                self.code@ == old(self).code@ + bytes@,
                self.constants@ == old(self).constants@,
                self.line_table().len() == 4 * (old(self).code().len() + k),
                self.line_table().subrange(0, 4 * (old(self).code().len() as int))
                    == old(self).line_table(),
                forall|i: int|
                    old(self).code().len() <= i < old(self).code().len() + k ==> line_in(
                        self.line_table(),
                        i,
                    ) == line_number,
            decreases bytes@.len() - k,
        {
            let ghost before = self.line_table();
            self.line_numbers_map.write(line_number);
            proof {
                let n = old(self).code().len() + k;
                assert(self.line_table().subrange(0, 4 * n) =~= before);
                assert(self.line_table().subrange(0, 4 * (old(self).code().len() as int))
                    =~= before.subrange(0, 4 * (old(self).code().len() as int)));
                assert forall|i: int|
                    old(self).code().len() <= i < n + 1 implies line_in(self.line_table(), i)
                    == line_number by {
                    if i < n {
                        assert(line_in(before, i) == line_number);
                        assert(self.line_table().subrange(4 * i, 4 * i + 4) =~= before.subrange(
                            4 * i,
                            4 * i + 4,
                        ));
                    } else {
                        assert(self.line_table().subrange(4 * i, 4 * i + 4) =~= le_bytes_u32(
                            line_number,
                        ));
                        crate::utils::lemma_u32_le_round_trip(line_number);
                    }
                }
            }
            k = k + 1;
        }
        assert forall|i: int| 0 <= i < old(self).code().len() implies line_in(self.line_table(), i)
            == line_in(old(self).line_table(), i) by {
            assert(self.line_table().subrange(4 * i, 4 * i + 4) =~= self.line_table().subrange(
                0,
                4 * (old(self).code().len() as int),
            ).subrange(4 * i, 4 * i + 4));
        }
    }

    /// Appends the four little-endian bytes of `long`.
    pub fn write_long(&mut self, long: u32, line_number: u32)
        requires
            old(self).wf(),
            old(self).code().len() + 4 <= usize::MAX,
        ensures
            final(self).wf(),
            final(self).code() == old(self).code() + le_bytes_u32(long),
            final(self).constants() == old(self).constants(),
    {
        let bytes = u32_to_le_bytes(long);
        self.write_ptr(&bytes, line_number);
    }

    pub fn write_opcode(&mut self, opcode: OpCode, line_number: u32)
        requires
            old(self).wf(),
        ensures
            final(self).wf(),
            final(self).code() == old(self).code().push(opcode_byte(opcode)),
            final(self).constants() == old(self).constants(),
    {
        self.write(opcode.to_byte(), line_number)
    }

    pub fn write_opcode_with_arg(&mut self, opcode: OpCode, arg: u8, line_number: u32)
        requires
            old(self).wf(),
        ensures
            final(self).wf(),
            final(self).code() == old(self).code() + seq![opcode_byte(opcode), arg],
            final(self).constants() == old(self).constants(),
    {
        self.write(opcode.to_byte(), line_number);
        self.write(arg, line_number);
        assert(self.code() =~= old(self).code() + seq![opcode_byte(opcode), arg]);
    }

    pub fn write_opcode_with_long_arg(&mut self, opcode: OpCode, arg: u32, line_number: u32)
        requires
            old(self).wf(),
            old(self).code().len() + 5 <= usize::MAX,
        ensures
            final(self).wf(),
            final(self).code() == old(self).code().push(opcode_byte(opcode)) + le_bytes_u32(arg),
            final(self).constants() == old(self).constants(),
    {
        self.write(opcode.to_byte(), line_number);
        self.write_long(arg, line_number);
    }

    pub fn read(&self, index: usize) -> (b: u8)
        requires
            index < self.code().len(),
        ensures
            b == self.code()[index as int],
    {
        self.code.copy_read(index)
    }

    /// Replaces the last byte of the code by `new_op`.
    pub fn replace_last_op(&mut self, new_op: OpCode)
        requires
            old(self).wf(),
            old(self).code().len() > 0,
        ensures
            final(self).wf(),
            final(self).code() == old(self).code().update(
                old(self).code().len() - 1,
                opcode_byte(new_op),
            ),
            final(self).line_table() == old(self).line_table(),
            final(self).constants() == old(self).constants(),
    {
        let last = self.code.get_count() - 1;
        self.code.replace(last, new_op.to_byte())
    }

    /// The number whose little-endian bytes start at `index` of the code.
    pub fn read_long(&self, index: usize) -> (v: u32)
        requires
            index + 4 <= self.code().len(),
        ensures
            v == u32_from_le(self.code().subrange(index as int, index + 4)),
    {
        let _count = self.code.get_count();
        let b0 = self.code.copy_read(index);
        let b1 = self.code.copy_read(index + 1);
        let b2 = self.code.copy_read(index + 2);
        let b3 = self.code.copy_read(index + 3);
        assert(self.code().subrange(index as int, index + 4) =~= seq![b0, b1, b2, b3]);
        u32_from_le_bytes(b0, b1, b2, b3)
    }

    pub fn get_bytes_count(&self) -> (n: usize)
        ensures
            n == self.code().len(),
    {
        self.code.get_count()
    }

    /// Adds a constant and returns its index, cut to 32 bits.
    pub fn add_constant(&mut self, value: Value) -> (index: u32)
        requires
            old(self).wf(),
        ensures
            final(self).wf(),
            final(self).constants() == old(self).constants().push(value),
            index == old(self).constants().len() as u32,
            final(self).code() == old(self).code(),
            final(self).line_table() == old(self).line_table(),
            final(self).is_encoded() == old(self).is_encoded(),
    {
        self.constants.push(value);
        (self.constants.get_count() - 1) as u32
    }

    /// Adds a constant and the instruction that loads it; returns the constant's index.
    pub fn add_constant_with_op(&mut self, value: Value, line: u32) -> (index: u32)
        requires
            old(self).wf(),
            old(self).constants().len() < u32::MAX,
            old(self).code().len() + 5 <= usize::MAX,
        ensures
            final(self).wf(),
            index == old(self).constants().len(),
            final(self).constants() == old(self).constants().push(value),
            final(self).code() == old(self).code().push(opcode_byte(OpCode::Constant))
                + le_bytes_u32(index),
    {
        let constant_index = self.add_constant(value);
        self.write_opcode(OpCode::Constant, line);
        self.write_long(constant_index, line);
        constant_index
    }

    pub fn get_constant(&self, index: u32) -> (v: &Value)
        requires
            index < self.constants().len(),
        ensures
            *v == self.constants()[index as int],
    {
        self.constants.get(index as usize)
    }

    /// The line of byte `index` of the code; the line table is decoded first if needed.
    pub fn get_line_number(&mut self, index: usize) -> (line: u32)
        requires
            old(self).wf(),
            index < old(self).code().len(),
        ensures
            final(self).wf(),
            line == line_in(old(self).line_table(), index as int),
            final(self).line_table() == old(self).line_table(),
            final(self).code() == old(self).code(),
            final(self).constants() == old(self).constants(),
            !final(self).is_encoded(),
    {
        self.line_numbers_map.read(index)
    }

    /// Compresses the line table. Every run of equal lines in it must be at most 255 bytes of
    /// code long, and the code must not be empty.
    pub fn encode(&mut self)
        requires
            old(self).wf(),
            RLE::encode_requires(old(self).line_table()),
        ensures
            final(self).wf(),
            final(self).is_encoded(),
            final(self).line_table() == old(self).line_table(),
            final(self).code() == old(self).code(),
            final(self).constants() == old(self).constants(),
    {
        self.line_numbers_map.encode_all();
        proof {
            RLE::lemma_decode_encode(old(self).line_table());
            assert(old(self).line_table().subrange(
                0,
                old(self).line_table().len() - old(self).line_table().len() % 4,
            ) =~= old(self).line_table());
        }
    }
}

} // verus!
