use crate::collections::DynArray;
use crate::utils::{
    le_bytes_u16, le_bytes_u32, lemma_u16_le_round_trip, lemma_u32_le_round_trip,
    u16_from_le, u16_from_le_bytes, u16_to_le_bytes, u32_from_le, u32_from_le_bytes,
    u32_to_le_bytes,
};
use crate::value::Value;
use crate::vm::opcode::{opcode_byte, OpCode};
use vstd::prelude::*;

verus! {

/// A block of bytecode with the source line of each byte and the constants the code refers to.
#[derive(Debug)]
pub struct Chunk {
    code: DynArray<u8>,
    constants: DynArray<Value>,
    line_numbers_map: DynArray<u32>,
}

impl Chunk {
    /// The bytes of the code.
    pub closed spec fn code(&self) -> Seq<u8> {
        self.code@
    }

    /// The constants, in the order they were added.
    pub closed spec fn constants(&self) -> Seq<Value> {
        self.constants@
    }

    /// The source line of each byte of the code.
    pub closed spec fn lines(&self) -> Seq<u32> {
        self.line_numbers_map@
    }

    /// Every byte of the code has its line.
    pub open spec fn wf(&self) -> bool {
        self.code().len() == self.lines().len()
    }

    pub fn new() -> (c: Self)
        ensures
            c.wf(),
            c.code() == Seq::<u8>::empty(),
            c.constants() == Seq::<Value>::empty(),
            c.lines() == Seq::<u32>::empty(),
    {
        Self { code: DynArray::new(), constants: DynArray::new(), line_numbers_map: DynArray::new() }
    }

    pub fn write_byte(&mut self, byte: u8, line_number: u32)
        requires
            old(self).wf(),
        ensures
            final(self).wf(),
            final(self).code() == old(self).code().push(byte),
            final(self).lines() == old(self).lines().push(line_number),
            final(self).constants() == old(self).constants(),
    {
        self.code.push(byte);
        self.line_numbers_map.push(line_number);
    }

    /// Appends `bytes`, each on `line`.
    pub fn write_ptr(&mut self, bytes: &[u8], line: u32)
        requires
            old(self).wf(),
            old(self).code().len() + bytes@.len() <= usize::MAX,
        ensures
            final(self).wf(),
            final(self).code() == old(self).code() + bytes@,
            final(self).lines() == old(self).lines() + Seq::new(bytes@.len(), |i: int| line),
            final(self).constants() == old(self).constants(),
    {
        self.code.push_ptr(bytes);
        let mut i: usize = 0;
        while i < bytes.len()
            invariant
                0 <= i <= bytes@.len(),
                self.code@ == old(self).code@ + bytes@,
                self.constants@ == old(self).constants@,
                self.line_numbers_map@ == old(self).line_numbers_map@ + Seq::new(
                    i as nat,
                    |j: int| line,
                ),
            decreases bytes@.len() - i,
        {
            self.line_numbers_map.push(line);
            i = i + 1;
            assert(self.line_numbers_map@ =~= old(self).line_numbers_map@ + Seq::new(
                i as nat,
                |j: int| line,
            ));
        }
    }

    /// Appends the two little-endian bytes of `short`.
    pub fn write_double(&mut self, short: u16, line: u32)
        requires
            old(self).wf(),
            old(self).code().len() + 2 <= usize::MAX,
        ensures
            final(self).wf(),
            final(self).code() == old(self).code() + le_bytes_u16(short),
            final(self).lines() == old(self).lines() + seq![line, line],
            final(self).constants() == old(self).constants(),
    {
        let bytes = u16_to_le_bytes(short);
        self.write_ptr(&bytes, line);
        assert(Seq::new(2, |i: int| line) =~= seq![line, line]);
    }

    /// Appends the four little-endian bytes of `long`.
    pub fn write_quad(&mut self, long: u32, line: u32)
        requires
            old(self).wf(),
            old(self).code().len() + 4 <= usize::MAX,
        ensures
            final(self).wf(),
            final(self).code() == old(self).code() + le_bytes_u32(long),
            final(self).lines() == old(self).lines() + seq![line, line, line, line],
            final(self).constants() == old(self).constants(),
    {
        let bytes = u32_to_le_bytes(long);
        self.write_ptr(&bytes, line);
        assert(Seq::new(4, |i: int| line) =~= seq![line, line, line, line]);
    }

    pub fn write_opcode(&mut self, opcode: OpCode, line: u32)
        requires
            old(self).wf(),
        ensures
            final(self).wf(),
            final(self).code() == old(self).code().push(opcode_byte(opcode)),
            final(self).lines() == old(self).lines().push(line),
            final(self).constants() == old(self).constants(),
    {
        self.write_byte(opcode.to_byte(), line)
    }

    pub fn write_opcode_with_byte_arg(&mut self, opcode: OpCode, arg: u8, line: u32)
        requires
            old(self).wf(),
        ensures
            final(self).wf(),
            final(self).code() == old(self).code() + seq![opcode_byte(opcode), arg],
            final(self).lines() == old(self).lines() + seq![line, line],
            final(self).constants() == old(self).constants(),
    {
        self.write_byte(opcode.to_byte(), line);
        self.write_byte(arg, line);
        assert(self.code() =~= old(self).code() + seq![opcode_byte(opcode), arg]);
        assert(self.lines() =~= old(self).lines() + seq![line, line]);
    }

    pub fn write_opcode_with_double_arg(&mut self, opcode: OpCode, arg: u16, line: u32)
        requires
            old(self).wf(),
            old(self).code().len() + 3 <= usize::MAX,
        ensures
            final(self).wf(),
            final(self).code() == old(self).code().push(opcode_byte(opcode)) + le_bytes_u16(arg),
            final(self).lines() == old(self).lines() + seq![line, line, line],
            final(self).constants() == old(self).constants(),
    {
        self.write_byte(opcode.to_byte(), line);
        self.write_double(arg, line);
        assert(self.lines() =~= old(self).lines() + seq![line, line, line]);
    }

    pub fn write_opcode_with_quad(&mut self, opcode: OpCode, arg: u32, line: u32)
        requires
            old(self).wf(),
            old(self).code().len() + 5 <= usize::MAX,
        ensures
            final(self).wf(),
            final(self).code() == old(self).code().push(opcode_byte(opcode)) + le_bytes_u32(arg),
            final(self).lines() == old(self).lines() + seq![line, line, line, line, line],
            final(self).constants() == old(self).constants(),
    {
        self.write_byte(opcode.to_byte(), line);
        self.write_quad(arg, line);
        assert(self.lines() =~= old(self).lines() + seq![line, line, line, line, line]);
    }

    pub fn read_byte(&self, index: usize) -> (b: u8)
        requires
            index < self.code().len(),
        ensures
            b == self.code()[index as int],
    {
        self.code.copy_read(index)
    }

    /// The number whose little-endian bytes start at `index`.
    pub fn read_double(&self, index: usize) -> (v: u16)
        requires
            index + 2 <= self.code().len(),
        ensures
            v == u16_from_le(self.code().subrange(index as int, index + 2)),
    {
        let _count = self.code.get_count();
        let b0 = self.code.copy_read(index);
        let b1 = self.code.copy_read(index + 1);
        let v = u16_from_le_bytes(b0, b1);
        assert(self.code().subrange(index as int, index + 2) =~= seq![b0, b1]);
        v
    }

    /// The number whose little-endian bytes start at `index`.
    pub fn read_quad(&self, index: usize) -> (v: u32)
        requires
            index + 4 <= self.code().len(),
        ensures
            v == u32_from_le(self.code().subrange(index as int, index + 4)),
    {
        let _count = self.code.get_count();
        let b0 = self.code.copy_read(index);
        let b1 = self.code.copy_read(index + 1);
        let b2 = self.code.copy_read(index + 2);
        let b3 = self.code.copy_read(index + 3);
        let v = u32_from_le_bytes(b0, b1, b2, b3);
        assert(self.code().subrange(index as int, index + 4) =~= seq![b0, b1, b2, b3]);
        v
    }

    /// Overwrites the two bytes at `index` with the little-endian bytes of `value`
    /// (used to fill in the distance of a jump once it is known).
    pub fn patch_double(&mut self, index: usize, value: u16)
        requires
            old(self).wf(),
            index + 2 <= old(self).code().len(),
        ensures
            final(self).wf(),
            final(self).code() == old(self).code().update(index as int, le_bytes_u16(value)[0]).update(
                index + 1,
                le_bytes_u16(value)[1],
            ),
            final(self).lines() == old(self).lines(),
            final(self).constants() == old(self).constants(),
    {
        let _count = self.code.get_count();
        let bytes = u16_to_le_bytes(value);
        self.code.replace(index, bytes[0]);
        self.code.replace(index + 1, bytes[1]);
    }

    /// Replaces the last byte of the code by `new_op`.
    pub fn replace_last_op(&mut self, new_op: OpCode)
        requires
            old(self).wf(),
            old(self).code().len() > 0,
        ensures
            final(self).wf(),
            final(self).code() == old(self).code().update(
                old(self).code().len() - 1,
                opcode_byte(new_op),
            ),
            final(self).lines() == old(self).lines(),
            final(self).constants() == old(self).constants(),
    {
        let last = self.code.get_count() - 1;
        self.code.replace(last, new_op.to_byte())
    }

    pub fn get_bytes_count(&self) -> (n: usize)
        ensures
            n == self.code().len(),
    {
        self.code.get_count()
    }

    /// Adds a constant and returns its index, cut to 32 bits.
    pub fn add_constant(&mut self, value: Value) -> (index: u32)
        requires
            old(self).wf(),
        ensures
            final(self).wf(),
            final(self).constants() == old(self).constants().push(value),
            index == old(self).constants().len() as u32,
            final(self).code() == old(self).code(),
            final(self).lines() == old(self).lines(),
    {
        self.constants.push(value);
        (self.constants.get_count() - 1) as u32
    }

    /// Adds a constant and the instruction that loads it; returns the constant's index.
    pub fn add_constant_with_op(&mut self, value: Value, line: u32) -> (index: u32)
        requires
            old(self).wf(),
            old(self).constants().len() < u32::MAX,
            old(self).code().len() + 5 <= usize::MAX,
        ensures
            final(self).wf(),
            index == old(self).constants().len(),
            final(self).constants() == old(self).constants().push(value),
            final(self).code() == old(self).code().push(opcode_byte(OpCode::Constant))
                + le_bytes_u32(index),
            final(self).lines() == old(self).lines() + seq![line, line, line, line, line],
    {
        let constant_index = self.add_constant(value);
        self.write_opcode(OpCode::Constant, line);
        self.write_quad(constant_index, line);
        assert(self.lines() =~= old(self).lines() + seq![line, line, line, line, line]);
        constant_index
    }

    pub fn get_constant(&self, index: u32) -> (v: &Value)
        requires
            index < self.constants().len(),
        ensures
            *v == self.constants()[index as int],
    {
        self.constants.get(index as usize)
    }

    pub fn get_constants(&self) -> (s: &[Value])
        ensures
            s@ == self.constants(),
    {
        self.constants.as_slice()
    }

    pub fn get_line_number(&self, index: usize) -> (line: u32)
        requires
            index < self.lines().len(),
        ensures
            line == self.lines()[index as int],
    {
        self.line_numbers_map.copy_read(index)
    }
}

/// What `read_double` gives at the place where `write_double` wrote is the number written.
pub proof fn lemma_double_read_back(code: Seq<u8>, v: u16)
    ensures
        u16_from_le((code + le_bytes_u16(v)).subrange(code.len() as int, code.len() + 2int)) == v,
{
    assert((code + le_bytes_u16(v)).subrange(code.len() as int, code.len() + 2int) =~= le_bytes_u16(v));
    lemma_u16_le_round_trip(v);
}

/// What `read_quad` gives at the place where `write_quad` wrote is the number written.
pub proof fn lemma_quad_read_back(code: Seq<u8>, v: u32)
    ensures
        u32_from_le((code + le_bytes_u32(v)).subrange(code.len() as int, code.len() + 4int)) == v,
{
    assert((code + le_bytes_u32(v)).subrange(code.len() as int, code.len() + 4int) =~= le_bytes_u32(v));
    lemma_u32_le_round_trip(v);
}

/// What `read_double` gives at a place that `patch_double` overwrote is the number written.
pub proof fn lemma_patch_read_back(code: Seq<u8>, index: int, v: u16)
    requires
        0 <= index,
        index + 2 <= code.len(),
    ensures
        u16_from_le(
            code.update(index, le_bytes_u16(v)[0]).update(index + 1, le_bytes_u16(v)[1]).subrange(
                index,
                index + 2,
            ),
        ) == v,
{
    assert(code.update(index, le_bytes_u16(v)[0]).update(index + 1, le_bytes_u16(v)[1]).subrange(
        index,
        index + 2,
    ) =~= le_bytes_u16(v));
    lemma_u16_le_round_trip(v);
}

} // verus!
