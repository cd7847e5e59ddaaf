use crate::compiler::chunk::Chunk;
use crate::utils::{u16_from_le, u32_from_le};
use crate::value::{Object, Value};
use crate::vm::opcode::{opcode_byte, OpCode};
use vstd::prelude::*;

verus! {

/// One captured variable listed after a closure instruction.
#[derive(Debug, Clone, Copy, PartialEq, Eq, Structural)]
pub struct UpvalueEntry {
    /// The offset the entry is shown at.
    pub position: i128,
    pub is_local: bool,
    pub index: u16,
}

/// The operands of an instruction, as the disassembler shows them.
#[derive(Debug, Clone)]
pub enum Operands {
    NoOperand,
    Byte(u8),
    Double(u16),
    /// A jump and the offset it lands on.
    Jump(i128),
    /// The index of a constant.
    Constant(u32),
    /// The index of the function constant and the captured variables listed after it.
    Closure(u16, Vec<UpvalueEntry>),
}

/// An instruction read from a chunk for display.
#[derive(Debug, Clone)]
pub struct Disassembled {
    pub offset: usize,
    pub line: u32,
    /// The instruction is on the same line as the byte before it.
    pub same_line: bool,
    pub opcode: OpCode,
    pub operands: Operands,
    /// How many bytes the disassembler takes the instruction to span.
    pub length: usize,
}

/// The instructions whose operand is shown as one two-byte number.
pub open spec fn has_double_operand(op: OpCode) -> bool {
    op == OpCode::PopN || op == OpCode::GetLocal || op == OpCode::SetLocal || op
        == OpCode::GetUpvalue || op == OpCode::SetUpvalue || op == OpCode::CloseUpvalue
}

/// The instructions whose operand is a four-byte constant index.
pub open spec fn has_constant_operand(op: OpCode) -> bool {
    op == OpCode::DefineGlobal || op == OpCode::SetGlobal || op == OpCode::GetGlobal || op
        == OpCode::Constant
}

/// The forward jumps.
pub open spec fn is_forward_jump(op: OpCode) -> bool {
    op == OpCode::Jump || op == OpCode::JumpIfFalse || op == OpCode::JumpIfTrue
}

/// The number of variables a function constant captures, or none where the value is not
/// a function.
pub open spec fn function_upvalue_count(v: Value) -> Option<u16> {
    match v {
        Value::Object(Object::Function(f)) => Some(f.upvalue_count),
        _ => None,
    }
}

fn upvalue_count_of(v: &Value) -> (n: Option<u16>)
    ensures
        n == function_upvalue_count(*v),
{
    match v {
        Value::Object(Object::Function(f)) => Some(f.upvalue_count),
        _ => None,
    }
}

/// The little-endian two-byte number at `i` of `code`.
pub open spec fn double_at(code: Seq<u8>, i: int) -> u16 {
    u16_from_le(code.subrange(i, i + 2))
}

/// Whether the instruction at `offset` can be read: its opcode is known, its operands lie in
/// the code, and the constant it names exists (and is a function, for a closure).
pub open spec fn readable_at(chunk: &Chunk, offset: int) -> bool {
    let code = chunk.code();
    &&& 0 <= offset < code.len()
    &&& offset < chunk.lines().len()
    &&& code[offset] < 33
    &&& {
        let b = code[offset];
        if b == opcode_byte(OpCode::Closure) {
            &&& offset + 3 <= code.len()
            &&& double_at(code, offset + 1) < chunk.constants().len()
            &&& function_upvalue_count(chunk.constants()[double_at(code, offset + 1) as int]) is Some
            &&& (function_upvalue_count(chunk.constants()[double_at(code, offset + 1) as int])->0
                > 0 ==> offset + 5 <= code.len())
        } else if b == opcode_byte(OpCode::Backjump) || b == opcode_byte(OpCode::Jump) || b
            == opcode_byte(OpCode::JumpIfFalse) || b == opcode_byte(OpCode::JumpIfTrue) {
            offset + 3 <= code.len()
        } else if b == opcode_byte(OpCode::Call) {
            offset + 2 <= code.len()
        } else if b == opcode_byte(OpCode::PopN) || b == opcode_byte(OpCode::GetLocal) || b
            == opcode_byte(OpCode::SetLocal) || b == opcode_byte(OpCode::GetUpvalue) || b
            == opcode_byte(OpCode::SetUpvalue) || b == opcode_byte(OpCode::CloseUpvalue) {
            offset + 3 <= code.len()
        } else if b == opcode_byte(OpCode::DefineGlobal) || b == opcode_byte(OpCode::SetGlobal)
            || b == opcode_byte(OpCode::GetGlobal) || b == opcode_byte(OpCode::Constant) {
            &&& offset + 5 <= code.len()
            &&& u32_from_le(code.subrange(offset + 1, offset + 5)) < chunk.constants().len()
        } else {
            true
        }
    }
}

/// `d` is what the disassembler shows for the instruction at `offset`.
pub open spec fn disassembles_to(chunk: &Chunk, offset: int, d: Disassembled) -> bool {
    let code = chunk.code();
    &&& d.offset == offset
    &&& d.line == chunk.lines()[offset]
    &&& d.same_line == (offset > 0 && chunk.lines()[offset - 1] == chunk.lines()[offset])
    &&& opcode_byte(d.opcode) == code[offset]
    &&& if d.opcode == OpCode::Closure {
        let index = double_at(code, offset + 1);
        let count = function_upvalue_count(chunk.constants()[index as int])->0;
        &&& d.operands matches Operands::Closure(i, entries) && i == index
            && entries@.len() == count && forall|k: int|
            0 <= k < count ==> #[trigger] entries@[k] == (UpvalueEntry {
                position: (offset + 2 + 3 * k) as i128,
                is_local: code[offset + 2] != 0,
                index: double_at(code, offset + 3),
            })
        &&& d.length == 3 + 3 * count
    } else if d.opcode == OpCode::Backjump {
        &&& d.operands == Operands::Jump((offset + 3 - double_at(code, offset + 1)) as i128)
        &&& d.length == 3
    } else if is_forward_jump(d.opcode) {
        &&& d.operands == Operands::Jump((offset + 3 + double_at(code, offset + 1)) as i128)
        &&& d.length == 3
    } else if d.opcode == OpCode::Call {
        &&& d.operands == Operands::Byte(code[offset + 1])
        &&& d.length == 2
    } else if has_double_operand(d.opcode) {
        &&& d.operands == Operands::Double(double_at(code, offset + 1))
        &&& d.length == 3
    } else if has_constant_operand(d.opcode) {
        &&& d.operands == Operands::Constant(
            u32_from_le(code.subrange(offset + 1, offset + 5)),
        )
        &&& d.length == 5
    } else {
        &&& d.operands == Operands::NoOperand
        &&& d.length == 1
    }
}

/// Reads the instruction at `offset` for display, or gives none where it cannot be read.
/// A closure's captured variables are all read from the two places right after its operand.
pub fn disassemble_instruction(chunk: &Chunk, offset: usize) -> (r: Option<Disassembled>)
    requires
        chunk.wf(),
    ensures
        r is Some <==> readable_at(chunk, offset as int),
        r matches Some(d) ==> disassembles_to(chunk, offset as int, d),
{
    let count = chunk.get_bytes_count();
    if offset >= count {
        return None;
    }
    let line = chunk.get_line_number(offset);
    let same_line = offset > 0 && line == chunk.get_line_number(offset - 1);
    let instruction = chunk.read_byte(offset);
    let opcode = match OpCode::from_byte(instruction) {
        Some(op) => op,
        None => {
            return None;
        },
    };
    proof {
        assert(count <= usize::MAX);
    }
    let (operands, length) = match opcode {
        OpCode::Closure => {
            if count - offset < 3 {
                return None;
            }
            let constant_index = chunk.read_double(offset + 1);
            if constant_index as usize >= chunk.get_constants().len() {
                return None;
            }
            let upvalue_count = match upvalue_count_of(chunk.get_constant(constant_index as u32)) {
                Some(n) => n,
                None => {
                    return None;
                },
            };
            if upvalue_count > 0 && count - offset < 5 {
                return None;
            }
            let mut entries: Vec<UpvalueEntry> = Vec::new();
            let mut upvalue_bytes: usize = 0;
            let mut k: u16 = 0;
            while k < upvalue_count
                invariant
                    chunk.wf(),
                    count == chunk.code().len(),
                    upvalue_count > 0 ==> offset + 5 <= count,
                    0 <= k <= upvalue_count,
                    upvalue_bytes == 3 * k,
                    k <= 0xFFFF,
                    entries@.len() == k,
                    forall|j: int|
                        0 <= j < k ==> #[trigger] entries@[j] == (UpvalueEntry {
                            position: (offset + 2 + 3 * j) as i128,
                            is_local: chunk.code()[offset + 2] != 0,
                            index: double_at(chunk.code(), offset + 3),
                        }),
                decreases upvalue_count - k,
            {
                let is_local = chunk.read_byte(offset + 2) != 0;
                let index = chunk.read_double(offset + 3);
                upvalue_bytes = upvalue_bytes + 3;
                entries.push(
                    UpvalueEntry {
                        position: offset as i128 + 2 + upvalue_bytes as i128 - 3,
                        is_local,
                        index,
                    },
                );
                k = k + 1;
            }
            (Operands::Closure(constant_index, entries), 3 + upvalue_bytes)
        },
        OpCode::Backjump => {
            if count - offset < 3 {
                return None;
            }
            let jump = chunk.read_double(offset + 1);
            (Operands::Jump(offset as i128 + 3 - jump as i128), 3)
        },
        OpCode::Jump | OpCode::JumpIfFalse | OpCode::JumpIfTrue => {
            if count - offset < 3 {
                return None;
            }
            let jump = chunk.read_double(offset + 1);
            (Operands::Jump(offset as i128 + 3 + jump as i128), 3)
        },
        OpCode::Call => {
            if count - offset < 2 {
                return None;
            }
            (Operands::Byte(chunk.read_byte(offset + 1)), 2)
        },
        OpCode::PopN
        | OpCode::GetLocal
        | OpCode::SetLocal
        | OpCode::GetUpvalue
        | OpCode::SetUpvalue
        | OpCode::CloseUpvalue => {
            if count - offset < 3 {
                return None;
            }
            (Operands::Double(chunk.read_double(offset + 1)), 3)
        },
        OpCode::DefineGlobal | OpCode::SetGlobal | OpCode::GetGlobal | OpCode::Constant => {
            if count - offset < 5 {
                return None;
            }
            let constant_index = chunk.read_quad(offset + 1);
            if constant_index as usize >= chunk.get_constants().len() {
                return None;
            }
            (Operands::Constant(constant_index), 5)
        },
        _ => (Operands::NoOperand, 1),
    };
    Some(Disassembled { offset, line, same_line, opcode, operands, length })
}

/// Reads the instructions of a chunk one after the other from the start, each beginning where
/// the one before ends, until the end of the code or an instruction that cannot be read.
pub fn disassemble_code(chunk: &Chunk) -> (r: Vec<Disassembled>)
    requires
        chunk.wf(),
        chunk.code().len() + 0x40000 <= usize::MAX,
    ensures
        r@.len() > 0 ==> r@[0].offset == 0,
        forall|i: int|
            0 <= i < r@.len() ==> readable_at(chunk, r@[i].offset as int) && disassembles_to(
                chunk,
                r@[i].offset as int,
                #[trigger] r@[i],
            ),
        forall|i: int|
            0 <= i < r@.len() - 1 ==> #[trigger] r@[i + 1].offset == r@[i].offset + r@[i].length,
        ({
            let next = if r@.len() == 0 {
                0
            } else {
                r@.last().offset + r@.last().length
            };
            next >= chunk.code().len() || !readable_at(chunk, next)
        }),
{
    let mut out: Vec<Disassembled> = Vec::new();
    let count = chunk.get_bytes_count();
    let mut offset: usize = 0;
    while offset < count
        invariant
            chunk.wf(),
            count == chunk.code().len(),
            count + 0x40000 <= usize::MAX,
            offset <= count + 0x30003,
            out@.len() > 0 ==> out@[0].offset == 0,
            out@.len() == 0 ==> offset == 0,
            out@.len() > 0 ==> offset == out@.last().offset + out@.last().length,
            forall|i: int|
                0 <= i < out@.len() ==> readable_at(chunk, out@[i].offset as int)
                    && disassembles_to(chunk, out@[i].offset as int, #[trigger] out@[i]),
            forall|i: int|
                0 <= i < out@.len() - 1 ==> #[trigger] out@[i + 1].offset == out@[i].offset
                    + out@[i].length,
        decreases if offset < count {
            count - offset
        } else {
            0
        },
    {
        match disassemble_instruction(chunk, offset) {
            Some(d) => {
                let length = d.length;
                proof {
                    assert(d.length >= 1 && d.length <= 3 + 3 * 0xFFFF);
                }
                out.push(d);
                offset = offset + length;
            },
            None => {
                return out;
            },
        }
    }
    out
}

} // verus!
