use vstd::prelude::*;

verus! {

/// The instructions of the bytecode, each stored as one byte.
#[derive(Debug, PartialEq, Eq, Structural, Clone, Copy)]
pub enum OpCode {
    Constant,
    DefineGlobal,
    GetGlobal,
    SetGlobal,
    GetLocal,
    SetLocal,
    GetUpvalue,
    SetUpvalue,
    CloseUpvalue,
    Closure,
    Call,
    Return,
    Pop,
    PopN,
    Jump,
    JumpIfFalse,
    JumpIfTrue,
    Backjump,
    False,
    True,
    NoneValue,
    Not,
    Negate,
    Add,
    Subtract,
    Multiply,
    Divide,
    Greater,
    GreaterEqual,
    Less,
    LessEqual,
    Is,
    IsNot,
}

/// The number of instructions.
pub const OPCODE_COUNT: u8 = 33;

/// The byte that stands for an instruction in the code.
pub open spec fn opcode_byte(op: OpCode) -> u8 {
    match op {
        OpCode::Constant => 0,
        OpCode::DefineGlobal => 1,
        OpCode::GetGlobal => 2,
        OpCode::SetGlobal => 3,
        OpCode::GetLocal => 4,
        OpCode::SetLocal => 5,
        OpCode::GetUpvalue => 6,
        OpCode::SetUpvalue => 7,
        OpCode::CloseUpvalue => 8,
        OpCode::Closure => 9,
        OpCode::Call => 10,
        OpCode::Return => 11,
        OpCode::Pop => 12,
        OpCode::PopN => 13,
        OpCode::Jump => 14,
        OpCode::JumpIfFalse => 15,
        OpCode::JumpIfTrue => 16,
        OpCode::Backjump => 17,
        OpCode::False => 18,
        OpCode::True => 19,
        OpCode::NoneValue => 20,
        OpCode::Not => 21,
        OpCode::Negate => 22,
        OpCode::Add => 23,
        OpCode::Subtract => 24,
        OpCode::Multiply => 25,
        OpCode::Divide => 26,
        OpCode::Greater => 27,
        OpCode::GreaterEqual => 28,
        OpCode::Less => 29,
        OpCode::LessEqual => 30,
        OpCode::Is => 31,
        OpCode::IsNot => 32,
    }
}

impl OpCode {
    /// The byte that stands for the instruction.
    pub fn to_byte(self) -> (b: u8)
        ensures
            b == opcode_byte(self),
            b < OPCODE_COUNT,
    {
        match self {
            OpCode::Constant => 0,
            OpCode::DefineGlobal => 1,
            OpCode::GetGlobal => 2,
            OpCode::SetGlobal => 3,
            OpCode::GetLocal => 4,
            OpCode::SetLocal => 5,
            OpCode::GetUpvalue => 6,
            OpCode::SetUpvalue => 7,
            OpCode::CloseUpvalue => 8,
            OpCode::Closure => 9,
            OpCode::Call => 10,
            OpCode::Return => 11,
            OpCode::Pop => 12,
            OpCode::PopN => 13,
            OpCode::Jump => 14,
            OpCode::JumpIfFalse => 15,
            OpCode::JumpIfTrue => 16,
            OpCode::Backjump => 17,
            OpCode::False => 18,
            OpCode::True => 19,
            OpCode::NoneValue => 20,
            OpCode::Not => 21,
            OpCode::Negate => 22,
            OpCode::Add => 23,
            OpCode::Subtract => 24,
            OpCode::Multiply => 25,
            OpCode::Divide => 26,
            OpCode::Greater => 27,
            OpCode::GreaterEqual => 28,
            OpCode::Less => 29,
            OpCode::LessEqual => 30,
            OpCode::Is => 31,
            OpCode::IsNot => 32,
        }
    }

    /// The instruction a byte stands for, if it stands for one.
    pub fn from_byte(byte: u8) -> (op: Option<OpCode>)
        ensures
            match op {
                Some(op) => opcode_byte(op) == byte,
                None => byte >= OPCODE_COUNT,
            },
    {
        if byte == 0 {
            Some(OpCode::Constant)
        } else if byte == 1 {
            Some(OpCode::DefineGlobal)
        } else if byte == 2 {
            Some(OpCode::GetGlobal)
        } else if byte == 3 {
            Some(OpCode::SetGlobal)
        } else if byte == 4 {
            Some(OpCode::GetLocal)
        } else if byte == 5 {
            Some(OpCode::SetLocal)
        } else if byte == 6 {
            Some(OpCode::GetUpvalue)
        } else if byte == 7 {
            Some(OpCode::SetUpvalue)
        } else if byte == 8 {
            Some(OpCode::CloseUpvalue)
        } else if byte == 9 {
            Some(OpCode::Closure)
        } else if byte == 10 {
            Some(OpCode::Call)
        } else if byte == 11 {
            Some(OpCode::Return)
        } else if byte == 12 {
            Some(OpCode::Pop)
        } else if byte == 13 {
            Some(OpCode::PopN)
        } else if byte == 14 {
            Some(OpCode::Jump)
        } else if byte == 15 {
            Some(OpCode::JumpIfFalse)
        } else if byte == 16 {
            Some(OpCode::JumpIfTrue)
        } else if byte == 17 {
            Some(OpCode::Backjump)
        } else if byte == 18 {
            Some(OpCode::False)
        } else if byte == 19 {
            Some(OpCode::True)
        } else if byte == 20 {
            Some(OpCode::NoneValue)
        } else if byte == 21 {
            Some(OpCode::Not)
        } else if byte == 22 {
            Some(OpCode::Negate)
        } else if byte == 23 {
            Some(OpCode::Add)
        } else if byte == 24 {
            Some(OpCode::Subtract)
        } else if byte == 25 {
            Some(OpCode::Multiply)
        } else if byte == 26 {
            Some(OpCode::Divide)
        } else if byte == 27 {
            Some(OpCode::Greater)
        } else if byte == 28 {
            Some(OpCode::GreaterEqual)
        } else if byte == 29 {
            Some(OpCode::Less)
        } else if byte == 30 {
            Some(OpCode::LessEqual)
        } else if byte == 31 {
            Some(OpCode::Is)
        } else if byte == 32 {
            Some(OpCode::IsNot)
        } else {
            None
        }
    }
}

/// Decoding the byte of an instruction gives the instruction back.
pub proof fn lemma_opcode_byte_injective(a: OpCode, b: OpCode)
    ensures
        opcode_byte(a) == opcode_byte(b) ==> a == b,
{
}

} // verus!
