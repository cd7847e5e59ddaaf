use super::chunk::{lemma_patch_read_back, Chunk};
use super::function_type::FunctionType;
use super::local::Local;
use super::upvalue::Upvalue;
use crate::collections::Stack;
use crate::lexing::scanner::{token_fits, token_kind_at, trivia_end, Scanner};
use crate::lexing::token::{spec_level, Precedence, Token, TokenType};
use crate::error::Error;
use crate::utils::{append_decimal, bytes_equal, push_bytes, le_bytes_u16, le_bytes_u32, u16_from_le};
use crate::value::{Function, Object, Value};
use crate::vm::opcode::{opcode_byte, OpCode};
use vstd::prelude::*;
use vstd::string::{StringExecFns, StringSliceAdditionalSpecFns};

verus! {

/// The most parameters or arguments a function can have.
pub const MAX_FUNCTION_ARITY: u8 = 255;

/// The number of local variable slots of a function.
pub const LOCAL_SLOTS: usize = 1024;

/// The most variables a function can capture.
pub const UPVALUES_MAX: usize = 255;

/// The most bytes of code one function may hold. Every offset into the code then fits in
/// 32 bits; a function that would grow past it is reported as an error.
pub const MAX_CODE_BYTES: usize = 0xFFFF_FF00;

/// The parsing routines the rule table refers to.
#[derive(Debug, PartialEq, Eq, Structural, Clone, Copy)]
pub enum ParseFn {
    Grouping,
    Call,
    Unary,
    Binary,
    Variable,
    String,
    Number,
    Literal,
    And,
    Or,
}

/// How a token is parsed at the start of an expression (`prefix`), after an operand
/// (`infix`), and how tightly it binds as an operator.
#[derive(Debug, Clone, Copy)]
pub struct ParseRule {
    pub prefix: Option<ParseFn>,
    pub infix: Option<ParseFn>,
    pub precedence: Precedence,
}

/// The parse rule of each kind of token.
pub open spec fn parse_rule_spec(t: TokenType) -> ParseRule {
    match t {
        TokenType::LeftParen => ParseRule {
            prefix: Some(ParseFn::Grouping),
            infix: Some(ParseFn::Call),
            precedence: Precedence::Call,
        },
        TokenType::Minus => ParseRule {
            prefix: Some(ParseFn::Unary),
            infix: Some(ParseFn::Binary),
            precedence: Precedence::Term,
        },
        TokenType::MinusEqual => ParseRule { prefix: None, infix: None, precedence: Precedence::Term },
        TokenType::Plus => ParseRule {
            prefix: None,
            infix: Some(ParseFn::Binary),
            precedence: Precedence::Term,
        },
        TokenType::PlusEqual => ParseRule { prefix: None, infix: None, precedence: Precedence::Term },
        TokenType::Slash => ParseRule {
            prefix: None,
            infix: Some(ParseFn::Binary),
            precedence: Precedence::Factor,
        },
        TokenType::Star => ParseRule {
            prefix: None,
            infix: Some(ParseFn::Binary),
            precedence: Precedence::Factor,
        },
        TokenType::Not => ParseRule {
            prefix: Some(ParseFn::Unary),
            infix: None,
            precedence: Precedence::Lowest,
        },
        TokenType::Is => ParseRule {
            prefix: None,
            infix: Some(ParseFn::Binary),
            precedence: Precedence::Equality,
        },
        TokenType::Greater => ParseRule {
            prefix: None,
            infix: Some(ParseFn::Binary),
            precedence: Precedence::Comparison,
        },
        TokenType::GreaterEqual => ParseRule {
            prefix: None,
            infix: Some(ParseFn::Binary),
            precedence: Precedence::Comparison,
        },
        TokenType::Less => ParseRule {
            prefix: None,
            infix: Some(ParseFn::Binary),
            precedence: Precedence::Comparison,
        },
        TokenType::LessEqual => ParseRule {
            prefix: None,
            infix: Some(ParseFn::Binary),
            precedence: Precedence::Comparison,
        },
        TokenType::Identifier => ParseRule {
            prefix: Some(ParseFn::Variable),
            infix: None,
            precedence: Precedence::Lowest,
        },
        TokenType::String => ParseRule {
            prefix: Some(ParseFn::String),
            infix: None,
            precedence: Precedence::Lowest,
        },
        TokenType::Number => ParseRule {
            prefix: Some(ParseFn::Number),
            infix: None,
            precedence: Precedence::Lowest,
        },
        TokenType::And => ParseRule {
            prefix: None,
            infix: Some(ParseFn::And),
            precedence: Precedence::Lowest,
        },
        TokenType::False => ParseRule {
            prefix: Some(ParseFn::Literal),
            infix: None,
            precedence: Precedence::Lowest,
        },
        TokenType::NoneKeyword => ParseRule {
            prefix: Some(ParseFn::Literal),
            infix: None,
            precedence: Precedence::Lowest,
        },
        TokenType::Or => ParseRule {
            prefix: None,
            infix: Some(ParseFn::Or),
            precedence: Precedence::Lowest,
        },
        TokenType::True => ParseRule {
            prefix: Some(ParseFn::Literal),
            infix: None,
            precedence: Precedence::Lowest,
        },
        _ => ParseRule { prefix: None, infix: None, precedence: Precedence::Lowest },
    }
}

/// The parse rule of a kind of token.
fn get_rule(token: TokenType) -> (r: ParseRule)
    ensures
        r == parse_rule_spec(token),
{
    match token {
        TokenType::LeftParen => ParseRule {
            prefix: Some(ParseFn::Grouping),
            infix: Some(ParseFn::Call),
            precedence: Precedence::Call,
        },
        TokenType::Minus => ParseRule {
            prefix: Some(ParseFn::Unary),
            infix: Some(ParseFn::Binary),
            precedence: Precedence::Term,
        },
        TokenType::MinusEqual => ParseRule { prefix: None, infix: None, precedence: Precedence::Term },
        TokenType::Plus => ParseRule {
            prefix: None,
            infix: Some(ParseFn::Binary),
            precedence: Precedence::Term,
        },
        TokenType::PlusEqual => ParseRule { prefix: None, infix: None, precedence: Precedence::Term },
        TokenType::Slash => ParseRule {
            prefix: None,
            infix: Some(ParseFn::Binary),
            precedence: Precedence::Factor,
        },
        TokenType::Star => ParseRule {
            prefix: None,
            infix: Some(ParseFn::Binary),
            precedence: Precedence::Factor,
        },
        TokenType::Not => ParseRule {
            prefix: Some(ParseFn::Unary),
            infix: None,
            precedence: Precedence::Lowest,
        },
        TokenType::Is => ParseRule {
            prefix: None,
            infix: Some(ParseFn::Binary),
            precedence: Precedence::Equality,
        },
        TokenType::Greater => ParseRule {
            prefix: None,
            infix: Some(ParseFn::Binary),
            precedence: Precedence::Comparison,
        },
        TokenType::GreaterEqual => ParseRule {
            prefix: None,
            infix: Some(ParseFn::Binary),
            precedence: Precedence::Comparison,
        },
        TokenType::Less => ParseRule {
            prefix: None,
            infix: Some(ParseFn::Binary),
            precedence: Precedence::Comparison,
        },
        TokenType::LessEqual => ParseRule {
            prefix: None,
            infix: Some(ParseFn::Binary),
            precedence: Precedence::Comparison,
        },
        TokenType::Identifier => ParseRule {
            prefix: Some(ParseFn::Variable),
            infix: None,
            precedence: Precedence::Lowest,
        },
        TokenType::String => ParseRule {
            prefix: Some(ParseFn::String),
            infix: None,
            precedence: Precedence::Lowest,
        },
        TokenType::Number => ParseRule {
            prefix: Some(ParseFn::Number),
            infix: None,
            precedence: Precedence::Lowest,
        },
        TokenType::And => ParseRule {
            prefix: None,
            infix: Some(ParseFn::And),
            precedence: Precedence::Lowest,
        },
        TokenType::False => ParseRule {
            prefix: Some(ParseFn::Literal),
            infix: None,
            precedence: Precedence::Lowest,
        },
        TokenType::NoneKeyword => ParseRule {
            prefix: Some(ParseFn::Literal),
            infix: None,
            precedence: Precedence::Lowest,
        },
        TokenType::Or => ParseRule {
            prefix: None,
            infix: Some(ParseFn::Or),
            precedence: Precedence::Lowest,
        },
        TokenType::True => ParseRule {
            prefix: Some(ParseFn::Literal),
            infix: None,
            precedence: Precedence::Lowest,
        },
        _ => ParseRule { prefix: None, infix: None, precedence: Precedence::Lowest },
    }
}

/// The innermost loop being compiled: where its condition starts and where its exit jump is.
#[derive(Debug, Clone, Copy)]
struct EnclosingLoop {
    start_jump_index: u32,
    exit_jump_index: u32,
}

/// Where a jump instruction was written, to fill in its distance later.
#[derive(Debug, Clone, Copy)]
pub struct JumpIndecies {
    pub instruction_index: u32,
}

impl JumpIndecies {
    pub const OPCODE_SIZE: u32 = 1;

    pub const ARGUMENT_SIZE: u32 = 2;

    pub const JUMP_SIZE: u32 = 3;

    /// Where the distance of the jump is stored: right after its opcode.
    pub fn get_argument_index(&self) -> (i: u32)
        requires
            self.instruction_index < u32::MAX,
        ensures
            i == self.instruction_index + 1,
    {
        self.instruction_index + Self::OPCODE_SIZE
    }
}

/// Where an error was found.
#[derive(Debug, Clone)]
pub enum ErrorPlace {
    /// No token had been read yet.
    Line,
    /// At the end of the source.
    AtEnd,
    /// At a token, given by its text.
    AtLexeme(Vec<u8>),
}

/// An error the compiler reports: its line, where on it, and what went wrong.
#[derive(Debug, Clone)]
pub struct Diagnostic {
    pub line: u32,
    pub place: ErrorPlace,
    /// The message, as UTF-8 bytes.
    pub message: Vec<u8>,
}

/// The state of one function being compiled.
#[derive(Debug)]
struct FunctionState {
    function: Function,
    function_type: FunctionType,
    locals: Stack<Local, LOCAL_SLOTS>,
    upvalues: Stack<Upvalue, UPVALUES_MAX>,
    scope_depth: i32,
    enclosing_loop: Option<EnclosingLoop>,
    had_error: bool,
    panic_mode: bool,
}

impl FunctionState {
    /// The state is consistent, and the names of its locals lie in `source`.
    spec fn wf(&self, source: Seq<u8>) -> bool {
        &&& self.function.chunk.wf()
        &&& self.function.chunk.code().len() <= MAX_CODE_BYTES
        &&& self.locals.wf()
        &&& self.upvalues.wf()
        &&& self.function.upvalue_count <= UPVALUES_MAX
        &&& self.upvalues@.len() == self.function.upvalue_count
        &&& forall|i: int|
            0 <= i < self.locals@.len() ==> local_fits(#[trigger] self.locals@[i], source)
    }

    fn new(function_type: FunctionType, name: Option<Vec<u8>>) -> (s: Self)
        ensures
            s.wf(Seq::empty()),
            forall|src: Seq<u8>| s.wf(src),
            s.function.chunk.code().len() == 0,
            s.function.name == name,
            s.function.arity == 0,
            s.function_type == function_type,
            s.locals@.len() == 0,
            s.scope_depth == 0,
            s.enclosing_loop is None,
            !s.had_error,
            !s.panic_mode,
    {
        FunctionState {
            function: Function::new(name),
            function_type,
            locals: Stack::new(),
            upvalues: Stack::new(),
            scope_depth: 0,
            enclosing_loop: None,
            had_error: false,
            panic_mode: false,
        }
    }

    /// Records that an error was found; tells whether one was being reported already.
    fn mark_error(&mut self) -> (was_panicking: bool)
        ensures
            was_panicking == old(self).panic_mode,
            final(self).panic_mode,
            final(self).had_error == (old(self).had_error || !old(self).panic_mode),
            final(self).function == old(self).function,
            final(self).function_type == old(self).function_type,
            final(self).locals == old(self).locals,
            final(self).upvalues == old(self).upvalues,
            final(self).scope_depth == old(self).scope_depth,
            final(self).enclosing_loop == old(self).enclosing_loop,
    {
        if self.panic_mode {
            return true;
        }
        self.panic_mode = true;
        self.had_error = true;
        false
    }
}

/// Compiles source text to bytecode in one pass, function by function.
#[derive(Debug)]
pub struct Compiler<'src> {
    current_source: &'src [u8],
    scanner: Scanner<'src>,
    current: FunctionState,
    enclosing: Vec<FunctionState>,
    diagnostics: Vec<Diagnostic>,
}

impl<'src> Compiler<'src> {
    /// The source being compiled.
    pub closed spec fn source(&self) -> Seq<u8> {
        self.current_source@
    }

    /// How many functions enclose the one being compiled.
    pub closed spec fn depth(&self) -> nat {
        self.enclosing@.len()
    }

    /// The errors reported so far.
    pub closed spec fn spec_diagnostics(&self) -> Seq<Diagnostic> {
        self.diagnostics@
    }

    /// Whether an error was found in the function being compiled.
    pub closed spec fn spec_had_error(&self) -> bool {
        self.current.had_error
    }

    /// Whether the compiler is skipping tokens after an error.
    pub closed spec fn spec_panic_mode(&self) -> bool {
        self.current.panic_mode
    }

    /// The kind of function being compiled.
    pub closed spec fn spec_function_type(&self) -> FunctionType {
        self.current.function_type
    }

    /// The local variable slots of the function being compiled, from the bottom.
    pub closed spec fn spec_locals(&self) -> Seq<Local> {
        self.current.locals@
    }

    /// The code of the function being compiled.
    pub closed spec fn code(&self) -> Seq<u8> {
        self.current.function.chunk.code()
    }

    /// The measure of the work left in the source.
    pub closed spec fn progress(&self) -> nat {
        self.scanner.progress()
    }

    /// The scanner has handed out the end of the source.
    pub closed spec fn at_eof(&self) -> bool {
        self.scanner.at_eof()
    }

    /// The line of the last token read, or the scanner's line where none was read.
    pub closed spec fn spec_current_line(&self) -> u32 {
        match self.scanner.previous() {
            Some(t) => t.line,
            None => self.scanner.line(),
        }
    }

    spec fn state(&self, level: int) -> FunctionState {
        if level == self.enclosing@.len() {
            self.current
        } else {
            self.enclosing@[level]
        }
    }

    /// Only the error flags of the function at `level` may differ between `self` and `before`.
    spec fn only_flags_changed(&self, before: &Self, level: int) -> bool {
        &&& self.current_source == before.current_source
        &&& self.scanner == before.scanner
        &&& self.enclosing@.len() == before.enclosing@.len()
        &&& forall|i: int|
            0 <= i <= self.enclosing@.len() && i != level ==> self.state(i) == before.state(i)
        &&& (level != self.enclosing@.len() ==> self.current == before.current)
        &&& self.state(level).function == before.state(level).function
        &&& self.state(level).function_type == before.state(level).function_type
        &&& self.state(level).locals == before.state(level).locals
        &&& self.state(level).upvalues == before.state(level).upvalues
        &&& self.state(level).scope_depth == before.state(level).scope_depth
        &&& self.state(level).enclosing_loop == before.state(level).enclosing_loop
    }

    /// The kind of the last token read, or `EOF` where none was.
    spec fn spec_previous_kind(&self) -> TokenType {
        match self.scanner.previous() {
            Some(t) => t.token_type,
            None => TokenType::EOF,
        }
    }

    /// The code of the function being compiled has room for the longest instruction.
    spec fn roomy(&self) -> bool {
        self.code().len() + 16 <= MAX_CODE_BYTES
    }

    /// The constants of the function being compiled.
    pub closed spec fn constants(&self) -> Seq<Value> {
        self.current.function.chunk.constants()
    }

    /// The text of the last token read (empty where none was).
    spec fn previous_text(&self) -> Seq<u8> {
        match self.scanner.previous() {
            Some(t) => self.source().subrange(t.lexeme.start() as int, t.lexeme.end() as int),
            None => Seq::empty(),
        }
    }

    /// `self` is `before` with one constant added and the instruction that loads it written.
    spec fn added_constant(&self, before: &Self) -> bool {
        &&& self.constants() == before.constants().push(self.constants().last())
        &&& self.code() == before.code() + seq![opcode_byte(OpCode::Constant)] + le_bytes_u32(
            before.constants().len() as u32,
        )
    }

    /// Where the input did not end yet, tokens were read.
    spec fn read_on(&self, before: &Self) -> bool {
        !before.at_eof() ==> self.progress() < before.progress()
    }

    /// The last token read closes with `kind`, or an error is being reported.
    spec fn closed_with(&self, kind: TokenType) -> bool {
        self.spec_previous_kind() == kind || self.spec_panic_mode()
    }

    /// The code grew, and its last byte is `op`.
    spec fn ends_with_op(&self, before: &Self, op: OpCode) -> bool {
        &&& self.code().len() > before.code().len()
        &&& self.code().last() == opcode_byte(op)
    }

    /// `self` is `before` after a literal: its instruction is written.
    spec fn literal_done(&self, before: &Self) -> bool {
        self.emitted(before, seq![opcode_byte(literal_op(before.spec_previous_kind()))])
    }

    /// `self` is `before` after a number: its digits are a new constant, loaded by the
    /// instruction written.
    spec fn number_done(&self, before: &Self) -> bool {
        &&& self.scanner == before.scanner
        &&& if before.constants().len() < 0xFFFF_FFFF && before.code().len() + 5
            <= MAX_CODE_BYTES {
            &&& self.added_constant(before)
            &&& self.constants().last() matches Value::Number(digits)
            &&& digits@ == before.previous_text()
        } else {
            &&& self.code() == before.code()
            &&& self.spec_panic_mode()
        }
    }

    /// `self` is `before` after a string: its text without the quotes is a new constant,
    /// loaded by the instruction written.
    spec fn string_done(&self, before: &Self) -> bool {
        &&& self.scanner == before.scanner
        &&& if before.constants().len() < 0xFFFF_FFFF && before.code().len() + 5
            <= MAX_CODE_BYTES {
            &&& self.added_constant(before)
            &&& self.constants().last() matches Value::Object(Object::String(text))
            &&& text@ == before.previous_text().subrange(1, before.previous_text().len() - 1)
        } else {
            &&& self.code() == before.code()
            &&& self.spec_panic_mode()
        }
    }

    /// `self` is `before` after a unary operator: the operand is compiled and, where there
    /// is room, the operator's instruction is the last written.
    spec fn unary_done(&self, before: &Self) -> bool {
        &&& self.read_on(before)
        &&& (self.roomy() ==> match unary_op(before.spec_previous_kind()) {
            Some(op) => self.ends_with_op(before, op),
            None => true,
        })
    }

    /// `self` is `before` after a binary operator: the right operand is compiled and, where
    /// there is room, the operator's instruction is the last written (`is not` turns the
    /// last instruction of the operand into `IsNot`).
    spec fn binary_done(&self, before: &Self) -> bool {
        &&& self.read_on(before)
        &&& (self.roomy() ==> if before.spec_previous_kind() == TokenType::Is
            && before.spec_current_kind() == TokenType::Not {
            self.code().len() > 0 ==> self.code().last() == opcode_byte(OpCode::IsNot)
        } else {
            self.ends_with_op(before, binary_op(before.spec_previous_kind()))
        })
    }

    /// `self` is `before` after a parenthesised expression.
    spec fn grouping_done(&self, before: &Self) -> bool {
        &&& self.read_on(before)
        &&& self.closed_with(TokenType::RightParen)
    }

    /// `self` is `before` after the right operand of `and` or `or`: a jump with opcode
    /// `op` and a `Pop` were written first, and where there is room the jump lands at the
    /// end of the code.
    spec fn short_circuit_done(&self, before: &Self, op: OpCode) -> bool {
        &&& self.read_on(before)
        &&& (self.roomy() ==> {
            &&& self.code().len() >= before.code().len() + 4
            &&& self.code()[before.code().len() as int] == opcode_byte(op)
            &&& u16_from_le(
                self.code().subrange(
                    before.code().len() as int + 1,
                    before.code().len() as int + 3,
                ),
            ) == (self.code().len() - before.code().len() - 3) as u16
        })
    }

    /// `self` is `before` after a use of the variable named by the last token read.
    spec fn variable_done(&self, before: &Self, can_assign: bool) -> bool {
        let reading = access_reads(can_assign, before.spec_current_kind());
        match before.scanner.previous() {
            Some(_) => self.roomy() ==> exists|slot: u32|
                #[trigger] ends_with_access(self.code(), slot, reading),
            None => *self == *before,
        }
    }

    /// `self` is `before` after the arguments of a call: the closing parenthesis was read,
    /// or an error is being reported.
    spec fn arguments_done(&self, before: &Self) -> bool {
        &&& self.read_on(before)
        &&& self.closed_with(TokenType::RightParen)
    }

    /// `self` is `before` after a call: its arguments are compiled and, where there is
    /// room, the call instruction with its argument count is the last written.
    spec fn call_done(&self, before: &Self) -> bool {
        &&& self.arguments_done(before)
        &&& (self.roomy() ==> {
            &&& self.code().len() >= before.code().len() + 2
            &&& self.code()[self.code().len() - 2] == opcode_byte(OpCode::Call)
        })
    }

    /// The variable just declared is defined: a global by the last instruction written
    /// (where there was room), a local by being marked initialised at the current depth.
    spec fn defined_variable(&self) -> bool {
        &&& (self.current.scope_depth < 1 && self.roomy() ==> {
            &&& self.code().len() >= 5
            &&& self.code()[self.code().len() - 5] == opcode_byte(OpCode::DefineGlobal)
        })
        &&& (self.current.scope_depth >= 1 && self.current.locals@.len() > 0
            ==> self.current.locals@.last().spec_depth() == self.current.scope_depth)
    }

    /// Where the variable with the text `name` lives, seen from the function being compiled:
    /// one of its locals, a variable of an enclosing function, or a global.
    spec fn resolved_kind(&self, name: Seq<u8>) -> VariableType {
        if exists|j: int|
            0 <= j < self.current.locals@.len() && local_named(
                #[trigger] self.current.locals@[j],
                name,
                self.source(),
            ) {
            VariableType::Local
        } else if self.visible_above(self.enclosing@.len() as int, name) {
            VariableType::Upvalue
        } else {
            VariableType::Global
        }
    }

    /// The upvalue index that resolving the variable with the text `name` from the function at
    /// `level` gives: the innermost enclosing function with such a local captures it, and
    /// each function in between records the capture of the one outside it.
    spec fn resolved_upvalue(&self, level: int, name: Seq<u8>) -> Option<u16>
        decreases level,
    {
        if level <= 0 {
            None
        } else if exists|j: int|
            0 <= j < self.state(level - 1).locals@.len() && local_named(
                #[trigger] self.state(level - 1).locals@[j],
                name,
                self.source(),
            ) {
            Some(
                upvalue_index_for(
                    self.state(level).upvalues@,
                    first_named(self.state(level - 1).locals@, name, self.source()) as u16,
                    true,
                ),
            )
        } else {
            match self.resolved_upvalue(level - 1, name) {
                Some(u) => Some(upvalue_index_for(self.state(level).upvalues@, u, false)),
                None => None,
            }
        }
    }

    /// `self` is `before` after a statement, by the kind of its first token: what each kind
    /// leaves at the end of the code (where there is room) or in the compiler.
    spec fn statement_done(&self, before: &Self) -> bool {
        let kind = before.spec_current_kind();
        if kind == TokenType::If {
            self.roomy() ==> exists|at: int|
                before.code().len() <= at && #[trigger] jump_lands_at_end(self.code(), at)
        } else if kind == TokenType::For || kind == TokenType::While {
            self.current.enclosing_loop is None
        } else if kind == TokenType::Return {
            self.roomy() ==> self.ends_with_op(before, OpCode::Return)
        } else if kind == TokenType::LeftBrace || kind == TokenType::Continue || kind
            == TokenType::Break {
            true
        } else {
            self.roomy() ==> self.ends_with_op(before, OpCode::Pop)
        }
    }

    /// `self` is `before` after a declaration: input was read, and by the kind of its first
    /// token a variable or function was defined, or a statement compiled.
    spec fn declaration_done(&self, before: &Self) -> bool {
        let kind = before.spec_current_kind();
        &&& self.read_on(before)
        &&& if kind == TokenType::Let {
            self.defined_variable()
        } else if kind == TokenType::Fn {
            &&& self.defined_variable()
            &&& self.constants().last() matches Value::Object(Object::Function(_))
        } else {
            self.statement_done(before)
        }
    }

    /// `self` follows from `before`, which had not reached the end of the source, by one
    /// declaration.
    spec fn declaration_step(&self, before: &Self) -> bool {
        &&& !before.at_eof()
        &&& self.declaration_done(before)
    }

    /// `trace` is the run of a compilation of `source` whose code started as `start_code`:
    /// its first state has just read the first token, each next state follows from the one
    /// before by one declaration, and only the last has reached the end of the source.
    pub closed spec fn declarations_trace(trace: Seq<Self>, source: Seq<u8>, start_code: Seq<u8>) -> bool {
        &&& trace.len() >= 1
        &&& trace[0].source() == source
        &&& trace[0].code() == start_code
        &&& trace[0].scanner.previous() is None
        &&& trace[0].scanner.start() == trivia_end(source, 0)
        &&& forall|k: int|
            0 <= k < trace.len() - 1 ==> #[trigger] trace[k + 1].declaration_step(&trace[k])
        &&& trace.last().at_eof()
    }

    /// Some function enclosing the one at `level` has a local with the text `name`.
    spec fn visible_above(&self, level: int, name: Seq<u8>) -> bool
        decreases level,
    {
        if level <= 0 {
            false
        } else {
            ||| exists|j: int|
                0 <= j < self.state(level - 1).locals@.len() && local_named(
                    #[trigger] self.state(level - 1).locals@[j],
                    name,
                    self.source(),
                )
            ||| self.visible_above(level - 1, name)
        }
    }

    /// The kind of the token that reading one more token gives: `EOF` past the end of the
    /// source, none where no token can start there.
    spec fn upcoming_kind(&self) -> Option<TokenType> {
        let src = self.scanner.source();
        let s = trivia_end(src, self.scanner.pos());
        if s >= src.len() {
            Some(TokenType::EOF)
        } else {
            token_kind_at(src, s)
        }
    }

    /// The kind of the token about to be parsed, or `EOF` where none was read.
    spec fn spec_current_kind(&self) -> TokenType {
        match self.scanner.current() {
            Some(t) => t.token_type,
            None => TokenType::EOF,
        }
    }

    /// The compiler's state is consistent with its source.
    pub closed spec fn wf(&self) -> bool {
        &&& self.scanner.wf()
        &&& self.scanner.source() == self.current_source@
        &&& self.current.wf(self.current_source@)
        &&& forall|i: int|
            0 <= i < self.enclosing@.len() ==> (#[trigger] self.enclosing@[i]).wf(
                self.current_source@,
            )
    }

    /// `self` follows from `before` by compiling some of the source: the compiler is still
    /// consistent, works on the same source and at the same function depth, has not gone
    /// back in the source, and has only added code to the function being compiled.
    pub closed spec fn follows(&self, before: &Self) -> bool {
        &&& self.steps_from(before)
        &&& self.current.function.arity == before.current.function.arity
    }

    /// As `follows`, except that the arity of the function being compiled may have changed.
    spec fn steps_from(&self, before: &Self) -> bool {
        &&& self.wf()
        &&& self.current_source == before.current_source
        &&& self.enclosing@.len() == before.enclosing@.len()
        &&& self.scanner.progress() <= before.scanner.progress()
        &&& self.current.function.chunk.code().len() >= before.current.function.chunk.code().len()
        &&& self.enclosing_chunks_kept(before)
        &&& (before.errors_consistent() ==> self.errors_consistent())
        &&& self.current.function_type == before.current.function_type
        &&& self.current.function.name == before.current.function.name
    }

    /// Every function that is skipping tokens after an error has recorded an error, and some
    /// function has recorded an error exactly when errors have been reported.
    pub closed spec fn errors_consistent(&self) -> bool {
        &&& (self.current.panic_mode ==> self.current.had_error)
        &&& forall|i: int|
            0 <= i < self.enclosing@.len() ==> (#[trigger] self.enclosing@[i]).panic_mode
                ==> self.enclosing@[i].had_error
        &&& (self.diagnostics@.len() > 0 <==> (self.current.had_error || exists|i: int|
            0 <= i < self.enclosing@.len() && (#[trigger] self.enclosing@[i]).had_error))
    }

    /// The code, name, arity and type of the enclosing functions are as in `before`.
    spec fn enclosing_chunks_kept(&self, before: &Self) -> bool {
        forall|i: int|
            0 <= i < before.enclosing@.len() ==> {
                &&& (#[trigger] self.enclosing@[i]).function.chunk
                    == before.enclosing@[i].function.chunk
                &&& self.enclosing@[i].function.name == before.enclosing@[i].function.name
                &&& self.enclosing@[i].function.arity == before.enclosing@[i].function.arity
                &&& self.enclosing@[i].function_type == before.enclosing@[i].function_type
            }
    }

    /// The scopes, locals and loop of the function being compiled are as in `before`.
    spec fn same_scopes(&self, before: &Self) -> bool {
        &&& self.current.function_type == before.current.function_type
        &&& self.current.locals == before.current.locals
        &&& self.current.upvalues == before.current.upvalues
        &&& self.current.scope_depth == before.current.scope_depth
        &&& self.current.enclosing_loop == before.current.enclosing_loop
        &&& self.current.function.arity == before.current.function.arity
        &&& self.current.function.name == before.current.function.name
        &&& self.current.function.upvalue_count == before.current.function.upvalue_count
    }

    /// A jump over `distance` bytes was checked: a distance that does not fit in 16 bits is
    /// reported as too far, and otherwise no error is reported.
    spec fn jump_checked(&self, before: &Self, distance: int) -> bool {
        if distance > 0xFFFF {
            &&& self.current.panic_mode
            &&& !before.current.panic_mode ==> {
                &&& self.diagnostics@.len() == before.diagnostics@.len() + 1
                &&& self.diagnostics@.last().message@ == "Jump distance is too far.".spec_bytes()
            }
        } else {
            &&& self.diagnostics == before.diagnostics
            &&& self.current.panic_mode == before.current.panic_mode
        }
    }

    /// What writing code leaves as it was: the scanner, the scopes, the constants and the
    /// enclosing functions; errors recorded stay recorded.
    spec fn emit_frame(&self, before: &Self) -> bool {
        &&& self.follows(before)
        &&& self.scanner == before.scanner
        &&& self.enclosing@ == before.enclosing@
        &&& self.same_scopes(before)
        &&& (before.current.had_error ==> self.current.had_error)
        &&& (before.current.panic_mode ==> self.current.panic_mode)
        &&& self.constants() == before.constants()
        &&& (before.errors_consistent() ==> self.errors_consistent())
    }

    /// `self` is `before` with `bytes` added to the code of the function being compiled,
    /// where it has room for them; where it has not, the code is left as it was and the
    /// error is reported.
    spec fn emitted(&self, before: &Self, bytes: Seq<u8>) -> bool {
        &&& self.emit_frame(before)
        &&& if before.code().len() + bytes.len() <= MAX_CODE_BYTES {
            &&& self.code() == before.code() + bytes
            &&& self.current.had_error == before.current.had_error
            &&& self.current.panic_mode == before.current.panic_mode
            &&& self.diagnostics == before.diagnostics
        } else {
            &&& self.code() == before.code()
            &&& (before.errors_consistent() ==> self.current.had_error)
        }
    }

    /// The compiler is at the top level and no local variable has a name yet, as in a
    /// compiler that has compiled nothing.
    pub closed spec fn ready_to_compile(&self) -> bool {
        &&& self.enclosing@.len() == 0
        &&& self.diagnostics@.len() == 0
        &&& !self.current.had_error
        &&& !self.current.panic_mode
        &&& self.current.function.name is None
        &&& self.current.function.arity == 0
        &&& forall|i: int|
            0 <= i < self.current.locals@.len() ==> self.current.locals@[i].spec_name() is None
    }

    /// A compiler for code of the given type, with no source yet.
    pub fn new(function_type: FunctionType) -> (c: Self)
        ensures
            c.wf(),
            c.source() == Seq::<u8>::empty(),
            c.depth() == 0,
            c.spec_diagnostics() == Seq::<Diagnostic>::empty(),
            !c.spec_had_error(),
            !c.spec_panic_mode(),
            c.code() == Seq::<u8>::empty(),
            c.ready_to_compile(),
            c.spec_function_type() == function_type,
            c.spec_locals().len() == 1,
            c.spec_locals()[0].spec_name() is None,
            c.spec_locals()[0].spec_depth() == -1,
    {
        let empty: &'src [u8] = &[];
        let mut current = FunctionState::new(function_type, None);
        // The first slot is reserved for the function being run.
        current.locals.push(Local::dummy());
        let c = Self {
            current_source: empty,
            scanner: Scanner::new(empty),
            current,
            enclosing: Vec::new(),
            diagnostics: Vec::new(),
        };
        assert(c.current.wf(c.current_source@));
        c
    }

    pub fn get_current_source(&self) -> (s: &'src [u8])
        ensures
            s@ == self.source(),
    {
        self.current_source
    }

    /// The errors reported so far, in the order they were found.
    pub fn get_diagnostics(&self) -> (d: &[Diagnostic])
        ensures
            d@ == self.spec_diagnostics(),
    {
        self.diagnostics.as_slice()
    }

    fn get_current_token(&self) -> (t: Option<Token>)
        ensures
            t == self.scanner.current(),
    {
        match self.scanner.get_current_token() {
            Some(t) => Some(*t),
            None => None,
        }
    }

    fn get_previous_token(&self) -> (t: Option<Token>)
        ensures
            t == self.scanner.previous(),
    {
        match self.scanner.get_previous_token() {
            Some(t) => Some(*t),
            None => None,
        }
    }

    /// The line of the last token read, or the scanner's line where none was read.
    pub fn get_current_line(&self) -> (line: u32)
        ensures
            line == self.spec_current_line(),
    {
        match self.scanner.get_previous_token() {
            Some(token) => token.line,
            None => self.scanner.get_current_line(),
        }
    }

    fn get_instruction_count(&self) -> (n: usize)
        ensures
            n == self.code().len(),
    {
        self.current.function.chunk.get_bytes_count()
    }

    fn previous_kind(&self) -> (k: TokenType)
        ensures
            k == self.spec_previous_kind(),
    {
        match self.scanner.get_previous_token() {
            Some(t) => t.token_type,
            None => TokenType::EOF,
        }
    }

    fn current_kind(&self) -> (k: TokenType)
        ensures
            k == self.spec_current_kind(),
    {
        match self.scanner.get_current_token() {
            Some(t) => t.token_type,
            None => TokenType::EOF,
        }
    }

    fn level_panicking(&self, level: usize) -> (b: bool)
        requires
            level <= self.enclosing@.len(),
        ensures
            b == self.state(level as int).panic_mode,
    {
        if level == self.enclosing.len() {
            self.current.panic_mode
        } else {
            self.enclosing[level].panic_mode
        }
    }

    /// Recording an error in the function at `level` together with its report keeps the
    /// error flags consistent with the reports.
    proof fn lemma_error_keeps_consistency(&self, before: &Self, level: int)
        requires
            0 <= level <= before.enclosing@.len(),
            self.only_flags_changed(before, level),
            self.state(level).panic_mode,
            self.state(level).had_error,
            self.diagnostics@.len() == before.diagnostics@.len() + 1,
            before.errors_consistent(),
        ensures
            self.errors_consistent(),
    {
        let n = self.enclosing@.len() as int;
        if level != n {
            assert(self.state(n) == before.state(n));
            assert(self.enclosing@[level].had_error);
        }
        assert forall|i: int|
            0 <= i < self.enclosing@.len() && (#[trigger] self.enclosing@[i]).panic_mode implies self.enclosing@[i].had_error by {
            assert(self.state(i) == self.enclosing@[i]);
            if i != level {
                assert(self.state(i) == before.state(i));
                assert(before.state(i) == before.enclosing@[i]);
            }
        }
    }

    /// Changes that leave every error flag and report as it was keep them consistent.
    proof fn lemma_flags_kept(&self, before: &Self)
        requires
            before.errors_consistent(),
            self.current.panic_mode == before.current.panic_mode,
            self.current.had_error == before.current.had_error,
            self.diagnostics@ == before.diagnostics@,
            self.enclosing@.len() == before.enclosing@.len(),
            forall|i: int|
                0 <= i < self.enclosing@.len() ==> (#[trigger] self.enclosing@[i]).panic_mode
                    == before.enclosing@[i].panic_mode && self.enclosing@[i].had_error
                    == before.enclosing@[i].had_error,
        ensures
            self.errors_consistent(),
    {
        if exists|i: int| 0 <= i < self.enclosing@.len() && (#[trigger] self.enclosing@[i]).had_error {
            let w = choose|i: int|
                0 <= i < self.enclosing@.len() && (#[trigger] self.enclosing@[i]).had_error;
            assert(before.enclosing@[w].had_error);
        }
        if exists|i: int|
            0 <= i < before.enclosing@.len() && (#[trigger] before.enclosing@[i]).had_error {
            let w = choose|i: int|
                0 <= i < before.enclosing@.len() && (#[trigger] before.enclosing@[i]).had_error;
            assert(self.enclosing@[w].had_error);
        }
    }

    /// Marks the function at `level` as having an error.
    fn mark_error_at(&mut self, level: usize)
        requires
            old(self).wf(),
            level <= old(self).enclosing@.len(),
        ensures
            final(self).wf(),
            final(self).only_flags_changed(old(self), level as int),
            final(self).diagnostics == old(self).diagnostics,
            final(self).state(level as int).panic_mode,
            final(self).state(level as int).had_error,
    {
        if level == self.enclosing.len() {
            self.current.panic_mode = true;
            self.current.had_error = true;
        } else {
            let state = &mut self.enclosing[level];
            state.panic_mode = true;
            state.had_error = true;
            assert(self.enclosing@[level as int].wf(self.current_source@));
        }
    }

    fn error_at_line(&mut self, level: usize, line: u32, msg: &[u8])
        requires
            old(self).wf(),
            level <= old(self).enclosing@.len(),
        ensures
            final(self).wf(),
            old(self).errors_consistent() ==> final(self).errors_consistent(),
            final(self).only_flags_changed(old(self), level as int),
            final(self).state(level as int).panic_mode,
            old(self).state(level as int).panic_mode ==> *final(self) == *old(self),
            !old(self).state(level as int).panic_mode ==> {
                &&& final(self).state(level as int).had_error
                &&& final(self).diagnostics@.len() == old(self).diagnostics@.len() + 1
                &&& final(self).diagnostics@.drop_last() == old(self).diagnostics@
                &&& diagnostic_for(
                    final(self).diagnostics@.last(),
                    None,
                    line,
                    old(self).source(),
                    msg@,
                )
            },
    {
        if self.level_panicking(level) {
            return;
        }
        self.mark_error_at(level);
        let message = vstd::slice::slice_to_vec(msg);
        self.diagnostics.push(Diagnostic { line, place: ErrorPlace::Line, message });
        proof {
            if old(self).errors_consistent() {
                self.lemma_error_keeps_consistency(old(self), level as int);
            }
        }
    }

    fn error_at_token(&mut self, level: usize, token: &Token, msg: &[u8])
        requires
            old(self).wf(),
            level <= old(self).enclosing@.len(),
            token_fits(*token, old(self).source()),
        ensures
            final(self).wf(),
            old(self).errors_consistent() ==> final(self).errors_consistent(),
            final(self).only_flags_changed(old(self), level as int),
            final(self).state(level as int).panic_mode,
            old(self).state(level as int).panic_mode ==> *final(self) == *old(self),
            !old(self).state(level as int).panic_mode ==> {
                &&& final(self).state(level as int).had_error
                &&& final(self).diagnostics@.len() == old(self).diagnostics@.len() + 1
                &&& final(self).diagnostics@.drop_last() == old(self).diagnostics@
                &&& diagnostic_for(
                    final(self).diagnostics@.last(),
                    Some(*token),
                    0,
                    old(self).source(),
                    msg@,
                )
            },
    {
        if self.level_panicking(level) {
            return;
        }
        self.mark_error_at(level);
        let place = if token.token_type == TokenType::EOF {
            ErrorPlace::AtEnd
        } else {
            let lexeme = token.lexeme.get_str(self.current_source);
            ErrorPlace::AtLexeme(vstd::slice::slice_to_vec(lexeme))
        };
        let message = vstd::slice::slice_to_vec(msg);
        self.diagnostics.push(Diagnostic { line: token.line, place, message });
        proof {
            if old(self).errors_consistent() {
                self.lemma_error_keeps_consistency(old(self), level as int);
            }
        }
    }

    /// Reports an error in the function at `level`, at the last token read.
    fn error_in(&mut self, level: usize, msg: &[u8])
        requires
            old(self).wf(),
            level <= old(self).enclosing@.len(),
        ensures
            final(self).wf(),
            old(self).errors_consistent() ==> final(self).errors_consistent(),
            final(self).only_flags_changed(old(self), level as int),
            final(self).state(level as int).panic_mode,
            old(self).state(level as int).panic_mode ==> *final(self) == *old(self),
            !old(self).state(level as int).panic_mode ==> {
                &&& final(self).state(level as int).had_error
                &&& final(self).diagnostics@.len() == old(self).diagnostics@.len() + 1
                &&& final(self).diagnostics@.drop_last() == old(self).diagnostics@
                &&& diagnostic_for(
                    final(self).diagnostics@.last(),
                    old(self).scanner.previous(),
                    old(self).scanner.line(),
                    old(self).source(),
                    msg@,
                )
            },
    {
        match self.get_previous_token() {
            Some(prev) => self.error_at_token(level, &prev, msg),
            None => {
                let line = self.get_current_line();
                self.error_at_line(level, line, msg)
            },
        }
    }

    /// Reports an error in the function being compiled, at the last token read.
    fn error_bytes(&mut self, msg: &[u8])
        requires
            old(self).wf(),
        ensures
            final(self).wf(),
            old(self).errors_consistent() ==> final(self).errors_consistent(),
            final(self).current_source == old(self).current_source,
            final(self).scanner == old(self).scanner,
            final(self).enclosing@ == old(self).enclosing@,
            final(self).current.function == old(self).current.function,
            final(self).current.locals == old(self).current.locals,
            final(self).current.upvalues == old(self).current.upvalues,
            final(self).current.scope_depth == old(self).current.scope_depth,
            final(self).current.enclosing_loop == old(self).current.enclosing_loop,
            final(self).current.function_type == old(self).current.function_type,
            final(self).current.panic_mode,
            old(self).current.panic_mode ==> *final(self) == *old(self),
            !old(self).current.panic_mode ==> {
                &&& final(self).current.had_error
                &&& final(self).diagnostics@.len() == old(self).diagnostics@.len() + 1
                &&& final(self).diagnostics@.drop_last() == old(self).diagnostics@
                &&& diagnostic_for(
                    final(self).diagnostics@.last(),
                    old(self).scanner.previous(),
                    old(self).scanner.line(),
                    old(self).source(),
                    msg@,
                )
            },
    {
        let level = self.enclosing.len();
        self.error_in(level, msg);
        assert(self.enclosing@ =~= old(self).enclosing@) by {
            assert forall|i: int| 0 <= i < self.enclosing@.len() implies self.enclosing@[i]
                == old(self).enclosing@[i] by {
                assert(self.state(i) == old(self).state(i));
            }
        }
    }

    /// Reports an error in the function being compiled, at the last token read.
    fn error(&mut self, msg: &str)
        requires
            old(self).wf(),
        ensures
            final(self).wf(),
            old(self).errors_consistent() ==> final(self).errors_consistent(),
            final(self).current_source == old(self).current_source,
            final(self).scanner == old(self).scanner,
            final(self).enclosing@ == old(self).enclosing@,
            final(self).current.function == old(self).current.function,
            final(self).current.locals == old(self).current.locals,
            final(self).current.upvalues == old(self).current.upvalues,
            final(self).current.scope_depth == old(self).current.scope_depth,
            final(self).current.enclosing_loop == old(self).current.enclosing_loop,
            final(self).current.function_type == old(self).current.function_type,
            final(self).current.panic_mode,
            old(self).current.panic_mode ==> *final(self) == *old(self),
            !old(self).current.panic_mode ==> {
                &&& final(self).current.had_error
                &&& final(self).diagnostics@.len() == old(self).diagnostics@.len() + 1
                &&& final(self).diagnostics@.drop_last() == old(self).diagnostics@
                &&& diagnostic_for(
                    final(self).diagnostics@.last(),
                    old(self).scanner.previous(),
                    old(self).scanner.line(),
                    old(self).source(),
                    msg.spec_bytes(),
                )
            },
    {
        self.error_bytes(msg.as_bytes());
    }

    pub fn had_error(&self) -> (b: bool)
        ensures
            b == self.spec_had_error(),
    {
        self.current.had_error
    }

    pub fn is_panic_mode(&self) -> (b: bool)
        ensures
            b == self.spec_panic_mode(),
    {
        self.current.panic_mode
    }

    pub fn set_panic_mode(&mut self, value: bool)
        requires
            old(self).wf(),
        ensures
            final(self).wf(),
            final(self).spec_panic_mode() == value,
            !value ==> final(self).follows(old(self)),
            final(self).spec_had_error() == old(self).spec_had_error(),
            final(self).spec_diagnostics() == old(self).spec_diagnostics(),
            final(self).progress() == old(self).progress(),
            final(self).code() == old(self).code(),
            final(self).constants() == old(self).constants(),
    {
        self.current.panic_mode = value;
    }
    /// Whether the code of the function being compiled has room for `n` more bytes; where
    /// it has not, the error is reported.
    fn has_room(&mut self, n: usize) -> (b: bool)
        requires
            old(self).wf(),
            n <= 16,
        ensures
            b == (old(self).code().len() + n <= MAX_CODE_BYTES),
            b ==> *final(self) == *old(self),
            !b ==> (old(self).errors_consistent() ==> final(self).current.had_error),
            !b ==> final(self).current.panic_mode,
            final(self).emit_frame(old(self)),
            final(self).code() == old(self).code(),
    {
        if self.get_instruction_count() > MAX_CODE_BYTES - n {
            self.error("Too much code in one function.");
            assert(self.enclosing@ =~= old(self).enclosing@);
            return false;
        }
        true
    }

    /// Writes an opcode to the code of the function being compiled.
    fn emit_op(&mut self, op: OpCode, line: u32)
        requires
            old(self).wf(),
        ensures
            final(self).emitted(old(self), seq![opcode_byte(op)]),
    {
        if self.has_room(1) {
            self.current.function.chunk.write_opcode(op, line);
            assert(self.code() =~= old(self).code() + seq![opcode_byte(op)]);
        }
    }

    /// Writes a byte to the code of the function being compiled.
    fn emit_byte(&mut self, byte: u8, line: u32)
        requires
            old(self).wf(),
        ensures
            final(self).emitted(old(self), seq![byte]),
    {
        if self.has_room(1) {
            self.current.function.chunk.write_byte(byte, line);
            assert(self.code() =~= old(self).code() + seq![byte]);
        }
    }

    /// Writes the little-endian bytes of `value` to the code of the function being compiled.
    fn emit_double(&mut self, value: u16, line: u32)
        requires
            old(self).wf(),
        ensures
            final(self).emitted(old(self), le_bytes_u16(value)),
    {
        if self.has_room(2) {
            self.current.function.chunk.write_double(value, line);
        }
    }

    /// Writes an opcode with a one-byte argument.
    fn emit_op_with_byte(&mut self, op: OpCode, arg: u8, line: u32)
        requires
            old(self).wf(),
        ensures
            final(self).emitted(old(self), seq![opcode_byte(op), arg]),
    {
        if self.has_room(2) {
            self.current.function.chunk.write_opcode_with_byte_arg(op, arg, line);
        }
    }

    /// Writes an opcode with a two-byte argument.
    fn emit_op_with_double(&mut self, op: OpCode, arg: u16, line: u32)
        requires
            old(self).wf(),
        ensures
            final(self).emitted(old(self), seq![opcode_byte(op)] + le_bytes_u16(arg)),
    {
        if self.has_room(3) {
            self.current.function.chunk.write_opcode_with_double_arg(op, arg, line);
            assert(self.code() =~= old(self).code() + (seq![opcode_byte(op)] + le_bytes_u16(arg)));
        }
    }

    /// Writes an opcode with a four-byte argument.
    fn emit_op_with_quad(&mut self, op: OpCode, arg: u32, line: u32)
        requires
            old(self).wf(),
        ensures
            final(self).emitted(old(self), seq![opcode_byte(op)] + le_bytes_u32(arg)),
    {
        if self.has_room(5) {
            self.current.function.chunk.write_opcode_with_quad(op, arg, line);
            assert(self.code() =~= old(self).code() + (seq![opcode_byte(op)] + le_bytes_u32(arg)));
        }
    }

    /// Replaces the last opcode written, where there is one.
    fn replace_last_op(&mut self, op: OpCode)
        requires
            old(self).wf(),
        ensures
            final(self).follows(old(self)),
            final(self).scanner == old(self).scanner,
            final(self).enclosing@ == old(self).enclosing@,
            final(self).same_scopes(old(self)),
            old(self).code().len() > 0 ==> final(self).code() == old(self).code().update(
                old(self).code().len() - 1,
                opcode_byte(op),
            ),
            old(self).code().len() == 0 ==> final(self).code() == old(self).code(),
            final(self).current.panic_mode == old(self).current.panic_mode,
    {
        if self.get_instruction_count() > 0 {
            self.current.function.chunk.replace_last_op(op);
        }
    }

    /// Writes a jump with the given distance; a distance that does not fit in 16 bits is
    /// reported and cut to its low 16 bits.
    fn emit_jump(&mut self, op: OpCode, arg: u32)
        requires
            old(self).wf(),
        ensures
            final(self).follows(old(self)),
            final(self).scanner == old(self).scanner,
            final(self).enclosing@ == old(self).enclosing@,
            final(self).same_scopes(old(self)),
            old(self).code().len() + 3 <= MAX_CODE_BYTES ==> final(self).code() == old(
                self,
            ).code() + seq![opcode_byte(op)] + le_bytes_u16(arg as u16),
            old(self).code().len() + 3 > MAX_CODE_BYTES ==> final(self).code() == old(self).code(),
            final(self).constants() == old(self).constants(),
            old(self).current.panic_mode ==> final(self).current.panic_mode,
            old(self).code().len() + 3 <= MAX_CODE_BYTES ==> final(self).jump_checked(
                old(self),
                arg as int,
            ),
    {
        if arg > 0xFFFF {
            self.error("Jump distance is too far.");
            assert(self.enclosing@ =~= old(self).enclosing@);
        }
        let line = self.get_current_line();
        self.emit_op_with_double(op, arg as u16, line);
        assert(old(self).code() + seq![opcode_byte(op)] + le_bytes_u16(arg as u16) =~= old(
            self,
        ).code() + (seq![opcode_byte(op)] + le_bytes_u16(arg as u16)));
    }

    /// Writes a jump whose distance is filled in later, and returns where it stands.
    fn emit_jump_backpatch(&mut self, op: OpCode) -> (j: JumpIndecies)
        requires
            old(self).wf(),
        ensures
            final(self).follows(old(self)),
            final(self).scanner == old(self).scanner,
            final(self).enclosing@ == old(self).enclosing@,
            final(self).same_scopes(old(self)),
            j.instruction_index + 3 <= final(self).code().len(),
            old(self).code().len() + 3 <= MAX_CODE_BYTES ==> {
                &&& j.instruction_index == old(self).code().len()
                &&& final(self).code() == old(self).code() + seq![opcode_byte(op)] + le_bytes_u16(
                    0xFFFFu16,
                )
            },
            old(self).code().len() + 3 > MAX_CODE_BYTES ==> final(self).code() == old(self).code(),
    {
        self.emit_jump(op, 0xFFFF);
        let index = self.get_instruction_count() as u32 - JumpIndecies::JUMP_SIZE;
        JumpIndecies { instruction_index: index }
    }

    /// Fills in the distance of the jump whose argument is at `offset` so that it lands on
    /// the next instruction to be written; a distance that does not fit in 16 bits is
    /// reported and cut to its low 16 bits.
    fn patch_jump(&mut self, offset: u32)
        requires
            old(self).wf(),
            offset + 2 <= old(self).code().len(),
        ensures
            final(self).follows(old(self)),
            final(self).scanner == old(self).scanner,
            final(self).enclosing@ == old(self).enclosing@,
            final(self).same_scopes(old(self)),
            final(self).code().len() == old(self).code().len(),
            u16_from_le(final(self).code().subrange(offset as int, offset + 2int)) == (old(
                self,
            ).code().len() - offset - 2) as u16,
            forall|i: int|
                0 <= i < old(self).code().len() && (i < offset || i >= offset + 2)
                    ==> (#[trigger] final(self).code()[i]) == old(self).code()[i],
            final(self).jump_checked(old(self), old(self).code().len() - offset - 2),
    {
        let jump = self.get_instruction_count() as u32 - offset - JumpIndecies::ARGUMENT_SIZE;
        if jump > 0xFFFF {
            self.error("Jump distance is too far.");
            assert(self.enclosing@ =~= old(self).enclosing@);
        }
        let jump = jump as u16;
        self.current.function.chunk.patch_double(offset as usize, jump);
        proof {
            lemma_patch_read_back(old(self).code(), offset as int, jump);
        }
    }

    /// Writes a jump back to the instruction at `to`.
    fn emit_backjump(&mut self, to: u32)
        requires
            old(self).wf(),
        ensures
            final(self).follows(old(self)),
            final(self).scanner == old(self).scanner,
            final(self).enclosing@ == old(self).enclosing@,
            final(self).same_scopes(old(self)),
            old(self).code().len() + 3 <= MAX_CODE_BYTES ==> final(self).code() == old(
                self,
            ).code() + seq![opcode_byte(OpCode::Backjump)] + le_bytes_u16(
                ((old(self).code().len() + 3) as u32).wrapping_sub(to) as u16,
            ),
            old(self).code().len() + 3 <= MAX_CODE_BYTES ==> ends_with_backjump(
                final(self).code(),
                to,
            ),
            old(self).code().len() + 3 <= MAX_CODE_BYTES ==> final(self).jump_checked(
                old(self),
                ((old(self).code().len() + 3) as u32).wrapping_sub(to) as int,
            ),
            final(self).constants() == old(self).constants(),
            old(self).current.panic_mode ==> final(self).current.panic_mode,
    {
        let backward = (self.get_instruction_count() as u32 + JumpIndecies::JUMP_SIZE).wrapping_sub(
            to,
        );
        self.emit_jump(OpCode::Backjump, backward);
        proof {
            if old(self).code().len() + 3 <= MAX_CODE_BYTES {
                assert(self.code().subrange(self.code().len() - 3, self.code().len() as int)
                    =~= seq![opcode_byte(OpCode::Backjump)] + le_bytes_u16(backward as u16));
            }
        }
    }

    /// Adds a constant to the function being compiled and returns its index.
    fn emit_constant(&mut self, value: Value) -> (index: u32)
        requires
            old(self).wf(),
        ensures
            final(self).follows(old(self)),
            final(self).scanner == old(self).scanner,
            final(self).enclosing@ == old(self).enclosing@,
            final(self).same_scopes(old(self)),
            final(self).code() == old(self).code(),
            index == old(self).current.function.chunk.constants().len() as u32,
            final(self).constants() == old(self).constants().push(value),
            final(self).current.panic_mode == old(self).current.panic_mode,
    {
        self.current.function.chunk.add_constant(value)
    }

    /// Adds a constant and the instruction that loads it, where there is room for both.
    fn emit_constant_with_op(&mut self, value: Value, line: u32)
        requires
            old(self).wf(),
        ensures
            final(self).follows(old(self)),
            final(self).scanner == old(self).scanner,
            final(self).enclosing@ == old(self).enclosing@,
            final(self).same_scopes(old(self)),
            old(self).current.panic_mode ==> final(self).current.panic_mode,
            if old(self).constants().len() < 0xFFFF_FFFF && old(self).code().len() + 5
                <= MAX_CODE_BYTES {
                &&& final(self).added_constant(old(self))
                &&& final(self).constants().last() == value
            } else {
                &&& final(self).constants() == old(self).constants()
                &&& final(self).code() == old(self).code()
                &&& final(self).spec_panic_mode()
            },
    {
        if self.current.function.chunk.get_constants().len() >= 0xFFFF_FFFF {
            self.error("Cannot add more constants! (how the hell are you using so many???)");
            assert(self.enclosing@ =~= old(self).enclosing@);
            return;
        }
        if self.has_room(5) {
            self.current.function.chunk.add_constant_with_op(value, line);
            assert(self.code() =~= old(self).code() + seq![opcode_byte(OpCode::Constant)]
                + le_bytes_u32(old(self).constants().len() as u32));
        }
    }

    fn emit_empty_return(&mut self)
        requires
            old(self).wf(),
        ensures
            final(self).follows(old(self)),
            old(self).current.had_error ==> final(self).current.had_error,
            final(self).scanner == old(self).scanner,
            final(self).enclosing@ == old(self).enclosing@,
            final(self).same_scopes(old(self)),
            old(self).errors_consistent() ==> final(self).errors_consistent(),
            old(self).errors_consistent() && !final(self).current.had_error ==> final(self).code()
                == old(self).code() + seq![
                opcode_byte(OpCode::NoneValue),
                opcode_byte(OpCode::Return),
            ],
            final(self).roomy() ==> final(self).code() == old(self).code() + seq![
                opcode_byte(OpCode::NoneValue),
                opcode_byte(OpCode::Return),
            ],
            old(self).code().len() + 2 <= MAX_CODE_BYTES ==> final(self).current.had_error == old(
                self,
            ).current.had_error,
            old(self).current.panic_mode ==> final(self).current.panic_mode,
    {
        let line = self.get_current_line();
        self.emit_op(OpCode::NoneValue, line);
        let line = self.get_current_line();
        self.emit_op(OpCode::Return, line);
    }

    /// Reads the next token; an error from the scanner is reported.
    fn advance(&mut self)
        requires
            old(self).wf(),
        ensures
            final(self).follows(old(self)),
            final(self).enclosing@ == old(self).enclosing@,
            final(self).same_scopes(old(self)),
            final(self).code() == old(self).code(),
            !old(self).at_eof() ==> final(self).progress() < old(self).progress(),
            old(self).at_eof() ==> final(self).at_eof() && final(self).spec_previous_kind()
                == TokenType::EOF,
            final(self).scanner.previous() == old(self).scanner.current()
                || final(self).spec_panic_mode(),
            old(self).current.panic_mode ==> final(self).current.panic_mode,
            final(self).constants() == old(self).constants(),
            final(self).diagnostics@.len() >= old(self).diagnostics@.len(),
            final(self).current.panic_mode ==> old(self).current.panic_mode
                || final(self).diagnostics@.len() > old(self).diagnostics@.len(),
            final(self).scanner.start() == trivia_end(
                old(self).scanner.source(),
                old(self).scanner.pos(),
            ),
            final(self).scanner.previous() == old(self).scanner.current()
                || final(self).scanner.previous() == old(self).scanner.previous(),
            trivia_end(old(self).scanner.source(), old(self).scanner.pos())
                >= old(self).scanner.source().len() ==> {
                &&& final(self).current == old(self).current
                &&& final(self).diagnostics == old(self).diagnostics
                &&& final(self).at_eof()
            },
            old(self).upcoming_kind() matches Some(k) ==> {
                &&& final(self).spec_current_kind() == k
                &&& final(self).scanner.previous() == old(self).scanner.current()
            },
    {
        match self.scanner.scan() {
            Ok(_) => {},
            Err(err) => {
                self.error(err.get_message());
            },
        }
    }

    fn is_previous_token(&self, token_type: TokenType) -> (b: bool)
        ensures
            b == (self.scanner.previous() matches Some(t) && t.token_type == token_type),
    {
        match self.scanner.get_previous_token() {
            Some(token) => token.token_type == token_type,
            None => false,
        }
    }

    fn is_current_token(&self, token_type: TokenType) -> (b: bool)
        ensures
            b == (self.scanner.current() matches Some(t) && t.token_type == token_type),
    {
        match self.scanner.get_current_token() {
            Some(token) => token.token_type == token_type,
            None => false,
        }
    }

    /// Reads the next token if the current one is of the given kind, and tells whether it was.
    fn match_and_advance(&mut self, token_type: TokenType) -> (b: bool)
        requires
            old(self).wf(),
        ensures
            final(self).follows(old(self)),
            final(self).enclosing@ == old(self).enclosing@,
            final(self).same_scopes(old(self)),
            final(self).code() == old(self).code(),
            b == (old(self).scanner.current() matches Some(t) && t.token_type == token_type),
            !b ==> *final(self) == *old(self),
            b ==> (old(self).upcoming_kind() matches Some(k) ==> final(self).spec_current_kind()
                == k),
            b && token_type != TokenType::EOF ==> final(self).progress() < old(self).progress(),
            b ==> final(self).scanner.previous() == old(self).scanner.current()
                || final(self).spec_panic_mode(),
            old(self).current.panic_mode ==> final(self).current.panic_mode,
            final(self).constants() == old(self).constants(),
            old(self).at_eof() ==> {
                &&& final(self).current == old(self).current
                &&& final(self).diagnostics == old(self).diagnostics
                &&& final(self).at_eof()
            },
    {
        let value = self.is_current_token(token_type);
        if value {
            self.advance();
        }
        value
    }

    /// Reads a token of the given kind, or reports `err_msg`.
    fn consume(&mut self, token_type: TokenType, err_msg: &str)
        requires
            old(self).wf(),
        ensures
            final(self).follows(old(self)),
            final(self).enclosing@ == old(self).enclosing@,
            final(self).same_scopes(old(self)),
            final(self).code() == old(self).code(),
            final(self).constants() == old(self).constants(),
            old(self).current.panic_mode ==> final(self).current.panic_mode,
            if old(self).scanner.current() matches Some(t) && t.token_type == token_type {
                &&& final(self).scanner.previous() == old(self).scanner.current()
                    || final(self).spec_panic_mode()
                &&& token_type != TokenType::EOF ==> final(self).progress() < old(self).progress()
            } else {
                &&& final(self).scanner == old(self).scanner
                &&& final(self).spec_panic_mode()
                &&& !old(self).current.panic_mode ==> {
                    &&& final(self).diagnostics@.len() == old(self).diagnostics@.len() + 1
                    &&& final(self).diagnostics@.last().message@ == err_msg.spec_bytes()
                }
            },
    {
        if !self.match_and_advance(token_type) {
            self.error(err_msg);
            assert(self.enclosing@ =~= old(self).enclosing@);
        }
    }
    fn begin_scope(&mut self)
        requires
            old(self).wf(),
        ensures
            final(self).follows(old(self)),
            final(self).scanner == old(self).scanner,
            final(self).enclosing@ == old(self).enclosing@,
            final(self).code() == old(self).code(),
            final(self).current.enclosing_loop == old(self).current.enclosing_loop,
            final(self).current.function_type == old(self).current.function_type,
            final(self).current.scope_depth == old(self).current.scope_depth.wrapping_add(1),
    {
        self.current.scope_depth = self.current.scope_depth.wrapping_add(1);
    }

    /// Closes a scope: the locals declared in it (the top ones, at its depth or deeper) are
    /// removed, each captured one is closed, and all of them are popped at once.
    fn end_scope(&mut self)
        requires
            old(self).wf(),
        ensures
            final(self).follows(old(self)),
            final(self).scanner == old(self).scanner,
            final(self).enclosing@ == old(self).enclosing@,
            final(self).current.enclosing_loop == old(self).current.enclosing_loop,
            final(self).current.function_type == old(self).current.function_type,
            if old(self).current.scope_depth <= 0 {
                &&& final(self).code() == old(self).code()
                &&& final(self).current.locals == old(self).current.locals
                &&& final(self).current.scope_depth == old(self).current.scope_depth
                &&& final(self).spec_panic_mode()
                &&& !old(self).current.panic_mode ==> {
                    &&& final(self).diagnostics@.len() == old(self).diagnostics@.len() + 1
                    &&& final(self).diagnostics@.last().message@
                        == "Cannot end scope, no scope is open.".spec_bytes()
                }
            } else {
                let d = old(self).current.scope_depth;
                let locals = old(self).current.locals@;
                let kept = final(self).current.locals@.len();
                &&& final(self).current.scope_depth == d - 1
                &&& kept <= locals.len()
                &&& final(self).current.locals@ == locals.subrange(0, kept as int)
                &&& forall|j: int| kept <= j < locals.len() ==> (#[trigger] locals[j]).spec_depth() >= d
                &&& kept > 0 ==> locals[kept - 1].spec_depth() < d
                &&& final(self).roomy() ==> final(self).code() == old(self).code()
                    + scope_end_code(locals.subrange(kept as int, locals.len() as int))
            },
    {
        if self.current.scope_depth <= 0 {
            self.error("Cannot end scope, no scope is open.");
            return;
        }
        let depth = self.current.scope_depth;
        self.current.scope_depth = depth - 1;
        let line = self.get_current_line();
        let ghost locals = old(self).current.locals@;
        let count = self.current.locals.count();
        // Count the locals of the closed scope from the top, closing the captured ones.
        let mut k: usize = 0;
        while k < count && self.current.locals.get_at(count - 1 - k).get_depth() >= depth
            invariant
                self.follows(old(self)),
                self.scanner == old(self).scanner,
                self.enclosing@ == old(self).enclosing@,
                self.current.enclosing_loop == old(self).current.enclosing_loop,
                self.current.function_type == old(self).current.function_type,
                self.current.locals == old(self).current.locals,
                locals == old(self).current.locals@,
                self.current.scope_depth == depth - 1,
                depth == old(self).current.scope_depth,
                count == locals.len(),
                count <= LOCAL_SLOTS,
                0 <= k <= count,
                forall|j: int| count - k <= j < count ==> (#[trigger] locals[j]).spec_depth() >= depth,
                self.code() == old(self).code() + close_upvalues(
                    captured_count(locals.subrange(count - k, count as int)),
                ) || self.code().len() + 1 > MAX_CODE_BYTES,
            decreases count - k,
        {
            let local = self.current.locals.get_at(count - 1 - k);
            proof {
                let top = locals.subrange(count - k - 1, count as int);
                assert(top.drop_first() =~= locals.subrange(count - k, count as int));
                assert(top[0] == locals[count - k - 1]);
            }
            let ghost before_emit = *self;
            if local.is_captured() {
                self.emit_op(OpCode::CloseUpvalue, line);
                proof {
                    if before_emit.code().len() + 1 <= MAX_CODE_BYTES && before_emit.code()
                        == old(self).code() + close_upvalues(
                        captured_count(locals.subrange(count - k, count as int)),
                    ) {
                        assert(self.code() =~= old(self).code() + close_upvalues(
                            captured_count(locals.subrange(count - k - 1, count as int)),
                        ));
                    }
                }
            }
            k = k + 1;
        }
        let ghost after_closes = *self;
        let mut popped: usize = 0;
        while popped < k
            invariant
                self.follows(old(self)),
                self.scanner == old(self).scanner,
                self.enclosing@ == old(self).enclosing@,
                self.current.enclosing_loop == old(self).current.enclosing_loop,
                self.current.function_type == old(self).current.function_type,
                locals == old(self).current.locals@,
                count == locals.len(),
                0 <= popped <= k <= count,
                self.current.locals@ == locals.subrange(0, count - popped),
                self.code() == after_closes.code(),
                self.current.scope_depth == old(self).current.scope_depth - 1,
            decreases k - popped,
        {
            let ghost prev = self.current.locals@;
            self.current.locals.pop();
            popped = popped + 1;
            proof {
                assert(self.current.locals@ == prev.drop_last());
                assert(self.current.locals@ =~= locals.subrange(0, count - popped));
            }
        }
        proof {
            assert(self.current.locals@.len() == count - k);
        }
        if k > 0 {
            self.emit_op_with_double(OpCode::PopN, k as u16, line);
            proof {
                if self.roomy() {
                    assert(self.code() =~= old(self).code() + scope_end_code(
                        locals.subrange(count - k, count as int),
                    ));
                }
            }
        } else {
            proof {
                if self.roomy() {
                    assert(locals.subrange(count as int, count as int).len() == 0);
                    assert(captured_count(locals.subrange(count as int, count as int)) == 0);
                    assert(self.code() =~= old(self).code() + scope_end_code(
                        locals.subrange(count - k, count as int),
                    ));
                }
            }
        }
    }

    /// Adds the text of a name to the constants and returns its index.
    fn identifier_constant(&mut self, name_token: &Token) -> (index: u32)
        requires
            old(self).wf(),
            token_fits(*name_token, old(self).source()),
        ensures
            final(self).follows(old(self)),
            final(self).scanner == old(self).scanner,
            final(self).enclosing@ == old(self).enclosing@,
            final(self).same_scopes(old(self)),
            final(self).code() == old(self).code(),
            index == old(self).constants().len() as u32,
            final(self).current.panic_mode == old(self).current.panic_mode,
            final(self).constants().drop_last() == old(self).constants(),
            final(self).constants().len() == old(self).constants().len() + 1,
            final(self).constants().last() matches Value::Object(Object::String(text))
                && text@ == old(self).source().subrange(
                name_token.lexeme.start() as int,
                name_token.lexeme.end() as int,
            ),
    {
        let lexeme = name_token.lexeme.get_str(self.current_source);
        let value = Value::Object(Object::String(vstd::slice::slice_to_vec(lexeme)));
        self.emit_constant(value)
    }

    fn local_count_at(&self, level: usize) -> (n: usize)
        requires
            level <= self.enclosing@.len(),
        ensures
            n == self.state(level as int).locals@.len(),
    {
        if level == self.enclosing.len() {
            self.current.locals.count()
        } else {
            self.enclosing[level].locals.count()
        }
    }

    fn local_at(&self, level: usize, index: usize) -> (l: Local)
        requires
            level <= self.enclosing@.len(),
            index < self.state(level as int).locals@.len(),
        ensures
            l == self.state(level as int).locals@[index as int],
    {
        if level == self.enclosing.len() {
            self.current.locals.get_at(index)
        } else {
            self.enclosing[level].locals.get_at(index)
        }
    }

    /// The slot of the first local (from the bottom) of the function at `level` that has
    /// the name of `name_token`; reading one that is not initialised yet is reported.
    fn resolve_local_in(&mut self, level: usize, name_token: &Token) -> (slot: Option<u16>)
        requires
            old(self).wf(),
            level <= old(self).enclosing@.len(),
            token_fits(*name_token, old(self).source()),
        ensures
            final(self).wf(),
            old(self).errors_consistent() ==> final(self).errors_consistent(),
            final(self).only_flags_changed(old(self), level as int),
            ({
                let locals = old(self).state(level as int).locals@;
                let name = old(self).source().subrange(
                    name_token.lexeme.start() as int,
                    name_token.lexeme.end() as int,
                );
                match slot {
                    Some(i) => {
                        &&& i < locals.len()
                        &&& local_named(locals[i as int], name, old(self).source())
                        &&& forall|j: int|
                            0 <= j < i ==> !local_named(
                                #[trigger] locals[j],
                                name,
                                old(self).source(),
                            )
                        &&& locals[i as int].spec_depth() != -1 ==> *final(self) == *old(self)
                        &&& locals[i as int].spec_depth() == -1 ==> final(self).state(
                            level as int,
                        ).panic_mode
                    },
                    None => {
                        &&& *final(self) == *old(self)
                        &&& forall|j: int|
                            0 <= j < locals.len() ==> !local_named(
                                #[trigger] locals[j],
                                name,
                                old(self).source(),
                            )
                    },
                }
            }),
    {
        let count = self.local_count_at(level);
        let name = name_token.lexeme.get_str(self.current_source);
        let mut i: usize = 0;
        while i < count
            invariant
                self == old(self),
                self.wf(),
                level <= self.enclosing@.len(),
                count == self.state(level as int).locals@.len(),
                count <= LOCAL_SLOTS,
                0 <= i <= count,
                name@ == self.source().subrange(
                    name_token.lexeme.start() as int,
                    name_token.lexeme.end() as int,
                ),
                forall|j: int|
                    0 <= j < i ==> !local_named(
                        #[trigger] self.state(level as int).locals@[j],
                        name@,
                        self.source(),
                    ),
            decreases count - i,
        {
            let local = self.local_at(level, i);
            proof {
                assert(local_fits(self.state(level as int).locals@[i as int], self.source()));
            }
            match local.get_name() {
                None => {},
                Some(local_name) => {
                    let other = local_name.lexeme.get_str(self.current_source);
                    if bytes_equal(name, other) {
                        if !local.is_initialized() {
                            self.error_in(level, "Can't read uninitialized variable.".as_bytes());
                        }
                        return Some(i as u16);
                    }
                },
            }
            i = i + 1;
        }
        None
    }

    /// Marks local `slot` of the function at `level` as captured by a closure.
    fn capture_local_at(&mut self, level: usize, slot: u16)
        requires
            old(self).wf(),
            level < old(self).enclosing@.len(),
            slot < old(self).state(level as int).locals@.len(),
        ensures
            final(self).wf(),
            old(self).errors_consistent() ==> final(self).errors_consistent(),
            final(self).current_source == old(self).current_source,
            final(self).scanner == old(self).scanner,
            final(self).current == old(self).current,
            final(self).enclosing@.len() == old(self).enclosing@.len(),
            final(self).enclosing_chunks_kept(old(self)),
            forall|i: int|
                0 <= i < old(self).enclosing@.len() && i != level
                    ==> (#[trigger] final(self).enclosing@[i]) == old(self).enclosing@[i],
            ({
                let before = old(self).enclosing@[level as int].locals@;
                let after = final(self).enclosing@[level as int].locals@;
                &&& final(self).enclosing@[level as int].upvalues == old(
                    self,
                ).enclosing@[level as int].upvalues
                &&& after.len() == before.len()
                &&& after[slot as int].spec_captured()
                &&& after[slot as int].spec_name() == before[slot as int].spec_name()
                &&& after[slot as int].spec_depth() == before[slot as int].spec_depth()
                &&& forall|j: int| 0 <= j < before.len() && j != slot ==> (#[trigger] after[j]) == before[j]
            }),
    {
        let state = &mut self.enclosing[level];
        let local = state.locals.get_mut_at(slot as usize);
        local.capture();
        proof {
            if old(self).errors_consistent() {
                assert forall|i: int| 0 <= i < self.enclosing@.len() implies (
                #[trigger] self.enclosing@[i]).panic_mode == old(self).enclosing@[i].panic_mode
                    && self.enclosing@[i].had_error == old(self).enclosing@[i].had_error by {}
                self.lemma_flags_kept(old(self));
            }
        }
        assert(self.enclosing@[level as int].wf(self.current_source@)) by {
            assert forall|i: int|
                0 <= i < self.enclosing@[level as int].locals@.len() implies local_fits(
                #[trigger] self.enclosing@[level as int].locals@[i],
                self.current_source@,
            ) by {
                assert(local_fits(old(self).enclosing@[level as int].locals@[i], self.current_source@));
            }
        }
    }

    fn upvalue_count_at(&self, level: usize) -> (n: u16)
        requires
            level <= self.enclosing@.len(),
        ensures
            n == self.state(level as int).function.upvalue_count,
    {
        if level == self.enclosing.len() {
            self.current.function.upvalue_count
        } else {
            self.enclosing[level].function.upvalue_count
        }
    }

    fn upvalue_stack_at(&self, level: usize) -> (s: &Stack<Upvalue, UPVALUES_MAX>)
        requires
            level <= self.enclosing@.len(),
        ensures
            *s == self.state(level as int).upvalues,
    {
        if level == self.enclosing.len() {
            &self.current.upvalues
        } else {
            &self.enclosing[level].upvalues
        }
    }

    /// Records a captured variable for the function at `level` and returns its upvalue index.
    fn add_upvalue(&mut self, level: usize, index: u16, is_local: bool) -> (r: u16)
        requires
            old(self).wf(),
            level <= old(self).enclosing@.len(),
        ensures
            final(self).wf(),
            old(self).errors_consistent() ==> final(self).errors_consistent(),
            final(self).current_source == old(self).current_source,
            final(self).scanner == old(self).scanner,
            final(self).enclosing@.len() == old(self).enclosing@.len(),
            final(self).current.function.chunk == old(self).current.function.chunk,
            final(self).current.function.name == old(self).current.function.name,
            final(self).current.function.arity == old(self).current.function.arity,
            final(self).current.enclosing_loop == old(self).current.enclosing_loop,
            final(self).current.function_type == old(self).current.function_type,
            final(self).current.locals == old(self).current.locals,
            forall|i: int|
                0 <= i < old(self).enclosing@.len() ==> (#[trigger] final(self).enclosing@[i]).locals
                    == old(self).enclosing@[i].locals,
            final(self).enclosing_chunks_kept(old(self)),
            r == upvalue_index_for(old(self).state(level as int).upvalues@, index, is_local),
            forall|i: int|
                0 <= i <= old(self).enclosing@.len() && i != level
                    ==> (#[trigger] final(self).state(i)).upvalues == old(self).state(i).upvalues,
            ({
                let ups = old(self).state(level as int).upvalues@;
                let n = old(self).state(level as int).function.upvalue_count;
                if exists|i: int|
                    0 <= i < ups.len() && upvalue_matches(#[trigger] ups[i], index, is_local) {
                    &&& r < ups.len()
                    &&& upvalue_matches(ups[r as int], index, is_local)
                    &&& forall|k: int|
                        0 <= k < r ==> !upvalue_matches(#[trigger] ups[k], index, is_local)
                    &&& *final(self) == *old(self)
                } else if n >= UPVALUES_MAX {
                    &&& r == 0
                    &&& final(self).state(level as int).panic_mode
                    &&& !old(self).state(level as int).panic_mode ==> {
                        &&& final(self).diagnostics@.len() == old(self).diagnostics@.len() + 1
                        &&& final(self).diagnostics@.last().message@
                            == "Too many closure variable in function!".spec_bytes()
                    }
                } else {
                    &&& r == n
                    &&& final(self).state(level as int).function.upvalue_count == n + 1
                    &&& final(self).state(level as int).upvalues@ == ups.push(
                        Upvalue { is_local, index },
                    )
                }
            }),
    {
        let last_upvalue_count = self.upvalue_count_at(level);
        let count = self.upvalue_stack_at(level).count();
        let mut i: usize = 0;
        while i < count
            invariant
                self == old(self),
                self.wf(),
                level <= self.enclosing@.len(),
                count == self.state(level as int).upvalues@.len(),
                count <= UPVALUES_MAX,
                0 <= i <= count,
                forall|k: int|
                    0 <= k < i ==> !upvalue_matches(
                        #[trigger] self.state(level as int).upvalues@[k],
                        index,
                        is_local,
                    ),
            decreases count - i,
        {
            let upvalue = self.upvalue_stack_at(level).get_at(i);
            // The variable may have been captured already.
            if upvalue.index == index && upvalue.is_local == is_local {
                proof {
                    assert(is_first_match(
                        old(self).state(level as int).upvalues@,
                        index,
                        is_local,
                        i as int,
                    ));
                    lemma_first_match(
                        old(self).state(level as int).upvalues@,
                        index,
                        is_local,
                        i as int,
                    );
                }
                return i as u16;
            }
            i = i + 1;
        }
        if last_upvalue_count as usize >= UPVALUES_MAX {
            self.error_in(level, "Too many closure variable in function!".as_bytes());
            proof {
                assert forall|i: int| 0 <= i < old(self).enclosing@.len() implies (#[trigger] self.enclosing@[i]).locals
                    == old(self).enclosing@[i].locals && self.enclosing@[i].function
                    == old(self).enclosing@[i].function && self.enclosing@[i].function_type
                    == old(self).enclosing@[i].function_type by {
                    assert(self.state(i) == self.enclosing@[i]);
                    if i != level {
                        assert(self.state(i) == old(self).state(i));
                    }
                }
            }
            return 0;
        }
        let upvalue = Upvalue { is_local, index };
        if level == self.enclosing.len() {
            self.current.upvalues.push(upvalue);
            self.current.function.upvalue_count = last_upvalue_count + 1;
        } else {
            let state = &mut self.enclosing[level];
            state.upvalues.push(upvalue);
            state.function.upvalue_count = last_upvalue_count + 1;
            proof {
                assert forall|i: int| 0 <= i < old(self).enclosing@.len() implies (
                #[trigger] self.enclosing@[i]).function.chunk == old(self).enclosing@[i].function.chunk
                    && self.enclosing@[i].function.name == old(self).enclosing@[i].function.name
                    && self.enclosing@[i].function.arity == old(self).enclosing@[i].function.arity
                    && self.enclosing@[i].function_type == old(self).enclosing@[i].function_type by {}
                if old(self).errors_consistent() {
                    assert forall|i: int| 0 <= i < self.enclosing@.len() implies (
                    #[trigger] self.enclosing@[i]).panic_mode == old(self).enclosing@[i].panic_mode
                        && self.enclosing@[i].had_error == old(self).enclosing@[i].had_error by {}
                    self.lemma_flags_kept(old(self));
                }
            }
            assert(self.enclosing@[level as int].wf(self.current_source@)) by {
                assert forall|i: int|
                    0 <= i < self.enclosing@[level as int].locals@.len() implies local_fits(
                    #[trigger] self.enclosing@[level as int].locals@[i],
                    self.current_source@,
                ) by {
                    assert(local_fits(old(self).enclosing@[level as int].locals@[i], self.current_source@));
                }
            }
        }
        last_upvalue_count
    }

    /// The upvalue index of the variable named by `name_token` as seen from the function at
    /// `level`, looked up in the enclosing functions from the innermost out; none where no
    /// enclosing function has such a local.
    fn resolve_upvalue(&mut self, level: usize, name_token: &Token) -> (r: Option<u16>)
        requires
            old(self).wf(),
            level <= old(self).enclosing@.len(),
            token_fits(*name_token, old(self).source()),
        ensures
            final(self).wf(),
            old(self).errors_consistent() ==> final(self).errors_consistent(),
            final(self).current_source == old(self).current_source,
            final(self).scanner == old(self).scanner,
            final(self).enclosing@.len() == old(self).enclosing@.len(),
            final(self).current.function.chunk == old(self).current.function.chunk,
            final(self).current.function.name == old(self).current.function.name,
            final(self).current.function.arity == old(self).current.function.arity,
            final(self).current.enclosing_loop == old(self).current.enclosing_loop,
            final(self).current.function_type == old(self).current.function_type,
            final(self).enclosing_chunks_kept(old(self)),
            r is Some <==> old(self).visible_above(
                level as int,
                old(self).source().subrange(
                    name_token.lexeme.start() as int,
                    name_token.lexeme.end() as int,
                ),
            ),
            r == old(self).resolved_upvalue(
                level as int,
                old(self).source().subrange(
                    name_token.lexeme.start() as int,
                    name_token.lexeme.end() as int,
                ),
            ),
            forall|i: int|
                level < i <= old(self).enclosing@.len() ==> (#[trigger] final(self).state(i)).upvalues
                    == old(self).state(i).upvalues,
        decreases level,
    {
        if level == 0 {
            return None;
        }
        let enclosing = level - 1;
        let ghost before = *self;
        match self.resolve_local_in(enclosing, name_token) {
            Some(local) => {
                proof {
                    assert(self.state(enclosing as int).locals == before.state(enclosing as int).locals);
                    assert forall|i: int| 0 <= i < before.enclosing@.len() implies (
                    #[trigger] self.enclosing@[i]).function == before.enclosing@[i].function
                        && self.enclosing@[i].function_type == before.enclosing@[i].function_type by {
                        assert(self.state(i).function == before.state(i).function);
                    }
                }
                proof {
                    lemma_first_named(
                        before.state(enclosing as int).locals@,
                        before.source().subrange(
                            name_token.lexeme.start() as int,
                            name_token.lexeme.end() as int,
                        ),
                        before.source(),
                        local as int,
                    );
                }
                let ghost before_capture = *self;
                self.capture_local_at(enclosing, local);
                proof {
                    assert(self.state(level as int).upvalues == before.state(level as int).upvalues);
                    assert forall|i: int| level < i <= before.enclosing@.len() implies (
                    #[trigger] self.state(i)).upvalues == before.state(i).upvalues by {
                        assert(before_capture.state(i) == before.state(i));
                    }
                }
                let upvalue = self.add_upvalue(level, local, true);
                Some(upvalue)
            },
            None => {
                proof {
                    assert forall|i: int| 0 <= i < before.enclosing@.len() implies (
                    #[trigger] self.enclosing@[i]).function == before.enclosing@[i].function
                        && self.enclosing@[i].function_type == before.enclosing@[i].function_type by {
                        assert(self.state(i).function == before.state(i).function);
                    }
                }
                match self.resolve_upvalue(enclosing, name_token) {
                    Some(upvalue) => {
                        proof {
                            assert(self.state(level as int).upvalues == before.state(level as int).upvalues);
                        }
                        let upvalue = self.add_upvalue(level, upvalue, false);
                        Some(upvalue)
                    },
                    None => None,
                }
            },
        }
    }

    fn add_local(&mut self, name: Token)
        requires
            old(self).wf(),
            token_fits(name, old(self).source()),
        ensures
            final(self).follows(old(self)),
            final(self).scanner == old(self).scanner,
            final(self).enclosing@ == old(self).enclosing@,
            final(self).code() == old(self).code(),
            final(self).current.enclosing_loop == old(self).current.enclosing_loop,
            final(self).current.function_type == old(self).current.function_type,
            final(self).current.scope_depth == old(self).current.scope_depth,
            final(self).current.locals@.len() >= old(self).current.locals@.len(),
            final(self).current.locals@.len() > 0,
            final(self).constants() == old(self).constants(),
            old(self).current.panic_mode ==> final(self).current.panic_mode,
            if old(self).current.locals@.len() < LOCAL_SLOTS {
                &&& final(self).current.locals@.len() == old(self).current.locals@.len() + 1
                &&& final(self).current.locals@.drop_last() == old(self).current.locals@
                &&& final(self).current.locals@.last().spec_name() == Some(name)
                &&& final(self).current.locals@.last().spec_depth() == old(self).current.scope_depth
                &&& !final(self).current.locals@.last().spec_captured()
            } else {
                &&& final(self).current.locals == old(self).current.locals
                &&& final(self).spec_panic_mode()
            },
    {
        if self.current.locals.count() >= self.current.locals.stack_size() {
            self.error("Cannot add local, too many locals in scope!");
            return;
        }
        let depth = self.current.scope_depth;
        self.current.locals.push(Local::new(name, depth));
        assert(self.current.wf(self.current_source@)) by {
            assert forall|i: int| 0 <= i < self.current.locals@.len() implies local_fits(
                #[trigger] self.current.locals@[i],
                self.current_source@,
            ) by {
                if i < old(self).current.locals@.len() {
                    assert(local_fits(old(self).current.locals@[i], self.current_source@));
                }
            }
        }
    }

    /// Declares the name just read as a local, where a scope is open.
    fn declare_variable(&mut self)
        requires
            old(self).wf(),
        ensures
            final(self).follows(old(self)),
            final(self).scanner == old(self).scanner,
            final(self).enclosing@ == old(self).enclosing@,
            final(self).code() == old(self).code(),
            final(self).current.enclosing_loop == old(self).current.enclosing_loop,
            final(self).current.function_type == old(self).current.function_type,
            final(self).current.scope_depth == old(self).current.scope_depth,
            final(self).constants() == old(self).constants(),
            old(self).current.panic_mode ==> final(self).current.panic_mode,
            match old(self).scanner.previous() {
                Some(name) if old(self).current.scope_depth != 0 => if old(
                    self,
                ).current.locals@.len() < LOCAL_SLOTS {
                    &&& final(self).current.locals@.drop_last() == old(self).current.locals@
                    &&& final(self).current.locals@.len() == old(self).current.locals@.len() + 1
                    &&& final(self).current.locals@.last().spec_name() == Some(name)
                    &&& final(self).current.locals@.last().spec_depth()
                        == old(self).current.scope_depth
                } else {
                    &&& final(self).current.locals == old(self).current.locals
                    &&& final(self).spec_panic_mode()
                },
                _ => *final(self) == *old(self),
            },
    {
        if self.current.scope_depth == 0 {
            return;
        }
        match self.get_previous_token() {
            Some(name) => self.add_local(name),
            None => {},
        }
    }

    /// Reads a variable name; returns the index of its name constant for a global, or 0 for a
    /// local.
    fn parse_variable(&mut self, error_message: &str) -> (index: u32)
        requires
            old(self).wf(),
        ensures
            final(self).follows(old(self)),
            final(self).enclosing@ == old(self).enclosing@,
            final(self).code() == old(self).code(),
            final(self).current.enclosing_loop == old(self).current.enclosing_loop,
            final(self).current.function_type == old(self).current.function_type,
            final(self).current.scope_depth == old(self).current.scope_depth,
            final(self).closed_with(TokenType::Identifier),
            final(self).scanner == old(self).scanner || final(self).progress() < old(self).progress(),
            final(self).constants().len() >= old(self).constants().len(),
            old(self).current.scope_depth > 0 ==> index == 0 && final(self).constants() == old(
                self,
            ).constants(),
            old(self).current.scope_depth <= 0 && final(self).scanner.previous() is Some ==> {
                &&& index == old(self).constants().len() as u32
                &&& final(self).constants().drop_last() == old(self).constants()
                &&& final(self).constants().len() == old(self).constants().len() + 1
                &&& final(self).constants().last() matches Value::Object(Object::String(text))
                &&& text@ == final(self).previous_text()
            },
    {
        self.consume(TokenType::Identifier, error_message);
        self.declare_variable();
        if self.current.scope_depth > 0 {
            return 0;
        }
        match self.get_previous_token() {
            Some(name) => self.identifier_constant(&name),
            None => 0,
        }
    }

    /// Marks the last declared local as initialised; tells whether a scope was open.
    fn initialize_local(&mut self) -> (b: bool)
        requires
            old(self).wf(),
        ensures
            final(self).follows(old(self)),
            final(self).scanner == old(self).scanner,
            final(self).enclosing@ == old(self).enclosing@,
            final(self).code() == old(self).code(),
            final(self).current.enclosing_loop == old(self).current.enclosing_loop,
            final(self).current.function_type == old(self).current.function_type,
            b == (old(self).current.scope_depth >= 1),
            !b ==> *final(self) == *old(self),
            final(self).constants() == old(self).constants(),
            final(self).current.scope_depth == old(self).current.scope_depth,
            final(self).current.panic_mode == old(self).current.panic_mode,
            final(self).current.locals@.len() == old(self).current.locals@.len(),
            b && old(self).current.locals@.len() > 0 ==> {
                let n = old(self).current.locals@.len() - 1;
                &&& final(self).current.locals@ == old(self).current.locals@.update(
                    n,
                    final(self).current.locals@[n],
                )
                &&& final(self).current.locals@[n].spec_depth() == old(self).current.scope_depth
                &&& final(self).current.locals@[n].spec_name() == old(self).current.locals@[n].spec_name()
            },
    {
        if self.current.scope_depth < 1 {
            return false;
        }
        if self.current.locals.count() > 0 {
            let depth = self.current.scope_depth;
            let local = self.current.locals.top_mut_offset(0);
            local.initialize(depth);
            assert(self.current.wf(self.current_source@)) by {
                assert forall|i: int| 0 <= i < self.current.locals@.len() implies local_fits(
                    #[trigger] self.current.locals@[i],
                    self.current_source@,
                ) by {
                    assert(local_fits(old(self).current.locals@[i], self.current_source@));
                }
            }
        }
        true
    }

    /// Makes the variable just declared usable: a local is marked initialised, a global is
    /// defined by an instruction.
    fn define_variable(&mut self, global_index: u32)
        requires
            old(self).wf(),
        ensures
            final(self).follows(old(self)),
            final(self).scanner == old(self).scanner,
            final(self).enclosing@ == old(self).enclosing@,
            final(self).current.enclosing_loop == old(self).current.enclosing_loop,
            final(self).current.function_type == old(self).current.function_type,
            final(self).current.scope_depth == old(self).current.scope_depth,
            final(self).constants() == old(self).constants(),
            old(self).current.panic_mode ==> final(self).current.panic_mode,
            if old(self).current.scope_depth >= 1 {
                &&& final(self).code() == old(self).code()
                &&& final(self).current.locals@.len() == old(self).current.locals@.len()
                &&& old(self).current.locals@.len() > 0 ==> final(self).current.locals@.last().spec_depth()
                    == old(self).current.scope_depth
            } else {
                final(self).emitted(
                    old(self),
                    seq![opcode_byte(OpCode::DefineGlobal)] + le_bytes_u32(global_index),
                )
            },
    {
        if !self.initialize_local() {
            let line = self.get_current_line();
            self.emit_op_with_quad(OpCode::DefineGlobal, global_index, line);
        }
    }

    fn continue_statement(&mut self)
        requires
            old(self).wf(),
        ensures
            final(self).follows(old(self)),
            final(self).scanner == old(self).scanner,
            final(self).enclosing@ == old(self).enclosing@,
            final(self).current.enclosing_loop == old(self).current.enclosing_loop,
            final(self).current.function_type == old(self).current.function_type,
            match old(self).current.enclosing_loop {
                None => final(self).code() == old(self).code() && final(self).spec_panic_mode(),
                Some(l) => final(self).roomy() ==> ends_with_backjump(
                    final(self).code(),
                    l.start_jump_index,
                ),
            },
    {
        match self.current.enclosing_loop {
            None => {
                self.error("Cannot use 'continue' outside of a loop.");
            },
            Some(enclosing_loop) => {
                // Drop the locals of the loop body, or the stack would grow with each pass.
                self.end_scope();
                self.begin_scope();
                self.emit_backjump(enclosing_loop.start_jump_index);
            },
        }
    }

    fn break_statement(&mut self)
        requires
            old(self).wf(),
        ensures
            final(self).follows(old(self)),
            final(self).scanner == old(self).scanner,
            final(self).enclosing@ == old(self).enclosing@,
            final(self).current.enclosing_loop == old(self).current.enclosing_loop,
            final(self).current.function_type == old(self).current.function_type,
            match old(self).current.enclosing_loop {
                None => final(self).code() == old(self).code() && final(self).spec_panic_mode(),
                Some(l) => final(self).roomy() ==> {
                    &&& ends_with_backjump(final(self).code(), l.exit_jump_index)
                    &&& old(self).constants().len() < 0xFFFF_FFFF ==> {
                        &&& final(self).constants() == old(self).constants().push(
                            Value::Bool(false),
                        )
                        &&& final(self).code().len() == old(self).code().len() + 8
                        &&& final(self).code().subrange(
                            old(self).code().len() as int,
                            old(self).code().len() + 5int,
                        ) == seq![opcode_byte(OpCode::Constant)] + le_bytes_u32(
                            old(self).constants().len() as u32,
                        )
                    }
                },
            },
    {
        match self.current.enclosing_loop {
            None => {
                self.error("Cannot use 'break' outside of a loop.");
            },
            Some(enclosing_loop) => {
                // Push false so that the loop condition fails and the loop exits.
                let line = self.get_current_line();
                self.emit_constant_with_op(Value::Bool(false), line);
                let ghost loaded = self.code();
                self.emit_backjump(enclosing_loop.exit_jump_index);
                proof {
                    if self.roomy() && old(self).constants().len() < 0xFFFF_FFFF {
                        assert(loaded == old(self).code() + seq![opcode_byte(OpCode::Constant)]
                            + le_bytes_u32(old(self).constants().len() as u32));
                        assert(self.code().subrange(
                            old(self).code().len() as int,
                            old(self).code().len() + 5int,
                        ) =~= seq![opcode_byte(OpCode::Constant)] + le_bytes_u32(
                            old(self).constants().len() as u32,
                        ));
                    }
                }
            },
        }
    }
    /// Parses an expression whose operators bind at least as tightly as `precedence`.
    #[verifier::rlimit(50)]
    #[verifier::spinoff_prover]
    fn parse_precedence(&mut self, precedence: Precedence)
        requires
            old(self).wf(),
            1 <= spec_level(precedence) <= 10,
        ensures
            final(self).follows(old(self)),
            final(self).roomy() ==> keeps(final(self).code(), old(self).code()),
            !old(self).at_eof() ==> final(self).progress() < old(self).progress(),
            spec_level(precedence) >= 2 && !final(self).spec_panic_mode() ==> spec_level(
                parse_rule_spec(final(self).spec_current_kind()).precedence,
            ) < spec_level(precedence),
            old(self).spec_current_kind() == TokenType::Number ==> (old(self).upcoming_kind() matches Some(
                k,
            ) ==> (spec_level(parse_rule_spec(k).precedence) < spec_level(precedence) && !(
            spec_level(precedence) <= 1 && k == TokenType::Equal) ==> {
                &&& final(self).spec_current_kind() == k
                &&& old(self).constants().len() < 0xFFFF_FFFF && old(self).code().len() + 5
                    <= MAX_CODE_BYTES ==> final(self).code() == old(self).code() + seq![
                    opcode_byte(OpCode::Constant),
                ] + le_bytes_u32(old(self).constants().len() as u32)
            })),
        decreases old(self).progress(), 1nat,
    {
        let ghost next = old(self).upcoming_kind();
        self.advance();
        let ghost advanced = *self;
        let previous_kind = self.previous_kind();
        let prefix_rule = get_rule(previous_kind).prefix;
        let can_assign = precedence.level() <= 1;
        proof {
            if old(self).spec_current_kind() == TokenType::Number && next is Some {
                assert(advanced.spec_current_kind() == next->0);
                assert(advanced.spec_previous_kind() == TokenType::Number);
                assert(prefix_rule == Some(ParseFn::Number));
            }
        }
        match prefix_rule {
            Some(prefix) => self.dispatch(prefix, can_assign),
            None => {
                self.error("Expected an expression.");
                return;
            },
        }
        let ghost after_prefix = *self;
        // A number followed by an operator that binds less tightly is the whole expression.
        let ghost lone = old(self).spec_current_kind() == TokenType::Number && (next matches Some(
            k,
        ) && spec_level(parse_rule_spec(k).precedence) < spec_level(precedence) && !(spec_level(
            precedence,
        ) <= 1 && k == TokenType::Equal));
        proof {
            if lone {
                assert(self.number_done(&advanced));
                assert(self.scanner == advanced.scanner);
                assert(self.spec_current_kind() == next->0);
            }
        }
        loop
            invariant
                self.follows(old(self)),
                self.roomy() ==> keeps(self.code(), old(self).code()),
                1 <= spec_level(precedence) <= 10,
                !old(self).at_eof() ==> self.progress() < old(self).progress(),
                lone ==> *self == after_prefix,
                lone ==> (next matches Some(k) && after_prefix.spec_current_kind() == k
                    && spec_level(parse_rule_spec(k).precedence) < spec_level(precedence)),
            ensures
                self.follows(old(self)),
                self.roomy() ==> keeps(self.code(), old(self).code()),
                !old(self).at_eof() ==> self.progress() < old(self).progress(),
                lone ==> *self == after_prefix,
                !self.spec_panic_mode() ==> spec_level(
                    parse_rule_spec(self.spec_current_kind()).precedence,
                ) < spec_level(precedence),
            decreases self.progress(),
        {
            let current_rule = get_rule(self.current_kind());
            if precedence.level() > current_rule.precedence.level() {
                break;
            }
            self.advance();
            let previous_kind = self.previous_kind();
            match get_rule(previous_kind).infix {
                Some(infix) => self.dispatch(infix, can_assign),
                None => {
                    // A token that binds as an operator but has no infix rule.
                    self.error("Expected an operator.");
                    break;
                },
            }
        }
        if can_assign && self.match_and_advance(TokenType::Equal) {
            self.error("Invalid assignment target.");
        }
    }

    /// Runs the parsing routine `f` for the token just read.
    fn dispatch(&mut self, f: ParseFn, can_assign: bool)
        requires
            old(self).wf(),
            parse_rule_spec(old(self).spec_previous_kind()).prefix == Some(f)
                || parse_rule_spec(old(self).spec_previous_kind()).infix == Some(f),
        ensures
            final(self).follows(old(self)),
            final(self).roomy() ==> keeps(final(self).code(), old(self).code()),
            match f {
                ParseFn::Grouping => final(self).grouping_done(old(self)),
                ParseFn::Call => final(self).call_done(old(self)),
                ParseFn::Unary => final(self).unary_done(old(self)),
                ParseFn::Binary => final(self).binary_done(old(self)),
                ParseFn::Variable => final(self).variable_done(old(self), can_assign),
                ParseFn::String => final(self).string_done(old(self)),
                ParseFn::Number => final(self).number_done(old(self)),
                ParseFn::Literal => final(self).literal_done(old(self)),
                ParseFn::And => final(self).short_circuit_done(old(self), OpCode::JumpIfFalse),
                ParseFn::Or => final(self).short_circuit_done(old(self), OpCode::JumpIfTrue),
            },
        decreases old(self).progress(), 5nat,
    {
        match f {
            ParseFn::Grouping => self.grouping(can_assign),
            ParseFn::Call => self.call(can_assign),
            ParseFn::Unary => self.unary(can_assign),
            ParseFn::Binary => self.binary(can_assign),
            ParseFn::Variable => self.variable(can_assign),
            ParseFn::String => self.string(can_assign),
            ParseFn::Number => self.number(can_assign),
            ParseFn::Literal => self.literal(can_assign),
            ParseFn::And => self.and(can_assign),
            ParseFn::Or => self.or(can_assign),
        }
    }

    fn string(&mut self, _can_assign: bool)
        requires
            old(self).wf(),
            old(self).spec_previous_kind() == TokenType::String,
        ensures
            final(self).follows(old(self)),
            final(self).roomy() ==> keeps(final(self).code(), old(self).code()),
            final(self).string_done(old(self)),
    {
        let token = match self.get_previous_token() {
            Some(token) => token,
            None => {
                return;
            },
        };
        let lexeme = token.lexeme.get_str(self.current_source);
        // Leave out the quotes.
        let text = vstd::slice::slice_subrange(lexeme, 1, lexeme.len() - 1);
        let value = Value::Object(Object::String(vstd::slice::slice_to_vec(text)));
        self.emit_constant_with_op(value, token.line);
    }

    fn literal(&mut self, _can_assign: bool)
        requires
            old(self).wf(),
            parse_rule_spec(old(self).spec_previous_kind()).prefix == Some(ParseFn::Literal),
        ensures
            final(self).follows(old(self)),
            final(self).roomy() ==> keeps(final(self).code(), old(self).code()),
            final(self).literal_done(old(self)),
    {
        let operator_type = self.previous_kind();
        let token_line = self.get_current_line();
        let op = if operator_type == TokenType::False {
            OpCode::False
        } else if operator_type == TokenType::True {
            OpCode::True
        } else {
            OpCode::NoneValue
        };
        self.emit_op(op, token_line);
    }

    fn unary(&mut self, _can_assign: bool)
        requires
            old(self).wf(),
        ensures
            final(self).follows(old(self)),
            final(self).roomy() ==> keeps(final(self).code(), old(self).code()),
            final(self).unary_done(old(self)),
            !final(self).spec_panic_mode() ==> spec_level(
                parse_rule_spec(final(self).spec_current_kind()).precedence,
            ) < spec_level(Precedence::Unary),
        decreases old(self).progress(), 3nat,
    {
        let operator_type = self.previous_kind();
        let token_line = self.get_current_line();
        self.parse_precedence(Precedence::Unary);
        let op = if operator_type == TokenType::Not {
            OpCode::Not
        } else if operator_type == TokenType::Minus {
            OpCode::Negate
        } else {
            return;
        };
        self.emit_op(op, token_line);
    }

    fn binary(&mut self, _can_assign: bool)
        requires
            old(self).wf(),
            parse_rule_spec(old(self).spec_previous_kind()).infix == Some(ParseFn::Binary),
        ensures
            final(self).follows(old(self)),
            final(self).roomy() ==> keeps(final(self).code(), old(self).code()),
            final(self).binary_done(old(self)),
            !final(self).spec_panic_mode() ==> spec_level(
                parse_rule_spec(final(self).spec_current_kind()).precedence,
            ) <= spec_level(parse_rule_spec(old(self).spec_previous_kind()).precedence),
            old(self).spec_current_kind() == TokenType::Number ==> (old(self).upcoming_kind() matches Some(
                k,
            ) ==> (spec_level(parse_rule_spec(k).precedence) <= spec_level(
                parse_rule_spec(old(self).spec_previous_kind()).precedence,
            ) && old(self).constants().len() < 0xFFFF_FFFF && final(self).roomy() ==> {
                &&& final(self).spec_current_kind() == k
                &&& final(self).code() == old(self).code() + seq![opcode_byte(OpCode::Constant)]
                    + le_bytes_u32(old(self).constants().len() as u32) + seq![
                    opcode_byte(binary_op(old(self).spec_previous_kind())),
                ]
            })),
        decreases old(self).progress(), 3nat,
    {
        let next_token_type = self.current_kind();
        let operator_type = self.previous_kind();
        let token_line = self.get_current_line();
        let parse_rule = get_rule(operator_type);
        self.parse_precedence(parse_rule.precedence.add(1));
        let op = if operator_type == TokenType::Is {
            if next_token_type == TokenType::Not {
                self.replace_last_op(OpCode::IsNot);
                return;
            }
            OpCode::Is
        } else if operator_type == TokenType::Greater {
            OpCode::Greater
        } else if operator_type == TokenType::GreaterEqual {
            OpCode::GreaterEqual
        } else if operator_type == TokenType::Less {
            OpCode::Less
        } else if operator_type == TokenType::LessEqual {
            OpCode::LessEqual
        } else if operator_type == TokenType::Plus {
            OpCode::Add
        } else if operator_type == TokenType::Minus {
            OpCode::Subtract
        } else if operator_type == TokenType::Star {
            OpCode::Multiply
        } else {
            OpCode::Divide
        };
        self.emit_op(op, token_line);
    }

    fn grouping(&mut self, _can_assign: bool)
        requires
            old(self).wf(),
        ensures
            final(self).follows(old(self)),
            final(self).roomy() ==> keeps(final(self).code(), old(self).code()),
            final(self).grouping_done(old(self)),
        decreases old(self).progress(), 3nat,
    {
        self.expression();
        self.consume(TokenType::RightParen, "Expected ')' after grouping expression.");
    }

    fn number(&mut self, _can_assign: bool)
        requires
            old(self).wf(),
            old(self).spec_previous_kind() == TokenType::Number,
        ensures
            final(self).follows(old(self)),
            final(self).roomy() ==> keeps(final(self).code(), old(self).code()),
            final(self).number_done(old(self)),
    {
        let token = match self.get_previous_token() {
            Some(token) => token,
            None => {
                return;
            },
        };
        let lexeme = token.lexeme.get_str(self.current_source);
        let value = Value::Number(vstd::slice::slice_to_vec(lexeme));
        self.emit_constant_with_op(value, token.line);
    }

    fn expression(&mut self)
        requires
            old(self).wf(),
        ensures
            final(self).follows(old(self)),
            final(self).roomy() ==> keeps(final(self).code(), old(self).code()),
            !old(self).at_eof() ==> final(self).progress() < old(self).progress(),
        decreases old(self).progress(), 2nat,
    {
        self.parse_precedence(Precedence::Assignment);
    }

    /// Skips tokens after an error until a statement is likely to start.
    fn synchronize(&mut self)
        requires
            old(self).wf(),
        ensures
            final(self).follows(old(self)),
            final(self).code() == old(self).code(),
            final(self).constants() == old(self).constants(),
            final(self).same_scopes(old(self)),
            final(self).scanner.current() matches Some(t) && t.token_type == TokenType::EOF
                || final(self).spec_previous_kind() == TokenType::Semicolon || starts_statement(
                final(self).spec_current_kind(),
            ),
            final(self).diagnostics@.len() == old(self).diagnostics@.len()
                ==> !final(self).spec_panic_mode(),
    {
        self.current.panic_mode = false;
        while !self.is_current_token(TokenType::EOF)
            invariant
                self.follows(old(self)),
                self.code() == old(self).code(),
                self.constants() == old(self).constants(),
                self.same_scopes(old(self)),
                self.diagnostics@.len() >= old(self).diagnostics@.len(),
                self.diagnostics@.len() == old(self).diagnostics@.len() ==> !self.current.panic_mode,
            decreases self.progress(),
        {
            if self.is_previous_token(TokenType::Semicolon) {
                return;
            }
            match self.get_current_token() {
                Some(t) => {
                    if t.token_type == TokenType::Class || t.token_type == TokenType::Fn
                        || t.token_type == TokenType::Let || t.token_type == TokenType::For
                        || t.token_type == TokenType::If || t.token_type == TokenType::While
                        || t.token_type == TokenType::Return {
                        return;
                    }
                },
                None => {},
            }
            self.advance();
        }
    }

    fn expression_statement(&mut self)
        requires
            old(self).wf(),
        ensures
            final(self).follows(old(self)),
            !old(self).at_eof() ==> final(self).progress() < old(self).progress(),
            final(self).roomy() ==> final(self).ends_with_op(old(self), OpCode::Pop),
        decreases old(self).progress(), 3nat,
    {
        // The expression leaves a value on the stack, which the statement discards.
        self.expression();
        let line = self.get_current_line();
        self.emit_op(OpCode::Pop, line);
    }

    fn block(&mut self)
        requires
            old(self).wf(),
        ensures
            final(self).follows(old(self)),
            final(self).closed_with(TokenType::RightBrace),
            final(self).read_on(old(self)),
        decreases old(self).progress(), 8nat,
    {
        while !self.is_current_token(TokenType::RightBrace) && !self.is_current_token(
            TokenType::EOF,
        )
            invariant
                self.follows(old(self)),
                self.read_on(old(self)) || self.scanner == old(self).scanner,
            decreases self.progress(),
        {
            self.declaration();
        }
        self.consume(TokenType::RightBrace, "Expected '}' after block.");
    }

    fn and(&mut self, _can_assign: bool)
        requires
            old(self).wf(),
        ensures
            final(self).follows(old(self)),
            final(self).roomy() ==> keeps(final(self).code(), old(self).code()),
            final(self).short_circuit_done(old(self), OpCode::JumpIfFalse),
            !final(self).spec_panic_mode() ==> spec_level(
                parse_rule_spec(final(self).spec_current_kind()).precedence,
            ) < spec_level(Precedence::And),
            old(self).spec_current_kind() == TokenType::Number ==> (old(self).upcoming_kind() matches Some(
                k,
            ) ==> (spec_level(parse_rule_spec(k).precedence) < spec_level(Precedence::And)
                ==> final(self).spec_current_kind() == k)),
        decreases old(self).progress(), 3nat,
    {
        let end_jump = self.emit_jump_backpatch(OpCode::JumpIfFalse);
        let ghost c1 = self.code();
        let line = self.get_current_line();
        self.emit_op(OpCode::Pop, line);
        let ghost c2 = self.code();
        self.parse_precedence(Precedence::And);
        let ghost c3 = self.code();
        self.patch_jump(end_jump.get_argument_index());
        proof {
            if self.roomy() {
                assert(keeps(c1, old(self).code()));
                assert(keeps(c2, old(self).code()));
                assert(keeps(c3, old(self).code()));
            }
        }
    }

    fn or(&mut self, _can_assign: bool)
        requires
            old(self).wf(),
        ensures
            final(self).follows(old(self)),
            final(self).roomy() ==> keeps(final(self).code(), old(self).code()),
            final(self).short_circuit_done(old(self), OpCode::JumpIfTrue),
            !final(self).spec_panic_mode() ==> spec_level(
                parse_rule_spec(final(self).spec_current_kind()).precedence,
            ) < spec_level(Precedence::Or),
            old(self).spec_current_kind() == TokenType::Number ==> (old(self).upcoming_kind() matches Some(
                k,
            ) ==> (spec_level(parse_rule_spec(k).precedence) < spec_level(Precedence::Or)
                ==> final(self).spec_current_kind() == k)),
        decreases old(self).progress(), 3nat,
    {
        let end_jump = self.emit_jump_backpatch(OpCode::JumpIfTrue);
        let ghost c1 = self.code();
        let line = self.get_current_line();
        self.emit_op(OpCode::Pop, line);
        let ghost c2 = self.code();
        self.parse_precedence(Precedence::Or);
        let ghost c3 = self.code();
        self.patch_jump(end_jump.get_argument_index());
        proof {
            if self.roomy() {
                assert(keeps(c1, old(self).code()));
                assert(keeps(c2, old(self).code()));
                assert(keeps(c3, old(self).code()));
            }
        }
    }

    fn if_statement(&mut self)
        requires
            old(self).wf(),
        ensures
            final(self).follows(old(self)),
            final(self).read_on(old(self)),
            final(self).roomy() ==> exists|at: int|
                old(self).code().len() <= at && #[trigger] jump_lands_at_end(final(self).code(), at),
        decreases old(self).progress(), 9nat,
    {
        self.expression();
        if !self.is_current_token(TokenType::LeftBrace) {
            self.error("Missing '{' after if statement.");
        }
        let then_jump = self.emit_jump_backpatch(OpCode::JumpIfFalse);
        let line = self.get_current_line();
        self.emit_op(OpCode::Pop, line);
        self.statement();
        let else_jump = self.emit_jump_backpatch(OpCode::Jump);
        self.patch_jump(then_jump.get_argument_index());
        let line = self.get_current_line();
        self.emit_op(OpCode::Pop, line);
        if self.match_and_advance(TokenType::Else) {
            if !self.is_current_token(TokenType::LeftBrace) {
                self.error("Missing '{' after else statement.");
            }
            self.statement();
        }
        self.patch_jump(else_jump.get_argument_index());
        proof {
            if self.roomy() {
                assert(jump_lands_at_end(self.code(), else_jump.instruction_index as int));
            }
        }
    }

    #[verifier::rlimit(40)]
    #[verifier::spinoff_prover]
    fn while_statement(&mut self)
        requires
            old(self).wf(),
        ensures
            final(self).follows(old(self)),
            final(self).read_on(old(self)),
            final(self).current.enclosing_loop is None,
            final(self).roomy() ==> exists|exit: int, back: int|
                old(self).code().len() <= exit && exit + 3 <= back && #[trigger] jump_lands_at(
                    final(self).code(),
                    exit,
                    back + 3,
                ) && #[trigger] backjump_at(
                    final(self).code(),
                    back,
                    old(self).code().len() as u32,
                ),
        decreases old(self).progress(), 9nat,
    {
        let loop_start = self.get_instruction_count() as u32;
        self.expression();
        if !self.match_and_advance(TokenType::LeftBrace) {
            self.error("Missing '{' after while statement.");
        }
        let exit_jump = self.emit_jump_backpatch(OpCode::JumpIfFalse);
        let line = self.get_current_line();
        self.emit_op(OpCode::Pop, line);
        self.current.enclosing_loop = Some(
            EnclosingLoop {
                start_jump_index: loop_start,
                exit_jump_index: exit_jump.instruction_index,
            },
        );
        self.begin_scope();
        self.block();
        let ghost before_back = self.code();
        self.emit_backjump(loop_start);
        let ghost back = before_back.len() as int;
        let ghost c1 = self.code();
        self.patch_jump(exit_jump.get_argument_index());
        let ghost c2 = self.code();
        let line = self.get_current_line();
        self.emit_op(OpCode::Pop, line);
        let ghost c3 = self.code();
        self.end_scope();
        self.current.enclosing_loop = None;
        proof {
            if self.roomy() {
                assert(c3.subrange(0, c2.len() as int) =~= c2);
                assert(self.code().subrange(0, c3.len() as int) =~= c3);
                lemma_loop_tail(
                    c1,
                    c2,
                    c3,
                    self.code(),
                    exit_jump.instruction_index as int,
                    back,
                    loop_start,
                );
            }
        }
    }

    #[verifier::rlimit(80)]
    #[verifier::spinoff_prover]
    fn for_statement(&mut self)
        requires
            old(self).wf(),
        ensures
            final(self).follows(old(self)),
            final(self).read_on(old(self)),
            final(self).current.enclosing_loop is None,
            final(self).roomy() ==> exists|exit: int, back: int, to: u32|
                old(self).code().len() <= exit && exit + 3 <= back && #[trigger] jump_lands_at(
                    final(self).code(),
                    exit,
                    back + 3,
                ) && #[trigger] backjump_at(final(self).code(), back, to) && (to == exit + 7 || (
                old(self).code().len() <= to <= exit)),
        decreases old(self).progress(), 9nat,
    {
        self.begin_scope();
        if self.match_and_advance(TokenType::Let) {
            self.variable_declaration();
            self.consume(TokenType::Comma, "Expected ',' after for variable declaration.");
        } else {
            self.error("Expected variable declaration in for loop.");
        }
        let mut loop_start = self.get_instruction_count();
        let ghost condition_start = loop_start;
        self.expression();
        self.consume(TokenType::Comma, "Expected ','.");
        let ghost pre_exit = self.code().len();
        let exit_jump = self.emit_jump_backpatch(OpCode::JumpIfFalse);
        let line = self.get_current_line();
        let ghost pre_pop = self.code().len();
        self.emit_op(OpCode::Pop, line);
        let ghost post_pop = self.code().len();
        let ghost mut has_increment = false;
        proof {
            assert(condition_start <= pre_exit);
            assert(pre_exit + 4 <= MAX_CODE_BYTES ==> exit_jump.instruction_index == pre_exit
                && post_pop == pre_exit + 4);
        }
        if !self.match_and_advance(TokenType::LeftBrace) {
            let ghost pre_body = self.code().len();
            let body_jump = self.emit_jump_backpatch(OpCode::Jump);
            let increment_start = self.get_instruction_count();
            proof {
                has_increment = true;
                assert(pre_body == post_pop);
                assert(post_pop + 3 <= MAX_CODE_BYTES ==> increment_start == post_pop + 3);
            }
            self.expression();
            let line = self.get_current_line();
            self.emit_op(OpCode::Pop, line);
            self.emit_backjump(loop_start as u32);
            loop_start = increment_start;
            self.patch_jump(body_jump.get_argument_index());
        } else {
            self.error("Expected increment expression after conditional in for loop.");
        }
        if !self.match_and_advance(TokenType::LeftBrace) {
            self.error("Expected '{' after for clauses.");
        }
        self.current.enclosing_loop = Some(
            EnclosingLoop {
                start_jump_index: loop_start as u32,
                exit_jump_index: exit_jump.instruction_index,
            },
        );
        self.begin_scope();
        self.block();
        self.end_scope();
        let ghost before_back = self.code();
        self.emit_backjump(loop_start as u32);
        let ghost back = before_back.len() as int;
        let ghost c1 = self.code();
        self.patch_jump(exit_jump.get_argument_index());
        let ghost c2 = self.code();
        let line = self.get_current_line();
        self.emit_op(OpCode::Pop, line);
        let ghost c3 = self.code();
        self.end_scope();
        self.current.enclosing_loop = None;
        proof {
            if self.roomy() {
                assert(c3.subrange(0, c2.len() as int) =~= c2);
                assert(self.code().subrange(0, c3.len() as int) =~= c3);
                lemma_loop_tail(
                    c1,
                    c2,
                    c3,
                    self.code(),
                    exit_jump.instruction_index as int,
                    back,
                    loop_start as u32,
                );
                assert(pre_exit + 4 <= MAX_CODE_BYTES);
                if has_increment {
                    assert(post_pop + 3 <= MAX_CODE_BYTES);
                    assert(loop_start as u32 == exit_jump.instruction_index + 7);
                } else {
                    assert(loop_start == condition_start);
                }
            }
        }
    }

    fn return_statement(&mut self)
        requires
            old(self).wf(),
        ensures
            final(self).follows(old(self)),
            final(self).roomy() ==> final(self).ends_with_op(old(self), OpCode::Return),
        decreases old(self).progress(), 3nat,
    {
        if self.current.function_type == FunctionType::Script {
            self.error("Cannot use 'return' in top-level code.");
        }
        if self.is_current_token(TokenType::RightBrace) {
            self.emit_empty_return();
        } else {
            self.expression();
            if !self.is_current_token(TokenType::RightBrace) {
                self.error(
                    "Expected '}' after return expression.\n The return statement must be the last statement in a block.",
                );
            }
            let line = self.get_current_line();
            self.emit_op(OpCode::Return, line);
        }
    }

    fn statement(&mut self)
        requires
            old(self).wf(),
        ensures
            final(self).follows(old(self)),
            !old(self).at_eof() ==> final(self).progress() < old(self).progress(),
            final(self).statement_done(old(self)),
        decreases old(self).progress(), 6nat,
    {
        if self.match_and_advance(TokenType::If) {
            self.if_statement();
        } else if self.match_and_advance(TokenType::LeftBrace) {
            self.begin_scope();
            self.block();
            self.end_scope();
        } else if self.match_and_advance(TokenType::For) {
            self.for_statement();
        } else if self.match_and_advance(TokenType::While) {
            self.while_statement();
        } else if self.match_and_advance(TokenType::Continue) {
            self.continue_statement();
        } else if self.match_and_advance(TokenType::Return) {
            self.return_statement();
        } else if self.match_and_advance(TokenType::Break) {
            self.break_statement();
        } else {
            self.expression_statement();
        }
    }

    /// Resolves the variable named by `name_token` from the function being compiled: one of
    /// its locals, a variable captured from an enclosing function, or else a global whose name
    /// is added as a constant. Returns the slot, upvalue index or constant index, and the kind.
    fn resolve_variable(&mut self, name_token: &Token) -> (r: (u32, VariableType))
        requires
            old(self).wf(),
            token_fits(*name_token, old(self).source()),
        ensures
            final(self).follows(old(self)),
            final(self).scanner == old(self).scanner,
            final(self).code() == old(self).code(),
            ({
                let name = old(self).source().subrange(
                    name_token.lexeme.start() as int,
                    name_token.lexeme.end() as int,
                );
                let (slot, kind) = r;
                let locals = old(self).current.locals@;
                &&& kind == old(self).resolved_kind(name)
                &&& kind is Local ==> {
                    &&& slot < locals.len()
                    &&& is_first_named(locals, name, old(self).source(), slot as int)
                    &&& final(self).constants() == old(self).constants()
                }
                &&& kind is Upvalue ==> old(self).resolved_upvalue(
                    old(self).enclosing@.len() as int,
                    name,
                ) == Some(slot as u16) && slot < 0x10000 && final(self).constants() == old(
                    self,
                ).constants()
                &&& kind is Global ==> {
                    &&& slot == old(self).constants().len() as u32
                    &&& final(self).constants().len() == old(self).constants().len() + 1
                    &&& final(self).constants().last() matches Value::Object(Object::String(text))
                    &&& text@ == name
                }
            }),
    {
        let top = self.enclosing.len();
        let ghost before = *self;
        let ghost name = before.source().subrange(
            name_token.lexeme.start() as int,
            name_token.lexeme.end() as int,
        );
        let r = match self.resolve_local_in(top, name_token) {
            Some(slot) => (slot as u32, VariableType::Local),
            None => match self.resolve_upvalue(top, name_token) {
                Some(upvalue) => (upvalue as u32, VariableType::Upvalue),
                None => {
                    let slot = self.identifier_constant(name_token);
                    (slot, VariableType::Global)
                },
            },
        };
        proof {
            assert(self.enclosing_chunks_kept(&before)) by {
                assert forall|i: int| 0 <= i < before.enclosing@.len() implies (
                #[trigger] self.enclosing@[i]).function.chunk == before.enclosing@[i].function.chunk
                    && self.enclosing@[i].function.name == before.enclosing@[i].function.name
                    && self.enclosing@[i].function.arity == before.enclosing@[i].function.arity
                    && self.enclosing@[i].function_type == before.enclosing@[i].function_type by {
                    assert(self.state(i) == self.enclosing@[i]);
                    assert(before.state(i) == before.enclosing@[i]);
                }
            }
            if exists|j: int|
                0 <= j < before.current.locals@.len() && local_named(
                    #[trigger] before.current.locals@[j],
                    name,
                    before.source(),
                ) {
                assert(r.1 is Local);
            }
        }
        r
    }

    /// Compiles a use of the variable named by `name_token`: a read, or with `can_assign` an
    /// assignment (`=`, `+=`, `-=`). Returns the variable's slot or constant index.
    #[verifier::rlimit(40)]
    #[verifier::spinoff_prover]
    fn named_variable(&mut self, name_token: &Token, can_assign: bool) -> (slot: u32)
        requires
            old(self).wf(),
            token_fits(*name_token, old(self).source()),
        ensures
            final(self).follows(old(self)),
            final(self).roomy() ==> keeps(final(self).code(), old(self).code()),
            ({
                let reading = access_reads(can_assign, old(self).spec_current_kind());
                let name = old(self).source().subrange(
                    name_token.lexeme.start() as int,
                    name_token.lexeme.end() as int,
                );
                let locals = old(self).current.locals@;
                &&& final(self).roomy() ==> ends_with_access(final(self).code(), slot, reading)
                &&& (exists|j: int|
                    0 <= j < locals.len() && local_named(
                        #[trigger] locals[j],
                        name,
                        old(self).source(),
                    )) ==> {
                    &&& slot < locals.len()
                    &&& local_named(locals[slot as int], name, old(self).source())
                    &&& forall|j: int|
                        0 <= j < slot ==> !local_named(#[trigger] locals[j], name, old(self).source())
                }
                &&& final(self).roomy() ==> ends_with(
                    final(self).code(),
                    compound_prefix(can_assign, old(self).spec_current_kind()) + access_bytes(
                        old(self).resolved_kind(name),
                        slot,
                        reading,
                    ),
                )
                &&& reading && final(self).roomy() ==> final(self).code() == old(self).code()
                    + access_bytes(old(self).resolved_kind(name), slot, true)
                &&& can_assign && (old(self).spec_current_kind() == TokenType::PlusEqual || old(
                    self,
                ).spec_current_kind() == TokenType::MinusEqual) && (old(self).upcoming_kind() matches Some(
                    k,
                ) && !is_assign_kind(k)) && final(self).roomy() ==> {
                    &&& final(self).code().len() > old(self).code().len()
                    &&& is_read_opcode(final(self).code()[old(self).code().len() as int])
                }
                &&& old(self).resolved_kind(name) is Global ==> slot == old(
                    self,
                ).constants().len() as u32
                &&& old(self).resolved_kind(name) is Upvalue ==> old(self).resolved_upvalue(
                    old(self).enclosing@.len() as int,
                    name,
                ) == Some(slot as u16) && slot < 0x10000
                &&& old(self).resolved_kind(name) is Global && reading ==> {
                    &&& final(self).constants().len() == old(self).constants().len() + 1
                    &&& final(self).constants().last() matches Value::Object(Object::String(text))
                    &&& text@ == name
                }
            }),
        decreases old(self).progress(), 3nat,
    {
        let ghost before = *self;
        let (slot, var_type) = self.resolve_variable(name_token);
        let (get_op, set_op) = match var_type {
            VariableType::Local => (OpCode::GetLocal, OpCode::SetLocal),
            VariableType::Upvalue => (OpCode::GetUpvalue, OpCode::SetUpvalue),
            VariableType::Global => (OpCode::GetGlobal, OpCode::SetGlobal),
        };
        let ghost reading = !(can_assign && is_assign_kind(before.spec_current_kind()));
        proof {
            assert(self.scanner == before.scanner);
        }
        let ghost after_resolution = *self;
        let ghost mut tail_op: Seq<u8> = Seq::empty();
        let op = if can_assign && self.match_and_advance(TokenType::Equal) {
            self.expression();
            proof {
                assert(self.code().subrange(self.code().len() as int, self.code().len() as int)
                    =~= tail_op);
            }
            set_op
        } else if can_assign && self.match_and_advance(TokenType::PlusEqual) {
            self.named_variable(name_token, can_assign);
            self.expression();
            let ghost c0 = self.code();
            self.emit_op(OpCode::Add, name_token.line);
            proof {
                tail_op = seq![opcode_byte(OpCode::Add)];
                if c0.len() + 1 <= MAX_CODE_BYTES {
                    assert(self.code().subrange(self.code().len() - 1, self.code().len() as int)
                        =~= tail_op);
                }
                assert(self.code().len() + 1 > MAX_CODE_BYTES || ends_with(self.code(), tail_op));
            }
            set_op
        } else if can_assign && self.match_and_advance(TokenType::MinusEqual) {
            self.named_variable(name_token, can_assign);
            self.expression();
            let ghost c0 = self.code();
            self.emit_op(OpCode::Subtract, name_token.line);
            proof {
                tail_op = seq![opcode_byte(OpCode::Subtract)];
                if c0.len() + 1 <= MAX_CODE_BYTES {
                    assert(self.code().subrange(self.code().len() - 1, self.code().len() as int)
                        =~= tail_op);
                }
                assert(self.code().len() + 1 > MAX_CODE_BYTES || ends_with(self.code(), tail_op));
            }
            set_op
        } else {
            proof {
                assert(self.code().subrange(self.code().len() as int, self.code().len() as int)
                    =~= tail_op);
            }
            get_op
        };
        assert(tail_op == compound_prefix(can_assign, before.spec_current_kind()));
        assert(reading ==> self.constants() == after_resolution.constants());
        assert(self.code().len() + 1 > MAX_CODE_BYTES || ends_with(self.code(), tail_op));
        let ghost mid = self.code();
        assert(reading ==> mid == before.code());
        assert(op == if reading {
            get_op
        } else {
            set_op
        });
        match var_type {
            VariableType::Upvalue => {
                self.emit_op_with_double(op, slot as u16, name_token.line);
                proof {
                    if self.roomy() {
                        assert(self.code().subrange(
                            self.code().len() - 3,
                            self.code().len() as int,
                        ) =~= seq![opcode_byte(op)] + le_bytes_u16(slot as u16));
                        assert(self.code() == mid + access_bytes(var_type, slot, reading));
                        lemma_ends_with_append(mid, tail_op, access_bytes(var_type, slot, reading));
                    }
                }
            },
            VariableType::Local => {
                self.emit_op_with_double(op, slot as u16, name_token.line);
                proof {
                    if self.roomy() {
                        assert(self.code().subrange(
                            self.code().len() - 3,
                            self.code().len() as int,
                        ) =~= seq![opcode_byte(op)] + le_bytes_u16(slot as u16));
                        assert(self.code() == mid + access_bytes(var_type, slot, reading));
                        lemma_ends_with_append(mid, tail_op, access_bytes(var_type, slot, reading));
                    }
                }
            },
            VariableType::Global => {
                self.emit_op_with_quad(op, slot, name_token.line);
                proof {
                    if self.roomy() {
                        assert(self.code().subrange(
                            self.code().len() - 5,
                            self.code().len() as int,
                        ) =~= seq![opcode_byte(op)] + le_bytes_u32(slot));
                        assert(self.code() == mid + access_bytes(var_type, slot, reading));
                        lemma_ends_with_append(mid, tail_op, access_bytes(var_type, slot, reading));
                    }
                }
            },
        }
        slot
    }

    fn variable(&mut self, can_assign: bool)
        requires
            old(self).wf(),
        ensures
            final(self).follows(old(self)),
            final(self).roomy() ==> keeps(final(self).code(), old(self).code()),
            final(self).variable_done(old(self), can_assign),
        decreases old(self).progress(), 4nat,
    {
        match self.get_previous_token() {
            Some(name_token) => {
                let slot = self.named_variable(&name_token, can_assign);
                proof {
                    if self.roomy() {
                        assert(ends_with_access(
                            self.code(),
                            slot,
                            access_reads(can_assign, old(self).spec_current_kind()),
                        ));
                    }
                }
            },
            None => {},
        }
    }

    fn variable_declaration(&mut self)
        requires
            old(self).wf(),
        ensures
            final(self).follows(old(self)),
            final(self).defined_variable(),
        decreases old(self).progress(), 3nat,
    {
        let slot = self.parse_variable("Expected variable name.");
        if self.match_and_advance(TokenType::Equal) {
            self.expression();
        } else {
            let line = self.get_current_line();
            self.emit_op(OpCode::NoneValue, line);
        }
        self.define_variable(slot);
        proof {
            if self.current.scope_depth < 1 && self.roomy() {
                assert(self.code()[self.code().len() - 5] == opcode_byte(OpCode::DefineGlobal));
            }
        }
    }

    /// Compiles the arguments of a call and returns how many there were.
    fn argument_list(&mut self) -> (arg_count: u8)
        requires
            old(self).wf(),
        ensures
            final(self).follows(old(self)),
            final(self).roomy() ==> keeps(final(self).code(), old(self).code()),
            final(self).arguments_done(old(self)),
            old(self).scanner.current() matches Some(t) && t.token_type == TokenType::RightParen
                ==> arg_count == 0,
        decreases old(self).progress(), 3nat,
    {
        let mut arg_count: u8 = 0;
        let ghost mut read_one = false;
        if !self.is_current_token(TokenType::RightParen) {
            loop
                invariant
                    self.follows(old(self)),
                    self.roomy() ==> keeps(self.code(), old(self).code()),
                    read_one ==> self.read_on(old(self)),
                    !read_one ==> self.progress() == old(self).progress() && self.scanner
                        == old(self).scanner,
                ensures
                    self.follows(old(self)),
                    self.roomy() ==> keeps(self.code(), old(self).code()),
                    self.read_on(old(self)),
                decreases self.progress(),
            {
                self.expression();
                proof {
                    read_one = true;
                }
                if arg_count >= MAX_FUNCTION_ARITY {
                    self.error("Function cannot have more than 255 arguments.");
                }
                arg_count = arg_count.wrapping_add(1);
                if self.is_current_token(TokenType::RightParen) {
                    break;
                } else if self.match_and_advance(TokenType::Comma) {
                    continue;
                } else {
                    self.error("Expected ',' or ')' after function argument.");
                    break;
                }
            }
        }
        self.consume(TokenType::RightParen, "Expected ')' after argument list.");
        arg_count
    }

    fn call(&mut self, _can_assign: bool)
        requires
            old(self).wf(),
        ensures
            final(self).follows(old(self)),
            final(self).roomy() ==> keeps(final(self).code(), old(self).code()),
            final(self).call_done(old(self)),
        decreases old(self).progress(), 4nat,
    {
        let arg_count = self.argument_list();
        let line = self.get_current_line();
        self.emit_op_with_byte(OpCode::Call, arg_count, line);
    }

    fn declaration(&mut self)
        requires
            old(self).wf(),
        ensures
            final(self).follows(old(self)),
            !old(self).at_eof() ==> final(self).progress() < old(self).progress(),
            final(self).declaration_done(old(self)),
        decreases old(self).progress(), 7nat,
    {
        if self.match_and_advance(TokenType::Let) {
            self.variable_declaration();
        } else if self.match_and_advance(TokenType::Fn) {
            self.fn_declaration();
        } else {
            self.statement();
        }
        let ghost compiled = *self;
        if self.is_panic_mode() {
            self.synchronize();
        }
        assert(self.declaration_done(old(self))) by {
            assert(compiled.declaration_done(old(self)));
        }
    }
    /// Compiles a function's parameters and body with a fresh function state, then adds the
    /// compiled function to the enclosing function's constants with the instruction that
    /// makes a closure of it.
    #[verifier::rlimit(80)]
    #[verifier::spinoff_prover]
    fn function(&mut self, function_type: FunctionType)
        requires
            old(self).wf(),
        ensures
            final(self).follows(old(self)),
            final(self).read_on(old(self)),
            old(self).errors_consistent() ==> final(self).closed_with(TokenType::RightBrace),
            final(self).constants().drop_last() == old(self).constants(),
            final(self).constants().len() == old(self).constants().len() + 1,
            final(self).constants().last() matches Value::Object(Object::Function(f)) && (
            function_type != FunctionType::Script && old(self).scanner.previous() is Some
                ==> (f.name matches Some(n) && n@ == old(self).previous_text())),
            final(self).constants().last() matches Value::Object(Object::Function(f)) && (
            f.chunk.code().len() + 16 <= MAX_CODE_BYTES ==> ends_with_implicit_return(
                f.chunk.code(),
            )),
            final(self).constants().last() matches Value::Object(Object::Function(f)) && (
            f.upvalues@.len() == f.upvalue_count && (final(self).roomy() ==> {
                &&& final(self).code().len() == old(self).code().len() + 3 + 3 * f.upvalue_count
                &&& forall|i: int|
                    0 <= i < f.upvalue_count ==> #[trigger] final(self).code().subrange(
                        old(self).code().len() + 3 + 3 * i,
                        old(self).code().len() + 6 + 3 * i,
                    ) == upvalue_operand(f.upvalues@[i])
            })),
            final(self).roomy() ==> {
                &&& final(self).code().len() >= old(self).code().len() + 3
                &&& final(self).code().subrange(
                    old(self).code().len() as int,
                    old(self).code().len() + 3int,
                ) == seq![opcode_byte(OpCode::Closure)] + le_bytes_u16(
                    (old(self).constants().len() as u32) as u16,
                )
            },
        decreases old(self).progress(), 10nat,
    {
        // The name of the function is the token just read.
        let name = if function_type != FunctionType::Script {
            match self.get_previous_token() {
                Some(token) => Some(
                    vstd::slice::slice_to_vec(token.lexeme.get_str(self.current_source)),
                ),
                None => None,
            }
        } else {
            None
        };
        let mut state = FunctionState::new(function_type, name);
        core::mem::swap(&mut self.current, &mut state);
        self.enclosing.push(state);
        let ghost inner_start = *self;
        assert(self.wf()) by {
            assert forall|i: int| 0 <= i < self.enclosing@.len() implies (
            #[trigger] self.enclosing@[i]).wf(self.current_source@) by {
                if i < old(self).enclosing@.len() {
                    assert(self.enclosing@[i] == old(self).enclosing@[i]);
                }
            }
        }
        proof {
            if old(self).errors_consistent() {
                let n = old(self).enclosing@.len() as int;
                assert(self.enclosing@[n] == old(self).current);
                assert forall|i: int|
                    0 <= i < self.enclosing@.len() && (#[trigger] self.enclosing@[i]).panic_mode implies self.enclosing@[i].had_error by {
                    if i < n {
                        assert(self.enclosing@[i] == old(self).enclosing@[i]);
                    }
                }
                if old(self).diagnostics@.len() > 0 {
                    if !old(self).current.had_error {
                        let w = choose|i: int|
                            0 <= i < old(self).enclosing@.len() && (#[trigger] old(
                                self,
                            ).enclosing@[i]).had_error;
                        assert(self.enclosing@[w] == old(self).enclosing@[w]);
                    }
                }
                if exists|i: int| 0 <= i < self.enclosing@.len() && (#[trigger] self.enclosing@[i]).had_error {
                    let w = choose|i: int|
                        0 <= i < self.enclosing@.len() && (#[trigger] self.enclosing@[i]).had_error;
                    if w < n {
                        assert(self.enclosing@[w] == old(self).enclosing@[w]);
                    }
                }
                assert(self.errors_consistent());
            }
        }
        let ghost before_body = *self;
        self.parameters_and_body();
        let ghost after_body = *self;
        assert(before_body.scanner == old(self).scanner);
        let ghost inner_end = *self;
        assert(inner_end.roomy() ==> ends_with_implicit_return(inner_end.code()));
        let mut compiled = match self.enclosing.pop() {
            Some(parent) => parent,
            None => {
                proof {
                    assert(false);
                }
                return;
            },
        };
        core::mem::swap(&mut self.current, &mut compiled);
        proof {
            assert(self.current == inner_end.enclosing@[old(self).enclosing@.len() as int]);
            assert(self.current.function.chunk == old(self).current.function.chunk);
            assert forall|i: int| 0 <= i < self.enclosing@.len() implies (
            #[trigger] self.enclosing@[i]).wf(self.current_source@) by {
                assert(self.enclosing@[i] == inner_end.enclosing@[i]);
            }
            assert forall|i: int| 0 <= i < old(self).enclosing@.len() implies (
            #[trigger] self.enclosing@[i]).function.chunk == old(self).enclosing@[i].function.chunk by {
                assert(self.enclosing@[i] == inner_end.enclosing@[i]);
            }
        }
        let ghost popped = *self;
        assert(compiled == inner_end.current);
        assert(compiled.wf(self.current_source@));
        let had_error = compiled.had_error;
        let upvalues = compiled.upvalues;
        let mut function = compiled.function;
        assert(upvalues@.len() == function.upvalue_count);
        let mut captured: Vec<Upvalue> = Vec::new();
        let mut k: usize = 0;
        while k < upvalues.count()
            invariant
                0 <= k <= upvalues@.len(),
                captured@ == upvalues@.subrange(0, k as int),
            decreases upvalues@.len() - k,
        {
            captured.push(upvalues.get_at(k));
            k = k + 1;
            assert(captured@ =~= upvalues@.subrange(0, k as int));
        }
        assert(upvalues@.subrange(0, upvalues@.len() as int) =~= upvalues@);
        function.upvalues = captured;
        if had_error {
            let mut message: Vec<u8> = Vec::new();
            push_bytes(&mut message, "Function ".as_bytes());
            match &function.name {
                Some(name) => push_bytes(&mut message, name.as_slice()),
                None => push_bytes(&mut message, "<unknown function>".as_bytes()),
            }
            push_bytes(&mut message, " had errors during compilation!".as_bytes());
            self.error_bytes(message.as_slice());
        }
        proof {
            if old(self).errors_consistent() {
                assert(inner_end.errors_consistent());
                assert(inner_end.closed_with(TokenType::RightBrace));
                assert(self.scanner == inner_end.scanner);
                if inner_end.current.panic_mode {
                    assert(had_error);
                    assert(self.current.panic_mode);
                }
            }
        }
        let ghost closed = self.closed_with(TokenType::RightBrace);
        assert(old(self).errors_consistent() ==> closed);
        proof {
            // The errors of the function just compiled are now recorded by the enclosing one.
            if old(self).errors_consistent() {
                let n = self.enclosing@.len() as int;
                assert(inner_end.errors_consistent());
                assert(inner_end.enclosing@[n] == popped.current);
                assert forall|i: int| 0 <= i < n implies #[trigger] popped.enclosing@[i]
                    == inner_end.enclosing@[i] by {}
                assert(popped.current.panic_mode ==> popped.current.had_error);
                assert forall|i: int|
                    0 <= i < self.enclosing@.len() && (#[trigger] self.enclosing@[i]).panic_mode implies self.enclosing@[i].had_error by {
                    assert(popped.enclosing@[i] == inner_end.enclosing@[i]);
                }
                if inner_end.diagnostics@.len() > 0 && !inner_end.current.had_error {
                    let w = choose|i: int|
                        0 <= i < inner_end.enclosing@.len() && (#[trigger] inner_end.enclosing@[i]).had_error;
                    if w < n {
                        assert(self.enclosing@[w] == inner_end.enclosing@[w]);
                    }
                }
                if exists|i: int| 0 <= i < self.enclosing@.len() && (#[trigger] self.enclosing@[i]).had_error {
                    let w = choose|i: int|
                        0 <= i < self.enclosing@.len() && (#[trigger] self.enclosing@[i]).had_error;
                    assert(self.enclosing@[w] == inner_end.enclosing@[w]);
                }
                assert(self.errors_consistent());
            }
            assert(self.follows(old(self)));
        }
        let function_value = Value::Object(Object::Function(Box::new(function)));
        let line = self.get_current_line();
        let constant_index = self.emit_constant(function_value);
        if constant_index > 0xFFFF {
            self.error("Too many constants! Cannot define more than 65535 constants");
        }
        let ghost pre_closure = self.code();
        assert(pre_closure == old(self).code());
        assert(closed ==> self.closed_with(TokenType::RightBrace));
        self.emit_op_with_double(OpCode::Closure, constant_index as u16, line);
        let ghost base = self.code();
        assert(self.scanner == after_body.scanner);
        assert(closed ==> self.closed_with(TokenType::RightBrace));
        assert(pre_closure.len() + 3 <= MAX_CODE_BYTES ==> base == pre_closure + (seq![
            opcode_byte(OpCode::Closure),
        ] + le_bytes_u16(constant_index as u16)));
        assert(pre_closure.len() + 3 > MAX_CODE_BYTES ==> base == pre_closure);
        let ghost base_constants = self.constants();
        let line = self.get_current_line();
        let count = upvalues.count();
        let mut i: usize = 0;
        while i < count
            invariant
                self.follows(old(self)),
                count == upvalues@.len(),
                0 <= i <= count,
                self.constants() == base_constants,
                self.scanner == after_body.scanner,
                closed ==> self.closed_with(TokenType::RightBrace),
                self.code().len() >= base.len(),
                self.code().subrange(0, base.len() as int) == base,
                self.code().len() + 16 > MAX_CODE_BYTES || {
                    &&& self.code().len() == base.len() + 3 * i
                    &&& forall|j: int|
                        0 <= j < i ==> #[trigger] self.code().subrange(
                            base.len() + 3 * j,
                            base.len() + 3 * j + 3,
                        ) == upvalue_operand(upvalues@[j])
                },
            decreases count - i,
        {
            let upvalue = upvalues.get_at(i);
            let ghost c0 = self.code();
            let flag: u8 = if upvalue.is_local { 1 } else { 0 };
            self.emit_byte(flag, line);
            assert(self.code().subrange(0, base.len() as int) =~= base) by {
                assert(self.code().subrange(0, c0.len() as int) =~= c0);
            }
            let ghost c1 = self.code();
            self.emit_double(upvalue.index, line);
            assert(self.code().subrange(0, base.len() as int) =~= base) by {
                assert(self.code().subrange(0, c1.len() as int) =~= c1);
            }
            proof {
                if self.code().len() + 16 <= MAX_CODE_BYTES {
                    assert(c0.len() + 1 <= MAX_CODE_BYTES);
                    assert(c1 == c0.push(flag));
                    assert(c1.len() + 2 <= MAX_CODE_BYTES);
                    assert(self.code() == c1 + le_bytes_u16(upvalue.index));
                    assert(c0.len() + 16 <= MAX_CODE_BYTES);
                    assert forall|j: int| 0 <= j < i + 1 implies #[trigger] self.code().subrange(
                        base.len() + 3 * j,
                        base.len() + 3 * j + 3,
                    ) == upvalue_operand(upvalues@[j]) by {
                        if j < i {
                            assert(self.code().subrange(base.len() + 3 * j, base.len() + 3 * j + 3)
                                =~= c0.subrange(base.len() + 3 * j, base.len() + 3 * j + 3));
                        } else {
                            assert(self.code().subrange(base.len() + 3 * j, base.len() + 3 * j + 3)
                                =~= upvalue_operand(upvalues@[j]));
                        }
                    }
                }
            }
            i = i + 1;
        }
        proof {
            assert(self.scanner == after_body.scanner);
            if self.roomy() {
                assert(pre_closure.len() + 3 <= MAX_CODE_BYTES);
                assert(base.len() == old(self).code().len() + 3);
                assert(function.upvalue_count == count);
                assert(self.constants().last() == function_value);
                assert forall|j: int| 0 <= j < function.upvalue_count implies #[trigger] self.code().subrange(
                    old(self).code().len() + 3 + 3 * j,
                    old(self).code().len() + 6 + 3 * j,
                ) == upvalue_operand(function.upvalues@[j]) by {
                    assert(self.code().subrange(base.len() + 3 * j, base.len() + 3 * j + 3)
                        == upvalue_operand(upvalues@[j]));
                }
                assert(base.subrange(old(self).code().len() as int, old(self).code().len() + 3int)
                    =~= seq![opcode_byte(OpCode::Closure)] + le_bytes_u16(constant_index as u16));
                assert(self.code().subrange(
                    old(self).code().len() as int,
                    old(self).code().len() + 3int,
                ) =~= base.subrange(old(self).code().len() as int, old(self).code().len() + 3int));
            }
        }
    }

    /// Compiles a function's parameter list and body into the function state just opened,
    /// ending its code with the implicit return.
    fn parameters_and_body(&mut self)
        requires
            old(self).wf(),
        ensures
            final(self).steps_from(old(self)),
            final(self).read_on(old(self)),
            final(self).closed_with(TokenType::RightBrace),
            final(self).roomy() ==> ends_with_implicit_return(final(self).code()),
        decreases old(self).progress(), 9nat,
    {
        let ghost inner_start = *self;
        self.begin_scope();
        self.consume(TokenType::LeftParen, "Expected '(' after function name.");
        if !self.is_current_token(TokenType::RightParen) {
            loop
                invariant
                    self.steps_from(&inner_start),
                    self.scanner == old(self).scanner || self.progress() < old(self).progress(),
                ensures
                    self.steps_from(&inner_start),
                    self.scanner == old(self).scanner || self.progress() < old(self).progress(),
                decreases self.progress(),
            {
                if self.current.function.arity >= MAX_FUNCTION_ARITY {
                    self.error("Function cannot have more than 255 parameters.");
                }
                let constant = self.parse_variable("Expected parameter name.");
                self.define_variable(constant);
                self.current.function.arity = self.current.function.arity.wrapping_add(1);
                if !self.match_and_advance(TokenType::Comma) {
                    break;
                }
            }
        }
        self.consume(TokenType::RightParen, "Expected ')' after function parameters.");
        self.consume(TokenType::LeftBrace, "Expected '{' before function body.");
        let ghost body_start = *self;
        self.block();
        assert(self.read_on(old(self))) by {
            if body_start.scanner == old(self).scanner {
                assert(body_start.at_eof() == old(self).at_eof());
            }
        }
        let ghost before_return = *self;
        // Every function ends with an implicit return.
        self.emit_empty_return();
        assert(self.roomy() ==> ends_with_implicit_return(self.code()));
        assert(self.closed_with(TokenType::RightBrace)) by {
            assert(before_return.closed_with(TokenType::RightBrace));
        }
    }

    fn fn_declaration(&mut self)
        requires
            old(self).wf(),
        ensures
            final(self).follows(old(self)),
            final(self).defined_variable(),
            final(self).constants().len() > old(self).constants().len(),
            final(self).constants().last() matches Value::Object(Object::Function(_)),
        decreases old(self).progress(), 11nat,
    {
        let global = self.parse_variable("Expected function name.");
        self.initialize_local();
        self.function(FunctionType::Function);
        self.define_variable(global);
        proof {
            if self.current.scope_depth < 1 && self.roomy() {
                assert(self.code()[self.code().len() - 5] == opcode_byte(OpCode::DefineGlobal));
            }
        }
    }

    /// Ends the function being compiled with an implicit return and hands it out, leaving an
    /// empty function in its place.
    fn pack_function(&mut self) -> (f: Function)
        requires
            old(self).wf(),
        ensures
            final(self).wf(),
            final(self).current_source == old(self).current_source,
            final(self).enclosing@ == old(self).enclosing@,
            final(self).scanner == old(self).scanner,
            old(self).current.had_error ==> final(self).current.had_error,
            old(self).errors_consistent() ==> final(self).errors_consistent(),
            f.chunk.wf(),
            f.name == old(self).current.function.name,
            f.arity == old(self).current.function.arity,
            old(self).code().len() + 2 <= MAX_CODE_BYTES ==> final(self).current.had_error == old(
                self,
            ).current.had_error,
            old(self).errors_consistent() && !final(self).current.had_error ==> f.chunk.code()
                == old(self).code() + seq![
                opcode_byte(OpCode::NoneValue),
                opcode_byte(OpCode::Return),
            ],
    {
        self.emit_empty_return();
        let mut function = Function::new(None);
        core::mem::swap(&mut self.current.function, &mut function);
        // The upvalues belong to the function handed out.
        self.current.upvalues = Stack::new();
        function
    }

    /// Compiles `source` as a whole; the compiled script, or an error where any was found
    /// (the errors themselves are in the diagnostics).
    pub fn compile(&mut self, source: &'src [u8]) -> (r: Result<Function, Error>)
        requires
            old(self).wf(),
            old(self).ready_to_compile(),
            source@.len() < u32::MAX,
        ensures
            final(self).wf(),
            final(self).source() == source@,
            final(self).depth() == old(self).depth(),
            r is Ok <==> !final(self).spec_had_error(),
            r is Err ==> final(self).spec_diagnostics().len() > 0,
            final(self).spec_diagnostics().len() == 0 ==> r is Ok,
            match r {
                Ok(f) => {
                    &&& f.chunk.wf()
                    &&& f.name is None
                    &&& f.arity == 0
                    &&& ends_with_implicit_return(f.chunk.code())
                },
                Err(e) => {
                    &&& e matches Error::CompileTime(message)
                    &&& message@ == "Parser encountered errors!"@
                    &&& final(self).spec_had_error()
                },
            },
            final(self).at_eof(),
            exists|trace: Seq<Self>|
                #[trigger] Self::declarations_trace(trace, source@, old(self).code()) && (r matches Ok(
                    f,
                ) ==> f.chunk.code() == trace.last().code() + seq![
                    opcode_byte(OpCode::NoneValue),
                    opcode_byte(OpCode::Return),
                ]),
            trivia_end(source@, 0) >= source@.len() && old(self).code().len() + 2
                <= MAX_CODE_BYTES ==> (r matches Ok(f) && f.chunk.code() == old(self).code() + seq![
                opcode_byte(OpCode::NoneValue),
                opcode_byte(OpCode::Return),
            ]),
    {
        self.current_source = source;
        self.scanner = Scanner::new(source);
        assert(self.wf()) by {
            assert forall|i: int| 0 <= i < self.current.locals@.len() implies local_fits(
                #[trigger] self.current.locals@[i],
                self.current_source@,
            ) by {
                assert(old(self).current.locals@[i].spec_name() is None);
            }
        }
        assert(self.errors_consistent());
        let ghost empty_source = trivia_end(source@, 0) >= source@.len();
        self.advance();
        let ghost mut trace: Seq<Self> = seq![*self];
        while !self.match_and_advance(TokenType::EOF)
            invariant
                trace.len() >= 1,
                trace.last() == *self,
                trace[0].source() == source@,
                trace[0].code() == old(self).code(),
                trace[0].scanner.previous() is None,
                trace[0].scanner.start() == trivia_end(source@, 0),
                forall|k: int|
                    0 <= k < trace.len() - 1 ==> #[trigger] trace[k + 1].declaration_step(&trace[k]),
                self.wf(),
                self.current_source@ == source@,
                self.enclosing@.len() == 0,
                self.errors_consistent(),
                self.current.function.name is None,
                self.current.function.arity == 0,
                empty_source ==> {
                    &&& self.at_eof()
                    &&& self.current == old(self).current
                    &&& self.diagnostics@.len() == 0
                },
            decreases self.progress(),
        {
            let ghost head = *self;
            assert(!head.scanner.at_eof());
            self.declaration();
            proof {
                assert(head == trace.last());
                let t2 = trace.push(*self);
                assert forall|k: int| 0 <= k < t2.len() - 1 implies #[trigger] t2[k
                    + 1].declaration_step(&t2[k]) by {
                    if k < trace.len() - 1 {
                        assert(t2[k] == trace[k] && t2[k + 1] == trace[k + 1]);
                        assert(trace[k + 1].declaration_step(&trace[k]));
                    } else {
                        assert(t2[k] == head && t2[k + 1] == *self);
                        assert(!head.at_eof());
                        assert(self.declaration_done(&head));
                    }
                }
                trace = t2;
            }
        }
        assert(trace.last().at_eof());
        assert(Self::declarations_trace(trace, source@, old(self).code()));
        if self.had_error() {
            return Err(Error::CompileTime(String::from_str("Parser encountered errors!")));
        }
        let function = self.pack_function();
        if self.had_error() {
            Err(Error::CompileTime(String::from_str("Parser encountered errors!")))
        } else {
            Ok(function)
        }
    }
}


/// The operand bytes that describe a captured variable after a `Closure` instruction: 1 for a
/// local of the enclosing function (0 for one of its upvalues), then the index.
pub open spec fn upvalue_operand(u: Upvalue) -> Seq<u8> {
    seq![if u.is_local {
        1u8
    } else {
        0u8
    }] + le_bytes_u16(u.index)
}

/// The code ends with `tail`.
pub open spec fn ends_with(code: Seq<u8>, tail: Seq<u8>) -> bool {
    &&& code.len() >= tail.len()
    &&& code.subrange(code.len() - tail.len(), code.len() as int) == tail
}

proof fn lemma_ends_with_append(a: Seq<u8>, t: Seq<u8>, b: Seq<u8>)
    requires
        ends_with(a, t),
    ensures
        ends_with(a + b, t + b),
{
    let c = a + b;
    assert(c.subrange(c.len() - (t + b).len(), c.len() as int) =~= t + b) by {
        assert forall|i: int| 0 <= i < (t + b).len() implies c.subrange(
            c.len() - (t + b).len(),
            c.len() as int,
        )[i] == (t + b)[i] by {
            if i < t.len() {
                assert(a.subrange(a.len() - t.len(), a.len() as int)[i] == t[i]);
            }
        }
    }
}

/// The instruction written before the store of a compound assignment (`+=`, `-=`).
spec fn compound_prefix(can_assign: bool, next: TokenType) -> Seq<u8> {
    if can_assign && next == TokenType::PlusEqual {
        seq![opcode_byte(OpCode::Add)]
    } else if can_assign && next == TokenType::MinusEqual {
        seq![opcode_byte(OpCode::Subtract)]
    } else {
        Seq::empty()
    }
}

/// The instruction that reads (or, where `reading` is false, writes) a variable of the given
/// kind in `slot`.
spec fn access_bytes(kind: VariableType, slot: u32, reading: bool) -> Seq<u8> {
    match kind {
        VariableType::Local => seq![
            opcode_byte(if reading {
                OpCode::GetLocal
            } else {
                OpCode::SetLocal
            }),
        ] + le_bytes_u16(slot as u16),
        VariableType::Upvalue => seq![
            opcode_byte(if reading {
                OpCode::GetUpvalue
            } else {
                OpCode::SetUpvalue
            }),
        ] + le_bytes_u16(slot as u16),
        VariableType::Global => seq![
            opcode_byte(if reading {
                OpCode::GetGlobal
            } else {
                OpCode::SetGlobal
            }),
        ] + le_bytes_u32(slot),
    }
}

/// Where a variable lives.
enum VariableType {
    Local,
    Global,
    Upvalue,
}

/// The local has a name, and its text in `source` is `name`.
pub open spec fn local_named(local: Local, name: Seq<u8>, source: Seq<u8>) -> bool {
    local.spec_name() matches Some(t) && source.subrange(
        t.lexeme.start() as int,
        t.lexeme.end() as int,
    ) == name
}

/// `i` is the first of `locals` whose name has the text `name`.
pub open spec fn is_first_named(locals: Seq<Local>, name: Seq<u8>, source: Seq<u8>, i: int) -> bool {
    &&& 0 <= i < locals.len()
    &&& local_named(locals[i], name, source)
    &&& forall|j: int| 0 <= j < i ==> !local_named(#[trigger] locals[j], name, source)
}

/// The slot of the first of `locals` whose name has the text `name`.
pub open spec fn first_named(locals: Seq<Local>, name: Seq<u8>, source: Seq<u8>) -> int {
    choose|i: int| is_first_named(locals, name, source, i)
}

proof fn lemma_first_named(locals: Seq<Local>, name: Seq<u8>, source: Seq<u8>, i: int)
    requires
        is_first_named(locals, name, source, i),
    ensures
        first_named(locals, name, source) == i,
{
    let k = first_named(locals, name, source);
    assert(is_first_named(locals, name, source, k));
    if k < i {
        assert(!local_named(locals[k], name, source));
    } else if k > i {
        assert(!local_named(locals[i], name, source));
    }
}

/// `i` is the first entry of `ups` that captures `index` (local or not as asked).
pub open spec fn is_first_match(ups: Seq<Upvalue>, index: u16, is_local: bool, i: int) -> bool {
    &&& 0 <= i < ups.len()
    &&& upvalue_matches(ups[i], index, is_local)
    &&& forall|k: int| 0 <= k < i ==> !upvalue_matches(#[trigger] ups[k], index, is_local)
}

/// The upvalue index that recording a capture of `index` in `ups` gives: the entry that
/// already captures it, else the next free index (0 where the list is full).
pub open spec fn upvalue_index_for(ups: Seq<Upvalue>, index: u16, is_local: bool) -> u16 {
    if exists|i: int| is_first_match(ups, index, is_local, i) {
        (choose|i: int| is_first_match(ups, index, is_local, i)) as u16
    } else if ups.len() >= UPVALUES_MAX {
        0
    } else {
        ups.len() as u16
    }
}

proof fn lemma_first_match(ups: Seq<Upvalue>, index: u16, is_local: bool, i: int)
    requires
        is_first_match(ups, index, is_local, i),
    ensures
        (choose|j: int| is_first_match(ups, index, is_local, j)) == i,
{
    let k = choose|j: int| is_first_match(ups, index, is_local, j);
    assert(is_first_match(ups, index, is_local, k));
    if k < i {
        assert(!upvalue_matches(ups[k], index, is_local));
    } else if k > i {
        assert(!upvalue_matches(ups[i], index, is_local));
    }
}

/// The upvalue entry captures the variable in slot `index`, local to the enclosing
/// function or not as asked.
pub open spec fn upvalue_matches(u: Upvalue, index: u16, is_local: bool) -> bool {
    u.index == index && u.is_local == is_local
}

/// A token that assigns to the variable before it.
/// `code` holds every byte of `earlier` but perhaps the last one (which an `is not` may
/// rewrite), and is at least as long: code written by an expression only goes after what was
/// there.
pub open spec fn keeps(code: Seq<u8>, earlier: Seq<u8>) -> bool {
    &&& code.len() >= earlier.len()
    &&& forall|i: int| 0 <= i < earlier.len() - 1 ==> #[trigger] code[i] == earlier[i]
}

/// `b` is the opcode of an instruction that reads a variable.
pub open spec fn is_read_opcode(b: u8) -> bool {
    ||| b == opcode_byte(OpCode::GetLocal)
    ||| b == opcode_byte(OpCode::GetUpvalue)
    ||| b == opcode_byte(OpCode::GetGlobal)
}

pub open spec fn is_assign_kind(kind: TokenType) -> bool {
    kind == TokenType::Equal || kind == TokenType::PlusEqual || kind == TokenType::MinusEqual
}

/// The code ends with a jump back to offset `to`.
pub open spec fn ends_with_backjump(code: Seq<u8>, to: u32) -> bool {
    &&& code.len() >= 3
    &&& code.subrange(code.len() - 3, code.len() as int) == seq![opcode_byte(OpCode::Backjump)]
        + le_bytes_u16((code.len() as u32).wrapping_sub(to) as u16)
}

/// A token that starts a statement, where skipping after an error stops.
pub open spec fn starts_statement(kind: TokenType) -> bool {
    ||| kind == TokenType::Class
    ||| kind == TokenType::Fn
    ||| kind == TokenType::Let
    ||| kind == TokenType::For
    ||| kind == TokenType::If
    ||| kind == TokenType::While
    ||| kind == TokenType::Return
}

/// How many of `locals` a closure captured.
pub open spec fn captured_count(locals: Seq<Local>) -> nat
    decreases locals.len(),
{
    if locals.len() == 0 {
        0
    } else {
        (if locals[0].spec_captured() {
            1nat
        } else {
            0nat
        }) + captured_count(locals.drop_first())
    }
}

/// `n` instructions that close a captured variable.
pub open spec fn close_upvalues(n: nat) -> Seq<u8> {
    Seq::new(n, |_i: int| opcode_byte(OpCode::CloseUpvalue))
}

/// The code that closes a scope whose locals are `locals`: the captured ones are closed,
/// then all of them are popped at once.
pub open spec fn scope_end_code(locals: Seq<Local>) -> Seq<u8> {
    close_upvalues(captured_count(locals)) + if locals.len() > 0 {
        seq![opcode_byte(OpCode::PopN)] + le_bytes_u16(locals.len() as u16)
    } else {
        Seq::empty()
    }
}

/// The jump whose opcode is at `at` lands at the end of the code.
pub open spec fn jump_lands_at_end(code: Seq<u8>, at: int) -> bool {
    &&& 0 <= at
    &&& at + 3 <= code.len()
    &&& u16_from_le(code.subrange(at + 1, at + 3)) == (code.len() - at - 3) as u16
}

/// The bytes at `at` are a jump back to offset `to`.
pub open spec fn backjump_at(code: Seq<u8>, at: int, to: u32) -> bool {
    &&& 0 <= at
    &&& at + 3 <= code.len()
    &&& code.subrange(at, at + 3) == seq![opcode_byte(OpCode::Backjump)] + le_bytes_u16(
        ((at + 3) as u32).wrapping_sub(to) as u16,
    )
}

/// The jump whose opcode is at `at` lands on offset `target`.
pub open spec fn jump_lands_at(code: Seq<u8>, at: int, target: int) -> bool {
    &&& 0 <= at
    &&& at + 3 <= code.len()
    &&& u16_from_le(code.subrange(at + 1, at + 3)) == (target - at - 3) as u16
}

/// A loop's closing code keeps its shape while more code is appended: where `c1` ends with
/// a jump back to `to` at `back`, and `c2` is `c1` with the exit jump at `exit` patched to
/// land right after it, every extension of `c2` still holds both jumps.
proof fn lemma_loop_tail(
    c1: Seq<u8>,
    c2: Seq<u8>,
    c3: Seq<u8>,
    code: Seq<u8>,
    exit: int,
    back: int,
    to: u32,
)
    requires
        c1.len() == back + 3,
        0 <= exit,
        exit + 3 <= back,
        ends_with_backjump(c1, to),
        c2.len() == c1.len(),
        forall|i: int|
            0 <= i < c1.len() && (i < exit + 1 || i >= exit + 3) ==> (#[trigger] c2[i]) == c1[i],
        u16_from_le(c2.subrange(exit + 1, exit + 3)) == (c1.len() - exit - 3) as u16,
        c3.len() >= c2.len(),
        c3.subrange(0, c2.len() as int) == c2,
        code.len() >= c3.len(),
        code.subrange(0, c3.len() as int) == c3,
    ensures
        backjump_at(code, back, to),
        jump_lands_at(code, exit, back + 3),
{
    assert(c1.subrange(back, back + 3) =~= c1.subrange(c1.len() - 3, c1.len() as int));
    assert(c2.subrange(back, back + 3) =~= c1.subrange(back, back + 3));
    assert(code.subrange(back, back + 3) =~= c2.subrange(back, back + 3)) by {
        assert forall|i: int| back <= i < back + 3 implies code[i] == c2[i] by {
            assert(code.subrange(0, c3.len() as int)[i] == c3[i]);
            assert(c3.subrange(0, c2.len() as int)[i] == c2[i]);
        }
    }
    assert(code.subrange(exit + 1, exit + 3) =~= c2.subrange(exit + 1, exit + 3)) by {
        assert forall|i: int| exit + 1 <= i < exit + 3 implies code[i] == c2[i] by {
            assert(code.subrange(0, c3.len() as int)[i] == c3[i]);
            assert(c3.subrange(0, c2.len() as int)[i] == c2[i]);
        }
    }
}

/// A use of a variable reads it: it is not an assignment, or assignment is not allowed there.
pub open spec fn access_reads(can_assign: bool, next: TokenType) -> bool {
    !(can_assign && is_assign_kind(next))
}

/// The code ends with the instruction that reads (or, where `reading` is false, writes) the
/// local or captured variable in `slot`.
pub open spec fn ends_with_slot_access(code: Seq<u8>, slot: u32, reading: bool) -> bool {
    let local = if reading {
        OpCode::GetLocal
    } else {
        OpCode::SetLocal
    };
    let upvalue = if reading {
        OpCode::GetUpvalue
    } else {
        OpCode::SetUpvalue
    };
    &&& code.len() >= 3
    &&& {
        ||| code.subrange(code.len() - 3, code.len() as int) == seq![opcode_byte(local)]
            + le_bytes_u16(slot as u16)
        ||| code.subrange(code.len() - 3, code.len() as int) == seq![opcode_byte(upvalue)]
            + le_bytes_u16(slot as u16)
    }
}

/// The code ends with the instruction that reads (or writes) the variable in `slot`: a
/// local, a captured variable, or a global whose name is constant `slot`.
pub open spec fn ends_with_access(code: Seq<u8>, slot: u32, reading: bool) -> bool {
    let global = if reading {
        OpCode::GetGlobal
    } else {
        OpCode::SetGlobal
    };
    ||| ends_with_slot_access(code, slot, reading)
    ||| code.len() >= 5 && code.subrange(code.len() - 5, code.len() as int) == seq![
        opcode_byte(global),
    ] + le_bytes_u32(slot)
}

/// The instruction of a unary operator.
pub open spec fn unary_op(kind: TokenType) -> Option<OpCode> {
    if kind == TokenType::Not {
        Some(OpCode::Not)
    } else if kind == TokenType::Minus {
        Some(OpCode::Negate)
    } else {
        None
    }
}

/// The instruction of a binary operator.
pub open spec fn binary_op(kind: TokenType) -> OpCode {
    if kind == TokenType::Is {
        OpCode::Is
    } else if kind == TokenType::Greater {
        OpCode::Greater
    } else if kind == TokenType::GreaterEqual {
        OpCode::GreaterEqual
    } else if kind == TokenType::Less {
        OpCode::Less
    } else if kind == TokenType::LessEqual {
        OpCode::LessEqual
    } else if kind == TokenType::Plus {
        OpCode::Add
    } else if kind == TokenType::Minus {
        OpCode::Subtract
    } else if kind == TokenType::Star {
        OpCode::Multiply
    } else {
        OpCode::Divide
    }
}

/// The instruction that loads the value of a literal token.
pub open spec fn literal_op(kind: TokenType) -> OpCode {
    if kind == TokenType::False {
        OpCode::False
    } else if kind == TokenType::True {
        OpCode::True
    } else {
        OpCode::NoneValue
    }
}

/// The code ends with the instructions that return `none`.
pub open spec fn ends_with_implicit_return(code: Seq<u8>) -> bool {
    &&& code.len() >= 2
    &&& code[code.len() - 2] == opcode_byte(OpCode::NoneValue)
    &&& code[code.len() - 1] == opcode_byte(OpCode::Return)
}

/// The name of the local, if it has one, lies in `source`.
pub open spec fn local_fits(local: Local, source: Seq<u8>) -> bool {
    local.spec_name() matches Some(t) ==> token_fits(t, source)
}

/// `d` is the report of an error with message `message` at `token` (or, where no token was
/// read, at line `line`).
pub open spec fn diagnostic_for(
    d: Diagnostic,
    token: Option<Token>,
    line: u32,
    source: Seq<u8>,
    message: Seq<u8>,
) -> bool {
    &&& d.message@ == message
    &&& match token {
        None => d.line == line && d.place is Line,
        Some(t) => {
            &&& d.line == t.line
            &&& if t.token_type == TokenType::EOF {
                d.place is AtEnd
            } else {
                d.place matches ErrorPlace::AtLexeme(text) && text@ == source.subrange(
                    t.lexeme.start() as int,
                    t.lexeme.end() as int,
                )
            }
        },
    }
}

} // verus!
