use slang::compiler::chunk::Chunk;
use slang::compiler::{Compiler, ErrorPlace, FunctionType};
use slang::debug::{disassemble_code, disassemble_instruction, Operands};
use slang::value::{Object, Value};
use slang::vm::opcode::OpCode;

fn op(o: OpCode) -> u8 {
    o.to_byte()
}

#[test]
fn compiles_global_declaration() {
    let mut compiler = Compiler::new(FunctionType::Script);
    let function = compiler.compile(b"let a = 1").unwrap();
    let code: Vec<u8> = (0..function.chunk.get_bytes_count())
        .map(|i| function.chunk.read_byte(i))
        .collect();
    assert_eq!(
        code,
        vec![
            op(OpCode::Constant),
            1,
            0,
            0,
            0,
            op(OpCode::DefineGlobal),
            0,
            0,
            0,
            0,
            op(OpCode::NoneValue),
            op(OpCode::Return)
        ]
    );
    match function.chunk.get_constant(0) {
        Value::Object(Object::String(name)) => assert_eq!(name.as_slice(), b"a"),
        other => panic!("unexpected constant {:?}", other),
    }
    match function.chunk.get_constant(1) {
        Value::Number(digits) => assert_eq!(digits.as_slice(), b"1"),
        other => panic!("unexpected constant {:?}", other),
    }
    assert!(compiler.get_diagnostics().is_empty());
}

#[test]
fn compiles_arithmetic_with_precedence() {
    let mut compiler = Compiler::new(FunctionType::Script);
    let function = compiler.compile(b"1 + 2 * 3").unwrap();
    let ops: Vec<OpCode> = disassemble_code(&function.chunk)
        .iter()
        .map(|d| d.opcode)
        .collect();
    assert_eq!(
        ops,
        vec![
            OpCode::Constant,
            OpCode::Constant,
            OpCode::Constant,
            OpCode::Multiply,
            OpCode::Add,
            OpCode::Pop,
            OpCode::NoneValue,
            OpCode::Return
        ]
    );
}

#[test]
fn is_not_replaces_the_last_instruction() {
    let mut compiler = Compiler::new(FunctionType::Script);
    let function = compiler.compile(b"true is not false").unwrap();
    let ops: Vec<OpCode> = disassemble_code(&function.chunk)
        .iter()
        .map(|d| d.opcode)
        .collect();
    assert_eq!(
        ops,
        vec![
            OpCode::True,
            OpCode::False,
            OpCode::IsNot,
            OpCode::Pop,
            OpCode::NoneValue,
            OpCode::Return
        ]
    );
}

#[test]
fn if_statement_jumps_are_patched() {
    let mut compiler = Compiler::new(FunctionType::Script);
    let function = compiler.compile(b"if true { 1 }").unwrap();
    let listing = disassemble_code(&function.chunk);
    let ops: Vec<OpCode> = listing.iter().map(|d| d.opcode).collect();
    // The block declares no local, so closing it pops nothing.
    assert_eq!(
        ops,
        vec![
            OpCode::True,
            OpCode::JumpIfFalse,
            OpCode::Pop,
            OpCode::Constant,
            OpCode::Pop,
            OpCode::Jump,
            OpCode::Pop,
            OpCode::NoneValue,
            OpCode::Return
        ]
    );
    match listing[1].operands {
        // Lands on the Pop that follows the then-branch's closing jump.
        Operands::Jump(target) => assert_eq!(target, listing[6].offset as i128),
        ref other => panic!("unexpected operands {:?}", other),
    }
    match listing[5].operands {
        Operands::Jump(target) => assert_eq!(target, listing[7].offset as i128),
        ref other => panic!("unexpected operands {:?}", other),
    }
}

#[test]
fn while_loop_jumps_back_to_its_condition() {
    let mut compiler = Compiler::new(FunctionType::Script);
    let function = compiler.compile(b"while false { 1 }").unwrap();
    let listing = disassemble_code(&function.chunk);
    let back = listing
        .iter()
        .find(|d| d.opcode == OpCode::Backjump)
        .expect("a jump back");
    match back.operands {
        Operands::Jump(target) => assert_eq!(target, 0),
        ref other => panic!("unexpected operands {:?}", other),
    }
}

#[test]
fn local_variables_use_slots() {
    let mut compiler = Compiler::new(FunctionType::Script);
    let function = compiler.compile(b"{ let a = 1 a = 2 }").unwrap();
    let listing = disassemble_code(&function.chunk);
    let ops: Vec<OpCode> = listing.iter().map(|d| d.opcode).collect();
    assert!(ops.contains(&OpCode::SetLocal));
    assert!(ops.contains(&OpCode::PopN));
    assert!(!ops.contains(&OpCode::DefineGlobal));
}

#[test]
fn function_declaration_makes_a_closure() {
    let mut compiler = Compiler::new(FunctionType::Script);
    let function = compiler
        .compile(b"fn add(a, b) { return a + b } add(1, 2)")
        .unwrap();
    let listing = disassemble_code(&function.chunk);
    let closure = listing
        .iter()
        .find(|d| d.opcode == OpCode::Closure)
        .expect("a closure");
    let index = match closure.operands {
        Operands::Closure(index, _) => index,
        ref other => panic!("unexpected operands {:?}", other),
    };
    match function.chunk.get_constant(index as u32) {
        Value::Object(Object::Function(f)) => {
            assert_eq!(f.arity, 2);
            assert_eq!(f.name.as_deref(), Some(&b"add"[..]));
        }
        other => panic!("unexpected constant {:?}", other),
    }
    let call = listing
        .iter()
        .find(|d| d.opcode == OpCode::Call)
        .expect("a call");
    assert!(matches!(call.operands, Operands::Byte(2)));
}

#[test]
fn missing_expression_is_reported() {
    let mut compiler = Compiler::new(FunctionType::Script);
    let result = compiler.compile(b"let a = )");
    assert!(result.is_err());
    let diagnostics = compiler.get_diagnostics();
    assert_eq!(diagnostics.len(), 1);
    assert_eq!(diagnostics[0].line, 1);
    assert_eq!(diagnostics[0].message.as_slice(), b"Expected an expression.");
    match &diagnostics[0].place {
        ErrorPlace::AtLexeme(text) => assert_eq!(text.as_slice(), b")"),
        other => panic!("unexpected place {:?}", other),
    }
    assert!(compiler.had_error());
}

#[test]
fn return_at_top_level_is_reported() {
    let mut compiler = Compiler::new(FunctionType::Script);
    assert!(compiler.compile(b"return").is_err());
    assert_eq!(
        compiler.get_diagnostics()[0].message.as_slice(),
        b"Cannot use 'return' in top-level code."
    );
}

#[test]
fn error_at_end_of_source() {
    let mut compiler = Compiler::new(FunctionType::Script);
    assert!(compiler.compile(b"1 +").is_err());
    let d = &compiler.get_diagnostics()[0];
    assert!(matches!(d.place, ErrorPlace::AtEnd));
    assert_eq!(d.message.as_slice(), b"Expected an expression.");
}

#[test]
fn operator_without_infix_rule_is_reported() {
    let mut compiler = Compiler::new(FunctionType::Script);
    assert!(compiler.compile(b"1 -= 2").is_err());
    assert_eq!(
        compiler.get_diagnostics()[0].message.as_slice(),
        b"Expected an operator."
    );
}

#[test]
fn break_outside_loop_is_reported() {
    let mut compiler = Compiler::new(FunctionType::Script);
    assert!(compiler.compile(b"break").is_err());
    assert_eq!(
        compiler.get_diagnostics()[0].message.as_slice(),
        b"Cannot use 'break' outside of a loop."
    );
}

#[test]
fn failing_function_body_is_reported_in_the_enclosing_function() {
    let mut compiler = Compiler::new(FunctionType::Script);
    assert!(compiler.compile(b"fn f() { ) }").is_err());
    let messages: Vec<Vec<u8>> = compiler
        .get_diagnostics()
        .iter()
        .map(|d| d.message.clone())
        .collect();
    assert!(messages.contains(&b"Function f had errors during compilation!".to_vec()));
}

#[test]
fn chunk_writes_read_back() {
    let mut chunk = Chunk::new();
    chunk.write_opcode_with_quad(OpCode::Constant, 0xDEADBEEF, 3);
    chunk.write_opcode_with_double_arg(OpCode::GetLocal, 0x1234, 4);
    chunk.write_opcode_with_byte_arg(OpCode::Call, 7, 5);
    assert_eq!(chunk.get_bytes_count(), 10);
    assert_eq!(chunk.read_quad(1), 0xDEADBEEF);
    assert_eq!(chunk.read_double(6), 0x1234);
    assert_eq!(chunk.read_byte(9), 7);
    assert_eq!(chunk.get_line_number(0), 3);
    assert_eq!(chunk.get_line_number(5), 4);
    assert_eq!(chunk.get_line_number(9), 5);
    chunk.patch_double(6, 0xBEEF);
    assert_eq!(chunk.read_double(6), 0xBEEF);
    chunk.replace_last_op(OpCode::Return);
    assert_eq!(chunk.read_byte(9), OpCode::Return.to_byte());
}

#[test]
fn chunk_constant_indices_count_up() {
    let mut chunk = Chunk::new();
    assert_eq!(chunk.add_constant(Value::Bool(true)), 0);
    assert_eq!(chunk.add_constant_with_op(Value::Bool(false), 1), 1);
    assert_eq!(chunk.get_constants().len(), 2);
    assert_eq!(chunk.read_quad(1), 1);
}

#[test]
fn disassembler_rejects_unknown_and_short_instructions() {
    let mut chunk = Chunk::new();
    chunk.write_byte(200, 1);
    assert!(disassemble_instruction(&chunk, 0).is_none());
    let mut chunk = Chunk::new();
    chunk.write_opcode(OpCode::GetLocal, 1);
    assert!(disassemble_instruction(&chunk, 0).is_none());
    assert!(disassemble_instruction(&chunk, 1).is_none());
}

#[test]
fn disassembler_marks_repeated_lines() {
    let mut chunk = Chunk::new();
    chunk.write_opcode(OpCode::True, 1);
    chunk.write_opcode(OpCode::Pop, 1);
    chunk.write_opcode(OpCode::Return, 2);
    let listing = disassemble_code(&chunk);
    assert_eq!(listing.len(), 3);
    assert!(!listing[0].same_line);
    assert!(listing[1].same_line);
    assert!(!listing[2].same_line);
    assert_eq!(listing[2].line, 2);
    assert_eq!(listing[2].offset, 2);
}

#[test]
fn clean_source_reports_nothing_and_compiles() {
    let mut compiler = Compiler::new(FunctionType::Script);
    assert!(compiler
        .compile(b"let x = 1 while x < 3 { x += 1 } if x is 3 { x = 0 }")
        .is_ok());
    assert!(compiler.get_diagnostics().is_empty());
    assert!(!compiler.had_error());
}

#[test]
fn every_failure_comes_with_a_report() {
    for source in [&b"let"[..], b"fn", b"(", b"1 +", b"{", b"\"open", b"$", b"for", b"while"] {
        let mut compiler = Compiler::new(FunctionType::Script);
        let result = compiler.compile(source);
        assert_eq!(result.is_err(), !compiler.get_diagnostics().is_empty());
    }
}

#[test]
fn first_reported_error_names_the_problem() {
    let cases: [(&[u8], &[u8]); 6] = [
        (b"if true 1", b"Missing '{' after if statement."),
        (b"for x", b"Expected variable declaration in for loop."),
        (b"continue", b"Cannot use 'continue' outside of a loop."),
        (b"{ 1", b"Expected '}' after block."),
        (b"f(1 2)", b"Expected ',' or ')' after function argument."),
        (b"1 + 2 = 3", b"Invalid assignment target."),
    ];
    for (source, message) in cases {
        let mut compiler = Compiler::new(FunctionType::Script);
        assert!(compiler.compile(source).is_err());
        assert_eq!(compiler.get_diagnostics()[0].message.as_slice(), message);
    }
}

#[test]
fn empty_source_compiles_to_an_implicit_return() {
    let mut compiler = Compiler::new(FunctionType::Script);
    let function = compiler.compile(b"").unwrap();
    assert_eq!(function.chunk.get_bytes_count(), 2);
    assert_eq!(function.chunk.read_byte(0), OpCode::NoneValue.to_byte());
    assert_eq!(function.chunk.read_byte(1), OpCode::Return.to_byte());
    assert!(function.name.is_none());
    assert_eq!(function.arity, 0);
}

#[test]
fn closure_captures_enclosing_local() {
    let mut compiler = Compiler::new(FunctionType::Script);
    let function = compiler
        .compile(b"fn outer() { let a = 1 fn inner() { return a } return inner }")
        .unwrap();
    let outer = match function.chunk.get_constant(1) {
        Value::Object(Object::Function(f)) => f,
        other => panic!("unexpected constant {:?}", other),
    };
    let inner = outer
        .chunk
        .get_constants()
        .iter()
        .find_map(|c| match c {
            Value::Object(Object::Function(f)) => Some(f),
            _ => None,
        })
        .expect("inner function");
    assert_eq!(inner.upvalue_count, 1);
    let ops: Vec<OpCode> = disassemble_code(&inner.chunk).iter().map(|d| d.opcode).collect();
    assert!(ops.contains(&OpCode::GetUpvalue));
}

#[test]
fn closing_a_scope_pops_only_its_locals() {
    let mut compiler = Compiler::new(FunctionType::Script);
    let function = compiler.compile(b"{ let a = 1 let b = 2 }").unwrap();
    let listing = disassemble_code(&function.chunk);
    let pop_n = listing
        .iter()
        .find(|d| d.opcode == OpCode::PopN)
        .expect("a PopN");
    assert!(matches!(pop_n.operands, Operands::Double(2)));
}

#[test]
fn repeated_capture_shares_one_upvalue() {
    let mut compiler = Compiler::new(FunctionType::Script);
    let function = compiler
        .compile(b"fn outer() { let a = 1 fn inner() { return a + a } return inner }")
        .unwrap();
    let outer = match function.chunk.get_constant(1) {
        Value::Object(Object::Function(f)) => f,
        other => panic!("unexpected constant {:?}", other),
    };
    let inner = outer
        .chunk
        .get_constants()
        .iter()
        .find_map(|c| match c {
            Value::Object(Object::Function(f)) => Some(f),
            _ => None,
        })
        .expect("inner function");
    assert_eq!(inner.upvalue_count, 1);
    let closure = disassemble_code(&outer.chunk)
        .into_iter()
        .find(|d| d.opcode == OpCode::Closure)
        .expect("a closure");
    match closure.operands {
        Operands::Closure(_, ref upvalues) => assert_eq!(upvalues.len(), 1),
        ref other => panic!("unexpected operands {:?}", other),
    }
}

#[test]
fn empty_source_reports_the_parser_message_only_on_errors() {
    let mut compiler = Compiler::new(FunctionType::Script);
    match compiler.compile(b"   ? a comment only") {
        Ok(f) => assert_eq!(f.chunk.get_bytes_count(), 2),
        Err(e) => panic!("unexpected error {:?}", e),
    }
    let mut compiler = Compiler::new(FunctionType::Script);
    match compiler.compile(b"let = 1") {
        Err(slang::error::Error::CompileTime(m)) => assert_eq!(m, "Parser encountered errors!"),
        other => panic!("unexpected result {:?}", other.is_ok()),
    }
}

#[test]
fn closure_operands_name_each_captured_variable() {
    let mut compiler = Compiler::new(FunctionType::Script);
    let function = compiler
        .compile(b"fn outer() { let a = 1 let b = 2 fn inner() { return b + a } return inner }")
        .unwrap();
    let outer = match function.chunk.get_constant(1) {
        Value::Object(Object::Function(f)) => f,
        other => panic!("unexpected constant {:?}", other),
    };
    let inner = outer
        .chunk
        .get_constants()
        .iter()
        .find_map(|c| match c {
            Value::Object(Object::Function(f)) => Some(f),
            _ => None,
        })
        .expect("inner function");
    // A nested function reserves no slot: `a` is slot 0 of `outer`, `b` slot 1; `b` is
    // captured first.
    assert_eq!(inner.upvalue_count, 2);
    assert_eq!(inner.upvalues.len(), 2);
    assert!(inner.upvalues[0].is_local);
    assert_eq!(inner.upvalues[0].index, 1);
    assert!(inner.upvalues[1].is_local);
    assert_eq!(inner.upvalues[1].index, 0);
    let closure = disassemble_code(&outer.chunk)
        .into_iter()
        .find(|d| d.opcode == OpCode::Closure)
        .expect("a closure");
    let at = closure.offset;
    let bytes: Vec<u8> = (at + 3..at + 9).map(|i| outer.chunk.read_byte(i)).collect();
    assert_eq!(bytes, vec![1, 1, 0, 1, 0, 0]);
}
