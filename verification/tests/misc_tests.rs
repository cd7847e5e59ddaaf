use slang::code_reader::CodeReader;
use slang::error::Error;
use slang::keyword::{Keyword, KeywordInfo};
use slang::lexing::token::Precedence;
use slang::utils::{append_decimal, bytes_equal, u16_from_le_bytes, u16_to_le_bytes, u32_from_le_bytes, u32_to_le_bytes};
use slang::vm::opcode::OpCode;

#[test]
fn code_reader_splits_lines() {
    let mut reader = CodeReader::from_str("first\r\nsecond\n\nlast");
    let mut buf = String::new();
    assert_eq!(reader.read_line(&mut buf), Ok(5));
    assert_eq!(buf, "first");
    assert_eq!(reader.get_next().map(|s| s.as_str()), Some("second"));
    assert_eq!(reader.get_next().map(|s| s.as_str()), Some(""));
    assert_eq!(reader.get_index(), 3);
    assert_eq!(reader.get_next().map(|s| s.as_str()), Some("last"));
    assert_eq!(reader.read_line(&mut buf), Err("Could not get next line.".to_string()));
    reader.seek(1);
    assert_eq!(reader.get_next().map(|s| s.as_str()), Some("second"));
}

#[test]
fn code_reader_drops_final_empty_line() {
    let mut reader = CodeReader::from_str("a\n");
    assert_eq!(reader.get_next().map(|s| s.as_str()), Some("a"));
    assert!(reader.get_next().is_none());
}

#[test]
fn keywords_have_their_spelling() {
    assert_eq!(Keyword::Variable.get_keyword(), "offering");
    assert_eq!(Keyword::Function.get_keyword(), "ritual");
    assert_eq!(Keyword::RepeatScope.get_keyword(), "repeat");
    assert_eq!(Keyword::ScopeEnd.get_keyword(), "end");
}

#[test]
fn opcode_bytes_round_trip() {
    for b in 0u8..33 {
        let op = OpCode::from_byte(b).unwrap();
        assert_eq!(op.to_byte(), b);
    }
    assert!(OpCode::from_byte(33).is_none());
    assert!(OpCode::from_byte(255).is_none());
}

#[test]
fn precedence_steps_up() {
    assert_eq!(Precedence::Term.add(1), Precedence::Factor);
    assert_eq!(Precedence::Lowest.add(9), Precedence::Call);
    assert_eq!(Precedence::Call.level(), 9);
}

#[test]
fn little_endian_round_trips() {
    let b = u32_to_le_bytes(0xA1B2C3D4);
    assert_eq!(b, [0xD4, 0xC3, 0xB2, 0xA1]);
    assert_eq!(u32_from_le_bytes(b[0], b[1], b[2], b[3]), 0xA1B2C3D4);
    let d = u16_to_le_bytes(0xBEEF);
    assert_eq!(d, [0xEF, 0xBE]);
    assert_eq!(u16_from_le_bytes(d[0], d[1]), 0xBEEF);
}

#[test]
fn decimal_text() {
    let mut s = String::from("n=");
    append_decimal(&mut s, 0);
    append_decimal(&mut s, 1234567890);
    assert_eq!(s, "n=01234567890");
    assert!(bytes_equal(b"abc", b"abc"));
    assert!(!bytes_equal(b"abc", b"abd"));
}

#[test]
fn error_message() {
    let e = Error::CompileTime("Parser encountered errors!".to_string());
    assert_eq!(e.message(), "Parser encountered errors!");
}

#[test]
fn code_reader_keeps_lone_carriage_return() {
    let mut reader = CodeReader::from_str("a\rb\r\n");
    assert_eq!(reader.get_next().map(|s| s.as_str()), Some("a\rb"));
    assert!(reader.get_next().is_none());
}
