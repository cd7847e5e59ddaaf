use slang::lexing::scanner::Scanner;
use slang::lexing::token::TokenType;

fn kinds(source: &str) -> Vec<TokenType> {
    let mut scanner = Scanner::new(source.as_bytes());
    let mut out = Vec::new();
    loop {
        match scanner.scan() {
            Ok(token) => {
                out.push(token.token_type);
                if token.token_type == TokenType::EOF {
                    break;
                }
            }
            Err(_) => break,
        }
    }
    out
}

#[test]
fn scans_declaration() {
    assert_eq!(
        kinds("let x = 12.5"),
        vec![
            TokenType::Let,
            TokenType::Identifier,
            TokenType::Equal,
            TokenType::Number,
            TokenType::EOF
        ]
    );
}

#[test]
fn scans_two_byte_operators() {
    assert_eq!(
        kinds("a -= b += c <= d >= e < f > g"),
        vec![
            TokenType::Identifier,
            TokenType::MinusEqual,
            TokenType::Identifier,
            TokenType::PlusEqual,
            TokenType::Identifier,
            TokenType::LessEqual,
            TokenType::Identifier,
            TokenType::GreaterEqual,
            TokenType::Identifier,
            TokenType::Less,
            TokenType::Identifier,
            TokenType::Greater,
            TokenType::Identifier,
            TokenType::EOF
        ]
    );
}

#[test]
fn scans_keywords() {
    assert_eq!(
        kinds("and break class continue false for fn if is not none or return super true this let while"),
        vec![
            TokenType::And,
            TokenType::Break,
            TokenType::Class,
            TokenType::Continue,
            TokenType::False,
            TokenType::For,
            TokenType::Fn,
            TokenType::If,
            TokenType::Is,
            TokenType::Not,
            TokenType::NoneKeyword,
            TokenType::Or,
            TokenType::Return,
            TokenType::Super,
            TokenType::True,
            TokenType::This,
            TokenType::Let,
            TokenType::While,
            TokenType::EOF
        ]
    );
}

#[test]
fn else_keyword_is_matched_after_its_first_byte() {
    // The keyword table lists the whole word after the leading 'e'.
    assert_eq!(kinds("else"), vec![TokenType::Identifier, TokenType::EOF]);
    assert_eq!(kinds("eelse"), vec![TokenType::Else, TokenType::EOF]);
}

#[test]
fn skips_comments_and_counts_lines() {
    let source = "? a comment\n  foo ? another\n\n bar";
    let mut scanner = Scanner::new(source.as_bytes());
    let first = scanner.scan().unwrap();
    assert_eq!(first.token_type, TokenType::Identifier);
    assert_eq!(first.line, 2);
    assert_eq!(first.lexeme.get_str(source.as_bytes()), b"foo");
    let second = scanner.scan().unwrap();
    assert_eq!(second.line, 4);
    assert_eq!(second.lexeme.get_str(source.as_bytes()), b"bar");
    let end = scanner.scan().unwrap();
    assert_eq!(end.token_type, TokenType::EOF);
    assert_eq!(scanner.get_current_line(), 4);
}

#[test]
fn string_token_spans_its_quotes() {
    let source = "\"hi\nthere\" x";
    let mut scanner = Scanner::new(source.as_bytes());
    let token = scanner.scan().unwrap();
    assert_eq!(token.token_type, TokenType::String);
    assert_eq!(token.lexeme.get_str(source.as_bytes()), b"\"hi\nthere\"");
    assert_eq!(token.line, 2);
}

#[test]
fn unterminated_string_is_an_error() {
    let source = "\"abc\n";
    let mut scanner = Scanner::new(source.as_bytes());
    let err = scanner.scan().unwrap_err();
    assert_eq!(err.get_message(), "Unterminated string at 2");
    assert!(scanner.get_current_token().is_none());
}

#[test]
fn unexpected_character_is_an_error() {
    let mut scanner = Scanner::new(b"$");
    let err = scanner.scan().unwrap_err();
    assert_eq!(err.get_message(), "Unexpected character '36'");
    let end = scanner.scan().unwrap();
    assert_eq!(end.token_type, TokenType::EOF);
}

#[test]
fn number_with_fraction_and_trailing_dot() {
    let source = "3.25 7.";
    let mut scanner = Scanner::new(source.as_bytes());
    let a = scanner.scan().unwrap();
    assert_eq!(a.lexeme.get_str(source.as_bytes()), b"3.25");
    let b = scanner.scan().unwrap();
    assert_eq!(b.lexeme.get_str(source.as_bytes()), b"7");
    let c = scanner.scan().unwrap();
    assert_eq!(c.token_type, TokenType::Dot);
}

#[test]
fn end_of_source_repeats() {
    let mut scanner = Scanner::new(b"  ");
    for _ in 0..3 {
        assert_eq!(scanner.scan().unwrap().token_type, TokenType::EOF);
    }
    assert_eq!(
        scanner.get_previous_token().unwrap().token_type,
        TokenType::EOF
    );
}
