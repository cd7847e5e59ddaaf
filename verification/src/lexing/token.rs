use super::span::Span;
use vstd::prelude::*;

verus! {

/// The kinds of tokens of the language.
#[derive(Debug, PartialEq, Eq, Structural, PartialOrd, Ord, Clone, Copy)]
pub enum TokenType {
    LeftParen,
    RightParen,
    LeftBrace,
    RightBrace,
    Comma,
    Dot,
    Minus,
    MinusEqual,
    Plus,
    PlusEqual,
    Semicolon,
    Slash,
    Star,
    Equal,
    Greater,
    GreaterEqual,
    Less,
    LessEqual,
    Identifier,
    String,
    Number,
    And,
    Class,
    Else,
    False,
    For,
    Fn,
    If,
    Is,
    Not,
    NoneKeyword,
    Or,
    Return,
    Super,
    This,
    True,
    Let,
    While,
    Continue,
    Break,
    EOF,
}

/// The number of token kinds.
pub const TOKEN_TYPE_COUNT: usize = 41;

/// The position of a token kind in the declaration order.
pub open spec fn spec_token_index(t: TokenType) -> nat {
    match t {
        TokenType::LeftParen => 0,
        TokenType::RightParen => 1,
        TokenType::LeftBrace => 2,
        TokenType::RightBrace => 3,
        TokenType::Comma => 4,
        TokenType::Dot => 5,
        TokenType::Minus => 6,
        TokenType::MinusEqual => 7,
        TokenType::Plus => 8,
        TokenType::PlusEqual => 9,
        TokenType::Semicolon => 10,
        TokenType::Slash => 11,
        TokenType::Star => 12,
        TokenType::Equal => 13,
        TokenType::Greater => 14,
        TokenType::GreaterEqual => 15,
        TokenType::Less => 16,
        TokenType::LessEqual => 17,
        TokenType::Identifier => 18,
        TokenType::String => 19,
        TokenType::Number => 20,
        TokenType::And => 21,
        TokenType::Class => 22,
        TokenType::Else => 23,
        TokenType::False => 24,
        TokenType::For => 25,
        TokenType::Fn => 26,
        TokenType::If => 27,
        TokenType::Is => 28,
        TokenType::Not => 29,
        TokenType::NoneKeyword => 30,
        TokenType::Or => 31,
        TokenType::Return => 32,
        TokenType::Super => 33,
        TokenType::This => 34,
        TokenType::True => 35,
        TokenType::Let => 36,
        TokenType::While => 37,
        TokenType::Continue => 38,
        TokenType::Break => 39,
        TokenType::EOF => 40,
    }
}

impl TokenType {
    /// The position of the kind in the declaration order (what `as usize` gives).
    pub fn index(self) -> (i: usize)
        ensures
            i == spec_token_index(self),
            i < TOKEN_TYPE_COUNT,
    {
        match self {
            TokenType::LeftParen => 0,
            TokenType::RightParen => 1,
            TokenType::LeftBrace => 2,
            TokenType::RightBrace => 3,
            TokenType::Comma => 4,
            TokenType::Dot => 5,
            TokenType::Minus => 6,
            TokenType::MinusEqual => 7,
            TokenType::Plus => 8,
            TokenType::PlusEqual => 9,
            TokenType::Semicolon => 10,
            TokenType::Slash => 11,
            TokenType::Star => 12,
            TokenType::Equal => 13,
            TokenType::Greater => 14,
            TokenType::GreaterEqual => 15,
            TokenType::Less => 16,
            TokenType::LessEqual => 17,
            TokenType::Identifier => 18,
            TokenType::String => 19,
            TokenType::Number => 20,
            TokenType::And => 21,
            TokenType::Class => 22,
            TokenType::Else => 23,
            TokenType::False => 24,
            TokenType::For => 25,
            TokenType::Fn => 26,
            TokenType::If => 27,
            TokenType::Is => 28,
            TokenType::Not => 29,
            TokenType::NoneKeyword => 30,
            TokenType::Or => 31,
            TokenType::Return => 32,
            TokenType::Super => 33,
            TokenType::This => 34,
            TokenType::True => 35,
            TokenType::Let => 36,
            TokenType::While => 37,
            TokenType::Continue => 38,
            TokenType::Break => 39,
            TokenType::EOF => 40,
        }
    }
}

/// A token: its kind, where its text lies in the source, and the line it ends on.
#[derive(Clone, Copy, Debug)]
pub struct Token {
    pub token_type: TokenType,
    pub lexeme: Span,
    pub line: u32,
}

impl Token {
    pub fn new(token_type: TokenType, lexeme: Span, line: u32) -> (t: Self)
        ensures
            t.token_type == token_type,
            t.lexeme == lexeme,
            t.line == line,
    {
        Self { token_type, lexeme, line }
    }
}

/// Binding strengths of operators, from the loosest to the tightest.
#[derive(PartialEq, Eq, Structural, PartialOrd, Ord, Clone, Copy, Debug)]
pub enum Precedence {
    Lowest,
    Assignment,
    Or,
    And,
    Equality,
    Comparison,
    Term,
    Factor,
    Unary,
    Call,
    __COUNT__,
}

/// The rank of a precedence: its position in the declaration order.
pub open spec fn spec_level(p: Precedence) -> nat {
    match p {
        Precedence::Lowest => 0,
        Precedence::Assignment => 1,
        Precedence::Or => 2,
        Precedence::And => 3,
        Precedence::Equality => 4,
        Precedence::Comparison => 5,
        Precedence::Term => 6,
        Precedence::Factor => 7,
        Precedence::Unary => 8,
        Precedence::Call => 9,
        Precedence::__COUNT__ => 10,
    }
}

/// The precedence of rank `n`.
pub open spec fn spec_from_level(n: nat) -> Precedence {
    if n == 0 {
        Precedence::Lowest
    } else if n == 1 {
        Precedence::Assignment
    } else if n == 2 {
        Precedence::Or
    } else if n == 3 {
        Precedence::And
    } else if n == 4 {
        Precedence::Equality
    } else if n == 5 {
        Precedence::Comparison
    } else if n == 6 {
        Precedence::Term
    } else if n == 7 {
        Precedence::Factor
    } else if n == 8 {
        Precedence::Unary
    } else if n == 9 {
        Precedence::Call
    } else {
        Precedence::__COUNT__
    }
}

impl Precedence {
    /// The rank of the precedence: its position in the declaration order.
    pub fn level(self) -> (n: u8)
        ensures
            n == spec_level(self),
    {
        match self {
            Precedence::Lowest => 0,
            Precedence::Assignment => 1,
            Precedence::Or => 2,
            Precedence::And => 3,
            Precedence::Equality => 4,
            Precedence::Comparison => 5,
            Precedence::Term => 6,
            Precedence::Factor => 7,
            Precedence::Unary => 8,
            Precedence::Call => 9,
            Precedence::__COUNT__ => 10,
        }
    }

    /// The precedence `num` ranks tighter than `self`.
    pub fn add(self, num: usize) -> (p: Precedence)
        requires
            num < 10,
            spec_level(self) + num <= 10,
        ensures
            spec_level(p) == spec_level(self) + num,
            p == spec_from_level((spec_level(self) + num) as nat),
    {
        let n = self.level() as usize + num;
        if n == 0 {
            Precedence::Lowest
        } else if n == 1 {
            Precedence::Assignment
        } else if n == 2 {
            Precedence::Or
        } else if n == 3 {
            Precedence::And
        } else if n == 4 {
            Precedence::Equality
        } else if n == 5 {
            Precedence::Comparison
        } else if n == 6 {
            Precedence::Term
        } else if n == 7 {
            Precedence::Factor
        } else if n == 8 {
            Precedence::Unary
        } else if n == 9 {
            Precedence::Call
        } else {
            Precedence::__COUNT__
        }
    }
}

} // verus!
