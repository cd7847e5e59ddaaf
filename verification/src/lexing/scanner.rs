use super::scanner_error::ScannerError;
use super::span::Span;
use super::token::{Token, TokenType};
use crate::hashing::{GlobalHashMethod, HashMethod};
use crate::utils::{append_decimal, bytes_equal, decimal};
use vstd::prelude::*;
use vstd::string::StringExecFns;

verus! {

// The bytes the scanner tells apart, by their ASCII codes.
pub const TAB: u8 = 9;
pub const NEWLINE: u8 = 10;
pub const CARRIAGE_RETURN: u8 = 13;
pub const SPACE: u8 = 32;
pub const QUOTE: u8 = 34;
pub const LEFT_PAREN: u8 = 40;
pub const RIGHT_PAREN: u8 = 41;
pub const STAR: u8 = 42;
pub const PLUS: u8 = 43;
pub const COMMA: u8 = 44;
pub const MINUS: u8 = 45;
pub const DOT: u8 = 46;
pub const SLASH: u8 = 47;
pub const SEMICOLON: u8 = 59;
pub const LESS: u8 = 60;
pub const EQUAL: u8 = 61;
pub const GREATER: u8 = 62;
pub const QUESTION_MARK: u8 = 63;
pub const LEFT_BRACE: u8 = 123;
pub const RIGHT_BRACE: u8 = 125;

pub open spec fn spec_is_digit(c: u8) -> bool {
    48 <= c <= 57
}

pub open spec fn spec_is_alpha(c: u8) -> bool {
    (97 <= c <= 122) || (65 <= c <= 90) || c == 95
}

/// The failed scanning result with `message`.
fn error(message: String) -> (r: Result<Token, ScannerError>)
    ensures
        r matches Err(e) && e.spec_message() == message@,
{
    Err(ScannerError::new(message))
}

fn is_digit(ch: u8) -> (b: bool)
    ensures
        b == spec_is_digit(ch),
{
    ch >= 48 && ch <= 57
}

fn is_alpha(ch: u8) -> (b: bool)
    ensures
        b == spec_is_alpha(ch),
{
    (ch >= 97 && ch <= 122) || (ch >= 65 && ch <= 90) || ch == 95
}

/// The byte at `i`, or 0 where `i` lies past the end of the source.
pub open spec fn byte_at(src: Seq<u8>, i: int) -> u8 {
    if 0 <= i < src.len() {
        src[i]
    } else {
        0
    }
}

/// The number of newline bytes in `s`.
pub open spec fn count_newlines(s: Seq<u8>) -> nat
    decreases s.len(),
{
    if s.len() == 0 {
        0
    } else {
        count_newlines(s.drop_last()) + if s.last() == NEWLINE {
            1nat
        } else {
            0nat
        }
    }
}

/// The line (counted from 1) that position `i` of the source lies on.
pub open spec fn line_at(src: Seq<u8>, i: int) -> nat {
    1 + count_newlines(src.subrange(0, i))
}

pub open spec fn is_blank(c: u8) -> bool {
    c == SPACE || c == CARRIAGE_RETURN || c == TAB || c == NEWLINE
}

/// Where skipping blanks and comments from `i` stops; `in_comment` tells whether `i` lies
/// inside a comment, which runs from a question mark to the end of its line.
pub open spec fn skip_from(src: Seq<u8>, i: int, in_comment: bool) -> int
    decreases src.len() - i, if in_comment {
        1int
    } else {
        0int
    },
{
    if !(0 <= i < src.len()) {
        i
    } else if in_comment {
        if src[i] == NEWLINE {
            skip_from(src, i, false)
        } else {
            skip_from(src, i + 1, true)
        }
    } else if is_blank(src[i]) {
        skip_from(src, i + 1, false)
    } else if src[i] == QUESTION_MARK {
        skip_from(src, i + 1, true)
    } else {
        i
    }
}

/// The position of the first byte from `i` on that is neither blank nor inside a comment.
pub open spec fn trivia_end(src: Seq<u8>, i: int) -> int {
    skip_from(src, i, false)
}

/// The end of a run of letters, digits and underscores that starts at `i`.
pub open spec fn ident_end(src: Seq<u8>, i: int) -> int
    decreases src.len() - i,
{
    if 0 <= i < src.len() && (spec_is_alpha(src[i]) || spec_is_digit(src[i])) {
        ident_end(src, i + 1)
    } else {
        i
    }
}

/// The end of a run of digits that starts at `i`.
pub open spec fn digits_end(src: Seq<u8>, i: int) -> int
    decreases src.len() - i,
{
    if 0 <= i < src.len() && spec_is_digit(src[i]) {
        digits_end(src, i + 1)
    } else {
        i
    }
}

/// The end of a number literal whose first digit is at `s`: digits, then optionally a dot
/// followed by at least one digit and the digits after it.
pub open spec fn number_end(src: Seq<u8>, s: int) -> int {
    let d = digits_end(src, s + 1);
    if d + 1 < src.len() && src[d] == DOT && spec_is_digit(src[d + 1]) {
        digits_end(src, d + 1)
    } else {
        d
    }
}

/// The position of the first double quote from `i` on, or the end of the source.
pub open spec fn string_close(src: Seq<u8>, i: int) -> int
    decreases src.len() - i,
{
    if 0 <= i < src.len() && src[i] != QUOTE {
        string_close(src, i + 1)
    } else {
        i
    }
}

/// `name` follows the first `start` bytes of `lexeme` and makes up the rest of it.
pub open spec fn keyword_matches(lexeme: Seq<u8>, start: int, name: Seq<u8>) -> bool {
    &&& lexeme.len() == start + name.len()
    &&& lexeme.subrange(start, lexeme.len() as int) == name
}

/// The kind of the first entry of `keywords` from index `i` on whose name matches,
/// or `Identifier` where none does.
pub open spec fn check_keywords_from(
    lexeme: Seq<u8>,
    start: int,
    keywords: Seq<(Seq<u8>, TokenType)>,
    i: int,
) -> TokenType
    decreases keywords.len() - i,
{
    if i < 0 || i >= keywords.len() {
        TokenType::Identifier
    } else if keyword_matches(lexeme, start, keywords[i].0) {
        keywords[i].1
    } else {
        check_keywords_from(lexeme, start, keywords, i + 1)
    }
}

/// The keywords that start with the byte `first`, each as the bytes after the first one
/// together with its kind. A keyword is recognised where the rest of the lexeme after its
/// first byte equals the listed bytes.
pub open spec fn keyword_table(first: u8) -> Seq<(Seq<u8>, TokenType)> {
    if first == 97 {
        // a: "nd"
        seq![(seq![110u8, 100u8], TokenType::And)]
    } else if first == 98 {
        // b: "reak"
        seq![(seq![114u8, 101u8, 97u8, 107u8], TokenType::Break)]
    } else if first == 99 {
        // c: "lass", "ontinue"
        seq![
            (seq![108u8, 97u8, 115u8, 115u8], TokenType::Class),
            (seq![111u8, 110u8, 116u8, 105u8, 110u8, 117u8, 101u8], TokenType::Continue),
        ]
    } else if first == 101 {
        // e: "else"
        seq![(seq![101u8, 108u8, 115u8, 101u8], TokenType::Else)]
    } else if first == 102 {
        // f: "or", "alse", "n"
        seq![
            (seq![111u8, 114u8], TokenType::For),
            (seq![97u8, 108u8, 115u8, 101u8], TokenType::False),
            (seq![110u8], TokenType::Fn),
        ]
    } else if first == 105 {
        // i: "f", "s"
        seq![(seq![102u8], TokenType::If), (seq![115u8], TokenType::Is)]
    } else if first == 110 {
        // n: "ot", "one"
        seq![(seq![111u8, 116u8], TokenType::Not), (seq![111u8, 110u8, 101u8], TokenType::NoneKeyword)]
    } else if first == 111 {
        // o: "r"
        seq![(seq![114u8], TokenType::Or)]
    } else if first == 114 {
        // r: "eturn"
        seq![(seq![101u8, 116u8, 117u8, 114u8, 110u8], TokenType::Return)]
    } else if first == 115 {
        // s: "uper"
        seq![(seq![117u8, 112u8, 101u8, 114u8], TokenType::Super)]
    } else if first == 116 {
        // t: "rue", "his"
        seq![(seq![114u8, 117u8, 101u8], TokenType::True), (seq![104u8, 105u8, 115u8], TokenType::This)]
    } else if first == 108 {
        // l: "et"
        seq![(seq![101u8, 116u8], TokenType::Let)]
    } else if first == 119 {
        // w: "hile"
        seq![(seq![104u8, 105u8, 108u8, 101u8], TokenType::While)]
    } else {
        seq![]
    }
}

/// The kind of a word: a keyword kind where the keyword table says so, else `Identifier`.
pub open spec fn identifier_type_spec(lexeme: Seq<u8>) -> TokenType {
    check_keywords_from(lexeme, 1, keyword_table(lexeme[0]), 0)
}

/// The keyword list of the scanner with each name taken by its bytes.
pub open spec fn keyword_view(keywords: Seq<(&[u8], TokenType)>) -> Seq<(Seq<u8>, TokenType)> {
    keywords.map_values(|k: (&[u8], TokenType)| (k.0@, k.1))
}

/// The kind of the token that starts at `s`, a position of the source that holds neither a
/// blank nor a comment; none where no token can start there.
pub open spec fn token_kind_at(src: Seq<u8>, s: int) -> Option<TokenType> {
    let c = src[s];
    let next_is_equal = byte_at(src, s + 1) == EQUAL;
    if spec_is_alpha(c) {
        Some(identifier_type_spec(src.subrange(s, ident_end(src, s + 1))))
    } else if spec_is_digit(c) {
        Some(TokenType::Number)
    } else if c == LEFT_PAREN {
        Some(TokenType::LeftParen)
    } else if c == RIGHT_PAREN {
        Some(TokenType::RightParen)
    } else if c == LEFT_BRACE {
        Some(TokenType::LeftBrace)
    } else if c == RIGHT_BRACE {
        Some(TokenType::RightBrace)
    } else if c == SEMICOLON {
        Some(TokenType::Semicolon)
    } else if c == COMMA {
        Some(TokenType::Comma)
    } else if c == DOT {
        Some(TokenType::Dot)
    } else if c == MINUS {
        Some(if next_is_equal { TokenType::MinusEqual } else { TokenType::Minus })
    } else if c == PLUS {
        Some(if next_is_equal { TokenType::PlusEqual } else { TokenType::Plus })
    } else if c == SLASH {
        Some(TokenType::Slash)
    } else if c == STAR {
        Some(TokenType::Star)
    } else if c == EQUAL {
        Some(TokenType::Equal)
    } else if c == LESS {
        Some(if next_is_equal { TokenType::LessEqual } else { TokenType::Less })
    } else if c == GREATER {
        Some(if next_is_equal { TokenType::GreaterEqual } else { TokenType::Greater })
    } else if c == QUOTE && string_close(src, s + 1) < src.len() {
        Some(TokenType::String)
    } else {
        None
    }
}

/// Where the scanner stops after the token (or the error) that starts at `s`.
pub open spec fn token_end_at(src: Seq<u8>, s: int) -> int {
    let c = src[s];
    let next_is_equal = byte_at(src, s + 1) == EQUAL;
    if spec_is_alpha(c) {
        ident_end(src, s + 1)
    } else if spec_is_digit(c) {
        number_end(src, s)
    } else if (c == MINUS || c == PLUS || c == LESS || c == GREATER) && next_is_equal {
        s + 2
    } else if c == QUOTE {
        if string_close(src, s + 1) < src.len() {
            string_close(src, s + 1) + 1
        } else {
            src.len() as int
        }
    } else {
        s + 1
    }
}

/// The message of the error met at `s`, where no token can start.
pub open spec fn scan_error_message(src: Seq<u8>, s: int) -> Seq<char> {
    if src[s] == QUOTE {
        "Unterminated string at "@ + decimal(line_at(src, src.len() as int))
    } else {
        "Unexpected character '"@ + decimal(src[s] as nat) + "'"@
    }
}

proof fn lemma_count_newlines_bound(s: Seq<u8>)
    ensures
        count_newlines(s) <= s.len(),
    decreases s.len(),
{
    if s.len() > 0 {
        lemma_count_newlines_bound(s.drop_last());
    }
}

proof fn lemma_line_step(src: Seq<u8>, i: int)
    requires
        0 <= i < src.len(),
    ensures
        line_at(src, i + 1) == line_at(src, i) + if src[i] == NEWLINE {
            1nat
        } else {
            0nat
        },
        line_at(src, i + 1) <= i + 2,
{
    assert(src.subrange(0, i + 1).drop_last() =~= src.subrange(0, i));
    lemma_count_newlines_bound(src.subrange(0, i + 1));
}

proof fn lemma_skip_from_bounds(src: Seq<u8>, i: int, in_comment: bool)
    requires
        0 <= i <= src.len(),
    ensures
        i <= skip_from(src, i, in_comment) <= src.len(),
        skip_from(src, i, in_comment) < src.len() ==> !is_blank(src[skip_from(src, i, in_comment)])
            && src[skip_from(src, i, in_comment)] != QUESTION_MARK,
    decreases src.len() - i, if in_comment {
        1int
    } else {
        0int
    },
{
    if i < src.len() {
        if in_comment {
            if src[i] == NEWLINE {
                lemma_skip_from_bounds(src, i, false);
            } else {
                lemma_skip_from_bounds(src, i + 1, true);
            }
        } else if is_blank(src[i]) {
            lemma_skip_from_bounds(src, i + 1, false);
        } else if src[i] == QUESTION_MARK {
            lemma_skip_from_bounds(src, i + 1, true);
        }
    }
}

proof fn lemma_ident_end_bounds(src: Seq<u8>, i: int)
    requires
        0 <= i <= src.len(),
    ensures
        i <= ident_end(src, i) <= src.len(),
    decreases src.len() - i,
{
    if i < src.len() && (spec_is_alpha(src[i]) || spec_is_digit(src[i])) {
        lemma_ident_end_bounds(src, i + 1);
    }
}

/// Every byte from `i` up to `ident_end(src, i)` is a letter, digit or underscore, and the
/// byte there (if any) is none of these.
proof fn lemma_ident_end_run(src: Seq<u8>, i: int)
    requires
        0 <= i <= src.len(),
    ensures
        forall|j: int|
            i <= j < ident_end(src, i) ==> spec_is_alpha(#[trigger] src[j]) || spec_is_digit(
                src[j],
            ),
        ident_end(src, i) == src.len() || !(spec_is_alpha(src[ident_end(src, i)])
            || spec_is_digit(src[ident_end(src, i)])),
    decreases src.len() - i,
{
    lemma_ident_end_bounds(src, i);
    if i < src.len() && (spec_is_alpha(src[i]) || spec_is_digit(src[i])) {
        lemma_ident_end_run(src, i + 1);
    }
}

/// A token that starts with a letter or underscore takes in every letter, digit and
/// underscore that follows it: it ends at the first byte that is none of these, or at the
/// end of the source, so a digit right after a letter never starts a new token.
pub proof fn lemma_identifier_extent(src: Seq<u8>, s: int)
    requires
        0 <= s < src.len(),
        spec_is_alpha(src[s]),
    ensures
        s < token_end_at(src, s) <= src.len(),
        forall|j: int|
            s <= j < token_end_at(src, s) ==> spec_is_alpha(#[trigger] src[j]) || spec_is_digit(
                src[j],
            ),
        token_end_at(src, s) == src.len() || !(spec_is_alpha(src[token_end_at(src, s)])
            || spec_is_digit(src[token_end_at(src, s)])),
{
    lemma_ident_end_bounds(src, s + 1);
    lemma_ident_end_run(src, s + 1);
}

proof fn lemma_digits_end_bounds(src: Seq<u8>, i: int)
    requires
        0 <= i <= src.len(),
    ensures
        i <= digits_end(src, i) <= src.len(),
    decreases src.len() - i,
{
    if i < src.len() && spec_is_digit(src[i]) {
        lemma_digits_end_bounds(src, i + 1);
    }
}

proof fn lemma_string_close_bounds(src: Seq<u8>, i: int)
    requires
        0 <= i <= src.len(),
    ensures
        i <= string_close(src, i) <= src.len(),
        string_close(src, i) < src.len() ==> src[string_close(src, i)] == QUOTE,
    decreases src.len() - i,
{
    if i < src.len() && src[i] != QUOTE {
        lemma_string_close_bounds(src, i + 1);
    }
}

proof fn lemma_number_end_bounds(src: Seq<u8>, s: int)
    requires
        0 <= s < src.len(),
    ensures
        s + 1 <= number_end(src, s) <= src.len(),
{
    lemma_digits_end_bounds(src, s + 1);
    let d = digits_end(src, s + 1);
    if d + 1 < src.len() {
        lemma_digits_end_bounds(src, d + 1);
    }
}

proof fn lemma_check_keywords_kind(
    lexeme: Seq<u8>,
    start: int,
    keywords: Seq<(Seq<u8>, TokenType)>,
    i: int,
)
    requires
        forall|j: int|
            0 <= j < keywords.len() ==> keywords[j].1 != TokenType::EOF && keywords[j].1
                != TokenType::String,
    ensures
        check_keywords_from(lexeme, start, keywords, i) != TokenType::EOF,
        check_keywords_from(lexeme, start, keywords, i) != TokenType::String,
    decreases keywords.len() - i,
{
    if 0 <= i < keywords.len() && !keyword_matches(lexeme, start, keywords[i].0) {
        lemma_check_keywords_kind(lexeme, start, keywords, i + 1);
    }
}

/// A word is never taken for the end of the source or for a string.
proof fn lemma_identifier_type_kind(lexeme: Seq<u8>)
    requires
        lexeme.len() > 0,
    ensures
        identifier_type_spec(lexeme) != TokenType::EOF,
        identifier_type_spec(lexeme) != TokenType::String,
{
    let table = keyword_table(lexeme[0]);
    assert(forall|j: int|
        0 <= j < table.len() ==> table[j].1 != TokenType::EOF && table[j].1 != TokenType::String);
    lemma_check_keywords_kind(lexeme, 1, table, 0);
}

/// The token lies in `source`, and a string token spans at least its two quotes.
pub open spec fn token_fits(t: Token, source: Seq<u8>) -> bool {
    &&& t.lexeme.fits(source)
    &&& (t.token_type == TokenType::String ==> t.lexeme.start() + 2 <= t.lexeme.end())
}

/// Reads tokens one at a time from a source text.
#[derive(Debug)]
pub struct Scanner<'src> {
    source: &'src [u8],
    current_start: usize,
    current_end: usize,
    line: u32,
    current_token: Option<Token>,
    previous_token: Option<Token>,
}

impl<'src> Scanner<'src> {
    /// The source text.
    pub closed spec fn source(&self) -> Seq<u8> {
        self.source@
    }

    /// Where the token being read starts.
    pub closed spec fn start(&self) -> int {
        self.current_start as int
    }

    /// How far the source has been read.
    pub closed spec fn pos(&self) -> int {
        self.current_end as int
    }

    /// The line the scanner is on.
    pub closed spec fn line(&self) -> u32 {
        self.line
    }

    /// The last token made.
    pub closed spec fn current(&self) -> Option<Token> {
        self.current_token
    }

    /// The token made before the last one.
    pub closed spec fn previous(&self) -> Option<Token> {
        self.previous_token
    }

    /// The scanner's state is consistent with its source: the positions lie in it, the line
    /// counts the newlines read so far, and the tokens made lie in it.
    pub open spec fn wf(&self) -> bool {
        &&& self.source().len() < u32::MAX
        &&& 0 <= self.start() <= self.pos() <= self.source().len()
        &&& self.line() == line_at(self.source(), self.pos())
        &&& (self.current() matches Some(t) ==> token_fits(t, self.source()))
        &&& (self.previous() matches Some(t) ==> token_fits(t, self.source()))
        &&& (self.at_eof() ==> self.pos() == self.source().len())
    }

    /// The last token made is the end of the source.
    pub open spec fn at_eof(&self) -> bool {
        self.current() matches Some(t) && t.token_type == TokenType::EOF
    }

    /// A measure of the work left: it falls with every call of `scan` until the end of the
    /// source has been reached, and stays the same from then on.
    pub open spec fn progress(&self) -> nat {
        2 * (self.source().len() - self.pos()) as nat + if self.at_eof() {
            0nat
        } else {
            1nat
        }
    }

    /// `t` is the token of kind `typ` that the scanner in state `self` has just made,
    /// coming from state `before`.
    pub open spec fn made_token(&self, before: &Self, t: Token, typ: TokenType) -> bool {
        &&& t.token_type == typ
        &&& t.lexeme.start() == self.start()
        &&& t.lexeme.end() == self.pos()
        &&& token_fits(t, self.source())
        &&& t.line == self.line()
        &&& self.current() == Some(t)
        &&& self.previous() == before.current()
    }

    /// Only the read position differs between `self` and `other`.
    spec fn same_but_position(&self, other: &Self) -> bool {
        &&& self.source == other.source
        &&& self.current_start == other.current_start
        &&& self.line == other.line
        &&& self.current_token == other.current_token
        &&& self.previous_token == other.previous_token
    }

    pub fn new(source: &'src [u8]) -> (s: Self)
        requires
            source@.len() < u32::MAX,
        ensures
            s.wf(),
            s.source() == source@,
            s.start() == 0,
            s.pos() == 0,
            s.line() == 1,
            s.current() is None,
            s.previous() is None,
    {
        let s = Self {
            source,
            current_start: 0,
            current_end: 0,
            line: 1,
            current_token: None,
            previous_token: None,
        };
        assert(source@.subrange(0, 0) =~= Seq::<u8>::empty());
        s
    }

    pub fn get_current_line(&self) -> (l: u32)
        ensures
            l == self.line(),
    {
        self.line
    }

    pub fn get_current_token(&self) -> (t: Option<&Token>)
        ensures
            match t {
                Some(t) => self.current() == Some(*t),
                None => self.current() is None,
            },
    {
        self.current_token.as_ref()
    }

    pub fn get_previous_token(&self) -> (t: Option<&Token>)
        ensures
            match t {
                Some(t) => self.previous() == Some(*t),
                None => self.previous() is None,
            },
    {
        self.previous_token.as_ref()
    }

    fn is_at_end(&self) -> (b: bool)
        ensures
            b == (self.current_end >= self.source@.len()),
    {
        self.current_end >= self.source.len()
    }

    fn make_token(&mut self, typ: TokenType) -> (t: Token)
        requires
            old(self).wf(),
            typ == TokenType::EOF ==> old(self).pos() == old(self).source().len(),
            typ == TokenType::String ==> old(self).start() + 2 <= old(self).pos(),
        ensures
            final(self).wf(),
            final(self).source() == old(self).source(),
            final(self).start() == old(self).start(),
            final(self).pos() == old(self).pos(),
            final(self).line() == old(self).line(),
            final(self).made_token(old(self), t, typ),
    {
        let start = self.current_start;
        let end = self.current_end;
        let lexeme = vstd::slice::slice_subrange(self.source, start, end);
        let hash = GlobalHashMethod::hash(lexeme);
        let lexeme_span = Span::new(start, end, hash);
        let token = Token::new(typ, lexeme_span, self.line);
        self.previous_token = self.current_token.take();
        self.current_token = Some(token);
        token
    }

    /// Gets the current byte and moves past it.
    fn get_and_advance(&mut self) -> (ch: u8)
        requires
            old(self).current_end < old(self).source@.len(),
        ensures
            ch == old(self).source@[old(self).current_end as int],
            final(self).current_end == old(self).current_end + 1,
            final(self).same_but_position(old(self)),
    {
        let ch = self.source[self.current_end];
        self.current_end = self.current_end + 1;
        ch
    }

    fn match_current(&mut self, expected: u8) -> (b: bool)
        requires
            old(self).current_end <= old(self).source@.len(),
        ensures
            b == (old(self).current_end < old(self).source@.len()
                && old(self).source@[old(self).current_end as int] == expected),
            final(self).current_end == old(self).current_end + if b {
                1int
            } else {
                0int
            },
            final(self).same_but_position(old(self)),
    {
        if self.is_at_end() {
            return false;
        }
        if self.source[self.current_end] != expected {
            return false;
        }
        self.current_end = self.current_end + 1;
        true
    }

    fn peek(&self) -> (ch: u8)
        ensures
            ch == byte_at(self.source@, self.current_end as int),
    {
        if self.current_end < self.source.len() {
            self.source[self.current_end]
        } else {
            0
        }
    }

    fn peek_next(&self) -> (ch: Option<u8>)
        ensures
            ch == if self.current_end + 1 < self.source@.len() {
                Some(self.source@[self.current_end + 1])
            } else {
                None::<u8>
            },
    {
        if self.is_at_end() {
            return None;
        }
        if self.source.len() - self.current_end > 1 {
            Some(self.source[self.current_end + 1])
        } else {
            None
        }
    }

    fn skip_whitespace(&mut self)
        requires
            old(self).wf(),
        ensures
            final(self).wf(),
            final(self).pos() == trivia_end(old(self).source(), old(self).pos()),
            final(self).source == old(self).source,
            final(self).current_start == old(self).current_start,
            final(self).current_token == old(self).current_token,
            final(self).previous_token == old(self).previous_token,
    {
        let ghost src = self.source@;
        let ghost target = trivia_end(src, self.current_end as int);
        loop
            invariant
                self.wf(),
                self.source@ == src,
                self.source == old(self).source,
                self.current_start == old(self).current_start,
                self.current_token == old(self).current_token,
                self.previous_token == old(self).previous_token,
                trivia_end(src, self.current_end as int) == target,
                target == trivia_end(src, old(self).current_end as int),
            decreases src.len() - self.current_end,
        {
            let ch = self.peek();
            if ch == SPACE || ch == CARRIAGE_RETURN || ch == TAB {
                proof {
                    lemma_line_step(src, self.current_end as int);
                }
                self.get_and_advance();
            } else if ch == NEWLINE && !self.is_at_end() {
                proof {
                    lemma_line_step(src, self.current_end as int);
                }
                self.line = self.line + 1;
                self.get_and_advance();
            } else if ch == QUESTION_MARK {
                let ghost p0 = self.current_end as int;
                while self.peek() != NEWLINE && !self.is_at_end()
                    invariant
                        self.wf(),
                        self.source@ == src,
                        self.source == old(self).source,
                        self.current_start == old(self).current_start,
                        self.current_token == old(self).current_token,
                        self.previous_token == old(self).previous_token,
                        target == trivia_end(src, old(self).current_end as int),
                        p0 < src.len() && src[p0] == QUESTION_MARK,
                        p0 <= self.current_end,
                        self.current_end == p0 ==> trivia_end(src, p0) == target,
                        self.current_end > p0 ==> skip_from(src, self.current_end as int, true)
                            == target,
                    decreases src.len() - self.current_end,
                {
                    proof {
                        lemma_line_step(src, self.current_end as int);
                    }
                    self.get_and_advance();
                }
            } else {
                assert(skip_from(src, self.current_end as int, false) == self.current_end as int);
                return;
            }
        }
    }

    fn string(&mut self) -> (r: Result<Token, ScannerError>)
        requires
            old(self).wf(),
            old(self).start() + 1 == old(self).pos(),
            old(self).source()[old(self).start()] == QUOTE,
        ensures
            final(self).wf(),
            final(self).source() == old(self).source(),
            final(self).start() == old(self).start(),
            ({
                let src = old(self).source();
                let close = string_close(src, old(self).pos());
                if close < src.len() {
                    &&& final(self).pos() == close + 1
                    &&& r matches Ok(t) && final(self).made_token(old(self), t, TokenType::String)
                } else {
                    &&& final(self).pos() == src.len()
                    &&& r matches Err(e) && e.spec_message() == scan_error_message(
                        src,
                        old(self).start(),
                    )
                    &&& final(self).current() == old(self).current()
                    &&& final(self).previous() == old(self).previous()
                }
            }),
    {
        let ghost src = self.source@;
        let ghost p0 = self.current_end as int;
        proof {
            lemma_string_close_bounds(src, p0);
        }
        while self.peek() != QUOTE && !self.is_at_end()
            invariant
                self.wf(),
                self.source@ == src,
                self.source == old(self).source,
                self.current_start == old(self).current_start,
                self.current_token == old(self).current_token,
                self.previous_token == old(self).previous_token,
                p0 <= self.current_end,
                string_close(src, self.current_end as int) == string_close(src, p0),
            decreases src.len() - self.current_end,
        {
            proof {
                lemma_line_step(src, self.current_end as int);
            }
            if self.peek() == NEWLINE {
                self.line = self.line + 1;
            }
            self.get_and_advance();
        }
        if self.is_at_end() {
            let mut message = String::from_str("Unterminated string at ");
            append_decimal(&mut message, self.line as u64);
            return error(message);
        }
        proof {
            lemma_line_step(src, self.current_end as int);
        }
        self.get_and_advance();
        let token = self.make_token(TokenType::String);
        Ok(token)
    }

    fn number(&mut self) -> (r: Result<Token, ScannerError>)
        requires
            old(self).wf(),
            old(self).start() + 1 == old(self).pos(),
            spec_is_digit(old(self).source()[old(self).start()]),
        ensures
            final(self).wf(),
            final(self).source() == old(self).source(),
            final(self).start() == old(self).start(),
            final(self).pos() == number_end(old(self).source(), old(self).start()),
            r matches Ok(t) && final(self).made_token(old(self), t, TokenType::Number),
    {
        let ghost src = self.source@;
        let ghost s = self.current_start as int;
        while is_digit(self.peek())
            invariant
                self.wf(),
                self.source@ == src,
                self.source == old(self).source,
                self.current_start == old(self).current_start,
                self.current_token == old(self).current_token,
                self.previous_token == old(self).previous_token,
                s + 1 <= self.current_end,
                digits_end(src, self.current_end as int) == digits_end(src, s + 1),
            decreases src.len() - self.current_end,
        {
            proof {
                lemma_line_step(src, self.current_end as int);
            }
            self.get_and_advance();
        }
        let next = self.peek_next();
        let next_byte = match next {
            Some(b) => b,
            None => 0,
        };
        if self.peek() == DOT && is_digit(next_byte) {
            proof {
                lemma_line_step(src, self.current_end as int);
            }
            self.get_and_advance();
            let ghost d1 = self.current_end as int;
            while is_digit(self.peek())
                invariant
                    self.wf(),
                    self.source@ == src,
                    self.source == old(self).source,
                    self.current_start == old(self).current_start,
                    self.current_token == old(self).current_token,
                    self.previous_token == old(self).previous_token,
                    d1 <= self.current_end,
                    digits_end(src, self.current_end as int) == digits_end(src, d1),
                decreases src.len() - self.current_end,
            {
                proof {
                    lemma_line_step(src, self.current_end as int);
                }
                self.get_and_advance();
            }
        }
        let token = self.make_token(TokenType::Number);
        Ok(token)
    }

    fn check_keywords(&self, start: usize, keywords: &[(&[u8], TokenType)]) -> (t: TokenType)
        requires
            self.current_start + start <= self.current_end <= self.source@.len(),
        ensures
            t == check_keywords_from(
                self.source@.subrange(self.current_start as int, self.current_end as int),
                start as int,
                keyword_view(keywords@),
                0,
            ),
    {
        let ghost lexeme = self.source@.subrange(
            self.current_start as int,
            self.current_end as int,
        );
        let ghost table = keyword_view(keywords@);
        let mut i: usize = 0;
        while i < keywords.len()
            invariant
                0 <= i <= keywords@.len(),
                self.current_start + start <= self.current_end <= self.source@.len(),
                lexeme == self.source@.subrange(self.current_start as int, self.current_end as int),
                table == keyword_view(keywords@),
                check_keywords_from(lexeme, start as int, table, 0) == check_keywords_from(
                    lexeme,
                    start as int,
                    table,
                    i as int,
                ),
            decreases keywords@.len() - i,
        {
            let (name, token_type) = keywords[i];
            let length = name.len();
            if self.current_end - self.current_start - start == length {
                let rest = vstd::slice::slice_subrange(
                    self.source,
                    self.current_start + start,
                    self.current_end,
                );
                assert(rest@ == lexeme.subrange(start as int, lexeme.len() as int));
                if bytes_equal(rest, name) {
                    return token_type;
                }
            }
            i = i + 1;
        }
        TokenType::Identifier
    }

    fn identifier_type(&self) -> (t: TokenType)
        requires
            self.wf(),
            self.start() < self.pos(),
        ensures
            t == identifier_type_spec(self.source().subrange(self.start(), self.pos())),
    {
        let ghost lexeme = self.source@.subrange(
            self.current_start as int,
            self.current_end as int,
        );
        let first = self.source[self.current_start];
        assert(lexeme[0] == first);
        if first == 97 {
            let keywords: &[(&[u8], TokenType)] = &[(&[110, 100], TokenType::And)];
            assert(keyword_view(keywords@) =~= keyword_table(first));
            self.check_keywords(1, keywords)
        } else if first == 98 {
            let keywords: &[(&[u8], TokenType)] = &[(&[114, 101, 97, 107], TokenType::Break)];
            assert(keyword_view(keywords@) =~= keyword_table(first));
            self.check_keywords(1, keywords)
        } else if first == 99 {
            let keywords: &[(&[u8], TokenType)] = &[
                (&[108, 97, 115, 115], TokenType::Class),
                (&[111, 110, 116, 105, 110, 117, 101], TokenType::Continue),
            ];
            assert(keyword_view(keywords@) =~= keyword_table(first));
            self.check_keywords(1, keywords)
        } else if first == 101 {
            let keywords: &[(&[u8], TokenType)] = &[(&[101, 108, 115, 101], TokenType::Else)];
            assert(keyword_view(keywords@) =~= keyword_table(first));
            self.check_keywords(1, keywords)
        } else if first == 102 {
            let keywords: &[(&[u8], TokenType)] = &[
                (&[111, 114], TokenType::For),
                (&[97, 108, 115, 101], TokenType::False),
                (&[110], TokenType::Fn),
            ];
            assert(keywords@[2].0@ =~= seq![110u8]);
            assert(keyword_view(keywords@) =~= keyword_table(first));
            self.check_keywords(1, keywords)
        } else if first == 105 {
            let keywords: &[(&[u8], TokenType)] = &[(&[102], TokenType::If), (&[115], TokenType::Is)];
            assert(keywords@[0].0@ =~= seq![102u8] && keywords@[1].0@ =~= seq![115u8]);
            assert(keyword_view(keywords@) =~= keyword_table(first));
            self.check_keywords(1, keywords)
        } else if first == 110 {
            let keywords: &[(&[u8], TokenType)] = &[
                (&[111, 116], TokenType::Not),
                (&[111, 110, 101], TokenType::NoneKeyword),
            ];
            assert(keyword_view(keywords@) =~= keyword_table(first));
            self.check_keywords(1, keywords)
        } else if first == 111 {
            let keywords: &[(&[u8], TokenType)] = &[(&[114], TokenType::Or)];
            assert(keywords@[0].0@ =~= seq![114u8]);
            assert(keyword_view(keywords@) =~= keyword_table(first));
            self.check_keywords(1, keywords)
        } else if first == 114 {
            let keywords: &[(&[u8], TokenType)] = &[(&[101, 116, 117, 114, 110], TokenType::Return)];
            assert(keyword_view(keywords@) =~= keyword_table(first));
            self.check_keywords(1, keywords)
        } else if first == 115 {
            let keywords: &[(&[u8], TokenType)] = &[(&[117, 112, 101, 114], TokenType::Super)];
            assert(keyword_view(keywords@) =~= keyword_table(first));
            self.check_keywords(1, keywords)
        } else if first == 116 {
            let keywords: &[(&[u8], TokenType)] = &[
                (&[114, 117, 101], TokenType::True),
                (&[104, 105, 115], TokenType::This),
            ];
            assert(keyword_view(keywords@) =~= keyword_table(first));
            self.check_keywords(1, keywords)
        } else if first == 108 {
            let keywords: &[(&[u8], TokenType)] = &[(&[101, 116], TokenType::Let)];
            assert(keyword_view(keywords@) =~= keyword_table(first));
            self.check_keywords(1, keywords)
        } else if first == 119 {
            let keywords: &[(&[u8], TokenType)] = &[(&[104, 105, 108, 101], TokenType::While)];
            assert(keyword_view(keywords@) =~= keyword_table(first));
            self.check_keywords(1, keywords)
        } else {
            TokenType::Identifier
        }
    }

    fn identifier(&mut self) -> (r: Result<Token, ScannerError>)
        requires
            old(self).wf(),
            old(self).start() + 1 == old(self).pos(),
            spec_is_alpha(old(self).source()[old(self).start()]),
        ensures
            final(self).wf(),
            final(self).source() == old(self).source(),
            final(self).start() == old(self).start(),
            final(self).pos() == ident_end(old(self).source(), old(self).pos()),
            r matches Ok(t) && final(self).made_token(
                old(self),
                t,
                identifier_type_spec(
                    old(self).source().subrange(
                        old(self).start(),
                        ident_end(old(self).source(), old(self).pos()),
                    ),
                ),
            ),
    {
        let ghost src = self.source@;
        let ghost p0 = self.current_end as int;
        while is_alpha(self.peek()) || is_digit(self.peek())
            invariant
                self.wf(),
                self.source@ == src,
                self.source == old(self).source,
                self.current_start == old(self).current_start,
                self.current_token == old(self).current_token,
                self.previous_token == old(self).previous_token,
                p0 <= self.current_end,
                ident_end(src, self.current_end as int) == ident_end(src, p0),
            decreases src.len() - self.current_end,
        {
            proof {
                lemma_line_step(src, self.current_end as int);
            }
            self.get_and_advance();
        }
        let typ = self.identifier_type();
        proof {
            lemma_identifier_type_kind(src.subrange(self.current_start as int, self.current_end as int));
        }
        let token = self.make_token(typ);
        Ok(token)
    }

    /// Reads the next token: skips blanks and comments, then makes the token that starts
    /// there, or `EOF` at the end of the source, or gives the error met.
    pub fn scan(&mut self) -> (r: Result<Token, ScannerError>)
        requires
            old(self).wf(),
        ensures
            final(self).wf(),
            final(self).source() == old(self).source(),
            final(self).start() == trivia_end(old(self).source(), old(self).pos()),
            old(self).pos() <= final(self).start() <= final(self).pos(),
            final(self).progress() <= old(self).progress(),
            !old(self).at_eof() ==> final(self).progress() < old(self).progress(),
            old(self).at_eof() ==> final(self).at_eof() && final(self).previous() == old(self).current(),
            ({
                let src = old(self).source();
                let s = trivia_end(src, old(self).pos());
                s < src.len() && spec_is_alpha(src[s]) ==> {
                    &&& r matches Ok(t) && t.lexeme.start() == s && t.lexeme.end()
                        == final(self).pos()
                    &&& s < final(self).pos()
                    &&& forall|j: int|
                        s <= j < final(self).pos() ==> spec_is_alpha(#[trigger] src[j])
                            || spec_is_digit(src[j])
                    &&& final(self).pos() == src.len() || !(spec_is_alpha(src[final(self).pos()])
                        || spec_is_digit(src[final(self).pos()]))
                }
            }),
            ({
                let src = old(self).source();
                let s = trivia_end(src, old(self).pos());
                if s >= src.len() {
                    &&& final(self).pos() == s
                    &&& r matches Ok(t) && final(self).made_token(old(self), t, TokenType::EOF)
                } else {
                    &&& final(self).pos() == token_end_at(src, s)
                    &&& match token_kind_at(src, s) {
                        Some(kind) => r matches Ok(t) && final(self).made_token(old(self), t, kind),
                        None => {
                            &&& r matches Err(e) && e.spec_message() == scan_error_message(src, s)
                            &&& final(self).current() == old(self).current()
                            &&& final(self).previous() == old(self).previous()
                        },
                    }
                }
            }),
    {
        let ghost src = self.source@;
        proof {
            lemma_skip_from_bounds(src, self.current_end as int, false);
        }
        self.skip_whitespace();
        self.current_start = self.current_end;
        if self.is_at_end() {
            let token = self.make_token(TokenType::EOF);
            return Ok(token);
        }
        let ghost s = self.current_end as int;
        proof {
            lemma_line_step(src, s);
            lemma_ident_end_bounds(src, s + 1);
            lemma_digits_end_bounds(src, s + 1);
            lemma_number_end_bounds(src, s);
            lemma_string_close_bounds(src, s + 1);
        }
        let ch = self.get_and_advance();
        if is_alpha(ch) {
            let r = self.identifier();
            proof {
                lemma_identifier_extent(src, s);
            }
            return r;
        } else if is_digit(ch) {
            return self.number();
        }
        if ch == QUOTE {
            return self.string();
        }
        if ch == MINUS || ch == PLUS || ch == LESS || ch == GREATER {
            proof {
                if s + 1 < src.len() {
                    lemma_line_step(src, s + 1);
                }
            }
            let followed_by_equal = self.match_current(EQUAL);
            let typ = if ch == MINUS {
                if followed_by_equal {
                    TokenType::MinusEqual
                } else {
                    TokenType::Minus
                }
            } else if ch == PLUS {
                if followed_by_equal {
                    TokenType::PlusEqual
                } else {
                    TokenType::Plus
                }
            } else if ch == LESS {
                if followed_by_equal {
                    TokenType::LessEqual
                } else {
                    TokenType::Less
                }
            } else {
                if followed_by_equal {
                    TokenType::GreaterEqual
                } else {
                    TokenType::Greater
                }
            };
            let token = self.make_token(typ);
            return Ok(token);
        }
        let typ = if ch == LEFT_PAREN {
            TokenType::LeftParen
        } else if ch == RIGHT_PAREN {
            TokenType::RightParen
        } else if ch == LEFT_BRACE {
            TokenType::LeftBrace
        } else if ch == RIGHT_BRACE {
            TokenType::RightBrace
        } else if ch == SEMICOLON {
            TokenType::Semicolon
        } else if ch == COMMA {
            TokenType::Comma
        } else if ch == DOT {
            TokenType::Dot
        } else if ch == SLASH {
            TokenType::Slash
        } else if ch == STAR {
            TokenType::Star
        } else if ch == EQUAL {
            TokenType::Equal
        } else {
            let mut message = String::from_str("Unexpected character '");
            append_decimal(&mut message, ch as u64);
            message.append("'");
            return error(message);
        };
        let token = self.make_token(typ);
        Ok(token)
    }
}

} // verus!
