//! The tokenizer: produces one token at a time from a byte view of the
//! source, skipping whitespace and line comments and counting lines.
use vstd::prelude::*;
use crate::number::{is_digit_byte, is_number_lexeme, all_digit_bytes};
use crate::text::{ascii_bytes, bytes_equal, str_bytes};

verus! {

#[derive(Clone, Copy, PartialEq, Eq, Structural, Debug)]
pub enum TokenType {
    LeftParen,
    RightParen,
    LeftBrace,
    RightBrace,
    Comma,
    Dot,
    Minus,
    Plus,
    Semicolon,
    Slash,
    Star,
    Bang,
    BangEqual,
    Equal,
    EqualEqual,
    Greater,
    GreaterEqual,
    Less,
    LessEqual,
    Identifier,
    String,
    Number,
    And,
    Class,
    Else,
    False,
    For,
    Fun,
    If,
    Nil,
    Or,
    Print,
    Return,
    Super,
    This,
    True,
    Var,
    While,
    Error,
    Eof,
}

/// A token: its kind, the bytes of its lexeme (for an `Error` token, the
/// diagnostic message), and the line it ends on.
pub struct Token {
    pub token_type: TokenType,
    pub lexeme: Vec<u8>,
    pub line: usize,
}

impl Clone for Token {
    fn clone(&self) -> (r: Token)
        ensures
            r.token_type == self.token_type,
            r.lexeme@ == self.lexeme@,
            r.line == self.line,
    {
        Token {
            token_type: self.token_type,
            lexeme: crate::value::clone_bytes(&self.lexeme),
            line: self.line,
        }
    }
}

/// Space, carriage return, or tab.
pub open spec fn is_ws_byte(b: u8) -> bool {
    b == 0x20 || b == 0x0D || b == 0x09
}

/// The position of the newline that ends the line holding position `i`:
/// the first newline at or after `i`, or the end of the source.
pub open spec fn spec_line_end(src: Seq<u8>, i: int) -> int
    decreases src.len() - i,
{
    if !(0 <= i < src.len()) {
        src.len() as int
    } else if src[i] == 0x0A {
        i
    } else {
        spec_line_end(src, i + 1)
    }
}

proof fn lemma_line_end_bounds(src: Seq<u8>, i: int)
    requires
        0 <= i <= src.len(),
    ensures
        i <= spec_line_end(src, i) <= src.len(),
    decreases src.len() - i,
{
    if i < src.len() && src[i] != 0x0A {
        lemma_line_end_bounds(src, i + 1);
    }
}

#[via_fn]
proof fn spec_skip_ws_decreases(src: Seq<u8>, i: int, line: int) {
    if 0 <= i < src.len() && !is_ws_byte(src[i]) && src[i] != 0x0A && src[i] == 0x2F && i + 1
        < src.len() && src[i + 1] == 0x2F {
        lemma_line_end_bounds(src, i + 1);
    }
}

/// The read position and line counter after skipping spaces, tabs,
/// carriage returns, newlines (each advancing the line) and `//`
/// comments (which run to the next newline) from position `i`.
pub open spec fn spec_skip_ws(src: Seq<u8>, i: int, line: int) -> (int, int)
    decreases src.len() - i,
        via spec_skip_ws_decreases
{
    if !(0 <= i < src.len()) {
        (i, line)
    } else if is_ws_byte(src[i]) {
        spec_skip_ws(src, i + 1, line)
    } else if src[i] == 0x0A {
        spec_skip_ws(src, i + 1, line + 1)
    } else if src[i] == 0x2F && i + 1 < src.len() && src[i + 1] == 0x2F {
        spec_skip_ws(src, spec_line_end(src, i + 1), line)
    } else {
        (i, line)
    }
}

/// An ASCII letter or underscore.
pub open spec fn is_alpha_byte(b: u8) -> bool {
    (0x61 <= b <= 0x7A) || (0x41 <= b <= 0x5A) || b == 0x5F
}

/// The end of an identifier read from `i`: the first position holding
/// neither a letter, underscore nor digit, or the end of the source.
pub open spec fn spec_ident_end(src: Seq<u8>, i: int) -> int
    decreases src.len() - i,
{
    if !(0 <= i < src.len()) {
        src.len() as int
    } else if is_alpha_byte(src[i]) || is_digit_byte(src[i]) {
        spec_ident_end(src, i + 1)
    } else {
        i
    }
}

/// The end of a run of digits read from `i`.
pub open spec fn spec_digits_end(src: Seq<u8>, i: int) -> int
    decreases src.len() - i,
{
    if !(0 <= i < src.len()) {
        src.len() as int
    } else if is_digit_byte(src[i]) {
        spec_digits_end(src, i + 1)
    } else {
        i
    }
}

/// The end of a number read from `i`: its digits, and a point followed
/// by more digits only when a digit follows the point.
pub open spec fn spec_number_end(src: Seq<u8>, i: int) -> int {
    let d = spec_digits_end(src, i);
    if d + 1 < src.len() && src[d] == 0x2E && is_digit_byte(src[d + 1]) {
        spec_digits_end(src, d + 2)
    } else {
        d
    }
}

/// The position of the closing quote of a string whose content starts at
/// `i`, or the end of the source if it never closes.
pub open spec fn spec_close_quote(src: Seq<u8>, i: int) -> int
    decreases src.len() - i,
{
    if !(0 <= i < src.len()) {
        src.len() as int
    } else if src[i] == 0x22 {
        i
    } else {
        spec_close_quote(src, i + 1)
    }
}

/// How many newline bytes lie in `[i, j)`.
pub open spec fn spec_count_newlines(src: Seq<u8>, i: int, j: int) -> int
    decreases j - i,
{
    if i >= j {
        0
    } else {
        (if 0 <= i < src.len() && src[i] == 0x0A {
            1int
        } else {
            0int
        }) + spec_count_newlines(src, i + 1, j)
    }
}

proof fn lemma_count_newlines_step(src: Seq<u8>, a: int, c: int)
    requires
        a <= c,
    ensures
        spec_count_newlines(src, a, c + 1) == spec_count_newlines(src, a, c) + (
        if 0 <= c < src.len() && src[c] == 0x0A {
            1int
        } else {
            0int
        }),
    decreases c - a,
{
    reveal_with_fuel(spec_count_newlines, 2);
    if a < c {
        lemma_count_newlines_step(src, a + 1, c);
    }
}

/// A string literal opened at `i` that never closes: a quote with no
/// second quote anywhere after it.
pub open spec fn unterminated_string_at(src: Seq<u8>, i: int) -> bool {
    0 <= i < src.len() && src[i] == 0x22 && forall|j: int| i < j < src.len() ==> src[j] != 0x22
}

/// A byte that begins some token: a letter or underscore, a digit, a
/// punctuation or operator byte, or a double quote.  Any other byte is
/// the unexpected-character lexical error.
pub open spec fn is_token_start_byte(b: u8) -> bool {
    ||| is_alpha_byte(b)
    ||| is_digit_byte(b)
    ||| b == 0x28
    ||| b == 0x29
    ||| b == 0x7B
    ||| b == 0x7D
    ||| b == 0x3B
    ||| b == 0x2E
    ||| b == 0x2C
    ||| b == 0x2D
    ||| b == 0x2B
    ||| b == 0x2F
    ||| b == 0x2A
    ||| b == 0x21
    ||| b == 0x3D
    ||| b == 0x3C
    ||| b == 0x3E
    ||| b == 0x22
}

/// A letter or underscore, then letters, underscores or digits.
pub open spec fn is_identifier_lexeme(s: Seq<u8>) -> bool {
    s.len() > 0 && is_alpha_byte(s[0]) && forall|i: int|
        0 < i < s.len() ==> is_alpha_byte(#[trigger] s[i]) || is_digit_byte(s[i])
}

/// A double quote, then bytes other than a double quote, then a double
/// quote.
pub open spec fn is_string_lexeme(s: Seq<u8>) -> bool {
    s.len() >= 2 && s[0] == 0x22 && s[s.len() - 1] == 0x22 && forall|i: int|
        0 < i < s.len() - 1 ==> #[trigger] s[i] != 0x22
}

/// The keyword an identifier-shaped lexeme denotes, or `Identifier`.
pub open spec fn spec_keyword(s: Seq<u8>) -> TokenType {
    if s == ascii_bytes("and"@) {
        TokenType::And
    } else if s == ascii_bytes("class"@) {
        TokenType::Class
    } else if s == ascii_bytes("else"@) {
        TokenType::Else
    } else if s == ascii_bytes("false"@) {
        TokenType::False
    } else if s == ascii_bytes("for"@) {
        TokenType::For
    } else if s == ascii_bytes("fun"@) {
        TokenType::Fun
    } else if s == ascii_bytes("if"@) {
        TokenType::If
    } else if s == ascii_bytes("nil"@) {
        TokenType::Nil
    } else if s == ascii_bytes("or"@) {
        TokenType::Or
    } else if s == ascii_bytes("print"@) {
        TokenType::Print
    } else if s == ascii_bytes("return"@) {
        TokenType::Return
    } else if s == ascii_bytes("super"@) {
        TokenType::Super
    } else if s == ascii_bytes("this"@) {
        TokenType::This
    } else if s == ascii_bytes("true"@) {
        TokenType::True
    } else if s == ascii_bytes("var"@) {
        TokenType::Var
    } else if s == ascii_bytes("while"@) {
        TokenType::While
    } else {
        TokenType::Identifier
    }
}

/// What the lexeme of a token of each kind looks like.
pub open spec fn lexeme_matches_kind(kind: TokenType, s: Seq<u8>) -> bool {
    match kind {
        TokenType::LeftParen => s == ascii_bytes("("@),
        TokenType::RightParen => s == ascii_bytes(")"@),
        TokenType::LeftBrace => s == ascii_bytes("{"@),
        TokenType::RightBrace => s == ascii_bytes("}"@),
        TokenType::Comma => s == ascii_bytes(","@),
        TokenType::Dot => s == ascii_bytes("."@),
        TokenType::Minus => s == ascii_bytes("-"@),
        TokenType::Plus => s == ascii_bytes("+"@),
        TokenType::Semicolon => s == ascii_bytes(";"@),
        TokenType::Slash => s == ascii_bytes("/"@),
        TokenType::Star => s == ascii_bytes("*"@),
        TokenType::Bang => s == ascii_bytes("!"@),
        TokenType::BangEqual => s == ascii_bytes("!="@),
        TokenType::Equal => s == ascii_bytes("="@),
        TokenType::EqualEqual => s == ascii_bytes("=="@),
        TokenType::Greater => s == ascii_bytes(">"@),
        TokenType::GreaterEqual => s == ascii_bytes(">="@),
        TokenType::Less => s == ascii_bytes("<"@),
        TokenType::LessEqual => s == ascii_bytes("<="@),
        TokenType::Identifier => is_identifier_lexeme(s) && spec_keyword(s) == TokenType::Identifier,
        TokenType::String => is_string_lexeme(s),
        TokenType::Number => is_number_lexeme(s),
        TokenType::And => s == ascii_bytes("and"@),
        TokenType::Class => s == ascii_bytes("class"@),
        TokenType::Else => s == ascii_bytes("else"@),
        TokenType::False => s == ascii_bytes("false"@),
        TokenType::For => s == ascii_bytes("for"@),
        TokenType::Fun => s == ascii_bytes("fun"@),
        TokenType::If => s == ascii_bytes("if"@),
        TokenType::Nil => s == ascii_bytes("nil"@),
        TokenType::Or => s == ascii_bytes("or"@),
        TokenType::Print => s == ascii_bytes("print"@),
        TokenType::Return => s == ascii_bytes("return"@),
        TokenType::Super => s == ascii_bytes("super"@),
        TokenType::This => s == ascii_bytes("this"@),
        TokenType::True => s == ascii_bytes("true"@),
        TokenType::Var => s == ascii_bytes("var"@),
        TokenType::While => s == ascii_bytes("while"@),
        TokenType::Error => s == ascii_bytes("Unexpected character."@) || s == ascii_bytes(
            "Unterminated string."@,
        ),
        TokenType::Eof => s == Seq::<u8>::empty(),
    }
}

/// The tokenizer's state: the source bytes, the start of the lexeme
/// being scanned, the read position, and the current line.
pub struct Scanner<'a> {
    pub source: &'a [u8],
    pub start: usize,
    pub current: usize,
    pub line: usize,
}

pub fn init_scanner(source: &[u8]) -> (r: Scanner<'_>)
    requires
        source@.len() < usize::MAX,
    ensures
        r.wf(),
        r.source@ == source@,
        r.start == 0,
        r.current == 0,
        r.line == 1,
{
    Scanner { source, start: 0, current: 0, line: 1 }
}

impl<'a> Scanner<'a> {
    /// Positions are in bounds and the line counter cannot outrun the
    /// read position.
    pub open spec fn wf(&self) -> bool {
        &&& self.start <= self.current <= self.source@.len()
        &&& self.source@.len() < usize::MAX
        &&& 1 <= self.line <= self.current + 1
    }

    fn is_at_end(&self) -> (r: bool)
        ensures
            r == (self.current >= self.source@.len()),
    {
        self.current >= self.source.len()
    }

    /// The byte at the read position, or zero at the end.
    fn peek(&self) -> (r: u8)
        requires
            self.current <= self.source@.len(),
        ensures
            r == if self.current < self.source@.len() {
                self.source@[self.current as int]
            } else {
                0u8
            },
    {
        if self.current < self.source.len() {
            self.source[self.current]
        } else {
            0
        }
    }

    /// The byte after the read position, or zero at or past the end.
    fn peek_next(&self) -> (r: u8)
        requires
            self.current <= self.source@.len(),
            self.source@.len() < usize::MAX,
        ensures
            r == if self.current + 1 < self.source@.len() {
                self.source@[self.current as int + 1]
            } else {
                0u8
            },
    {
        if self.current + 1 < self.source.len() {
            self.source[self.current + 1]
        } else {
            0
        }
    }

    /// Consume and return the byte at the read position.
    fn advance(&mut self) -> (r: u8)
        requires
            old(self).current < old(self).source@.len(),
        ensures
            final(self).current == old(self).current + 1,
            r == old(self).source@[old(self).current as int],
            final(self).source@ == old(self).source@,
            final(self).start == old(self).start,
            final(self).line == old(self).line,
    {
        let b = self.source[self.current];
        self.current = self.current + 1;
        b
    }

    /// Consume the byte at the read position if it equals `expected`.
    fn match_ch(&mut self, expected: u8) -> (r: bool)
        requires
            old(self).current <= old(self).source@.len(),
            old(self).source@.len() < usize::MAX,
        ensures
            final(self).source@ == old(self).source@,
            final(self).start == old(self).start,
            final(self).line == old(self).line,
            r == (old(self).current < old(self).source@.len() && old(self).source@[old(self).current as int] == expected),
            final(self).current == if r {
                old(self).current + 1
            } else {
                old(self).current as int
            },
    {
        if self.is_at_end() {
            return false;
        }
        if self.peek() != expected {
            return false;
        }
        self.current = self.current + 1;
        true
    }

    /// A token whose lexeme is the bytes scanned since `start`.
    fn make_token(&self, token_type: TokenType) -> (r: Token)
        requires
            self.start <= self.current <= self.source@.len(),
        ensures
            r.token_type == token_type,
            r.lexeme@ == self.source@.subrange(self.start as int, self.current as int),
            r.line == self.line,
    {
        let piece = vstd::slice::slice_subrange(self.source, self.start, self.current);
        Token { token_type, lexeme: vstd::slice::slice_to_vec(piece), line: self.line }
    }

    /// An `Error` token carrying a diagnostic message.
    fn error_token(&self, message: &[u8]) -> (r: Token)
        ensures
            r.token_type == TokenType::Error,
            r.lexeme@ == message@,
            r.line == self.line,
    {
        Token {
            token_type: TokenType::Error,
            lexeme: vstd::slice::slice_to_vec(message),
            line: self.line,
        }
    }

    /// Skip spaces, tabs, carriage returns, newlines (counting lines) and
    /// `//` comments; stop exactly where `spec_skip_ws` says the next
    /// token starts, with the line counter it says.
    fn skip_whitespace(&mut self)
        requires
            old(self).wf(),
        ensures
            final(self).wf(),
            final(self).source@ == old(self).source@,
            final(self).start == old(self).start,
            final(self).current >= old(self).current,
            final(self).line >= old(self).line,
            (final(self).current as int, final(self).line as int) == spec_skip_ws(
                final(self).source@,
                old(self).current as int,
                old(self).line as int,
            ),
    {
        let ghost src = self.source@;
        loop
            invariant
                self.wf(),
                self.source@ == src,
                src == old(self).source@,
                self.start == old(self).start,
                self.current >= old(self).current,
                self.line >= old(self).line,
                spec_skip_ws(src, old(self).current as int, old(self).line as int)
                    == spec_skip_ws(src, self.current as int, self.line as int),
            decreases self.source@.len() - self.current,
        {
            let c = self.peek();
            if c == 0x20 || c == 0x0D || c == 0x09 {
                let _ = self.advance();
            } else if c == 0x0A {
                self.line = self.line + 1;
                let _ = self.advance();
            } else if c == 0x2F {
                if self.peek_next() == 0x2F {
                    let ghost before = self.current as int;
                    while self.peek() != 0x0A && !self.is_at_end()
                        invariant
                            self.wf(),
                            self.source@ == src,
                            self.start == old(self).start,
                            self.current >= old(self).current,
                            self.current >= before,
                            self.current == before ==> self.current < self.source@.len()
                                && self.source@[before] == 0x2F,
                            self.line >= old(self).line,
                            self.line == old(self).line || self.line <= self.current + 1,
                            spec_line_end(src, before) == spec_line_end(
                                src,
                                self.current as int,
                            ),
                            spec_skip_ws(src, old(self).current as int, old(self).line as int)
                                == spec_skip_ws(src, before, self.line as int),
                        decreases self.source@.len() - self.current,
                    {
                        let _ = self.advance();
                    }
                    proof {
                        assert(self.current > before);
                        if (self.current as int) < src.len() {
                            assert(spec_line_end(src, self.current as int)
                                == self.current as int);
                        }
                        assert(self.current as int == spec_line_end(src, before));
                        assert(spec_line_end(src, before) == spec_line_end(src, before + 1));
                        assert(spec_skip_ws(src, before, self.line as int) == spec_skip_ws(
                            src,
                            self.current as int,
                            self.line as int,
                        ));
                    }
                } else {
                    proof {
                        assert(spec_skip_ws(src, self.current as int, self.line as int) == (
                        self.current as int,
                        self.line as int,
                        ));
                    }
                    return ;
                }
            } else {
                proof {
                    assert(spec_skip_ws(src, self.current as int, self.line as int) == (
                    self.current as int,
                    self.line as int,
                    ));
                }
                return ;
            }
        }
    }

    /// Scan the rest of a string literal, whose opening quote has been
    /// consumed; newlines inside it advance the line counter.
    fn string(&mut self) -> (r: Token)
        requires
            old(self).wf(),
            old(self).start < old(self).current,
            old(self).source@[old(self).current - 1] == 0x22,
            old(self).current == old(self).start + 1,
        ensures
            final(self).wf(),
            final(self).source@ == old(self).source@,
            final(self).start == old(self).start,
            final(self).current >= old(self).current,
            final(self).line >= old(self).line,
            r.line == final(self).line,
            r.token_type == TokenType::String || r.token_type == TokenType::Error,
            r.token_type == TokenType::String ==> r.lexeme@ == final(self).source@.subrange(
                final(self).start as int,
                final(self).current as int,
            ) && is_string_lexeme(r.lexeme@) && final(self).current > old(self).current,
            r.token_type == TokenType::Error ==> lexeme_matches_kind(TokenType::Error, r.lexeme@),
            (r.token_type == TokenType::Error) <==> unterminated_string_at(
                final(self).source@,
                final(self).start as int,
            ),
            r.token_type == TokenType::Error ==> r.lexeme@ == ascii_bytes("Unterminated string."@)
                && final(self).current == final(self).source@.len(),
            r.token_type == TokenType::String ==> final(self).current == spec_close_quote(
                final(self).source@,
                old(self).current as int,
            ) + 1,
            r.token_type == TokenType::String ==> final(self).line == old(self).line
                + spec_count_newlines(
                final(self).source@,
                old(self).current as int,
                final(self).current - 1,
            ),
            r.token_type == TokenType::Error ==> final(self).line == old(self).line
                + spec_count_newlines(
                final(self).source@,
                old(self).current as int,
                final(self).source@.len() as int,
            ),
    {
        while self.peek() != 0x22 && !self.is_at_end()
            invariant
                self.wf(),
                self.source@ == old(self).source@,
                self.start == old(self).start,
                self.current >= old(self).current,
                self.line >= old(self).line,
                forall|i: int|
                    old(self).current <= i < self.current ==> #[trigger] self.source@[i] != 0x22,
                spec_close_quote(self.source@, old(self).current as int) == spec_close_quote(
                    self.source@,
                    self.current as int,
                ),
                self.line == old(self).line + spec_count_newlines(
                    self.source@,
                    old(self).current as int,
                    self.current as int,
                ),
            decreases self.source@.len() - self.current,
        {
            proof {
                lemma_count_newlines_step(
                    self.source@,
                    old(self).current as int,
                    self.current as int,
                );
            }
            if self.peek() == 0x0A {
                self.line = self.line + 1;
            }
            let _ = self.advance();
        }
        if self.is_at_end() {
            proof {
                reveal_strlit("Unterminated string.");
                assert(unterminated_string_at(self.source@, self.start as int));
            }
            return self.error_token(str_bytes("Unterminated string."));
        }
        proof {
            assert(self.source@[self.current as int] == 0x22);
            assert(spec_close_quote(self.source@, self.current as int) == self.current as int);
            assert(!unterminated_string_at(self.source@, self.start as int));
        }
        let _ = self.advance();
        let r = self.make_token(TokenType::String);
        proof {
            let s = r.lexeme@;
            assert(s[0] == 0x22);
            assert(s[s.len() - 1] == 0x22);
            assert(is_string_lexeme(s));
        }
        r
    }

    fn is_digit(&self, c: u8) -> (r: bool)
        ensures
            r == is_digit_byte(c),
    {
        c >= 0x30 && c <= 0x39
    }

    fn is_alpha(&self, c: u8) -> (r: bool)
        ensures
            r == is_alpha_byte(c),
    {
        (c >= 0x61 && c <= 0x7A) || (c >= 0x41 && c <= 0x5A) || c == 0x5F
    }

    /// Scan the rest of a number literal, whose first digit has been
    /// consumed: more digits, then optionally a point and more digits.
    fn number(&mut self) -> (r: Token)
        requires
            old(self).wf(),
            old(self).start < old(self).current,
            old(self).current == old(self).start + 1,
            is_digit_byte(old(self).source@[old(self).start as int]),
        ensures
            final(self).wf(),
            final(self).source@ == old(self).source@,
            final(self).start == old(self).start,
            final(self).current >= old(self).current,
            final(self).line == old(self).line,
            r.token_type == TokenType::Number,
            r.line == final(self).line,
            r.lexeme@ == final(self).source@.subrange(final(self).start as int, final(self).current as int),
            is_number_lexeme(r.lexeme@),
            final(self).current as int == spec_number_end(
                final(self).source@,
                old(self).start as int,
            ),
    {
        proof {
            assert(spec_digits_end(self.source@, self.start as int) == spec_digits_end(
                self.source@,
                self.current as int,
            ));
        }
        while self.is_digit(self.peek())
            invariant
                self.wf(),
                self.source@ == old(self).source@,
                self.start == old(self).start,
                self.line == old(self).line,
                self.current >= old(self).current,
                spec_digits_end(self.source@, self.start as int) == spec_digits_end(
                    self.source@,
                    self.current as int,
                ),
                forall|i: int|
                    self.start <= i < self.current ==> is_digit_byte(#[trigger] self.source@[i]),
            decreases self.source@.len() - self.current,
        {
            let _ = self.advance();
        }
        proof {
            assert(spec_digits_end(self.source@, self.start as int) == self.current as int);
        }
        let ghost intpart_end = self.current as int;
        if self.peek() == 0x2E && self.is_digit(self.peek_next()) {
            let ghost dotpos = self.current as int;
            let _ = self.advance();
            proof {
                assert(spec_digits_end(self.source@, dotpos + 2) == spec_digits_end(
                    self.source@,
                    dotpos + 1,
                ));
            }
            while self.is_digit(self.peek())
                invariant
                    self.wf(),
                    self.source@ == old(self).source@,
                    self.start == old(self).start,
                    self.line == old(self).line,
                    dotpos == intpart_end,
                    spec_digits_end(self.source@, self.start as int) == dotpos,
                    self.start < dotpos < self.current,
                    self.source@[dotpos] == 0x2E,
                    dotpos + 1 < self.source@.len(),
                    is_digit_byte(self.source@[dotpos + 1]),
                    spec_digits_end(self.source@, dotpos + 2) == spec_digits_end(
                        self.source@,
                        self.current as int,
                    ),
                    forall|i: int|
                        self.start <= i < dotpos ==> is_digit_byte(#[trigger] self.source@[i]),
                    forall|i: int|
                        dotpos < i < self.current ==> is_digit_byte(#[trigger] self.source@[i]),
                decreases self.source@.len() - self.current,
            {
                let _ = self.advance();
            }
            proof {
                assert(spec_digits_end(self.source@, dotpos + 2) == self.current as int);
            }
            proof {
                if self.current == dotpos + 1 {
                    assert(is_digit_byte(self.source@[self.current as int]));
                }
            }
            let r = self.make_token(TokenType::Number);
            proof {
                let s = r.lexeme@;
                let k = dotpos - self.start;
                assert(s[k] == 0x2E);
                assert(all_digit_bytes(s.subrange(0, k)));
                assert(all_digit_bytes(s.subrange(k + 1, s.len() as int)));
                assert(0 < k < s.len() - 1);
                assert(is_number_lexeme(s));
            }
            r
        } else {
            let r = self.make_token(TokenType::Number);
            proof {
                assert(all_digit_bytes(r.lexeme@));
                assert(r.lexeme@.len() > 0);
            }
            r
        }
    }

    /// Scan the rest of an identifier or keyword, whose first byte has
    /// been consumed.
    fn identifier(&mut self) -> (r: Token)
        requires
            old(self).wf(),
            old(self).start < old(self).current,
            old(self).current == old(self).start + 1,
            is_alpha_byte(old(self).source@[old(self).start as int]),
        ensures
            final(self).wf(),
            final(self).source@ == old(self).source@,
            final(self).start == old(self).start,
            final(self).current >= old(self).current,
            final(self).line == old(self).line,
            r.line == final(self).line,
            r.lexeme@ == final(self).source@.subrange(final(self).start as int, final(self).current as int),
            is_identifier_lexeme(r.lexeme@),
            r.token_type == spec_keyword(r.lexeme@),
            final(self).current as int == spec_ident_end(
                final(self).source@,
                old(self).current as int,
            ),
    {
        while self.peek_is_identifier_byte()
            invariant
                self.wf(),
                self.source@ == old(self).source@,
                self.start == old(self).start,
                self.line == old(self).line,
                self.current >= old(self).current,
                spec_ident_end(self.source@, old(self).current as int) == spec_ident_end(
                    self.source@,
                    self.current as int,
                ),
                forall|i: int|
                    self.start < i < self.current ==> is_alpha_byte(#[trigger] self.source@[i])
                        || is_digit_byte(self.source@[i]),
            decreases self.source@.len() - self.current,
        {
            let _ = self.advance();
        }
        let kind = self.identifier_type();
        let r = self.make_token(kind);
        proof {
            assert(is_identifier_lexeme(r.lexeme@));
        }
        r
    }

    /// Whether the byte at the read position continues an identifier.
    fn peek_is_identifier_byte(&self) -> (r: bool)
        requires
            self.current <= self.source@.len(),
        ensures
            r == (self.current < self.source@.len() && (is_alpha_byte(
                self.source@[self.current as int],
            ) || is_digit_byte(self.source@[self.current as int]))),
    {
        let c = self.peek();
        if self.current < self.source.len() {
            self.is_alpha(c) || self.is_digit(c)
        } else {
            false
        }
    }

    /// Decide whether the scanned lexeme is a keyword.
    fn identifier_type(&self) -> (r: TokenType)
        requires
            self.start <= self.current <= self.source@.len(),
        ensures
            r == spec_keyword(self.source@.subrange(self.start as int, self.current as int)),
    {
        let lex = vstd::slice::slice_subrange(self.source, self.start, self.current);
        proof {
            reveal_strlit("and");
            reveal_strlit("class");
            reveal_strlit("else");
            reveal_strlit("false");
            reveal_strlit("for");
            reveal_strlit("fun");
            reveal_strlit("if");
            reveal_strlit("nil");
            reveal_strlit("or");
            reveal_strlit("print");
            reveal_strlit("return");
            reveal_strlit("super");
            reveal_strlit("this");
            reveal_strlit("true");
            reveal_strlit("var");
            reveal_strlit("while");
        }
        if bytes_equal(lex, str_bytes("and")) {
            TokenType::And
        } else if bytes_equal(lex, str_bytes("class")) {
            TokenType::Class
        } else if bytes_equal(lex, str_bytes("else")) {
            TokenType::Else
        } else if bytes_equal(lex, str_bytes("false")) {
            TokenType::False
        } else if bytes_equal(lex, str_bytes("for")) {
            TokenType::For
        } else if bytes_equal(lex, str_bytes("fun")) {
            TokenType::Fun
        } else if bytes_equal(lex, str_bytes("if")) {
            TokenType::If
        } else if bytes_equal(lex, str_bytes("nil")) {
            TokenType::Nil
        } else if bytes_equal(lex, str_bytes("or")) {
            TokenType::Or
        } else if bytes_equal(lex, str_bytes("print")) {
            TokenType::Print
        } else if bytes_equal(lex, str_bytes("return")) {
            TokenType::Return
        } else if bytes_equal(lex, str_bytes("super")) {
            TokenType::Super
        } else if bytes_equal(lex, str_bytes("this")) {
            TokenType::This
        } else if bytes_equal(lex, str_bytes("true")) {
            TokenType::True
        } else if bytes_equal(lex, str_bytes("var")) {
            TokenType::Var
        } else if bytes_equal(lex, str_bytes("while")) {
            TokenType::While
        } else {
            TokenType::Identifier
        }
    }

    /// Scan and return the next token: it starts exactly where skipping
    /// whitespace and comments from the read position ends, and the end
    /// marker comes exactly when that skip reaches the end of the source.
    pub fn scan_token(&mut self) -> (r: Token)
        requires
            old(self).wf(),
        ensures
            final(self).wf(),
            final(self).source@ == old(self).source@,
            final(self).current >= old(self).current,
            final(self).line >= old(self).line,
            r.line == final(self).line,
            lexeme_matches_kind(r.token_type, r.lexeme@),
            r.token_type != TokenType::Error ==> r.lexeme@ == final(self).source@.subrange(
                final(self).start as int,
                final(self).current as int,
            ),
            r.token_type == TokenType::Eof ==> final(self).current == final(self).source@.len(),
            r.token_type != TokenType::Eof ==> final(self).current > old(self).current,
            final(self).start >= old(self).current,
            r.token_type != TokenType::Eof ==> final(self).current > final(self).start,
            final(self).start as int == spec_skip_ws(
                final(self).source@,
                old(self).current as int,
                old(self).line as int,
            ).0,
            (r.token_type == TokenType::Eof) <==> spec_skip_ws(
                final(self).source@,
                old(self).current as int,
                old(self).line as int,
            ).0 == final(self).source@.len(),
            r.token_type != TokenType::String && !(r.token_type == TokenType::Error
                && is_token_start_byte(final(self).source@[final(self).start as int]))
                ==> final(self).line as int == spec_skip_ws(
                final(self).source@,
                old(self).current as int,
                old(self).line as int,
            ).1,
            r.token_type == TokenType::String ==> final(self).line as int == spec_skip_ws(
                final(self).source@,
                old(self).current as int,
                old(self).line as int,
            ).1 + spec_count_newlines(
                final(self).source@,
                final(self).start as int + 1,
                final(self).current - 1,
            ),
            (r.token_type == TokenType::Error) <==> (final(self).start < final(self).source@.len() && (!is_token_start_byte(
                final(self).source@[final(self).start as int],
            ) || unterminated_string_at(final(self).source@, final(self).start as int))),
            r.token_type == TokenType::Error && !is_token_start_byte(
                final(self).source@[final(self).start as int],
            ) ==> r.lexeme@ == ascii_bytes("Unexpected character."@) && final(self).current
                == final(self).start + 1,
            r.token_type == TokenType::Error && is_token_start_byte(
                final(self).source@[final(self).start as int],
            ) ==> r.lexeme@ == ascii_bytes("Unterminated string."@) && final(self).current
                == final(self).source@.len(),
            final(self).start < final(self).source@.len() && is_alpha_byte(
                final(self).source@[final(self).start as int],
            ) ==> r.token_type == spec_keyword(
                final(self).source@.subrange(final(self).start as int, final(self).current as int),
            ) && final(self).current as int == spec_ident_end(
                final(self).source@,
                final(self).start as int,
            ),
            final(self).start < final(self).source@.len() && is_digit_byte(
                final(self).source@[final(self).start as int],
            ) ==> r.token_type == TokenType::Number && final(self).current as int
                == spec_number_end(final(self).source@, final(self).start as int),
            final(self).start < final(self).source@.len() && final(self).source@[final(self).start as int] == 0x22 && !unterminated_string_at(
                final(self).source@,
                final(self).start as int,
            ) ==> r.token_type == TokenType::String && final(self).current as int
                == spec_close_quote(final(self).source@, final(self).start as int + 1) + 1,
            final(self).start < final(self).source@.len() && final(self).source@[final(self).start as int] == 0x28 ==> r.token_type == TokenType::LeftParen,
            final(self).start < final(self).source@.len() && final(self).source@[final(self).start as int] == 0x29 ==> r.token_type == TokenType::RightParen,
            final(self).start < final(self).source@.len() && final(self).source@[final(self).start as int] == 0x7B ==> r.token_type == TokenType::LeftBrace,
            final(self).start < final(self).source@.len() && final(self).source@[final(self).start as int] == 0x7D ==> r.token_type == TokenType::RightBrace,
            final(self).start < final(self).source@.len() && final(self).source@[final(self).start as int] == 0x3B ==> r.token_type == TokenType::Semicolon,
            final(self).start < final(self).source@.len() && final(self).source@[final(self).start as int] == 0x2E ==> r.token_type == TokenType::Dot,
            final(self).start < final(self).source@.len() && final(self).source@[final(self).start as int] == 0x2C ==> r.token_type == TokenType::Comma,
            final(self).start < final(self).source@.len() && final(self).source@[final(self).start as int] == 0x2D ==> r.token_type == TokenType::Minus,
            final(self).start < final(self).source@.len() && final(self).source@[final(self).start as int] == 0x2B ==> r.token_type == TokenType::Plus,
            final(self).start < final(self).source@.len() && final(self).source@[final(self).start as int] == 0x2F ==> r.token_type == TokenType::Slash,
            final(self).start < final(self).source@.len() && final(self).source@[final(self).start as int] == 0x2A ==> r.token_type == TokenType::Star,
            final(self).start < final(self).source@.len() && final(self).source@[final(self).start as int] == 0x21 ==> r.token_type == (
            if final(self).start + 1 < final(self).source@.len() && final(self).source@[final(self).start as int + 1] == 0x3D {
                TokenType::BangEqual
            } else {
                TokenType::Bang
            }),
            final(self).start < final(self).source@.len() && final(self).source@[final(self).start as int] == 0x3D ==> r.token_type == (
            if final(self).start + 1 < final(self).source@.len() && final(self).source@[final(self).start as int + 1] == 0x3D {
                TokenType::EqualEqual
            } else {
                TokenType::Equal
            }),
            final(self).start < final(self).source@.len() && final(self).source@[final(self).start as int] == 0x3C ==> r.token_type == (
            if final(self).start + 1 < final(self).source@.len() && final(self).source@[final(self).start as int + 1] == 0x3D {
                TokenType::LessEqual
            } else {
                TokenType::Less
            }),
            final(self).start < final(self).source@.len() && final(self).source@[final(self).start as int] == 0x3E ==> r.token_type == (
            if final(self).start + 1 < final(self).source@.len() && final(self).source@[final(self).start as int + 1] == 0x3D {
                TokenType::GreaterEqual
            } else {
                TokenType::Greater
            }),
    {
        self.skip_whitespace();
        self.start = self.current;
        if self.is_at_end() {
            let r = self.make_token(TokenType::Eof);
            proof {
                assert(r.lexeme@ =~= Seq::<u8>::empty());
            }
            return r;
        }
        let c = self.advance();
        proof {
            assert(c == self.source@[self.start as int]);
        }
        if self.is_alpha(c) {
            proof {
                assert(spec_ident_end(self.source@, self.start as int) == spec_ident_end(
                    self.source@,
                    self.start as int + 1,
                ));
            }
            let r = self.identifier();
            proof {
                if r.token_type == TokenType::Identifier {
                    assert(lexeme_matches_kind(TokenType::Identifier, r.lexeme@));
                }
            }
            return r;
        }
        if self.is_digit(c) {
            return self.number();
        }
        let r = if c == 0x28 {
            self.make_token(TokenType::LeftParen)
        } else if c == 0x29 {
            self.make_token(TokenType::RightParen)
        } else if c == 0x7B {
            self.make_token(TokenType::LeftBrace)
        } else if c == 0x7D {
            self.make_token(TokenType::RightBrace)
        } else if c == 0x3B {
            self.make_token(TokenType::Semicolon)
        } else if c == 0x2E {
            self.make_token(TokenType::Dot)
        } else if c == 0x2C {
            self.make_token(TokenType::Comma)
        } else if c == 0x2D {
            self.make_token(TokenType::Minus)
        } else if c == 0x2B {
            self.make_token(TokenType::Plus)
        } else if c == 0x2F {
            self.make_token(TokenType::Slash)
        } else if c == 0x2A {
            self.make_token(TokenType::Star)
        } else if c == 0x21 {
            let two = self.match_ch(0x3D);
            self.make_token(
                if two {
                    TokenType::BangEqual
                } else {
                    TokenType::Bang
                },
            )
        } else if c == 0x3D {
            let two = self.match_ch(0x3D);
            self.make_token(
                if two {
                    TokenType::EqualEqual
                } else {
                    TokenType::Equal
                },
            )
        } else if c == 0x3C {
            let two = self.match_ch(0x3D);
            self.make_token(
                if two {
                    TokenType::LessEqual
                } else {
                    TokenType::Less
                },
            )
        } else if c == 0x3E {
            let two = self.match_ch(0x3D);
            self.make_token(
                if two {
                    TokenType::GreaterEqual
                } else {
                    TokenType::Greater
                },
            )
        } else if c == 0x22 {
            self.string()
        } else {
            proof {
                reveal_strlit("Unexpected character.");
            }
            self.error_token(str_bytes("Unexpected character."))
        };
        proof {
            reveal_strlit("(");
            reveal_strlit(")");
            reveal_strlit("{");
            reveal_strlit("}");
            reveal_strlit(",");
            reveal_strlit(".");
            reveal_strlit("-");
            reveal_strlit("+");
            reveal_strlit(";");
            reveal_strlit("/");
            reveal_strlit("*");
            reveal_strlit("!");
            reveal_strlit("!=");
            reveal_strlit("=");
            reveal_strlit("==");
            reveal_strlit(">");
            reveal_strlit(">=");
            reveal_strlit("<");
            reveal_strlit("<=");
            let s = r.lexeme@;
            if r.token_type == TokenType::LeftParen {
                assert(s =~= ascii_bytes("("@));
            } else if r.token_type == TokenType::RightParen {
                assert(s =~= ascii_bytes(")"@));
            } else if r.token_type == TokenType::LeftBrace {
                assert(s =~= ascii_bytes("{"@));
            } else if r.token_type == TokenType::RightBrace {
                assert(s =~= ascii_bytes("}"@));
            } else if r.token_type == TokenType::Semicolon {
                assert(s =~= ascii_bytes(";"@));
            } else if r.token_type == TokenType::Dot {
                assert(s =~= ascii_bytes("."@));
            } else if r.token_type == TokenType::Comma {
                assert(s =~= ascii_bytes(","@));
            } else if r.token_type == TokenType::Minus {
                assert(s =~= ascii_bytes("-"@));
            } else if r.token_type == TokenType::Plus {
                assert(s =~= ascii_bytes("+"@));
            } else if r.token_type == TokenType::Slash {
                assert(s =~= ascii_bytes("/"@));
            } else if r.token_type == TokenType::Star {
                assert(s =~= ascii_bytes("*"@));
            } else if r.token_type == TokenType::Bang {
                assert(s =~= ascii_bytes("!"@));
            } else if r.token_type == TokenType::BangEqual {
                assert(s =~= ascii_bytes("!="@));
            } else if r.token_type == TokenType::Equal {
                assert(s =~= ascii_bytes("="@));
            } else if r.token_type == TokenType::EqualEqual {
                assert(s =~= ascii_bytes("=="@));
            } else if r.token_type == TokenType::Less {
                assert(s =~= ascii_bytes("<"@));
            } else if r.token_type == TokenType::LessEqual {
                assert(s =~= ascii_bytes("<="@));
            } else if r.token_type == TokenType::Greater {
                assert(s =~= ascii_bytes(">"@));
            } else if r.token_type == TokenType::GreaterEqual {
                assert(s =~= ascii_bytes(">="@));
            }
            assert(lexeme_matches_kind(r.token_type, r.lexeme@));
        }
        r
    }
}

} // verus!
