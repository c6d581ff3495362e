//! The single-pass Pratt compiler: it parses the token stream and emits
//! bytecode directly into a chunk, resolving local variables on the fly
//! and recording diagnostics instead of printing them.
use vstd::prelude::*;
use crate::chunk::{Chunk, OpCode, spec_opcode_byte, spec_opcode_of_byte};
use crate::scanner::{Scanner, Token, TokenType, init_scanner, lexeme_matches_kind, spec_skip_ws};
use crate::text::{ascii_bytes, bytes_equal, str_bytes, spec_decimal, append_bytes, decimal_bytes};
use crate::value::{AbsValue, Value, clone_bytes};
use crate::number::f64_of_decimal;
use crate::vm::{VM, seg_run, lemma_seg_one, lemma_seg_chain, lemma_seg_extend, lemma_seg_chunk_ok, chunk_ok};

verus! {

/// Where a compile error points: at the end of the source, at a lexeme,
/// or nowhere (the token itself was a scanning error).
pub enum ErrorLocation {
    AtEnd,
    AtLexeme(Vec<u8>),
    AtErrorToken,
}

/// One compile error: the line it was reported on, where it points, and
/// its message.
pub struct Diagnostic {
    pub line: usize,
    pub location: ErrorLocation,
    pub message: Vec<u8>,
}

/// The stderr text of a compile error:
/// `[line L] Error( at end | at 'LEX')?: MSG`.
pub open spec fn spec_diagnostic_text(line: usize, location: ErrorLocation, message: Seq<u8>) -> Seq<
    u8,
> {
    ascii_bytes("[line "@) + spec_decimal(line as int) + ascii_bytes("] Error"@) + (match location {
        ErrorLocation::AtEnd => ascii_bytes(" at end"@),
        ErrorLocation::AtLexeme(lex) => ascii_bytes(" at '"@) + lex@ + ascii_bytes("'"@),
        ErrorLocation::AtErrorToken => Seq::<u8>::empty(),
    }) + ascii_bytes(": "@) + message
}

/// Render a compile error as its stderr line.
pub fn render_diagnostic(d: &Diagnostic) -> (r: Vec<u8>)
    ensures
        r@ == spec_diagnostic_text(d.line, d.location, d.message@),
{
    proof {
        reveal_strlit("[line ");
        reveal_strlit("] Error");
        reveal_strlit(" at end");
        reveal_strlit(" at '");
        reveal_strlit("'");
        reveal_strlit(": ");
    }
    let mut out = crate::text::str_byte_vec("[line ");
    let digits = decimal_bytes(d.line);
    append_bytes(&mut out, digits.as_slice());
    append_bytes(&mut out, str_bytes("] Error"));
    match &d.location {
        ErrorLocation::AtEnd => {
            append_bytes(&mut out, str_bytes(" at end"));
        },
        ErrorLocation::AtLexeme(lex) => {
            append_bytes(&mut out, str_bytes(" at '"));
            append_bytes(&mut out, lex.as_slice());
            append_bytes(&mut out, str_bytes("'"));
        },
        ErrorLocation::AtErrorToken => {},
    }
    append_bytes(&mut out, str_bytes(": "));
    append_bytes(&mut out, d.message.as_slice());
    proof {
        assert(out@ =~= spec_diagnostic_text(d.line, d.location, d.message@));
    }
    out
}

/// The precedence ladder, lowest first.
#[derive(Clone, Copy, PartialEq, Eq, Structural)]
pub enum Precedence {
    NoPrecedence,
    Assignment,
    OrPrec,
    AndPrec,
    Equality,
    Comparison,
    Term,
    Factor,
    Unary,
    Call,
    Primary,
}

/// The height of a precedence on the ladder.
pub open spec fn spec_prec_rank(p: Precedence) -> int {
    match p {
        Precedence::NoPrecedence => 0,
        Precedence::Assignment => 1,
        Precedence::OrPrec => 2,
        Precedence::AndPrec => 3,
        Precedence::Equality => 4,
        Precedence::Comparison => 5,
        Precedence::Term => 6,
        Precedence::Factor => 7,
        Precedence::Unary => 8,
        Precedence::Call => 9,
        Precedence::Primary => 10,
    }
}

pub fn prec_rank(p: Precedence) -> (r: u8)
    ensures
        r as int == spec_prec_rank(p),
{
    match p {
        Precedence::NoPrecedence => 0,
        Precedence::Assignment => 1,
        Precedence::OrPrec => 2,
        Precedence::AndPrec => 3,
        Precedence::Equality => 4,
        Precedence::Comparison => 5,
        Precedence::Term => 6,
        Precedence::Factor => 7,
        Precedence::Unary => 8,
        Precedence::Call => 9,
        Precedence::Primary => 10,
    }
}

impl Precedence {
    /// The next precedence up the ladder.
    pub fn next(&self) -> (r: Precedence)
        ensures
            spec_prec_rank(r) == if spec_prec_rank(*self) < 10 {
                spec_prec_rank(*self) + 1
            } else {
                10int
            },
    {
        match self {
            Precedence::NoPrecedence => Precedence::Assignment,
            Precedence::Assignment => Precedence::OrPrec,
            Precedence::OrPrec => Precedence::AndPrec,
            Precedence::AndPrec => Precedence::Equality,
            Precedence::Equality => Precedence::Comparison,
            Precedence::Comparison => Precedence::Term,
            Precedence::Term => Precedence::Factor,
            Precedence::Factor => Precedence::Unary,
            Precedence::Unary => Precedence::Call,
            Precedence::Call => Precedence::Primary,
            Precedence::Primary => Precedence::Primary,
        }
    }
}

/// Which prefix parse action a token selects.
#[derive(Clone, Copy, PartialEq, Eq, Structural)]
pub enum PrefixRule {
    NoRule,
    GroupingRule,
    UnaryRule,
    VariableRule,
    NumberRule,
    StringRule,
    LiteralRule,
}

/// Which infix parse action a token selects.
#[derive(Clone, Copy, PartialEq, Eq, Structural)]
pub enum InfixRule {
    NoRule,
    BinaryRule,
}

/// One row of the Pratt table: a token's prefix action, infix action,
/// and infix precedence.
pub struct ParseRule {
    pub prefix: PrefixRule,
    pub infix: InfixRule,
    pub precedence: Precedence,
}

impl ParseRule {
    pub fn new(prefix: PrefixRule, infix: InfixRule, precedence: Precedence) -> (r: ParseRule)
        ensures
            r.prefix == prefix,
            r.infix == infix,
            r.precedence == precedence,
    {
        ParseRule { prefix, infix, precedence }
    }
}

/// The Pratt table.
pub open spec fn spec_rule(token_type: TokenType) -> ParseRule {
    match token_type {
        TokenType::LeftParen => ParseRule {
            prefix: PrefixRule::GroupingRule,
            infix: InfixRule::NoRule,
            precedence: Precedence::NoPrecedence,
        },
        TokenType::Minus => ParseRule {
            prefix: PrefixRule::UnaryRule,
            infix: InfixRule::BinaryRule,
            precedence: Precedence::Term,
        },
        TokenType::Plus => ParseRule {
            prefix: PrefixRule::NoRule,
            infix: InfixRule::BinaryRule,
            precedence: Precedence::Term,
        },
        TokenType::Slash => ParseRule {
            prefix: PrefixRule::NoRule,
            infix: InfixRule::BinaryRule,
            precedence: Precedence::Factor,
        },
        TokenType::Star => ParseRule {
            prefix: PrefixRule::NoRule,
            infix: InfixRule::BinaryRule,
            precedence: Precedence::Factor,
        },
        TokenType::Bang => ParseRule {
            prefix: PrefixRule::UnaryRule,
            infix: InfixRule::NoRule,
            precedence: Precedence::NoPrecedence,
        },
        TokenType::BangEqual => ParseRule {
            prefix: PrefixRule::NoRule,
            infix: InfixRule::BinaryRule,
            precedence: Precedence::Equality,
        },
        TokenType::EqualEqual => ParseRule {
            prefix: PrefixRule::NoRule,
            infix: InfixRule::BinaryRule,
            precedence: Precedence::Equality,
        },
        TokenType::Greater => ParseRule {
            prefix: PrefixRule::NoRule,
            infix: InfixRule::BinaryRule,
            precedence: Precedence::Comparison,
        },
        TokenType::GreaterEqual => ParseRule {
            prefix: PrefixRule::NoRule,
            infix: InfixRule::BinaryRule,
            precedence: Precedence::Comparison,
        },
        TokenType::Less => ParseRule {
            prefix: PrefixRule::NoRule,
            infix: InfixRule::BinaryRule,
            precedence: Precedence::Comparison,
        },
        TokenType::LessEqual => ParseRule {
            prefix: PrefixRule::NoRule,
            infix: InfixRule::BinaryRule,
            precedence: Precedence::Comparison,
        },
        TokenType::Identifier => ParseRule {
            prefix: PrefixRule::VariableRule,
            infix: InfixRule::NoRule,
            precedence: Precedence::NoPrecedence,
        },
        TokenType::Number => ParseRule {
            prefix: PrefixRule::NumberRule,
            infix: InfixRule::NoRule,
            precedence: Precedence::NoPrecedence,
        },
        TokenType::String => ParseRule {
            prefix: PrefixRule::StringRule,
            infix: InfixRule::NoRule,
            precedence: Precedence::NoPrecedence,
        },
        TokenType::False => ParseRule {
            prefix: PrefixRule::LiteralRule,
            infix: InfixRule::NoRule,
            precedence: Precedence::NoPrecedence,
        },
        TokenType::True => ParseRule {
            prefix: PrefixRule::LiteralRule,
            infix: InfixRule::NoRule,
            precedence: Precedence::NoPrecedence,
        },
        TokenType::Nil => ParseRule {
            prefix: PrefixRule::LiteralRule,
            infix: InfixRule::NoRule,
            precedence: Precedence::NoPrecedence,
        },
        _ => ParseRule {
            prefix: PrefixRule::NoRule,
            infix: InfixRule::NoRule,
            precedence: Precedence::NoPrecedence,
        },
    }
}

/// One of the four variable-access opcodes: a local or global read or
/// write, each followed by its one-byte slot or constant argument.
pub open spec fn is_variable_access(b: u8) -> bool {
    ||| b == spec_opcode_byte(OpCode::OpGetLocal)
    ||| b == spec_opcode_byte(OpCode::OpGetGlobal)
    ||| b == spec_opcode_byte(OpCode::OpSetLocal)
    ||| b == spec_opcode_byte(OpCode::OpSetGlobal)
}

/// The opcode bytes a binary operator token compiles to: the composite
/// pairs for `!=`, `>=` and `<=`, a single opcode for the rest.
pub open spec fn spec_binary_op_bytes(t: TokenType) -> Seq<u8> {
    match t {
        TokenType::BangEqual => seq![
            spec_opcode_byte(OpCode::OpEqual),
            spec_opcode_byte(OpCode::OpNot),
        ],
        TokenType::EqualEqual => seq![spec_opcode_byte(OpCode::OpEqual)],
        TokenType::Greater => seq![spec_opcode_byte(OpCode::OpGreater)],
        TokenType::GreaterEqual => seq![
            spec_opcode_byte(OpCode::OpLess),
            spec_opcode_byte(OpCode::OpNot),
        ],
        TokenType::Less => seq![spec_opcode_byte(OpCode::OpLess)],
        TokenType::LessEqual => seq![
            spec_opcode_byte(OpCode::OpGreater),
            spec_opcode_byte(OpCode::OpNot),
        ],
        TokenType::Plus => seq![spec_opcode_byte(OpCode::OpAdd)],
        TokenType::Minus => seq![spec_opcode_byte(OpCode::OpSubtract)],
        TokenType::Star => seq![spec_opcode_byte(OpCode::OpMultiply)],
        TokenType::Slash => seq![spec_opcode_byte(OpCode::OpDivide)],
        _ => Seq::empty(),
    }
}

pub struct Parser<'a> {
    pub scanner: Scanner<'a>,
    pub current: Token,
    pub previous: Token,
    pub had_error: bool,
    pub panic_mode: bool,
    pub diagnostics: Vec<Diagnostic>,
}

/// How much input is left to parse: bytes the scanner has not read, with
/// one extra step while the lookahead token is not yet the end marker.
pub open spec fn parse_measure(p: Parser) -> int {
    2 * (p.scanner.source@.len() - p.scanner.current) + (if p.current.token_type == TokenType::Eof {
        0int
    } else {
        1int
    })
}

impl<'a> Parser<'a> {
    /// Holds before the first token has been read.
    pub open spec fn wf0(&self) -> bool {
        &&& self.scanner.wf()
        &&& lexeme_matches_kind(self.current.token_type, self.current.lexeme@)
        &&& lexeme_matches_kind(self.previous.token_type, self.previous.lexeme@)
        &&& self.previous.token_type != TokenType::Error
        &&& self.had_error == (self.diagnostics@.len() > 0)
        &&& (self.panic_mode ==> self.had_error)
    }

    /// Holds from the first `advance` on: the lookahead token is a real
    /// token of the remaining input.
    pub open spec fn wf(&self) -> bool {
        &&& self.wf0()
        &&& self.current.token_type != TokenType::Error
        &&& (self.current.token_type == TokenType::Eof ==> self.scanner.current
            == self.scanner.source@.len())
        &&& (self.current.token_type != TokenType::Eof ==> self.scanner.current
            > self.scanner.start)
    }

    pub fn new(scanner: Scanner<'a>) -> (r: Self)
        requires
            scanner.wf(),
        ensures
            r.wf0(),
            r.scanner == scanner,
            r.had_error == false,
            r.panic_mode == false,
            r.diagnostics@.len() == 0,
            r.current.token_type == TokenType::Eof,
    {
        let r = Parser {
            scanner,
            current: Token { token_type: TokenType::Eof, lexeme: Vec::new(), line: 0 },
            previous: Token { token_type: TokenType::Eof, lexeme: Vec::new(), line: 0 },
            had_error: false,
            panic_mode: false,
            diagnostics: Vec::new(),
        };
        proof {
            assert(r.current.lexeme@ =~= Seq::<u8>::empty());
            assert(r.previous.lexeme@ =~= Seq::<u8>::empty());
        }
        r
    }

    /// Record a compile error; while in panic mode, errors are
    /// suppressed until the parser synchronizes.
    fn error_at(&mut self, line: usize, location: ErrorLocation, message: &[u8])
        ensures
            final(self).scanner == old(self).scanner,
            final(self).current == old(self).current,
            final(self).previous == old(self).previous,
            final(self).panic_mode,
            old(self).panic_mode ==> final(self).had_error == old(self).had_error && final(self).diagnostics == old(self).diagnostics,
            !old(self).panic_mode ==> final(self).had_error && final(self).diagnostics@.len()
                == old(self).diagnostics@.len() + 1,
    {
        if self.panic_mode {
            return ;
        }
        self.panic_mode = true;
        self.had_error = true;
        let mut msg: Vec<u8> = Vec::new();
        append_bytes(&mut msg, message);
        self.diagnostics.push(Diagnostic { line, location, message: msg });
    }

    /// Report an error at the lookahead token.
    fn error_at_current(&mut self, message: &[u8])
        ensures
            final(self).scanner == old(self).scanner,
            final(self).current == old(self).current,
            final(self).previous == old(self).previous,
            final(self).panic_mode,
            old(self).panic_mode ==> final(self).had_error == old(self).had_error && final(self).diagnostics == old(self).diagnostics,
            !old(self).panic_mode ==> final(self).had_error && final(self).diagnostics@.len()
                == old(self).diagnostics@.len() + 1,
    {
        let line = self.current.line;
        let location = if self.current.token_type == TokenType::Eof {
            ErrorLocation::AtEnd
        } else if self.current.token_type == TokenType::Error {
            ErrorLocation::AtErrorToken
        } else {
            ErrorLocation::AtLexeme(clone_bytes(&self.current.lexeme))
        };
        self.error_at(line, location, message);
    }

    /// Report an error at the token just consumed.
    fn error(&mut self, message: &[u8])
        ensures
            final(self).scanner == old(self).scanner,
            final(self).current == old(self).current,
            final(self).previous == old(self).previous,
            final(self).panic_mode,
            old(self).panic_mode ==> final(self).had_error == old(self).had_error && final(self).diagnostics == old(self).diagnostics,
            !old(self).panic_mode ==> final(self).had_error && final(self).diagnostics@.len()
                == old(self).diagnostics@.len() + 1,
    {
        let line = self.previous.line;
        let location = if self.previous.token_type == TokenType::Eof {
            ErrorLocation::AtEnd
        } else {
            ErrorLocation::AtLexeme(clone_bytes(&self.previous.lexeme))
        };
        self.error_at(line, location, message);
    }

    /// Read the next token into the lookahead, reporting and skipping
    /// scanning errors.
    pub fn advance(&mut self)
        requires
            old(self).wf0(),
            old(self).current.token_type != TokenType::Error,
        ensures
            final(self).wf(),
            final(self).scanner.source@ == old(self).scanner.source@,
            final(self).scanner.current >= old(self).scanner.current,
            final(self).previous.token_type == old(self).current.token_type,
            final(self).previous.lexeme@ == old(self).current.lexeme@,
            final(self).previous.line == old(self).current.line,
            parse_measure(*final(self)) <= parse_measure(*old(self)),
            old(self).current.token_type != TokenType::Eof ==> parse_measure(*final(self))
                < parse_measure(*old(self)),
            final(self).scanner.start >= old(self).scanner.current,
            final(self).diagnostics@.len() >= old(self).diagnostics@.len(),
            old(self).had_error ==> final(self).had_error,
            final(self).panic_mode && !old(self).panic_mode ==> final(self).diagnostics@.len()
                > old(self).diagnostics@.len(),
            spec_skip_ws(
                old(self).scanner.source@,
                old(self).scanner.current as int,
                old(self).scanner.line as int,
            ).0 == old(self).scanner.source@.len() ==> final(self).diagnostics == old(self).diagnostics && final(self).had_error == old(self).had_error && final(self).current.token_type == TokenType::Eof,
    {
        let next = Token {
            token_type: self.current.token_type,
            lexeme: clone_bytes(&self.current.lexeme),
            line: self.current.line,
        };
        self.previous = next;
        loop
            invariant_except_break
                spec_skip_ws(
                    old(self).scanner.source@,
                    old(self).scanner.current as int,
                    old(self).scanner.line as int,
                ).0 == old(self).scanner.source@.len() ==> self.scanner == old(self).scanner
                    && self.diagnostics == old(self).diagnostics && self.had_error == old(self).had_error,
            invariant
                self.scanner.wf(),
                self.scanner.source@ == old(self).scanner.source@,
                self.scanner.current >= old(self).scanner.current,
                lexeme_matches_kind(self.previous.token_type, self.previous.lexeme@),
                self.previous.token_type == old(self).current.token_type,
                self.previous.lexeme@ == old(self).current.lexeme@,
                self.previous.line == old(self).current.line,
                self.previous.token_type != TokenType::Error,
                self.had_error == (self.diagnostics@.len() > 0),
                (self.panic_mode ==> self.had_error),
                self.diagnostics@.len() >= old(self).diagnostics@.len(),
                old(self).had_error ==> self.had_error,
                self.panic_mode && !old(self).panic_mode ==> self.diagnostics@.len() > old(self).diagnostics@.len(),
            ensures
                self.scanner.wf(),
                self.scanner.source@ == old(self).scanner.source@,
                self.scanner.current >= old(self).scanner.current,
                lexeme_matches_kind(self.previous.token_type, self.previous.lexeme@),
                self.previous.token_type == old(self).current.token_type,
                self.previous.lexeme@ == old(self).current.lexeme@,
                self.previous.line == old(self).current.line,
                self.previous.token_type != TokenType::Error,
                self.had_error == (self.diagnostics@.len() > 0),
                (self.panic_mode ==> self.had_error),
                self.diagnostics@.len() >= old(self).diagnostics@.len(),
                old(self).had_error ==> self.had_error,
                self.panic_mode && !old(self).panic_mode ==> self.diagnostics@.len() > old(self).diagnostics@.len(),
                spec_skip_ws(
                    old(self).scanner.source@,
                    old(self).scanner.current as int,
                    old(self).scanner.line as int,
                ).0 == old(self).scanner.source@.len() ==> self.diagnostics == old(self).diagnostics && self.had_error == old(self).had_error
                    && self.current.token_type == TokenType::Eof,
                self.current.token_type != TokenType::Error,
                lexeme_matches_kind(self.current.token_type, self.current.lexeme@),
                self.current.token_type == TokenType::Eof ==> self.scanner.current
                    == self.scanner.source@.len(),
                self.current.token_type != TokenType::Eof ==> self.scanner.current > old(self).scanner.current,
                self.scanner.start >= old(self).scanner.current,
                self.current.token_type != TokenType::Eof ==> self.scanner.current
                    > self.scanner.start,
            decreases self.scanner.source@.len() - self.scanner.current,
        {
            let token = self.scanner.scan_token();
            if !(token.token_type == TokenType::Error) {
                self.current = token;
                break ;
            }
            let msg = clone_bytes(&token.lexeme);
            let line = token.line;
            self.error_at(line, ErrorLocation::AtErrorToken, msg.as_slice());
        }
    }

    /// Whether the lookahead token has this kind.
    pub fn check(&self, token_type: TokenType) -> (r: bool)
        ensures
            r == (self.current.token_type == token_type),
    {
        self.current.token_type == token_type
    }

    /// Consume the lookahead token if it has this kind.
    pub fn match_token(&mut self, token_type: TokenType) -> (r: bool)
        requires
            old(self).wf(),
        ensures
            final(self).wf(),
            r == (old(self).current.token_type == token_type),
            final(self).scanner.source@ == old(self).scanner.source@,
            final(self).scanner.current >= old(self).scanner.current,
            parse_measure(*final(self)) <= parse_measure(*old(self)),
            r && token_type != TokenType::Eof ==> parse_measure(*final(self)) < parse_measure(
                *old(self),
            ),
            r ==> final(self).previous.token_type == token_type && final(self).previous.lexeme@
                == old(self).current.lexeme@ && final(self).previous.line == old(self).current.line,
            r ==> final(self).scanner.start >= old(self).scanner.current,
            final(self).scanner.start >= old(self).scanner.start,
            !r ==> *final(self) == *old(self),
            final(self).diagnostics@.len() >= old(self).diagnostics@.len(),
            old(self).had_error ==> final(self).had_error,
    {
        if !self.check(token_type) {
            return false;
        }
        self.advance();
        true
    }

    /// Consume the lookahead token, which must have this kind; report
    /// the message otherwise.
    pub fn consume(&mut self, token_type: TokenType, message: &[u8])
        requires
            old(self).wf(),
        ensures
            final(self).wf(),
            final(self).scanner.source@ == old(self).scanner.source@,
            final(self).scanner.current >= old(self).scanner.current,
            final(self).scanner.start >= old(self).scanner.start,
            parse_measure(*final(self)) <= parse_measure(*old(self)),
            final(self).diagnostics@.len() >= old(self).diagnostics@.len(),
            old(self).had_error ==> final(self).had_error,
    {
        if self.check(token_type) {
            self.advance();
            return ;
        }
        self.error_at_current(message);
    }
}

/// The most locals one compilation can hold.
pub open spec fn max_locals() -> int {
    256
}

/// A local variable: its name and the block depth at which it was
/// declared; `None` until its initializer has been compiled, so that the
/// initializer cannot read it.
pub struct Local {
    pub name: Vec<u8>,
    pub depth: Option<usize>,
}

/// The emission budget: the code and locals already produced plus four
/// bytes of headroom per unit of input left to parse.  Every parse step
/// keeps it within a small constant, so the code a source compiles to is
/// linearly bounded by the source's length.
pub open spec fn emit_budget(c: Compiler) -> int {
    c.chunk.code@.len() + c.locals@.len() + 4 * parse_measure(c.parser)
}

/// A compilation mutates no VM state but the interned strings.
pub open spec fn vm_frame(before: VM, after: VM) -> bool {
    &&& after.wf()
    &&& after.globals == before.globals
    &&& after.chunk == before.chunk
    &&& after.ip == before.ip
    &&& after.stack == before.stack
}

pub struct Compiler<'a> {
    pub parser: Parser<'a>,
    pub chunk: Chunk,
    pub locals: Vec<Local>,
    pub scope_depth: usize,
}

/// The code and the constant pool only grow, and what was emitted stays.
pub open spec fn chunk_extends(a: Chunk, b: Chunk) -> bool {
    &&& a.code@.len() <= b.code@.len()
    &&& (forall|i: int| 0 <= i < a.code@.len() ==> b.code@[i] == a.code@[i])
    &&& a.constants@.len() <= b.constants@.len()
    &&& (forall|i: int| 0 <= i < a.constants@.len() ==> b.constants@[i] == a.constants@[i])
}

/// How many locals already have a stack slot: all of them, except a
/// newest one whose initializer is still being compiled.
pub open spec fn spec_active(c: Compiler) -> int {
    if c.locals@.len() > 0 && c.locals@.last().depth is None {
        c.locals@.len() - 1
    } else {
        c.locals@.len() as int
    }
}

/// At a statement boundary every local is initialized, at a depth no
/// deeper than the current scope, and depths never decrease up the
/// stack.
pub open spec fn locals_ready(c: Compiler) -> bool {
    &&& (forall|i: int|
        0 <= i < c.locals@.len() ==> ((#[trigger] c.locals@[i].depth) is Some
            && c.locals@[i].depth->0 <= c.scope_depth))
    &&& (forall|i: int, j: int|
        0 <= i <= j < c.locals@.len() ==> (#[trigger] c.locals@[i].depth)->0
            <= (#[trigger] c.locals@[j].depth)->0)
}

/// The code the step emitted evaluates, at any stack height that covers
/// the live locals, to one more value on the stack: the step compiled
/// one expression.
pub open spec fn emits_value(pre: Compiler, post: Compiler) -> bool {
    forall|h: int|
        h >= spec_active(pre) ==> seg_run(
            post.chunk.code@,
            post.chunk.constants@,
            pre.chunk.code@.len() as int,
            post.chunk.code@.len() as int,
            h,
        ) == Some(h + 1)
}

/// The code the step emitted folds the value on top of the stack with a
/// right operand, leaving the height unchanged: the step compiled an
/// infix operator and its right operand.
pub open spec fn emits_infix(pre: Compiler, post: Compiler) -> bool {
    forall|h: int|
        h >= spec_active(pre) && h >= 1 ==> seg_run(
            post.chunk.code@,
            post.chunk.constants@,
            pre.chunk.code@.len() as int,
            post.chunk.code@.len() as int,
            h,
        ) == Some(h)
}

/// The code the step emitted changes the stack height exactly by the
/// number of locals the step declared: the step compiled statements.
pub open spec fn emits_statement(pre: Compiler, post: Compiler) -> bool {
    forall|h: int|
        h >= pre.locals@.len() ==> seg_run(
            post.chunk.code@,
            post.chunk.constants@,
            pre.chunk.code@.len() as int,
            post.chunk.code@.len() as int,
            h,
        ) == Some(h + post.locals@.len() - pre.locals@.len())
}

impl<'a> Compiler<'a> {
    /// The compiler's invariant: the parser is well-formed, the chunk's
    /// line map is aligned with its code, the constant pool and the
    /// locals stack are within their one-byte index ranges, and the
    /// block depth never exceeds the bytes consumed.
    pub open spec fn inv(&self) -> bool {
        &&& self.parser.wf()
        &&& self.chunk.wf()
        &&& self.chunk.constants@.len() <= 256
        &&& self.locals@.len() <= max_locals()
        &&& self.scope_depth <= self.parser.scanner.start
    }

    pub fn new(source: &'a [u8]) -> (r: Self)
        requires
            source@.len() < usize::MAX,
        ensures
            r.parser.wf0(),
            r.parser.current.token_type == TokenType::Eof,
            r.chunk.wf(),
            r.chunk.code@.len() == 0,
            r.chunk.constants@.len() == 0,
            r.locals@.len() == 0,
            r.scope_depth == 0,
            r.parser.scanner.source@ == source@,
            r.parser.scanner.current == 0,
            r.parser.scanner.line == 1,
            r.parser.had_error == false,
            r.parser.diagnostics@.len() == 0,
    {
        let scanner = init_scanner(source);
        let parser = Parser::new(scanner);
        Compiler { parser, chunk: Chunk::new(), locals: Vec::new(), scope_depth: 0 }
    }

    /// The Pratt table row for a token.
    fn get_rule(&self, token_type: TokenType) -> (r: ParseRule)
        ensures
            r == spec_rule(token_type),
    {
        match token_type {
            TokenType::LeftParen => ParseRule::new(
                PrefixRule::GroupingRule,
                InfixRule::NoRule,
                Precedence::NoPrecedence,
            ),
            TokenType::Minus => ParseRule::new(
                PrefixRule::UnaryRule,
                InfixRule::BinaryRule,
                Precedence::Term,
            ),
            TokenType::Plus => ParseRule::new(
                PrefixRule::NoRule,
                InfixRule::BinaryRule,
                Precedence::Term,
            ),
            TokenType::Slash => ParseRule::new(
                PrefixRule::NoRule,
                InfixRule::BinaryRule,
                Precedence::Factor,
            ),
            TokenType::Star => ParseRule::new(
                PrefixRule::NoRule,
                InfixRule::BinaryRule,
                Precedence::Factor,
            ),
            TokenType::Bang => ParseRule::new(
                PrefixRule::UnaryRule,
                InfixRule::NoRule,
                Precedence::NoPrecedence,
            ),
            TokenType::BangEqual => ParseRule::new(
                PrefixRule::NoRule,
                InfixRule::BinaryRule,
                Precedence::Equality,
            ),
            TokenType::EqualEqual => ParseRule::new(
                PrefixRule::NoRule,
                InfixRule::BinaryRule,
                Precedence::Equality,
            ),
            TokenType::Greater => ParseRule::new(
                PrefixRule::NoRule,
                InfixRule::BinaryRule,
                Precedence::Comparison,
            ),
            TokenType::GreaterEqual => ParseRule::new(
                PrefixRule::NoRule,
                InfixRule::BinaryRule,
                Precedence::Comparison,
            ),
            TokenType::Less => ParseRule::new(
                PrefixRule::NoRule,
                InfixRule::BinaryRule,
                Precedence::Comparison,
            ),
            TokenType::LessEqual => ParseRule::new(
                PrefixRule::NoRule,
                InfixRule::BinaryRule,
                Precedence::Comparison,
            ),
            TokenType::Identifier => ParseRule::new(
                PrefixRule::VariableRule,
                InfixRule::NoRule,
                Precedence::NoPrecedence,
            ),
            TokenType::Number => ParseRule::new(
                PrefixRule::NumberRule,
                InfixRule::NoRule,
                Precedence::NoPrecedence,
            ),
            TokenType::String => ParseRule::new(
                PrefixRule::StringRule,
                InfixRule::NoRule,
                Precedence::NoPrecedence,
            ),
            TokenType::False => ParseRule::new(
                PrefixRule::LiteralRule,
                InfixRule::NoRule,
                Precedence::NoPrecedence,
            ),
            TokenType::True => ParseRule::new(
                PrefixRule::LiteralRule,
                InfixRule::NoRule,
                Precedence::NoPrecedence,
            ),
            TokenType::Nil => ParseRule::new(
                PrefixRule::LiteralRule,
                InfixRule::NoRule,
                Precedence::NoPrecedence,
            ),
            _ => ParseRule::new(PrefixRule::NoRule, InfixRule::NoRule, Precedence::NoPrecedence),
        }
    }

    /// Append one opcode, on the line of the token just consumed.
    fn emit_byte(&mut self, opcode: OpCode)
        requires
            old(self).inv(),
        ensures
            final(self).inv(),
            final(self).parser == old(self).parser,
            final(self).locals == old(self).locals,
            final(self).scope_depth == old(self).scope_depth,
            final(self).chunk.constants@ == old(self).chunk.constants@,
            final(self).chunk.code@ == old(self).chunk.code@.push(spec_opcode_byte(opcode)),
            chunk_extends(old(self).chunk, final(self).chunk),
    {
        let line = self.parser.previous.line;
        self.chunk.write(opcode, line);
    }

    /// Append an opcode and its one operand byte.
    fn emit_bytes(&mut self, byte1: OpCode, byte2: u8)
        requires
            old(self).inv(),
        ensures
            final(self).inv(),
            final(self).parser == old(self).parser,
            final(self).locals == old(self).locals,
            final(self).scope_depth == old(self).scope_depth,
            final(self).chunk.constants@ == old(self).chunk.constants@,
            final(self).chunk.code@ == old(self).chunk.code@.push(spec_opcode_byte(byte1)).push(
                byte2,
            ),
            chunk_extends(old(self).chunk, final(self).chunk),
    {
        self.emit_byte(byte1);
        let line = self.parser.previous.line;
        self.chunk.write_byte(byte2, line);
    }

    /// Add a value to the constant pool and return its one-byte index;
    /// past 256 constants, report an error and return index zero.
    fn make_constant(&mut self, value: Value) -> (r: u8)
        requires
            old(self).inv(),
        ensures
            final(self).inv(),
            final(self).parser.scanner == old(self).parser.scanner,
            final(self).parser.current == old(self).parser.current,
            final(self).parser.previous == old(self).parser.previous,
            final(self).locals == old(self).locals,
            final(self).scope_depth == old(self).scope_depth,
            parse_measure(final(self).parser) == parse_measure(old(self).parser),
            old(self).parser.had_error ==> final(self).parser.had_error,
            final(self).chunk.code@ == old(self).chunk.code@,
            chunk_extends(old(self).chunk, final(self).chunk),
            !final(self).parser.had_error ==> (r as int) < final(self).chunk.constants@.len()
                && final(self).chunk.constants@[r as int] == value,
            old(self).chunk.constants@.len() >= 256 ==> final(self).parser.had_error,
    {
        if self.chunk.constants_len() >= 256 {
            proof {
                reveal_strlit("Too many constants in one chunk.");
            }
            self.parser.error(str_bytes("Too many constants in one chunk."));
            return 0;
        }
        let idx = self.chunk.add_constant(value);
        idx as u8
    }

    /// Append a constant-load instruction for a value.
    fn emit_constant(&mut self, value: Value)
        requires
            old(self).inv(),
        ensures
            final(self).inv(),
            final(self).parser.scanner == old(self).parser.scanner,
            final(self).parser.current == old(self).parser.current,
            final(self).parser.previous == old(self).parser.previous,
            final(self).locals == old(self).locals,
            final(self).scope_depth == old(self).scope_depth,
            parse_measure(final(self).parser) == parse_measure(old(self).parser),
            old(self).parser.had_error ==> final(self).parser.had_error,
            chunk_extends(old(self).chunk, final(self).chunk),
            !final(self).parser.had_error ==> forall|h: int|
                seg_run(
                    final(self).chunk.code@,
                    final(self).chunk.constants@,
                    old(self).chunk.code@.len() as int,
                    final(self).chunk.code@.len() as int,
                    h,
                ) == Some(h + 1),
            final(self).chunk.code@.len() == old(self).chunk.code@.len() + 2,
            final(self).chunk.code@[old(self).chunk.code@.len() as int] == spec_opcode_byte(
                OpCode::OpConstant,
            ),
            !final(self).parser.had_error ==> (final(self).chunk.code@[old(self).chunk.code@.len() as int + 1] as int) < final(self).chunk.constants@.len() && final(self).chunk.constants@[final(self).chunk.code@[old(self).chunk.code@.len() as int
                + 1] as int] == value,
    {
        let constant = self.make_constant(value);
        let ghost mid = *self;
        self.emit_bytes(OpCode::OpConstant, constant);
        proof {
            if !self.parser.had_error {
                let code = self.chunk.code@;
                let consts = self.chunk.constants@;
                let a = old(self).chunk.code@.len() as int;
                let b = code.len() as int;
                assert forall|h: int| seg_run(code, consts, a, b, h) == Some(h + 1) by {
                    assert(seg_run(code, consts, a + 2, b, h + 1) == Some(h + 1));
                    assert(code[a] == spec_opcode_byte(OpCode::OpConstant));
                    assert(spec_opcode_of_byte(code[a]) == Some(OpCode::OpConstant));
                    assert((code[a + 1] as int) < consts.len());
                }
            }
        }
    }

    /// Intern an identifier and add it to the constant pool as a string.
    fn identifier_constant(&mut self, vm: &mut VM, name: Vec<u8>) -> (r: u8)
        requires
            old(self).inv(),
            old(vm).wf(),
        ensures
            final(self).inv(),
            vm_frame(*old(vm), *final(vm)),
            final(self).parser.scanner == old(self).parser.scanner,
            final(self).parser.current == old(self).parser.current,
            final(self).parser.previous == old(self).parser.previous,
            final(self).locals == old(self).locals,
            final(self).scope_depth == old(self).scope_depth,
            parse_measure(final(self).parser) == parse_measure(old(self).parser),
            old(self).parser.had_error ==> final(self).parser.had_error,
            final(self).chunk.code@ == old(self).chunk.code@,
            chunk_extends(old(self).chunk, final(self).chunk),
            !final(self).parser.had_error ==> (r as int) < final(self).chunk.constants@.len()
                && final(self).chunk.constants@[r as int]@ == AbsValue::Str(name@),
    {
        let interned = vm.intern_string(name);
        self.make_constant(Value::string(interned))
    }

    /// Record a new local in the current scope, uninitialized.
    fn add_local(&mut self, name: Vec<u8>)
        requires
            old(self).inv(),
        ensures
            final(self).inv(),
            final(self).parser.scanner == old(self).parser.scanner,
            final(self).parser.current == old(self).parser.current,
            final(self).parser.previous == old(self).parser.previous,
            final(self).scope_depth == old(self).scope_depth,
            parse_measure(final(self).parser) == parse_measure(old(self).parser),
            old(self).parser.had_error ==> final(self).parser.had_error,
            final(self).chunk == old(self).chunk,
            final(self).locals@.len() >= old(self).locals@.len(),
            forall|i: int|
                0 <= i < old(self).locals@.len() ==> final(self).locals@[i] == old(self).locals@[i],
            final(self).locals@.len() <= old(self).locals@.len() + 1,
            final(self).locals@.len() > old(self).locals@.len() ==> final(self).locals@.last().depth is None,
            !final(self).parser.had_error ==> final(self).locals@.len() == old(self).locals@.len() + 1 && final(self).locals@.last().depth is None,
    {
        if self.locals.len() >= 256 {
            proof {
                reveal_strlit("Too many local variables in function.");
            }
            self.parser.error(str_bytes("Too many local variables in function."));
            return ;
        }
        self.locals.push(Local { name, depth: None });
    }

    /// Mark the newest local as initialized at the current depth.
    fn mark_initialized(&mut self)
        requires
            old(self).inv(),
        ensures
            final(self).inv(),
            final(self).parser == old(self).parser,
            final(self).chunk == old(self).chunk,
            final(self).scope_depth == old(self).scope_depth,
            final(self).locals@.len() == old(self).locals@.len(),
            forall|i: int|
                0 <= i < old(self).locals@.len() - 1 ==> final(self).locals@[i] == old(self).locals@[i],
            old(self).locals@.len() > 0 ==> final(self).locals@.last().depth == Some(old(self).scope_depth),
    {
        let n = self.locals.len();
        if n > 0 {
            let name = clone_bytes(&self.locals[n - 1].name);
            self.locals.set(n - 1, Local { name, depth: Some(self.scope_depth) });
        }
    }

    /// Find a local by name, innermost first: the highest matching index,
    /// or none when no local holds the name and it resolves as a global.
    /// Reading a local inside its own initializer is an error.
    fn resolve_local(&mut self, name: &[u8]) -> (r: Option<u8>)
        requires
            old(self).inv(),
        ensures
            final(self).inv(),
            final(self).parser.scanner == old(self).parser.scanner,
            final(self).parser.current == old(self).parser.current,
            final(self).parser.previous == old(self).parser.previous,
            final(self).locals == old(self).locals,
            final(self).scope_depth == old(self).scope_depth,
            final(self).chunk == old(self).chunk,
            parse_measure(final(self).parser) == parse_measure(old(self).parser),
            old(self).parser.had_error ==> final(self).parser.had_error,
            !final(self).parser.had_error ==> (r matches Some(s) ==> (s as int) < spec_active(*final(self))),
            r matches Some(s) ==> (s as int) < old(self).locals@.len() && old(self).locals@[s as int].name@ == name@ && (forall|j: int|
                s < j < old(self).locals@.len() ==> old(self).locals@[j].name@ != name@),
            r is None ==> forall|j: int|
                0 <= j < old(self).locals@.len() ==> old(self).locals@[j].name@ != name@,
            !old(self).parser.panic_mode ==> final(self).parser.diagnostics@.len() == old(self).parser.diagnostics@.len() + (
            if r matches Some(s) && old(self).locals@[s as int].depth is None {
                1int
            } else {
                0int
            }),
    {
        let mut i: usize = self.locals.len();
        while i > 0
            invariant
                self.inv(),
                i <= self.locals@.len(),
                self.parser.scanner == old(self).parser.scanner,
                self.parser.current == old(self).parser.current,
                self.parser.previous == old(self).parser.previous,
                self.parser.panic_mode == old(self).parser.panic_mode,
                self.parser.diagnostics@.len() == old(self).parser.diagnostics@.len(),
                self.parser.had_error == old(self).parser.had_error,
                self.locals == old(self).locals,
                self.scope_depth == old(self).scope_depth,
                self.chunk == old(self).chunk,
                forall|j: int| i <= j < self.locals@.len() ==> self.locals@[j].name@ != name@,
                old(self).parser.had_error ==> self.parser.had_error,
            decreases i,
        {
            i = i - 1;
            let matches_name = bytes_equal(self.locals[i].name.as_slice(), name);
            if matches_name {
                if self.locals[i].depth.is_none() {
                    proof {
                        reveal_strlit("Can't read local variable in its own initializer.");
                    }
                    self.parser.error(
                        str_bytes("Can't read local variable in its own initializer."),
                    );
                    proof {
                        assert(self.parser.had_error);
                    }
                }
                proof {
                    if !self.parser.had_error {
                        assert(self.locals@[i as int].depth is Some);
                        if self.locals@.len() > 0 && self.locals@.last().depth is None {
                            assert(i as int != self.locals@.len() - 1);
                        }
                    }
                }
                return Some(i as u8);
            }
        }
        None
    }

    /// At local scope, reject a second declaration of a name within the
    /// same block — so without an error no live local at the current
    /// depth holds the parsed name — then record the local.
    fn declare_variable(&mut self)
        requires
            old(self).inv(),
            locals_ready(*old(self)),
        ensures
            !final(self).parser.had_error && old(self).scope_depth > 0 ==> forall|j: int|
                0 <= j < old(self).locals@.len() && (#[trigger] old(self).locals@[j].depth)->0
                    >= old(self).scope_depth ==> old(self).locals@[j].name@ != old(self).parser.previous.lexeme@,
            final(self).inv(),
            final(self).parser.scanner == old(self).parser.scanner,
            final(self).parser.current == old(self).parser.current,
            final(self).parser.previous == old(self).parser.previous,
            final(self).scope_depth == old(self).scope_depth,
            parse_measure(final(self).parser) == parse_measure(old(self).parser),
            old(self).parser.had_error ==> final(self).parser.had_error,
            final(self).chunk == old(self).chunk,
            old(self).scope_depth == 0 ==> final(self).locals == old(self).locals,
            final(self).locals@.len() >= old(self).locals@.len(),
            forall|i: int|
                0 <= i < old(self).locals@.len() ==> final(self).locals@[i] == old(self).locals@[i],
            final(self).locals@.len() <= old(self).locals@.len() + 1,
            final(self).locals@.len() > old(self).locals@.len() ==> final(self).locals@.last().depth is None,
            !final(self).parser.had_error && old(self).scope_depth > 0 ==> final(self).locals@.len() == old(self).locals@.len() + 1 && final(self).locals@.last().depth
                is None,
    {
        if self.scope_depth == 0 {
            return ;
        }
        let name = clone_bytes(&self.parser.previous.lexeme);
        let mut i: usize = self.locals.len();
        loop
            invariant
                self.inv(),
                locals_ready(*old(self)),
                old(self).scope_depth > 0,
                i <= self.locals@.len(),
                self.parser.scanner == old(self).parser.scanner,
                self.parser.current == old(self).parser.current,
                self.parser.previous == old(self).parser.previous,
                self.scope_depth == old(self).scope_depth,
                self.chunk == old(self).chunk,
                self.locals == old(self).locals,
                old(self).parser.had_error ==> self.parser.had_error,
                name@ == old(self).parser.previous.lexeme@,
                forall|j: int|
                    i <= j < self.locals@.len() && (#[trigger] self.locals@[j].depth)->0
                        >= self.scope_depth && self.locals@[j].name@ == name@
                        ==> self.parser.had_error,
            ensures
                self.locals == old(self).locals,
                self.parser.previous == old(self).parser.previous,
                self.scope_depth == old(self).scope_depth,
                name@ == old(self).parser.previous.lexeme@,
                forall|j: int|
                    0 <= j < self.locals@.len() && (#[trigger] self.locals@[j].depth)->0
                        >= self.scope_depth && self.locals@[j].name@ == name@
                        ==> self.parser.had_error,
            decreases i,
        {
            if i == 0 {
                break ;
            }
            i = i - 1;
            let stop = match self.locals[i].depth {
                Some(d) => d < self.scope_depth,
                None => false,
            };
            if stop {
                proof {
                    assert forall|j: int|
                        0 <= j < self.locals@.len() && (#[trigger] self.locals@[j].depth)->0
                            >= self.scope_depth && self.locals@[j].name@ == name@ implies
                        self.parser.had_error by {
                        if j <= i as int {
                            assert(self.locals@[j].depth->0 <= self.locals@[i as int].depth->0);
                        }
                    }
                }
                break ;
            }
            if bytes_equal(self.locals[i].name.as_slice(), name.as_slice()) {
                proof {
                    reveal_strlit("Already a variable with this name in this scope.");
                }
                self.parser.error(str_bytes("Already a variable with this name in this scope."));
            }
        }
        self.add_local(name);
    }

    /// Parse a variable name; at global scope intern it and return its
    /// constant index, at local scope declare it and return zero.
    fn parse_variable(&mut self, vm: &mut VM, error_message: &[u8]) -> (r: u8)
        requires
            old(self).inv(),
            old(vm).wf(),
            locals_ready(*old(self)),
        ensures
            final(self).inv(),
            vm_frame(*old(vm), *final(vm)),
            final(self).parser.scanner.source@ == old(self).parser.scanner.source@,
            final(self).parser.scanner.current >= old(self).parser.scanner.current,
            parse_measure(final(self).parser) <= parse_measure(old(self).parser),
            old(self).parser.had_error ==> final(self).parser.had_error,
            final(self).scope_depth == old(self).scope_depth,
            final(self).chunk.code@ == old(self).chunk.code@,
            chunk_extends(old(self).chunk, final(self).chunk),
            forall|i: int|
                0 <= i < old(self).locals@.len() ==> final(self).locals@[i] == old(self).locals@[i],
            old(self).locals@.len() <= final(self).locals@.len() <= old(self).locals@.len() + 1,
            final(self).locals@.len() > old(self).locals@.len() ==> final(self).locals@.last().depth is None,
            old(self).scope_depth == 0 ==> final(self).locals == old(self).locals,
            !final(self).parser.had_error && old(self).scope_depth == 0 ==> (r as int) < final(self).chunk.constants@.len() && final(self).chunk.constants@[r as int]@ is Str,
            !final(self).parser.had_error && old(self).scope_depth > 0 ==> final(self).locals@.len() == old(self).locals@.len() + 1 && final(self).locals@.last().depth
                is None,
    {
        self.parser.consume(TokenType::Identifier, error_message);
        self.declare_variable();
        if self.scope_depth > 0 {
            return 0;
        }
        let name = clone_bytes(&self.parser.previous.lexeme);
        self.identifier_constant(vm, name)
    }

    /// At global scope, emit the definition of the parsed variable; at
    /// local scope, mark the local initialized — its value stays on the
    /// stack as the local's slot.
    fn define_variable(&mut self, global: u8)
        requires
            old(self).inv(),
            !old(self).parser.had_error && old(self).scope_depth == 0 ==> (global as int) < old(self).chunk.constants@.len() && old(self).chunk.constants@[global as int]@ is Str,
        ensures
            final(self).inv(),
            final(self).parser.scanner == old(self).parser.scanner,
            final(self).parser.current == old(self).parser.current,
            final(self).parser.previous == old(self).parser.previous,
            parse_measure(final(self).parser) == parse_measure(old(self).parser),
            old(self).parser.had_error ==> final(self).parser.had_error,
            final(self).parser.had_error == old(self).parser.had_error,
            final(self).scope_depth == old(self).scope_depth,
            chunk_extends(old(self).chunk, final(self).chunk),
            final(self).locals@.len() == old(self).locals@.len(),
            forall|i: int|
                0 <= i < old(self).locals@.len() - 1 ==> final(self).locals@[i] == old(self).locals@[i],
            old(self).scope_depth == 0 ==> final(self).locals == old(self).locals,
            old(self).scope_depth > 0 ==> final(self).chunk == old(self).chunk && (old(self).locals@.len() > 0 ==> final(self).locals@.last().depth == Some(
                old(self).scope_depth,
            )),
            !final(self).parser.had_error && old(self).scope_depth == 0 ==> forall|h: int|
                h >= 1 ==> seg_run(
                    final(self).chunk.code@,
                    final(self).chunk.constants@,
                    old(self).chunk.code@.len() as int,
                    final(self).chunk.code@.len() as int,
                    h,
                ) == Some(h - 1),
            old(self).scope_depth == 0 ==> final(self).chunk.code@ == old(self).chunk.code@.push(
                spec_opcode_byte(OpCode::OpDefineGlobal),
            ).push(global),
    {
        if self.scope_depth > 0 {
            self.mark_initialized();
            return ;
        }
        self.emit_bytes(OpCode::OpDefineGlobal, global);
        proof {
            if !self.parser.had_error {
                let code = self.chunk.code@;
                let consts = self.chunk.constants@;
                let a = old(self).chunk.code@.len() as int;
                let b = code.len() as int;
                assert forall|h: int| h >= 1 implies seg_run(code, consts, a, b, h) == Some(h - 1)
                    by {
                    assert(seg_run(code, consts, a + 2, b, h - 1) == Some(h - 1));
                    assert(spec_opcode_of_byte(code[a]) == Some(OpCode::OpDefineGlobal));
                    assert((code[a + 1] as int) < consts.len());
                    assert(consts[code[a + 1] as int]@ is Str);
                }
            }
        }
    }

    /// Enter a block.
    fn begin_scope(&mut self)
        requires
            old(self).inv(),
            old(self).scope_depth < old(self).parser.scanner.start,
        ensures
            final(self).inv(),
            final(self).parser == old(self).parser,
            final(self).chunk == old(self).chunk,
            final(self).locals == old(self).locals,
            final(self).scope_depth == old(self).scope_depth + 1,
    {
        self.scope_depth = self.scope_depth + 1;
    }

    /// Leave a block: pop its locals from the compiler's stack and emit
    /// a pop for each, so the value stack shrinks with the scope.
    fn end_scope(&mut self)
        requires
            old(self).inv(),
            old(self).scope_depth > 0,
        ensures
            final(self).inv(),
            final(self).parser == old(self).parser,
            parse_measure(final(self).parser) == parse_measure(old(self).parser),
            final(self).scope_depth == old(self).scope_depth - 1,
            chunk_extends(old(self).chunk, final(self).chunk),
            final(self).chunk.constants@ == old(self).chunk.constants@,
            final(self).locals@.len() <= old(self).locals@.len(),
            forall|i: int|
                0 <= i < final(self).locals@.len() ==> final(self).locals@[i] == old(self).locals@[i],
            forall|i: int|
                final(self).locals@.len() <= i < old(self).locals@.len() ==> ((#[trigger] old(self).locals@[i].depth) is Some && old(self).locals@[i].depth->0 > old(self).scope_depth - 1),
            final(self).locals@.len() > 0 ==> (final(self).locals@.last().depth is None || final(self).locals@.last().depth->0 <= old(self).scope_depth - 1),
            forall|h: int|
                h >= old(self).locals@.len() ==> seg_run(
                    final(self).chunk.code@,
                    final(self).chunk.constants@,
                    old(self).chunk.code@.len() as int,
                    final(self).chunk.code@.len() as int,
                    h,
                ) == Some(h - (old(self).locals@.len() - final(self).locals@.len())),
            final(self).chunk.code@.len() == old(self).chunk.code@.len() + (old(self).locals@.len() - final(self).locals@.len()),
    {
        self.scope_depth = self.scope_depth - 1;
        loop
            invariant
                self.inv(),
                self.parser == old(self).parser,
                self.scope_depth == old(self).scope_depth - 1,
                chunk_extends(old(self).chunk, self.chunk),
                self.chunk.constants@ == old(self).chunk.constants@,
                self.chunk.code@.len() == old(self).chunk.code@.len() + (old(self).locals@.len()
                    - self.locals@.len()),
                self.locals@.len() <= old(self).locals@.len(),
                forall|i: int|
                    0 <= i < self.locals@.len() ==> self.locals@[i] == old(self).locals@[i],
                forall|i: int|
                    self.locals@.len() <= i < old(self).locals@.len() ==> ((#[trigger] old(self).locals@[i].depth) is Some && old(self).locals@[i].depth->0 > old(self).scope_depth - 1),
                forall|h: int|
                    h >= old(self).locals@.len() ==> seg_run(
                        self.chunk.code@,
                        self.chunk.constants@,
                        old(self).chunk.code@.len() as int,
                        self.chunk.code@.len() as int,
                        h,
                    ) == Some(h - (old(self).locals@.len() - self.locals@.len())),
            ensures
                self.locals@.len() > 0 ==> (self.locals@.last().depth is None
                    || self.locals@.last().depth->0 <= old(self).scope_depth - 1),
            decreases self.locals@.len(),
        {
            let n = self.locals.len();
            if n == 0 {
                break ;
            }
            let above = match self.locals[n - 1].depth {
                Some(d) => d > self.scope_depth,
                None => false,
            };
            if !above {
                break ;
            }
            let ghost mid = *self;
            self.emit_byte(OpCode::OpPop);
            let _ = self.locals.pop();
            proof {
                let code = self.chunk.code@;
                let consts = self.chunk.constants@;
                let a = old(self).chunk.code@.len() as int;
                let b = mid.chunk.code@.len() as int;
                let k = old(self).locals@.len() - mid.locals@.len();
                assert forall|h: int| h >= old(self).locals@.len() implies #[trigger] seg_run(
                    code,
                    consts,
                    a,
                    b + 1,
                    h,
                ) == Some(h - (k + 1)) by {
                    lemma_seg_extend(mid.chunk.code@, consts, code, consts, a, b, h);
                    assert(seg_run(code, consts, a, b, h) == Some(h - k));
                    assert(seg_run(code, consts, b + 1, b + 1, h - k - 1) == Some(h - k - 1));
                    assert(spec_opcode_of_byte(code[b]) == Some(OpCode::OpPop));
                    assert(h - k >= 1);
                    assert(seg_run(code, consts, b, b + 1, h - k) == Some(h - k - 1));
                    lemma_seg_chain(code, consts, a, b, b + 1, h, h - k);
                }
            }
        }
    }

    /// Compile an expression.
    fn expression(&mut self, vm: &mut VM)
        requires
            old(self).inv(),
            old(vm).wf(),
        ensures
            old(self).parser.current.token_type != TokenType::Eof ==> emit_budget(*final(self))
                <= emit_budget(*old(self)) - 1,
            final(self).inv(),
            vm_frame(*old(vm), *final(vm)),
            final(self).parser.scanner.source@ == old(self).parser.scanner.source@,
            final(self).parser.scanner.current >= old(self).parser.scanner.current,
            parse_measure(final(self).parser) <= parse_measure(old(self).parser),
            old(self).parser.current.token_type != TokenType::Eof ==> parse_measure(
                final(self).parser,
            ) < parse_measure(old(self).parser),
            old(self).parser.had_error ==> final(self).parser.had_error,
            final(self).scope_depth == old(self).scope_depth,
            final(self).locals == old(self).locals,
            chunk_extends(old(self).chunk, final(self).chunk),
            !final(self).parser.had_error ==> emits_value(*old(self), *final(self)),
            emit_budget(*final(self)) <= emit_budget(*old(self)) + 0,
        decreases parse_measure(old(self).parser), 1int,
    {
        self.parse_precedence(vm, Precedence::Assignment);
    }

    /// Compile a number literal from the token just consumed.
    fn number(&mut self)
        requires
            old(self).inv(),
            old(self).parser.previous.token_type == TokenType::Number,
        ensures
            final(self).inv(),
            final(self).parser.scanner == old(self).parser.scanner,
            final(self).parser.current == old(self).parser.current,
            parse_measure(final(self).parser) == parse_measure(old(self).parser),
            old(self).parser.had_error ==> final(self).parser.had_error,
            final(self).scope_depth == old(self).scope_depth,
            final(self).locals == old(self).locals,
            chunk_extends(old(self).chunk, final(self).chunk),
            !final(self).parser.had_error ==> emits_value(*old(self), *final(self)),
            !final(self).parser.had_error ==> final(self).chunk.code@.len() == old(self).chunk.code@.len() + 2 && final(self).chunk.code@[old(self).chunk.code@.len() as int]
                == spec_opcode_byte(OpCode::OpConstant) && f64_of_decimal(
                old(self).parser.previous.lexeme@,
            ) is Some && (final(self).chunk.code@[old(self).chunk.code@.len() as int
                + 1] as int) < final(self).chunk.constants@.len() && final(self).chunk.constants@[final(self).chunk.code@[old(self).chunk.code@.len() as int
                + 1] as int]@ == AbsValue::Num(f64_of_decimal(old(self).parser.previous.lexeme@)->0),
            emit_budget(*final(self)) <= emit_budget(*old(self)) + 2,
    {
        let parsed = crate::number::number_of_decimal(self.parser.previous.lexeme.as_slice());
        match parsed {
            Some(bits) => self.emit_constant(Value::number(bits)),
            None => unreached(),
        }
    }

    /// Compile a string literal from the token just consumed: its
    /// content without the quotes, interned.
    fn string(&mut self, vm: &mut VM)
        requires
            old(self).inv(),
            old(vm).wf(),
            old(self).parser.previous.token_type == TokenType::String,
        ensures
            final(self).inv(),
            vm_frame(*old(vm), *final(vm)),
            final(self).parser.scanner == old(self).parser.scanner,
            final(self).parser.current == old(self).parser.current,
            parse_measure(final(self).parser) == parse_measure(old(self).parser),
            old(self).parser.had_error ==> final(self).parser.had_error,
            final(self).scope_depth == old(self).scope_depth,
            final(self).locals == old(self).locals,
            chunk_extends(old(self).chunk, final(self).chunk),
            !final(self).parser.had_error ==> emits_value(*old(self), *final(self)),
            !final(self).parser.had_error ==> final(self).chunk.code@.len() == old(self).chunk.code@.len() + 2 && final(self).chunk.code@[old(self).chunk.code@.len() as int]
                == spec_opcode_byte(OpCode::OpConstant) && (final(self).chunk.code@[old(self).chunk.code@.len() as int + 1] as int) < final(self).chunk.constants@.len() && final(self).chunk.constants@[final(self).chunk.code@[old(self).chunk.code@.len() as int
                + 1] as int]@ == AbsValue::Str(
                old(self).parser.previous.lexeme@.subrange(
                    1,
                    old(self).parser.previous.lexeme@.len() - 1,
                ),
            ),
            emit_budget(*final(self)) <= emit_budget(*old(self)) + 2,
    {
        let len = self.parser.previous.lexeme.len();
        let inner = vstd::slice::slice_subrange(
            self.parser.previous.lexeme.as_slice(),
            1,
            len - 1,
        );
        let content = vstd::slice::slice_to_vec(inner);
        let interned = vm.intern_string(content);
        self.emit_constant(Value::string(interned));
    }

    /// Compile a use of the variable named by the token just consumed.
    fn variable(&mut self, vm: &mut VM, can_assign: bool)
        requires
            old(self).inv(),
            old(vm).wf(),
        ensures
            final(self).inv(),
            vm_frame(*old(vm), *final(vm)),
            final(self).parser.scanner.source@ == old(self).parser.scanner.source@,
            final(self).parser.scanner.current >= old(self).parser.scanner.current,
            parse_measure(final(self).parser) <= parse_measure(old(self).parser),
            old(self).parser.had_error ==> final(self).parser.had_error,
            final(self).scope_depth == old(self).scope_depth,
            final(self).locals == old(self).locals,
            chunk_extends(old(self).chunk, final(self).chunk),
            !final(self).parser.had_error ==> emits_value(*old(self), *final(self)),
            final(self).chunk.code@.len() >= old(self).chunk.code@.len() + 2,
            is_variable_access(final(self).chunk.code@[final(self).chunk.code@.len() - 2]),
            emit_budget(*final(self)) <= emit_budget(*old(self)) + 3,
        decreases parse_measure(old(self).parser), 3int,
    {
        let name = clone_bytes(&self.parser.previous.lexeme);
        self.named_variable(vm, name, can_assign);
    }

    /// Emit a read or, on `name = expr` when assignment is allowed, a
    /// write of a variable: a local slot if the name resolves, else a
    /// global by interned name.
    fn named_variable(&mut self, vm: &mut VM, name: Vec<u8>, can_assign: bool)
        requires
            old(self).inv(),
            old(vm).wf(),
        ensures
            final(self).inv(),
            vm_frame(*old(vm), *final(vm)),
            final(self).parser.scanner.source@ == old(self).parser.scanner.source@,
            final(self).parser.scanner.current >= old(self).parser.scanner.current,
            parse_measure(final(self).parser) <= parse_measure(old(self).parser),
            old(self).parser.had_error ==> final(self).parser.had_error,
            final(self).scope_depth == old(self).scope_depth,
            final(self).locals == old(self).locals,
            chunk_extends(old(self).chunk, final(self).chunk),
            !final(self).parser.had_error ==> emits_value(*old(self), *final(self)),
            final(self).chunk.code@.len() >= old(self).chunk.code@.len() + 2,
            is_variable_access(final(self).chunk.code@[final(self).chunk.code@.len() - 2]),
            !final(self).parser.had_error ==> ((final(self).chunk.code@[final(self).chunk.code@.len() - 2] == spec_opcode_byte(OpCode::OpSetLocal) || final(self).chunk.code@[final(self).chunk.code@.len() - 2] == spec_opcode_byte(
                OpCode::OpSetGlobal,
            )) <==> (can_assign && old(self).parser.current.token_type == TokenType::Equal)),
            !final(self).parser.had_error && (exists|j: int|
                0 <= j < old(self).locals@.len() && (#[trigger] old(self).locals@[j].name@)
                    == name@) ==> (final(self).chunk.code@[final(self).chunk.code@.len() - 2]
                == spec_opcode_byte(OpCode::OpGetLocal) || final(self).chunk.code@[final(self).chunk.code@.len() - 2] == spec_opcode_byte(OpCode::OpSetLocal)) && (final(self).chunk.code@[final(self).chunk.code@.len() - 1] as int) < old(self).locals@.len()
                && old(self).locals@[final(self).chunk.code@[final(self).chunk.code@.len()
                - 1] as int].name@ == name@,
            !final(self).parser.had_error && (forall|j: int|
                0 <= j < old(self).locals@.len() ==> (#[trigger] old(self).locals@[j].name@)
                    != name@) ==> (final(self).chunk.code@[final(self).chunk.code@.len() - 2]
                == spec_opcode_byte(OpCode::OpGetGlobal) || final(self).chunk.code@[final(self).chunk.code@.len() - 2] == spec_opcode_byte(OpCode::OpSetGlobal)) && (final(self).chunk.code@[final(self).chunk.code@.len() - 1] as int) < final(self).chunk.constants@.len() && final(self).chunk.constants@[final(self).chunk.code@[final(self).chunk.code@.len() - 1] as int]@ == AbsValue::Str(name@),
            emit_budget(*final(self)) <= emit_budget(*old(self)) + 2,
        decreases parse_measure(old(self).parser), 2int,
    {
        let resolved = self.resolve_local(name.as_slice());
        let get_op: OpCode;
        let set_op: OpCode;
        let arg: u8;
        let ghost is_local = resolved is Some;
        match resolved {
            Some(slot) => {
                arg = slot;
                get_op = OpCode::OpGetLocal;
                set_op = OpCode::OpSetLocal;
            },
            None => {
                arg = self.identifier_constant(vm, name);
                get_op = OpCode::OpGetGlobal;
                set_op = OpCode::OpSetGlobal;
            },
        }
        let ghost named = *self;
        proof {
            if !self.parser.had_error {
                if is_local {
                    assert((arg as int) < spec_active(*old(self)));
                } else {
                    assert((arg as int) < named.chunk.constants@.len());
                    assert(named.chunk.constants@[arg as int]@ is Str);
                }
            }
        }
        if can_assign && self.parser.match_token(TokenType::Equal) {
            self.expression(vm);
            let ghost mid = *self;
            self.emit_bytes(set_op, arg);
            proof {
                if !self.parser.had_error {
                    let code = self.chunk.code@;
                    let consts = self.chunk.constants@;
                    let a = old(self).chunk.code@.len() as int;
                    let b = mid.chunk.code@.len() as int;
                    assert forall|h: int| h >= spec_active(*old(self)) implies #[trigger] seg_run(
                        code,
                        consts,
                        a,
                        b + 2,
                        h,
                    ) == Some(h + 1) by {
                        lemma_seg_extend(mid.chunk.code@, mid.chunk.constants@, code, consts, a, b, h);
                        assert(seg_run(code, consts, a, b, h) == Some(h + 1));
                        assert(seg_run(code, consts, b + 2, b + 2, h + 1) == Some(h + 1));
                        assert(spec_opcode_of_byte(code[b]) == Some(set_op));
                        assert(code[b + 1] == arg);
                        assert(seg_run(code, consts, b, b + 2, h + 1) == Some(h + 1));
                        lemma_seg_chain(code, consts, a, b, b + 2, h, h + 1);
                    }
                }
            }
        } else {
            self.emit_bytes(get_op, arg);
            proof {
                if !self.parser.had_error {
                    let code = self.chunk.code@;
                    let consts = self.chunk.constants@;
                    let a = named.chunk.code@.len() as int;
                    assert(a == old(self).chunk.code@.len() as int);
                    assert forall|h: int| h >= spec_active(*old(self)) implies #[trigger] seg_run(
                        code,
                        consts,
                        a,
                        a + 2,
                        h,
                    ) == Some(h + 1) by {
                        assert(seg_run(code, consts, a + 2, a + 2, h + 1) == Some(h + 1));
                        assert(spec_opcode_of_byte(code[a]) == Some(get_op));
                        assert(code[a + 1] == arg);
                    }
                }
            }
        }
    }

    /// Compile `false`, `true` or `nil` from the token just consumed.
    fn literal(&mut self)
        requires
            old(self).inv(),
            old(self).parser.previous.token_type == TokenType::False || old(self).parser.previous.token_type == TokenType::True || old(self).parser.previous.token_type
                == TokenType::Nil,
        ensures
            final(self).inv(),
            final(self).parser == old(self).parser,
            parse_measure(final(self).parser) == parse_measure(old(self).parser),
            old(self).parser.had_error ==> final(self).parser.had_error,
            final(self).scope_depth == old(self).scope_depth,
            final(self).locals == old(self).locals,
            chunk_extends(old(self).chunk, final(self).chunk),
            !final(self).parser.had_error ==> emits_value(*old(self), *final(self)),
            final(self).chunk.code@.len() == old(self).chunk.code@.len() + 1,
            final(self).chunk.code@.last() == spec_opcode_byte(
                match old(self).parser.previous.token_type {
                    TokenType::False => OpCode::OpFalse,
                    TokenType::True => OpCode::OpTrue,
                    _ => OpCode::OpNil,
                },
            ),
            emit_budget(*final(self)) <= emit_budget(*old(self)) + 1,
    {
        let op = match self.parser.previous.token_type {
            TokenType::False => OpCode::OpFalse,
            TokenType::True => OpCode::OpTrue,
            TokenType::Nil => OpCode::OpNil,
            _ => unreached(),
        };
        self.emit_byte(op);
        proof {
            if !self.parser.had_error {
                let a = old(self).chunk.code@.len() as int;
                assert forall|h: int| h >= spec_active(*old(self)) implies #[trigger] seg_run(
                    self.chunk.code@,
                    self.chunk.constants@,
                    a,
                    self.chunk.code@.len() as int,
                    h,
                ) == Some(h + 1) by {
                    lemma_seg_one(self.chunk.code@, self.chunk.constants@, a, h, op, h + 1);
                }
            }
        }
    }

    /// Compile a parenthesised expression.
    fn grouping(&mut self, vm: &mut VM)
        requires
            old(self).inv(),
            old(vm).wf(),
        ensures
            final(self).inv(),
            vm_frame(*old(vm), *final(vm)),
            final(self).parser.scanner.source@ == old(self).parser.scanner.source@,
            final(self).parser.scanner.current >= old(self).parser.scanner.current,
            parse_measure(final(self).parser) <= parse_measure(old(self).parser),
            old(self).parser.had_error ==> final(self).parser.had_error,
            final(self).scope_depth == old(self).scope_depth,
            final(self).locals == old(self).locals,
            chunk_extends(old(self).chunk, final(self).chunk),
            !final(self).parser.had_error ==> emits_value(*old(self), *final(self)),
            emit_budget(*final(self)) <= emit_budget(*old(self)) + 0,
        decreases parse_measure(old(self).parser), 2int,
    {
        self.expression(vm);
        proof {
            reveal_strlit("Expect ')' after expression.");
        }
        self.parser.consume(TokenType::RightParen, str_bytes("Expect ')' after expression."));
    }

    /// Compile a unary `!` or `-`: the operand at unary precedence, then
    /// the operator.
    fn unary(&mut self, vm: &mut VM)
        requires
            old(self).inv(),
            old(vm).wf(),
            old(self).parser.previous.token_type == TokenType::Bang || old(self).parser.previous.token_type == TokenType::Minus,
        ensures
            final(self).inv(),
            vm_frame(*old(vm), *final(vm)),
            final(self).parser.scanner.source@ == old(self).parser.scanner.source@,
            final(self).parser.scanner.current >= old(self).parser.scanner.current,
            parse_measure(final(self).parser) <= parse_measure(old(self).parser),
            old(self).parser.had_error ==> final(self).parser.had_error,
            final(self).scope_depth == old(self).scope_depth,
            final(self).locals == old(self).locals,
            chunk_extends(old(self).chunk, final(self).chunk),
            !final(self).parser.had_error ==> emits_value(*old(self), *final(self)),
            final(self).chunk.code@.len() >= old(self).chunk.code@.len() + 1,
            final(self).chunk.code@.last() == spec_opcode_byte(
                if old(self).parser.previous.token_type == TokenType::Bang {
                    OpCode::OpNot
                } else {
                    OpCode::OpNegate
                },
            ),
            emit_budget(*final(self)) <= emit_budget(*old(self)) + 1,
        decreases parse_measure(old(self).parser), 2int,
    {
        let operator_type = self.parser.previous.token_type;
        self.parse_precedence(vm, Precedence::Unary);
        let ghost mid = *self;
        let op = match operator_type {
            TokenType::Bang => OpCode::OpNot,
            TokenType::Minus => OpCode::OpNegate,
            _ => unreached(),
        };
        self.emit_byte(op);
        proof {
            if !self.parser.had_error {
                let code = self.chunk.code@;
                let consts = self.chunk.constants@;
                let a = old(self).chunk.code@.len() as int;
                let b = mid.chunk.code@.len() as int;
                assert forall|h: int| h >= spec_active(*old(self)) implies #[trigger] seg_run(
                    code,
                    consts,
                    a,
                    b + 1,
                    h,
                ) == Some(h + 1) by {
                    lemma_seg_extend(mid.chunk.code@, mid.chunk.constants@, code, consts, a, b, h);
                    assert(seg_run(code, consts, a, b, h) == Some(h + 1));
                    lemma_seg_one(code, consts, b, h + 1, op, h + 1);
                    lemma_seg_chain(code, consts, a, b, b + 1, h, h + 1);
                }
            }
        }
    }

    /// Compile a binary operator: the right operand at one precedence
    /// higher, then the operator — composite for `!=`, `>=`, `<=`.
    fn binary(&mut self, vm: &mut VM)
        requires
            old(self).inv(),
            old(vm).wf(),
            spec_rule(old(self).parser.previous.token_type).infix == InfixRule::BinaryRule,
        ensures
            final(self).inv(),
            vm_frame(*old(vm), *final(vm)),
            final(self).parser.scanner.source@ == old(self).parser.scanner.source@,
            final(self).parser.scanner.current >= old(self).parser.scanner.current,
            parse_measure(final(self).parser) <= parse_measure(old(self).parser),
            old(self).parser.had_error ==> final(self).parser.had_error,
            final(self).scope_depth == old(self).scope_depth,
            final(self).locals == old(self).locals,
            chunk_extends(old(self).chunk, final(self).chunk),
            !final(self).parser.had_error ==> emits_infix(*old(self), *final(self)),
            final(self).chunk.code@.len() >= old(self).chunk.code@.len() + spec_binary_op_bytes(
                old(self).parser.previous.token_type,
            ).len(),
            final(self).chunk.code@.subrange(
                final(self).chunk.code@.len() - spec_binary_op_bytes(
                    old(self).parser.previous.token_type,
                ).len(),
                final(self).chunk.code@.len() as int,
            ) == spec_binary_op_bytes(old(self).parser.previous.token_type),
            emit_budget(*final(self)) <= emit_budget(*old(self)) + 2,
        decreases parse_measure(old(self).parser), 2int,
    {
        let operator_type = self.parser.previous.token_type;
        let rule = self.get_rule(operator_type);
        self.parse_precedence(vm, rule.precedence.next());
        let ghost mid = *self;
        let (first, second): (OpCode, Option<OpCode>) = match operator_type {
            TokenType::BangEqual => (OpCode::OpEqual, Some(OpCode::OpNot)),
            TokenType::EqualEqual => (OpCode::OpEqual, None),
            TokenType::Greater => (OpCode::OpGreater, None),
            TokenType::GreaterEqual => (OpCode::OpLess, Some(OpCode::OpNot)),
            TokenType::Less => (OpCode::OpLess, None),
            TokenType::LessEqual => (OpCode::OpGreater, Some(OpCode::OpNot)),
            TokenType::Plus => (OpCode::OpAdd, None),
            TokenType::Minus => (OpCode::OpSubtract, None),
            TokenType::Star => (OpCode::OpMultiply, None),
            TokenType::Slash => (OpCode::OpDivide, None),
            _ => unreached(),
        };
        self.emit_byte(first);
        match second {
            Some(op2) => self.emit_byte(op2),
            None => {},
        }
        proof {
            let ops = spec_binary_op_bytes(operator_type);
            assert(self.chunk.code@.subrange(
                self.chunk.code@.len() - ops.len(),
                self.chunk.code@.len() as int,
            ) =~= ops);
            if !self.parser.had_error {
                let code = self.chunk.code@;
                let consts = self.chunk.constants@;
                let a = old(self).chunk.code@.len() as int;
                let b = mid.chunk.code@.len() as int;
                let e = code.len() as int;
                assert forall|h: int| h >= spec_active(*old(self)) && h >= 1 implies #[trigger] seg_run(
                    code,
                    consts,
                    a,
                    e,
                    h,
                ) == Some(h) by {
                    lemma_seg_extend(mid.chunk.code@, mid.chunk.constants@, code, consts, a, b, h);
                    assert(seg_run(code, consts, a, b, h) == Some(h + 1));
                    lemma_seg_one(code, consts, b, h + 1, first, h);
                    match second {
                        Some(op2) => {
                            lemma_seg_one(code, consts, b + 1, h, op2, h);
                            lemma_seg_chain(code, consts, b, b + 1, e, h + 1, h);
                        },
                        None => {},
                    }
                    lemma_seg_chain(code, consts, a, b, e, h, h + 1);
                }
            }
        }
    }

    /// The Pratt driver: consume a token, run its prefix action — which
    /// may take a trailing `=` only at assignment precedence — then fold
    /// in infix operators of at least the given precedence, and report a
    /// leftover `=` as an invalid assignment target.
    fn parse_precedence(&mut self, vm: &mut VM, precedence: Precedence)
        requires
            old(self).inv(),
            old(vm).wf(),
            spec_prec_rank(precedence) >= 1,
        ensures
            old(self).parser.current.token_type != TokenType::Eof ==> emit_budget(*final(self))
                <= emit_budget(*old(self)) - 1,
            final(self).inv(),
            vm_frame(*old(vm), *final(vm)),
            final(self).parser.scanner.source@ == old(self).parser.scanner.source@,
            final(self).parser.scanner.current >= old(self).parser.scanner.current,
            parse_measure(final(self).parser) <= parse_measure(old(self).parser),
            old(self).parser.current.token_type != TokenType::Eof ==> parse_measure(
                final(self).parser,
            ) < parse_measure(old(self).parser),
            old(self).parser.had_error ==> final(self).parser.had_error,
            final(self).scope_depth == old(self).scope_depth,
            final(self).locals == old(self).locals,
            chunk_extends(old(self).chunk, final(self).chunk),
            !final(self).parser.had_error ==> emits_value(*old(self), *final(self)),
            !old(self).parser.panic_mode && spec_rule(
                old(self).parser.current.token_type,
            ).prefix == PrefixRule::NoRule ==> final(self).parser.had_error && final(self).parser.diagnostics@.len() > old(self).parser.diagnostics@.len(),
            emit_budget(*final(self)) <= emit_budget(*old(self)) + 0,
        decreases parse_measure(old(self).parser), 0int,
    {
        self.parser.advance();
        let prefix = self.get_rule(self.parser.previous.token_type).prefix;
        let can_assign = prec_rank(precedence) <= 1;
        match prefix {
            PrefixRule::NoRule => {
                proof {
                    reveal_strlit("Expect expression.");
                }
                self.parser.error(str_bytes("Expect expression."));
                proof {
                    assert(self.parser.had_error);
                }
                return ;
            },
            PrefixRule::GroupingRule => self.grouping(vm),
            PrefixRule::UnaryRule => self.unary(vm),
            PrefixRule::VariableRule => self.variable(vm, can_assign),
            PrefixRule::NumberRule => self.number(),
            PrefixRule::StringRule => self.string(vm),
            PrefixRule::LiteralRule => self.literal(),
        }
        loop
            invariant
                self.inv(),
                vm.wf(),
                vm_frame(*old(vm), *vm),
                self.parser.scanner.source@ == old(self).parser.scanner.source@,
                self.parser.scanner.current >= old(self).parser.scanner.current,
                parse_measure(self.parser) < parse_measure(old(self).parser),
                old(self).parser.had_error ==> self.parser.had_error,
                self.scope_depth == old(self).scope_depth,
                self.locals == old(self).locals,
                chunk_extends(old(self).chunk, self.chunk),
                !self.parser.had_error ==> emits_value(*old(self), *self),
                spec_prec_rank(precedence) >= 1,
                old(self).parser.current.token_type != TokenType::Eof ==> emit_budget(*self)
                    <= emit_budget(*old(self)) - 1,
            decreases parse_measure(self.parser),
        {
            let rule = self.get_rule(self.parser.current.token_type);
            if !(prec_rank(precedence) <= prec_rank(rule.precedence)) {
                break ;
            }
            proof {
                assert(self.parser.current.token_type != TokenType::Eof);
            }
            self.parser.advance();
            let infix = self.get_rule(self.parser.previous.token_type).infix;
            let ghost before = *self;
            match infix {
                InfixRule::BinaryRule => self.binary(vm),
                InfixRule::NoRule => {},
            }
            proof {
                if !self.parser.had_error {
                    let code = self.chunk.code@;
                    let consts = self.chunk.constants@;
                    let a = old(self).chunk.code@.len() as int;
                    let b = before.chunk.code@.len() as int;
                    let e = code.len() as int;
                    assert forall|h: int| h >= spec_active(*old(self)) implies #[trigger] seg_run(
                        code,
                        consts,
                        a,
                        e,
                        h,
                    ) == Some(h + 1) by {
                        lemma_seg_extend(
                            before.chunk.code@,
                            before.chunk.constants@,
                            code,
                            consts,
                            a,
                            b,
                            h,
                        );
                        assert(seg_run(code, consts, a, b, h) == Some(h + 1));
                        assert(seg_run(code, consts, b, e, h + 1) == Some(h + 1));
                        lemma_seg_chain(code, consts, a, b, e, h, h + 1);
                    }
                }
            }
        }
        if can_assign && self.parser.check(TokenType::Equal) {
            let _ = self.parser.match_token(TokenType::Equal);
            proof {
                reveal_strlit("Invalid assignment target.");
            }
            self.parser.error(str_bytes("Invalid assignment target."));
        }
    }

    /// Compile a `var` declaration: the name, the initializer or an
    /// implicit `nil`, and the definition.
    fn var_declaration(&mut self, vm: &mut VM)
        requires
            old(self).inv(),
            old(vm).wf(),
            locals_ready(*old(self)),
        ensures
            final(self).inv(),
            vm_frame(*old(vm), *final(vm)),
            final(self).parser.scanner.source@ == old(self).parser.scanner.source@,
            final(self).parser.scanner.current >= old(self).parser.scanner.current,
            parse_measure(final(self).parser) <= parse_measure(old(self).parser),
            old(self).parser.had_error ==> final(self).parser.had_error,
            final(self).scope_depth == old(self).scope_depth,
            locals_ready(*final(self)),
            chunk_extends(old(self).chunk, final(self).chunk),
            old(self).scope_depth == 0 ==> final(self).locals@ == old(self).locals@,
            !final(self).parser.had_error ==> {
                &&& (forall|i: int|
                    0 <= i < old(self).locals@.len() ==> final(self).locals@[i] == old(self).locals@[i])
                &&& old(self).locals@.len() <= final(self).locals@.len() <= old(self).locals@.len() + 1
                &&& (forall|i: int|
                    old(self).locals@.len() <= i < final(self).locals@.len() ==> (#[trigger] final(self).locals@[i].depth) == Some(old(self).scope_depth))
                &&& emits_statement(*old(self), *final(self))
            },
            emit_budget(*final(self)) <= emit_budget(*old(self)) + 4,
        decreases parse_measure(old(self).parser), 2int,
    {
        proof {
            reveal_strlit("Expect variable name.");
        }
        let global = self.parse_variable(vm, str_bytes("Expect variable name."));
        let ghost after_name = *self;
        if self.parser.match_token(TokenType::Equal) {
            self.expression(vm);
        } else {
            let ghost before_nil = *self;
            self.emit_byte(OpCode::OpNil);
            proof {
                if !self.parser.had_error {
                    let a = before_nil.chunk.code@.len() as int;
                    assert forall|h: int| h >= spec_active(before_nil) implies #[trigger] seg_run(
                        self.chunk.code@,
                        self.chunk.constants@,
                        a,
                        self.chunk.code@.len() as int,
                        h,
                    ) == Some(h + 1) by {
                        lemma_seg_one(
                            self.chunk.code@,
                            self.chunk.constants@,
                            a,
                            h,
                            OpCode::OpNil,
                            h + 1,
                        );
                    }
                }
            }
        }
        let ghost after_init = *self;
        proof {
            reveal_strlit("Expect ';' after variable declaration.");
        }
        self.parser.consume(
            TokenType::Semicolon,
            str_bytes("Expect ';' after variable declaration."),
        );
        self.define_variable(global);
        proof {
            if !self.parser.had_error {
                let code = self.chunk.code@;
                let consts = self.chunk.constants@;
                let a = old(self).chunk.code@.len() as int;
                let b = after_init.chunk.code@.len() as int;
                let e = code.len() as int;
                assert(spec_active(after_name) == old(self).locals@.len());
                assert forall|h: int| h >= old(self).locals@.len() implies #[trigger] seg_run(
                    code,
                    consts,
                    a,
                    e,
                    h,
                ) == Some(h + final(self).locals@.len() - old(self).locals@.len()) by {
                    lemma_seg_extend(
                        after_init.chunk.code@,
                        after_init.chunk.constants@,
                        code,
                        consts,
                        a,
                        b,
                        h,
                    );
                    assert(seg_run(code, consts, a, b, h) == Some(h + 1));
                    if old(self).scope_depth == 0 {
                        assert(seg_run(code, consts, b, e, h + 1) == Some(h));
                        lemma_seg_chain(code, consts, a, b, e, h, h + 1);
                    } else {
                        assert(b == e);
                        lemma_seg_chain(code, consts, a, b, e, h, h + 1);
                    }
                }
            }
        }
    }

    /// Compile a `print` statement.
    fn print_statement(&mut self, vm: &mut VM)
        requires
            old(self).inv(),
            old(vm).wf(),
            locals_ready(*old(self)),
        ensures
            final(self).inv(),
            vm_frame(*old(vm), *final(vm)),
            final(self).parser.scanner.source@ == old(self).parser.scanner.source@,
            final(self).parser.scanner.current >= old(self).parser.scanner.current,
            parse_measure(final(self).parser) <= parse_measure(old(self).parser),
            old(self).parser.had_error ==> final(self).parser.had_error,
            final(self).scope_depth == old(self).scope_depth,
            final(self).locals@ == old(self).locals@,
            locals_ready(*final(self)),
            chunk_extends(old(self).chunk, final(self).chunk),
            !final(self).parser.had_error ==> emits_statement(*old(self), *final(self)),
            final(self).chunk.code@.len() >= old(self).chunk.code@.len() + 1,
            final(self).chunk.code@.last() == spec_opcode_byte(OpCode::OpPrint),
            emit_budget(*final(self)) <= emit_budget(*old(self)) + 1,
        decreases parse_measure(old(self).parser), 2int,
    {
        self.expression(vm);
        proof {
            reveal_strlit("Expect ';' after value.");
        }
        self.parser.consume(TokenType::Semicolon, str_bytes("Expect ';' after value."));
        let ghost mid = *self;
        self.emit_byte(OpCode::OpPrint);
        proof {
            if !self.parser.had_error {
                let code = self.chunk.code@;
                let consts = self.chunk.constants@;
                let a = old(self).chunk.code@.len() as int;
                let b = mid.chunk.code@.len() as int;
                assert(spec_active(*old(self)) == old(self).locals@.len());
                assert forall|h: int| h >= old(self).locals@.len() implies #[trigger] seg_run(
                    code,
                    consts,
                    a,
                    b + 1,
                    h,
                ) == Some(h) by {
                    lemma_seg_extend(mid.chunk.code@, mid.chunk.constants@, code, consts, a, b, h);
                    assert(seg_run(code, consts, a, b, h) == Some(h + 1));
                    lemma_seg_one(code, consts, b, h + 1, OpCode::OpPrint, h);
                    lemma_seg_chain(code, consts, a, b, b + 1, h, h + 1);
                }
            }
        }
    }

    /// Compile an expression statement: the expression, then a pop.
    fn expression_statement(&mut self, vm: &mut VM)
        requires
            old(self).inv(),
            old(vm).wf(),
            locals_ready(*old(self)),
        ensures
            old(self).parser.current.token_type != TokenType::Eof ==> emit_budget(*final(self))
                <= emit_budget(*old(self)),
            final(self).inv(),
            vm_frame(*old(vm), *final(vm)),
            final(self).parser.scanner.source@ == old(self).parser.scanner.source@,
            final(self).parser.scanner.current >= old(self).parser.scanner.current,
            parse_measure(final(self).parser) <= parse_measure(old(self).parser),
            old(self).parser.current.token_type != TokenType::Eof ==> parse_measure(
                final(self).parser,
            ) < parse_measure(old(self).parser),
            old(self).parser.had_error ==> final(self).parser.had_error,
            final(self).scope_depth == old(self).scope_depth,
            final(self).locals@ == old(self).locals@,
            locals_ready(*final(self)),
            chunk_extends(old(self).chunk, final(self).chunk),
            !final(self).parser.had_error ==> emits_statement(*old(self), *final(self)),
            final(self).chunk.code@.len() >= old(self).chunk.code@.len() + 1,
            final(self).chunk.code@.last() == spec_opcode_byte(OpCode::OpPop),
            emit_budget(*final(self)) <= emit_budget(*old(self)) + 1,
        decreases parse_measure(old(self).parser), 2int,
    {
        self.expression(vm);
        proof {
            reveal_strlit("Expect ';' after expression.");
        }
        self.parser.consume(TokenType::Semicolon, str_bytes("Expect ';' after expression."));
        let ghost mid = *self;
        self.emit_byte(OpCode::OpPop);
        proof {
            if !self.parser.had_error {
                let code = self.chunk.code@;
                let consts = self.chunk.constants@;
                let a = old(self).chunk.code@.len() as int;
                let b = mid.chunk.code@.len() as int;
                assert(spec_active(*old(self)) == old(self).locals@.len());
                assert forall|h: int| h >= old(self).locals@.len() implies #[trigger] seg_run(
                    code,
                    consts,
                    a,
                    b + 1,
                    h,
                ) == Some(h) by {
                    lemma_seg_extend(mid.chunk.code@, mid.chunk.constants@, code, consts, a, b, h);
                    assert(seg_run(code, consts, a, b, h) == Some(h + 1));
                    lemma_seg_one(code, consts, b, h + 1, OpCode::OpPop, h);
                    lemma_seg_chain(code, consts, a, b, b + 1, h, h + 1);
                }
            }
        }
    }

    /// Compile declarations until the closing brace of a block.
    fn block(&mut self, vm: &mut VM)
        requires
            old(self).inv(),
            old(vm).wf(),
            locals_ready(*old(self)),
        ensures
            final(self).inv(),
            vm_frame(*old(vm), *final(vm)),
            final(self).parser.scanner.source@ == old(self).parser.scanner.source@,
            final(self).parser.scanner.current >= old(self).parser.scanner.current,
            parse_measure(final(self).parser) <= parse_measure(old(self).parser),
            old(self).parser.had_error ==> final(self).parser.had_error,
            final(self).scope_depth == old(self).scope_depth,
            locals_ready(*final(self)),
            chunk_extends(old(self).chunk, final(self).chunk),
            !final(self).parser.had_error ==> {
                &&& (forall|i: int|
                    0 <= i < old(self).locals@.len() ==> final(self).locals@[i] == old(self).locals@[i])
                &&& old(self).locals@.len() <= final(self).locals@.len()
                &&& (forall|i: int|
                    old(self).locals@.len() <= i < final(self).locals@.len() ==> (#[trigger] final(self).locals@[i].depth) == Some(old(self).scope_depth))
                &&& emits_statement(*old(self), *final(self))
            },
            emit_budget(*final(self)) <= emit_budget(*old(self)) + 0,
        decreases parse_measure(old(self).parser), 5int,
    {
        loop
            invariant
                self.inv(),
                vm.wf(),
                vm_frame(*old(vm), *vm),
                self.parser.scanner.source@ == old(self).parser.scanner.source@,
                self.parser.scanner.current >= old(self).parser.scanner.current,
                parse_measure(self.parser) <= parse_measure(old(self).parser),
                old(self).parser.had_error ==> self.parser.had_error,
                self.scope_depth == old(self).scope_depth,
                locals_ready(*self),
                chunk_extends(old(self).chunk, self.chunk),
                !self.parser.had_error ==> {
                    &&& (forall|i: int|
                        0 <= i < old(self).locals@.len() ==> self.locals@[i] == old(self).locals@[i])
                    &&& old(self).locals@.len() <= self.locals@.len()
                    &&& (forall|i: int|
                        old(self).locals@.len() <= i < self.locals@.len() ==> (#[trigger] self.locals@[i].depth) == Some(old(self).scope_depth))
                    &&& emits_statement(*old(self), *self)
                },
                emit_budget(*self) <= emit_budget(*old(self)),
            decreases parse_measure(self.parser),
        {
            if self.parser.check(TokenType::RightBrace) || self.parser.check(TokenType::Eof) {
                break ;
            }
            let ghost before = *self;
            self.declaration(vm);
            proof {
                if !self.parser.had_error {
                    let code = self.chunk.code@;
                    let consts = self.chunk.constants@;
                    let a = old(self).chunk.code@.len() as int;
                    let b = before.chunk.code@.len() as int;
                    let e = code.len() as int;
                    let base = old(self).locals@.len() as int;
                    let mid_len = before.locals@.len() as int;
                    let new_len = self.locals@.len() as int;
                    assert forall|h: int| h >= base implies #[trigger] seg_run(
                        code,
                        consts,
                        a,
                        e,
                        h,
                    ) == Some(h + new_len - base) by {
                        lemma_seg_extend(
                            before.chunk.code@,
                            before.chunk.constants@,
                            code,
                            consts,
                            a,
                            b,
                            h,
                        );
                        assert(seg_run(code, consts, a, b, h) == Some(h + mid_len - base));
                        assert(seg_run(code, consts, b, e, h + mid_len - base) == Some(
                            h + new_len - base,
                        ));
                        lemma_seg_chain(code, consts, a, b, e, h, h + mid_len - base);
                    }
                }
            }
        }
        proof {
            reveal_strlit("Expect '}' after block.");
        }
        self.parser.consume(TokenType::RightBrace, str_bytes("Expect '}' after block."));
    }

    /// Compile a statement: `print`, a block, or an expression
    /// statement.
    fn statement(&mut self, vm: &mut VM)
        requires
            old(self).inv(),
            old(vm).wf(),
            locals_ready(*old(self)),
        ensures
            old(self).parser.current.token_type != TokenType::Eof ==> emit_budget(*final(self))
                <= emit_budget(*old(self)),
            final(self).inv(),
            vm_frame(*old(vm), *final(vm)),
            final(self).parser.scanner.source@ == old(self).parser.scanner.source@,
            final(self).parser.scanner.current >= old(self).parser.scanner.current,
            parse_measure(final(self).parser) <= parse_measure(old(self).parser),
            old(self).parser.current.token_type != TokenType::Eof ==> parse_measure(
                final(self).parser,
            ) < parse_measure(old(self).parser),
            old(self).parser.had_error ==> final(self).parser.had_error,
            final(self).scope_depth == old(self).scope_depth,
            locals_ready(*final(self)),
            chunk_extends(old(self).chunk, final(self).chunk),
            !final(self).parser.had_error ==> final(self).locals@ == old(self).locals@
                && emits_statement(*old(self), *final(self)),
            emit_budget(*final(self)) <= emit_budget(*old(self)) + 1,
        decreases parse_measure(old(self).parser), 3int,
    {
        if self.parser.match_token(TokenType::Print) {
            self.print_statement(vm);
        } else if self.parser.match_token(TokenType::LeftBrace) {
            self.begin_scope();
            let ghost opened = *self;
            self.block(vm);
            let ghost closed = *self;
            self.end_scope();
            proof {
                if !self.parser.had_error {
                    let base = old(self).locals@.len() as int;
                    let grown = closed.locals@.len() as int;
                    // The block's locals sit above the entry locals at the
                    // inner depth; leaving the scope pops exactly them.
                    if self.locals@.len() > base {
                        assert(closed.locals@[self.locals@.len() - 1].depth == Some(
                            opened.scope_depth,
                        ));
                        assert(false);
                    }
                    if self.locals@.len() < base {
                        assert(closed.locals@[self.locals@.len() as int] == old(self).locals@[self.locals@.len() as int]);
                        assert(old(self).locals@[self.locals@.len() as int].depth->0 <= old(self).scope_depth);
                        assert(false);
                    }
                    assert(self.locals@ =~= old(self).locals@);
                    let code = self.chunk.code@;
                    let consts = self.chunk.constants@;
                    let a = old(self).chunk.code@.len() as int;
                    let b = closed.chunk.code@.len() as int;
                    let e = code.len() as int;
                    assert forall|h: int| h >= old(self).locals@.len() implies #[trigger] seg_run(
                        code,
                        consts,
                        a,
                        e,
                        h,
                    ) == Some(h) by {
                        lemma_seg_extend(
                            closed.chunk.code@,
                            closed.chunk.constants@,
                            code,
                            consts,
                            a,
                            b,
                            h,
                        );
                        assert(seg_run(code, consts, a, b, h) == Some(h + grown - base));
                        assert(seg_run(code, consts, b, e, h + grown - base) == Some(h));
                        lemma_seg_chain(code, consts, a, b, e, h, h + grown - base);
                    }
                }
            }
        } else {
            self.expression_statement(vm);
        }
    }

    /// After a parse error, skip tokens until a statement boundary, then
    /// leave panic mode.
    fn synchronize(&mut self)
        requires
            old(self).inv(),
        ensures
            final(self).inv(),
            final(self).parser.scanner.source@ == old(self).parser.scanner.source@,
            final(self).parser.scanner.current >= old(self).parser.scanner.current,
            parse_measure(final(self).parser) <= parse_measure(old(self).parser),
            old(self).parser.had_error ==> final(self).parser.had_error,
            final(self).scope_depth == old(self).scope_depth,
            final(self).chunk == old(self).chunk,
            final(self).locals == old(self).locals,
    {
        self.parser.panic_mode = false;
        loop
            invariant
                self.inv(),
                self.parser.scanner.source@ == old(self).parser.scanner.source@,
                self.parser.scanner.current >= old(self).parser.scanner.current,
                parse_measure(self.parser) <= parse_measure(old(self).parser),
                old(self).parser.had_error ==> self.parser.had_error,
                self.scope_depth == old(self).scope_depth,
                self.chunk == old(self).chunk,
                self.locals == old(self).locals,
            decreases parse_measure(self.parser),
        {
            if self.parser.check(TokenType::Eof) {
                break ;
            }
            if self.parser.previous.token_type == TokenType::Semicolon {
                break ;
            }
            let boundary = match self.parser.current.token_type {
                TokenType::Class => true,
                TokenType::Fun => true,
                TokenType::Var => true,
                TokenType::For => true,
                TokenType::If => true,
                TokenType::While => true,
                TokenType::Print => true,
                TokenType::Return => true,
                _ => false,
            };
            if boundary {
                break ;
            }
            self.parser.advance();
        }
    }

    /// Compile one declaration: a `var` declaration or a statement,
    /// synchronizing after a parse error.
    fn declaration(&mut self, vm: &mut VM)
        requires
            old(self).inv(),
            old(vm).wf(),
            locals_ready(*old(self)),
        ensures
            final(self).inv(),
            vm_frame(*old(vm), *final(vm)),
            final(self).parser.scanner.source@ == old(self).parser.scanner.source@,
            final(self).parser.scanner.current >= old(self).parser.scanner.current,
            parse_measure(final(self).parser) <= parse_measure(old(self).parser),
            old(self).parser.current.token_type != TokenType::Eof ==> parse_measure(
                final(self).parser,
            ) < parse_measure(old(self).parser),
            old(self).parser.had_error ==> final(self).parser.had_error,
            final(self).scope_depth == old(self).scope_depth,
            locals_ready(*final(self)),
            chunk_extends(old(self).chunk, final(self).chunk),
            !final(self).parser.had_error && old(self).scope_depth == 0 ==> final(self).locals@
                == old(self).locals@,
            !final(self).parser.had_error ==> {
                &&& (forall|i: int|
                    0 <= i < old(self).locals@.len() ==> final(self).locals@[i] == old(self).locals@[i])
                &&& old(self).locals@.len() <= final(self).locals@.len()
                &&& (forall|i: int|
                    old(self).locals@.len() <= i < final(self).locals@.len() ==> (#[trigger] final(self).locals@[i].depth) == Some(old(self).scope_depth))
                &&& emits_statement(*old(self), *final(self))
            },
            emit_budget(*final(self)) <= emit_budget(*old(self)) + 1,
            old(self).parser.current.token_type != TokenType::Eof ==> emit_budget(*final(self)) <= emit_budget(*old(self)),
        decreases parse_measure(old(self).parser), 4int,
    {
        if self.parser.match_token(TokenType::Var) {
            self.var_declaration(vm);
        } else {
            self.statement(vm);
        }
        if self.parser.panic_mode {
            self.synchronize();
        }
    }

    /// Finish the chunk with a return instruction.
    fn end_compiler(&mut self)
        requires
            old(self).inv(),
        ensures
            final(self).inv(),
            final(self).chunk.code@ == old(self).chunk.code@.push(
                spec_opcode_byte(OpCode::OpReturn),
            ),
            final(self).chunk.constants@ == old(self).chunk.constants@,
            chunk_extends(old(self).chunk, final(self).chunk),
            final(self).parser == old(self).parser,
    {
        self.emit_byte(OpCode::OpReturn);
    }
}

/// Compile a source text into a chunk, interning its strings in the VM.
/// On success the chunk is returned and there are no diagnostics; on a
/// compile error there is at least one diagnostic and no chunk.  A
/// returned chunk has its line map aligned with its code, at most 256
/// constants, ends with a return instruction, is no longer than eight
/// bytes per source byte plus one — so a caller can discharge the
/// machine bound of `interpret` from the source's length — and is well
/// formed: the machine can run it from an empty stack without ever
/// reading outside the code, the constant pool or the stack.  A source
/// that is nothing but whitespace and comments compiles, without
/// diagnostics, to exactly the return instruction.
pub fn compile(source: &[u8], vm: &mut VM) -> (r: (Option<Chunk>, Vec<Diagnostic>))
    requires
        source@.len() < usize::MAX,
        old(vm).wf(),
    ensures
        vm_frame(*old(vm), *final(vm)),
        (r.0 is Some) <==> (r.1@.len() == 0),
        r.0 matches Some(c) ==> c.wf() && c.constants@.len() <= 256 && c.code@.len() >= 1
            && c.code@[c.code@.len() - 1] == spec_opcode_byte(OpCode::OpReturn) && chunk_ok(
            c.code@,
            c.constants@,
            0,
            0,
        ) && c.code@.len() <= 8 * source@.len() + 1,
        spec_skip_ws(source@, 0, 1).0 == source@.len() ==> (r.0 matches Some(c) && c.code@
            == seq![spec_opcode_byte(OpCode::OpReturn)] && r.1@.len() == 0),
{
    let mut compiler = Compiler::new(source);
    compiler.parser.advance();
    loop
        invariant
            compiler.inv(),
            vm.wf(),
            vm_frame(*old(vm), *vm),
            locals_ready(compiler),
            compiler.scope_depth == 0,
            !compiler.parser.had_error ==> compiler.locals@.len() == 0 && seg_run(
                compiler.chunk.code@,
                compiler.chunk.constants@,
                0,
                compiler.chunk.code@.len() as int,
                0,
            ) == Some(0int),
            emit_budget(compiler) <= 8 * source@.len(),
            spec_skip_ws(source@, 0, 1).0 == source@.len() ==> compiler.parser.current.token_type
                == TokenType::Eof && !compiler.parser.had_error
                && compiler.parser.diagnostics@.len() == 0 && compiler.chunk.code@.len() == 0,
        decreases parse_measure(compiler.parser),
    {
        if compiler.parser.check(TokenType::Eof) {
            break ;
        }
        let ghost before = compiler;
        compiler.declaration(vm);
        proof {
            if !compiler.parser.had_error {
                let code = compiler.chunk.code@;
                let consts = compiler.chunk.constants@;
                let b = before.chunk.code@.len() as int;
                let e = code.len() as int;
                lemma_seg_extend(before.chunk.code@, before.chunk.constants@, code, consts, 0, b, 0);
                assert(seg_run(code, consts, 0, b, 0) == Some(0int));
                assert(seg_run(code, consts, b, e, 0) == Some(0int));
                lemma_seg_chain(code, consts, 0, b, e, 0, 0);
            }
        }
    }
    let ghost done = compiler;
    compiler.end_compiler();
    proof {
        if spec_skip_ws(source@, 0, 1).0 == source@.len() {
            assert(compiler.chunk.code@ =~= seq![spec_opcode_byte(OpCode::OpReturn)]);
        }
        if !compiler.parser.had_error {
            let code = compiler.chunk.code@;
            let consts = compiler.chunk.constants@;
            let b = done.chunk.code@.len() as int;
            lemma_seg_extend(done.chunk.code@, done.chunk.constants@, code, consts, 0, b, 0);
            assert(seg_run(code, consts, 0, b, 0) == Some(0int));
            lemma_seg_chunk_ok(code, consts, 0, 0);
        }
    }
    let Compiler { parser, chunk, locals: _, scope_depth: _ } = compiler;
    let Parser { diagnostics, had_error, .. } = parser;
    if had_error {
        (None, diagnostics)
    } else {
        (Some(chunk), diagnostics)
    }
}

} // verus!
