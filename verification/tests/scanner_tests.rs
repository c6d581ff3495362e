use rlox::scanner::{init_scanner, TokenType};

fn kinds(src: &str) -> Vec<TokenType> {
    let bytes = src.as_bytes();
    let mut scanner = init_scanner(bytes);
    let mut out = Vec::new();
    loop {
        let token = scanner.scan_token();
        let done = token.token_type == TokenType::Eof;
        out.push(token.token_type);
        if done {
            return out;
        }
    }
}

#[test]
fn punctuation_and_operators() {
    assert_eq!(
        kinds("(){},.-+;/* ! != = == > >= < <="),
        vec![
            TokenType::LeftParen,
            TokenType::RightParen,
            TokenType::LeftBrace,
            TokenType::RightBrace,
            TokenType::Comma,
            TokenType::Dot,
            TokenType::Minus,
            TokenType::Plus,
            TokenType::Semicolon,
            TokenType::Slash,
            TokenType::Star,
            TokenType::Bang,
            TokenType::BangEqual,
            TokenType::Equal,
            TokenType::EqualEqual,
            TokenType::Greater,
            TokenType::GreaterEqual,
            TokenType::Less,
            TokenType::LessEqual,
            TokenType::Eof,
        ]
    );
}

#[test]
fn keywords_and_identifiers() {
    assert_eq!(
        kinds("and class else false for fun if nil or print return super this true var while foo _x"),
        vec![
            TokenType::And,
            TokenType::Class,
            TokenType::Else,
            TokenType::False,
            TokenType::For,
            TokenType::Fun,
            TokenType::If,
            TokenType::Nil,
            TokenType::Or,
            TokenType::Print,
            TokenType::Return,
            TokenType::Super,
            TokenType::This,
            TokenType::True,
            TokenType::Var,
            TokenType::While,
            TokenType::Identifier,
            TokenType::Identifier,
            TokenType::Eof,
        ]
    );
    // Prefixes of keywords are plain identifiers.
    assert_eq!(
        kinds("an classy variable"),
        vec![
            TokenType::Identifier,
            TokenType::Identifier,
            TokenType::Identifier,
            TokenType::Eof
        ]
    );
}

#[test]
fn literals_and_lexemes() {
    let mut scanner = init_scanner(b"count 12.5 \"hi\"");
    let t1 = scanner.scan_token();
    assert_eq!(t1.token_type, TokenType::Identifier);
    assert_eq!(t1.lexeme.as_slice(), b"count");
    let t2 = scanner.scan_token();
    assert_eq!(t2.token_type, TokenType::Number);
    assert_eq!(t2.lexeme.as_slice(), b"12.5");
    let t3 = scanner.scan_token();
    assert_eq!(t3.token_type, TokenType::String);
    assert_eq!(t3.lexeme.as_slice(), b"\"hi\"");
    assert_eq!(scanner.scan_token().token_type, TokenType::Eof);
}

#[test]
fn a_number_does_not_eat_a_trailing_dot() {
    let mut scanner = init_scanner(b"1.foo");
    let t1 = scanner.scan_token();
    assert_eq!(t1.token_type, TokenType::Number);
    assert_eq!(t1.lexeme.as_slice(), b"1");
    assert_eq!(scanner.scan_token().token_type, TokenType::Dot);
    assert_eq!(scanner.scan_token().token_type, TokenType::Identifier);
}

#[test]
fn newlines_and_comments_advance_the_line() {
    let mut scanner = init_scanner(b"one\n// two\nthree \"a\nb\" four");
    let t1 = scanner.scan_token();
    assert_eq!(t1.line, 1);
    let t2 = scanner.scan_token();
    assert_eq!(t2.lexeme.as_slice(), b"three");
    assert_eq!(t2.line, 3);
    let t3 = scanner.scan_token();
    assert_eq!(t3.token_type, TokenType::String);
    assert_eq!(t3.line, 4);
    let t4 = scanner.scan_token();
    assert_eq!(t4.lexeme.as_slice(), b"four");
    assert_eq!(t4.line, 4);
}

#[test]
fn error_tokens_carry_their_message() {
    let mut scanner = init_scanner(b"@");
    let t = scanner.scan_token();
    assert_eq!(t.token_type, TokenType::Error);
    assert_eq!(t.lexeme.as_slice(), b"Unexpected character.");

    let mut scanner = init_scanner(b"\"open");
    let t = scanner.scan_token();
    assert_eq!(t.token_type, TokenType::Error);
    assert_eq!(t.lexeme.as_slice(), b"Unterminated string.");
}

#[test]
fn eof_repeats() {
    let mut scanner = init_scanner(b"");
    assert_eq!(scanner.scan_token().token_type, TokenType::Eof);
    assert_eq!(scanner.scan_token().token_type, TokenType::Eof);
}
