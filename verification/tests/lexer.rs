use ferric::decimal::Decimal;
use ferric::lexer::{Lexeme, Lexer, LexerError, Token, TokenKind};
use ferric::loc::{Loc, ProgramSrc, Span};

use Token as T;

fn collect_tokens(src: &str) -> Vec<Token> {
    let src = ProgramSrc::new(src.to_string());
    Lexer::new(src.stream()).lex_all().into_iter().map(|lx| lx.unwrap().t).collect()
}

fn lex_bytes(bytes: &[u8]) -> Vec<Result<Lexeme, LexerError>> {
    Lexer::new(bytes.to_vec()).lex_all()
}

fn number(int: &str, frac: &str) -> Token {
    T::NumLit(Decimal::new(int.as_bytes().to_vec(), frac.as_bytes().to_vec()))
}

fn span(l1: usize, c1: usize, l2: usize, c2: usize) -> Span {
    Span::new(Loc::new(l1, c1), Loc::new(l2, c2))
}

#[test]
fn one_byte() {
    assert_eq!(
        collect_tokens("(){};,+-*/%"),
        vec![
            T::OpenParen,
            T::CloseParen,
            T::OpenBracket,
            T::CloseBracket,
            T::Semi,
            T::Comma,
            T::Plus,
            T::Minus,
            T::Star,
            T::Slash,
            T::Percent
        ]
    );
}

#[test]
fn two_byte() {
    assert_eq!(
        collect_tokens("=== = == = <<=< >>=>  !=!"),
        vec![
            T::EqEq,
            T::Eq,
            T::Eq,
            T::EqEq,
            T::Eq,
            T::Less,
            T::LessEq,
            T::Less,
            T::Greater,
            T::GreaterEq,
            T::Greater,
            T::BangEq,
            T::Bang,
        ]
    );
}

#[test]
fn number_lit() {
    assert_eq!(collect_tokens("1"), vec![number("1", "")]);
    assert_eq!(collect_tokens("1.0"), vec![number("1", "")]);
    assert_eq!(collect_tokens("001.000"), vec![number("1", "")]);
    assert_eq!(collect_tokens("0.1"), vec![number("", "1")]);
    assert_eq!(collect_tokens("1234567890"), vec![number("1234567890", "")]);
}

#[test]
fn ident() {
    assert_eq!(collect_tokens("hello"), vec![T::Ident("hello".into())]);
    assert_eq!(collect_tokens("and"), vec![T::LAnd]);
}

#[test]
fn string_lit() {
    assert_eq!(collect_tokens("\"string lit\""), vec![T::StringLit("string lit".into())]);
    assert_eq!(collect_tokens("\"string\\n\\tlit\""), vec![T::StringLit("string\n\tlit".into())]);
}

#[test]
fn keywords_and_types() {
    assert_eq!(
        collect_tokens("let if otherwise while for fn or true false null number string bool any ~ : !"),
        vec![
            T::Let,
            T::If,
            T::Otherwise,
            T::While,
            T::For,
            T::Fn,
            T::LOr,
            T::True,
            T::False,
            T::Null,
            T::Number,
            T::String,
            T::Bool,
            T::Any,
            T::Tilde,
            T::Colon,
            T::Bang,
        ]
    );
    assert_eq!(collect_tokens("lets _x1 x_y"), vec![
        T::Ident("lets".into()),
        T::Ident("_x1".into()),
        T::Ident("x_y".into()),
    ]);
}

#[test]
fn lexeme_spans() {
    let lexemes = lex_bytes(b"let x\n  == 1.5;");
    let spans: Vec<Span> = lexemes.iter().map(|r| r.as_ref().unwrap().span).collect();
    assert_eq!(
        spans,
        vec![span(1, 1, 1, 3), span(1, 5, 1, 5), span(2, 3, 2, 4), span(2, 6, 2, 8), span(2, 9, 2, 9)]
    );
}

#[test]
fn empty_and_blank_input() {
    assert!(lex_bytes(b"").is_empty());
    assert!(lex_bytes(b" \t\r\n\n ").is_empty());
    let mut lexer = Lexer::new(b"  ".to_vec());
    assert!(lexer.next_lexeme().is_none());
}

#[test]
fn number_errors() {
    let r = lex_bytes(b"1.");
    assert!(matches!(r[0], Err(LexerError::NumLitTrailingDecimal(s)) if s == span(1, 1, 1, 2)));
    let r = lex_bytes(b"1.2.3");
    assert!(matches!(r[0], Err(LexerError::NumLitMultipleDecimals(s)) if s == span(1, 1, 1, 5)));
    let r = lex_bytes(b".5");
    assert!(matches!(r[0], Err(LexerError::InvalidByte(l, 46)) if l == Loc::new(1, 1)));
    assert_eq!(r[1].as_ref().unwrap().t, number("5", ""));
}

#[test]
fn string_errors() {
    let r = lex_bytes(b"\"abc");
    assert_eq!(r.len(), 1);
    assert!(matches!(r[0], Err(LexerError::UnterminatedStrLit(s)) if s == span(1, 1, 1, 4)));
    let r = lex_bytes(b"\"a\\q\"");
    assert!(matches!(r[0], Err(LexerError::InvalidEscapeSequence(s, b'q')) if s == span(1, 3, 1, 4)));
    let r = lex_bytes(b"\"a\\");
    assert!(matches!(r[0], Err(LexerError::InvalidEscapeSequence(s, b' ')) if s == span(1, 3, 1, 3)));
    let r = lex_bytes(&[34, 0xff, 34]);
    assert!(matches!(r[0], Err(LexerError::StrLitInvalidUtf8(s, _)) if s == span(1, 1, 1, 3)));
    let r = lex_bytes("\"h\u{e9}llo \\\"you\\\"\\\\\"".as_bytes());
    assert_eq!(r[0].as_ref().unwrap().t, T::StringLit("h\u{e9}llo \"you\"\\".into()));
}

#[test]
fn invalid_bytes() {
    let r = lex_bytes(b"a # b");
    assert_eq!(r.len(), 3);
    assert_eq!(r[0].as_ref().unwrap().t, T::Ident("a".into()));
    assert!(matches!(r[1], Err(LexerError::InvalidByte(l, b'#')) if l == Loc::new(1, 3)));
    assert_eq!(r[2].as_ref().unwrap().t, T::Ident("b".into()));
}

#[test]
fn token_kinds_and_text() {
    assert_eq!(T::Plus.kind(), TokenKind::Plus);
    assert_eq!(T::Ident("q".into()).kind(), TokenKind::Ident);
    assert_eq!(number("3", "").kind(), TokenKind::NumLit);
    assert_eq!(Token::of_kind(TokenKind::While), T::While);
    assert_eq!(TokenKind::OpenBracket.text(), "{");
    assert_eq!(TokenKind::GreaterEq.text(), ">=");
    assert_eq!(TokenKind::Otherwise.text(), "otherwise");
    assert_eq!(TokenKind::LAnd.text(), "and");
}
