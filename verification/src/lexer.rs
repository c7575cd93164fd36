//! The lexer: turns the bytes of a program into tokens, each with the span of
//! source it came from.

use vstd::prelude::*;
use vstd::utf8::{valid_utf8, decode_utf8, decode_utf8_encode_utf8};
use vstd::string::StringSliceAdditionalSpecFns;
use std::string::FromUtf8Error;
use crate::loc::{Loc, Span};
use crate::decimal::{Decimal, DecimalV, canonical, is_digit, all_digits};

verus! {

/// std's `FromUtf8Error`, which the UTF-8 errors of the lexer carry; opaque here.
#[verifier::external_type_specification]
#[verifier::external_body]
pub struct ExFromUtf8Error(FromUtf8Error);

/// Decodes `v` as UTF-8 with `String::from_utf8`. Claimed, as std documents it:
/// the string that `v` encodes when `v` is valid UTF-8, an error otherwise. What
/// the error holds (the bytes and where decoding failed) is not stated.
#[verifier::external_body]
fn string_from_utf8(v: Vec<u8>) -> (r: Result<String, FromUtf8Error>)
    ensures
        match r {
            Ok(s) => valid_utf8(v@) && s@ == decode_utf8(v@),
            Err(_) => !valid_utf8(v@),
        },
{
    String::from_utf8(v)
}

/// A token of the language.
#[derive(Debug, Clone, PartialEq)]
pub enum Token {
    Let, // let
    If, // if
    Otherwise, // otherwise
    While, // while
    For, // for
    Fn, // fn
    OpenParen, // (
    CloseParen, // )
    OpenBracket, // {
    CloseBracket, // }
    Semi, // ;
    Comma, // ,
    Eq, // =
    EqEq, // ==
    BangEq, // !=
    Plus, // +
    Minus, // -
    Tilde, // ~
    Star, // *
    Slash, // /
    Percent, // %
    Greater, // >
    GreaterEq, // >=
    Less, // <
    LessEq, // <=
    LAnd, // and
    LOr, // or
    Bang, // !
    Colon, // :
    True, // true
    False, // false
    Null, // null
    Number, // number
    String, // string
    Bool, // bool
    Any, // any
    StringLit(String),
    NumLit(Decimal),
    Ident(String),
}

/// What kind of token a token is, without its contents.
#[derive(Debug, Clone, Copy, PartialEq, Eq, Structural)]
pub enum TokenKind {
    Let,
    If,
    Otherwise,
    While,
    For,
    Fn,
    OpenParen,
    CloseParen,
    OpenBracket,
    CloseBracket,
    Semi,
    Comma,
    Eq,
    EqEq,
    BangEq,
    Plus,
    Minus,
    Tilde,
    Star,
    Slash,
    Percent,
    Greater,
    GreaterEq,
    Less,
    LessEq,
    LAnd,
    LOr,
    Bang,
    Colon,
    True,
    False,
    Null,
    Number,
    String,
    Bool,
    Any,
    StringLit,
    NumLit,
    Ident,
}

impl Token {
    /// The kind of this token.
    pub open spec fn spec_kind(&self) -> TokenKind {
        match self {
            Token::Let => TokenKind::Let,
            Token::If => TokenKind::If,
            Token::Otherwise => TokenKind::Otherwise,
            Token::While => TokenKind::While,
            Token::For => TokenKind::For,
            Token::Fn => TokenKind::Fn,
            Token::OpenParen => TokenKind::OpenParen,
            Token::CloseParen => TokenKind::CloseParen,
            Token::OpenBracket => TokenKind::OpenBracket,
            Token::CloseBracket => TokenKind::CloseBracket,
            Token::Semi => TokenKind::Semi,
            Token::Comma => TokenKind::Comma,
            Token::Eq => TokenKind::Eq,
            Token::EqEq => TokenKind::EqEq,
            Token::BangEq => TokenKind::BangEq,
            Token::Plus => TokenKind::Plus,
            Token::Minus => TokenKind::Minus,
            Token::Tilde => TokenKind::Tilde,
            Token::Star => TokenKind::Star,
            Token::Slash => TokenKind::Slash,
            Token::Percent => TokenKind::Percent,
            Token::Greater => TokenKind::Greater,
            Token::GreaterEq => TokenKind::GreaterEq,
            Token::Less => TokenKind::Less,
            Token::LessEq => TokenKind::LessEq,
            Token::LAnd => TokenKind::LAnd,
            Token::LOr => TokenKind::LOr,
            Token::Bang => TokenKind::Bang,
            Token::Colon => TokenKind::Colon,
            Token::True => TokenKind::True,
            Token::False => TokenKind::False,
            Token::Null => TokenKind::Null,
            Token::Number => TokenKind::Number,
            Token::String => TokenKind::String,
            Token::Bool => TokenKind::Bool,
            Token::Any => TokenKind::Any,
            Token::StringLit(_) => TokenKind::StringLit,
            Token::NumLit(_) => TokenKind::NumLit,
            Token::Ident(_) => TokenKind::Ident,
        }
    }

    /// The kind of this token.
    #[verifier::when_used_as_spec(spec_kind)]
    pub fn kind(&self) -> (r: TokenKind)
        ensures
            r == self.spec_kind(),
    {
        match self {
            Token::Let => TokenKind::Let,
            Token::If => TokenKind::If,
            Token::Otherwise => TokenKind::Otherwise,
            Token::While => TokenKind::While,
            Token::For => TokenKind::For,
            Token::Fn => TokenKind::Fn,
            Token::OpenParen => TokenKind::OpenParen,
            Token::CloseParen => TokenKind::CloseParen,
            Token::OpenBracket => TokenKind::OpenBracket,
            Token::CloseBracket => TokenKind::CloseBracket,
            Token::Semi => TokenKind::Semi,
            Token::Comma => TokenKind::Comma,
            Token::Eq => TokenKind::Eq,
            Token::EqEq => TokenKind::EqEq,
            Token::BangEq => TokenKind::BangEq,
            Token::Plus => TokenKind::Plus,
            Token::Minus => TokenKind::Minus,
            Token::Tilde => TokenKind::Tilde,
            Token::Star => TokenKind::Star,
            Token::Slash => TokenKind::Slash,
            Token::Percent => TokenKind::Percent,
            Token::Greater => TokenKind::Greater,
            Token::GreaterEq => TokenKind::GreaterEq,
            Token::Less => TokenKind::Less,
            Token::LessEq => TokenKind::LessEq,
            Token::LAnd => TokenKind::LAnd,
            Token::LOr => TokenKind::LOr,
            Token::Bang => TokenKind::Bang,
            Token::Colon => TokenKind::Colon,
            Token::True => TokenKind::True,
            Token::False => TokenKind::False,
            Token::Null => TokenKind::Null,
            Token::Number => TokenKind::Number,
            Token::String => TokenKind::String,
            Token::Bool => TokenKind::Bool,
            Token::Any => TokenKind::Any,
            Token::StringLit(_) => TokenKind::StringLit,
            Token::NumLit(_) => TokenKind::NumLit,
            Token::Ident(_) => TokenKind::Ident,
        }
    }

    /// The token of a kind that carries no contents.
    pub open spec fn spec_of_kind(k: TokenKind) -> Token
        recommends
            k.is_plain(),
    {
        match k {
            TokenKind::Let => Token::Let,
            TokenKind::If => Token::If,
            TokenKind::Otherwise => Token::Otherwise,
            TokenKind::While => Token::While,
            TokenKind::For => Token::For,
            TokenKind::Fn => Token::Fn,
            TokenKind::OpenParen => Token::OpenParen,
            TokenKind::CloseParen => Token::CloseParen,
            TokenKind::OpenBracket => Token::OpenBracket,
            TokenKind::CloseBracket => Token::CloseBracket,
            TokenKind::Semi => Token::Semi,
            TokenKind::Comma => Token::Comma,
            TokenKind::Eq => Token::Eq,
            TokenKind::EqEq => Token::EqEq,
            TokenKind::BangEq => Token::BangEq,
            TokenKind::Plus => Token::Plus,
            TokenKind::Minus => Token::Minus,
            TokenKind::Tilde => Token::Tilde,
            TokenKind::Star => Token::Star,
            TokenKind::Slash => Token::Slash,
            TokenKind::Percent => Token::Percent,
            TokenKind::Greater => Token::Greater,
            TokenKind::GreaterEq => Token::GreaterEq,
            TokenKind::Less => Token::Less,
            TokenKind::LessEq => Token::LessEq,
            TokenKind::LAnd => Token::LAnd,
            TokenKind::LOr => Token::LOr,
            TokenKind::Bang => Token::Bang,
            TokenKind::Colon => Token::Colon,
            TokenKind::True => Token::True,
            TokenKind::False => Token::False,
            TokenKind::Null => Token::Null,
            TokenKind::Number => Token::Number,
            TokenKind::String => Token::String,
            TokenKind::Bool => Token::Bool,
            TokenKind::Any => Token::Any,
            _ => Token::Null,
        }
    }

    /// The token of a kind that carries no contents.
    pub fn of_kind(k: TokenKind) -> (r: Token)
        requires
            k.is_plain(),
        ensures
            r == Token::spec_of_kind(k),
            r.spec_kind() == k,
    {
        match k {
            TokenKind::Let => Token::Let,
            TokenKind::If => Token::If,
            TokenKind::Otherwise => Token::Otherwise,
            TokenKind::While => Token::While,
            TokenKind::For => Token::For,
            TokenKind::Fn => Token::Fn,
            TokenKind::OpenParen => Token::OpenParen,
            TokenKind::CloseParen => Token::CloseParen,
            TokenKind::OpenBracket => Token::OpenBracket,
            TokenKind::CloseBracket => Token::CloseBracket,
            TokenKind::Semi => Token::Semi,
            TokenKind::Comma => Token::Comma,
            TokenKind::Eq => Token::Eq,
            TokenKind::EqEq => Token::EqEq,
            TokenKind::BangEq => Token::BangEq,
            TokenKind::Plus => Token::Plus,
            TokenKind::Minus => Token::Minus,
            TokenKind::Tilde => Token::Tilde,
            TokenKind::Star => Token::Star,
            TokenKind::Slash => Token::Slash,
            TokenKind::Percent => Token::Percent,
            TokenKind::Greater => Token::Greater,
            TokenKind::GreaterEq => Token::GreaterEq,
            TokenKind::Less => Token::Less,
            TokenKind::LessEq => Token::LessEq,
            TokenKind::LAnd => Token::LAnd,
            TokenKind::LOr => Token::LOr,
            TokenKind::Bang => Token::Bang,
            TokenKind::Colon => Token::Colon,
            TokenKind::True => Token::True,
            TokenKind::False => Token::False,
            TokenKind::Null => Token::Null,
            TokenKind::Number => Token::Number,
            TokenKind::String => Token::String,
            TokenKind::Bool => Token::Bool,
            TokenKind::Any => Token::Any,
            _ => Token::Null,
        }
    }
}

/// How a token of kind `k` is written, for the kinds without contents.
pub open spec fn kind_text(k: TokenKind) -> Seq<char> {
    match k {
        TokenKind::Let => "let"@,
        TokenKind::If => "if"@,
        TokenKind::Otherwise => "otherwise"@,
        TokenKind::While => "while"@,
        TokenKind::For => "for"@,
        TokenKind::Fn => "fn"@,
        TokenKind::OpenParen => "("@,
        TokenKind::CloseParen => ")"@,
        TokenKind::OpenBracket => "{"@,
        TokenKind::CloseBracket => "}"@,
        TokenKind::Semi => ";"@,
        TokenKind::Comma => ","@,
        TokenKind::Eq => "="@,
        TokenKind::EqEq => "=="@,
        TokenKind::BangEq => "!="@,
        TokenKind::Plus => "+"@,
        TokenKind::Minus => "-"@,
        TokenKind::Tilde => "~"@,
        TokenKind::Star => "*"@,
        TokenKind::Slash => "/"@,
        TokenKind::Percent => "%"@,
        TokenKind::Greater => ">"@,
        TokenKind::GreaterEq => ">="@,
        TokenKind::Less => "<"@,
        TokenKind::LessEq => "<="@,
        TokenKind::LAnd => "and"@,
        TokenKind::LOr => "or"@,
        TokenKind::Bang => "!"@,
        TokenKind::Colon => ":"@,
        TokenKind::True => "true"@,
        TokenKind::False => "false"@,
        TokenKind::Null => "null"@,
        TokenKind::Number => "number"@,
        TokenKind::String => "string"@,
        TokenKind::Bool => "bool"@,
        TokenKind::Any => "any"@,
        _ => seq![],
    }
}

impl TokenKind {
    /// Tokens of this kind carry no contents.
    pub open spec fn is_plain(self) -> bool {
        !(self is StringLit || self is NumLit || self is Ident)
    }

    /// How a token of this kind is written; see [`kind_text`].
    pub fn text(&self) -> (r: &'static str)
        requires
            self.is_plain(),
        ensures
            r@ == kind_text(*self),
    {
        match self {
            TokenKind::Let => "let",
            TokenKind::If => "if",
            TokenKind::Otherwise => "otherwise",
            TokenKind::While => "while",
            TokenKind::For => "for",
            TokenKind::Fn => "fn",
            TokenKind::OpenParen => "(",
            TokenKind::CloseParen => ")",
            TokenKind::OpenBracket => "{",
            TokenKind::CloseBracket => "}",
            TokenKind::Semi => ";",
            TokenKind::Comma => ",",
            TokenKind::Eq => "=",
            TokenKind::EqEq => "==",
            TokenKind::BangEq => "!=",
            TokenKind::Plus => "+",
            TokenKind::Minus => "-",
            TokenKind::Tilde => "~",
            TokenKind::Star => "*",
            TokenKind::Slash => "/",
            TokenKind::Percent => "%",
            TokenKind::Greater => ">",
            TokenKind::GreaterEq => ">=",
            TokenKind::Less => "<",
            TokenKind::LessEq => "<=",
            TokenKind::LAnd => "and",
            TokenKind::LOr => "or",
            TokenKind::Bang => "!",
            TokenKind::Colon => ":",
            TokenKind::True => "true",
            TokenKind::False => "false",
            TokenKind::Null => "null",
            TokenKind::Number => "number",
            TokenKind::String => "string",
            TokenKind::Bool => "bool",
            TokenKind::Any => "any",
            _ => "",
        }
    }
}


/// A token as a value: its kind, or its contents for the kinds that have them.
pub enum TokenV {
    Plain(TokenKind),
    StringLit(Seq<char>),
    NumLit(DecimalV),
    Ident(Seq<char>),
}

impl View for Token {
    type V = TokenV;

    open spec fn view(&self) -> TokenV {
        match self {
            Token::StringLit(s) => TokenV::StringLit(s@),
            Token::NumLit(d) => TokenV::NumLit(d@),
            Token::Ident(s) => TokenV::Ident(s@),
            _ => TokenV::Plain(self.spec_kind()),
        }
    }
}

impl TokenV {
    /// The kind of the token.
    pub open spec fn kind(self) -> TokenKind {
        match self {
            TokenV::Plain(k) => k,
            TokenV::StringLit(_) => TokenKind::StringLit,
            TokenV::NumLit(_) => TokenKind::NumLit,
            TokenV::Ident(_) => TokenKind::Ident,
        }
    }
}

/// A token with the span of source it was read from.
#[derive(Debug, Clone, PartialEq)]
pub struct Lexeme {
    pub t: Token,
    pub span: Span,
}

/// A lexeme as a value.
pub struct LexemeV {
    pub t: TokenV,
    pub span: Span,
}

impl View for Lexeme {
    type V = LexemeV;

    open spec fn view(&self) -> LexemeV {
        LexemeV { t: self.t@, span: self.span }
    }
}

impl Lexeme {
    pub fn new(t: Token, span: Span) -> (r: Self)
        ensures
            r.t == t,
            r.span == span,
    {
        Self { t, span }
    }
}

/// What went wrong while reading a token.
#[derive(Debug)]
pub enum LexerError {
    NumLitLeadingDecimal(Span),
    NumLitTrailingDecimal(Span),
    NumLitMultipleDecimals(Span),
    InvalidByte(Loc, u8),
    StrLitInvalidUtf8(Span, FromUtf8Error),
    IdentInvalidUtf8(Span, FromUtf8Error),
    InvalidEscapeSequence(Span, u8),
    UnterminatedStrLit(Span),
}

/// A lexer error as a value (the decoding error that the UTF-8 variants carry is left out).
pub enum LexErrV {
    NumLitLeadingDecimal(Span),
    NumLitTrailingDecimal(Span),
    NumLitMultipleDecimals(Span),
    InvalidByte(Loc, u8),
    StrLitInvalidUtf8(Span),
    IdentInvalidUtf8(Span),
    InvalidEscapeSequence(Span, u8),
    UnterminatedStrLit(Span),
}

impl View for LexerError {
    type V = LexErrV;

    open spec fn view(&self) -> LexErrV {
        match self {
            LexerError::NumLitLeadingDecimal(s) => LexErrV::NumLitLeadingDecimal(*s),
            LexerError::NumLitTrailingDecimal(s) => LexErrV::NumLitTrailingDecimal(*s),
            LexerError::NumLitMultipleDecimals(s) => LexErrV::NumLitMultipleDecimals(*s),
            LexerError::InvalidByte(l, b) => LexErrV::InvalidByte(*l, *b),
            LexerError::StrLitInvalidUtf8(s, _) => LexErrV::StrLitInvalidUtf8(*s),
            LexerError::IdentInvalidUtf8(s, _) => LexErrV::IdentInvalidUtf8(*s),
            LexerError::InvalidEscapeSequence(s, b) => LexErrV::InvalidEscapeSequence(*s, *b),
            LexerError::UnterminatedStrLit(s) => LexErrV::UnterminatedStrLit(*s),
        }
    }
}

/// One result of the lexer, as a value.
pub type LexResV = Result<LexemeV, LexErrV>;

/// The value of one result of the lexer.
pub open spec fn res_view(r: Result<Lexeme, LexerError>) -> LexResV {
    match r {
        Ok(l) => Ok(l@),
        Err(e) => Err(e@),
    }
}

/// A token of a kind without contents, spanning `span`.
pub open spec fn plain(k: TokenKind, span: Span) -> LexemeV {
    LexemeV { t: TokenV::Plain(k), span }
}

/// The keyword spelled by `s`, if any.
pub open spec fn keyword_kind(s: Seq<u8>) -> Option<TokenKind> {
    if s =~= seq![108u8, 101u8, 116u8] {
        Some(TokenKind::Let)
    } else if s =~= seq![105u8, 102u8] {
        Some(TokenKind::If)
    } else if s =~= seq![111u8, 116u8, 104u8, 101u8, 114u8, 119u8, 105u8, 115u8, 101u8] {
        Some(TokenKind::Otherwise)
    } else if s =~= seq![119u8, 104u8, 105u8, 108u8, 101u8] {
        Some(TokenKind::While)
    } else if s =~= seq![102u8, 111u8, 114u8] {
        Some(TokenKind::For)
    } else if s =~= seq![102u8, 110u8] {
        Some(TokenKind::Fn)
    } else if s =~= seq![97u8, 110u8, 100u8] {
        Some(TokenKind::LAnd)
    } else if s =~= seq![111u8, 114u8] {
        Some(TokenKind::LOr)
    } else if s =~= seq![116u8, 114u8, 117u8, 101u8] {
        Some(TokenKind::True)
    } else if s =~= seq![102u8, 97u8, 108u8, 115u8, 101u8] {
        Some(TokenKind::False)
    } else if s =~= seq![110u8, 117u8, 108u8, 108u8] {
        Some(TokenKind::Null)
    } else if s =~= seq![110u8, 117u8, 109u8, 98u8, 101u8, 114u8] {
        Some(TokenKind::Number)
    } else if s =~= seq![115u8, 116u8, 114u8, 105u8, 110u8, 103u8] {
        Some(TokenKind::String)
    } else if s =~= seq![98u8, 111u8, 111u8, 108u8] {
        Some(TokenKind::Bool)
    } else if s =~= seq![97u8, 110u8, 121u8] {
        Some(TokenKind::Any)
    } else {
        None
    }
}

/// The keyword spelled by `s`, if any.
fn keyword(s: &[u8]) -> (r: Option<TokenKind>)
    ensures
        r == keyword_kind(s@),
{
    if s.len() == 3 && s[0] == 108u8 && s[1] == 101u8 && s[2] == 116u8 {
        assert(s@ =~= seq![108u8, 101u8, 116u8]);
        return Some(TokenKind::Let);
    }
    if s.len() == 2 && s[0] == 105u8 && s[1] == 102u8 {
        assert(s@ =~= seq![105u8, 102u8]);
        return Some(TokenKind::If);
    }
    if s.len() == 9 && s[0] == 111u8 && s[1] == 116u8 && s[2] == 104u8 && s[3] == 101u8 && s[4] == 114u8 && s[5] == 119u8 && s[6] == 105u8 && s[7] == 115u8 && s[8] == 101u8 {
        assert(s@ =~= seq![111u8, 116u8, 104u8, 101u8, 114u8, 119u8, 105u8, 115u8, 101u8]);
        return Some(TokenKind::Otherwise);
    }
    if s.len() == 5 && s[0] == 119u8 && s[1] == 104u8 && s[2] == 105u8 && s[3] == 108u8 && s[4] == 101u8 {
        assert(s@ =~= seq![119u8, 104u8, 105u8, 108u8, 101u8]);
        return Some(TokenKind::While);
    }
    if s.len() == 3 && s[0] == 102u8 && s[1] == 111u8 && s[2] == 114u8 {
        assert(s@ =~= seq![102u8, 111u8, 114u8]);
        return Some(TokenKind::For);
    }
    if s.len() == 2 && s[0] == 102u8 && s[1] == 110u8 {
        assert(s@ =~= seq![102u8, 110u8]);
        return Some(TokenKind::Fn);
    }
    if s.len() == 3 && s[0] == 97u8 && s[1] == 110u8 && s[2] == 100u8 {
        assert(s@ =~= seq![97u8, 110u8, 100u8]);
        return Some(TokenKind::LAnd);
    }
    if s.len() == 2 && s[0] == 111u8 && s[1] == 114u8 {
        assert(s@ =~= seq![111u8, 114u8]);
        return Some(TokenKind::LOr);
    }
    if s.len() == 4 && s[0] == 116u8 && s[1] == 114u8 && s[2] == 117u8 && s[3] == 101u8 {
        assert(s@ =~= seq![116u8, 114u8, 117u8, 101u8]);
        return Some(TokenKind::True);
    }
    if s.len() == 5 && s[0] == 102u8 && s[1] == 97u8 && s[2] == 108u8 && s[3] == 115u8 && s[4] == 101u8 {
        assert(s@ =~= seq![102u8, 97u8, 108u8, 115u8, 101u8]);
        return Some(TokenKind::False);
    }
    if s.len() == 4 && s[0] == 110u8 && s[1] == 117u8 && s[2] == 108u8 && s[3] == 108u8 {
        assert(s@ =~= seq![110u8, 117u8, 108u8, 108u8]);
        return Some(TokenKind::Null);
    }
    if s.len() == 6 && s[0] == 110u8 && s[1] == 117u8 && s[2] == 109u8 && s[3] == 98u8 && s[4] == 101u8 && s[5] == 114u8 {
        assert(s@ =~= seq![110u8, 117u8, 109u8, 98u8, 101u8, 114u8]);
        return Some(TokenKind::Number);
    }
    if s.len() == 6 && s[0] == 115u8 && s[1] == 116u8 && s[2] == 114u8 && s[3] == 105u8 && s[4] == 110u8 && s[5] == 103u8 {
        assert(s@ =~= seq![115u8, 116u8, 114u8, 105u8, 110u8, 103u8]);
        return Some(TokenKind::String);
    }
    if s.len() == 4 && s[0] == 98u8 && s[1] == 111u8 && s[2] == 111u8 && s[3] == 108u8 {
        assert(s@ =~= seq![98u8, 111u8, 111u8, 108u8]);
        return Some(TokenKind::Bool);
    }
    if s.len() == 3 && s[0] == 97u8 && s[1] == 110u8 && s[2] == 121u8 {
        assert(s@ =~= seq![97u8, 110u8, 121u8]);
        return Some(TokenKind::Any);
    }
    None
}

/// Where the lexer stands: the offset of the next byte, and that byte's line and column.
pub struct LexState {
    pub pos: nat,
    pub line: nat,
    pub col: nat,
}

/// Whether `c` is ASCII whitespace (space, tab, line feed, form feed, carriage return).
pub open spec fn is_ws(c: u8) -> bool {
    c == 32 || c == 9 || c == 10 || c == 12 || c == 13
}

/// Whether `c` is an ASCII letter.
pub open spec fn is_alpha(c: u8) -> bool {
    (65 <= c <= 90) || (97 <= c <= 122)
}

/// Whether `c` may continue an identifier (letter, digit or underscore) when
/// `ident` holds, or a number literal (digit or point) otherwise.
pub open spec fn continues(c: u8, ident: bool) -> bool {
    if ident {
        is_alpha(c) || is_digit(c) || c == 95
    } else {
        is_digit(c) || c == 46
    }
}

/// The position of the next byte.
pub open spec fn here(st: LexState) -> Loc {
    Loc::mk(st.line, st.col)
}

/// The state after reading the next byte: a newline moves to column one of the
/// next line, anything else one column on.
pub open spec fn step(b: Seq<u8>, st: LexState) -> LexState {
    if b[st.pos as int] == 10u8 {
        LexState { pos: st.pos + 1, line: st.line + 1, col: 1 }
    } else {
        LexState { pos: st.pos + 1, line: st.line, col: st.col + 1 }
    }
}

/// The state after skipping whitespace.
pub open spec fn skip_ws(b: Seq<u8>, st: LexState) -> LexState
    decreases b.len() - st.pos,
{
    if st.pos < b.len() && is_ws(b[st.pos as int]) {
        skip_ws(b, step(b, st))
    } else {
        st
    }
}

/// The end of the run of bytes from `pos` on that continue an identifier
/// (`ident`) or a number literal.
pub open spec fn scan(b: Seq<u8>, pos: nat, ident: bool) -> nat
    decreases b.len() - pos,
{
    if pos < b.len() && continues(b[pos as int], ident) {
        scan(b, pos + 1, ident)
    } else {
        pos
    }
}

/// The kind of a one-byte token.
pub open spec fn single_kind(c: u8) -> Option<TokenKind> {
    if c == 40 { Some(TokenKind::OpenParen) }
    else if c == 41 { Some(TokenKind::CloseParen) }
    else if c == 123 { Some(TokenKind::OpenBracket) }
    else if c == 125 { Some(TokenKind::CloseBracket) }
    else if c == 59 { Some(TokenKind::Semi) }
    else if c == 44 { Some(TokenKind::Comma) }
    else if c == 43 { Some(TokenKind::Plus) }
    else if c == 45 { Some(TokenKind::Minus) }
    else if c == 42 { Some(TokenKind::Star) }
    else if c == 47 { Some(TokenKind::Slash) }
    else if c == 37 { Some(TokenKind::Percent) }
    else if c == 126 { Some(TokenKind::Tilde) }
    else if c == 58 { Some(TokenKind::Colon) }
    else { None }
}

/// Whether `c` starts a token that may take a second byte `=`.
pub open spec fn is_multi_start(c: u8) -> bool {
    c == 61 || c == 33 || c == 60 || c == 62
}

/// The token that `c` makes alone (`=`, `!`, `<`, `>`), or with a following `=`.
pub open spec fn multi_kind(c: u8, with_eq: bool) -> TokenKind {
    if c == 61 {
        if with_eq { TokenKind::EqEq } else { TokenKind::Eq }
    } else if c == 60 {
        if with_eq { TokenKind::LessEq } else { TokenKind::Less }
    } else if c == 62 {
        if with_eq { TokenKind::GreaterEq } else { TokenKind::Greater }
    } else {
        if with_eq { TokenKind::BangEq } else { TokenKind::Bang }
    }
}

/// The byte that the escape `\c` stands for.
pub open spec fn escape(c: u8) -> Option<u8> {
    if c == 110 { Some(10u8) }
    else if c == 116 { Some(9u8) }
    else if c == 114 { Some(13u8) }
    else if c == 34 { Some(34u8) }
    else if c == 92 { Some(92u8) }
    else { None }
}

/// The number of points in `s`.
pub open spec fn dots(s: Seq<u8>) -> nat
    decreases s.len(),
{
    if s.len() == 0 {
        0
    } else {
        dots(s.drop_last()) + if s.last() == 46u8 { 1nat } else { 0nat }
    }
}

/// The digits of `s` before its first point.
pub open spec fn int_part(s: Seq<u8>) -> Seq<u8>
    decreases s.len(),
{
    if s.len() == 0 {
        seq![]
    } else if dots(s.drop_last()) > 0 || s.last() == 46u8 {
        int_part(s.drop_last())
    } else {
        int_part(s.drop_last()).push(s.last())
    }
}

/// The digits of `s` after its first point.
pub open spec fn frac_part(s: Seq<u8>) -> Seq<u8>
    decreases s.len(),
{
    if s.len() == 0 {
        seq![]
    } else if dots(s.drop_last()) > 0 && s.last() != 46u8 {
        frac_part(s.drop_last()).push(s.last())
    } else {
        frac_part(s.drop_last())
    }
}

/// The value of the number literal `digits` (digits and points) spanning `span`:
/// an error when it starts with a point, has more than one point, or ends with its
/// only point; otherwise the canonical form of its digits.
pub open spec fn number_value(digits: Seq<u8>, span: Span) -> Result<DecimalV, LexErrV> {
    if digits[0] == 46u8 {
        Err(LexErrV::NumLitLeadingDecimal(span))
    } else if dots(digits) >= 2 {
        Err(LexErrV::NumLitMultipleDecimals(span))
    } else if dots(digits) == 1 && frac_part(digits).len() == 0 {
        Err(LexErrV::NumLitTrailingDecimal(span))
    } else {
        Ok(canonical(int_part(digits), frac_part(digits)))
    }
}

/// Reading the rest of a run that began with `first` at `start`, the lexer now at
/// `st`: the run's bytes, its span and the state after it.
pub open spec fn run(b: Seq<u8>, first: u8, start: Loc, st: LexState, ident: bool) -> (Seq<u8>, Span, LexState) {
    let e = scan(b, st.pos, ident);
    let n = (e - st.pos) as nat;
    let end = if n > 0 { Loc::mk(st.line, (st.col + n - 1) as nat) } else { start };
    (seq![first] + b.subrange(st.pos as int, e as int), Span::mk(start, end), LexState { pos: e, line: st.line, col: st.col + n })
}

/// A number literal that began with `first` at `start`.
pub open spec fn lex_number(b: Seq<u8>, first: u8, start: Loc, st: LexState) -> (LexResV, LexState) {
    let (digits, span, st2) = run(b, first, start, st, false);
    match number_value(digits, span) {
        Ok(d) => (Ok(LexemeV { t: TokenV::NumLit(d), span }), st2),
        Err(e) => (Err(e), st2),
    }
}

/// An identifier or keyword that began with `first` at `start`.
pub open spec fn lex_ident(b: Seq<u8>, first: u8, start: Loc, st: LexState) -> (LexResV, LexState) {
    let (bytes, span, st2) = run(b, first, start, st, true);
    if !valid_utf8(bytes) {
        (Err(LexErrV::IdentInvalidUtf8(span)), st2)
    } else {
        match keyword_kind(bytes) {
            Some(k) => (Ok(plain(k, span)), st2),
            None => (Ok(LexemeV { t: TokenV::Ident(decode_utf8(bytes)), span }), st2),
        }
    }
}

/// The rest of a string literal that opened at `start`, having read `acc` so far,
/// the last byte read at `end`.
pub open spec fn lex_string(b: Seq<u8>, start: Loc, end: Loc, acc: Seq<u8>, st: LexState) -> (LexResV, LexState)
    decreases b.len() - st.pos,
{
    if st.pos >= b.len() {
        (Err(LexErrV::UnterminatedStrLit(Span::mk(start, end))), st)
    } else {
        let s = b[st.pos as int];
        let loc = here(st);
        let st1 = step(b, st);
        if s == 34u8 {
            let span = Span::mk(start, loc);
            if valid_utf8(acc) {
                (Ok(LexemeV { t: TokenV::StringLit(decode_utf8(acc)), span }), st1)
            } else {
                (Err(LexErrV::StrLitInvalidUtf8(span)), st1)
            }
        } else if s == 92u8 {
            if st1.pos >= b.len() {
                (Err(LexErrV::InvalidEscapeSequence(Span::mk(loc, loc), 32u8)), st1)
            } else {
                let esc = b[st1.pos as int];
                let esc_loc = here(st1);
                let st2 = step(b, st1);
                match escape(esc) {
                    Some(v) => lex_string(b, start, esc_loc, acc.push(v), st2),
                    None => (Err(LexErrV::InvalidEscapeSequence(Span::mk(loc, esc_loc), esc)), st2),
                }
            }
        } else {
            lex_string(b, start, loc, acc.push(s), st1)
        }
    }
}

/// The token that starts with byte `c` read at `loc`, the lexer now at `st`.
pub open spec fn lex_byte(b: Seq<u8>, c: u8, loc: Loc, st: LexState) -> (LexResV, LexState) {
    match single_kind(c) {
        Some(k) => (Ok(plain(k, Span::mk(loc, loc))), st),
        None => if is_multi_start(c) {
            if st.pos < b.len() && b[st.pos as int] == 61u8 {
                (Ok(plain(multi_kind(c, true), Span::mk(loc, here(st)))), step(b, st))
            } else {
                (Ok(plain(multi_kind(c, false), Span::mk(loc, loc))), st)
            }
        } else if is_digit(c) {
            lex_number(b, c, loc, st)
        } else if is_alpha(c) || c == 95 {
            lex_ident(b, c, loc, st)
        } else if c == 34 {
            lex_string(b, loc, loc, seq![], st)
        } else {
            (Err(LexErrV::InvalidByte(loc, c)), st)
        },
    }
}

/// The next result of the lexer after whitespace, or none at the end of the input,
/// with the state after it.
pub open spec fn lex_next(b: Seq<u8>, st: LexState) -> (Option<LexResV>, LexState) {
    let s1 = skip_ws(b, st);
    if s1.pos >= b.len() {
        (None, s1)
    } else {
        let (r, s2) = lex_byte(b, b[s1.pos as int], here(s1), step(b, s1));
        (Some(r), s2)
    }
}

/// Every result that the lexer gives from `st` on, in order.
pub open spec fn lex_all(b: Seq<u8>, st: LexState) -> Seq<LexResV>
    decreases b.len() - st.pos,
{
    let (o, st2) = lex_next(b, st);
    match o {
        None => seq![],
        Some(r) => if st.pos < st2.pos <= b.len() {
            seq![r] + lex_all(b, st2)
        } else {
            seq![r]
        },
    }
}

/// The state at the start of the input.
pub open spec fn initial() -> LexState {
    LexState { pos: 0, line: 1, col: 1 }
}


/// Whether `s` is a well-formed lexer state for input `b`.
pub open spec fn state_ok(b: Seq<u8>, st: LexState) -> bool {
    &&& st.pos <= b.len()
    &&& st.line >= 1
    &&& st.col >= 1
    &&& st.line + st.col <= st.pos + 2
    &&& b.len() < usize::MAX
}

/// Reads the bytes of a program and hands out its tokens one at a time.
pub struct Lexer {
    stream: Vec<u8>,
    pos: usize,
    line: usize,
    col: usize,
}

impl Lexer {
    #[verifier::type_invariant]
    spec fn inv(self) -> bool {
        state_ok(self.stream@, self.state())
    }

    /// The whole input.
    pub closed spec fn input(self) -> Seq<u8> {
        self.stream@
    }

    /// Where the lexer stands in its input.
    pub closed spec fn state(self) -> LexState {
        LexState { pos: self.pos as nat, line: self.line as nat, col: self.col as nat }
    }

    /// A lexer at the start of `stream`.
    pub fn new(stream: Vec<u8>) -> (r: Self)
        requires
            stream@.len() < usize::MAX,
        ensures
            r.input() == stream@,
            r.state() == initial(),
    {
        Lexer { stream, pos: 0, line: 1, col: 1 }
    }

    /// Where the next byte is.
    fn loc(&self) -> (r: Loc)
        ensures
            r == here(self.state()),
            r.spec_line() == self.state().line,
            r.spec_col() == self.state().col,
    {
        proof {
            use_type_invariant(self);
        }
        Loc::new(self.line, self.col)
    }

    /// The next byte, if any, without reading it.
    fn peek(&self) -> (r: Option<u8>)
        ensures
            r == (if self.state().pos < self.input().len() {
                Some(self.input()[self.state().pos as int])
            } else {
                None
            }),
    {
        if self.pos < self.stream.len() {
            Some(self.stream[self.pos])
        } else {
            None
        }
    }

    /// Reads the next byte, with its position.
    fn next_byte(&mut self) -> (r: Option<(u8, Loc)>)
        ensures
            final(self).input() == old(self).input(),
            match r {
                None => old(self).state().pos >= old(self).input().len() && final(self).state() == old(
                    self,
                ).state(),
                Some((c, l)) => {
                    &&& old(self).state().pos < old(self).input().len()
                    &&& c == old(self).input()[old(self).state().pos as int]
                    &&& l == here(old(self).state())
                    &&& l.spec_line() == old(self).state().line
                    &&& l.spec_col() == old(self).state().col
                    &&& final(self).state() == step(old(self).input(), old(self).state())
                },
            },
    {
        proof {
            use_type_invariant(&*self);
        }
        if self.pos >= self.stream.len() {
            return None;
        }
        let n = self.stream[self.pos];
        let this = self.loc();
        self.pos = self.pos + 1;
        if n == 10u8 {
            self.line = self.line + 1;
            self.col = 1;
        } else {
            self.col = self.col + 1;
        }
        Some((n, this))
    }

    /// Whether the next byte continues an identifier (`ident`) or a number literal.
    fn peek_continues(&self, ident: bool) -> (r: bool)
        ensures
            r == (self.state().pos < self.input().len() && continues(
                self.input()[self.state().pos as int],
                ident,
            )),
    {
        if self.pos < self.stream.len() {
            let c = self.stream[self.pos];
            if ident {
                (65 <= c && c <= 90) || (97 <= c && c <= 122) || (48 <= c && c <= 57) || c == 95
            } else {
                (48 <= c && c <= 57) || c == 46
            }
        } else {
            false
        }
    }

    /// Reads the rest of a run of identifier (`ident`) or number bytes that began
    /// with `first` at `start`: its bytes and its span.
    fn lex_run(&mut self, first: u8, start: Loc, ident: bool) -> (r: (Vec<u8>, Span))
        requires
            start.spec_line() == old(self).state().line,
            start.spec_col() + 1 == old(self).state().col,
        ensures
            final(self).input() == old(self).input(),
            (r.0@, r.1, final(self).state()) == run(old(self).input(), first, start, old(self).state(), ident),
            final(self).state().pos >= old(self).state().pos,
    {
        proof {
            use_type_invariant(&*self);
            Loc::lemma_fields(start);
        }
        let ghost b = self.input();
        let ghost st0 = self.state();
        let mut bytes: Vec<u8> = Vec::new();
        bytes.push(first);
        let mut end = start;
        assert(b.subrange(st0.pos as int, st0.pos as int) =~= Seq::<u8>::empty());
        while self.peek_continues(ident)
            invariant
                self.input() == b,
                state_ok(b, self.state()),
                st0.pos <= self.state().pos,
                self.state().line == st0.line,
                self.state().col == st0.col + (self.state().pos - st0.pos),
                scan(b, st0.pos, ident) == scan(b, self.state().pos, ident),
                bytes@ == seq![first] + b.subrange(st0.pos as int, self.state().pos as int),
                end == (if self.state().pos > st0.pos {
                    Loc::mk(st0.line, (self.state().col - 1) as nat)
                } else {
                    start
                }),
                start.spec_line() == st0.line,
                start.spec_col() + 1 == st0.col,
                start == Loc::mk(start.spec_line(), start.spec_col()),
            decreases b.len() - self.state().pos,
        {
            proof {
                use_type_invariant(&*self);
            }
            let (a, loc) = self.next_byte().unwrap();
            bytes.push(a);
            end = loc;
            assert(bytes@ =~= seq![first] + b.subrange(st0.pos as int, self.state().pos as int));
        }
        proof {
            use_type_invariant(&*self);
            Loc::lemma_mk(st0.line, (self.state().col - 1) as nat);
        }
        let span = Span::between(start, end);
        (bytes, span)
    }

    /// The value of the number literal `digits`; see [`number_value`].
    fn parse_number(digits: Vec<u8>, span: Span) -> (r: Result<Decimal, LexerError>)
        requires
            digits@.len() > 0,
            forall|i: int| 0 <= i < digits@.len() ==> continues(#[trigger] digits@[i], false),
        ensures
            match (r, number_value(digits@, span)) {
                (Ok(d), Ok(dv)) => d@ == dv,
                (Err(e), Err(ev)) => e@ == ev,
                _ => false,
            },
    {
        let ghost d = digits@;
        if digits[0] == 46u8 {
            return Err(LexerError::NumLitLeadingDecimal(span));
        }
        let mut after_dec = false;
        let mut frac_appears = false;
        let mut int_digits: Vec<u8> = Vec::new();
        let mut frac_digits: Vec<u8> = Vec::new();
        let mut i: usize = 0;
        assert(d.take(0) =~= Seq::<u8>::empty());
        while i < digits.len()
            invariant
                d == digits@,
                d[0] != 46u8,
                forall|k: int| 0 <= k < d.len() ==> continues(#[trigger] d[k], false),
                i <= d.len(),
                after_dec == (dots(d.take(i as int)) >= 1),
                dots(d.take(i as int)) <= 1,
                int_digits@ == int_part(d.take(i as int)),
                frac_digits@ == frac_part(d.take(i as int)),
                frac_appears == (frac_digits@.len() > 0),
                all_digits(int_digits@),
                all_digits(frac_digits@),
            decreases d.len() - i,
        {
            let b = digits[i];
            let ghost p = d.take(i + 1);
            assert(p.drop_last() =~= d.take(i as int));
            assert(p.last() == b);
            if b == 46u8 {
                if after_dec {
                    proof {
                        lemma_dots_prefix(d, i + 1);
                    }
                    return Err(LexerError::NumLitMultipleDecimals(span));
                }
                after_dec = true;
            } else {
                if after_dec {
                    frac_digits.push(b);
                    frac_appears = true;
                } else {
                    int_digits.push(b);
                }
            }
            i = i + 1;
        }
        assert(d.take(d.len() as int) =~= d);
        if after_dec && !frac_appears {
            return Err(LexerError::NumLitTrailingDecimal(span));
        }
        Ok(Decimal::new(int_digits, frac_digits))
    }

    /// A number literal that began with the digit `first` at `start`; see [`lex_number`].
    fn lex_number_lit(&mut self, first: u8, start: Loc) -> (r: Result<Lexeme, LexerError>)
        requires
            is_digit(first),
            start.spec_line() == old(self).state().line,
            start.spec_col() + 1 == old(self).state().col,
        ensures
            final(self).input() == old(self).input(),
            (res_view(r), final(self).state()) == lex_number(old(self).input(), first, start, old(self).state()),
            final(self).state().pos >= old(self).state().pos,
    {
        proof {
            use_type_invariant(&*self);
        }
        let ghost b = self.input();
        let ghost st0 = self.state();
        let (num, span) = self.lex_run(first, start, false);
        proof {
            let e = scan(b, st0.pos, false);
            lemma_scan_continues(b, st0.pos, false);
            assert forall|i: int| 0 <= i < num@.len() implies continues(#[trigger] num@[i], false) by {
                if i > 0 {
                    assert(num@[i] == b[st0.pos + i - 1]);
                }
            }
        }
        match Self::parse_number(num, span) {
            Ok(d) => Ok(Lexeme::new(Token::NumLit(d), span)),
            Err(e) => Err(e),
        }
    }

    /// An identifier or keyword that began with `first` at `start`; see [`lex_ident`].
    fn lex_ident(&mut self, first: u8, start: Loc) -> (r: Result<Lexeme, LexerError>)
        requires
            start.spec_line() == old(self).state().line,
            start.spec_col() + 1 == old(self).state().col,
        ensures
            final(self).input() == old(self).input(),
            (res_view(r), final(self).state()) == lex_ident(old(self).input(), first, start, old(self).state()),
            final(self).state().pos >= old(self).state().pos,
    {
        let (ident_bytes, span) = self.lex_run(first, start, true);
        let ghost bytes = ident_bytes@;
        match string_from_utf8(ident_bytes) {
            Err(err) => Err(LexerError::IdentInvalidUtf8(span, err)),
            Ok(ident) => {
                let kw = keyword(ident.as_str().as_bytes());
                proof {
                    decode_utf8_encode_utf8(bytes);
                }
                match kw {
                    Some(k) => Ok(Lexeme::new(Token::of_kind(k), span)),
                    None => Ok(Lexeme::new(Token::Ident(ident), span)),
                }
            },
        }
    }

    /// The rest of a string literal whose opening quote was at `start`; see [`lex_string`].
    fn lex_string_lit(&mut self, start: Loc) -> (r: Result<Lexeme, LexerError>)
        requires
            start.no_later_than(here(old(self).state())),
        ensures
            final(self).input() == old(self).input(),
            (res_view(r), final(self).state()) == lex_string(
                old(self).input(),
                start,
                start,
                seq![],
                old(self).state(),
            ),
            final(self).state().pos >= old(self).state().pos,
    {
        let ghost b = self.input();
        let ghost st0 = self.state();
        let ghost target = lex_string(b, start, start, seq![], st0);
        let mut st: Vec<u8> = Vec::new();
        let mut end = start;
        loop
            invariant
                self.input() == b,
                b == old(self).input(),
                target == lex_string(b, start, start, seq![], old(self).state()),
                st0 == old(self).state(),
                lex_string(b, start, end, st@, self.state()) == target,
                start.no_later_than(end),
                end.no_later_than(here(self.state())),
                self.state().pos >= st0.pos,
            decreases b.len() - self.state().pos,
        {
            proof {
                use_type_invariant(&*self);
            }
            let ghost cur = self.state();
            match self.next_byte() {
                None => {
                    return Err(LexerError::UnterminatedStrLit(Span::between(start, end)));
                },
                Some((s, loc)) => {
                    proof {
                        use_type_invariant(&*self);
                        lemma_step_later(b, cur);
                    }
                    end = loc;
                    if s == 34u8 {
                        let span = Span::between(start, loc);
                        return match string_from_utf8(st) {
                            Ok(x) => Ok(Lexeme::new(Token::StringLit(x), span)),
                            Err(e) => Err(LexerError::StrLitInvalidUtf8(span, e)),
                        };
                    }
                    if s == 92u8 {
                        let ghost cur1 = self.state();
                        match self.next_byte() {
                            None => {
                                return Err(LexerError::InvalidEscapeSequence(Span::at(loc), 32u8));
                            },
                            Some((esc, esc_loc)) => {
                                proof {
                                    use_type_invariant(&*self);
                                    lemma_step_later(b, cur1);
                                }
                                end = esc_loc;
                                if esc == 110u8 {
                                    st.push(10u8);
                                } else if esc == 116u8 {
                                    st.push(9u8);
                                } else if esc == 114u8 {
                                    st.push(13u8);
                                } else if esc == 34u8 {
                                    st.push(34u8);
                                } else if esc == 92u8 {
                                    st.push(92u8);
                                } else {
                                    return Err(
                                        LexerError::InvalidEscapeSequence(Span::between(loc, esc_loc), esc),
                                    );
                                }
                            },
                        }
                    } else {
                        st.push(s);
                    }
                },
            }
        }
    }

    /// The token that starts with byte `c` read at `loc`; see [`lex_byte`].
    fn lex_byte(&mut self, c: u8, loc: Loc) -> (r: Result<Lexeme, LexerError>)
        requires
            c != 10u8,
            loc == Loc::mk(loc.spec_line(), loc.spec_col()),
            loc.spec_line() == old(self).state().line,
            loc.spec_col() + 1 == old(self).state().col,
        ensures
            final(self).input() == old(self).input(),
            (res_view(r), final(self).state()) == lex_byte(old(self).input(), c, loc, old(self).state()),
            final(self).state().pos >= old(self).state().pos,
    {
        proof {
            use_type_invariant(&*self);
            Loc::lemma_mk(old(self).state().line, old(self).state().col);
        }
        let single = if c == 40u8 {
            Some(TokenKind::OpenParen)
        } else if c == 41u8 {
            Some(TokenKind::CloseParen)
        } else if c == 123u8 {
            Some(TokenKind::OpenBracket)
        } else if c == 125u8 {
            Some(TokenKind::CloseBracket)
        } else if c == 59u8 {
            Some(TokenKind::Semi)
        } else if c == 44u8 {
            Some(TokenKind::Comma)
        } else if c == 43u8 {
            Some(TokenKind::Plus)
        } else if c == 45u8 {
            Some(TokenKind::Minus)
        } else if c == 42u8 {
            Some(TokenKind::Star)
        } else if c == 47u8 {
            Some(TokenKind::Slash)
        } else if c == 37u8 {
            Some(TokenKind::Percent)
        } else if c == 126u8 {
            Some(TokenKind::Tilde)
        } else if c == 58u8 {
            Some(TokenKind::Colon)
        } else {
            None
        };
        match single {
            Some(k) => Ok(Lexeme::new(Token::of_kind(k), Span::at(loc))),
            None => {
                if c == 61u8 || c == 33u8 || c == 60u8 || c == 62u8 {
                    Ok(self.lex_multi_byte(c, loc))
                } else if 48u8 <= c && c <= 57u8 {
                    self.lex_number_lit(c, loc)
                } else if (65u8 <= c && c <= 90u8) || (97u8 <= c && c <= 122u8) || c == 95u8 {
                    self.lex_ident(c, loc)
                } else if c == 34u8 {
                    self.lex_string_lit(loc)
                } else {
                    Err(LexerError::InvalidByte(loc, c))
                }
            },
        }
    }

    /// The next token after any whitespace, or `None` at the end of the input;
    /// see [`lex_next`]. A token always consumes input.
    pub fn next_lexeme(&mut self) -> (r: Option<Result<Lexeme, LexerError>>)
        ensures
            final(self).input() == old(self).input(),
            (match r {
                None => None,
                Some(x) => Some(res_view(x)),
            }, final(self).state()) == lex_next(old(self).input(), old(self).state()),
            r is Some ==> final(self).state().pos > old(self).state().pos,
            final(self).state().pos <= final(self).input().len(),
    {
        let ghost b = self.input();
        let ghost st0 = self.state();
        loop
            invariant
                self.input() == b,
                b == old(self).input(),
                st0 == old(self).state(),
                skip_ws(b, self.state()) == skip_ws(b, st0),
                self.state().pos >= st0.pos,
            decreases b.len() - self.state().pos,
        {
            proof {
                use_type_invariant(&*self);
            }
            let ghost cur = self.state();
            match self.next_byte() {
                None => {
                    return None;
                },
                Some((c, loc)) => {
                    proof {
                        use_type_invariant(&*self);
                        lemma_step_later(b, cur);
                        Loc::lemma_fields(loc);
                    }
                    if c == 32u8 || c == 9u8 || c == 10u8 || c == 12u8 || c == 13u8 {
                        continue;
                    }
                    let r = self.lex_byte(c, loc);
                    proof {
                        use_type_invariant(&*self);
                    }
                    return Some(r);
                },
            }
        }
    }

    /// Every remaining result of the lexer, in order; see [`lex_all`].
    pub fn lex_all(&mut self) -> (r: Vec<Result<Lexeme, LexerError>>)
        ensures
            r@.map_values(|x: Result<Lexeme, LexerError>| res_view(x)) == lex_all(
                old(self).input(),
                old(self).state(),
            ),
    {
        let ghost b = self.input();
        let ghost st0 = self.state();
        let mut out: Vec<Result<Lexeme, LexerError>> = Vec::new();
        loop
            invariant
                self.input() == b,
                b == old(self).input(),
                st0 == old(self).state(),
                out@.map_values(|x: Result<Lexeme, LexerError>| res_view(x)) + lex_all(b, self.state())
                    == lex_all(b, st0),
            decreases b.len() - self.state().pos,
        {
            proof {
                use_type_invariant(&*self);
            }
            let ghost cur = self.state();
            match self.next_lexeme() {
                None => {
                    assert(out@.map_values(|x: Result<Lexeme, LexerError>| res_view(x)) =~= lex_all(b, st0));
                    return out;
                },
                Some(x) => {
                    let ghost xv = res_view(x);
                    let ghost before = out@.map_values(|x: Result<Lexeme, LexerError>| res_view(x));
                    out.push(x);
                    assert(out@.map_values(|x: Result<Lexeme, LexerError>| res_view(x)) =~= before.push(xv));
                    assert(lex_all(b, cur) == seq![xv] + lex_all(b, self.state()));
                    assert(before.push(xv) + lex_all(b, self.state()) =~= before + lex_all(b, cur));
                },
            }
        }
    }

    /// The token that starts with `=`, `!`, `<` or `>` read at `loc`.
    fn lex_multi_byte(&mut self, first: u8, loc: Loc) -> (r: Lexeme)
        requires
            is_multi_start(first),
            loc.spec_line() == old(self).state().line,
            loc.spec_col() + 1 == old(self).state().col,
        ensures
            final(self).input() == old(self).input(),
            (Ok::<LexemeV, LexErrV>(r@), final(self).state()) == lex_byte(old(self).input(), first, loc, old(self).state()),
            final(self).state().pos >= old(self).state().pos,
    {
        proof {
            use_type_invariant(&*self);
        }
        let second = self.peek();
        if second == Some(61u8) {
            let (_, snd) = self.next_byte().unwrap();
            let k = if first == 61u8 {
                TokenKind::EqEq
            } else if first == 60u8 {
                TokenKind::LessEq
            } else if first == 62u8 {
                TokenKind::GreaterEq
            } else {
                TokenKind::BangEq
            };
            Lexeme::new(Token::of_kind(k), Span::between(loc, snd))
        } else {
            let k = if first == 61u8 {
                TokenKind::Eq
            } else if first == 60u8 {
                TokenKind::Less
            } else if first == 62u8 {
                TokenKind::Greater
            } else {
                TokenKind::Bang
            };
            Lexeme::new(Token::of_kind(k), Span::at(loc))
        }
    }
}


/// `a` comes strictly before `b` in the source.
pub open spec fn before(a: Loc, b: Loc) -> bool {
    a.spec_line() < b.spec_line() || (a.spec_line() == b.spec_line() && a.spec_col() < b.spec_col())
}

/// The span that a lexer result covers: its token's, or the one its error points at.
pub open spec fn res_span(r: LexResV) -> Span {
    match r {
        Ok(l) => l.span,
        Err(e) => match e {
            LexErrV::NumLitLeadingDecimal(s) => s,
            LexErrV::NumLitTrailingDecimal(s) => s,
            LexErrV::NumLitMultipleDecimals(s) => s,
            LexErrV::InvalidByte(l, _) => Span::mk(l, l),
            LexErrV::StrLitInvalidUtf8(s) => s,
            LexErrV::IdentInvalidUtf8(s) => s,
            LexErrV::InvalidEscapeSequence(s, _) => s,
            LexErrV::UnterminatedStrLit(s) => s,
        },
    }
}

/// The span of `r` starts no earlier than `from`, ends no earlier than it starts,
/// and ends before `to`.
pub open spec fn covers_between(r: LexResV, from: Loc, to: Loc) -> bool {
    &&& from.no_later_than(res_span(r).spec_start())
    &&& res_span(r).spec_start().no_later_than(res_span(r).spec_end())
    &&& before(res_span(r).spec_end(), to)
}

/// Each result that the lexer gives from `st` lies between where the lexer stood and
/// where it stops, and the lexer's state stays well formed.
pub proof fn law_lex_next_in_order(b: Seq<u8>, st: LexState)
    requires
        state_ok(b, st),
    ensures
        state_ok(b, lex_next(b, st).1),
        here(st).no_later_than(here(lex_next(b, st).1)),
        lex_next(b, st).0 matches Some(r) ==> covers_between(r, here(st), here(lex_next(b, st).1)),
{
    let s1 = skip_ws(b, st);
    lemma_skip_ws(b, st);
    if s1.pos < b.len() {
        lemma_lex_byte(b, s1);
    }
}

/// The results of lexing a whole input come in source order: each one's span ends
/// no earlier than it starts, and ends before the next one's starts, so that no two
/// overlap.
pub proof fn law_lex_all_in_order(b: Seq<u8>)
    requires
        b.len() < usize::MAX,
    ensures
        forall|i: int, j: int|
            0 <= i < j < lex_all(b, initial()).len() ==> before(
                #[trigger] res_span(lex_all(b, initial())[i]).spec_end(),
                #[trigger] res_span(lex_all(b, initial())[j]).spec_start(),
            ),
        forall|i: int|
            0 <= i < lex_all(b, initial()).len() ==> res_span(#[trigger] lex_all(b, initial())[i]).spec_start().no_later_than(
                res_span(lex_all(b, initial())[i]).spec_end(),
            ),
{
    lemma_lex_all_in_order(b, initial());
}

proof fn lemma_lex_all_in_order(b: Seq<u8>, st: LexState)
    requires
        state_ok(b, st),
    ensures
        forall|i: int|
            0 <= i < lex_all(b, st).len() ==> here(st).no_later_than(
                res_span(#[trigger] lex_all(b, st)[i]).spec_start(),
            ) && res_span(lex_all(b, st)[i]).spec_start().no_later_than(res_span(lex_all(b, st)[i]).spec_end()),
        forall|i: int, j: int|
            0 <= i < j < lex_all(b, st).len() ==> before(
                #[trigger] res_span(lex_all(b, st)[i]).spec_end(),
                #[trigger] res_span(lex_all(b, st)[j]).spec_start(),
            ),
    decreases b.len() - st.pos,
{
    let (o, st2) = lex_next(b, st);
    law_lex_next_in_order(b, st);
    match o {
        None => {},
        Some(r) => {
            if st.pos < st2.pos <= b.len() {
                lemma_lex_all_in_order(b, st2);
                let rest = lex_all(b, st2);
                let all = lex_all(b, st);
                assert(all == seq![r] + rest);
                assert forall|i: int| 0 <= i < all.len() implies here(st).no_later_than(
                    res_span(#[trigger] all[i]).spec_start(),
                ) && res_span(all[i]).spec_start().no_later_than(res_span(all[i]).spec_end()) by {
                    if i > 0 {
                        assert(all[i] == rest[i - 1]);
                    }
                }
                assert forall|i: int, j: int| 0 <= i < j < all.len() implies before(
                    #[trigger] res_span(all[i]).spec_end(),
                    #[trigger] res_span(all[j]).spec_start(),
                ) by {
                    assert(all[j] == rest[j - 1]);
                    if i > 0 {
                        assert(all[i] == rest[i - 1]);
                    } else {
                        assert(all[i] == r);
                        assert(here(st2).no_later_than(res_span(rest[j - 1]).spec_start()));
                    }
                }
            } else {
                assert(lex_all(b, st) == seq![r]);
            }
        },
    }
}

/// Skipping whitespace moves the lexer on and keeps its state well formed.
proof fn lemma_skip_ws(b: Seq<u8>, st: LexState)
    requires
        state_ok(b, st),
    ensures
        state_ok(b, skip_ws(b, st)),
        here(st).no_later_than(here(skip_ws(b, st))),
        st.pos <= skip_ws(b, st).pos,
    decreases b.len() - st.pos,
{
    Loc::lemma_mk(st.line, st.col);
    if st.pos < b.len() && is_ws(b[st.pos as int]) {
        lemma_step_later(b, st);
        lemma_skip_ws(b, step(b, st));
    }
}

/// A run of a number literal or an identifier that began at `start`, before where
/// the lexer stands, spans from `start` to its last byte.
proof fn lemma_run(b: Seq<u8>, first: u8, start: Loc, st: LexState, ident: bool)
    requires
        state_ok(b, st),
        before(start, here(st)),
    ensures
        state_ok(b, run(b, first, start, st, ident).2),
        run(b, first, start, st, ident).1.spec_start() == start,
        start.no_later_than(run(b, first, start, st, ident).1.spec_end()),
        before(run(b, first, start, st, ident).1.spec_end(), here(run(b, first, start, st, ident).2)),
{
    lemma_scan_continues(b, st.pos, ident);
    let e = scan(b, st.pos, ident);
    let n = (e - st.pos) as nat;
    let end = if n > 0 { Loc::mk(st.line, (st.col + n - 1) as nat) } else { start };
    Loc::lemma_mk(st.line, st.col);
    Loc::lemma_mk(st.line, st.col + n);
    if n > 0 {
        Loc::lemma_mk(st.line, (st.col + n - 1) as nat);
    }
    Span::lemma_mk(start, end);
}

/// The rest of a string literal that began at `start` spans from there to the byte
/// that ends it, before where the lexer stops.
proof fn lemma_lex_string(b: Seq<u8>, start: Loc, end: Loc, acc: Seq<u8>, st: LexState)
    requires
        state_ok(b, st),
        start.no_later_than(end),
        before(end, here(st)),
    ensures
        state_ok(b, lex_string(b, start, end, acc, st).1),
        covers_between(lex_string(b, start, end, acc, st).0, start, here(lex_string(b, start, end, acc, st).1)),
    decreases b.len() - st.pos,
{
    Loc::lemma_mk(st.line, st.col);
    if st.pos >= b.len() {
        Span::lemma_mk(start, end);
    } else {
        let s = b[st.pos as int];
        let loc = here(st);
        let st1 = step(b, st);
        lemma_step_later(b, st);
        if s == 34u8 {
            Span::lemma_mk(start, loc);
        } else if s == 92u8 {
            if st1.pos >= b.len() {
                Span::lemma_mk(loc, loc);
            } else {
                let esc_loc = here(st1);
                let st2 = step(b, st1);
                lemma_step_later(b, st1);
                match escape(b[st1.pos as int]) {
                    Some(v) => lemma_lex_string(b, start, esc_loc, acc.push(v), st2),
                    None => Span::lemma_mk(loc, esc_loc),
                }
            }
        } else {
            lemma_lex_string(b, start, loc, acc.push(s), st1);
        }
    }
}

/// The token that starts at the lexer's position spans from there to its last
/// byte, before where the lexer stops.
proof fn lemma_lex_byte(b: Seq<u8>, s1: LexState)
    requires
        state_ok(b, s1),
        s1.pos < b.len(),
    ensures
        state_ok(b, lex_byte(b, b[s1.pos as int], here(s1), step(b, s1)).1),
        covers_between(
            lex_byte(b, b[s1.pos as int], here(s1), step(b, s1)).0,
            here(s1),
            here(lex_byte(b, b[s1.pos as int], here(s1), step(b, s1)).1),
        ),
{
    let c = b[s1.pos as int];
    let loc = here(s1);
    let st = step(b, s1);
    lemma_step_later(b, s1);
    Span::lemma_mk(loc, loc);
    match single_kind(c) {
        Some(k) => {},
        None => if is_multi_start(c) {
            if st.pos < b.len() && b[st.pos as int] == 61u8 {
                lemma_step_later(b, st);
                Span::lemma_mk(loc, here(st));
            }
        } else if is_digit(c) {
            lemma_run(b, c, loc, st, false);
        } else if is_alpha(c) || c == 95 {
            lemma_run(b, c, loc, st, true);
        } else if c == 34 {
            lemma_lex_string(b, loc, loc, seq![], st);
        },
    }
}

/// The characters of ASCII bytes.
pub open spec fn ascii_text(s: Seq<u8>) -> Seq<char> {
    s.map_values(|b: u8| b as char)
}

/// Every token the lexer reads from a fixed spelling is the token written that way:
/// a keyword's bytes, a one-byte token's byte, and a two-byte token's bytes spell the
/// token's text.
pub proof fn law_token_spellings()
    ensures
        forall|s: Seq<u8>| #[trigger] keyword_kind(s) matches Some(k) ==> kind_text(k) == ascii_text(s),
        forall|c: u8| #[trigger] single_kind(c) matches Some(k) ==> kind_text(k) == seq![c as char],
        forall|c: u8|
            is_multi_start(c) ==> kind_text(#[trigger] multi_kind(c, false)) == seq![c as char] && kind_text(
                multi_kind(c, true),
            ) == seq![c as char, '='],
{
    reveal_strlit("let");
    reveal_strlit("if");
    reveal_strlit("otherwise");
    reveal_strlit("while");
    reveal_strlit("for");
    reveal_strlit("fn");
    reveal_strlit("(");
    reveal_strlit(")");
    reveal_strlit("{");
    reveal_strlit("}");
    reveal_strlit(";");
    reveal_strlit(",");
    reveal_strlit("=");
    reveal_strlit("==");
    reveal_strlit("!=");
    reveal_strlit("+");
    reveal_strlit("-");
    reveal_strlit("~");
    reveal_strlit("*");
    reveal_strlit("/");
    reveal_strlit("%");
    reveal_strlit(">");
    reveal_strlit(">=");
    reveal_strlit("<");
    reveal_strlit("<=");
    reveal_strlit("and");
    reveal_strlit("or");
    reveal_strlit("!");
    reveal_strlit(":");
    reveal_strlit("true");
    reveal_strlit("false");
    reveal_strlit("null");
    reveal_strlit("number");
    reveal_strlit("string");
    reveal_strlit("bool");
    reveal_strlit("any");
    assert forall|s: Seq<u8>| #[trigger] keyword_kind(s) is Some implies kind_text(keyword_kind(s)->0) == ascii_text(s) by {
        assert(kind_text(keyword_kind(s)->0) =~= ascii_text(s));
    }
    assert forall|c: u8| #[trigger] single_kind(c) is Some implies kind_text(single_kind(c)->0) == seq![c as char] by {
        assert(kind_text(single_kind(c)->0) =~= seq![c as char]);
    }
    assert forall|c: u8| is_multi_start(c) implies kind_text(#[trigger] multi_kind(c, false)) == seq![c as char]
        && kind_text(multi_kind(c, true)) == seq![c as char, '='] by {
        assert(kind_text(multi_kind(c, false)) =~= seq![c as char]);
        assert(kind_text(multi_kind(c, true)) =~= seq![c as char, '=']);
    }
}

/// The escapes in string literals: `\n`, `\t` and `\r` stand for a line feed, a
/// tab and a carriage return, `\"` and `\\` for the quote and the backslash
/// themselves; no other byte may follow a backslash.
pub proof fn law_escapes()
    ensures
        escape(110u8) == Some(10u8),
        escape(116u8) == Some(9u8),
        escape(114u8) == Some(13u8),
        escape(34u8) == Some(34u8),
        escape(92u8) == Some(92u8),
        forall|c: u8| c != 110u8 && c != 116u8 && c != 114u8 && c != 34u8 && c != 92u8 ==> #[trigger] escape(c) is None,
{
}

/// A run of digits has no point: all of it is the integer part.
pub proof fn law_digits_parts(whole: Seq<u8>)
    requires
        all_digits(whole),
    ensures
        dots(whole) == 0,
        int_part(whole) == whole,
        frac_part(whole) == Seq::<u8>::empty(),
    decreases whole.len(),
{
    if whole.len() > 0 {
        law_digits_parts(whole.drop_last());
        assert(whole.drop_last().push(whole.last()) =~= whole);
    }
}

/// In digits, a point and more digits, the digits before the point are the integer
/// part and those after it, in order, the fraction part.
pub proof fn law_number_parts(whole: Seq<u8>, frac: Seq<u8>)
    requires
        all_digits(whole),
        all_digits(frac),
    ensures
        dots(whole + seq![46u8] + frac) == 1,
        int_part(whole + seq![46u8] + frac) == whole,
        frac_part(whole + seq![46u8] + frac) == frac,
    decreases frac.len(),
{
    law_digits_parts(whole);
    let s = whole + seq![46u8] + frac;
    if frac.len() == 0 {
        assert(s.drop_last() =~= whole);
        assert(s =~= whole.push(46u8));
    } else {
        law_number_parts(whole, frac.drop_last());
        assert(s.drop_last() =~= whole + seq![46u8] + frac.drop_last());
        assert(is_digit(frac.last()));
        assert(frac.drop_last().push(frac.last()) =~= frac);
    }
}

/// A number literal is read as the number it writes: digits alone, or digits, a
/// point and at least one more digit, give the canonical form of those digits; a
/// point with no digit after it is refused.
pub proof fn law_number_value(whole: Seq<u8>, frac: Seq<u8>, span: Span)
    requires
        all_digits(whole),
        all_digits(frac),
        whole.len() > 0,
    ensures
        number_value(whole, span) == Ok::<DecimalV, LexErrV>(canonical(whole, seq![])),
        frac.len() > 0 ==> number_value(whole + seq![46u8] + frac, span) == Ok::<DecimalV, LexErrV>(canonical(whole, frac)),
        frac.len() == 0 ==> number_value(whole + seq![46u8] + frac, span) == Err::<DecimalV, LexErrV>(
            LexErrV::NumLitTrailingDecimal(span),
        ),
{
    law_digits_parts(whole);
    law_number_parts(whole, frac);
    assert(is_digit(whole[0]));
    assert((whole + seq![46u8] + frac)[0] == whole[0]);
}

/// Every byte of a run continues it, and the run stays within the input.
proof fn lemma_scan_continues(b: Seq<u8>, pos: nat, ident: bool)
    requires
        pos <= b.len(),
    ensures
        pos <= scan(b, pos, ident) <= b.len(),
        forall|i: int| pos <= i < scan(b, pos, ident) ==> continues(#[trigger] b[i], ident),
    decreases b.len() - pos,
{
    if pos < b.len() && continues(b[pos as int], ident) {
        lemma_scan_continues(b, pos + 1, ident);
    }
}

/// Reading a byte moves the position on, and the state stays well formed.
proof fn lemma_step_later(b: Seq<u8>, st: LexState)
    requires
        state_ok(b, st),
        st.pos < b.len(),
    ensures
        here(st).no_later_than(here(step(b, st))),
        before(here(st), here(step(b, st))),
        state_ok(b, step(b, st)),
        here(st).spec_line() == st.line,
        here(st).spec_col() == st.col,
        here(step(b, st)).spec_line() == step(b, st).line,
        here(step(b, st)).spec_col() == step(b, st).col,
        step(b, st).pos == st.pos + 1,
{
    let st2 = step(b, st);
    Loc::lemma_mk(st.line, st.col);
    Loc::lemma_mk(st2.line, st2.col);
}

/// Points never disappear from a longer prefix.
proof fn lemma_dots_prefix(s: Seq<u8>, k: int)
    requires
        0 <= k <= s.len(),
    ensures
        dots(s.take(k)) <= dots(s),
    decreases s.len(),
{
    if k < s.len() {
        lemma_dots_prefix(s.drop_last(), k);
        assert(s.drop_last().take(k) =~= s.take(k));
    } else {
        assert(s.take(k) =~= s);
    }
}

} // verus!
