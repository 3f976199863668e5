//! Tokens produced by the lexer.

use vstd::prelude::*;
use crate::text::{push_char, push_i64, push_str, signed_decimal, string_of};

verus! {

/// A source location: byte range, and the line and column where it starts.
#[derive(Debug, Clone, Copy, PartialEq, Eq, Structural)]
pub struct Span {
    pub start: usize,
    pub end: usize,
    pub line: usize,
    pub col: usize,
}

impl Span {
    pub fn new(start: usize, end: usize, line: usize, col: usize) -> (s: Self)
        ensures
            s == (Span { start, end, line, col }),
    {
        Self { start, end, line, col }
    }

    /// The span of the first character of an empty source: `0..0` at line 1, column 1.
    pub fn dummy() -> (s: Self)
        ensures
            s == (Span { start: 0, end: 0, line: 1, col: 1 }),
    {
        Self { start: 0, end: 0, line: 1, col: 1 }
    }
}

/// The kinds of tokens. A float literal keeps its decimal text.
#[derive(Debug)]
pub enum TokenKind {
    Component,
    Export,
    Signal,
    Computed,
    Fn,
    Render,
    Extern,
    Let,
    Mut,
    If,
    Else,
    Return,
    True,
    False,
    Ident(String),
    IntLit(i64),
    FloatLit(String),
    StringLit(String),
    AtEvent(String),
    TagOpen(String),
    TagClose(String),
    TagEnd,
    TagSelfClose,
    Plus,
    Minus,
    Star,
    Slash,
    Percent,
    Eq,
    PlusEq,
    MinusEq,
    StarEq,
    SlashEq,
    EqEq,
    NotEq,
    Lt,
    LtEq,
    Gt,
    GtEq,
    AndAnd,
    OrOr,
    Not,
    OpenBrace,
    CloseBrace,
    OpenParen,
    CloseParen,
    OpenBracket,
    CloseBracket,
    Colon,
    Semicolon,
    Comma,
    Arrow,
    Dot,
    Eof,
}

/// The view of a token kind: a kind with text as its text, or a kind
/// without payload as itself.
pub enum KindV {
    Ident(Seq<char>),
    IntLit(i64),
    FloatLit(Seq<char>),
    StringLit(Seq<char>),
    AtEvent(Seq<char>),
    TagOpen(Seq<char>),
    TagClose(Seq<char>),
    Plain(TokenKind),
}

impl View for TokenKind {
    type V = KindV;

    open spec fn view(&self) -> KindV {
        match *self {
            TokenKind::Ident(s) => KindV::Ident(s@),
            TokenKind::IntLit(n) => KindV::IntLit(n),
            TokenKind::FloatLit(s) => KindV::FloatLit(s@),
            TokenKind::StringLit(s) => KindV::StringLit(s@),
            TokenKind::AtEvent(s) => KindV::AtEvent(s@),
            TokenKind::TagOpen(s) => KindV::TagOpen(s@),
            TokenKind::TagClose(s) => KindV::TagClose(s@),
            other => KindV::Plain(other),
        }
    }
}

/// The text by which the view of a token kind is shown in messages (see `kind_text`).
pub open spec fn kindv_text(k: KindV) -> Seq<char> {
    match k {
        KindV::Ident(s) => s,
        KindV::IntLit(n) => signed_decimal(n as int),
        KindV::FloatLit(s) => s,
        KindV::StringLit(s) => seq!['"'] + s + seq!['"'],
        KindV::AtEvent(s) => s,
        KindV::TagOpen(s) => seq!['<'] + s,
        KindV::TagClose(s) => seq!['<', '/'] + s + seq!['>'],
        KindV::Plain(p) => kind_text(p),
    }
}

/// A kind's view is shown by the same text as the kind.
pub proof fn lemma_kindv_text(k: TokenKind)
    ensures
        kindv_text(k@) == kind_text(k),
{
}

/// Two kinds are the same exactly when their views are equal.
pub proof fn lemma_same_kind_view(a: TokenKind, b: TokenKind)
    ensures
        same_kind(a, b) == (a@ == b@),
{
}

/// Two token kinds are the same: same variant and same payload text or value.
pub open spec fn same_kind(a: TokenKind, b: TokenKind) -> bool {
    match (a, b) {
        (TokenKind::Ident(x), TokenKind::Ident(y)) => x@ == y@,
        (TokenKind::IntLit(x), TokenKind::IntLit(y)) => x == y,
        (TokenKind::FloatLit(x), TokenKind::FloatLit(y)) => x@ == y@,
        (TokenKind::StringLit(x), TokenKind::StringLit(y)) => x@ == y@,
        (TokenKind::AtEvent(x), TokenKind::AtEvent(y)) => x@ == y@,
        (TokenKind::TagOpen(x), TokenKind::TagOpen(y)) => x@ == y@,
        (TokenKind::TagClose(x), TokenKind::TagClose(y)) => x@ == y@,
        (TokenKind::Ident(_), _) | (TokenKind::IntLit(_), _) | (TokenKind::FloatLit(_), _)
        | (TokenKind::StringLit(_), _) | (TokenKind::AtEvent(_), _) | (TokenKind::TagOpen(_), _)
        | (TokenKind::TagClose(_), _) => false,
        (_, TokenKind::Ident(_)) | (_, TokenKind::IntLit(_)) | (_, TokenKind::FloatLit(_))
        | (_, TokenKind::StringLit(_)) | (_, TokenKind::AtEvent(_)) | (_, TokenKind::TagOpen(_))
        | (_, TokenKind::TagClose(_)) => false,
        _ => a == b,
    }
}

/// The text by which a token kind is shown in messages.
pub open spec fn kind_text(k: TokenKind) -> Seq<char> {
    match k {
        TokenKind::Component => "component"@,
        TokenKind::Export => "export"@,
        TokenKind::Signal => "signal"@,
        TokenKind::Computed => "computed"@,
        TokenKind::Fn => "fn"@,
        TokenKind::Render => "render"@,
        TokenKind::Extern => "extern"@,
        TokenKind::Let => "let"@,
        TokenKind::Mut => "mut"@,
        TokenKind::If => "if"@,
        TokenKind::Else => "else"@,
        TokenKind::Return => "return"@,
        TokenKind::True => "true"@,
        TokenKind::False => "false"@,
        TokenKind::TagEnd => ">"@,
        TokenKind::TagSelfClose => "/>"@,
        TokenKind::Plus => "+"@,
        TokenKind::Minus => "-"@,
        TokenKind::Star => "*"@,
        TokenKind::Slash => "/"@,
        TokenKind::Percent => "%"@,
        TokenKind::Eq => "="@,
        TokenKind::PlusEq => "+="@,
        TokenKind::MinusEq => "-="@,
        TokenKind::StarEq => "*="@,
        TokenKind::SlashEq => "/="@,
        TokenKind::EqEq => "=="@,
        TokenKind::NotEq => "!="@,
        TokenKind::Lt => "<"@,
        TokenKind::LtEq => "<="@,
        TokenKind::Gt => ">"@,
        TokenKind::GtEq => ">="@,
        TokenKind::AndAnd => "&&"@,
        TokenKind::OrOr => "||"@,
        TokenKind::Not => "!"@,
        TokenKind::OpenBrace => "{"@,
        TokenKind::CloseBrace => "}"@,
        TokenKind::OpenParen => "("@,
        TokenKind::CloseParen => ")"@,
        TokenKind::OpenBracket => "["@,
        TokenKind::CloseBracket => "]"@,
        TokenKind::Colon => ":"@,
        TokenKind::Semicolon => ";"@,
        TokenKind::Comma => ","@,
        TokenKind::Arrow => "->"@,
        TokenKind::Dot => "."@,
        TokenKind::Eof => "<EOF>"@,
        TokenKind::Ident(s) => s@,
        TokenKind::IntLit(n) => signed_decimal(n as int),
        TokenKind::FloatLit(s) => s@,
        TokenKind::StringLit(s) => seq!['"'] + s@ + seq!['"'],
        TokenKind::AtEvent(s) => s@,
        TokenKind::TagOpen(s) => seq!['<'] + s@,
        TokenKind::TagClose(s) => seq!['<', '/'] + s@ + seq!['>'],
    }
}

impl Clone for TokenKind {
    fn clone(&self) -> (r: Self)
        ensures
            r == *self,
    {
        match self {
            TokenKind::Component => TokenKind::Component,
            TokenKind::Export => TokenKind::Export,
            TokenKind::Signal => TokenKind::Signal,
            TokenKind::Computed => TokenKind::Computed,
            TokenKind::Fn => TokenKind::Fn,
            TokenKind::Render => TokenKind::Render,
            TokenKind::Extern => TokenKind::Extern,
            TokenKind::Let => TokenKind::Let,
            TokenKind::Mut => TokenKind::Mut,
            TokenKind::If => TokenKind::If,
            TokenKind::Else => TokenKind::Else,
            TokenKind::Return => TokenKind::Return,
            TokenKind::True => TokenKind::True,
            TokenKind::False => TokenKind::False,
            TokenKind::TagEnd => TokenKind::TagEnd,
            TokenKind::TagSelfClose => TokenKind::TagSelfClose,
            TokenKind::Plus => TokenKind::Plus,
            TokenKind::Minus => TokenKind::Minus,
            TokenKind::Star => TokenKind::Star,
            TokenKind::Slash => TokenKind::Slash,
            TokenKind::Percent => TokenKind::Percent,
            TokenKind::Eq => TokenKind::Eq,
            TokenKind::PlusEq => TokenKind::PlusEq,
            TokenKind::MinusEq => TokenKind::MinusEq,
            TokenKind::StarEq => TokenKind::StarEq,
            TokenKind::SlashEq => TokenKind::SlashEq,
            TokenKind::EqEq => TokenKind::EqEq,
            TokenKind::NotEq => TokenKind::NotEq,
            TokenKind::Lt => TokenKind::Lt,
            TokenKind::LtEq => TokenKind::LtEq,
            TokenKind::Gt => TokenKind::Gt,
            TokenKind::GtEq => TokenKind::GtEq,
            TokenKind::AndAnd => TokenKind::AndAnd,
            TokenKind::OrOr => TokenKind::OrOr,
            TokenKind::Not => TokenKind::Not,
            TokenKind::OpenBrace => TokenKind::OpenBrace,
            TokenKind::CloseBrace => TokenKind::CloseBrace,
            TokenKind::OpenParen => TokenKind::OpenParen,
            TokenKind::CloseParen => TokenKind::CloseParen,
            TokenKind::OpenBracket => TokenKind::OpenBracket,
            TokenKind::CloseBracket => TokenKind::CloseBracket,
            TokenKind::Colon => TokenKind::Colon,
            TokenKind::Semicolon => TokenKind::Semicolon,
            TokenKind::Comma => TokenKind::Comma,
            TokenKind::Arrow => TokenKind::Arrow,
            TokenKind::Dot => TokenKind::Dot,
            TokenKind::Eof => TokenKind::Eof,
            TokenKind::Ident(s) => TokenKind::Ident(s.clone()),
            TokenKind::IntLit(n) => TokenKind::IntLit(*n),
            TokenKind::FloatLit(s) => TokenKind::FloatLit(s.clone()),
            TokenKind::StringLit(s) => TokenKind::StringLit(s.clone()),
            TokenKind::AtEvent(s) => TokenKind::AtEvent(s.clone()),
            TokenKind::TagOpen(s) => TokenKind::TagOpen(s.clone()),
            TokenKind::TagClose(s) => TokenKind::TagClose(s.clone()),
        }
    }
}

impl TokenKind {
    /// Whether this is the end-of-input token.
    pub fn is_eof(&self) -> (b: bool)
        ensures
            b == (*self is Eof),
    {
        match self {
            TokenKind::Eof => true,
            _ => false,
        }
    }

    /// Whether `self` and `other` are the same kind with the same payload.
    pub fn same_as(&self, other: &TokenKind) -> (b: bool)
        ensures
            b == same_kind(*self, *other),
    {
        match (self, other) {
            (TokenKind::Ident(x), TokenKind::Ident(y)) => *x == *y,
            (TokenKind::IntLit(x), TokenKind::IntLit(y)) => *x == *y,
            (TokenKind::FloatLit(x), TokenKind::FloatLit(y)) => *x == *y,
            (TokenKind::StringLit(x), TokenKind::StringLit(y)) => *x == *y,
            (TokenKind::AtEvent(x), TokenKind::AtEvent(y)) => *x == *y,
            (TokenKind::TagOpen(x), TokenKind::TagOpen(y)) => *x == *y,
            (TokenKind::TagClose(x), TokenKind::TagClose(y)) => *x == *y,
            (TokenKind::Component, TokenKind::Component) => true,
            (TokenKind::Export, TokenKind::Export) => true,
            (TokenKind::Signal, TokenKind::Signal) => true,
            (TokenKind::Computed, TokenKind::Computed) => true,
            (TokenKind::Fn, TokenKind::Fn) => true,
            (TokenKind::Render, TokenKind::Render) => true,
            (TokenKind::Extern, TokenKind::Extern) => true,
            (TokenKind::Let, TokenKind::Let) => true,
            (TokenKind::Mut, TokenKind::Mut) => true,
            (TokenKind::If, TokenKind::If) => true,
            (TokenKind::Else, TokenKind::Else) => true,
            (TokenKind::Return, TokenKind::Return) => true,
            (TokenKind::True, TokenKind::True) => true,
            (TokenKind::False, TokenKind::False) => true,
            (TokenKind::TagEnd, TokenKind::TagEnd) => true,
            (TokenKind::TagSelfClose, TokenKind::TagSelfClose) => true,
            (TokenKind::Plus, TokenKind::Plus) => true,
            (TokenKind::Minus, TokenKind::Minus) => true,
            (TokenKind::Star, TokenKind::Star) => true,
            (TokenKind::Slash, TokenKind::Slash) => true,
            (TokenKind::Percent, TokenKind::Percent) => true,
            (TokenKind::Eq, TokenKind::Eq) => true,
            (TokenKind::PlusEq, TokenKind::PlusEq) => true,
            (TokenKind::MinusEq, TokenKind::MinusEq) => true,
            (TokenKind::StarEq, TokenKind::StarEq) => true,
            (TokenKind::SlashEq, TokenKind::SlashEq) => true,
            (TokenKind::EqEq, TokenKind::EqEq) => true,
            (TokenKind::NotEq, TokenKind::NotEq) => true,
            (TokenKind::Lt, TokenKind::Lt) => true,
            (TokenKind::LtEq, TokenKind::LtEq) => true,
            (TokenKind::Gt, TokenKind::Gt) => true,
            (TokenKind::GtEq, TokenKind::GtEq) => true,
            (TokenKind::AndAnd, TokenKind::AndAnd) => true,
            (TokenKind::OrOr, TokenKind::OrOr) => true,
            (TokenKind::Not, TokenKind::Not) => true,
            (TokenKind::OpenBrace, TokenKind::OpenBrace) => true,
            (TokenKind::CloseBrace, TokenKind::CloseBrace) => true,
            (TokenKind::OpenParen, TokenKind::OpenParen) => true,
            (TokenKind::CloseParen, TokenKind::CloseParen) => true,
            (TokenKind::OpenBracket, TokenKind::OpenBracket) => true,
            (TokenKind::CloseBracket, TokenKind::CloseBracket) => true,
            (TokenKind::Colon, TokenKind::Colon) => true,
            (TokenKind::Semicolon, TokenKind::Semicolon) => true,
            (TokenKind::Comma, TokenKind::Comma) => true,
            (TokenKind::Arrow, TokenKind::Arrow) => true,
            (TokenKind::Dot, TokenKind::Dot) => true,
            (TokenKind::Eof, TokenKind::Eof) => true,
            _ => false,
        }
    }

    /// The text by which this token kind is shown in messages.
    pub fn to_text(&self) -> (r: String)
        ensures
            r@ == kind_text(*self),
    {
        match self {
            TokenKind::Component => string_of("component"),
            TokenKind::Export => string_of("export"),
            TokenKind::Signal => string_of("signal"),
            TokenKind::Computed => string_of("computed"),
            TokenKind::Fn => string_of("fn"),
            TokenKind::Render => string_of("render"),
            TokenKind::Extern => string_of("extern"),
            TokenKind::Let => string_of("let"),
            TokenKind::Mut => string_of("mut"),
            TokenKind::If => string_of("if"),
            TokenKind::Else => string_of("else"),
            TokenKind::Return => string_of("return"),
            TokenKind::True => string_of("true"),
            TokenKind::False => string_of("false"),
            TokenKind::TagEnd => string_of(">"),
            TokenKind::TagSelfClose => string_of("/>"),
            TokenKind::Plus => string_of("+"),
            TokenKind::Minus => string_of("-"),
            TokenKind::Star => string_of("*"),
            TokenKind::Slash => string_of("/"),
            TokenKind::Percent => string_of("%"),
            TokenKind::Eq => string_of("="),
            TokenKind::PlusEq => string_of("+="),
            TokenKind::MinusEq => string_of("-="),
            TokenKind::StarEq => string_of("*="),
            TokenKind::SlashEq => string_of("/="),
            TokenKind::EqEq => string_of("=="),
            TokenKind::NotEq => string_of("!="),
            TokenKind::Lt => string_of("<"),
            TokenKind::LtEq => string_of("<="),
            TokenKind::Gt => string_of(">"),
            TokenKind::GtEq => string_of(">="),
            TokenKind::AndAnd => string_of("&&"),
            TokenKind::OrOr => string_of("||"),
            TokenKind::Not => string_of("!"),
            TokenKind::OpenBrace => string_of("{"),
            TokenKind::CloseBrace => string_of("}"),
            TokenKind::OpenParen => string_of("("),
            TokenKind::CloseParen => string_of(")"),
            TokenKind::OpenBracket => string_of("["),
            TokenKind::CloseBracket => string_of("]"),
            TokenKind::Colon => string_of(":"),
            TokenKind::Semicolon => string_of(";"),
            TokenKind::Comma => string_of(","),
            TokenKind::Arrow => string_of("->"),
            TokenKind::Dot => string_of("."),
            TokenKind::Eof => string_of("<EOF>"),
            TokenKind::Ident(s) => s.clone(),
            TokenKind::IntLit(n) => {
                let mut r = String::new();
                push_i64(&mut r, *n);
                assert(r@ =~= signed_decimal(*n as int));
                r
            },
            TokenKind::FloatLit(s) => s.clone(),
            TokenKind::StringLit(s) => {
                let mut r = String::new();
                push_char(&mut r, '"');
                push_str(&mut r, s.as_str());
                push_char(&mut r, '"');
                assert(r@ =~= seq!['"'] + s@ + seq!['"']);
                r
            },
            TokenKind::AtEvent(s) => s.clone(),
            TokenKind::TagOpen(s) => {
                let mut r = String::new();
                push_char(&mut r, '<');
                push_str(&mut r, s.as_str());
                assert(r@ =~= seq!['<'] + s@);
                r
            },
            TokenKind::TagClose(s) => {
                let mut r = String::new();
                push_char(&mut r, '<');
                push_char(&mut r, '/');
                push_str(&mut r, s.as_str());
                push_char(&mut r, '>');
                assert(r@ =~= seq!['<', '/'] + s@ + seq!['>']);
                r
            },
        }
    }
}

/// A token: its kind and where it stands in the source.
#[derive(Debug)]
pub struct Token {
    pub kind: TokenKind,
    pub span: Span,
}

impl View for Token {
    type V = (KindV, Span);

    open spec fn view(&self) -> (KindV, Span) {
        (self.kind@, self.span)
    }
}

/// The views of a list of tokens.
pub open spec fn tokens_view(v: Seq<Token>) -> Seq<(KindV, Span)> {
    Seq::new(v.len(), |i: int| v[i]@)
}

impl Clone for Token {
    fn clone(&self) -> (r: Self)
        ensures
            r == *self,
    {
        Token { kind: self.kind.clone(), span: self.span }
    }
}

impl Token {
    pub fn new(kind: TokenKind, span: Span) -> (t: Self)
        ensures
            t == (Token { kind, span }),
    {
        Self { kind, span }
    }
}

} // verus!
