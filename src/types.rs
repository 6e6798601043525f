//! Tokens, positions and their mathematical views.
use vstd::prelude::*;

verus! {

/// A place in the source text: 1-based line and column.
#[derive(Debug, Clone, Copy, PartialEq, Eq, Structural)]
pub struct Position {
    pub line: i64,
    pub col: i64,
}

#[derive(Debug, Clone, Copy, PartialEq, Eq, Structural)]
pub enum Primitive {
    Int,
    Str,
    Double,
    Bool,
    Void,
}

#[derive(Debug, Clone, Copy, PartialEq, Eq, Structural)]
pub enum Keyword {
    Let,
    Return,
    Fn,
    In,
    Of,
    While,
    For,
    If,
    Else,
    Is,
    Impl,
    Struct,
    Interface,
    Type(Primitive),
}

#[derive(Debug, Clone, Copy, PartialEq, Eq, Structural)]
pub enum Op {
    Add,
    Sub,
    Mul,
    Div,
    Mod,
    And,
    Or,
    Not,
    Eq,
    Neq,
    Lt,
    Gt,
    Lte,
    Gte,
}

#[derive(Debug, Clone, PartialEq, Eq)]
pub enum TokenType {
    Identifier(String),
    Number(i64),
    StrLiteral(String),
    Operator(Op),
    Keyword(Keyword),
    LeftParen,
    RightParen,
    LeftBracket,
    RightBracket,
    LeftCurly,
    RightCurly,
    Semicolon,
    Colon,
    Comma,
    Dot,
    Whitespace,
    Comment,
    Newline,
    RetArrow,
}

/// What a token kind means: text payloads seen as character sequences.
pub enum TokenTypeView {
    Identifier(Seq<char>),
    Number(int),
    StrLiteral(Seq<char>),
    Operator(Op),
    Keyword(Keyword),
    LeftParen,
    RightParen,
    LeftBracket,
    RightBracket,
    LeftCurly,
    RightCurly,
    Semicolon,
    Colon,
    Comma,
    Dot,
    Whitespace,
    Comment,
    Newline,
    RetArrow,
}

impl View for TokenType {
    type V = TokenTypeView;

    open spec fn view(&self) -> TokenTypeView {
        match self {
            TokenType::Identifier(s) => TokenTypeView::Identifier(s@),
            TokenType::Number(n) => TokenTypeView::Number(*n as int),
            TokenType::StrLiteral(s) => TokenTypeView::StrLiteral(s@),
            TokenType::Operator(o) => TokenTypeView::Operator(*o),
            TokenType::Keyword(k) => TokenTypeView::Keyword(*k),
            TokenType::LeftParen => TokenTypeView::LeftParen,
            TokenType::RightParen => TokenTypeView::RightParen,
            TokenType::LeftBracket => TokenTypeView::LeftBracket,
            TokenType::RightBracket => TokenTypeView::RightBracket,
            TokenType::LeftCurly => TokenTypeView::LeftCurly,
            TokenType::RightCurly => TokenTypeView::RightCurly,
            TokenType::Semicolon => TokenTypeView::Semicolon,
            TokenType::Colon => TokenTypeView::Colon,
            TokenType::Comma => TokenTypeView::Comma,
            TokenType::Dot => TokenTypeView::Dot,
            TokenType::Whitespace => TokenTypeView::Whitespace,
            TokenType::Comment => TokenTypeView::Comment,
            TokenType::Newline => TokenTypeView::Newline,
            TokenType::RetArrow => TokenTypeView::RetArrow,
        }
    }
}

/// The kind of a token with any text or number it carries left out;
/// operators and keywords stay distinct.
#[derive(Debug, Clone, Copy, PartialEq, Eq, Structural)]
pub enum TokenTag {
    Identifier,
    Number,
    StrLiteral,
    Operator(Op),
    Keyword(Keyword),
    LeftParen,
    RightParen,
    LeftBracket,
    RightBracket,
    LeftCurly,
    RightCurly,
    Semicolon,
    Colon,
    Comma,
    Dot,
    Whitespace,
    Comment,
    Newline,
    RetArrow,
}

pub open spec fn tag_of(k: TokenTypeView) -> TokenTag {
    match k {
        TokenTypeView::Identifier(_) => TokenTag::Identifier,
        TokenTypeView::Number(_) => TokenTag::Number,
        TokenTypeView::StrLiteral(_) => TokenTag::StrLiteral,
        TokenTypeView::Operator(o) => TokenTag::Operator(o),
        TokenTypeView::Keyword(k) => TokenTag::Keyword(k),
        TokenTypeView::LeftParen => TokenTag::LeftParen,
        TokenTypeView::RightParen => TokenTag::RightParen,
        TokenTypeView::LeftBracket => TokenTag::LeftBracket,
        TokenTypeView::RightBracket => TokenTag::RightBracket,
        TokenTypeView::LeftCurly => TokenTag::LeftCurly,
        TokenTypeView::RightCurly => TokenTag::RightCurly,
        TokenTypeView::Semicolon => TokenTag::Semicolon,
        TokenTypeView::Colon => TokenTag::Colon,
        TokenTypeView::Comma => TokenTag::Comma,
        TokenTypeView::Dot => TokenTag::Dot,
        TokenTypeView::Whitespace => TokenTag::Whitespace,
        TokenTypeView::Comment => TokenTag::Comment,
        TokenTypeView::Newline => TokenTag::Newline,
        TokenTypeView::RetArrow => TokenTag::RetArrow,
    }
}

impl TokenType {
    /// A copy of this kind, text included.
    pub fn duplicate(&self) -> (r: TokenType)
        ensures
            r == *self,
    {
        match self {
            TokenType::Identifier(s) => TokenType::Identifier(s.clone()),
            TokenType::StrLiteral(s) => TokenType::StrLiteral(s.clone()),
            TokenType::Number(n) => TokenType::Number(*n),
            TokenType::Operator(o) => TokenType::Operator(*o),
            TokenType::Keyword(k) => TokenType::Keyword(*k),
            TokenType::LeftParen => TokenType::LeftParen,
            TokenType::RightParen => TokenType::RightParen,
            TokenType::LeftBracket => TokenType::LeftBracket,
            TokenType::RightBracket => TokenType::RightBracket,
            TokenType::LeftCurly => TokenType::LeftCurly,
            TokenType::RightCurly => TokenType::RightCurly,
            TokenType::Semicolon => TokenType::Semicolon,
            TokenType::Colon => TokenType::Colon,
            TokenType::Comma => TokenType::Comma,
            TokenType::Dot => TokenType::Dot,
            TokenType::Whitespace => TokenType::Whitespace,
            TokenType::Comment => TokenType::Comment,
            TokenType::Newline => TokenType::Newline,
            TokenType::RetArrow => TokenType::RetArrow,
        }
    }

    /// This kind with its payload left out.
    pub fn tag(&self) -> (r: TokenTag)
        ensures
            r == tag_of(self@),
    {
        match self {
            TokenType::Identifier(_) => TokenTag::Identifier,
            TokenType::Number(_) => TokenTag::Number,
            TokenType::StrLiteral(_) => TokenTag::StrLiteral,
            TokenType::Operator(o) => TokenTag::Operator(*o),
            TokenType::Keyword(k) => TokenTag::Keyword(*k),
            TokenType::LeftParen => TokenTag::LeftParen,
            TokenType::RightParen => TokenTag::RightParen,
            TokenType::LeftBracket => TokenTag::LeftBracket,
            TokenType::RightBracket => TokenTag::RightBracket,
            TokenType::LeftCurly => TokenTag::LeftCurly,
            TokenType::RightCurly => TokenTag::RightCurly,
            TokenType::Semicolon => TokenTag::Semicolon,
            TokenType::Colon => TokenTag::Colon,
            TokenType::Comma => TokenTag::Comma,
            TokenType::Dot => TokenTag::Dot,
            TokenType::Whitespace => TokenTag::Whitespace,
            TokenType::Comment => TokenTag::Comment,
            TokenType::Newline => TokenTag::Newline,
            TokenType::RetArrow => TokenTag::RetArrow,
        }
    }
}

#[derive(Debug, Clone, PartialEq, Eq)]
pub struct Token {
    pub token_type: TokenType,
    pub pos: Position,
}

/// A token seen mathematically: its kind and the position it carries.
pub struct TokenView {
    pub kind: TokenTypeView,
    pub line: int,
    pub col: int,
}

impl View for Token {
    type V = TokenView;

    open spec fn view(&self) -> TokenView {
        TokenView { kind: self.token_type@, line: self.pos.line as int, col: self.pos.col as int }
    }
}

impl Token {
    /// A copy of this token, text included.
    pub fn duplicate(&self) -> (r: Token)
        ensures
            r == *self,
    {
        Token { token_type: self.token_type.duplicate(), pos: self.pos }
    }

    pub fn new(pos: Position, token_type: TokenType) -> (r: Token)
        ensures
            r.pos == pos,
            r.token_type == token_type,
    {
        Token { token_type, pos }
    }
}

} // verus!
