//! Lexical tokens.
use vstd::prelude::*;

verus! {

/// What a token is, as a mathematical value.
pub enum TokenKind {
    Comment(Seq<char>),
    Identifier(Seq<char>),
    Str(Seq<char>),
    Number(int),
    Plus,
    Minus,
    Star,
    Slash,
    Equals,
    Comma,
    OpenParen,
    CloseParen,
    OpenCurly,
    CloseCurly,
    Semi,
}

#[derive(Debug, Clone)]
pub enum TokenTypes {
    Comment { value: String },
    Identifier { value: String },
    String { value: String },
    Number { value: i64 },
    Plus,
    Minus,
    Star,
    Slash,
    Equals,
    Comma,
    OpenParen,
    CloseParen,
    OpenCurly,
    CloseCurly,
    Semi,
}

impl View for TokenTypes {
    type V = TokenKind;

    open spec fn view(&self) -> TokenKind {
        match self {
            TokenTypes::Comment { value } => TokenKind::Comment(value@),
            TokenTypes::Identifier { value } => TokenKind::Identifier(value@),
            TokenTypes::String { value } => TokenKind::Str(value@),
            TokenTypes::Number { value } => TokenKind::Number(*value as int),
            TokenTypes::Plus => TokenKind::Plus,
            TokenTypes::Minus => TokenKind::Minus,
            TokenTypes::Star => TokenKind::Star,
            TokenTypes::Slash => TokenKind::Slash,
            TokenTypes::Equals => TokenKind::Equals,
            TokenTypes::Comma => TokenKind::Comma,
            TokenTypes::OpenParen => TokenKind::OpenParen,
            TokenTypes::CloseParen => TokenKind::CloseParen,
            TokenTypes::OpenCurly => TokenKind::OpenCurly,
            TokenTypes::CloseCurly => TokenKind::CloseCurly,
            TokenTypes::Semi => TokenKind::Semi,
        }
    }
}

impl TokenTypes {
    pub fn is_identifier(&self) -> (r: bool)
        ensures
            r == self@ is Identifier,
    {
        match self {
            TokenTypes::Identifier { .. } => true,
            _ => false,
        }
    }

    /// A copy of this token type.
    pub fn duplicate(&self) -> (r: TokenTypes)
        ensures
            r@ == self@,
    {
        match self {
            TokenTypes::Comment { value } => TokenTypes::Comment { value: value.clone() },
            TokenTypes::Identifier { value } => TokenTypes::Identifier { value: value.clone() },
            TokenTypes::String { value } => TokenTypes::String { value: value.clone() },
            TokenTypes::Number { value } => TokenTypes::Number { value: *value },
            TokenTypes::Plus => TokenTypes::Plus,
            TokenTypes::Minus => TokenTypes::Minus,
            TokenTypes::Star => TokenTypes::Star,
            TokenTypes::Slash => TokenTypes::Slash,
            TokenTypes::Equals => TokenTypes::Equals,
            TokenTypes::Comma => TokenTypes::Comma,
            TokenTypes::OpenParen => TokenTypes::OpenParen,
            TokenTypes::CloseParen => TokenTypes::CloseParen,
            TokenTypes::OpenCurly => TokenTypes::OpenCurly,
            TokenTypes::CloseCurly => TokenTypes::CloseCurly,
            TokenTypes::Semi => TokenTypes::Semi,
        }
    }
}

/// A token as a mathematical value: its kind, line, column span and the
/// text of its line.
pub struct TokenView {
    pub kind: TokenKind,
    pub start: nat,
    pub end: nat,
    pub line: nat,
    pub line_contents: Seq<char>,
}

/// One lexical unit with the place it came from.
#[derive(Debug, Clone)]
pub struct Token {
    pub token_type: TokenTypes,
    pub start: usize,
    pub end: usize,
    pub line: usize,
    pub line_contents: String,
}

impl View for Token {
    type V = TokenView;

    open spec fn view(&self) -> TokenView {
        TokenView {
            kind: self.token_type@,
            start: self.start as nat,
            end: self.end as nat,
            line: self.line as nat,
            line_contents: self.line_contents@,
        }
    }
}

impl Token {
    /// A copy of this token.
    pub fn duplicate(&self) -> (r: Token)
        ensures
            r@ == self@,
    {
        Token {
            token_type: self.token_type.duplicate(),
            start: self.start,
            end: self.end,
            line: self.line,
            line_contents: self.line_contents.clone(),
        }
    }
}

/// The kinds of a sequence of tokens.
pub open spec fn kinds(ts: Seq<Token>) -> Seq<TokenKind> {
    ts.map_values(|t: Token| t.token_type@)
}

} // verus!
