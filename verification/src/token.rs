//! Tokens, their classification, and the lexical error type.
//!
//! Executable tokens carry `String` payloads; their mathematical views
//! (`SpecToken`, `SpecTokenKind`) speak of `Seq<char>` instead, so that
//! contracts can be stated over the character sequence of the source.

use vstd::prelude::*;

verus! {

/// The classification of one lexeme.
///
/// A numeric literal that contains a decimal point (or does not fit the
/// unsigned 32-bit integer parse) is kept as its raw text in `Float`;
/// interpreting that text as a floating-point value is left to the caller.
#[derive(Debug, Clone, PartialEq)]
pub enum TokenKind {
    LParen,
    RParen,
    LBrace,
    RBrace,
    LBracket,
    RBracket,
    Colon,
    Semicolon,
    Comma,
    Operator(char),
    Def,
    Ident(String),
    Int(u32),
    Float(String),
    Str(String),
}

/// One classified lexeme together with the 1-based source line on which it
/// began.
#[derive(Debug, Clone, PartialEq)]
pub struct Token {
    pub kind: TokenKind,
    pub line: usize,
}

/// The mathematical counterpart of `TokenKind`, over `Seq<char>`.
pub ghost enum SpecTokenKind {
    LParen,
    RParen,
    LBrace,
    RBrace,
    LBracket,
    RBracket,
    Colon,
    Semicolon,
    Comma,
    Operator(char),
    Def,
    Ident(Seq<char>),
    Int(u32),
    Float(Seq<char>),
    Str(Seq<char>),
}

/// The mathematical counterpart of `Token`.
pub ghost struct SpecToken {
    pub kind: SpecTokenKind,
    pub line: nat,
}

impl View for TokenKind {
    type V = SpecTokenKind;

    open spec fn view(&self) -> SpecTokenKind {
        match self {
            TokenKind::LParen => SpecTokenKind::LParen,
            TokenKind::RParen => SpecTokenKind::RParen,
            TokenKind::LBrace => SpecTokenKind::LBrace,
            TokenKind::RBrace => SpecTokenKind::RBrace,
            TokenKind::LBracket => SpecTokenKind::LBracket,
            TokenKind::RBracket => SpecTokenKind::RBracket,
            TokenKind::Colon => SpecTokenKind::Colon,
            TokenKind::Semicolon => SpecTokenKind::Semicolon,
            TokenKind::Comma => SpecTokenKind::Comma,
            TokenKind::Operator(c) => SpecTokenKind::Operator(*c),
            TokenKind::Def => SpecTokenKind::Def,
            TokenKind::Ident(s) => SpecTokenKind::Ident(s@),
            TokenKind::Int(n) => SpecTokenKind::Int(*n),
            TokenKind::Float(s) => SpecTokenKind::Float(s@),
            TokenKind::Str(s) => SpecTokenKind::Str(s@),
        }
    }
}

impl View for Token {
    type V = SpecToken;

    open spec fn view(&self) -> SpecToken {
        SpecToken { kind: self.kind@, line: self.line as nat }
    }
}

/// The views of a sequence of tokens, in order.
pub open spec fn views(ts: Seq<Token>) -> Seq<SpecToken> {
    ts.map_values(|t: Token| t@)
}

pub proof fn lemma_views_push(ts: Seq<Token>, t: Token)
    ensures
        views(ts.push(t)) == views(ts).push(t@),
{
    assert(views(ts.push(t)) =~= views(ts).push(t@));
}

/// The two lexical error kinds, both of which abort the scan.
#[derive(Debug, Clone, Copy, PartialEq, Eq, Structural)]
pub enum LexErrorKind {
    /// A string literal contained a raw line break before its closing quote.
    IllegalNewlineInString,
    /// The input ended before the closing quote of a string literal.
    UnterminatedString,
}

/// A lexical error: its kind, the advisory file label the scanner was
/// constructed with, and the 1-based line on which the offending lexeme
/// began.
#[derive(Debug, Clone, PartialEq)]
pub struct LexError {
    pub kind: LexErrorKind,
    pub file: String,
    pub line: usize,
}

/// The mathematical counterpart of `LexError`, without the file label
/// (the label never influences scanning).
pub ghost struct SpecLexError {
    pub kind: LexErrorKind,
    pub line: nat,
}

impl LexError {
    /// The fixed user-facing message of this error kind.
    pub fn message(&self) -> (r: &'static str)
        ensures
            self.kind is UnterminatedString ==> r@ == "Unterminated string"@,
            self.kind is IllegalNewlineInString ==> r@ == "Illegal newline in string"@,
    {
        match self.kind {
            LexErrorKind::UnterminatedString => "Unterminated string",
            LexErrorKind::IllegalNewlineInString => "Illegal newline in string",
        }
    }

    /// A fixed hint, present only for the newline-in-string error.
    pub fn hint(&self) -> (r: Option<&'static str>)
        ensures
            self.kind is IllegalNewlineInString ==> r is Some && r->0@ == "use \\n instead"@,
            self.kind is UnterminatedString ==> r is None,
    {
        match self.kind {
            LexErrorKind::IllegalNewlineInString => Some("use \\n instead"),
            LexErrorKind::UnterminatedString => None,
        }
    }
}

} // verus!
