//! The closed set of token kinds.

use vstd::prelude::*;

verus! {

/// One variant per lexical category.
#[derive(Debug, Clone, Copy, PartialEq, Eq, Hash, Structural)]
pub enum TokenType {
    Illegal,
    Eof,
    Ident,
    Int,
    Assign,
    Plus,
    Comma,
    Semicolon,
    LParen,
    RParen,
    LBrace,
    RBrace,
    Function,
    Let,
}

impl TokenType {
    /// Kinds whose tokens carry text captured from the source: identifiers,
    /// integers and illegal characters.
    pub open spec fn carries_text(self) -> bool {
        self is Ident || self is Int || self is Illegal
    }

    /// Kinds whose text is fixed by the kind alone: the operators, the
    /// delimiters and the reserved words.
    pub open spec fn has_fixed_text(self) -> bool {
        !self.carries_text() && !(self is Eof)
    }

    /// The name of the variant, as it is written in the source of this enum.
    pub open spec fn variant_name(self) -> Seq<char> {
        match self {
            TokenType::Illegal => "Illegal"@,
            TokenType::Eof => "Eof"@,
            TokenType::Ident => "Ident"@,
            TokenType::Int => "Int"@,
            TokenType::Assign => "Assign"@,
            TokenType::Plus => "Plus"@,
            TokenType::Comma => "Comma"@,
            TokenType::Semicolon => "Semicolon"@,
            TokenType::LParen => "LParen"@,
            TokenType::RParen => "RParen"@,
            TokenType::LBrace => "LBrace"@,
            TokenType::RBrace => "RBrace"@,
            TokenType::Function => "Function"@,
            TokenType::Let => "Let"@,
        }
    }

    /// The display text of a kind. For the kinds with fixed text this is the
    /// text of every token of the kind; for the others it is a label.
    pub open spec fn canonical_text(self) -> Seq<char> {
        match self {
            TokenType::Illegal => "ILLEGAL"@,
            TokenType::Eof => "EndOfFile"@,
            TokenType::Ident => "IDENT"@,
            TokenType::Int => "INT"@,
            TokenType::Assign => "="@,
            TokenType::Plus => "+"@,
            TokenType::Comma => ","@,
            TokenType::Semicolon => ";"@,
            TokenType::LParen => "("@,
            TokenType::RParen => ")"@,
            TokenType::LBrace => "{"@,
            TokenType::RBrace => "}"@,
            TokenType::Function => "FUNCTION"@,
            TokenType::Let => "LET"@,
        }
    }

    /// Returns the display text of the kind.
    pub fn as_str(&self) -> (text: &'static str)
        ensures
            text@ == self.canonical_text(),
    {
        match self {
            TokenType::Illegal => "ILLEGAL",
            TokenType::Eof => "EndOfFile",
            TokenType::Ident => "IDENT",
            TokenType::Int => "INT",
            TokenType::Assign => "=",
            TokenType::Plus => "+",
            TokenType::Comma => ",",
            TokenType::Semicolon => ";",
            TokenType::LParen => "(",
            TokenType::RParen => ")",
            TokenType::LBrace => "{",
            TokenType::RBrace => "}",
            TokenType::Function => "FUNCTION",
            TokenType::Let => "LET",
        }
    }

    /// Returns the name of the variant.
    pub fn name(&self) -> (text: &'static str)
        ensures
            text@ == self.variant_name(),
    {
        match self {
            TokenType::Illegal => "Illegal",
            TokenType::Eof => "Eof",
            TokenType::Ident => "Ident",
            TokenType::Int => "Int",
            TokenType::Assign => "Assign",
            TokenType::Plus => "Plus",
            TokenType::Comma => "Comma",
            TokenType::Semicolon => "Semicolon",
            TokenType::LParen => "LParen",
            TokenType::RParen => "RParen",
            TokenType::LBrace => "LBrace",
            TokenType::RBrace => "RBrace",
            TokenType::Function => "Function",
            TokenType::Let => "Let",
        }
    }
}

} // verus!
