//! Tokens: a kind paired with the text it was read from.

use vstd::prelude::*;
use vstd::std_specs::cmp::PartialEqSpecImpl;

pub mod token_type;

pub use token_type::TokenType;

verus! {

/// What a token is, mathematically: its kind and the characters of its text.
pub struct TokenView {
    pub kind: TokenType,
    pub text: Seq<char>,
}

impl TokenView {
    /// The invariant that ties text to kind: a token of a kind with fixed
    /// text holds exactly that text.
    pub open spec fn well_formed(self) -> bool {
        self.kind.has_fixed_text() ==> self.text == self.kind.canonical_text()
    }
}

/// A classified piece of source text.
#[derive(Debug, Eq)]
pub struct Token {
    pub token_type: TokenType,
    pub literal: String,
}

impl View for Token {
    type V = TokenView;

    open spec fn view(&self) -> TokenView {
        TokenView { kind: self.token_type, text: self.literal@ }
    }
}

impl Clone for Token {
    fn clone(&self) -> (copy: Token)
        ensures
            copy == *self,
    {
        Token { token_type: self.token_type, literal: self.literal.clone() }
    }
}

impl PartialEq for Token {
    fn eq(&self, other: &Token) -> (equal: bool) {
        self.token_type == other.token_type && self.literal == other.literal
    }
}

impl PartialEqSpecImpl for Token {
    open spec fn obeys_eq_spec() -> bool {
        true
    }

    open spec fn eq_spec(&self, other: &Token) -> bool {
        self.token_type == other.token_type && self.literal@ == other.literal@
    }
}

impl Token {
    /// Pairs a kind with a text. Nothing is checked: the caller gives a kind
    /// with fixed text its canonical text, and any other kind the text read.
    pub fn new(token_type: TokenType, literal: String) -> (token: Token)
        ensures
            token.token_type == token_type,
            token.literal == literal,
    {
        Token { token_type, literal }
    }

    /// The invariant of tokens, on the token itself.
    pub open spec fn well_formed(&self) -> bool {
        self@.well_formed()
    }

    /// The text shown for the token: the captured text where the kind
    /// carries text, the display text of the kind otherwise.
    pub open spec fn display_text(&self) -> Seq<char> {
        if self.token_type.carries_text() {
            self.literal@
        } else {
            self.token_type.canonical_text()
        }
    }

    /// The display form of the token: `Token(<variant name>, '<text>')`.
    pub open spec fn display(&self) -> Seq<char> {
        "Token("@ + self.token_type.variant_name() + ", '"@ + self.display_text() + "')"@
    }

    /// Renders the token in its display form.
    pub fn to_string(&self) -> (shown: String)
        ensures
            shown@ == self.display(),
    {
        let mut shown = String::from_str("Token(");
        shown.append(self.token_type.name());
        shown.append(", '");
        match self.token_type {
            TokenType::Ident | TokenType::Int | TokenType::Illegal => {
                shown.append(self.literal.as_str());
            },
            _ => {
                shown.append(self.token_type.as_str());
            },
        }
        shown.append("')");
        shown
    }
}

/// The views of a sequence of tokens.
pub open spec fn views(tokens: Seq<Token>) -> Seq<TokenView> {
    tokens.map_values(|token: Token| token@)
}

} // verus!
