//! The lexical grammar as mathematics: byte classes, runs of bytes, and the
//! token that starts at a position of a source.
//!
//! Everything here is a specification over `Seq<u8>`. The executable lexer
//! is proved to compute these functions.

use vstd::prelude::*;

use crate::theory::lemma_token_advances;
use crate::token::{TokenType, TokenView};

verus! {

/// `\t`
pub const TAB: u8 = 0x09;

/// `\n`
pub const LINE_FEED: u8 = 0x0A;

/// `\x0C`
pub const FORM_FEED: u8 = 0x0C;

/// `\r`
pub const CARRIAGE_RETURN: u8 = 0x0D;

/// ` `
pub const SPACE: u8 = 0x20;

/// `(`
pub const LEFT_PAREN: u8 = 0x28;

/// `)`
pub const RIGHT_PAREN: u8 = 0x29;

/// `+`
pub const PLUS: u8 = 0x2B;

/// `,`
pub const COMMA: u8 = 0x2C;

/// `;`
pub const SEMICOLON: u8 = 0x3B;

/// `=`
pub const ASSIGN: u8 = 0x3D;

/// `A`
pub const UPPER_A: u8 = 0x41;

/// `Z`
pub const UPPER_Z: u8 = 0x5A;

/// `_`
pub const UNDERSCORE: u8 = 0x5F;

/// `a`
pub const LOWER_A: u8 = 0x61;

/// `z`
pub const LOWER_Z: u8 = 0x7A;

/// `{`
pub const LEFT_BRACE: u8 = 0x7B;

/// `}`
pub const RIGHT_BRACE: u8 = 0x7D;

/// An ASCII letter or an underscore: the bytes an identifier is made of.
pub open spec fn is_letter_byte(b: u8) -> bool {
    (LOWER_A <= b && b <= LOWER_Z) || (UPPER_A <= b && b <= UPPER_Z) || b == UNDERSCORE
}

/// ASCII whitespace: space, tab, line feed, form feed, carriage return.
pub open spec fn is_whitespace_byte(b: u8) -> bool {
    b == SPACE || b == TAB || b == LINE_FEED || b == FORM_FEED || b == CARRIAGE_RETURN
}

/// The kind named by a structural byte, for the eight bytes that are one.
pub open spec fn structural_kind(b: u8) -> Option<TokenType> {
    if b == ASSIGN {
        Some(TokenType::Assign)
    } else if b == SEMICOLON {
        Some(TokenType::Semicolon)
    } else if b == LEFT_PAREN {
        Some(TokenType::LParen)
    } else if b == RIGHT_PAREN {
        Some(TokenType::RParen)
    } else if b == COMMA {
        Some(TokenType::Comma)
    } else if b == PLUS {
        Some(TokenType::Plus)
    } else if b == LEFT_BRACE {
        Some(TokenType::LBrace)
    } else if b == RIGHT_BRACE {
        Some(TokenType::RBrace)
    } else {
        None
    }
}

/// The byte at index `i`, or zero where `i` is past the end.
pub open spec fn byte_at(source: Seq<u8>, i: int) -> u8 {
    if 0 <= i < source.len() {
        source[i]
    } else {
        0
    }
}

/// The class of whitespace bytes.
pub open spec fn whitespace() -> spec_fn(u8) -> bool {
    |b: u8| is_whitespace_byte(b)
}

/// The class of identifier bytes.
pub open spec fn letters() -> spec_fn(u8) -> bool {
    |b: u8| is_letter_byte(b)
}

/// Where the longest run of bytes of one class that begins at `i` ends:
/// the first index from `i` on whose byte is outside the class, or the
/// length of the source if there is none.
pub open spec fn run_end(source: Seq<u8>, i: int, class: spec_fn(u8) -> bool) -> int
    decreases source.len() - i,
{
    if 0 <= i < source.len() && class(source[i]) {
        run_end(source, i + 1, class)
    } else {
        i
    }
}

/// Each byte read as the character with the same code.
pub open spec fn chars_of(bytes: Seq<u8>) -> Seq<char> {
    Seq::new(bytes.len(), |k: int| bytes[k] as char)
}

/// Where the token read from position `i` begins: past the whitespace.
/// From the end of the source on this is `i` itself.
pub open spec fn token_start(source: Seq<u8>, i: int) -> int {
    run_end(source, i, whitespace())
}

/// Where the bytes of the token read from position `i` end. An identifier
/// ends with its run of letters and every other token after its one byte;
/// `Eof` has no bytes, and ends where it starts.
pub open spec fn token_end(source: Seq<u8>, i: int) -> int {
    let start = token_start(source, i);
    if start >= source.len() {
        start
    } else if is_letter_byte(source[start]) {
        run_end(source, start, letters())
    } else {
        start + 1
    }
}

/// The kind of the token read from position `i`.
pub open spec fn token_kind(source: Seq<u8>, i: int) -> TokenType {
    let start = token_start(source, i);
    if start >= source.len() {
        TokenType::Eof
    } else if let Some(kind) = structural_kind(source[start]) {
        kind
    } else if is_letter_byte(source[start]) {
        TokenType::Ident
    } else {
        TokenType::Illegal
    }
}

/// The token read from position `i`: its kind, and as text the bytes from
/// its start to its end. The text of `Eof` is empty.
pub open spec fn token_at(source: Seq<u8>, i: int) -> TokenView {
    TokenView {
        kind: token_kind(source, i),
        text: if token_kind(source, i) is Eof {
            Seq::empty()
        } else {
            chars_of(source.subrange(token_start(source, i), token_end(source, i)))
        },
    }
}

/// Where the cursor stands after the token at position `i` has been read:
/// at the end of the token, and for `Eof` one step after its start, since a
/// read of `Eof` advances once like any read of a single byte.
pub open spec fn cursor_after(source: Seq<u8>, i: int) -> int {
    if token_kind(source, i) is Eof {
        token_start(source, i) + 1
    } else {
        token_end(source, i)
    }
}

/// The position reached from `i` by reading `n` tokens one after another.
pub open spec fn position_after(source: Seq<u8>, i: int, n: nat) -> int
    decreases n,
{
    if n == 0 {
        i
    } else {
        cursor_after(source, position_after(source, i, (n - 1) as nat))
    }
}

/// Where the cursor stands once `Eof` has been read for the first time,
/// reading from position `i`: one step past the end of the source, or one
/// step past `i` where `i` is past the end already.
pub open spec fn cursor_after_eof(source: Seq<u8>, i: int) -> int {
    if i <= source.len() {
        source.len() as int + 1
    } else {
        i + 1
    }
}

/// The tokens read from position `i` on, up to the end of the source. The
/// `Eof` token that ends them is not among them.
pub open spec fn token_stream(source: Seq<u8>, i: int) -> Seq<TokenView>
    decreases source.len() - i,
    when 0 <= i
    via token_stream_decreases
{
    if token_kind(source, i) is Eof {
        Seq::empty()
    } else {
        seq![token_at(source, i)] + token_stream(source, token_end(source, i))
    }
}

#[via_fn]
proof fn token_stream_decreases(source: Seq<u8>, i: int) {
    lemma_token_advances(source, i);
}

} // verus!
