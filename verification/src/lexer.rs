//! The scanner: a cursor over the bytes of a source that hands out tokens.

use vstd::prelude::*;
use vstd::utf8::encode_utf8;

use crate::scan::{
    byte_at, chars_of, cursor_after, cursor_after_eof, is_letter_byte, is_whitespace_byte,
    letters, run_end, structural_kind, token_at, token_kind, token_start, token_stream,
    whitespace, ASSIGN, CARRIAGE_RETURN, COMMA, FORM_FEED, LEFT_BRACE, LEFT_PAREN, LINE_FEED,
    LOWER_A, LOWER_Z, PLUS, RIGHT_BRACE, RIGHT_PAREN, SEMICOLON, SPACE, TAB, UNDERSCORE,
    UPPER_A, UPPER_Z,
};
use crate::theory::{
    lemma_run_end_delimits_run, lemma_token_advances, lemma_token_is_well_formed,
};
use crate::token::{views, Token, TokenType};

verus! {

/// Tells whether a byte may stand in an identifier.
pub fn is_letter(ch: u8) -> (letter: bool)
    ensures
        letter == is_letter_byte(ch),
{
    (LOWER_A <= ch && ch <= LOWER_Z) || (UPPER_A <= ch && ch <= UPPER_Z) || ch == UNDERSCORE
}

/// Tells whether a byte is ASCII whitespace.
pub fn is_whitespace(ch: u8) -> (blank: bool)
    ensures
        blank == is_whitespace_byte(ch),
{
    ch == SPACE || ch == TAB || ch == LINE_FEED || ch == FORM_FEED || ch == CARRIAGE_RETURN
}

/// Tells which structural token a byte stands for, if any.
pub fn structural(ch: u8) -> (kind: Option<TokenType>)
    ensures
        kind == structural_kind(ch),
{
    if ch == ASSIGN {
        Some(TokenType::Assign)
    } else if ch == SEMICOLON {
        Some(TokenType::Semicolon)
    } else if ch == LEFT_PAREN {
        Some(TokenType::LParen)
    } else if ch == RIGHT_PAREN {
        Some(TokenType::RParen)
    } else if ch == COMMA {
        Some(TokenType::Comma)
    } else if ch == PLUS {
        Some(TokenType::Plus)
    } else if ch == LEFT_BRACE {
        Some(TokenType::LBrace)
    } else if ch == RIGHT_BRACE {
        Some(TokenType::RBrace)
    } else {
        None
    }
}

/// Appends one character to a string by `String::push`. The contract says
/// what the documentation of `push` says: afterwards the string is the
/// string before with `c` at its end. Verus takes this on trust.
#[verifier::external_body]
fn push_char(text: &mut String, c: char)
    ensures
        final(text)@ == old(text)@.push(c),
{
    text.push(c);
}

/// The text of a single byte: the one character with the code of the byte.
fn byte_text(ch: u8) -> (text: String)
    ensures
        text@ == seq![ch as char],
{
    let mut text = String::new();
    push_char(&mut text, ch as char);
    text
}

/// Moves the cursor past the whitespace under it, onto the first byte of
/// the next token or to the end of the source. Past the end of the source
/// nothing is skipped.
///
/// The read position is one more than the position, so the position that
/// the call leaves must lie below `usize::MAX`.
pub fn skip_whitespace(lexer: &mut Lexer)
    requires
        old(lexer).wf(),
        token_start(old(lexer)@.source, old(lexer)@.position) < usize::MAX,
    ensures
        final(lexer).wf(),
        final(lexer)@.source == old(lexer)@.source,
        final(lexer)@.position == token_start(old(lexer)@.source, old(lexer)@.position),
{
    let ghost source = lexer@.source;
    let ghost begin = lexer@.position;
    while is_whitespace(lexer.ch)
        invariant
            lexer.wf(),
            lexer@.source == source,
            token_start(source, lexer@.position) == token_start(source, begin),
            token_start(source, begin) < usize::MAX,
        decreases lexer@.source.len() - lexer@.position,
    {
        proof {
            lemma_run_end_delimits_run(source, lexer@.position + 1, whitespace());
        }
        lexer.read_char();
    }
}

/// What a lexer is, mathematically: the bytes of its source and the index
/// of the byte under its cursor.
pub struct LexerView {
    pub source: Seq<u8>,
    pub position: int,
}

/// A cursor over a source text.
pub struct Lexer {
    input: String,
    position: usize,
    read_position: usize,
    ch: u8,
}

impl View for Lexer {
    type V = LexerView;

    closed spec fn view(&self) -> LexerView {
        LexerView { source: encode_utf8(self.input@), position: self.position as int }
    }
}

impl Lexer {
    /// The index of the byte that the next advance reads.
    pub closed spec fn read_position(&self) -> int {
        self.read_position as int
    }

    /// The byte held as current.
    pub closed spec fn current(&self) -> u8 {
        self.ch
    }

    /// The cursor invariant. The read position is one ahead of the cursor,
    /// and the current byte is the byte under the cursor, zero where the
    /// cursor is at the end of the source or past it. Both indices are
    /// machine integers.
    pub open spec fn wf(&self) -> bool {
        &&& 0 <= self@.position
        &&& self.read_position() == self@.position + 1
        &&& self.read_position() <= usize::MAX
        &&& self.current() == byte_at(self@.source, self@.position)
    }

    /// Makes a lexer over the UTF-8 bytes of `input`, with the cursor on
    /// the first of them and the read position on the second.
    pub fn new(input: String) -> (lexer: Lexer)
        ensures
            lexer.wf(),
            lexer@ == (LexerView { source: encode_utf8(input@), position: 0 }),
    {
        let mut lexer = Lexer { input, position: 0, read_position: 0, ch: 0 };
        lexer.read_char();
        lexer
    }

    /// The byte under the cursor, zero from the end of the source on.
    pub fn ch(&self) -> (ch: u8)
        ensures
            ch == self.current(),
    {
        self.ch
    }

    /// Reads the run of identifier bytes under the cursor and returns it as
    /// text, leaving the cursor on the first byte after the run. Where the
    /// byte under the cursor is not a letter, the text is empty and the
    /// cursor stays.
    ///
    /// The position that the call leaves must lie below `usize::MAX`.
    pub fn read_identifier(&mut self) -> (text: String)
        requires
            old(self).wf(),
            run_end(old(self)@.source, old(self)@.position, letters()) < usize::MAX,
        ensures
            final(self).wf(),
            final(self)@.source == old(self)@.source,
            final(self)@.position == run_end(old(self)@.source, old(self)@.position, letters()),
            text@ == if old(self)@.position < final(self)@.position {
                chars_of(old(self)@.source.subrange(old(self)@.position, final(self)@.position))
            } else {
                Seq::empty()
            },
    {
        let ghost source = self@.source;
        let ghost begin = self@.position;
        let mut text = String::new();
        while is_letter(self.ch)
            invariant
                self.wf(),
                self@.source == source,
                0 <= begin <= self@.position,
                begin < self@.position ==> self@.position <= source.len(),
                run_end(source, self@.position, letters()) == run_end(source, begin, letters()),
                run_end(source, begin, letters()) < usize::MAX,
                text@ == if begin < self@.position {
                    chars_of(source.subrange(begin, self@.position))
                } else {
                    Seq::empty()
                },
            decreases self@.source.len() - self@.position,
        {
            proof {
                lemma_run_end_delimits_run(source, self@.position + 1, letters());
            }
            push_char(&mut text, self.ch as char);
            self.read_char();
            assert(text@ =~= chars_of(source.subrange(begin, self@.position)));
        }
        text
    }

    /// Advances the cursor by one byte: the byte at the read position
    /// becomes the current byte, zero where the read position is at the end
    /// of the source or past it; the position becomes the read position,
    /// and the read position grows by one.
    ///
    /// The read position must lie below `usize::MAX`, or it could not grow.
    pub fn read_char(&mut self)
        requires
            old(self).read_position() < usize::MAX,
        ensures
            final(self).wf(),
            final(self)@.source == old(self)@.source,
            final(self)@.position == old(self).read_position(),
            final(self).read_position() == old(self).read_position() + 1,
            final(self).current() == byte_at(old(self)@.source, old(self).read_position()),
    {
        let bytes = self.input.as_str().as_bytes();
        if self.read_position >= bytes.len() {
            self.ch = 0;
        } else {
            self.ch = bytes[self.read_position];
        }
        self.position = self.read_position;
        self.read_position += 1;
    }

    /// Reads the next token: skips whitespace, classifies the byte under the
    /// cursor and moves the cursor past the token. From the end of the
    /// source on the token is `Eof`, and the cursor advances by one step.
    ///
    /// The position that the call leaves must lie below `usize::MAX`.
    pub fn next_token(&mut self) -> (token: Token)
        requires
            old(self).wf(),
            cursor_after(old(self)@.source, old(self)@.position) < usize::MAX,
        ensures
            final(self).wf(),
            final(self)@.source == old(self)@.source,
            final(self)@.position == cursor_after(old(self)@.source, old(self)@.position),
            token@ == token_at(old(self)@.source, old(self)@.position),
            token.well_formed(),
    {
        proof {
            lemma_token_advances(self@.source, self@.position);
            lemma_token_is_well_formed(self@.source, self@.position);
        }
        skip_whitespace(self);
        let token = match structural(self.ch) {
            Some(kind) => Token::new(kind, byte_text(self.ch)),
            None => {
                if self.position >= self.input.as_str().as_bytes().len() {
                    Token::new(TokenType::Eof, String::new())
                } else if is_letter(self.ch) {
                    // The identifier is read to its end: no advance follows.
                    return Token::new(TokenType::Ident, self.read_identifier());
                } else {
                    Token::new(TokenType::Illegal, byte_text(self.ch))
                }
            },
        };
        assert(token@.text =~= token_at(old(self)@.source, old(self)@.position).text);
        self.read_char();
        token
    }

    /// Reads the next token and hands it out, unless it is `Eof`: then there
    /// is nothing more to hand out.
    ///
    /// The position that the call leaves must lie below `usize::MAX`.
    pub fn next(&mut self) -> (item: Option<Token>)
        requires
            old(self).wf(),
            cursor_after(old(self)@.source, old(self)@.position) < usize::MAX,
        ensures
            final(self).wf(),
            final(self)@.source == old(self)@.source,
            final(self)@.position == cursor_after(old(self)@.source, old(self)@.position),
            item is None <==> token_kind(old(self)@.source, old(self)@.position) is Eof,
            item matches Some(token) ==> token@ == token_at(
                old(self)@.source,
                old(self)@.position,
            ) && token.well_formed(),
    {
        let token = self.next_token();
        if token.token_type == TokenType::Eof {
            None
        } else {
            Some(token)
        }
    }

    /// Reads all the tokens that are left, in order, and `Eof` after them.
    /// The `Eof` token is not handed out, and the cursor is left where the
    /// read of `Eof` left it.
    ///
    /// The position that the call leaves must lie below `usize::MAX`.
    pub fn tokens(&mut self) -> (tokens: Vec<Token>)
        requires
            old(self).wf(),
            cursor_after_eof(old(self)@.source, old(self)@.position) < usize::MAX,
        ensures
            final(self).wf(),
            final(self)@.source == old(self)@.source,
            final(self)@.position == cursor_after_eof(old(self)@.source, old(self)@.position),
            views(tokens@) == token_stream(old(self)@.source, old(self)@.position),
    {
        let ghost source = self@.source;
        let ghost begin = self@.position;
        let mut tokens: Vec<Token> = Vec::new();
        loop
            invariant_except_break
                self.wf(),
                self@.source == source,
                0 <= begin,
                cursor_after_eof(source, self@.position) == cursor_after_eof(source, begin),
                cursor_after_eof(source, begin) < usize::MAX,
                views(tokens@) + token_stream(source, self@.position) == token_stream(
                    source,
                    begin,
                ),
            ensures
                self.wf(),
                self@.source == source,
                self@.position == cursor_after_eof(source, begin),
                views(tokens@) == token_stream(source, begin),
            decreases self@.source.len() - self@.position,
        {
            proof {
                lemma_token_advances(source, self@.position);
            }
            let ghost before = tokens@;
            let ghost here = self@.position;
            match self.next() {
                None => {
                    break ;
                },
                Some(token) => {
                    tokens.push(token);
                    assert(views(tokens@) =~= views(before) + seq![token_at(source, here)]);
                },
            }
        }
        tokens
    }
}

} // verus!
