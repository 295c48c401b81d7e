//! What holds of the grammar: facts about runs, and the laws of tokens that
//! follow from them.

use vstd::prelude::*;
use vstd::utf8::{encode_utf8, is_ascii_chars, is_ascii_chars_encode_utf8};

use crate::scan::{
    chars_of, cursor_after, cursor_after_eof, is_letter_byte, is_whitespace_byte, letters,
    position_after, run_end, structural_kind, token_at, token_end, token_kind, token_start,
    token_stream, whitespace,
};
use crate::token::{TokenType, TokenView};

verus! {

/// `run_end` delimits a run: it lies between `i` and the end of the source,
/// every byte from `i` up to it is in the class, and the byte at it, if
/// there is one, is not.
pub proof fn lemma_run_end_delimits_run(source: Seq<u8>, i: int, class: spec_fn(u8) -> bool)
    requires
        0 <= i <= source.len(),
    ensures
        i <= run_end(source, i, class) <= source.len(),
        forall|k: int| i <= k < run_end(source, i, class) ==> class(#[trigger] source[k]),
        run_end(source, i, class) < source.len() ==> !class(source[run_end(source, i, class)]),
    decreases source.len() - i,
{
    if i < source.len() && class(source[i]) {
        lemma_run_end_delimits_run(source, i + 1, class);
    }
}

/// A run has only one end: an index that delimits the run from `i` is
/// `run_end`.
pub proof fn lemma_run_end_is_unique(
    source: Seq<u8>,
    i: int,
    end: int,
    class: spec_fn(u8) -> bool,
)
    requires
        0 <= i <= end <= source.len(),
        forall|k: int| i <= k < end ==> class(#[trigger] source[k]),
        end < source.len() ==> !class(source[end]),
    ensures
        run_end(source, i, class) == end,
    decreases end - i,
{
    if i < end {
        assert(class(source[i]));
        lemma_run_end_is_unique(source, i + 1, end, class);
    }
}

/// Reading a token never moves the cursor back. A token other than `Eof`
/// lies inside the source and has at least one byte, and the cursor is
/// left at its end. `Eof` is read where nothing but whitespace is left: it
/// starts at the end of the source, or at `i` where that is past the end,
/// has no bytes, and the cursor is left one step after its start.
pub proof fn lemma_token_advances(source: Seq<u8>, i: int)
    requires
        0 <= i,
    ensures
        i <= token_start(source, i) <= token_end(source, i) <= cursor_after(source, i),
        cursor_after(source, i) <= cursor_after_eof(source, i),
        !(token_kind(source, i) is Eof) ==> {
            &&& token_start(source, i) < token_end(source, i) <= source.len()
            &&& cursor_after(source, i) == token_end(source, i)
        },
        token_kind(source, i) is Eof ==> {
            &&& token_start(source, i) == if i <= source.len() {
                source.len() as int
            } else {
                i
            }
            &&& token_end(source, i) == token_start(source, i)
            &&& cursor_after(source, i) == cursor_after_eof(source, i)
        },
{
    if i <= source.len() {
        lemma_run_end_delimits_run(source, i, whitespace());
        let start = token_start(source, i);
        if start < source.len() {
            lemma_run_end_delimits_run(source, start, letters());
            if is_letter_byte(source[start]) {
                lemma_run_end_delimits_run(source, start + 1, letters());
            }
        }
    }
}

/// Every token read from a source keeps the invariant of tokens: where its
/// kind has a fixed text, that is its text.
pub proof fn lemma_token_is_well_formed(source: Seq<u8>, i: int)
    requires
        0 <= i,
    ensures
        token_at(source, i).well_formed(),
{
    lemma_token_advances(source, i);
    let start = token_start(source, i);
    if start < source.len() && structural_kind(source[start]) is Some {
        reveal_strlit("=");
        reveal_strlit(";");
        reveal_strlit("(");
        reveal_strlit(")");
        reveal_strlit(",");
        reveal_strlit("+");
        reveal_strlit("{");
        reveal_strlit("}");
        assert(token_at(source, i).text =~= seq![source[start] as char]);
        assert(token_at(source, i).text =~= token_kind(source, i).canonical_text());
    }
}

/// The end of the source is final. Once a read gives `Eof`, however many
/// reads follow, each gives `Eof` with empty text again; the cursor, which
/// is at or past the end of the source by then, moves on by one step with
/// each of them.
pub proof fn lemma_eof_repeats(source: Seq<u8>, i: int, n: nat)
    requires
        0 <= i,
        token_kind(source, i) is Eof,
    ensures
        token_at(source, i) == (TokenView { kind: TokenType::Eof, text: Seq::empty() }),
        token_at(source, position_after(source, i, n)) == token_at(source, i),
        n > 0 ==> position_after(source, i, n) == token_start(source, i) + n,
        n > 0 ==> position_after(source, i, n) > source.len(),
    decreases n,
{
    lemma_token_advances(source, i);
    if n > 0 {
        let m = (n - 1) as nat;
        lemma_eof_repeats(source, i, m);
        lemma_token_advances(source, position_after(source, i, m));
        lemma_token_advances(source, position_after(source, i, n));
    }
}

/// Reading `n + 1` tokens from `i` is reading one token and then `n` more.
pub proof fn lemma_position_after_first(source: Seq<u8>, i: int, n: nat)
    ensures
        position_after(source, i, n + 1) == position_after(source, cursor_after(source, i), n),
    decreases n,
{
    assert(position_after(source, i, n + 1) == cursor_after(source, position_after(source, i, n)));
    if n > 0 {
        lemma_position_after_first(source, i, (n - 1) as nat);
    } else {
        assert(position_after(source, i, 0) == i);
    }
}

/// Reading token after token ends. From any position, `Eof` is read after
/// finitely many tokens, at most one for each byte that is left; the
/// tokens read before it are those of `token_stream`, in order.
pub proof fn lemma_reads_reach_eof(source: Seq<u8>, i: int)
    requires
        0 <= i,
    ensures
        token_stream(source, i).len() <= if i <= source.len() {
            source.len() - i
        } else {
            0
        },
        forall|n: nat|
            n < token_stream(source, i).len() ==> {
                &&& !(token_kind(source, #[trigger] position_after(source, i, n)) is Eof)
                &&& token_stream(source, i)[n as int] == token_at(
                    source,
                    position_after(source, i, n),
                )
            },
        token_kind(source, position_after(source, i, token_stream(source, i).len())) is Eof,
    decreases source.len() - i,
{
    lemma_token_advances(source, i);
    if !(token_kind(source, i) is Eof) {
        let next = token_end(source, i);
        let rest = token_stream(source, next);
        lemma_reads_reach_eof(source, next);
        assert forall|n: nat| n < token_stream(source, i).len() implies {
            &&& !(token_kind(source, #[trigger] position_after(source, i, n)) is Eof)
            &&& token_stream(source, i)[n as int] == token_at(source, position_after(source, i, n))
        } by {
            if n > 0 {
                let m = (n - 1) as nat;
                lemma_position_after_first(source, i, m);
                assert(position_after(source, i, n) == position_after(source, next, m));
            }
        }
        lemma_position_after_first(source, i, rest.len());
    }
}

/// Maximal munch. Where a run of letters with nothing but whitespace before
/// it lies under the cursor, the token read is an identifier whose text is
/// the whole run, up to the first byte that is no letter or to the end of
/// the source, and the cursor is left at the end of the run.
pub proof fn lemma_identifier_is_whole_run(source: Seq<u8>, i: int, start: int, end: int)
    requires
        0 <= i <= start < end <= source.len(),
        forall|k: int| i <= k < start ==> is_whitespace_byte(#[trigger] source[k]),
        forall|k: int| start <= k < end ==> is_letter_byte(#[trigger] source[k]),
        end < source.len() ==> !is_letter_byte(source[end]),
    ensures
        token_at(source, i) == (TokenView {
            kind: TokenType::Ident,
            text: chars_of(source.subrange(start, end)),
        }),
        token_start(source, i) == start,
        token_end(source, i) == end,
        cursor_after(source, i) == end,
{
    assert(is_letter_byte(source[start]));
    lemma_run_end_is_unique(source, i, start, whitespace());
    lemma_run_end_is_unique(source, start, end, letters());
}

/// The other direction of maximal munch: the text of an identifier token is
/// a run of letters that cannot be extended to the right.
pub proof fn lemma_identifier_cannot_be_extended(source: Seq<u8>, i: int)
    requires
        0 <= i <= source.len(),
        token_kind(source, i) is Ident,
    ensures
        token_start(source, i) < token_end(source, i) <= source.len(),
        token_at(source, i).text == chars_of(
            source.subrange(token_start(source, i), token_end(source, i)),
        ),
        forall|k: int|
            token_start(source, i) <= k < token_end(source, i) ==> is_letter_byte(
                #[trigger] source[k],
            ),
        token_end(source, i) < source.len() ==> !is_letter_byte(source[token_end(source, i)]),
{
    lemma_token_advances(source, i);
    lemma_run_end_delimits_run(source, token_start(source, i), letters());
}

/// No run is split or swallowed. A run of letters that can be extended on
/// neither side is read as one identifier wherever scanning starts at or
/// before it: one of the tokens of the stream begins at the run, and it is
/// the identifier with the run as text.
pub proof fn lemma_every_run_is_a_token(source: Seq<u8>, i: int, start: int, end: int)
    requires
        0 <= i <= start < end <= source.len(),
        forall|k: int| start <= k < end ==> is_letter_byte(#[trigger] source[k]),
        end < source.len() ==> !is_letter_byte(source[end]),
        i < start ==> !is_letter_byte(source[start - 1]),
    ensures
        exists|n: nat|
            {
                &&& n < token_stream(source, i).len()
                &&& token_start(source, #[trigger] position_after(source, i, n)) == start
                &&& token_stream(source, i)[n as int] == (TokenView {
                    kind: TokenType::Ident,
                    text: chars_of(source.subrange(start, end)),
                })
            },
    decreases start - i,
{
    lemma_token_advances(source, i);
    lemma_run_end_delimits_run(source, i, whitespace());
    let first = token_start(source, i);
    assert(is_letter_byte(source[start]));
    assert(first <= start) by {
        if first > start {
            assert(is_whitespace_byte(source[start]));
        }
    }
    if first == start {
        lemma_identifier_is_whole_run(source, i, start, end);
        assert(position_after(source, i, 0) == i);
    } else {
        let next = token_end(source, i);
        assert(next <= start) by {
            if is_letter_byte(source[first]) {
                lemma_run_end_delimits_run(source, first, letters());
                if next > start {
                    assert(is_letter_byte(source[start - 1]));
                }
            }
        }
        lemma_every_run_is_a_token(source, next, start, end);
        let m = choose|m: nat|
            {
                &&& m < token_stream(source, next).len()
                &&& token_start(source, #[trigger] position_after(source, next, m)) == start
                &&& token_stream(source, next)[m as int] == (TokenView {
                    kind: TokenType::Ident,
                    text: chars_of(source.subrange(start, end)),
                })
            };
        lemma_position_after_first(source, i, m);
        assert(position_after(source, i, m + 1) == position_after(source, next, m));
        assert(token_stream(source, i)[(m + 1) as int] == token_stream(source, next)[m as int]);
    }
}

/// A source that is one structural byte and nothing else holds one token:
/// the token of the kind that the byte stands for, with the byte as text,
/// and `Eof` after it.
pub proof fn lemma_structural_byte_alone(b: u8)
    requires
        structural_kind(b) is Some,
    ensures
        token_at(seq![b], 0) == (TokenView {
            kind: structural_kind(b).unwrap(),
            text: seq![b as char],
        }),
        cursor_after(seq![b], 0) == 1,
        token_kind(seq![b], 1) is Eof,
        token_stream(seq![b], 0) == seq![token_at(seq![b], 0)],
{
    let source = seq![b];
    reveal_with_fuel(run_end, 2);
    assert(token_at(source, 0).text =~= seq![b as char]);
    assert(token_stream(source, 1) =~= Seq::<TokenView>::empty());
    assert(token_stream(source, 0) =~= seq![token_at(source, 0)]);
}

/// A byte that is neither whitespace nor a letter nor structural is read as
/// an `Illegal` token whose text is that one byte, and only that byte is
/// consumed.
pub proof fn lemma_other_byte_is_illegal(source: Seq<u8>, i: int)
    requires
        0 <= i < source.len(),
        !is_whitespace_byte(source[i]),
        !is_letter_byte(source[i]),
        structural_kind(source[i]) is None,
    ensures
        token_at(source, i) == (TokenView {
            kind: TokenType::Illegal,
            text: seq![source[i] as char],
        }),
        token_end(source, i) == i + 1,
        cursor_after(source, i) == i + 1,
{
    assert(token_at(source, i).text =~= seq![source[i] as char]);
}

/// Whitespace makes no token of its own: with a whitespace byte under the
/// cursor, what is read is what would be read from the byte after it.
pub proof fn lemma_whitespace_is_skipped(source: Seq<u8>, i: int)
    requires
        0 <= i < source.len(),
        is_whitespace_byte(source[i]),
    ensures
        token_at(source, i) == token_at(source, i + 1),
        token_end(source, i) == token_end(source, i + 1),
        cursor_after(source, i) == cursor_after(source, i + 1),
        token_stream(source, i) == token_stream(source, i + 1),
{
    lemma_token_advances(source, i + 1);
}

/// Whitespace is in no token. What lies between the cursor and the start
/// of the token read is whitespace, all of it; the bytes that the token
/// consumes hold none, and so its text holds none.
pub proof fn lemma_no_whitespace_in_token(source: Seq<u8>, i: int)
    requires
        0 <= i,
    ensures
        forall|k: int| i <= k < token_start(source, i) ==> is_whitespace_byte(#[trigger] source[k]),
        forall|k: int|
            token_start(source, i) <= k < token_end(source, i) ==> !is_whitespace_byte(
                #[trigger] source[k],
            ),
        token_at(source, i).text.len() == token_end(source, i) - token_start(source, i),
        forall|k: int|
            0 <= k < token_at(source, i).text.len() ==> {
                &&& #[trigger] token_at(source, i).text[k] == source[token_start(source, i) + k] as char
                &&& !is_whitespace_byte(token_at(source, i).text[k] as u8)
            },
{
    lemma_token_advances(source, i);
    if i <= source.len() {
        lemma_run_end_delimits_run(source, i, whitespace());
        let start = token_start(source, i);
        if start < source.len() && is_letter_byte(source[start]) {
            lemma_run_end_delimits_run(source, start, letters());
        }
    }
}

/// Text is the source it was read from. The text of a token, encoded as
/// UTF-8, is the bytes that the token consumes. The one exception is an
/// `Illegal` token of a byte above 127, which is no character by itself:
/// its text is the character with the code of the byte.
pub proof fn lemma_text_encodes_to_consumed_bytes(source: Seq<u8>, i: int)
    requires
        0 <= i <= source.len(),
        token_kind(source, i) is Illegal ==> source[token_start(source, i)] < 128,
    ensures
        is_ascii_chars(token_at(source, i).text),
        encode_utf8(token_at(source, i).text) == source.subrange(
            token_start(source, i),
            token_end(source, i),
        ),
{
    lemma_token_advances(source, i);
    let start = token_start(source, i);
    let end = token_end(source, i);
    let text = token_at(source, i).text;
    if start < source.len() && is_letter_byte(source[start]) {
        lemma_run_end_delimits_run(source, start, letters());
    }
    assert forall|k: int| 0 <= k < text.len() implies '\0' <= #[trigger] text[k] <= '\u{7f}' by {
        assert(text[k] == source[start + k] as char);
        assert(source[start + k] < 128);
    }
    is_ascii_chars_encode_utf8(text);
    assert(encode_utf8(text) =~= source.subrange(start, end));
}

/// A run does not depend on what lies before it: in `prefix + rest`, the
/// run that begins `j` bytes into `rest` ends where it ends in `rest`.
pub proof fn lemma_run_end_after_prefix(
    prefix: Seq<u8>,
    rest: Seq<u8>,
    j: int,
    class: spec_fn(u8) -> bool,
)
    requires
        0 <= j,
    ensures
        run_end(prefix + rest, prefix.len() + j, class) == prefix.len() + run_end(rest, j, class),
    decreases rest.len() - j,
{
    if j < rest.len() {
        assert((prefix + rest)[prefix.len() + j] == rest[j]);
        if class(rest[j]) {
            lemma_run_end_after_prefix(prefix, rest, j + 1, class);
        }
    }
}

/// Tokens do not depend on what lies before them: the tokens read in
/// `prefix + rest` from `j` bytes into `rest` are those read in `rest`
/// from `j`.
pub proof fn lemma_stream_after_prefix(prefix: Seq<u8>, rest: Seq<u8>, j: int)
    requires
        0 <= j,
    ensures
        token_at(prefix + rest, prefix.len() + j) == token_at(rest, j),
        token_end(prefix + rest, prefix.len() + j) == prefix.len() + token_end(rest, j),
        token_stream(prefix + rest, prefix.len() + j) == token_stream(rest, j),
    decreases rest.len() - j,
{
    let whole = prefix + rest;
    let shift = prefix.len() as int;
    lemma_token_advances(rest, j);
    lemma_run_end_after_prefix(prefix, rest, j, whitespace());
    let start = token_start(rest, j);
    if start < rest.len() {
        assert(whole[shift + start] == rest[start]);
        lemma_run_end_after_prefix(prefix, rest, start, letters());
        let end = token_end(rest, j);
        assert(whole.subrange(shift + start, shift + end) =~= rest.subrange(start, end));
        lemma_stream_after_prefix(prefix, rest, end);
    }
}

/// Leading whitespace adds no token: where every byte from `i` up to `j`
/// is whitespace, the tokens read from `i` are those read from `j`.
pub proof fn lemma_stream_skips_whitespace(source: Seq<u8>, i: int, j: int)
    requires
        0 <= i <= j <= source.len(),
        forall|k: int| i <= k < j ==> is_whitespace_byte(#[trigger] source[k]),
    ensures
        token_at(source, i) == token_at(source, j),
        token_stream(source, i) == token_stream(source, j),
    decreases j - i,
{
    if i < j {
        lemma_whitespace_is_skipped(source, i);
        lemma_stream_skips_whitespace(source, i + 1, j);
    }
}

/// Tokens before whitespace do not depend on what lies after it: where
/// `rest` begins with a whitespace byte, the tokens read in `first + rest`
/// from a position in `first` are those read in `first` alone, followed by
/// those read from the beginning of `rest`.
pub proof fn lemma_stream_before_whitespace(first: Seq<u8>, rest: Seq<u8>, i: int)
    requires
        0 <= i <= first.len(),
        rest.len() > 0,
        is_whitespace_byte(rest[0]),
    ensures
        token_stream(first + rest, i) == token_stream(first, i) + token_stream(
            first + rest,
            first.len() as int,
        ),
    decreases first.len() - i,
{
    let whole = first + rest;
    let cut = first.len() as int;
    lemma_token_advances(first, i);
    lemma_run_end_delimits_run(first, i, whitespace());
    let start = token_start(first, i);
    assert(whole[cut] == rest[0]);
    assert forall|k: int| i <= k < start implies is_whitespace_byte(#[trigger] whole[k]) by {
        assert(whole[k] == first[k]);
    }
    if start == cut {
        lemma_stream_skips_whitespace(whole, i, cut);
        assert(token_stream(first, i) =~= Seq::<TokenView>::empty());
        assert(token_stream(whole, i) =~= token_stream(first, i) + token_stream(whole, cut));
    } else {
        assert(whole[start] == first[start]);
        lemma_run_end_is_unique(whole, i, start, whitespace());
        let end = token_end(first, i);
        if is_letter_byte(first[start]) {
            lemma_run_end_delimits_run(first, start, letters());
            assert forall|k: int| start <= k < end implies is_letter_byte(#[trigger] whole[k]) by {
                assert(whole[k] == first[k]);
            }
            if end < cut {
                assert(whole[end] == first[end]);
            }
            lemma_run_end_is_unique(whole, start, end, letters());
        }
        assert(token_end(whole, i) == end);
        assert(whole.subrange(start, end) =~= first.subrange(start, end));
        assert(token_at(whole, i) == token_at(first, i));
        lemma_stream_before_whitespace(first, rest, end);
        assert(token_stream(whole, i) =~= token_stream(first, i) + token_stream(whole, cut));
    }
}

/// Whitespace separates and does nothing else. With one or more whitespace
/// bytes between two sources, the tokens of the whole are the tokens of the
/// first source followed by the tokens of the second.
pub proof fn lemma_whitespace_between_sources(first: Seq<u8>, blanks: Seq<u8>, second: Seq<u8>)
    requires
        blanks.len() > 0,
        forall|k: int| 0 <= k < blanks.len() ==> is_whitespace_byte(#[trigger] blanks[k]),
    ensures
        token_stream(first + blanks + second, 0) == token_stream(first, 0) + token_stream(
            second,
            0,
        ),
{
    let rest = blanks + second;
    let whole = first + rest;
    assert(whole =~= first + blanks + second);
    assert(rest[0] == blanks[0]);
    lemma_stream_before_whitespace(first, rest, 0);
    lemma_stream_after_prefix(first, rest, 0);
    assert forall|k: int| 0 <= k < blanks.len() implies is_whitespace_byte(#[trigger] rest[k]) by {
        assert(rest[k] == blanks[k]);
    }
    lemma_stream_skips_whitespace(rest, 0, blanks.len() as int);
    lemma_stream_after_prefix(blanks, second, 0);
}

} // verus!
