//! What holds of every lexing.

use crate::chars::{is_alpha_spec, is_alphanumeric_spec, is_blank_spec};
use crate::error::{Fault, LexErrorView};
use crate::grammar::{
    char_at, lemma_newlines_monotonic, lemma_run_end_unique, lemma_same_line,
    lemma_scan_advances, lex, lex_from, line_at, newlines_before, run_end, scan_at, text_of,
    token_at, CharClass, Scan, Stop,
};
use crate::keywords::{is_keyword, keyword_table, lemma_keywords_are_words, word_kind};
use crate::text::{chars_of, is_ascii_byte, lemma_ascii_text};
use crate::token::{TokenKind, TokenView};
use crate::tokenizer::{tokenize_spec, Cursor};
use vstd::prelude::*;
use vstd::utf8::{decode_utf8, encode_utf8, is_ascii_chars, is_ascii_chars_encode_utf8};

verus! {

/// A text of blanks and newlines only.
pub open spec fn is_blank_text(bytes: Seq<u8>) -> bool {
    forall|i: int|
        0 <= i < bytes.len() ==> #[trigger] char_at(bytes, i) == '\n' || is_blank_spec(
            char_at(bytes, i),
        )
}

/// A text that is one word: a letter or `_`, then letters, `_` and digits.
pub open spec fn is_word(bytes: Seq<u8>) -> bool {
    &&& bytes.len() > 0
    &&& is_alpha_spec(char_at(bytes, 0))
    &&& forall|i: int| 0 <= i < bytes.len() ==> is_alphanumeric_spec(#[trigger] char_at(bytes, i))
}

proof fn lemma_blank_text_from(bytes: Seq<u8>, pos: int)
    requires
        is_blank_text(bytes),
        0 <= pos <= bytes.len(),
    ensures
        lex_from(bytes, pos) == Ok::<Seq<TokenView>, Stop>(
            seq![token_at(bytes, bytes.len() as int, TokenKind::Eof)],
        ),
    decreases bytes.len() - pos,
{
    if pos < bytes.len() {
        assert(char_at(bytes, pos) == '\n' || is_blank_spec(char_at(bytes, pos)));
        lemma_blank_text_from(bytes, pos + 1);
    }
}

/// A text of blanks and newlines only lexes, to `Eof` alone, on the line on which the
/// text ends.
pub proof fn lemma_blank_text_lexes_to_eof(bytes: Seq<u8>, label: Seq<char>)
    requires
        is_blank_text(bytes),
    ensures
        lex(bytes, label) == Ok::<Seq<TokenView>, LexErrorView>(
            seq![TokenView { kind: TokenKind::Eof, line: line_at(bytes, bytes.len() as int) }],
        ),
{
    lemma_blank_text_from(bytes, 0);
}

/// A text that is one word lexes to one token, on line 1, and `Eof`: the keyword that
/// the whole word spells, or an identifier with the whole word for its text. The text
/// is the word character for character.
pub proof fn lemma_word_lexes_whole(bytes: Seq<u8>, label: Seq<char>)
    requires
        is_word(bytes),
    ensures
        lex(bytes, label) == Ok::<Seq<TokenView>, LexErrorView>(
            seq![
                TokenView { kind: word_kind(chars_of(bytes)), line: 1 },
                TokenView { kind: TokenKind::Eof, line: 1 },
            ],
        ),
{
    let end = bytes.len() as int;
    assert forall|i: int| 0 <= i < bytes.len() implies is_ascii_byte(#[trigger] bytes[i]) by {
        assert(is_alphanumeric_spec(char_at(bytes, i)));
    }
    lemma_ascii_text(bytes);
    assert(bytes.subrange(0, end) =~= bytes);
    assert forall|i: int| 0 <= i < end implies CharClass::Alphanumeric.has_spec(
        #[trigger] char_at(bytes, i),
    ) by {
        assert(is_alphanumeric_spec(char_at(bytes, i)));
    }
    lemma_run_end_unique(bytes, 0, end, CharClass::Alphanumeric);
    assert forall|i: int| 0 <= i < end implies #[trigger] char_at(bytes, i) != '\n' by {
        assert(is_alphanumeric_spec(char_at(bytes, i)));
    }
    lemma_same_line(bytes, 0, end);
    let word = TokenView { kind: word_kind(chars_of(bytes)), line: 1 };
    let eof = TokenView { kind: TokenKind::Eof, line: 1 };
    assert(scan_at(bytes, 0) == Scan::Emit { kind: word.kind, next: end });
    assert(lex_from(bytes, end) == Ok::<Seq<TokenView>, Stop>(seq![eof]));
    assert(seq![word] + seq![eof] =~= seq![word, eof]);
}

/// An identifier that is no reserved word lexes to exactly one `Identifier` token,
/// whose text is the whole of it.
pub proof fn lemma_identifier_lexes_whole(bytes: Seq<u8>, label: Seq<char>)
    requires
        is_word(bytes),
        !is_keyword(chars_of(bytes)),
    ensures
        lex(bytes, label) == Ok::<Seq<TokenView>, LexErrorView>(
            seq![
                TokenView { kind: TokenKind::Identifier(chars_of(bytes)), line: 1 },
                TokenView { kind: TokenKind::Eof, line: 1 },
            ],
        ),
{
    lemma_word_lexes_whole(bytes, label);
}

/// A reserved word lexes to its keyword token, never to an identifier.
pub proof fn lemma_keyword_lexes_as_keyword(text: Seq<char>, label: Seq<char>)
    requires
        is_keyword(text),
    ensures
        lex(encode_utf8(text), label) == Ok::<Seq<TokenView>, LexErrorView>(
            seq![
                TokenView { kind: keyword_table()[text]@, line: 1 },
                TokenView { kind: TokenKind::Eof, line: 1 },
            ],
        ),
        !(keyword_table()[text]@ is Identifier),
{
    lemma_keywords_are_words(text);
    let bytes = encode_utf8(text);
    assert(is_ascii_chars(text)) by {
        assert forall|i: int| 0 <= i < text.len() implies '\0' <= #[trigger] text[i]
            <= '\u{7f}' by {
            assert('a' <= text[i] <= 'z');
        }
    }
    is_ascii_chars_encode_utf8(text);
    assert forall|i: int| 0 <= i < bytes.len() implies #[trigger] char_at(bytes, i)
        == text[i] by {
        assert('a' <= text[i] <= 'z');
        assert(text[i] as u8 == bytes[i]);
    }
    assert(is_word(bytes)) by {
        assert(char_at(bytes, 0) == text[0]);
        assert forall|i: int| 0 <= i < bytes.len() implies is_alphanumeric_spec(
            #[trigger] char_at(bytes, i),
        ) by {
            assert(char_at(bytes, i) == text[i]);
        }
    }
    assert(chars_of(bytes) =~= text) by {
        assert forall|i: int| 0 <= i < text.len() implies chars_of(bytes)[i] == text[i] by {
            assert(char_at(bytes, i) == text[i]);
        }
    }
    lemma_word_lexes_whole(bytes, label);
}

/// The newlines of a text that stands inside another, one byte in, are those of the
/// other from that byte on.
proof fn lemma_newlines_inside(bytes: Seq<u8>, content: Seq<u8>, upto: int)
    requires
        0 <= upto <= content.len(),
        bytes.len() > content.len(),
        char_at(bytes, 0) != '\n',
        forall|i: int| 0 <= i < content.len() ==> #[trigger] bytes[i + 1] == content[i],
    ensures
        newlines_before(bytes, upto + 1) == newlines_before(content, upto),
    decreases upto,
{
    if upto > 0 {
        lemma_newlines_inside(bytes, content, upto - 1);
        assert(bytes[(upto - 1) + 1] == content[upto - 1]);
    } else {
        assert(newlines_before(bytes, 0) == 0);
    }
}

/// A text between two quotes, with no quote in it, lexes to one `String` token that
/// holds the text as it stands, and `Eof` on the line on which the literal ends.
pub proof fn lemma_string_literal_lexes_whole(content: Seq<u8>, label: Seq<char>)
    requires
        forall|i: int| 0 <= i < content.len() ==> #[trigger] char_at(content, i) != '"',
    ensures
        lex(seq!['"' as u8] + content + seq!['"' as u8], label) == Ok::<
            Seq<TokenView>,
            LexErrorView,
        >(
            seq![
                TokenView { kind: TokenKind::String(decode_utf8(content)), line: 1 },
                TokenView { kind: TokenKind::Eof, line: line_at(content, content.len() as int) },
            ],
        ),
{
    let bytes = seq!['"' as u8] + content + seq!['"' as u8];
    let close = content.len() as int + 1;
    assert(char_at(bytes, 0) == '"');
    assert(char_at(bytes, close) == '"');
    assert forall|i: int| 0 <= i < content.len() implies #[trigger] bytes[i + 1] == content[i] by {}
    assert forall|i: int| 1 <= i < close implies CharClass::Except('"').has_spec(
        #[trigger] char_at(bytes, i),
    ) by {
        assert(bytes[(i - 1) + 1] == content[i - 1]);
        assert(char_at(content, i - 1) != '"');
    }
    lemma_run_end_unique(bytes, 1, close, CharClass::Except('"'));
    assert(bytes.subrange(1, close) =~= content);
    lemma_newlines_inside(bytes, content, content.len() as int);
    assert(newlines_before(bytes, close + 1) == newlines_before(bytes, close));
    let literal = TokenView { kind: TokenKind::String(decode_utf8(content)), line: 1 };
    let eof = TokenView { kind: TokenKind::Eof, line: line_at(content, content.len() as int) };
    assert(scan_at(bytes, 0) == Scan::Emit { kind: literal.kind, next: close + 1 });
    assert(lex_from(bytes, close + 1) == Ok::<Seq<TokenView>, Stop>(seq![eof]));
    assert(seq![literal] + seq![eof] =~= seq![literal, eof]);
}

/// A quote with no quote after it is an unterminated string, on line 1.
pub proof fn lemma_open_string_fails(content: Seq<u8>, label: Seq<char>)
    requires
        forall|i: int| 0 <= i < content.len() ==> #[trigger] char_at(content, i) != '"',
    ensures
        lex(seq!['"' as u8] + content, label) == Err::<Seq<TokenView>, LexErrorView>(
            LexErrorView { fault: Fault::UnterminatedString, label, line: 1 },
        ),
{
    let bytes = seq!['"' as u8] + content;
    let end = bytes.len() as int;
    assert(char_at(bytes, 0) == '"');
    assert forall|i: int| 1 <= i < end implies CharClass::Except('"').has_spec(
        #[trigger] char_at(bytes, i),
    ) by {
        assert(bytes[i] == content[i - 1]);
        assert(char_at(content, i - 1) != '"');
    }
    lemma_run_end_unique(bytes, 1, end, CharClass::Except('"'));
    assert(scan_at(bytes, 0) == Scan::Fail { fault: Fault::UnterminatedString });
}

/// What holds of the tokens of a text from offset `from` on.
spec fn orderly_from(bytes: Seq<u8>, from: int, tokens: Seq<TokenView>) -> bool {
    &&& tokens.len() > 0
    &&& tokens.last() == token_at(bytes, bytes.len() as int, TokenKind::Eof)
    &&& forall|i: int|
        0 <= i < tokens.len() - 1 ==> {
            &&& !(#[trigger] tokens[i].kind is Eof)
            &&& !(tokens[i].kind is And)
            &&& (tokens[i].kind matches TokenKind::Identifier(text) ==> !is_keyword(text))
        }
    &&& forall|i: int| 0 <= i < tokens.len() ==> line_at(bytes, from) <= #[trigger] tokens[i].line
    &&& forall|i: int, j: int|
        0 <= i <= j < tokens.len() ==> #[trigger] tokens[i].line <= #[trigger] tokens[j].line
}

proof fn lemma_emitted_kind(bytes: Seq<u8>, pos: int)
    requires
        0 <= pos < bytes.len(),
    ensures
        scan_at(bytes, pos) matches Scan::Emit { kind, .. } ==> {
            &&& !(kind is Eof)
            &&& !(kind is And)
            &&& (kind matches TokenKind::Identifier(text) ==> !is_keyword(text))
        },
{
    let end = run_end(bytes, pos, CharClass::Alphanumeric);
    let text = text_of(bytes, pos, end);
    if is_keyword(text) {
        lemma_keywords_are_words(text);
    }
}

proof fn lemma_orderly_from(bytes: Seq<u8>, pos: int)
    requires
        0 <= pos <= bytes.len(),
    ensures
        lex_from(bytes, pos) matches Ok(tokens) ==> orderly_from(bytes, pos, tokens),
    decreases bytes.len() - pos,
{
    let end = bytes.len() as int;
    if pos < end {
        lemma_scan_advances(bytes, pos);
        lemma_emitted_kind(bytes, pos);
        match scan_at(bytes, pos) {
            Scan::Skip { next } => {
                lemma_orderly_from(bytes, next);
                lemma_newlines_monotonic(bytes, pos, next);
            },
            Scan::Emit { kind, next } => {
                lemma_orderly_from(bytes, next);
                lemma_newlines_monotonic(bytes, pos, next);
                if let Ok(rest) = lex_from(bytes, next) {
                    let first = token_at(bytes, pos, kind);
                    let tokens = seq![first] + rest;
                    assert(lex_from(bytes, pos) == Ok::<Seq<TokenView>, Stop>(tokens));
                    assert(tokens[0] == first);
                    assert forall|i: int| 1 <= i < tokens.len() implies #[trigger] tokens[i]
                        == rest[i - 1] by {}
                    assert(tokens.last() == rest.last());
                    assert(orderly_from(bytes, pos, tokens));
                }
            },
            Scan::Fail { .. } => {},
        }
    }
}

/// The tokens of a text end with `Eof`, which stands on the line on which the text
/// ends, and hold no other `Eof`.
pub proof fn lemma_eof_is_last(bytes: Seq<u8>, label: Seq<char>)
    ensures
        lex(bytes, label) matches Ok(tokens) ==> {
            &&& tokens.len() > 0
            &&& tokens.last() == TokenView {
                kind: TokenKind::Eof,
                line: line_at(bytes, bytes.len() as int),
            }
            &&& forall|i: int| 0 <= i < tokens.len() - 1 ==> !(#[trigger] tokens[i].kind is Eof)
        },
{
    lemma_orderly_from(bytes, 0);
}

/// No identifier among the tokens of a text spells a reserved word, and none of the
/// tokens is `And`, which no lexeme stands for.
pub proof fn lemma_identifiers_are_not_reserved(bytes: Seq<u8>, label: Seq<char>)
    ensures
        lex(bytes, label) matches Ok(tokens) ==> forall|i: int|
            0 <= i < tokens.len() ==> {
                &&& (#[trigger] tokens[i].kind matches TokenKind::Identifier(text) ==> !is_keyword(
                    text,
                ))
                &&& !(tokens[i].kind is And)
            },
{
    lemma_orderly_from(bytes, 0);
}

/// The lines of the tokens of a text start at 1 or later and never go back.
pub proof fn lemma_lines_in_order(bytes: Seq<u8>, label: Seq<char>)
    ensures
        lex(bytes, label) matches Ok(tokens) ==> {
            &&& forall|i: int| 0 <= i < tokens.len() ==> 1 <= #[trigger] tokens[i].line
            &&& forall|i: int, j: int|
                0 <= i <= j < tokens.len() ==> #[trigger] tokens[i].line
                    <= #[trigger] tokens[j].line
        },
{
    lemma_orderly_from(bytes, 0);
}

/// A second call of `tokenize` on the lexer that a first call left behind, with the
/// same text and label, gives what the first gave: the same outcome and the same
/// cursor. So does a call on any other lexer.
pub proof fn lemma_tokenize_again(before: Cursor, other: Cursor, bytes: Seq<u8>, label: Seq<char>)
    ensures
        tokenize_spec(tokenize_spec(before, bytes, label).cursor, bytes, label) == tokenize_spec(
            before,
            bytes,
            label,
        ),
        tokenize_spec(other, bytes, label) == tokenize_spec(before, bytes, label),
{
}

} // verus!
