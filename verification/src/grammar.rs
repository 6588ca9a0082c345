//! The lexical grammar: which tokens a source text holds.
//!
//! A source text is a sequence of bytes, read from left to right. At each offset the
//! lexer finds one of three things ([`scan_at`]): something to skip, a token, or a
//! fault, which ends the scan. [`lex`] puts the steps together.

use crate::chars::{
    is_alpha_spec, is_alphanumeric, is_alphanumeric_spec, is_blank_spec, is_digit, is_digit_spec,
};
use crate::error::{Fault, LexErrorView};
use crate::keywords::word_kind;
use crate::token::{TokenKind, TokenView};
use vstd::prelude::*;
use vstd::utf8::decode_utf8;

verus! {

/// The character at offset `pos`: the byte there, taken for the character of that code.
pub open spec fn char_at(bytes: Seq<u8>, pos: int) -> char {
    bytes[pos] as char
}

/// Whether the character after the one at `pos` is `c`.
pub open spec fn followed_by(bytes: Seq<u8>, pos: int, c: char) -> bool {
    pos + 1 < bytes.len() && char_at(bytes, pos + 1) == c
}

/// How many newlines stand before offset `pos`.
pub open spec fn newlines_before(bytes: Seq<u8>, pos: int) -> nat
    decreases pos,
{
    if pos <= 0 {
        0
    } else {
        newlines_before(bytes, pos - 1) + if char_at(bytes, pos - 1) == '\n' {
            1nat
        } else {
            0nat
        }
    }
}

/// The line, counted from 1, on which offset `pos` lies.
pub open spec fn line_at(bytes: Seq<u8>, pos: int) -> nat {
    1 + newlines_before(bytes, pos)
}

/// The text of the bytes from `from` up to `to`.
pub open spec fn text_of(bytes: Seq<u8>, from: int, to: int) -> Seq<char> {
    decode_utf8(bytes.subrange(from, to))
}

/// A set of characters that a run is made of.
pub enum CharClass {
    /// `0`–`9`.
    Digit,
    /// Letters, `_` and digits.
    Alphanumeric,
    /// Every character but the given one.
    Except(char),
}

impl CharClass {
    pub open spec fn has_spec(&self, c: char) -> bool {
        match self {
            CharClass::Digit => is_digit_spec(c),
            CharClass::Alphanumeric => is_alphanumeric_spec(c),
            CharClass::Except(other) => c != *other,
        }
    }

    /// Whether `c` is of the class.
    #[verifier::when_used_as_spec(has_spec)]
    pub fn has(&self, c: char) -> (r: bool)
        ensures
            r == self.has_spec(c),
    {
        match self {
            CharClass::Digit => is_digit(c),
            CharClass::Alphanumeric => is_alphanumeric(c),
            CharClass::Except(other) => c != *other,
        }
    }
}

/// Where the longest run of characters of `class` that starts at `from` ends: the
/// first offset at or after `from` whose character is not of the class, or the end of
/// the input.
pub open spec fn run_end(bytes: Seq<u8>, from: int, class: CharClass) -> int
    decreases bytes.len() - from,
{
    if 0 <= from < bytes.len() && class.has_spec(char_at(bytes, from)) {
        run_end(bytes, from + 1, class)
    } else {
        from
    }
}

/// What the lexer finds at an offset of the source.
pub enum Scan {
    /// Nothing to emit: a blank, a newline or a comment. The scan goes on at `next`.
    Skip { next: int },
    /// A token of the given kind. The scan goes on at `next`.
    Emit { kind: TokenKind, next: int },
    /// No token can start here.
    Fail { fault: Fault },
}

/// The token of a punctuation character, if `c` is one.
pub open spec fn punctuation_spec(c: char) -> Option<TokenKind> {
    if c == '(' {
        Some(TokenKind::LeftParen)
    } else if c == ')' {
        Some(TokenKind::RightParen)
    } else if c == '{' {
        Some(TokenKind::LeftBrace)
    } else if c == '}' {
        Some(TokenKind::RightBrace)
    } else if c == ',' {
        Some(TokenKind::Comma)
    } else if c == ';' {
        Some(TokenKind::Semicolon)
    } else if c == '.' {
        Some(TokenKind::Dot)
    } else if c == '-' {
        Some(TokenKind::Minus)
    } else if c == '+' {
        Some(TokenKind::Plus)
    } else if c == '*' {
        Some(TokenKind::Star)
    } else {
        None
    }
}

/// The two tokens of a character that is one operator alone and another with `=`
/// right after it.
pub struct OperatorPair {
    pub alone: TokenKind,
    pub with_equal: TokenKind,
}

/// The tokens of `!`, `=`, `<` and `>`, if `c` is one of them.
pub open spec fn comparison_spec(c: char) -> Option<OperatorPair> {
    if c == '!' {
        Some(OperatorPair { alone: TokenKind::Bang, with_equal: TokenKind::BangEqual })
    } else if c == '=' {
        Some(OperatorPair { alone: TokenKind::Equal, with_equal: TokenKind::EqualEqual })
    } else if c == '<' {
        Some(OperatorPair { alone: TokenKind::Less, with_equal: TokenKind::LessEqual })
    } else if c == '>' {
        Some(OperatorPair { alone: TokenKind::Greater, with_equal: TokenKind::GreaterEqual })
    } else {
        None
    }
}

/// A string literal that opens at `pos`: the text up to the next `"`, whatever it
/// holds. Without a closing quote the literal is a fault.
pub open spec fn string_at(bytes: Seq<u8>, pos: int) -> Scan {
    let close = run_end(bytes, pos + 1, CharClass::Except('"'));
    if close < bytes.len() {
        Scan::Emit { kind: TokenKind::String(text_of(bytes, pos + 1, close)), next: close + 1 }
    } else {
        Scan::Fail { fault: Fault::UnterminatedString }
    }
}

/// A number literal that starts at `pos`: the longest run of digits and, if a `.`
/// follows it, that `.` and the longest run of digits after it, which must not be
/// empty.
pub open spec fn number_at(bytes: Seq<u8>, pos: int) -> Scan {
    let whole_end = run_end(bytes, pos, CharClass::Digit);
    if whole_end < bytes.len() && char_at(bytes, whole_end) == '.' {
        let fraction_end = run_end(bytes, whole_end + 1, CharClass::Digit);
        if fraction_end == whole_end + 1 {
            Scan::Fail { fault: Fault::InvalidNumber }
        } else {
            Scan::Emit {
                kind: TokenKind::Number(text_of(bytes, pos, fraction_end)),
                next: fraction_end,
            }
        }
    } else {
        Scan::Emit { kind: TokenKind::Number(text_of(bytes, pos, whole_end)), next: whole_end }
    }
}

/// A word that starts at `pos`: the longest run of letters, `_` and digits, which is
/// a keyword if the keyword table holds it and an identifier if not.
pub open spec fn word_at(bytes: Seq<u8>, pos: int) -> Scan {
    let end = run_end(bytes, pos, CharClass::Alphanumeric);
    Scan::Emit { kind: word_kind(text_of(bytes, pos, end)), next: end }
}

/// What the lexer finds at offset `pos`, by the character there.
pub open spec fn scan_at(bytes: Seq<u8>, pos: int) -> Scan
    recommends
        0 <= pos < bytes.len(),
{
    let c = char_at(bytes, pos);
    if c == '\n' || is_blank_spec(c) {
        Scan::Skip { next: pos + 1 }
    } else if let Some(kind) = punctuation_spec(c) {
        Scan::Emit { kind, next: pos + 1 }
    } else if let Some(pair) = comparison_spec(c) {
        // The operator of two characters wins over the one that starts it.
        if followed_by(bytes, pos, '=') {
            Scan::Emit { kind: pair.with_equal, next: pos + 2 }
        } else {
            Scan::Emit { kind: pair.alone, next: pos + 1 }
        }
    } else if c == '/' {
        if followed_by(bytes, pos, '/') {
            // A comment runs up to the newline that ends its line, and leaves it there.
            Scan::Skip { next: run_end(bytes, pos, CharClass::Except('\n')) }
        } else {
            Scan::Emit { kind: TokenKind::Slash, next: pos + 1 }
        }
    } else if c == '|' {
        if followed_by(bytes, pos, '|') {
            Scan::Emit { kind: TokenKind::Or, next: pos + 2 }
        } else {
            Scan::Fail { fault: Fault::UnexpectedCharacter(c) }
        }
    } else if c == '"' {
        string_at(bytes, pos)
    } else if is_digit_spec(c) {
        number_at(bytes, pos)
    } else if is_alpha_spec(c) {
        word_at(bytes, pos)
    } else {
        Scan::Fail { fault: Fault::UnexpectedCharacter(c) }
    }
}

/// Where a scan stopped, and why.
pub struct Stop {
    pub fault: Fault,
    pub offset: int,
}

/// A token of the given kind whose lexeme starts at `pos`.
pub open spec fn token_at(bytes: Seq<u8>, pos: int, kind: TokenKind) -> TokenView {
    TokenView { kind, line: line_at(bytes, pos) }
}

/// `tokens` before what `rest` holds.
pub open spec fn with_prefix(tokens: Seq<TokenView>, rest: Result<Seq<TokenView>, Stop>) -> Result<
    Seq<TokenView>,
    Stop,
> {
    match rest {
        Ok(more) => Ok(tokens + more),
        Err(stop) => Err(stop),
    }
}

/// The tokens from offset `pos` to the end of the input, `Eof` last; or the first
/// fault at or after `pos`, with the offset of the lexeme that holds it.
pub open spec fn lex_from(bytes: Seq<u8>, pos: int) -> Result<Seq<TokenView>, Stop>
    decreases bytes.len() - pos,
{
    if pos < 0 || pos >= bytes.len() {
        Ok(seq![token_at(bytes, bytes.len() as int, TokenKind::Eof)])
    } else {
        proof {
            lemma_scan_advances(bytes, pos);
        }
        match scan_at(bytes, pos) {
            Scan::Skip { next } => lex_from(bytes, next),
            Scan::Emit { kind, next } => with_prefix(
                seq![token_at(bytes, pos, kind)],
                lex_from(bytes, next),
            ),
            Scan::Fail { fault } => Err(Stop { fault, offset: pos }),
        }
    }
}

/// The outcome of lexing the source text `bytes` that goes by the name `label`: its
/// tokens in order, each with the line on which it starts, and `Eof` last with the
/// line on which the input ends; or the first fault, with the label and the line on
/// which the faulty lexeme starts.
pub open spec fn lex(bytes: Seq<u8>, label: Seq<char>) -> Result<Seq<TokenView>, LexErrorView> {
    match lex_from(bytes, 0) {
        Ok(tokens) => Ok(tokens),
        Err(stop) => Err(
            LexErrorView { fault: stop.fault, label, line: line_at(bytes, stop.offset) },
        ),
    }
}

/// Where the scan of `bytes` stops: at the end of the input, or at the start of the
/// first faulty lexeme.
pub open spec fn stop_offset(bytes: Seq<u8>) -> int {
    match lex_from(bytes, 0) {
        Ok(_) => bytes.len() as int,
        Err(stop) => stop.offset,
    }
}

/// A run ends within the input, holds only characters of its class, and cannot be
/// made longer.
pub proof fn lemma_run_end(bytes: Seq<u8>, from: int, class: CharClass)
    requires
        0 <= from <= bytes.len(),
    ensures
        from <= run_end(bytes, from, class) <= bytes.len(),
        forall|i: int|
            from <= i < run_end(bytes, from, class) ==> class.has_spec(#[trigger] char_at(bytes, i)),
        run_end(bytes, from, class) < bytes.len() ==> !class.has_spec(
            char_at(bytes, run_end(bytes, from, class)),
        ),
    decreases bytes.len() - from,
{
    if from < bytes.len() && class.has_spec(char_at(bytes, from)) {
        lemma_run_end(bytes, from + 1, class);
    }
}

/// The end of a run is the only offset that ends it: if every character from `from`
/// up to `end` is of the class and the one at `end` is not, the run ends at `end`.
pub proof fn lemma_run_end_unique(bytes: Seq<u8>, from: int, end: int, class: CharClass)
    requires
        0 <= from <= end <= bytes.len(),
        forall|i: int| from <= i < end ==> class.has_spec(#[trigger] char_at(bytes, i)),
        end < bytes.len() ==> !class.has_spec(char_at(bytes, end)),
    ensures
        run_end(bytes, from, class) == end,
    decreases end - from,
{
    if from < end {
        assert(class.has_spec(char_at(bytes, from)));
        lemma_run_end_unique(bytes, from + 1, end, class);
    }
}

/// No more newlines stand before an offset than bytes do.
pub proof fn lemma_newlines_bound(bytes: Seq<u8>, pos: int)
    requires
        0 <= pos,
    ensures
        newlines_before(bytes, pos) <= pos,
    decreases pos,
{
    if pos > 0 {
        lemma_newlines_bound(bytes, pos - 1);
    }
}

/// Lines never go back: an offset further on lies on the same line or a later one.
pub proof fn lemma_newlines_monotonic(bytes: Seq<u8>, from: int, to: int)
    requires
        0 <= from <= to,
    ensures
        newlines_before(bytes, from) <= newlines_before(bytes, to),
    decreases to - from,
{
    if from < to {
        lemma_newlines_monotonic(bytes, from, to - 1);
    }
}

/// Two offsets with no newline between them lie on the same line.
pub proof fn lemma_same_line(bytes: Seq<u8>, from: int, to: int)
    requires
        0 <= from <= to,
        forall|i: int| from <= i < to ==> #[trigger] char_at(bytes, i) != '\n',
    ensures
        line_at(bytes, to) == line_at(bytes, from),
    decreases to - from,
{
    if from < to {
        lemma_same_line(bytes, from, to - 1);
    }
}

/// One token put after a sequence of tokens comes before whatever follows.
pub proof fn lemma_with_prefix_push(
    tokens: Seq<TokenView>,
    token: TokenView,
    rest: Result<Seq<TokenView>, Stop>,
)
    ensures
        with_prefix(tokens, with_prefix(seq![token], rest)) == with_prefix(tokens.push(token), rest),
{
    if let Ok(more) = rest {
        assert(tokens + (seq![token] + more) =~= tokens.push(token) + more);
    }
}

/// Whatever the lexer finds at an offset within the input, it goes on further along,
/// and no further than the end.
pub proof fn lemma_scan_advances(bytes: Seq<u8>, pos: int)
    requires
        0 <= pos < bytes.len(),
    ensures
        match scan_at(bytes, pos) {
            Scan::Skip { next } => pos < next <= bytes.len(),
            Scan::Emit { next, .. } => pos < next <= bytes.len(),
            Scan::Fail { .. } => true,
        },
{
    let c = char_at(bytes, pos);
    lemma_run_end(bytes, pos + 1, CharClass::Except('\n'));
    lemma_run_end(bytes, pos + 1, CharClass::Except('"'));
    lemma_run_end(bytes, pos + 1, CharClass::Digit);
    lemma_run_end(bytes, pos + 1, CharClass::Alphanumeric);
    if is_digit_spec(c) {
        let whole_end = run_end(bytes, pos, CharClass::Digit);
        if whole_end < bytes.len() {
            lemma_run_end(bytes, whole_end + 1, CharClass::Digit);
        }
    }
}

} // verus!
