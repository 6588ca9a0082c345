//! The lexer.

use crate::chars::{is_alpha, is_blank, is_digit};
use crate::error::{Fault, LexError, LexErrorView};
use crate::grammar::{
    char_at, comparison_spec, followed_by, lemma_newlines_bound, lemma_run_end,
    lemma_scan_advances, lemma_with_prefix_push, lex, lex_from, line_at, newlines_before,
    number_at, punctuation_spec, run_end, scan_at, stop_offset, string_at, with_prefix, word_at,
    CharClass, OperatorPair, Scan,
};
use crate::keywords::{build_keywords, keyword_table, lookup_word};
use crate::text::{lemma_boundaries_at_ascii, slice_text};
use crate::token::{token_views, TokenView};
use vstd::hash_map::StringHashMap;
use vstd::prelude::*;
use vstd::string::StringSliceAdditionalSpecFns;
use vstd::utf8::encode_utf8_valid_utf8;

pub use crate::token::{Token, TokenType};

verus! {

/// What the lexer found at an offset: a [`Scan`] in executable form.
enum Step {
    Skip { next: usize },
    Emit { token: TokenType, next: usize },
    Fail { fault: Fault },
}

spec fn step_view(step: Step) -> Scan {
    match step {
        Step::Skip { next } => Scan::Skip { next: next as int },
        Step::Emit { token, next } => Scan::Emit { kind: token@, next: next as int },
        Step::Fail { fault } => Scan::Fail { fault },
    }
}

/// What a call of [`Tokenizer::tokenize`] returned, as a mathematical value.
pub open spec fn outcome_view(outcome: Result<Vec<Token>, LexError>) -> Result<
    Seq<TokenView>,
    LexErrorView,
> {
    match outcome {
        Ok(tokens) => Ok(token_views(tokens@)),
        Err(error) => Err(error@),
    }
}

/// The state of a lexer: where its cursor stands.
pub struct Cursor {
    /// In bytes from the start of the text.
    pub offset: nat,
    /// The line of the text that the cursor is on, counted from 1.
    pub line: nat,
}

/// The cursor at the start of a text.
pub open spec fn start_cursor() -> Cursor {
    Cursor { offset: 0, line: 1 }
}

/// The cursor at offset `pos` of the text `bytes`.
pub open spec fn cursor_at(bytes: Seq<u8>, pos: int) -> Cursor {
    Cursor { offset: pos as nat, line: line_at(bytes, pos) }
}

/// What a call of [`Tokenizer::tokenize`] gives: the outcome that it returns, and the
/// cursor of the lexer that it leaves behind.
pub struct Scanned {
    pub outcome: Result<Seq<TokenView>, LexErrorView>,
    pub cursor: Cursor,
}

/// What [`Tokenizer::tokenize`] gives for the text `bytes` named `label` on a lexer
/// whose cursor is `before`: the outcome of [`lex`], and the cursor where the scan
/// stopped. The cursor is put back to the start before anything is read, so `before`
/// has no part in either.
pub open spec fn tokenize_spec(before: Cursor, bytes: Seq<u8>, label: Seq<char>) -> Scanned {
    Scanned { outcome: lex(bytes, label), cursor: cursor_at(bytes, stop_offset(bytes)) }
}

/// A lexer: a cursor into the text it is scanning, the line that the cursor is on,
/// and the keyword table. It can be used for any number of texts, one after the other.
pub struct Tokenizer {
    current: usize,
    line: usize,
    keywords: StringHashMap<TokenType>,
}

impl View for Tokenizer {
    type V = Cursor;

    closed spec fn view(&self) -> Cursor {
        Cursor { offset: self.current as nat, line: self.line as nat }
    }
}

impl Tokenizer {
    #[verifier::type_invariant]
    spec fn holds_keywords(self) -> bool {
        self.keywords@ == keyword_table()
    }

    /// A lexer at the start of a text.
    pub fn new() -> (lexer: Tokenizer)
        ensures
            lexer@ == start_cursor(),
    {
        Tokenizer { current: 0, line: 1, keywords: build_keywords() }
    }

    /// Puts the cursor back to the start of a text.
    pub fn reset(&mut self)
        ensures
            final(self)@ == start_cursor(),
    {
        proof {
            use_type_invariant(&*self);
        }
        self.current = 0;
        self.line = 1;
    }

    /// Lexes the text `source`, which goes by the name `source_name`: returns its
    /// tokens in order, `Eof` last, or the first lexical error in it. The lexer need
    /// not be fresh: the scan starts with a reset.
    ///
    /// A text of `usize::MAX` bytes is left out, so that the count of its lines fits.
    pub fn tokenize(&mut self, source: &str, source_name: &str) -> (outcome: Result<
        Vec<Token>,
        LexError,
    >)
        requires
            source.len() < usize::MAX,
        ensures
            outcome_view(outcome) == tokenize_spec(
                old(self)@,
                source.spec_bytes(),
                source_name@,
            ).outcome,
            final(self)@ == tokenize_spec(old(self)@, source.spec_bytes(), source_name@).cursor,
    {
        self.reset();
        proof {
            use_type_invariant(&*self);
        }
        let input = source.as_bytes();
        assert(input@.len() < usize::MAX) by {
            assert(input.len() == input@.len());
        }
        let mut tokens: Vec<Token> = Vec::new();
        assert(token_views(tokens@) =~= Seq::empty());
        assert(with_prefix(Seq::empty(), lex_from(input@, 0)) == lex_from(input@, 0)) by {
            if let Ok(more) = lex_from(input@, 0) {
                assert(Seq::<TokenView>::empty() + more =~= more);
            }
        }
        while self.current < input.len()
            invariant
                input@ == source.spec_bytes(),
                input@.len() < usize::MAX,
                self.keywords@ == keyword_table(),
                self.current <= input@.len(),
                self.line == line_at(input@, self.current as int),
                lex_from(input@, 0) == with_prefix(
                    token_views(tokens@),
                    lex_from(input@, self.current as int),
                ),
            decreases input@.len() - self.current,
        {
            let start = self.current;
            let step = self.scan(source, input, start);
            proof {
                lemma_scan_advances(input@, start as int);
            }
            match step {
                Step::Skip { next } => {
                    proof {
                        lemma_newlines_bound(input@, next as int);
                    }
                    self.line = self.line + Self::count_newlines(input, start, next);
                    self.current = next;
                },
                Step::Emit { token, next } => {
                    proof {
                        lemma_newlines_bound(input@, next as int);
                        lemma_with_prefix_push(
                            token_views(tokens@),
                            TokenView { kind: token@, line: self.line as nat },
                            lex_from(input@, next as int),
                        );
                    }
                    let ghost before = tokens@;
                    let token = Token { token, line: self.line };
                    tokens.push(token);
                    assert(token_views(tokens@) =~= token_views(before).push(token@));
                    self.line = self.line + Self::count_newlines(input, start, next);
                    self.current = next;
                },
                Step::Fail { fault } => {
                    return Err(LexError::at(fault, source_name, self.line));
                },
            }
        }
        let ghost before = tokens@;
        let eof = Token { token: TokenType::Eof, line: self.line };
        tokens.push(eof);
        assert(token_views(tokens@) =~= token_views(before) + seq![eof@]);
        Ok(tokens)
    }

    /// Finds what stands at offset `pos` of the text.
    fn scan(&self, source: &str, input: &[u8], pos: usize) -> (step: Step)
        requires
            input@ == source.spec_bytes(),
            pos < input@.len(),
        ensures
            step_view(step) == scan_at(input@, pos as int),
    {
        proof {
            use_type_invariant(self);
        }
        let c = input[pos] as char;
        if c == '\n' || is_blank(c) {
            Step::Skip { next: pos + 1 }
        } else if let Some(token) = Self::punctuation(c) {
            Step::Emit { token, next: pos + 1 }
        } else if let Some((alone, with_equal)) = Self::comparison(c) {
            if Self::followed_by(input, pos, '=') {
                Step::Emit { token: with_equal, next: pos + 2 }
            } else {
                Step::Emit { token: alone, next: pos + 1 }
            }
        } else if c == '/' {
            if Self::followed_by(input, pos, '/') {
                match Self::peek(input, pos, '\n') {
                    Some(newline) => Step::Skip { next: newline },
                    None => Step::Skip { next: input.len() },
                }
            } else {
                Step::Emit { token: TokenType::Slash, next: pos + 1 }
            }
        } else if c == '|' {
            if Self::followed_by(input, pos, '|') {
                Step::Emit { token: TokenType::Or, next: pos + 2 }
            } else {
                Step::Fail { fault: Fault::UnexpectedCharacter(c) }
            }
        } else if c == '"' {
            Self::scan_string(source, input, pos)
        } else if is_digit(c) {
            Self::scan_number(source, input, pos)
        } else if is_alpha(c) {
            Self::scan_word(&self.keywords, source, input, pos)
        } else {
            Step::Fail { fault: Fault::UnexpectedCharacter(c) }
        }
    }

    /// Scans the string literal that opens at `pos`.
    fn scan_string(source: &str, input: &[u8], pos: usize) -> (step: Step)
        requires
            input@ == source.spec_bytes(),
            pos < input@.len(),
            char_at(input@, pos as int) == '"',
        ensures
            step_view(step) == string_at(input@, pos as int),
    {
        let len = input.len();
        match Self::peek(input, pos + 1, '"') {
            Some(close) => {
                proof {
                    encode_utf8_valid_utf8(source@);
                    lemma_run_end(input@, pos + 1, CharClass::Except('"'));
                    lemma_boundaries_at_ascii(input@, pos as int);
                    lemma_boundaries_at_ascii(input@, close as int);
                }
                let text = slice_text(source, pos + 1, close);
                Step::Emit { token: TokenType::String(text.to_owned()), next: close + 1 }
            },
            None => Step::Fail { fault: Fault::UnterminatedString },
        }
    }

    /// Scans the number literal that starts at `pos`.
    fn scan_number(source: &str, input: &[u8], pos: usize) -> (step: Step)
        requires
            input@ == source.spec_bytes(),
            pos < input@.len(),
            is_digit(char_at(input@, pos as int)),
        ensures
            step_view(step) == number_at(input@, pos as int),
    {
        let whole_end = Self::skip_run(input, pos, CharClass::Digit);
        proof {
            lemma_run_end(input@, pos as int, CharClass::Digit);
        }
        let end = if whole_end < input.len() && input[whole_end] as char == '.' {
            let fraction_end = Self::skip_run(input, whole_end + 1, CharClass::Digit);
            proof {
                lemma_run_end(input@, whole_end + 1, CharClass::Digit);
            }
            if fraction_end == whole_end + 1 {
                return Step::Fail { fault: Fault::InvalidNumber };
            }
            fraction_end
        } else {
            whole_end
        };
        proof {
            encode_utf8_valid_utf8(source@);
            assert(is_digit(char_at(input@, end - 1)));
            lemma_boundaries_at_ascii(input@, pos as int);
            lemma_boundaries_at_ascii(input@, end - 1);
        }
        let text = slice_text(source, pos, end);
        Step::Emit { token: TokenType::Number(text.to_owned()), next: end }
    }

    /// Scans the word that starts at `pos`.
    fn scan_word(
        keywords: &StringHashMap<TokenType>,
        source: &str,
        input: &[u8],
        pos: usize,
    ) -> (step: Step)
        requires
            keywords@ == keyword_table(),
            input@ == source.spec_bytes(),
            pos < input@.len(),
            is_alpha(char_at(input@, pos as int)),
        ensures
            step_view(step) == word_at(input@, pos as int),
    {
        let end = Self::skip_run(input, pos, CharClass::Alphanumeric);
        proof {
            encode_utf8_valid_utf8(source@);
            lemma_run_end(input@, pos as int, CharClass::Alphanumeric);
            assert(CharClass::Alphanumeric.has(char_at(input@, end - 1)));
            lemma_boundaries_at_ascii(input@, pos as int);
            lemma_boundaries_at_ascii(input@, end - 1);
        }
        let text = slice_text(source, pos, end);
        Step::Emit { token: lookup_word(keywords, text), next: end }
    }

    /// The token of a punctuation character.
    fn punctuation(c: char) -> (token: Option<TokenType>)
        ensures
            match token {
                Some(token) => punctuation_spec(c) == Some(token@),
                None => punctuation_spec(c) is None,
            },
    {
        if c == '(' {
            Some(TokenType::LeftParen)
        } else if c == ')' {
            Some(TokenType::RightParen)
        } else if c == '{' {
            Some(TokenType::LeftBrace)
        } else if c == '}' {
            Some(TokenType::RightBrace)
        } else if c == ',' {
            Some(TokenType::Comma)
        } else if c == ';' {
            Some(TokenType::Semicolon)
        } else if c == '.' {
            Some(TokenType::Dot)
        } else if c == '-' {
            Some(TokenType::Minus)
        } else if c == '+' {
            Some(TokenType::Plus)
        } else if c == '*' {
            Some(TokenType::Star)
        } else {
            None
        }
    }

    /// The two tokens of `!`, `=`, `<` or `>`: the one it is alone, and the one it is
    /// with `=` after it.
    fn comparison(c: char) -> (tokens: Option<(TokenType, TokenType)>)
        ensures
            match tokens {
                Some((alone, with_equal)) => comparison_spec(c) == Some(
                    OperatorPair { alone: alone@, with_equal: with_equal@ },
                ),
                None => comparison_spec(c) is None,
            },
    {
        if c == '!' {
            Some((TokenType::Bang, TokenType::BangEqual))
        } else if c == '=' {
            Some((TokenType::Equal, TokenType::EqualEqual))
        } else if c == '<' {
            Some((TokenType::Less, TokenType::LessEqual))
        } else if c == '>' {
            Some((TokenType::Greater, TokenType::GreaterEqual))
        } else {
            None
        }
    }

    /// Whether the character after the one at `pos` is `c`.
    fn followed_by(input: &[u8], pos: usize, c: char) -> (r: bool)
        requires
            pos < input@.len(),
        ensures
            r == followed_by(input@, pos as int, c),
    {
        let len = input.len();
        pos + 1 < len && input[pos + 1] as char == c
    }

    /// The offset of the first `target` at or after `from`, if there is one.
    fn peek(input: &[u8], from: usize, target: char) -> (found: Option<usize>)
        requires
            from <= input@.len(),
        ensures
            match found {
                Some(at) => at < input@.len() && at == run_end(
                    input@,
                    from as int,
                    CharClass::Except(target),
                ),
                None => run_end(input@, from as int, CharClass::Except(target)) == input@.len(),
            },
    {
        let end = Self::skip_run(input, from, CharClass::Except(target));
        if end < input.len() {
            Some(end)
        } else {
            None
        }
    }

    /// The end of the longest run of characters of `class` that starts at `from`.
    fn skip_run(input: &[u8], from: usize, class: CharClass) -> (end: usize)
        requires
            from <= input@.len(),
        ensures
            from <= end <= input@.len(),
            end == run_end(input@, from as int, class),
    {
        let mut end = from;
        while end < input.len() && class.has(input[end] as char)
            invariant
                from <= end <= input@.len(),
                run_end(input@, from as int, class) == run_end(input@, end as int, class),
            decreases input@.len() - end,
        {
            end += 1;
        }
        end
    }

    /// How many newlines stand from offset `from` up to offset `to`.
    fn count_newlines(input: &[u8], from: usize, to: usize) -> (count: usize)
        requires
            from <= to <= input@.len(),
        ensures
            newlines_before(input@, to as int) == newlines_before(input@, from as int) + count,
    {
        let mut count: usize = 0;
        let mut at = from;
        while at < to
            invariant
                from <= at <= to <= input@.len(),
                count <= at - from,
                newlines_before(input@, at as int) == newlines_before(input@, from as int)
                    + count,
            decreases to - at,
        {
            if input[at] as char == '\n' {
                count += 1;
            }
            at += 1;
        }
        count
    }
}

} // verus!
