use lexer::error::{Fault, LexError};
use lexer::token::{Token, TokenType};
use lexer::tokenizer::Tokenizer;

fn lex(source: &str) -> Result<Vec<Token>, LexError> {
    Tokenizer::new().tokenize(source, "test")
}

fn tokens(source: &str) -> Vec<Token> {
    match lex(source) {
        Ok(tokens) => tokens,
        Err(error) => panic!("{:?} does not lex: {:?}", source, error),
    }
}

fn kinds(source: &str) -> Vec<TokenType> {
    tokens(source).into_iter().map(|t| t.token).collect()
}

fn lines(source: &str) -> Vec<usize> {
    tokens(source).into_iter().map(|t| t.line).collect()
}

fn error(source: &str) -> LexError {
    match lex(source) {
        Ok(tokens) => panic!("{:?} lexes: {:?}", source, tokens),
        Err(error) => error,
    }
}

fn ident(text: &str) -> TokenType {
    TokenType::Identifier(String::from(text))
}

fn number(text: &str) -> TokenType {
    TokenType::Number(String::from(text))
}

fn string(text: &str) -> TokenType {
    TokenType::String(String::from(text))
}

fn number_value(token: &TokenType) -> f64 {
    match token {
        TokenType::Number(text) => text.parse::<f64>().unwrap(),
        other => panic!("{:?} is no number", other),
    }
}

#[test]
fn empty_input_is_just_eof() {
    assert_eq!(tokens(""), vec![Token { token: TokenType::Eof, line: 1 }]);
}

#[test]
fn blanks_alone_give_only_eof() {
    assert_eq!(tokens(" \t\r  "), vec![Token { token: TokenType::Eof, line: 1 }]);
}

#[test]
fn blanks_and_newlines_give_only_eof() {
    assert_eq!(tokens(" \n\t\n\r\n  "), vec![Token { token: TokenType::Eof, line: 4 }]);
}

#[test]
fn eof_line_counts_a_trailing_newline() {
    assert_eq!(lines("a\n"), vec![1, 2]);
    assert_eq!(lines("a\nb"), vec![1, 2, 2]);
}

#[test]
fn punctuation_tokens() {
    assert_eq!(
        kinds("(){},.-+;*/"),
        vec![
            TokenType::LeftParen,
            TokenType::RightParen,
            TokenType::LeftBrace,
            TokenType::RightBrace,
            TokenType::Comma,
            TokenType::Dot,
            TokenType::Minus,
            TokenType::Plus,
            TokenType::Semicolon,
            TokenType::Star,
            TokenType::Slash,
            TokenType::Eof,
        ]
    );
}

#[test]
fn identifier_is_one_token_with_its_text() {
    assert_eq!(
        tokens("foo_bar1"),
        vec![
            Token { token: ident("foo_bar1"), line: 1 },
            Token { token: TokenType::Eof, line: 1 },
        ]
    );
}

#[test]
fn identifier_may_start_with_underscore_or_capital() {
    assert_eq!(kinds("_x"), vec![ident("_x"), TokenType::Eof]);
    assert_eq!(kinds("Zed9"), vec![ident("Zed9"), TokenType::Eof]);
    assert_eq!(kinds("a_b_c"), vec![ident("a_b_c"), TokenType::Eof]);
}

#[test]
fn keywords_give_their_variants() {
    assert_eq!(kinds("class"), vec![TokenType::Class, TokenType::Eof]);
    assert_eq!(kinds("else"), vec![TokenType::Else, TokenType::Eof]);
    assert_eq!(kinds("false"), vec![TokenType::False, TokenType::Eof]);
    assert_eq!(kinds("fn"), vec![TokenType::Fn, TokenType::Eof]);
    assert_eq!(kinds("for"), vec![TokenType::For, TokenType::Eof]);
    assert_eq!(kinds("if"), vec![TokenType::If, TokenType::Eof]);
    assert_eq!(kinds("nil"), vec![TokenType::Nil, TokenType::Eof]);
    assert_eq!(kinds("or"), vec![TokenType::Or, TokenType::Eof]);
    assert_eq!(kinds("print"), vec![TokenType::Print, TokenType::Eof]);
    assert_eq!(kinds("return"), vec![TokenType::Return, TokenType::Eof]);
    assert_eq!(kinds("super"), vec![TokenType::Super, TokenType::Eof]);
    assert_eq!(kinds("this"), vec![TokenType::This, TokenType::Eof]);
    assert_eq!(kinds("true"), vec![TokenType::True, TokenType::Eof]);
    assert_eq!(kinds("let"), vec![TokenType::Let, TokenType::Eof]);
    assert_eq!(kinds("while"), vec![TokenType::While, TokenType::Eof]);
}

#[test]
fn keyword_as_prefix_is_an_identifier() {
    assert_eq!(kinds("forest"), vec![ident("forest"), TokenType::Eof]);
    assert_eq!(kinds("classy"), vec![ident("classy"), TokenType::Eof]);
    assert_eq!(kinds("if_"), vec![ident("if_"), TokenType::Eof]);
    assert_eq!(kinds("let1"), vec![ident("let1"), TokenType::Eof]);
}

#[test]
fn keywords_match_case_sensitively() {
    assert_eq!(kinds("Class"), vec![ident("Class"), TokenType::Eof]);
    assert_eq!(kinds("WHILE"), vec![ident("WHILE"), TokenType::Eof]);
}

#[test]
fn string_literal_round_trip() {
    assert_eq!(
        tokens("\"abc\""),
        vec![
            Token { token: string("abc"), line: 1 },
            Token { token: TokenType::Eof, line: 1 },
        ]
    );
}

#[test]
fn string_literal_may_be_empty() {
    assert_eq!(kinds("\"\""), vec![string(""), TokenType::Eof]);
}

#[test]
fn string_literal_has_no_escapes() {
    assert_eq!(kinds("\"a\\nb\""), vec![string("a\\nb"), TokenType::Eof]);
    // A backslash does not protect a quote: the literal ends at the first `"`.
    assert_eq!(
        kinds("\"a\\\"b\"c\""),
        vec![string("a\\"), ident("b"), string("c"), TokenType::Eof]
    );
}

#[test]
fn string_literal_keeps_what_is_not_ascii() {
    assert_eq!(kinds("\"héllo ✓\""), vec![string("héllo ✓"), TokenType::Eof]);
}

#[test]
fn string_literal_over_lines_counts_them() {
    assert_eq!(
        tokens("\"a\nb\" x"),
        vec![
            Token { token: string("a\nb"), line: 1 },
            Token { token: ident("x"), line: 2 },
            Token { token: TokenType::Eof, line: 2 },
        ]
    );
}

#[test]
fn unterminated_string_fails_at_line_one() {
    assert_eq!(
        error("\"unterminated"),
        LexError::UnterminatedString { source_label: String::from("test"), line: 1 }
    );
}

#[test]
fn unterminated_string_reports_the_line_of_its_quote() {
    assert_eq!(
        error("a\nb \"open\nmore\n"),
        LexError::UnterminatedString { source_label: String::from("test"), line: 2 }
    );
}

#[test]
fn number_with_fraction() {
    let found = tokens("1.5");
    assert_eq!(
        found,
        vec![
            Token { token: number("1.5"), line: 1 },
            Token { token: TokenType::Eof, line: 1 },
        ]
    );
    assert_eq!(number_value(&found[0].token), 1.5);
}

#[test]
fn number_with_leading_zeros() {
    let found = tokens("007");
    assert_eq!(found[0].token, number("007"));
    assert_eq!(number_value(&found[0].token), 7.0);
    assert_eq!(found.len(), 2);
}

#[test]
fn number_whole() {
    let found = tokens("1234567890");
    assert_eq!(found[0].token, number("1234567890"));
    assert_eq!(number_value(&found[0].token), 1234567890.0);
}

#[test]
fn number_with_bare_dot_is_invalid() {
    assert_eq!(
        error("1."),
        LexError::InvalidNumber { source_label: String::from("test"), line: 1 }
    );
}

#[test]
fn number_with_dot_and_no_digit_is_invalid() {
    assert_eq!(
        error("x\n\n12.foo"),
        LexError::InvalidNumber { source_label: String::from("test"), line: 3 }
    );
    assert_eq!(
        error("1..2"),
        LexError::InvalidNumber { source_label: String::from("test"), line: 1 }
    );
}

#[test]
fn number_takes_one_fraction_only() {
    assert_eq!(
        kinds("1.2.3"),
        vec![number("1.2"), TokenType::Dot, number("3"), TokenType::Eof]
    );
}

#[test]
fn number_has_no_sign_and_no_leading_dot() {
    assert_eq!(kinds("-3"), vec![TokenType::Minus, number("3"), TokenType::Eof]);
    assert_eq!(kinds(".5"), vec![TokenType::Dot, number("5"), TokenType::Eof]);
}

#[test]
fn number_stops_at_a_letter() {
    assert_eq!(kinds("12abc"), vec![number("12"), ident("abc"), TokenType::Eof]);
    assert_eq!(kinds("1e5"), vec![number("1"), ident("e5"), TokenType::Eof]);
}

#[test]
fn comparison_operators() {
    assert_eq!(kinds("!="), vec![TokenType::BangEqual, TokenType::Eof]);
    assert_eq!(kinds("!"), vec![TokenType::Bang, TokenType::Eof]);
    assert_eq!(kinds("=="), vec![TokenType::EqualEqual, TokenType::Eof]);
    assert_eq!(kinds("="), vec![TokenType::Equal, TokenType::Eof]);
    assert_eq!(kinds("<="), vec![TokenType::LessEqual, TokenType::Eof]);
    assert_eq!(kinds("<"), vec![TokenType::Less, TokenType::Eof]);
    assert_eq!(kinds(">="), vec![TokenType::GreaterEqual, TokenType::Eof]);
    assert_eq!(kinds(">"), vec![TokenType::Greater, TokenType::Eof]);
}

#[test]
fn bang_equal_equal_is_two_tokens() {
    assert_eq!(kinds("!=="), vec![TokenType::BangEqual, TokenType::Equal, TokenType::Eof]);
}

#[test]
fn operators_split_greedily() {
    assert_eq!(kinds("==="), vec![TokenType::EqualEqual, TokenType::Equal, TokenType::Eof]);
    assert_eq!(kinds("<=>"), vec![TokenType::LessEqual, TokenType::Greater, TokenType::Eof]);
    assert_eq!(kinds("! ="), vec![TokenType::Bang, TokenType::Equal, TokenType::Eof]);
}

#[test]
fn comment_is_skipped_and_its_newline_counted() {
    let with_comment = tokens("// comment\nlet x;");
    let without = tokens("let x;");
    assert_eq!(
        with_comment,
        vec![
            Token { token: TokenType::Let, line: 2 },
            Token { token: ident("x"), line: 2 },
            Token { token: TokenType::Semicolon, line: 2 },
            Token { token: TokenType::Eof, line: 2 },
        ]
    );
    let a: Vec<&TokenType> = with_comment.iter().map(|t| &t.token).collect();
    let b: Vec<&TokenType> = without.iter().map(|t| &t.token).collect();
    assert_eq!(a, b);
    assert_eq!(with_comment[1].line, 2);
    assert_eq!(without[1].line, 1);
}

#[test]
fn comment_at_the_end_needs_no_newline() {
    assert_eq!(
        tokens("x // the rest \" # | is skipped"),
        vec![
            Token { token: ident("x"), line: 1 },
            Token { token: TokenType::Eof, line: 1 },
        ]
    );
    assert_eq!(kinds("//"), vec![TokenType::Eof]);
}

#[test]
fn comment_may_hold_what_is_not_ascii() {
    assert_eq!(lines("// é ✓\nx"), vec![2, 2]);
}

#[test]
fn slash_alone_is_a_token() {
    assert_eq!(kinds("a / b"), vec![ident("a"), TokenType::Slash, ident("b"), TokenType::Eof]);
    assert_eq!(kinds("/"), vec![TokenType::Slash, TokenType::Eof]);
}

#[test]
fn double_pipe_is_or() {
    assert_eq!(kinds("a || b"), vec![ident("a"), TokenType::Or, ident("b"), TokenType::Eof]);
}

#[test]
fn lone_pipe_is_unexpected() {
    assert_eq!(
        error("a | b"),
        LexError::UnexpectedCharacter {
            source_label: String::from("test"),
            line: 1,
            character: '|',
        }
    );
    assert_eq!(
        error("|"),
        LexError::UnexpectedCharacter {
            source_label: String::from("test"),
            line: 1,
            character: '|',
        }
    );
}

#[test]
fn hash_and_ampersand_are_unexpected() {
    assert_eq!(
        error("#"),
        LexError::UnexpectedCharacter {
            source_label: String::from("test"),
            line: 1,
            character: '#',
        }
    );
    assert_eq!(
        error("a && b"),
        LexError::UnexpectedCharacter {
            source_label: String::from("test"),
            line: 1,
            character: '&',
        }
    );
}

#[test]
fn unexpected_character_reports_its_line() {
    assert_eq!(
        error("a\nb\n  @"),
        LexError::UnexpectedCharacter {
            source_label: String::from("test"),
            line: 3,
            character: '@',
        }
    );
}

#[test]
fn byte_outside_ascii_is_unexpected() {
    // The lexer reads bytes: it names the first byte of `é`, 0xC3.
    assert_eq!(
        error("é"),
        LexError::UnexpectedCharacter {
            source_label: String::from("test"),
            line: 1,
            character: '\u{c3}',
        }
    );
}

#[test]
fn error_carries_the_label() {
    let mut lexer = Tokenizer::new();
    let failure = lexer.tokenize("?", "src/main.lox").unwrap_err();
    assert_eq!(failure.source_label(), "src/main.lox");
    assert_eq!(failure.line(), 1);
    assert_eq!(
        failure,
        LexError::UnexpectedCharacter {
            source_label: String::from("src/main.lox"),
            line: 1,
            character: '?',
        }
    );
}

#[test]
fn error_getters_on_each_variant() {
    let a = error("\n\"");
    assert_eq!(a.line(), 2);
    assert_eq!(a.source_label(), "test");
    let b = error("\n\n3.");
    assert_eq!(b.line(), 3);
    assert_eq!(b.source_label(), "test");
}

#[test]
fn error_at_builds_each_variant() {
    assert_eq!(
        LexError::at(Fault::UnterminatedString, "f", 7),
        LexError::UnterminatedString { source_label: String::from("f"), line: 7 }
    );
    assert_eq!(
        LexError::at(Fault::InvalidNumber, "f", 8),
        LexError::InvalidNumber { source_label: String::from("f"), line: 8 }
    );
    assert_eq!(
        LexError::at(Fault::UnexpectedCharacter('$'), "f", 9),
        LexError::UnexpectedCharacter { source_label: String::from("f"), line: 9, character: '$' }
    );
}

#[test]
fn tokenize_twice_gives_the_same() {
    let mut lexer = Tokenizer::new();
    let source = "let x = 1.5;\n// note\nprint \"hi\";\n";
    let first = lexer.tokenize(source, "twice");
    let second = lexer.tokenize(source, "twice");
    assert_eq!(first, second);
    assert_eq!(first.unwrap().len(), 9);
}

#[test]
fn tokenize_after_an_error_starts_afresh() {
    let mut lexer = Tokenizer::new();
    let first = lexer.tokenize("a\nb\n@", "repl");
    let second = lexer.tokenize("a\nb\n@", "repl");
    assert_eq!(first, second);
    assert_eq!(
        lexer.tokenize("x", "repl"),
        Ok(vec![
            Token { token: ident("x"), line: 1 },
            Token { token: TokenType::Eof, line: 1 },
        ])
    );
}

#[test]
fn reset_between_texts_changes_nothing() {
    let mut lexer = Tokenizer::new();
    let first = lexer.tokenize("a\n\nb", "repl");
    lexer.reset();
    let second = lexer.tokenize("a\n\nb", "repl");
    assert_eq!(first, second);
    assert_eq!(
        second.unwrap().iter().map(|t| t.line).collect::<Vec<usize>>(),
        vec![1, 3, 3]
    );
}

#[test]
fn lines_are_those_of_the_first_character() {
    assert_eq!(lines("a\n\n  b c\nd"), vec![1, 3, 3, 4, 4]);
}

#[test]
fn a_small_program() {
    assert_eq!(
        kinds("fn add(a, b) {\n  return a + b; // sum\n}\nprint add(1, 2.0) >= 3;"),
        vec![
            TokenType::Fn,
            ident("add"),
            TokenType::LeftParen,
            ident("a"),
            TokenType::Comma,
            ident("b"),
            TokenType::RightParen,
            TokenType::LeftBrace,
            TokenType::Return,
            ident("a"),
            TokenType::Plus,
            ident("b"),
            TokenType::Semicolon,
            TokenType::RightBrace,
            TokenType::Print,
            ident("add"),
            TokenType::LeftParen,
            number("1"),
            TokenType::Comma,
            number("2.0"),
            TokenType::RightParen,
            TokenType::GreaterEqual,
            number("3"),
            TokenType::Semicolon,
            TokenType::Eof,
        ]
    );
}

#[test]
fn token_clone_is_equal() {
    let found = tokens("\"s\" name 4.25 while");
    for token in found.iter() {
        assert_eq!(&token.clone(), token);
    }
}

#[test]
fn words_touching_punctuation() {
    assert_eq!(
        kinds("a.b(c)"),
        vec![
            ident("a"),
            TokenType::Dot,
            ident("b"),
            TokenType::LeftParen,
            ident("c"),
            TokenType::RightParen,
            TokenType::Eof,
        ]
    );
}

#[test]
fn tokens_are_reachable_through_the_tokenizer_module() {
    let found = Tokenizer::new().tokenize("+", "test").unwrap();
    assert_eq!(found[0].token, lexer::tokenizer::TokenType::Plus);
    assert_eq!(found[1], lexer::tokenizer::Token { token: lexer::tokenizer::TokenType::Eof, line: 1 });
}

#[test]
fn character_classes() {
    assert!(lexer::chars::is_digit('0') && lexer::chars::is_digit('9'));
    assert!(!lexer::chars::is_digit('a') && !lexer::chars::is_digit('/') && !lexer::chars::is_digit(':'));
    assert!(lexer::chars::is_alpha('a') && lexer::chars::is_alpha('z'));
    assert!(lexer::chars::is_alpha('A') && lexer::chars::is_alpha('Z') && lexer::chars::is_alpha('_'));
    assert!(!lexer::chars::is_alpha('0') && !lexer::chars::is_alpha('é') && !lexer::chars::is_alpha('@'));
    assert!(!lexer::chars::is_alpha('[') && !lexer::chars::is_alpha('`') && !lexer::chars::is_alpha('{'));
    assert!(lexer::chars::is_alphanumeric('_') && lexer::chars::is_alphanumeric('7'));
    assert!(!lexer::chars::is_alphanumeric('-') && !lexer::chars::is_alphanumeric(' '));
    assert!(lexer::chars::is_blank(' ') && lexer::chars::is_blank('\t') && lexer::chars::is_blank('\r'));
    assert!(!lexer::chars::is_blank('\n') && !lexer::chars::is_blank('x'));
}

#[test]
fn character_class_membership() {
    assert!(lexer::grammar::CharClass::Digit.has('5'));
    assert!(!lexer::grammar::CharClass::Digit.has('x'));
    assert!(lexer::grammar::CharClass::Alphanumeric.has('x'));
    assert!(!lexer::grammar::CharClass::Alphanumeric.has('"'));
    assert!(lexer::grammar::CharClass::Except('"').has('x'));
    assert!(!lexer::grammar::CharClass::Except('"').has('"'));
}

#[test]
fn keyword_table_lookup() {
    let table = lexer::keywords::build_keywords();
    assert_eq!(table.len(), 15);
    assert_eq!(lexer::keywords::lookup_word(&table, "while"), TokenType::While);
    assert_eq!(lexer::keywords::lookup_word(&table, "or"), TokenType::Or);
    assert_eq!(lexer::keywords::lookup_word(&table, "whilst"), ident("whilst"));
    assert_eq!(lexer::keywords::lookup_word(&table, "and"), ident("and"));
}
