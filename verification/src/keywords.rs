//! The reserved words of the language.

use crate::token::{TokenKind, TokenType};
use vstd::hash_map::StringHashMap;
use vstd::prelude::*;

verus! {

/// The keyword table: each reserved spelling with the token it stands for. A
/// spelling matches by exact, case-sensitive equality.
pub open spec fn keyword_table() -> Map<Seq<char>, TokenType> {
    map![
        "class"@ => TokenType::Class,
        "else"@ => TokenType::Else,
        "false"@ => TokenType::False,
        "for"@ => TokenType::For,
        "fn"@ => TokenType::Fn,
        "if"@ => TokenType::If,
        "nil"@ => TokenType::Nil,
        "or"@ => TokenType::Or,
        "print"@ => TokenType::Print,
        "return"@ => TokenType::Return,
        "super"@ => TokenType::Super,
        "this"@ => TokenType::This,
        "true"@ => TokenType::True,
        "let"@ => TokenType::Let,
        "while"@ => TokenType::While,
    ]
}

/// Whether `text` is a reserved word.
pub open spec fn is_keyword(text: Seq<char>) -> bool {
    keyword_table().contains_key(text)
}

/// The token that a word of the source stands for: its keyword if it is reserved,
/// else an identifier with that spelling.
pub open spec fn word_kind(text: Seq<char>) -> TokenKind {
    if is_keyword(text) {
        keyword_table()[text]@
    } else {
        TokenKind::Identifier(text)
    }
}

/// Every reserved word is made of small letters, at least one, and stands for a token
/// that carries no text and is neither `Eof` nor `And`.
pub proof fn lemma_keywords_are_words(text: Seq<char>)
    requires
        is_keyword(text),
    ensures
        text.len() > 0,
        forall|i: int| 0 <= i < text.len() ==> 'a' <= #[trigger] text[i] <= 'z',
        !(keyword_table()[text]@ is Identifier),
        !(keyword_table()[text]@ is String),
        !(keyword_table()[text]@ is Number),
        !(keyword_table()[text]@ is Eof),
        !(keyword_table()[text]@ is And),
{
    reveal_strlit("class");
    reveal_strlit("else");
    reveal_strlit("false");
    reveal_strlit("for");
    reveal_strlit("fn");
    reveal_strlit("if");
    reveal_strlit("nil");
    reveal_strlit("or");
    reveal_strlit("print");
    reveal_strlit("return");
    reveal_strlit("super");
    reveal_strlit("this");
    reveal_strlit("true");
    reveal_strlit("let");
    reveal_strlit("while");
}

/// Builds the keyword table.
pub fn build_keywords() -> (table: StringHashMap<TokenType>)
    ensures
        table@ == keyword_table(),
{
    let mut table: StringHashMap<TokenType> = StringHashMap::new();
    table.insert("class".to_owned(), TokenType::Class);
    table.insert("else".to_owned(), TokenType::Else);
    table.insert("false".to_owned(), TokenType::False);
    table.insert("for".to_owned(), TokenType::For);
    table.insert("fn".to_owned(), TokenType::Fn);
    table.insert("if".to_owned(), TokenType::If);
    table.insert("nil".to_owned(), TokenType::Nil);
    table.insert("or".to_owned(), TokenType::Or);
    table.insert("print".to_owned(), TokenType::Print);
    table.insert("return".to_owned(), TokenType::Return);
    table.insert("super".to_owned(), TokenType::Super);
    table.insert("this".to_owned(), TokenType::This);
    table.insert("true".to_owned(), TokenType::True);
    table.insert("let".to_owned(), TokenType::Let);
    table.insert("while".to_owned(), TokenType::While);
    table
}

/// Looks a word up: the token it stands for.
pub fn lookup_word(table: &StringHashMap<TokenType>, word: &str) -> (token: TokenType)
    requires
        table@ == keyword_table(),
    ensures
        token@ == word_kind(word@),
{
    match table.get(word) {
        Some(keyword) => keyword.clone(),
        None => TokenType::Identifier(word.to_owned()),
    }
}

} // verus!
