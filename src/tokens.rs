//! Tokens as handed over by the lexer.
use vstd::prelude::*;

verus! {

/// The class of a lexical unit.
#[derive(Debug, Clone, Copy, PartialEq, Eq, Structural)]
pub enum TokenKind {
    Keyword,
    Identifier,
    DataType,
    Colon,
    Assignment,
    Semicolon,
    Comma,
    Plus,
    Minus,
    Times,
    Divide,
    LeftParenthesis,
    RightParenthesis,
    LeftCurly,
    RightCurly,
    RightArrow,
    Less,
    Greater,
    LessEqual,
    GreaterEqual,
    Equal,
    NotEqual,
    Number,
    Integer,
    Float,
    Eof,
}

/// A classified lexical unit with the text it was read from, if any.
#[derive(Debug, Clone, PartialEq)]
pub struct Token {
    pub kind: TokenKind,
    pub lexeme: Option<String>,
}

/// Whether the token's text is exactly `word`.
pub open spec fn has_text(t: Token, word: Seq<char>) -> bool {
    t.lexeme is Some && t.lexeme->0@ == word
}

/// Compares a string with a word, character by character.
pub fn text_equals(s: &str, word: &str) -> (r: bool)
    ensures
        r == (s@ == word@),
{
    let n = s.unicode_len();
    let m = word.unicode_len();
    if n != m {
        return false;
    }
    let mut i: usize = 0;
    while i < n
        invariant
            n == s@.len(),
            m == word@.len(),
            n == m,
            i <= n,
            forall|j: int| 0 <= j < i ==> s@[j] == word@[j],
        decreases n - i,
    {
        if s.get_char(i) != word.get_char(i) {
            return false;
        }
        i = i + 1;
    }
    assert(s@ =~= word@);
    true
}

/// Whether the token carries exactly the text `word`.
pub fn token_has_text(t: &Token, word: &str) -> (r: bool)
    ensures
        r == has_text(*t, word@),
{
    match &t.lexeme {
        Some(s) => text_equals(s.as_str(), word),
        None => false,
    }
}

/// A copy of a token, equal to it.
pub fn copy_token(t: &Token) -> (r: Token)
    ensures
        r == *t,
{
    let lexeme = match &t.lexeme {
        Some(s) => Some(s.clone()),
        None => None,
    };
    Token { kind: t.kind, lexeme }
}

} // verus!
