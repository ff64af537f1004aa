//! The lexer: source text to tokens. Whitespace and `#` comments (to the end
//! of the line) are skipped; the tokens end with an end-of-stream token.
use vstd::prelude::*;
use crate::tokens::{Token, TokenKind, text_equals};

verus! {

/// Whether a character has the Unicode `White_Space` property, the
/// property that `char::is_whitespace` tests.
pub open spec fn whitespace(c: char) -> bool {
    ||| ('\u{9}' <= c && c <= '\u{d}')
    ||| c == ' '
    ||| c == '\u{85}'
    ||| c == '\u{a0}'
    ||| c == '\u{1680}'
    ||| ('\u{2000}' <= c && c <= '\u{200a}')
    ||| c == '\u{2028}'
    ||| c == '\u{2029}'
    ||| c == '\u{202f}'
    ||| c == '\u{205f}'
    ||| c == '\u{3000}'
}

/// Whether `char::is_alphabetic` holds of a character.
pub uninterp spec fn alphabetic(c: char) -> bool;

/// Whether `char::is_numeric` holds of a character.
pub uninterp spec fn numeric(c: char) -> bool;

/// Whether a character is white space.
pub fn is_whitespace(c: char) -> (r: bool)
    ensures
        r == whitespace(c),
{
    ('\u{9}' <= c && c <= '\u{d}') || c == ' ' || c == '\u{85}' || c == '\u{a0}' || c
        == '\u{1680}' || ('\u{2000}' <= c && c <= '\u{200a}') || c == '\u{2028}' || c
        == '\u{2029}' || c == '\u{202f}' || c == '\u{205f}' || c == '\u{3000}'
}

/// Relies on `char::is_alphabetic`: the Unicode `Alphabetic` property.
#[verifier::external_body]
fn is_alphabetic(c: char) -> (r: bool)
    ensures
        r == alphabetic(c),
{
    c.is_alphabetic()
}

/// Relies on `char::is_numeric`: the Unicode general categories for numbers.
#[verifier::external_body]
fn is_numeric(c: char) -> (r: bool)
    ensures
        r == numeric(c),
{
    c.is_numeric()
}

/// A character the lexer does not know, with its line and column (from 1).
#[derive(Debug, Clone, Copy, PartialEq, Eq, Structural)]
pub enum LexingError {
    UnknownCharacter { line: usize, column: usize },
}

/// The model of a token: its text as a sequence of characters.
pub struct TokenV {
    pub kind: TokenKind,
    pub lexeme: Option<Seq<char>>,
}

pub open spec fn token_v(t: Token) -> TokenV {
    TokenV {
        kind: t.kind,
        lexeme: match t.lexeme {
            Some(s) => Some(s@),
            None => None,
        },
    }
}

pub open spec fn tokens_v(v: Seq<Token>) -> Seq<TokenV> {
    Seq::new(v.len(), |i: int| token_v(v[i]))
}

/// The Unicode classes of a character that the lexer reads: whether it is
/// alphabetic and whether it is numeric.
#[derive(Debug, Clone, Copy, PartialEq, Eq, Structural)]
pub struct CharClass {
    pub alphabetic: bool,
    pub numeric: bool,
}

/// The classes of each character of a text.
pub open spec fn classes_of(s: Seq<char>) -> Seq<CharClass> {
    Seq::new(s.len(), |i: int| CharClass { alphabetic: alphabetic(s[i]), numeric: numeric(s[i]) })
}

/// Whether the character at `k` can be part of a word.
pub open spec fn word_at(s: Seq<char>, cls: Seq<CharClass>, k: int) -> bool {
    cls[k].alphabetic || s[k] == '_'
}

/// The end of the run of positions from `i` on, below `n`, that satisfy
/// `class`.
pub open spec fn run_end(n: int, i: int, class: spec_fn(int) -> bool) -> int
    decreases n - i,
{
    if 0 <= i < n && class(i) {
        run_end(n, i + 1, class)
    } else {
        i
    }
}

pub proof fn lemma_run_end(n: int, i: int, class: spec_fn(int) -> bool)
    requires
        0 <= i <= n,
    ensures
        i <= run_end(n, i, class) <= n,
        i < n && class(i) ==> run_end(n, i, class) > i,
    decreases n - i,
{
    if i < n && class(i) {
        lemma_run_end(n, i + 1, class);
    }
}

/// The end of a number: digits, then optionally a point and more digits.
pub open spec fn number_end(s: Seq<char>, cls: Seq<CharClass>, i: int) -> int {
    let j = run_end(s.len() as int, i, |k: int| cls[k].numeric);
    if 0 <= j < s.len() && s[j] == '.' {
        run_end(s.len() as int, j + 1, |k: int| cls[k].numeric)
    } else {
        j
    }
}

/// The class of a word: a keyword, a data type, or an identifier.
pub open spec fn word_kind(w: Seq<char>) -> TokenKind {
    if w == "let"@ || w == "mut"@ || w == "if"@ || w == "else"@ {
        TokenKind::Keyword
    } else if w == "number"@ || w == "int"@ || w == "float"@ {
        TokenKind::DataType
    } else {
        TokenKind::Identifier
    }
}

/// The operator or punctuation at `i`, with its length: two-character
/// operators are preferred over their one-character prefixes.
pub open spec fn symbol_at(s: Seq<char>, i: int) -> Option<(TokenKind, int)> {
    let c = s[i];
    let next_is = |d: char| i + 1 < s.len() && s[i + 1] == d;
    if c == '=' {
        if next_is('=') { Some((TokenKind::Equal, 2)) } else { Some((TokenKind::Assignment, 1)) }
    } else if c == '!' {
        if next_is('=') { Some((TokenKind::NotEqual, 2)) } else { None }
    } else if c == '<' {
        if next_is('=') { Some((TokenKind::LessEqual, 2)) } else { Some((TokenKind::Less, 1)) }
    } else if c == '>' {
        if next_is('=') { Some((TokenKind::GreaterEqual, 2)) } else { Some((TokenKind::Greater, 1)) }
    } else if c == '-' {
        if next_is('>') { Some((TokenKind::RightArrow, 2)) } else { Some((TokenKind::Minus, 1)) }
    } else if c == ':' {
        Some((TokenKind::Colon, 1))
    } else if c == ';' {
        Some((TokenKind::Semicolon, 1))
    } else if c == ',' {
        Some((TokenKind::Comma, 1))
    } else if c == '+' {
        Some((TokenKind::Plus, 1))
    } else if c == '*' {
        Some((TokenKind::Times, 1))
    } else if c == '/' {
        Some((TokenKind::Divide, 1))
    } else if c == '{' {
        Some((TokenKind::LeftCurly, 1))
    } else if c == '}' {
        Some((TokenKind::RightCurly, 1))
    } else if c == '(' {
        Some((TokenKind::LeftParenthesis, 1))
    } else if c == ')' {
        Some((TokenKind::RightParenthesis, 1))
    } else {
        None
    }
}

/// The tokens of `s`, whose characters have the classes `cls`, from
/// position `i` on, where that position is at the given line and column.
pub open spec fn lex_from(s: Seq<char>, cls: Seq<CharClass>, i: int, line: int, column: int) -> Result<
    Seq<TokenV>,
    LexingError,
>
    decreases s.len() - i,
{
    if i < 0 || i >= s.len() {
        Ok(seq![TokenV { kind: TokenKind::Eof, lexeme: None }])
    } else {
        let c = s[i];
        if whitespace(c) {
            if c == '\n' {
                lex_from(s, cls, i + 1, line + 1, 1)
            } else {
                lex_from(s, cls, i + 1, line, column + 1)
            }
        } else if c == '#' {
            let j = run_end(s.len() as int, i, |k: int| s[k] != '\n');
            if i < j <= s.len() {
                lex_from(s, cls, j, line, column + (j - i))
            } else {
                Err(LexingError::UnknownCharacter { line: line as usize, column: column as usize })
            }
        } else if word_at(s, cls, i) || cls[i].numeric {
            let j = if word_at(s, cls, i) {
                run_end(s.len() as int, i, |k: int| word_at(s, cls, k))
            } else {
                number_end(s, cls, i)
            };
            let w = s.subrange(i, j);
            let kind = if word_at(s, cls, i) {
                word_kind(w)
            } else {
                TokenKind::Number
            };
            if i < j <= s.len() {
                prepend(
                    TokenV { kind, lexeme: Some(w) },
                    lex_from(s, cls, j, line, column + (j - i)),
                )
            } else {
                Err(LexingError::UnknownCharacter { line: line as usize, column: column as usize })
            }
        } else {
            match symbol_at(s, i) {
                Some((kind, n)) => prepend(
                    TokenV { kind, lexeme: Some(s.subrange(i, i + n)) },
                    lex_from(s, cls, i + n, line, column + n),
                ),
                None => Err(
                    LexingError::UnknownCharacter { line: line as usize, column: column as usize },
                ),
            }
        }
    }
}

pub open spec fn prepend(t: TokenV, r: Result<Seq<TokenV>, LexingError>) -> Result<
    Seq<TokenV>,
    LexingError,
> {
    match r {
        Ok(rest) => Ok(seq![t] + rest),
        Err(e) => Err(e),
    }
}

pub open spec fn prepend_all(acc: Seq<TokenV>, r: Result<Seq<TokenV>, LexingError>) -> Result<
    Seq<TokenV>,
    LexingError,
> {
    match r {
        Ok(rest) => Ok(acc + rest),
        Err(e) => Err(e),
    }
}

/// The tokens of a whole text whose characters have the classes `cls`.
pub open spec fn sp_lex_classified(s: Seq<char>, cls: Seq<CharClass>) -> Result<
    Seq<TokenV>,
    LexingError,
> {
    lex_from(s, cls, 0, 1, 1)
}

/// The tokens of a whole text.
pub open spec fn sp_lex(s: Seq<char>) -> Result<Seq<TokenV>, LexingError> {
    sp_lex_classified(s, classes_of(s))
}

fn run_end_exec(source: &str, classes: &Vec<CharClass>, n: usize, i: usize, numbers: bool) -> (r:
    usize)
    requires
        n == source@.len(),
        classes@.len() == n,
        i <= n,
    ensures
        numbers ==> r == run_end(n as int, i as int, |k: int| classes@[k].numeric),
        !numbers ==> r == run_end(n as int, i as int, |k: int| word_at(source@, classes@, k)),
        i <= r <= n,
{
    let mut j = i;
    while j < n
        invariant
            i <= j <= n,
            n == source@.len(),
            classes@.len() == n,
            numbers ==> run_end(n as int, i as int, |k: int| classes@[k].numeric) == run_end(
                n as int,
                j as int,
                |k: int| classes@[k].numeric,
            ),
            !numbers ==> run_end(n as int, i as int, |k: int| word_at(source@, classes@, k))
                == run_end(n as int, j as int, |k: int| word_at(source@, classes@, k)),
        decreases n - j,
    {
        let fits = if numbers {
            classes[j].numeric
        } else {
            classes[j].alphabetic || source.get_char(j) == '_'
        };
        if !fits {
            return j;
        }
        j = j + 1;
    }
    j
}

fn comment_end(source: &str, n: usize, i: usize) -> (r: usize)
    requires
        n == source@.len(),
        i <= n,
    ensures
        r == run_end(n as int, i as int, |k: int| source@[k] != '\n'),
        i <= r <= n,
{
    let mut j = i;
    while j < n
        invariant
            i <= j <= n,
            n == source@.len(),
            run_end(n as int, i as int, |k: int| source@[k] != '\n') == run_end(
                n as int,
                j as int,
                |k: int| source@[k] != '\n',
            ),
        decreases n - j,
    {
        if source.get_char(j) == '\n' {
            return j;
        }
        j = j + 1;
    }
    j
}

fn symbol_exec(source: &str, n: usize, i: usize) -> (r: Option<(TokenKind, usize)>)
    requires
        n == source@.len(),
        i < n,
    ensures
        match symbol_at(source@, i as int) {
            Some((k, m)) => r == Some((k, m as usize)),
            None => r is None,
        },
{
    let c = source.get_char(i);
    let next = if i + 1 < n {
        Some(source.get_char(i + 1))
    } else {
        None
    };
    let next_is_eq = matches!(next, Some('='));
    if c == '=' {
        if next_is_eq { Some((TokenKind::Equal, 2)) } else { Some((TokenKind::Assignment, 1)) }
    } else if c == '!' {
        if next_is_eq { Some((TokenKind::NotEqual, 2)) } else { None }
    } else if c == '<' {
        if next_is_eq { Some((TokenKind::LessEqual, 2)) } else { Some((TokenKind::Less, 1)) }
    } else if c == '>' {
        if next_is_eq { Some((TokenKind::GreaterEqual, 2)) } else { Some((TokenKind::Greater, 1)) }
    } else if c == '-' {
        if matches!(next, Some('>')) {
            Some((TokenKind::RightArrow, 2))
        } else {
            Some((TokenKind::Minus, 1))
        }
    } else if c == ':' {
        Some((TokenKind::Colon, 1))
    } else if c == ';' {
        Some((TokenKind::Semicolon, 1))
    } else if c == ',' {
        Some((TokenKind::Comma, 1))
    } else if c == '+' {
        Some((TokenKind::Plus, 1))
    } else if c == '*' {
        Some((TokenKind::Times, 1))
    } else if c == '/' {
        Some((TokenKind::Divide, 1))
    } else if c == '{' {
        Some((TokenKind::LeftCurly, 1))
    } else if c == '}' {
        Some((TokenKind::RightCurly, 1))
    } else if c == '(' {
        Some((TokenKind::LeftParenthesis, 1))
    } else if c == ')' {
        Some((TokenKind::RightParenthesis, 1))
    } else {
        None
    }
}

fn word_kind_exec(w: &str) -> (r: TokenKind)
    ensures
        r == word_kind(w@),
{
    if text_equals(w, "let") || text_equals(w, "mut") || text_equals(w, "if") || text_equals(
        w,
        "else",
    ) {
        TokenKind::Keyword
    } else if text_equals(w, "number") || text_equals(w, "int") || text_equals(w, "float") {
        TokenKind::DataType
    } else {
        TokenKind::Identifier
    }
}

/// Reads the tokens of a source text whose characters have the given
/// classes, one for each character.
pub fn lex_classified(source: &str, classes: &Vec<CharClass>) -> (r: Result<Vec<Token>, LexingError>)
    requires
        source@.len() < usize::MAX,
        classes@.len() == source@.len(),
    ensures
        match r {
            Ok(tokens) => sp_lex_classified(source@, classes@) == Ok::<_, LexingError>(
                tokens_v(tokens@),
            ),
            Err(e) => sp_lex_classified(source@, classes@) == Err::<Seq<TokenV>, LexingError>(e),
        },
{
    let n = source.unicode_len();
    let ghost s = source@;
    let ghost cls = classes@;
    let mut tokens: Vec<Token> = Vec::new();
    let mut i: usize = 0;
    let mut line: usize = 1;
    let mut column: usize = 1;
    assert(tokens_v(tokens@) =~= Seq::<TokenV>::empty());
    assert(prepend_all(Seq::empty(), sp_lex_classified(s, cls)) =~= sp_lex_classified(s, cls)) by {
        match sp_lex_classified(s, cls) {
            Ok(rest) => assert(Seq::<TokenV>::empty() + rest =~= rest),
            Err(_) => {},
        }
    };
    while i < n
        invariant
            n == s.len(),
            s == source@,
            n < usize::MAX,
            i <= n,
            1 <= line <= i + 1,
            1 <= column <= i + 1,
            cls == classes@,
            cls.len() == n,
            sp_lex_classified(s, cls) == prepend_all(
                tokens_v(tokens@),
                lex_from(s, cls, i as int, line as int, column as int),
            ),
        decreases n - i,
    {
        let c = source.get_char(i);
        let ghost acc = tokens_v(tokens@);
        if is_whitespace(c) {
            if c == '\n' {
                line = line + 1;
                column = 1;
            } else {
                column = column + 1;
            }
            i = i + 1;
        } else if c == '#' {
            let j = comment_end(source, n, i);
            proof {
                lemma_run_end(n as int, i as int, |k: int| s[k] != '\n');
            }
            column = column + (j - i);
            i = j;
        } else {
            let word = classes[i].alphabetic || c == '_';
            let (kind, j) = if word || classes[i].numeric {
                let j = if word {
                    run_end_exec(source, classes, n, i, false)
                } else {
                    let k = run_end_exec(source, classes, n, i, true);
                    if k < n && source.get_char(k) == '.' {
                        run_end_exec(source, classes, n, k + 1, true)
                    } else {
                        k
                    }
                };
                proof {
                    lemma_run_end(n as int, i as int, |k: int| word_at(s, cls, k));
                    lemma_run_end(n as int, i as int, |k: int| cls[k].numeric);
                    let k = run_end(n as int, i as int, |k: int| cls[k].numeric);
                    if 0 <= k < s.len() && s[k] == '.' {
                        lemma_run_end(n as int, k + 1, |k: int| cls[k].numeric);
                    }
                }
                let text = source.substring_char(i, j);
                let kind = if word {
                    word_kind_exec(text)
                } else {
                    TokenKind::Number
                };
                (kind, j)
            } else {
                match symbol_exec(source, n, i) {
                    Some((kind, m)) => (kind, i + m),
                    None => {
                        return Err(LexingError::UnknownCharacter { line, column });
                    },
                }
            };
            let text = source.substring_char(i, j);
            let t = Token { kind, lexeme: Some(String::from_str(text)) };
            tokens.push(t);
            assert(tokens_v(tokens@) =~= acc.push(token_v(t)));
            assert(acc.push(token_v(t)) =~= acc + seq![token_v(t)]);
            proof {
                let rest = lex_from(s, cls, j as int, line as int, (column + (j - i)) as int);
                match rest {
                    Ok(r) => assert(acc + (seq![token_v(t)] + r) =~= acc.push(token_v(t)) + r),
                    Err(_) => {},
                }
            }
            column = column + (j - i);
            i = j;
        }
    }
    let end = Token { kind: TokenKind::Eof, lexeme: None };
    let ghost acc = tokens_v(tokens@);
    tokens.push(end);
    assert(tokens_v(tokens@) =~= acc + seq![token_v(end)]);
    Ok(tokens)
}

/// Reads the tokens of a source text, classing each character with
/// `char::is_alphabetic` and `char::is_numeric`.
pub fn lex(source: &str) -> (r: Result<Vec<Token>, LexingError>)
    requires
        source@.len() < usize::MAX,
    ensures
        match r {
            Ok(tokens) => sp_lex(source@) == Ok::<_, LexingError>(tokens_v(tokens@)),
            Err(e) => sp_lex(source@) == Err::<Seq<TokenV>, LexingError>(e),
        },
{
    let n = source.unicode_len();
    let mut classes: Vec<CharClass> = Vec::new();
    let mut i: usize = 0;
    while i < n
        invariant
            n == source@.len(),
            i <= n,
            classes@.len() == i,
            forall|k: int| 0 <= k < i ==> #[trigger] classes@[k] == classes_of(source@)[k],
        decreases n - i,
    {
        let c = source.get_char(i);
        classes.push(CharClass { alphabetic: is_alphabetic(c), numeric: is_numeric(c) });
        i = i + 1;
    }
    assert(classes@ =~= classes_of(source@));
    lex_classified(source, &classes)
}

} // verus!
