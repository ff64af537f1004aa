use honey::lexer::{CharClass, LexingError, lex, lex_classified};
use honey::parser::parse;
use honey::reducer::validate;
use honey::numbers::Number;
use honey::tokens::{Token, TokenKind};
use honey::tree::{
    BasicType, DeclKeyword, Declaration, Expression, Factor, Identifier, ParseTree, Term, Type,
};

fn kinds(tokens: &[Token]) -> Vec<TokenKind> {
    tokens.iter().map(|t| t.kind).collect()
}

fn texts(tokens: &[Token]) -> Vec<Option<&str>> {
    tokens.iter().map(|t| t.lexeme.as_deref()).collect()
}

#[test]
fn lexes_a_declaration() {
    let tokens = lex("let x: int = 3.14;").unwrap();
    assert_eq!(
        kinds(&tokens),
        vec![
            TokenKind::Keyword,
            TokenKind::Identifier,
            TokenKind::Colon,
            TokenKind::DataType,
            TokenKind::Assignment,
            TokenKind::Number,
            TokenKind::Semicolon,
            TokenKind::Eof,
        ]
    );
    assert_eq!(
        texts(&tokens),
        vec![Some("let"), Some("x"), Some(":"), Some("int"), Some("="), Some("3.14"), Some(";"), None]
    );
}

#[test]
fn two_character_operators_win() {
    let tokens = lex("a<=b>=c==d!=e->f<g>h-i").unwrap();
    assert_eq!(
        kinds(&tokens),
        vec![
            TokenKind::Identifier,
            TokenKind::LessEqual,
            TokenKind::Identifier,
            TokenKind::GreaterEqual,
            TokenKind::Identifier,
            TokenKind::Equal,
            TokenKind::Identifier,
            TokenKind::NotEqual,
            TokenKind::Identifier,
            TokenKind::RightArrow,
            TokenKind::Identifier,
            TokenKind::Less,
            TokenKind::Identifier,
            TokenKind::Greater,
            TokenKind::Identifier,
            TokenKind::Minus,
            TokenKind::Identifier,
            TokenKind::Eof,
        ]
    );
}

#[test]
fn whitespace_and_comments_are_skipped() {
    let tokens = lex("  # a comment\n\tfoo_bar  # another\n12").unwrap();
    assert_eq!(texts(&tokens), vec![Some("foo_bar"), Some("12"), None]);
    assert_eq!(lex("").unwrap().len(), 1);
}

#[test]
fn unicode_letters_make_identifiers() {
    let tokens = lex("héllo").unwrap();
    assert_eq!(texts(&tokens), vec![Some("héllo"), None]);
    assert_eq!(tokens[0].kind, TokenKind::Identifier);
}

#[test]
fn unknown_character_reports_its_place() {
    assert_eq!(lex("let x\n  @"), Err(LexingError::UnknownCharacter { line: 2, column: 3 }));
    assert_eq!(lex("!"), Err(LexingError::UnknownCharacter { line: 1, column: 1 }));
}

#[test]
fn source_to_reduced_values() {
    let tokens = lex("let a: int = 2 + 3 * 4;\nlet b: float = { let c: float = 1.5; c + 1 };").unwrap();
    let program = parse(&tokens).unwrap();
    let v = validate(program).unwrap();
    assert_eq!(v.symbol_table.lookup("a").unwrap().value, Some(Number::Integer(14)));
    assert_eq!(
        v.symbol_table.lookup("b").unwrap().value,
        Some(Number::Float(honey::numbers::Decimal::new(25, 1)))
    );
}

#[test]
fn declaration_round_trip_from_text() {
    let tokens = lex("let x: int = 1;").unwrap();
    let (ast, rest) = honey::parser::parse_declaration(&tokens).unwrap();
    assert_eq!(rest, 7);
    assert_eq!(
        ast,
        ParseTree::Declaration(Declaration {
            keyword: DeclKeyword::Let,
            identifier: Identifier("x".to_string()),
            data_type: Type::BasicType(BasicType::Int),
            expression: Expression::Term(Term::Factor(Factor::Number(Number::Integer(1)))),
        })
    );
}

#[test]
fn sibling_blocks_do_not_share_bindings() {
    let tokens = lex("let a: int = { let z: int = 1; z }; let b: int = { z + 1 };").unwrap();
    let program = parse(&tokens).unwrap();
    assert_eq!(validate(program).err(), Some(honey::fold::SemanticError::ExpectedNumber));
}

#[test]
fn white_space_agrees_with_std() {
    for c in (0u32..0x11000).filter_map(char::from_u32) {
        assert_eq!(honey::lexer::is_whitespace(c), c.is_whitespace(), "{:?}", c);
    }
    let tokens = lex("a\u{3000}b\u{a0}c").unwrap();
    assert_eq!(texts(&tokens), vec![Some("a"), Some("b"), Some("c"), None]);
}

#[test]
fn classes_decide_words_and_numbers() {
    let letter = CharClass { alphabetic: true, numeric: false };
    let digit = CharClass { alphabetic: false, numeric: true };
    let other = CharClass { alphabetic: false, numeric: false };
    let tokens = lex_classified("@x 7", &vec![letter, letter, other, digit]).unwrap();
    assert_eq!(kinds(&tokens), vec![TokenKind::Identifier, TokenKind::Number, TokenKind::Eof]);
    assert_eq!(texts(&tokens), vec![Some("@x"), Some("7"), None]);
    let tokens = lex_classified("ab", &vec![letter, digit]).unwrap();
    assert_eq!(texts(&tokens), vec![Some("a"), Some("b"), None]);
    assert_eq!(
        lex_classified("a$", &vec![letter, other]),
        Err(LexingError::UnknownCharacter { line: 1, column: 2 })
    );
}
