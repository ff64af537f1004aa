use honey::numbers::{Decimal, Number};
use honey::tokens::{Token, TokenKind};
use honey::tree::{
    BasicType, Block, DeclKeyword, Declaration, Expression, Factor, FuncType, Identifier,
    Parameter, ParseTree, Term, Type,
};

fn token(kind: TokenKind, lexeme: &str) -> Token {
    Token { kind, lexeme: Some(lexeme.to_string()) }
}

#[test]
fn parse_simple_function_declaration() {
    let tokens = vec![
        token(TokenKind::Keyword, "let"),
        token(TokenKind::Identifier, "f"),
        token(TokenKind::Colon, ":"),
        token(TokenKind::LeftParenthesis, "("),
        token(TokenKind::Identifier, "x"),
        token(TokenKind::Colon, ":"),
        token(TokenKind::DataType, "number"),
        token(TokenKind::RightParenthesis, ")"),
        token(TokenKind::RightArrow, "->"),
        token(TokenKind::DataType, "number"),
        token(TokenKind::Assignment, "="),
        token(TokenKind::Number, "3"),
        token(TokenKind::Semicolon, ";"),
    ];

    let expected = ParseTree::Declaration(Declaration {
        keyword: DeclKeyword::Let,
        identifier: Identifier(String::from("f")),
        data_type: Type::FuncType(FuncType {
            param_list: vec![Parameter {
                identifier: Identifier(String::from("x")),
                data_type: Type::BasicType(BasicType::Number),
            }],
            return_type: Box::new(Type::BasicType(BasicType::Number)),
        }),
        expression: Expression::Term(Term::Factor(Factor::Number(Number::Integer(3)))),
    });

    let (ast, _rest) = honey::parser::parse_declaration(&tokens)
        .expect("failed to parse function declaration");

    assert_eq!(ast, expected);
}

#[test]
fn parse_parameter() {
    let tokens = vec![
        token(TokenKind::Identifier, "x"),
        token(TokenKind::Colon, ":"),
        token(TokenKind::DataType, "number"),
    ];

    let expected = ParseTree::Parameter(Parameter {
        identifier: Identifier(String::from("x")),
        data_type: Type::BasicType(BasicType::Number),
    });

    let (ast, _rest) = honey::parser::parse_parameter(&tokens).expect("failed to parse parameter");

    assert_eq!(ast, expected);
}

#[test]
fn parse_parameter_list() {
    let tokens = vec![
        token(TokenKind::Identifier, "x"),
        token(TokenKind::Colon, ":"),
        token(TokenKind::DataType, "number"),
        token(TokenKind::Comma, ","),
        token(TokenKind::Identifier, "y"),
        token(TokenKind::Colon, ":"),
        token(TokenKind::DataType, "number"),
    ];

    let expected = ParseTree::ParameterList {
        parameters: vec![
            Parameter {
                identifier: Identifier(String::from("x")),
                data_type: Type::BasicType(BasicType::Number),
            },
            Parameter {
                identifier: Identifier(String::from("y")),
                data_type: Type::BasicType(BasicType::Number),
            },
        ],
    };

    let (ast, _rest) =
        honey::parser::parse_parameter_list(&tokens).expect("failed to parse parameter list");

    assert_eq!(ast, expected);
}

#[test]
fn parse_block() {
    let tokens = vec![
        token(TokenKind::LeftCurly, "{"),
        token(TokenKind::Number, "3"),
        token(TokenKind::Times, "*"),
        token(TokenKind::Number, "3"),
        token(TokenKind::RightCurly, "}"),
    ];

    let expected = ParseTree::Block(Block {
        statements: vec![],
        return_expression: Expression::Term(Term::Product {
            multiplicant: Box::new(Term::Factor(Factor::Number(Number::Integer(3)))),
            multiplier: Factor::Number(Number::Integer(3)),
        }),
    });

    let (ast, _rest) = honey::parser::parse_block(&tokens).expect("failed to parse block");

    assert_eq!(ast, expected);
}

#[test]
fn parse_declaration() {
    let tokens = vec![
        token(TokenKind::Keyword, "let"),
        token(TokenKind::Identifier, "a"),
        token(TokenKind::Colon, ":"),
        token(TokenKind::DataType, "int"),
        token(TokenKind::Assignment, "="),
        token(TokenKind::Integer, "1"),
        token(TokenKind::Semicolon, ";"),
    ];

    let expected = ParseTree::Declaration(Declaration {
        keyword: DeclKeyword::Let,
        identifier: Identifier("a".to_string()),
        data_type: Type::BasicType(BasicType::Int),
        expression: Expression::Term(Term::Factor(Factor::Number(Number::Integer(1)))),
    });

    let (ast, _rest) =
        honey::parser::parse_declaration(&tokens).expect("failed to parse declaration");

    assert_eq!(ast, expected);
}

#[test]
fn parse_block_expression() {
    let tokens = vec![
        token(TokenKind::LeftCurly, "{"),
        token(TokenKind::Number, "3"),
        token(TokenKind::Times, "*"),
        token(TokenKind::Number, "3"),
        token(TokenKind::RightCurly, "}"),
    ];

    let expected = ParseTree::Expression(Expression::Block(Box::new(Block {
        statements: vec![],
        return_expression: Expression::Term(Term::Product {
            multiplicant: Box::new(Term::Factor(Factor::Number(Number::Integer(3)))),
            multiplier: Factor::Number(Number::Integer(3)),
        }),
    })));

    let (ast, _rest) =
        honey::parser::parse_expression(&tokens).expect("failed to parse block expression");

    assert_eq!(ast, expected);
}

#[test]
fn parse_basic_expression() {
    let tokens = vec![token(TokenKind::Number, "3")];

    let expected = ParseTree::Expression(Expression::Term(Term::Factor(Factor::Number(
        Number::Integer(3),
    ))));

    let (ast, _rest) =
        honey::parser::parse_expression(&tokens).expect("failed to parse basic expression");

    assert_eq!(ast, expected);
}

#[test]
fn parse_sum_expression() {
    let tokens = vec![
        token(TokenKind::Number, "3"),
        token(TokenKind::Plus, "+"),
        token(TokenKind::Number, "3"),
    ];

    let expected = ParseTree::Expression(Expression::Sum {
        augend: Box::new(Expression::Term(Term::Factor(Factor::Number(Number::Integer(3))))),
        addend: Term::Factor(Factor::Number(Number::Integer(3))),
    });

    let (ast, _rest) =
        honey::parser::parse_expression(&tokens).expect("failed to parse sum expression");

    assert_eq!(ast, expected);
}

#[test]
fn parse_difference_expression() {
    let tokens = vec![
        token(TokenKind::Number, "3"),
        token(TokenKind::Minus, "-"),
        token(TokenKind::Number, "3"),
    ];

    let expected = ParseTree::Expression(Expression::Difference {
        minuend: Box::new(Expression::Term(Term::Factor(Factor::Number(Number::Integer(3))))),
        subtrahend: Term::Factor(Factor::Number(Number::Integer(3))),
    });

    let (ast, _rest) =
        honey::parser::parse_expression(&tokens).expect("failed to parse difference expression");

    assert_eq!(ast, expected);
}

#[test]
fn parse_factor_term() {
    let tokens = vec![token(TokenKind::Number, "3")];

    let expected = ParseTree::Term(Term::Factor(Factor::Number(Number::Integer(3))));

    let (ast, _rest) = honey::parser::parse_term(&tokens).expect("failed to parse term");

    assert_eq!(ast, expected);
}

#[test]
fn parse_product_term() {
    let tokens = vec![
        token(TokenKind::Number, "3"),
        token(TokenKind::Times, "*"),
        token(TokenKind::Number, "4"),
    ];

    let expected = ParseTree::Term(Term::Product {
        multiplicant: Box::new(Term::Factor(Factor::Number(Number::Integer(3)))),
        multiplier: Factor::Number(Number::Integer(4)),
    });

    let (ast, _rest) = honey::parser::parse_term(&tokens).expect("failed to parse product term");

    assert_eq!(ast, expected);
}

#[test]
fn parse_division_term() {
    let tokens = vec![
        token(TokenKind::Number, "3"),
        token(TokenKind::Divide, "/"),
        token(TokenKind::Number, "4"),
    ];

    let expected = ParseTree::Term(Term::Quotient {
        dividend: Box::new(Term::Factor(Factor::Number(Number::Integer(3)))),
        divisor: Factor::Number(Number::Integer(4)),
    });

    let (ast, _rest) = honey::parser::parse_term(&tokens).expect("failed to parse division term");

    assert_eq!(ast, expected);
}

#[test]
fn parse_factor_parenthesized_expression() {
    let tokens = vec![
        token(TokenKind::LeftParenthesis, "("),
        token(TokenKind::Number, "3"),
        token(TokenKind::Plus, "+"),
        token(TokenKind::Number, "3"),
        token(TokenKind::RightParenthesis, ")"),
    ];

    let expected = ParseTree::Factor(Factor::ParentheizedExpression(Box::new(Expression::Sum {
        augend: Box::new(Expression::Term(Term::Factor(Factor::Number(Number::Integer(3))))),
        addend: Term::Factor(Factor::Number(Number::Integer(3))),
    })));

    let (ast, _rest) = honey::parser::parse_factor(&tokens)
        .expect("failed to parse parenthesized expression as factor");

    assert_eq!(ast, expected);
}

#[test]
fn parse_factor() {
    let tokens = vec![token(TokenKind::Number, "3")];

    let expected = ParseTree::Factor(Factor::Number(Number::Integer(3)));

    let (ast, _rest) = honey::parser::parse_factor(&tokens).expect("failed to parse factor");

    assert_eq!(ast, expected);
}

#[test]
fn parse_unspecified_floating_point_number() {
    let tokens = vec![token(TokenKind::Number, "3.14")];

    let (ast, _rest) = honey::parser::parse_number(&tokens).expect("failed to parse number");

    assert_eq!(ast, ParseTree::Number(Number::Float(Decimal::new(314, 2))));
}

#[test]
fn parse_unspecified_integer_number() {
    let tokens = vec![token(TokenKind::Number, "3")];

    let (ast, _rest) = honey::parser::parse_number(&tokens).expect("failed to parse number");

    assert_eq!(ast, ParseTree::Number(Number::Integer(3)));
}

#[test]
fn parse_float() {
    let tokens = vec![token(TokenKind::Float, "3.14")];

    let (ast, _rest) = honey::parser::parse_number(&tokens).expect("failed to parse number");

    assert_eq!(ast, ParseTree::Number(Number::Float(Decimal::new(314, 2))));
}

#[test]
fn parse_integer() {
    let tokens = vec![token(TokenKind::Integer, "3")];

    let (ast, _rest) = honey::parser::parse_number(&tokens).expect("failed to parse number");

    assert_eq!(ast, ParseTree::Number(Number::Integer(3)));
}
