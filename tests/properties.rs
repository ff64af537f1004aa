use honey::codegen::{Assembler, CodegenError, X86_64, int_to_text};
use honey::fold::SemanticError;
use honey::grammar::{Expected, ParsingError};
use honey::numbers::{Decimal, Number, parse_float_literal, parse_integer_literal};
use honey::parser::{Parser, parse, parse_expression};
use honey::reducer::{SymbolTable, Validator, validate};
use honey::tokens::{Token, TokenKind};
use honey::tree::{
    BasicType, Block, Comparison, DeclKeyword, Declaration, Expression, Factor, Identifier,
    ParseTree, Statement, Term, Type,
};

/// Splits space-separated words into tokens.
fn tokens(source: &str) -> Vec<Token> {
    source
        .split_whitespace()
        .map(|word| {
            let kind = match word {
                "let" | "mut" | "if" | "else" => TokenKind::Keyword,
                "number" | "int" | "float" => TokenKind::DataType,
                ":" => TokenKind::Colon,
                "=" => TokenKind::Assignment,
                ";" => TokenKind::Semicolon,
                "," => TokenKind::Comma,
                "+" => TokenKind::Plus,
                "-" => TokenKind::Minus,
                "*" => TokenKind::Times,
                "/" => TokenKind::Divide,
                "(" => TokenKind::LeftParenthesis,
                ")" => TokenKind::RightParenthesis,
                "{" => TokenKind::LeftCurly,
                "}" => TokenKind::RightCurly,
                "->" => TokenKind::RightArrow,
                "<" => TokenKind::Less,
                ">" => TokenKind::Greater,
                "<=" => TokenKind::LessEqual,
                ">=" => TokenKind::GreaterEqual,
                "==" => TokenKind::Equal,
                "!=" => TokenKind::NotEqual,
                w if w.chars().next().map_or(false, |c| c.is_ascii_digit()) => TokenKind::Number,
                _ => TokenKind::Identifier,
            };
            Token { kind, lexeme: Some(word.to_string()) }
        })
        .collect()
}

fn lit(v: i64) -> Factor {
    Factor::Number(Number::Integer(v))
}

fn folded(n: Number) -> Expression {
    Expression::Term(Term::Factor(Factor::Number(n)))
}

fn validated(source: &str) -> Result<Validator, SemanticError> {
    validate(parse(&tokens(source)).expect("the program parses"))
}

fn value_of(v: &Validator, name: &str) -> Option<Number> {
    v.symbol_table.lookup(name).and_then(|var| var.value)
}

#[test]
fn multiplication_binds_tighter_than_addition() {
    let (ast, rest) = parse_expression(&tokens("1 + 2 * 3")).unwrap();
    assert_eq!(rest, 5);
    assert_eq!(
        ast,
        ParseTree::Expression(Expression::Sum {
            augend: Box::new(Expression::Term(Term::Factor(lit(1)))),
            addend: Term::Product { multiplicant: Box::new(Term::Factor(lit(2))), multiplier: lit(3) },
        })
    );
    let (ast, _) = parse_expression(&tokens("8 - 6 / 2")).unwrap();
    assert_eq!(
        ast,
        ParseTree::Expression(Expression::Difference {
            minuend: Box::new(Expression::Term(Term::Factor(lit(8)))),
            subtrahend: Term::Quotient { dividend: Box::new(Term::Factor(lit(6))), divisor: lit(2) },
        })
    );
}

#[test]
fn operators_of_one_level_nest_on_the_left() {
    let (ast, _) = parse_expression(&tokens("1 - 2 - 3")).unwrap();
    assert_eq!(
        ast,
        ParseTree::Expression(Expression::Difference {
            minuend: Box::new(Expression::Difference {
                minuend: Box::new(Expression::Term(Term::Factor(lit(1)))),
                subtrahend: Term::Factor(lit(2)),
            }),
            subtrahend: Term::Factor(lit(3)),
        })
    );
    let v = validated("let x : int = 1 - 2 - 3 ; let y : int = 8 / 2 / 2 ;").unwrap();
    assert_eq!(value_of(&v, "x"), Some(Number::Integer(-4)));
    assert_eq!(value_of(&v, "y"), Some(Number::Integer(2)));
}

#[test]
fn parentheses_keep_the_value() {
    let plain = validated("let a : int = 1 + 2 * 3 ;").unwrap();
    let wrapped = validated("let a : int = ( 1 + 2 * 3 ) ;").unwrap();
    assert_eq!(value_of(&plain, "a"), Some(Number::Integer(7)));
    assert_eq!(value_of(&wrapped, "a"), Some(Number::Integer(7)));
    let regrouped = validated("let a : int = ( 1 + 2 ) * 3 ;").unwrap();
    assert_eq!(value_of(&regrouped, "a"), Some(Number::Integer(9)));
}

#[test]
fn declaration_round_trip() {
    let (ast, rest) = honey::parser::parse_declaration(&tokens("let x : int = 1 ;")).unwrap();
    assert_eq!(rest, 7);
    assert_eq!(
        ast,
        ParseTree::Declaration(Declaration {
            keyword: DeclKeyword::Let,
            identifier: Identifier("x".to_string()),
            data_type: Type::BasicType(BasicType::Int),
            expression: Expression::Term(Term::Factor(lit(1))),
        })
    );
    let v = validated("let x : int = 1 ;").unwrap();
    assert_eq!(
        v.program.statements,
        vec![Statement::Declaration(Declaration {
            keyword: DeclKeyword::Let,
            identifier: Identifier("x".to_string()),
            data_type: Type::BasicType(BasicType::Int),
            expression: folded(Number::Integer(1)),
        })]
    );
    assert_eq!(value_of(&v, "x"), Some(Number::Integer(1)));
}

#[test]
fn block_trailing_expression() {
    let (ast, _) = honey::parser::parse_block(&tokens("{ 3 * 3 }")).unwrap();
    assert_eq!(
        ast,
        ParseTree::Block(Block {
            statements: vec![],
            return_expression: Expression::Term(Term::Product {
                multiplicant: Box::new(Term::Factor(lit(3))),
                multiplier: lit(3),
            }),
        })
    );
    let v = validated("{ 3 * 3 }").unwrap();
    assert_eq!(
        v.program.statements,
        vec![Statement::Expression(Expression::Block(Box::new(Block {
            statements: vec![],
            return_expression: folded(Number::Integer(9)),
        })))]
    );
}

#[test]
fn block_statements_before_the_trailing_expression() {
    let (ast, _) = honey::parser::parse_block(&tokens("{ let a : int = 2 ; a * 3 }")).unwrap();
    match ast {
        ParseTree::Block(b) => {
            assert_eq!(b.statements.len(), 1);
            assert!(matches!(b.return_expression, Expression::Term(Term::Product { .. })));
        }
        other => panic!("not a block: {:?}", other),
    }
    let (ast, _) = honey::parser::parse_block(&tokens("{ }")).unwrap();
    assert_eq!(ast, ParseTree::Block(Block { statements: vec![], return_expression: Expression::Unit }));
}

#[test]
fn mixed_type_addition_fails() {
    assert_eq!(validated("let x : number = 1 + 2.5 ;").err(), Some(SemanticError::MismatchedTypes));
    assert_eq!(validated("let x : number = 2.5 + 1 ;").err(), Some(SemanticError::MismatchedTypes));
}

#[test]
fn shadowing_in_one_scope_keeps_both_bindings() {
    let v = validated("let x : int = 1 ; let x : int = 2 ;").unwrap();
    let frames = v.symbol_table.frames();
    assert_eq!(frames.len(), 1);
    let names: Vec<&str> = frames[0].iter().map(|b| b.name.as_str()).collect();
    assert_eq!(names, vec!["x", "x"]);
    assert_eq!(frames[0][0].variable.value, Some(Number::Integer(1)));
    assert_eq!(frames[0][1].variable.value, Some(Number::Integer(2)));
    assert_eq!(value_of(&v, "x"), Some(Number::Integer(2)));
}

#[test]
fn bindings_of_an_exited_block_are_gone() {
    let v = validated("let y : int = { let z : int = 5 ; z + 1 } ; let w : int = y * 2 ;").unwrap();
    assert_eq!(value_of(&v, "y"), Some(Number::Integer(6)));
    assert_eq!(value_of(&v, "w"), Some(Number::Integer(12)));
    assert!(v.symbol_table.lookup("z").is_none());
    assert_eq!(v.symbol_table.frames().len(), 1);
}

#[test]
fn if_else_if_chain() {
    let (ast, rest) =
        parse_expression(&tokens("if a { 1 } else if b { 2 } else { 3 }")).unwrap();
    assert_eq!(rest, 15);
    let block = |v: i64| Block { statements: vec![], return_expression: Expression::Term(Term::Factor(lit(v))) };
    match ast {
        ParseTree::Expression(Expression::If(i)) => {
            assert_eq!(
                i.if_block.condition,
                Expression::Term(Term::Factor(Factor::Identifier(Identifier("a".to_string()))))
            );
            assert_eq!(i.if_block.block, block(1));
            assert_eq!(i.else_if_blocks.len(), 1);
            assert_eq!(
                i.else_if_blocks[0].condition,
                Expression::Term(Term::Factor(Factor::Identifier(Identifier("b".to_string()))))
            );
            assert_eq!(i.else_if_blocks[0].block, block(2));
            assert_eq!(i.else_block, Some(block(3)));
        }
        other => panic!("not an if: {:?}", other),
    }
}

#[test]
fn consecutive_else_if_branches() {
    let (ast, _) = parse_expression(&tokens("if a { 1 } else if b { 2 } else if c { 3 }")).unwrap();
    match ast {
        ParseTree::Expression(Expression::If(i)) => {
            assert_eq!(i.else_if_blocks.len(), 2);
            assert!(i.else_block.is_none());
        }
        other => panic!("not an if: {:?}", other),
    }
}

#[test]
fn comparison_wraps_two_additive_expressions() {
    let (ast, _) = parse_expression(&tokens("a + 1 <= b * 2")).unwrap();
    match ast {
        ParseTree::Expression(Expression::Comparison { operator, left, right }) => {
            assert_eq!(operator, Comparison::LessEqual);
            assert!(matches!(*left, Expression::Sum { .. }));
            assert!(matches!(*right, Expression::Term(Term::Product { .. })));
        }
        other => panic!("not a comparison: {:?}", other),
    }
}

#[test]
fn function_call_and_function_type() {
    let (ast, _) = parse_expression(&tokens("f ( 1 , x )")).unwrap();
    assert_eq!(
        ast,
        ParseTree::Expression(Expression::Term(Term::Factor(Factor::FunctionCall {
            name: Identifier("f".to_string()),
            arguments: vec![
                Expression::Term(Term::Factor(lit(1))),
                Expression::Term(Term::Factor(Factor::Identifier(Identifier("x".to_string())))),
            ],
        })))
    );
    let (ty, _) = honey::parser::parse_type(&tokens("( g : ( x : int ) -> int ) -> float")).unwrap();
    match ty {
        ParseTree::Type(Type::FuncType(f)) => {
            assert_eq!(f.param_list.len(), 1);
            assert!(matches!(f.param_list[0].data_type, Type::FuncType(_)));
            assert_eq!(*f.return_type, Type::BasicType(BasicType::Float));
        }
        other => panic!("not a function type: {:?}", other),
    }
}

#[test]
fn negated_factor() {
    let (ast, _) = honey::parser::parse_term(&tokens("- 2 * 3")).unwrap();
    assert_eq!(
        ast,
        ParseTree::Term(Term::Product { multiplicant: Box::new(Term::NegatedFactor(lit(2))), multiplier: lit(3) })
    );
    let v = validated("let n : int = - 2 * 3 ;").unwrap();
    assert_eq!(value_of(&v, "n"), Some(Number::Integer(-6)));
}

#[test]
fn syntax_errors_name_what_was_expected() {
    let missing_semicolon = parse(&tokens("let x : int = 1"));
    assert_eq!(
        missing_semicolon.err(),
        Some(ParsingError { expected: Expected::Token(TokenKind::Semicolon), found: None })
    );
    let missing_name = parse(&tokens("let : int = 1 ;"));
    assert_eq!(
        missing_name.err(),
        Some(ParsingError {
            expected: Expected::Identifier,
            found: Some(Token { kind: TokenKind::Colon, lexeme: Some(":".to_string()) }),
        })
    );
    let bad_type = parse(&tokens("let x : + = 1 ;"));
    assert_eq!(bad_type.err().map(|e| e.expected), Some(Expected::Type));
    let bad_factor = parse_expression(&tokens("* 2"));
    assert_eq!(bad_factor.err().map(|e| e.expected), Some(Expected::Factor));
    let unclosed = honey::parser::parse_block(&tokens("{ 1"));
    assert_eq!(
        unclosed.err(),
        Some(ParsingError { expected: Expected::Token(TokenKind::RightCurly), found: None })
    );
    let bad_number = honey::parser::parse_number(&tokens("1.2.3"));
    assert_eq!(bad_number.err().map(|e| e.expected), Some(Expected::Number));
}

#[test]
fn program_ends_at_end_of_stream_token() {
    let mut toks = tokens("let x : int = 1 ;");
    toks.push(Token { kind: TokenKind::Eof, lexeme: None });
    let program = parse(&toks).unwrap();
    assert_eq!(program.statements.len(), 1);
    let mut parser = Parser::new(toks);
    let again = parser.parse_program().unwrap();
    assert_eq!(again, program);
}

#[test]
fn assignment_statement() {
    let program = parse(&tokens("mut x : int = 1 ; x = 2 + 3 ;")).unwrap();
    assert_eq!(program.statements.len(), 2);
    let v = validate(program).unwrap();
    match &v.program.statements[1] {
        Statement::Assignment(a) => assert_eq!(a.expression, folded(Number::Integer(5))),
        other => panic!("not an assignment: {:?}", other),
    }
}

#[test]
fn literals_take_the_declared_type() {
    let v = validated("let f : float = 1 ; let n : number = 2 ; let d : number = 2.50 ;").unwrap();
    assert_eq!(value_of(&v, "f"), Some(Number::Float(Decimal::new(1, 0))));
    assert_eq!(value_of(&v, "n"), Some(Number::Integer(2)));
    assert_eq!(value_of(&v, "d"), Some(Number::Float(Decimal::new(250, 2))));
    assert_eq!(validated("let i : int = 2.5 ;").err(), Some(SemanticError::LiteralType));
}

#[test]
fn literal_reading() {
    assert_eq!(parse_integer_literal("42"), Some(42));
    assert_eq!(parse_integer_literal("9223372036854775807"), Some(i64::MAX));
    assert_eq!(parse_integer_literal("9223372036854775808"), None);
    assert_eq!(parse_integer_literal("4.2"), None);
    assert_eq!(parse_integer_literal(""), None);
    assert_eq!(parse_float_literal("3.14"), Some(Decimal::new(314, 2)));
    assert_eq!(parse_float_literal("7"), Some(Decimal::new(7, 0)));
    assert_eq!(parse_float_literal(".5"), Some(Decimal::new(5, 1)));
    assert_eq!(parse_float_literal("2."), Some(Decimal::new(2, 0)));
    assert_eq!(parse_float_literal("."), None);
    assert_eq!(parse_float_literal("1e5"), None);
    let v = 3.14f64;
    assert_eq!(parse_float_literal("3.14").map(|d| d.mantissa as f64 / 10f64.powi(d.scale as i32)), Some(v));
}

#[test]
fn folding_arithmetic() {
    let v = validated("let a : float = 1.5 + 2.25 ; let b : float = 1.5 * 1.5 ; let c : float = 1 - 2.5 ;").unwrap();
    assert_eq!(value_of(&v, "a"), Some(Number::Float(Decimal::new(375, 2))));
    assert_eq!(value_of(&v, "b"), Some(Number::Float(Decimal::new(225, 2))));
    assert_eq!(value_of(&v, "c"), Some(Number::Float(Decimal::new(-15, 1))));
    let w = validated("let m : int = 9223372036854775807 + 1 ; let q : int = 7 / 2 ; let r : int = - 7 / 2 ;").unwrap();
    assert_eq!(value_of(&w, "m"), Some(Number::Integer(i64::MIN)));
    assert_eq!(value_of(&w, "q"), Some(Number::Integer(3)));
    assert_eq!(value_of(&w, "r"), Some(Number::Integer(-3)));
}

#[test]
fn semantic_errors() {
    assert_eq!(validated("let i : int = 1 / 0 ;").err(), Some(SemanticError::DivisionByZero));
    assert_eq!(validated("let f : float = 1.0 / 2.0 ;").err(), Some(SemanticError::FloatDivision));
    assert_eq!(
        validated("let f : float = 3037000500.0 * 3037000500.0 ;").err(),
        Some(SemanticError::FloatOutOfRange)
    );
    assert_eq!(validated("let i : int = f ( 1 ) ;").err(), Some(SemanticError::ExpectedNumber));
    assert_eq!(validated("let i : int = 1 < 2 ;").err(), Some(SemanticError::ExpectedNumber));
    assert_eq!(validated("let i : int = y + 1 ;").err(), Some(SemanticError::ExpectedNumber));
    assert_eq!(
        validated("mut x : int = 1 ; let y : int = x + 1 ;").err(),
        Some(SemanticError::ExpectedNumber)
    );
}

#[test]
fn symbol_table_scopes() {
    let mut table = SymbolTable::new();
    table.declare(
        "a".to_string(),
        honey::reducer::Variable { mutable: false, datatype: Type::BasicType(BasicType::Int), value: Some(Number::Integer(1)) },
    );
    table.enter_scope();
    table.declare(
        "a".to_string(),
        honey::reducer::Variable { mutable: true, datatype: Type::BasicType(BasicType::Int), value: None },
    );
    assert!(table.lookup("a").unwrap().mutable);
    table.exit_scope();
    assert_eq!(table.lookup("a").unwrap().value, Some(Number::Integer(1)));
    assert!(table.lookup("b").is_none());
}

#[test]
fn assembly_for_a_sum() {
    let (ast, _) = parse_expression(&tokens("1 + 2")).unwrap();
    let expression = match ast {
        ParseTree::Expression(e) => e,
        other => panic!("not an expression: {:?}", other),
    };
    let mut assembler = Assembler::new(X86_64);
    assert_eq!(assembler.assemble_ast(&expression), Ok(()));
    let lines: Vec<&str> = assembler.lines().iter().map(|l| l.as_str()).collect();
    assert_eq!(
        lines,
        vec![
            "; Header\nsection .text\nglobal _start\n_start:",
            "  ; Start of sum expression",
            "  mov rax, 2",
            "  push rax",
            "  mov rax, 1",
            "  pop rbx",
            "  add rax, rbx",
            "  ; End of sum expression",
            "; Footer\nmov rax, 60\nxor rdi, rdi\nsyscall",
        ]
    );
}

#[test]
fn assembly_for_a_difference_and_unsupported_nodes() {
    let mut assembler = Assembler::new(X86_64);
    let difference = Expression::Difference {
        minuend: Box::new(folded(Number::Integer(-5))),
        subtrahend: Term::Factor(lit(3)),
    };
    assert_eq!(assembler.assemble_ast(&difference), Ok(()));
    assert!(assembler.lines().iter().any(|l| l == "  sub rax, rbx"));
    assert!(assembler.lines().iter().any(|l| l == "  mov rax, -5"));
    let before = assembler.lines().len();
    let block = Expression::Block(Box::new(Block { statements: vec![], return_expression: Expression::Unit }));
    assert_eq!(assembler.assemble_ast(&block), Err(CodegenError::Unsupported));
    assert_eq!(assembler.assemble_ast(&folded(Number::Float(Decimal::new(1, 0)))), Err(CodegenError::Unsupported));
    assert_eq!(assembler.lines().len(), before);
    assembler.emit("nop");
    assert_eq!(assembler.lines().last().map(|l| l.as_str()), Some("  nop"));
}

#[test]
fn integer_text() {
    assert_eq!(int_to_text(0), "0");
    assert_eq!(int_to_text(1234), "1234");
    assert_eq!(int_to_text(-42), "-42");
    assert_eq!(int_to_text(i64::MIN), "-9223372036854775808");
    assert_eq!(int_to_text(i64::MAX), "9223372036854775807");
}

#[test]
fn empty_program_has_no_frames() {
    let v = validate(parse(&[]).unwrap()).unwrap();
    assert!(v.symbol_table.frames().is_empty());
    let v = validated("{ 3 * 3 }").unwrap();
    assert!(v.symbol_table.frames().is_empty());
    assert!(SymbolTable::new().frames().is_empty());
}

#[test]
fn parentheses_around_blocks_and_ifs_keep_the_reduction() {
    let bare = validated("let a : int = { 1 } ;").unwrap();
    let wrapped = validated("let a : int = ( { 1 } ) ;").unwrap();
    assert_eq!(value_of(&bare, "a"), Some(Number::Integer(1)));
    assert_eq!(value_of(&wrapped, "a"), Some(Number::Integer(1)));
    assert_eq!(bare.program.statements, wrapped.program.statements);
    let bare_if = validated("( if x { 1 } else { 2 } ) ;").unwrap();
    assert_eq!(bare_if.program.statements.len(), 1);
    assert!(matches!(bare_if.program.statements[0], Statement::Expression(Expression::If(_))));
    assert_eq!(validated("let c : int = ( 1 < 2 ) ;").err(), Some(SemanticError::ExpectedNumber));
}

#[test]
fn precedence_with_identifiers_and_following_tokens() {
    let (ast, rest) = parse_expression(&tokens("a * b + c ; x")).unwrap();
    assert_eq!(rest, 5);
    let id = |n: &str| Factor::Identifier(Identifier(n.to_string()));
    assert_eq!(
        ast,
        ParseTree::Expression(Expression::Sum {
            augend: Box::new(Expression::Term(Term::Product {
                multiplicant: Box::new(Term::Factor(id("a"))),
                multiplier: id("b"),
            })),
            addend: Term::Factor(id("c")),
        })
    );
    let (ast, _) = parse_expression(&tokens("6 / 3 / 2 }")).unwrap();
    assert_eq!(
        ast,
        ParseTree::Expression(Expression::Term(Term::Quotient {
            dividend: Box::new(Term::Quotient { dividend: Box::new(Term::Factor(lit(6))), divisor: lit(3) }),
            divisor: lit(2),
        }))
    );
}

#[test]
fn blocks_inside_arithmetic_reduce_to_their_value() {
    let v = validated("let y : int = ( { 1 } ) + 2 ;").unwrap();
    assert_eq!(value_of(&v, "y"), Some(Number::Integer(3)));
    let v = validated("let z : int = ( { let q : int = 4 ; q * 2 } ) - 1 ;").unwrap();
    assert_eq!(value_of(&v, "z"), Some(Number::Integer(7)));
    assert!(v.symbol_table.lookup("q").is_none());
    assert_eq!(validated("let w : int = ( { } ) + 2 ;").err(), Some(SemanticError::ExpectedNumber));
}

#[test]
fn mixed_types_with_block_operands_fail() {
    assert_eq!(validated("let x : number = ( { 1 } ) + 2.5 ;").err(), Some(SemanticError::MismatchedTypes));
    assert_eq!(validated("let x : number = ( { 2.5 } ) + 1 ;").err(), Some(SemanticError::MismatchedTypes));
}
