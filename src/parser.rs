//! The recursive-descent parser. Each rule reads from a position in the
//! tokens and returns the node with the position after it; backtracking is a
//! retry from a saved position. Each rule is proved to give exactly what the
//! rule of the same name in `grammar` gives.
use vstd::prelude::*;
use crate::grammar::{
    Expected, Parsed, ParsingError, at_kind, basic_type_of, comparison_of, first, keyword_of,
    number_of, sp_additive, sp_additive_rest, sp_arguments, sp_arguments_rest, sp_block,
    sp_block_items, sp_declaration, sp_expression, sp_factor, sp_identifier, sp_if, sp_if_rest,
    sp_number, sp_parameter, sp_parameters, sp_parameters_rest, sp_program, sp_statement,
    sp_statements, sp_term, sp_term_rest, sp_type,
};
use crate::numbers::{Number, parse_float_literal, parse_integer_literal};
use crate::tokens::{Token, TokenKind, copy_token, token_has_text};
use crate::tree::{
    Assignment, BasicType, Block, BlockV, Comparison, ConditionalBlock, DeclKeyword, Declaration,
    DeclarationV, Expression, ExpressionV, Factor, FactorV, FuncType, Identifier, If, Keyword,
    Parameter, ParameterV, ParseTree, Program, Statement, StatementV, Term, TermV, Type, TypeV,
    block_v, branch_v, branches_v, decl_v, expr_v, exprs_v, factor_v, if_v, lemma_block_v,
    lemma_call_v, lemma_func_type_v, lemma_if_v, param_v, params_v, stmt_v, stmts_v, term_v,
    type_v,
};

verus! {

/// The tokens from position `p` on.
pub open spec fn suffix(toks: Seq<Token>, p: int) -> Seq<Token> {
    toks.subrange(p, toks.len() as int)
}

/// An executable result agrees with a rule of the grammar: the same error,
/// or the same node (under `view`) with the tokens after position `q` left.
pub open spec fn agrees<T, V>(
    r: Result<(T, usize), ParsingError>,
    s: Parsed<V>,
    toks: Seq<Token>,
    view: spec_fn(T) -> V,
) -> bool {
    match r {
        Ok((x, q)) => q <= toks.len() && s == Ok::<(V, Seq<Token>), ParsingError>(
            (view(x), suffix(toks, q as int)),
        ),
        Err(e) => s == Err::<(V, Seq<Token>), ParsingError>(e),
    }
}

pub proof fn lemma_suffix(toks: Seq<Token>, p: int)
    requires
        0 <= p <= toks.len(),
    ensures
        suffix(toks, p).len() == toks.len() - p,
        p < toks.len() ==> suffix(toks, p)[0] == toks[p],
        p < toks.len() ==> suffix(toks, p).drop_first() == suffix(toks, p + 1),
        p + 1 < toks.len() ==> suffix(toks, p).drop_first()[0] == toks[p + 1],
        p + 1 < toks.len() ==> suffix(toks, p).subrange(2, suffix(toks, p).len() as int)
            == suffix(toks, p + 2),
{
    if p < toks.len() {
        assert(suffix(toks, p).drop_first() =~= suffix(toks, p + 1));
    }
    if p + 1 < toks.len() {
        assert(suffix(toks, p).subrange(2, suffix(toks, p).len() as int) =~= suffix(toks, p + 2));
    }
}

fn found_at(tokens: &[Token], p: usize) -> (r: Option<Token>)
    requires
        p <= tokens@.len(),
    ensures
        tokens@.len() <= usize::MAX,
        r == first(suffix(tokens@, p as int)),
{
    proof {
        lemma_suffix(tokens@, p as int);
    }
    if p < tokens.len() {
        Some(copy_token(&tokens[p]))
    } else {
        None
    }
}

fn error_at(tokens: &[Token], p: usize, expected: Expected) -> (e: ParsingError)
    requires
        p <= tokens@.len(),
    ensures
        tokens@.len() <= usize::MAX,
        e == (ParsingError { expected, found: first(suffix(tokens@, p as int)) }),
{
    ParsingError { expected, found: found_at(tokens, p) }
}

fn kind_at(tokens: &[Token], p: usize, k: TokenKind) -> (r: bool)
    requires
        p <= tokens@.len(),
    ensures
        tokens@.len() <= usize::MAX,
        r == at_kind(suffix(tokens@, p as int), k),
{
    proof {
        lemma_suffix(tokens@, p as int);
    }
    p < tokens.len() && tokens[p].kind == k
}

fn keyword_at(tokens: &[Token], p: usize) -> (r: Option<Keyword>)
    ensures
        tokens@.len() <= usize::MAX,
        r == (if p < tokens@.len() {
            keyword_of(tokens@[p as int])
        } else {
            None
        }),
{
    if p >= tokens.len() {
        return None;
    }
    let t = &tokens[p];
    if t.kind != TokenKind::Keyword {
        None
    } else if token_has_text(t, "let") {
        Some(Keyword::DeclKeyword(DeclKeyword::Let))
    } else if token_has_text(t, "mut") {
        Some(Keyword::DeclKeyword(DeclKeyword::Mut))
    } else if token_has_text(t, "if") {
        Some(Keyword::If)
    } else if token_has_text(t, "else") {
        Some(Keyword::Else)
    } else {
        None
    }
}

fn basic_type_at(tokens: &[Token], p: usize) -> (r: Option<BasicType>)
    ensures
        tokens@.len() <= usize::MAX,
        r == (if p < tokens@.len() {
            basic_type_of(tokens@[p as int])
        } else {
            None
        }),
{
    if p >= tokens.len() {
        return None;
    }
    let t = &tokens[p];
    if t.kind != TokenKind::DataType {
        None
    } else if token_has_text(t, "number") {
        Some(BasicType::Number)
    } else if token_has_text(t, "int") {
        Some(BasicType::Int)
    } else if token_has_text(t, "float") {
        Some(BasicType::Float)
    } else {
        None
    }
}

fn comparison_at(tokens: &[Token], p: usize) -> (r: Option<Comparison>)
    ensures
        tokens@.len() <= usize::MAX,
        r == (if p < tokens@.len() {
            comparison_of(tokens@[p as int])
        } else {
            None
        }),
{
    if p >= tokens.len() {
        return None;
    }
    match tokens[p].kind {
        TokenKind::Less => Some(Comparison::Less),
        TokenKind::Greater => Some(Comparison::Greater),
        TokenKind::LessEqual => Some(Comparison::LessEqual),
        TokenKind::GreaterEqual => Some(Comparison::GreaterEqual),
        TokenKind::Equal => Some(Comparison::Equal),
        TokenKind::NotEqual => Some(Comparison::NotEqual),
        _ => None,
    }
}

fn number_at(tokens: &[Token], p: usize) -> (r: Option<Number>)
    ensures
        tokens@.len() <= usize::MAX,
        r == (if p < tokens@.len() {
            number_of(tokens@[p as int])
        } else {
            None
        }),
{
    if p >= tokens.len() {
        return None;
    }
    let t = &tokens[p];
    match &t.lexeme {
        None => None,
        Some(l) => match t.kind {
            TokenKind::Integer => match parse_integer_literal(l.as_str()) {
                Some(v) => Some(Number::Integer(v)),
                None => None,
            },
            TokenKind::Float => match parse_float_literal(l.as_str()) {
                Some(d) => Some(Number::Float(d)),
                None => None,
            },
            TokenKind::Number => match parse_integer_literal(l.as_str()) {
                Some(v) => Some(Number::Integer(v)),
                None => match parse_float_literal(l.as_str()) {
                    Some(d) => Some(Number::Float(d)),
                    None => None,
                },
            },
            _ => None,
        },
    }
}

/// The identifier at position `p`.
fn identifier_at(tokens: &[Token], p: usize) -> (r: Result<(Identifier, usize), ParsingError>)
    requires
        p <= tokens@.len(),
    ensures
        tokens@.len() <= usize::MAX,
        agrees(r, sp_identifier(suffix(tokens@, p as int)), tokens@, |x: Identifier| x),
        r matches Ok((_, q)) ==> q == p + 1,
{
    proof {
        lemma_suffix(tokens@, p as int);
    }
    if p < tokens.len() && tokens[p].kind == TokenKind::Identifier {
        match &tokens[p].lexeme {
            Some(name) => {
                return Ok((Identifier(name.clone()), p + 1));
            },
            None => {},
        }
    }
    Err(error_at(tokens, p, Expected::Identifier))
}

/// The number literal at position `p`.
fn number_literal_at(tokens: &[Token], p: usize) -> (r: Result<(Number, usize), ParsingError>)
    requires
        p <= tokens@.len(),
    ensures
        tokens@.len() <= usize::MAX,
        agrees(r, sp_number(suffix(tokens@, p as int)), tokens@, |x: Number| x),
        r matches Ok((_, q)) ==> q == p + 1,
{
    proof {
        lemma_suffix(tokens@, p as int);
    }
    match number_at(tokens, p) {
        Some(n) => Ok((n, p + 1)),
        None => Err(error_at(tokens, p, Expected::Number)),
    }
}

fn parse_type_at(tokens: &[Token], pos: usize) -> (r: Result<(Type, usize), ParsingError>)
    requires
        pos <= tokens@.len(),
    ensures
        agrees(r, sp_type(suffix(tokens@, pos as int)), tokens@, |x: Type| type_v(x)),
        r matches Ok((_, q)) ==> q > pos,
    decreases tokens@.len() - pos, 2nat,
{
    let ghost s = suffix(tokens@, pos as int);
    proof {
        lemma_suffix(tokens@, pos as int);
    }
    if kind_at(tokens, pos, TokenKind::LeftParenthesis) {
        match parse_parameters_at(tokens, pos + 1) {
            Err(e) => Err(e),
            Ok((params, p)) => {
                proof {
                    lemma_suffix(tokens@, p as int);
                }
                if !kind_at(tokens, p, TokenKind::RightParenthesis) {
                    return Err(error_at(tokens, p, Expected::Token(TokenKind::RightParenthesis)));
                }
                proof {
                    lemma_suffix(tokens@, p + 1);
                }
                if !kind_at(tokens, p + 1, TokenKind::RightArrow) {
                    return Err(error_at(tokens, p + 1, Expected::Token(TokenKind::RightArrow)));
                }
                proof {
                    lemma_suffix(tokens@, p + 2);
                }
                match parse_type_at(tokens, p + 2) {
                    Err(e) => Err(e),
                    Ok((ret, q)) => {
                        let f = FuncType { param_list: params, return_type: Box::new(ret) };
                        proof {
                            lemma_func_type_v(f);
                        }
                        Ok((Type::FuncType(f), q))
                    },
                }
            },
        }
    } else {
        match basic_type_at(tokens, pos) {
            Some(b) => Ok((Type::BasicType(b), pos + 1)),
            None => Err(error_at(tokens, pos, Expected::Type)),
        }
    }
}

fn parse_parameter_at(tokens: &[Token], pos: usize) -> (r: Result<(Parameter, usize), ParsingError>)
    requires
        pos <= tokens@.len(),
    ensures
        agrees(r, sp_parameter(suffix(tokens@, pos as int)), tokens@, |x: Parameter| param_v(x)),
        r matches Ok((_, q)) ==> q > pos,
    decreases tokens@.len() - pos, 1nat,
{
    proof {
        lemma_suffix(tokens@, pos as int);
    }
    match identifier_at(tokens, pos) {
        Err(e) => Err(e),
        Ok((id, p)) => {
            proof {
                lemma_suffix(tokens@, p as int);
            }
            if !kind_at(tokens, p, TokenKind::Colon) {
                return Err(error_at(tokens, p, Expected::Token(TokenKind::Colon)));
            }
            proof {
                lemma_suffix(tokens@, p + 1);
            }
            match parse_type_at(tokens, p + 1) {
                Err(e) => Err(e),
                Ok((t, q)) => Ok((Parameter { identifier: id, data_type: t }, q)),
            }
        },
    }
}

fn parse_parameters_at(tokens: &[Token], pos: usize) -> (r: Result<
    (Vec<Parameter>, usize),
    ParsingError,
>)
    requires
        pos <= tokens@.len(),
    ensures
        agrees(
            r,
            sp_parameters(suffix(tokens@, pos as int)),
            tokens@,
            |x: Vec<Parameter>| params_v(x@),
        ),
        r matches Ok((_, q)) ==> q > pos,
    decreases tokens@.len() - pos, 3nat,
{
    let ghost target = sp_parameters(suffix(tokens@, pos as int));
    let (first_param, mut p) = match parse_parameter_at(tokens, pos) {
        Err(e) => {
            return Err(e);
        },
        Ok(x) => x,
    };
    let mut params: Vec<Parameter> = Vec::new();
    params.push(first_param);
    assert(params_v(params@) =~= seq![param_v(first_param)]);
    loop
        invariant
            pos < p <= tokens@.len(),
            target == sp_parameters(suffix(tokens@, pos as int)),
            target == sp_parameters_rest(suffix(tokens@, p as int), params_v(params@)),
        decreases tokens@.len() - p,
    {
        proof {
            lemma_suffix(tokens@, p as int);
        }
        if !kind_at(tokens, p, TokenKind::Comma) {
            return Ok((params, p));
        }
        match parse_parameter_at(tokens, p + 1) {
            Err(e) => {
                return Err(e);
            },
            Ok((param, q)) => {
                let ghost old_params = params@;
                params.push(param);
                assert(params_v(params@) =~= params_v(old_params).push(param_v(param)));
                p = q;
            },
        }
    }
}

fn parse_factor_at(tokens: &[Token], pos: usize) -> (r: Result<(Factor, usize), ParsingError>)
    requires
        pos <= tokens@.len(),
    ensures
        agrees(r, sp_factor(suffix(tokens@, pos as int)), tokens@, |x: Factor| factor_v(x)),
        r matches Ok((_, q)) ==> q > pos,
    decreases tokens@.len() - pos, 1nat,
{
    proof {
        lemma_suffix(tokens@, pos as int);
    }
    if kind_at(tokens, pos, TokenKind::LeftParenthesis) {
        match parse_expression_at(tokens, pos + 1) {
            Err(e) => Err(e),
            Ok((e, q)) => {
                proof {
                    lemma_suffix(tokens@, q as int);
                }
                if kind_at(tokens, q, TokenKind::RightParenthesis) {
                    Ok((Factor::ParentheizedExpression(Box::new(e)), q + 1))
                } else {
                    Err(error_at(tokens, q, Expected::Token(TokenKind::RightParenthesis)))
                }
            },
        }
    } else if kind_at(tokens, pos, TokenKind::Identifier) && tokens[pos].lexeme.is_some() {
        let id = match identifier_at(tokens, pos) {
            Ok((id, _)) => id,
            Err(e) => {
                return Err(e);
            },
        };
        proof {
            lemma_suffix(tokens@, pos + 1);
        }
        if kind_at(tokens, pos + 1, TokenKind::LeftParenthesis) {
            match parse_arguments_at(tokens, pos + 1) {
                Err(e) => Err(e),
                Ok((arguments, q)) => {
                    proof {
                        lemma_call_v(id, arguments);
                    }
                    Ok((Factor::FunctionCall { name: id, arguments }, q))
                },
            }
        } else {
            Ok((Factor::Identifier(id), pos + 1))
        }
    } else {
        match number_at(tokens, pos) {
            Some(n) => Ok((Factor::Number(n), pos + 1)),
            None => Err(error_at(tokens, pos, Expected::Factor)),
        }
    }
}

fn parse_arguments_at(tokens: &[Token], pos: usize) -> (r: Result<
    (Vec<Expression>, usize),
    ParsingError,
>)
    requires
        pos <= tokens@.len(),
    ensures
        agrees(
            r,
            sp_arguments(suffix(tokens@, pos as int)),
            tokens@,
            |x: Vec<Expression>| exprs_v(x@),
        ),
        r matches Ok((_, q)) ==> q > pos,
    decreases tokens@.len() - pos, 0nat,
{
    let ghost target = sp_arguments(suffix(tokens@, pos as int));
    proof {
        lemma_suffix(tokens@, pos as int);
    }
    if !kind_at(tokens, pos, TokenKind::LeftParenthesis) {
        return Err(error_at(tokens, pos, Expected::Token(TokenKind::LeftParenthesis)));
    }
    let (first_arg, mut p) = match parse_expression_at(tokens, pos + 1) {
        Err(e) => {
            return Err(e);
        },
        Ok(x) => x,
    };
    let mut arguments: Vec<Expression> = Vec::new();
    arguments.push(first_arg);
    assert(exprs_v(arguments@) =~= seq![expr_v(first_arg)]);
    loop
        invariant
            pos < p <= tokens@.len(),
            tokens@.len() <= usize::MAX,
            target == sp_arguments(suffix(tokens@, pos as int)),
            target == sp_arguments_rest(suffix(tokens@, p as int), exprs_v(arguments@)),
        decreases tokens@.len() - p,
    {
        proof {
            lemma_suffix(tokens@, p as int);
        }
        if !kind_at(tokens, p, TokenKind::Comma) {
            if kind_at(tokens, p, TokenKind::RightParenthesis) {
                return Ok((arguments, p + 1));
            } else {
                return Err(error_at(tokens, p, Expected::Token(TokenKind::RightParenthesis)));
            }
        }
        match parse_expression_at(tokens, p + 1) {
            Err(e) => {
                return Err(e);
            },
            Ok((arg, q)) => {
                let ghost old_args = arguments@;
                arguments.push(arg);
                assert(exprs_v(arguments@) =~= exprs_v(old_args).push(expr_v(arg)));
                p = q;
            },
        }
    }
}

fn parse_term_at(tokens: &[Token], pos: usize) -> (r: Result<(Term, usize), ParsingError>)
    requires
        pos <= tokens@.len(),
    ensures
        agrees(r, sp_term(suffix(tokens@, pos as int)), tokens@, |x: Term| term_v(x)),
        r matches Ok((_, q)) ==> q > pos,
    decreases tokens@.len() - pos, 2nat,
{
    let ghost target = sp_term(suffix(tokens@, pos as int));
    proof {
        lemma_suffix(tokens@, pos as int);
    }
    let negated = kind_at(tokens, pos, TokenKind::Minus);
    let start = if negated {
        pos + 1
    } else {
        pos
    };
    let (f, mut p) = match parse_factor_at(tokens, start) {
        Err(e) => {
            return Err(e);
        },
        Ok(x) => x,
    };
    let mut left = if negated {
        Term::NegatedFactor(f)
    } else {
        Term::Factor(f)
    };
    loop
        invariant
            pos < p <= tokens@.len(),
            target == sp_term(suffix(tokens@, pos as int)),
            target == sp_term_rest(suffix(tokens@, p as int), term_v(left)),
        decreases tokens@.len() - p,
    {
        proof {
            lemma_suffix(tokens@, p as int);
        }
        let times = kind_at(tokens, p, TokenKind::Times);
        if !times && !kind_at(tokens, p, TokenKind::Divide) {
            return Ok((left, p));
        }
        match parse_factor_at(tokens, p + 1) {
            Err(e) => {
                return Err(e);
            },
            Ok((f, q)) => {
                left = if times {
                    Term::Product { multiplicant: Box::new(left), multiplier: f }
                } else {
                    Term::Quotient { dividend: Box::new(left), divisor: f }
                };
                p = q;
            },
        }
    }
}

fn parse_additive_at(tokens: &[Token], pos: usize) -> (r: Result<(Expression, usize), ParsingError>)
    requires
        pos <= tokens@.len(),
    ensures
        agrees(r, sp_additive(suffix(tokens@, pos as int)), tokens@, |x: Expression| expr_v(x)),
        r matches Ok((_, q)) ==> q > pos,
    decreases tokens@.len() - pos, 3nat,
{
    let ghost target = sp_additive(suffix(tokens@, pos as int));
    let (t, mut p) = match parse_term_at(tokens, pos) {
        Err(e) => {
            return Err(e);
        },
        Ok(x) => x,
    };
    let mut left = Expression::Term(t);
    loop
        invariant
            pos < p <= tokens@.len(),
            target == sp_additive(suffix(tokens@, pos as int)),
            target == sp_additive_rest(suffix(tokens@, p as int), expr_v(left)),
        decreases tokens@.len() - p,
    {
        proof {
            lemma_suffix(tokens@, p as int);
        }
        let plus = kind_at(tokens, p, TokenKind::Plus);
        if !plus && !kind_at(tokens, p, TokenKind::Minus) {
            return Ok((left, p));
        }
        match parse_term_at(tokens, p + 1) {
            Err(e) => {
                return Err(e);
            },
            Ok((t, q)) => {
                left = if plus {
                    Expression::Sum { augend: Box::new(left), addend: t }
                } else {
                    Expression::Difference { minuend: Box::new(left), subtrahend: t }
                };
                p = q;
            },
        }
    }
}

fn parse_expression_at(tokens: &[Token], pos: usize) -> (r: Result<
    (Expression, usize),
    ParsingError,
>)
    requires
        pos <= tokens@.len(),
    ensures
        agrees(r, sp_expression(suffix(tokens@, pos as int)), tokens@, |x: Expression| expr_v(x)),
        r matches Ok((_, q)) ==> q > pos,
    decreases tokens@.len() - pos, 5nat,
{
    proof {
        lemma_suffix(tokens@, pos as int);
    }
    if kind_at(tokens, pos, TokenKind::LeftCurly) {
        match parse_block_at(tokens, pos) {
            Err(e) => Err(e),
            Ok((b, q)) => Ok((Expression::Block(Box::new(b)), q)),
        }
    } else if matches!(keyword_at(tokens, pos), Some(Keyword::If)) {
        match parse_if_at(tokens, pos) {
            Err(e) => Err(e),
            Ok((i, q)) => Ok((Expression::If(Box::new(i)), q)),
        }
    } else {
        match parse_additive_at(tokens, pos) {
            Err(e) => Err(e),
            Ok((left, p)) => {
                proof {
                    lemma_suffix(tokens@, p as int);
                }
                match comparison_at(tokens, p) {
                    None => Ok((left, p)),
                    Some(operator) => match parse_additive_at(tokens, p + 1) {
                        Err(e) => Err(e),
                        Ok((right, q)) => Ok(
                            (
                                Expression::Comparison {
                                    operator,
                                    left: Box::new(left),
                                    right: Box::new(right),
                                },
                                q,
                            ),
                        ),
                    },
                }
            },
        }
    }
}

fn parse_block_at(tokens: &[Token], pos: usize) -> (r: Result<(Block, usize), ParsingError>)
    requires
        pos <= tokens@.len(),
    ensures
        agrees(r, sp_block(suffix(tokens@, pos as int)), tokens@, |x: Block| block_v(x)),
        r matches Ok((_, q)) ==> q > pos,
    decreases tokens@.len() - pos, 4nat,
{
    let ghost target = sp_block(suffix(tokens@, pos as int));
    proof {
        lemma_suffix(tokens@, pos as int);
    }
    if !kind_at(tokens, pos, TokenKind::LeftCurly) {
        return Err(error_at(tokens, pos, Expected::Token(TokenKind::LeftCurly)));
    }
    let mut p = pos + 1;
    let mut statements: Vec<Statement> = Vec::new();
    assert(stmts_v(statements@) =~= Seq::<StatementV>::empty());
    loop
        invariant
            pos < p <= tokens@.len(),
            tokens@.len() <= usize::MAX,
            target == sp_block(suffix(tokens@, pos as int)),
            target == sp_block_items(suffix(tokens@, p as int), stmts_v(statements@)),
        decreases tokens@.len() - p,
    {
        proof {
            lemma_suffix(tokens@, p as int);
        }
        if kind_at(tokens, p, TokenKind::RightCurly) {
            let b = Block { statements, return_expression: Expression::Unit };
            proof {
                lemma_block_v(b);
            }
            return Ok((b, p + 1));
        }
        if p == tokens.len() {
            return Err(error_at(tokens, p, Expected::Token(TokenKind::RightCurly)));
        }
        match parse_statement_at(tokens, p) {
            Ok((st, q)) => {
                let ghost old_stmts = statements@;
                statements.push(st);
                assert(stmts_v(statements@) =~= stmts_v(old_stmts).push(stmt_v(st)));
                p = q;
            },
            Err(_) => {
                match parse_expression_at(tokens, p) {
                    Err(e) => {
                        return Err(e);
                    },
                    Ok((e, q)) => {
                        proof {
                            lemma_suffix(tokens@, q as int);
                        }
                        if kind_at(tokens, q, TokenKind::RightCurly) {
                            let b = Block { statements, return_expression: e };
                            proof {
                                lemma_block_v(b);
                            }
                            return Ok((b, q + 1));
                        } else {
                            return Err(
                                error_at(tokens, q, Expected::Token(TokenKind::RightCurly)),
                            );
                        }
                    },
                }
            },
        }
    }
}

fn parse_if_at(tokens: &[Token], pos: usize) -> (r: Result<(If, usize), ParsingError>)
    requires
        pos <= tokens@.len(),
    ensures
        agrees(r, sp_if(suffix(tokens@, pos as int)), tokens@, |x: If| if_v(x)),
        r matches Ok((_, q)) ==> q > pos,
    decreases tokens@.len() - pos, 4nat,
{
    let ghost target = sp_if(suffix(tokens@, pos as int));
    proof {
        lemma_suffix(tokens@, pos as int);
    }
    if !matches!(keyword_at(tokens, pos), Some(Keyword::If)) {
        return Err(error_at(tokens, pos, Expected::Token(TokenKind::Keyword)));
    }
    let (condition, p) = match parse_expression_at(tokens, pos + 1) {
        Err(e) => {
            return Err(e);
        },
        Ok(x) => x,
    };
    let (block, mut p) = match parse_block_at(tokens, p) {
        Err(e) => {
            return Err(e);
        },
        Ok(x) => x,
    };
    let head = ConditionalBlock { condition, block };
    let mut branches: Vec<ConditionalBlock> = Vec::new();
    assert(branches_v(branches@) =~= Seq::<crate::tree::BranchV>::empty());
    loop
        invariant
            pos < p <= tokens@.len(),
            target == sp_if(suffix(tokens@, pos as int)),
            target == sp_if_rest(suffix(tokens@, p as int), branch_v(head), branches_v(branches@)),
        decreases tokens@.len() - p,
    {
        proof {
            lemma_suffix(tokens@, p as int);
        }
        let at_else = matches!(keyword_at(tokens, p), Some(Keyword::Else));
        if at_else && matches!(keyword_at(tokens, p + 1), Some(Keyword::If)) {
            proof {
                lemma_suffix(tokens@, p + 1);
                lemma_suffix(tokens@, p + 2);
            }
            let (condition, q) = match parse_expression_at(tokens, p + 2) {
                Err(e) => {
                    return Err(e);
                },
                Ok(x) => x,
            };
            let (block, q) = match parse_block_at(tokens, q) {
                Err(e) => {
                    return Err(e);
                },
                Ok(x) => x,
            };
            let branch = ConditionalBlock { condition, block };
            let ghost old_branches = branches@;
            branches.push(branch);
            assert(branches_v(branches@) =~= branches_v(old_branches).push(branch_v(branch)));
            p = q;
        } else if at_else {
            match parse_block_at(tokens, p + 1) {
                Err(e) => {
                    return Err(e);
                },
                Ok((b, q)) => {
                    let i = If { if_block: head, else_if_blocks: branches, else_block: Some(b) };
                    proof {
                        lemma_if_v(i);
                    }
                    return Ok((i, q));
                },
            }
        } else {
            let i = If { if_block: head, else_if_blocks: branches, else_block: None };
            proof {
                lemma_if_v(i);
            }
            return Ok((i, p));
        }
    }
}

fn parse_declaration_at(tokens: &[Token], pos: usize) -> (r: Result<
    (Declaration, usize),
    ParsingError,
>)
    requires
        pos <= tokens@.len(),
    ensures
        agrees(r, sp_declaration(suffix(tokens@, pos as int)), tokens@, |x: Declaration| decl_v(x)),
        r matches Ok((_, q)) ==> q > pos,
    decreases tokens@.len() - pos, 5nat,
{
    proof {
        lemma_suffix(tokens@, pos as int);
    }
    let keyword = match keyword_at(tokens, pos) {
        Some(Keyword::DeclKeyword(k)) => k,
        _ => {
            return Err(error_at(tokens, pos, Expected::Token(TokenKind::Keyword)));
        },
    };
    let (identifier, p) = match identifier_at(tokens, pos + 1) {
        Err(e) => {
            return Err(e);
        },
        Ok(x) => x,
    };
    proof {
        lemma_suffix(tokens@, p as int);
    }
    if !kind_at(tokens, p, TokenKind::Colon) {
        return Err(error_at(tokens, p, Expected::Token(TokenKind::Colon)));
    }
    let (data_type, p) = match parse_type_at(tokens, p + 1) {
        Err(e) => {
            return Err(e);
        },
        Ok(x) => x,
    };
    proof {
        lemma_suffix(tokens@, p as int);
    }
    if !kind_at(tokens, p, TokenKind::Assignment) {
        return Err(error_at(tokens, p, Expected::Token(TokenKind::Assignment)));
    }
    let (expression, p) = match parse_expression_at(tokens, p + 1) {
        Err(e) => {
            return Err(e);
        },
        Ok(x) => x,
    };
    proof {
        lemma_suffix(tokens@, p as int);
    }
    if !kind_at(tokens, p, TokenKind::Semicolon) {
        return Err(error_at(tokens, p, Expected::Token(TokenKind::Semicolon)));
    }
    Ok((Declaration { keyword, identifier, data_type, expression }, p + 1))
}

fn parse_statement_at(tokens: &[Token], pos: usize) -> (r: Result<
    (Statement, usize),
    ParsingError,
>)
    requires
        pos <= tokens@.len(),
    ensures
        agrees(r, sp_statement(suffix(tokens@, pos as int)), tokens@, |x: Statement| stmt_v(x)),
        r matches Ok((_, q)) ==> q > pos,
    decreases tokens@.len() - pos, 6nat,
{
    proof {
        lemma_suffix(tokens@, pos as int);
    }
    let keyword = keyword_at(tokens, pos);
    if matches!(keyword, Some(Keyword::DeclKeyword(_))) {
        match parse_declaration_at(tokens, pos) {
            Err(e) => Err(e),
            Ok((d, q)) => Ok((Statement::Declaration(d), q)),
        }
    } else if matches!(keyword, Some(Keyword::If)) {
        match parse_if_at(tokens, pos) {
            Err(e) => Err(e),
            Ok((i, q)) => Ok((Statement::Expression(Expression::If(Box::new(i))), q)),
        }
    } else if kind_at(tokens, pos, TokenKind::LeftCurly) {
        match parse_block_at(tokens, pos) {
            Err(e) => Err(e),
            Ok((b, q)) => Ok((Statement::Expression(Expression::Block(Box::new(b))), q)),
        }
    } else if kind_at(tokens, pos, TokenKind::Identifier) && tokens[pos].lexeme.is_some()
        && kind_at(tokens, pos + 1, TokenKind::Assignment) {
        proof {
            lemma_suffix(tokens@, pos + 1);
            lemma_suffix(tokens@, pos + 2);
        }
        let identifier = match identifier_at(tokens, pos) {
            Ok((id, _)) => id,
            Err(e) => {
                return Err(e);
            },
        };
        match parse_expression_at(tokens, pos + 2) {
            Err(e) => Err(e),
            Ok((expression, q)) => {
                proof {
                    lemma_suffix(tokens@, q as int);
                }
                if kind_at(tokens, q, TokenKind::Semicolon) {
                    Ok((Statement::Assignment(Assignment { identifier, expression }), q + 1))
                } else {
                    Err(error_at(tokens, q, Expected::Token(TokenKind::Semicolon)))
                }
            },
        }
    } else {
        match parse_expression_at(tokens, pos) {
            Err(e) => Err(e),
            Ok((e, q)) => {
                proof {
                    lemma_suffix(tokens@, q as int);
                }
                if kind_at(tokens, q, TokenKind::Semicolon) {
                    Ok((Statement::Expression(e), q + 1))
                } else {
                    Err(error_at(tokens, q, Expected::Token(TokenKind::Semicolon)))
                }
            },
        }
    }
}

/// Reads a number literal from the start of the tokens; gives the node and
/// the position after it.
pub fn parse_number(tokens: &[Token]) -> (r: Result<(ParseTree, usize), ParsingError>)
    ensures
        match r {
            Ok((tree, q)) => {
                &&& q <= tokens@.len()
                &&& tree matches ParseTree::Number(n)
                &&& sp_number(tokens@) == Ok::<_, ParsingError>((n, suffix(tokens@, q as int)))
            },
            Err(e) => sp_number(tokens@) == Err::<(Number, Seq<Token>), ParsingError>(e),
        },
{
    assert(suffix(tokens@, 0) =~= tokens@);
    match number_literal_at(tokens, 0) {
        Ok((x, q)) => Ok((ParseTree::Number(x), q)),
        Err(e) => Err(e),
    }
}

/// Reads a type from the start of the tokens; gives the node and
/// the position after it.
pub fn parse_type(tokens: &[Token]) -> (r: Result<(ParseTree, usize), ParsingError>)
    ensures
        match r {
            Ok((tree, q)) => {
                &&& q <= tokens@.len()
                &&& tree matches ParseTree::Type(t)
                &&& sp_type(tokens@) == Ok::<_, ParsingError>((type_v(t), suffix(tokens@, q as int)))
            },
            Err(e) => sp_type(tokens@) == Err::<(TypeV, Seq<Token>), ParsingError>(e),
        },
{
    assert(suffix(tokens@, 0) =~= tokens@);
    match parse_type_at(tokens, 0) {
        Ok((x, q)) => Ok((ParseTree::Type(x), q)),
        Err(e) => Err(e),
    }
}

/// Reads a parameter from the start of the tokens; gives the node and
/// the position after it.
pub fn parse_parameter(tokens: &[Token]) -> (r: Result<(ParseTree, usize), ParsingError>)
    ensures
        match r {
            Ok((tree, q)) => {
                &&& q <= tokens@.len()
                &&& tree matches ParseTree::Parameter(p)
                &&& sp_parameter(tokens@) == Ok::<_, ParsingError>((param_v(p), suffix(tokens@, q as int)))
            },
            Err(e) => sp_parameter(tokens@) == Err::<(ParameterV, Seq<Token>), ParsingError>(e),
        },
{
    assert(suffix(tokens@, 0) =~= tokens@);
    match parse_parameter_at(tokens, 0) {
        Ok((x, q)) => Ok((ParseTree::Parameter(x), q)),
        Err(e) => Err(e),
    }
}

/// Reads a factor from the start of the tokens; gives the node and
/// the position after it.
pub fn parse_factor(tokens: &[Token]) -> (r: Result<(ParseTree, usize), ParsingError>)
    ensures
        match r {
            Ok((tree, q)) => {
                &&& q <= tokens@.len()
                &&& tree matches ParseTree::Factor(f)
                &&& sp_factor(tokens@) == Ok::<_, ParsingError>((factor_v(f), suffix(tokens@, q as int)))
            },
            Err(e) => sp_factor(tokens@) == Err::<(FactorV, Seq<Token>), ParsingError>(e),
        },
{
    assert(suffix(tokens@, 0) =~= tokens@);
    match parse_factor_at(tokens, 0) {
        Ok((x, q)) => Ok((ParseTree::Factor(x), q)),
        Err(e) => Err(e),
    }
}

/// Reads a term from the start of the tokens; gives the node and
/// the position after it.
pub fn parse_term(tokens: &[Token]) -> (r: Result<(ParseTree, usize), ParsingError>)
    ensures
        match r {
            Ok((tree, q)) => {
                &&& q <= tokens@.len()
                &&& tree matches ParseTree::Term(t)
                &&& sp_term(tokens@) == Ok::<_, ParsingError>((term_v(t), suffix(tokens@, q as int)))
            },
            Err(e) => sp_term(tokens@) == Err::<(TermV, Seq<Token>), ParsingError>(e),
        },
{
    assert(suffix(tokens@, 0) =~= tokens@);
    match parse_term_at(tokens, 0) {
        Ok((x, q)) => Ok((ParseTree::Term(x), q)),
        Err(e) => Err(e),
    }
}

/// Reads an expression from the start of the tokens; gives the node and
/// the position after it.
pub fn parse_expression(tokens: &[Token]) -> (r: Result<(ParseTree, usize), ParsingError>)
    ensures
        match r {
            Ok((tree, q)) => {
                &&& q <= tokens@.len()
                &&& tree matches ParseTree::Expression(e)
                &&& sp_expression(tokens@) == Ok::<_, ParsingError>((expr_v(e), suffix(tokens@, q as int)))
            },
            Err(e) => sp_expression(tokens@) == Err::<(ExpressionV, Seq<Token>), ParsingError>(e),
        },
{
    assert(suffix(tokens@, 0) =~= tokens@);
    match parse_expression_at(tokens, 0) {
        Ok((x, q)) => Ok((ParseTree::Expression(x), q)),
        Err(e) => Err(e),
    }
}

/// Reads a block from the start of the tokens; gives the node and
/// the position after it.
pub fn parse_block(tokens: &[Token]) -> (r: Result<(ParseTree, usize), ParsingError>)
    ensures
        match r {
            Ok((tree, q)) => {
                &&& q <= tokens@.len()
                &&& tree matches ParseTree::Block(b)
                &&& sp_block(tokens@) == Ok::<_, ParsingError>((block_v(b), suffix(tokens@, q as int)))
            },
            Err(e) => sp_block(tokens@) == Err::<(BlockV, Seq<Token>), ParsingError>(e),
        },
{
    assert(suffix(tokens@, 0) =~= tokens@);
    match parse_block_at(tokens, 0) {
        Ok((x, q)) => Ok((ParseTree::Block(x), q)),
        Err(e) => Err(e),
    }
}

/// Reads a declaration from the start of the tokens; gives the node and
/// the position after it.
pub fn parse_declaration(tokens: &[Token]) -> (r: Result<(ParseTree, usize), ParsingError>)
    ensures
        match r {
            Ok((tree, q)) => {
                &&& q <= tokens@.len()
                &&& tree matches ParseTree::Declaration(d)
                &&& sp_declaration(tokens@) == Ok::<_, ParsingError>((decl_v(d), suffix(tokens@, q as int)))
            },
            Err(e) => sp_declaration(tokens@) == Err::<(DeclarationV, Seq<Token>), ParsingError>(e),
        },
{
    assert(suffix(tokens@, 0) =~= tokens@);
    match parse_declaration_at(tokens, 0) {
        Ok((x, q)) => Ok((ParseTree::Declaration(x), q)),
        Err(e) => Err(e),
    }
}

/// Reads a statement from the start of the tokens; gives the node and
/// the position after it.
pub fn parse_statement(tokens: &[Token]) -> (r: Result<(ParseTree, usize), ParsingError>)
    ensures
        match r {
            Ok((tree, q)) => {
                &&& q <= tokens@.len()
                &&& tree matches ParseTree::Statement(st)
                &&& sp_statement(tokens@) == Ok::<_, ParsingError>((stmt_v(st), suffix(tokens@, q as int)))
            },
            Err(e) => sp_statement(tokens@) == Err::<(StatementV, Seq<Token>), ParsingError>(e),
        },
{
    assert(suffix(tokens@, 0) =~= tokens@);
    match parse_statement_at(tokens, 0) {
        Ok((x, q)) => Ok((ParseTree::Statement(x), q)),
        Err(e) => Err(e),
    }
}

/// Reads a parameter list (without its parentheses) from the start of the
/// tokens; gives the node and the position after it.
pub fn parse_parameter_list(tokens: &[Token]) -> (r: Result<(ParseTree, usize), ParsingError>)
    ensures
        match r {
            Ok((tree, q)) => {
                &&& q <= tokens@.len()
                &&& tree matches ParseTree::ParameterList { parameters }
                &&& sp_parameters(tokens@) == Ok::<_, ParsingError>(
                    (params_v(parameters@), suffix(tokens@, q as int)),
                )
            },
            Err(e) => sp_parameters(tokens@) == Err::<(Seq<ParameterV>, Seq<Token>), ParsingError>(e),
        },
{
    assert(suffix(tokens@, 0) =~= tokens@);
    match parse_parameters_at(tokens, 0) {
        Ok((parameters, q)) => Ok((ParseTree::ParameterList { parameters }, q)),
        Err(e) => Err(e),
    }
}

fn parse_statements_at(tokens: &[Token], pos: usize) -> (r: Result<Vec<Statement>, ParsingError>)
    requires
        pos <= tokens@.len(),
    ensures
        match r {
            Ok(v) => sp_statements(suffix(tokens@, pos as int), Seq::empty()) == Ok::<
                _,
                ParsingError,
            >(stmts_v(v@)),
            Err(e) => sp_statements(suffix(tokens@, pos as int), Seq::empty()) == Err::<
                Seq<StatementV>,
                ParsingError,
            >(e),
        },
{
    let ghost target = sp_statements(suffix(tokens@, pos as int), Seq::empty());
    let mut statements: Vec<Statement> = Vec::new();
    let mut p = pos;
    assert(stmts_v(statements@) =~= Seq::<StatementV>::empty());
    loop
        invariant
            pos <= p <= tokens@.len(),
            target == sp_statements(suffix(tokens@, pos as int), Seq::empty()),
            target == sp_statements(suffix(tokens@, p as int), stmts_v(statements@)),
        decreases tokens@.len() - p,
    {
        proof {
            lemma_suffix(tokens@, p as int);
        }
        if p == tokens.len() || tokens[p].kind == TokenKind::Eof {
            return Ok(statements);
        }
        match parse_statement_at(tokens, p) {
            Err(e) => {
                return Err(e);
            },
            Ok((st, q)) => {
                let ghost old_stmts = statements@;
                statements.push(st);
                assert(stmts_v(statements@) =~= stmts_v(old_stmts).push(stmt_v(st)));
                p = q;
            },
        }
    }
}

/// Reads a whole program: statements up to the end of the tokens, or up to
/// the first end-of-stream token; tokens after that token are ignored.
pub fn parse(tokens: &[Token]) -> (r: Result<Program, ParsingError>)
    ensures
        match r {
            Ok(p) => sp_program(tokens@) == Ok::<_, ParsingError>(stmts_v(p.statements@)),
            Err(e) => sp_program(tokens@) == Err::<Seq<StatementV>, ParsingError>(e),
        },
{
    assert(suffix(tokens@, 0) =~= tokens@);
    match parse_statements_at(tokens, 0) {
        Ok(statements) => Ok(Program { statements }),
        Err(e) => Err(e),
    }
}

/// A cursor over a sequence of tokens.
pub struct Parser {
    tokens: Vec<Token>,
    position: usize,
}

impl Parser {
    pub closed spec fn spec_tokens(&self) -> Seq<Token> {
        self.tokens@
    }

    pub closed spec fn spec_position(&self) -> nat {
        self.position as nat
    }

    pub open spec fn wf(&self) -> bool {
        self.spec_position() <= self.spec_tokens().len()
    }

    pub fn new(tokens: Vec<Token>) -> (r: Parser)
        ensures
            r.wf(),
            r.spec_tokens() == tokens@,
            r.spec_position() == 0,
    {
        Parser { tokens, position: 0 }
    }

    /// Reads the program from the cursor on, up to the end of the tokens or
    /// the first end-of-stream token. On success the cursor stands at the very
    /// end of the tokens, past anything after that end-of-stream token, which
    /// is ignored; on failure it does not move.
    pub fn parse_program(&mut self) -> (r: Result<Program, ParsingError>)
        requires
            old(self).wf(),
        ensures
            final(self).wf(),
            final(self).spec_tokens() == old(self).spec_tokens(),
            match r {
                Ok(p) => sp_statements(
                    suffix(old(self).spec_tokens(), old(self).spec_position() as int),
                    Seq::empty(),
                ) == Ok::<_, ParsingError>(stmts_v(p.statements@)) && final(self).spec_position()
                    == final(self).spec_tokens().len(),
                Err(e) => sp_statements(
                    suffix(old(self).spec_tokens(), old(self).spec_position() as int),
                    Seq::empty(),
                ) == Err::<Seq<StatementV>, ParsingError>(e) && final(self).spec_position()
                    == old(self).spec_position(),
            },
    {
        match parse_statements_at(self.tokens.as_slice(), self.position) {
            Ok(statements) => {
                self.position = self.tokens.len();
                Ok(Program { statements })
            },
            Err(e) => Err(e),
        }
    }
}

} // verus!
