//! The grammar of the language, as spec functions over the tokens that are
//! left to read. Each rule gives the node it reads and the tokens that follow
//! it, or the error of the first token that does not fit.
//!
//! Positions only move forward: where a rule continues from the tokens left
//! by another, it does so only when those are fewer.
use vstd::prelude::*;
use crate::numbers::{Number, int_literal, float_literal};
use crate::tokens::{Token, TokenKind, has_text};
use crate::tree::{
    BasicType, BlockV, BranchV, Comparison, DeclKeyword, DeclarationV, ExpressionV, FactorV,
    Identifier, IfV, Keyword, ParameterV, StatementV, TermV, TypeV,
};

verus! {

/// What a rule needed where it failed.
#[derive(Debug, Clone, PartialEq)]
pub enum Expected {
    Token(TokenKind),
    Identifier,
    Type,
    Factor,
    Number,
}

/// A syntax error: what was expected, and the token found in its place
/// (`None` at the end of the tokens).
#[derive(Debug, Clone, PartialEq)]
pub struct ParsingError {
    pub expected: Expected,
    pub found: Option<Token>,
}

/// The result of a rule: the node read and the tokens after it.
pub type Parsed<V> = Result<(V, Seq<Token>), ParsingError>;

pub open spec fn first(s: Seq<Token>) -> Option<Token> {
    if s.len() > 0 {
        Some(s[0])
    } else {
        None
    }
}

pub open spec fn failure<V>(s: Seq<Token>, expected: Expected) -> Parsed<V> {
    Err(ParsingError { expected, found: first(s) })
}

pub open spec fn at_kind(s: Seq<Token>, k: TokenKind) -> bool {
    s.len() > 0 && s[0].kind == k
}

pub open spec fn expect(s: Seq<Token>, k: TokenKind) -> Result<Seq<Token>, ParsingError> {
    if at_kind(s, k) {
        Ok(s.drop_first())
    } else {
        Err(ParsingError { expected: Expected::Token(k), found: first(s) })
    }
}

pub open spec fn keyword_of(t: Token) -> Option<Keyword> {
    if t.kind != TokenKind::Keyword {
        None
    } else if has_text(t, "let"@) {
        Some(Keyword::DeclKeyword(DeclKeyword::Let))
    } else if has_text(t, "mut"@) {
        Some(Keyword::DeclKeyword(DeclKeyword::Mut))
    } else if has_text(t, "if"@) {
        Some(Keyword::If)
    } else if has_text(t, "else"@) {
        Some(Keyword::Else)
    } else {
        None
    }
}

pub open spec fn decl_keyword_of(t: Token) -> Option<DeclKeyword> {
    match keyword_of(t) {
        Some(Keyword::DeclKeyword(k)) => Some(k),
        _ => None,
    }
}

pub open spec fn at_keyword(s: Seq<Token>, k: Keyword) -> bool {
    s.len() > 0 && keyword_of(s[0]) == Some(k)
}

pub open spec fn basic_type_of(t: Token) -> Option<BasicType> {
    if t.kind != TokenKind::DataType {
        None
    } else if has_text(t, "number"@) {
        Some(BasicType::Number)
    } else if has_text(t, "int"@) {
        Some(BasicType::Int)
    } else if has_text(t, "float"@) {
        Some(BasicType::Float)
    } else {
        None
    }
}

pub open spec fn comparison_of(t: Token) -> Option<Comparison> {
    match t.kind {
        TokenKind::Less => Some(Comparison::Less),
        TokenKind::Greater => Some(Comparison::Greater),
        TokenKind::LessEqual => Some(Comparison::LessEqual),
        TokenKind::GreaterEqual => Some(Comparison::GreaterEqual),
        TokenKind::Equal => Some(Comparison::Equal),
        TokenKind::NotEqual => Some(Comparison::NotEqual),
        _ => None,
    }
}

/// The number a literal token stands for. An `Integer` token must hold an
/// integer literal and a `Float` token a floating one; a `Number` token is
/// read as an integer where it is one, else as a floating literal.
pub open spec fn number_of(t: Token) -> Option<Number> {
    match t.lexeme {
        None => None,
        Some(l) => match t.kind {
            TokenKind::Integer => match int_literal(l@) {
                Some(v) => Some(Number::Integer(v)),
                None => None,
            },
            TokenKind::Float => match float_literal(l@) {
                Some(d) => Some(Number::Float(d)),
                None => None,
            },
            TokenKind::Number => match int_literal(l@) {
                Some(v) => Some(Number::Integer(v)),
                None => match float_literal(l@) {
                    Some(d) => Some(Number::Float(d)),
                    None => None,
                },
            },
            _ => None,
        },
    }
}

/// `identifier`
pub open spec fn sp_identifier(s: Seq<Token>) -> Parsed<Identifier> {
    if at_kind(s, TokenKind::Identifier) && s[0].lexeme is Some {
        Ok((Identifier(s[0].lexeme->0), s.drop_first()))
    } else {
        failure(s, Expected::Identifier)
    }
}

/// `number-literal | integer-literal | float-literal`
pub open spec fn sp_number(s: Seq<Token>) -> Parsed<Number> {
    if s.len() > 0 && number_of(s[0]) is Some {
        Ok((number_of(s[0])->0, s.drop_first()))
    } else {
        failure(s, Expected::Number)
    }
}

/// `type := basic-type | '(' parameter-list ')' '->' type`
pub open spec fn sp_type(s: Seq<Token>) -> Parsed<TypeV>
    decreases s.len(), 2nat,
{
    if at_kind(s, TokenKind::LeftParenthesis) {
        match sp_parameters(s.drop_first()) {
            Err(e) => Err(e),
            Ok((params, r)) => match expect(r, TokenKind::RightParenthesis) {
                Err(e) => Err(e),
                Ok(r) => match expect(r, TokenKind::RightArrow) {
                    Err(e) => Err(e),
                    Ok(r) => if r.len() < s.len() {
                        match sp_type(r) {
                            Err(e) => Err(e),
                            Ok((ret, r)) => Ok((TypeV::Func(params, Box::new(ret)), r)),
                        }
                    } else {
                        failure(r, Expected::Type)
                    },
                },
            },
        }
    } else if s.len() > 0 && basic_type_of(s[0]) is Some {
        Ok((TypeV::Basic(basic_type_of(s[0])->0), s.drop_first()))
    } else {
        failure(s, Expected::Type)
    }
}

/// `parameter := identifier ':' type`
pub open spec fn sp_parameter(s: Seq<Token>) -> Parsed<ParameterV>
    decreases s.len(), 1nat,
{
    match sp_identifier(s) {
        Err(e) => Err(e),
        Ok((id, r)) => match expect(r, TokenKind::Colon) {
            Err(e) => Err(e),
            Ok(r) => if r.len() < s.len() {
                match sp_type(r) {
                    Err(e) => Err(e),
                    Ok((t, r)) => Ok((ParameterV { identifier: id, data_type: t }, r)),
                }
            } else {
                failure(r, Expected::Type)
            },
        },
    }
}

/// `parameter-list := parameter (',' parameter)*`
pub open spec fn sp_parameters(s: Seq<Token>) -> Parsed<Seq<ParameterV>>
    decreases s.len(), 3nat,
{
    match sp_parameter(s) {
        Err(e) => Err(e),
        Ok((p, r)) => if r.len() < s.len() {
            sp_parameters_rest(r, seq![p])
        } else {
            failure(r, Expected::Identifier)
        },
    }
}

pub open spec fn sp_parameters_rest(s: Seq<Token>, acc: Seq<ParameterV>) -> Parsed<
    Seq<ParameterV>,
>
    decreases s.len(), 0nat,
{
    if at_kind(s, TokenKind::Comma) {
        match sp_parameter(s.drop_first()) {
            Err(e) => Err(e),
            Ok((p, r)) => if r.len() < s.len() {
                sp_parameters_rest(r, acc.push(p))
            } else {
                failure(r, Expected::Identifier)
            },
        }
    } else {
        Ok((acc, s))
    }
}

/// `factor := number | identifier [ '(' arguments ')' ] | '(' expression ')'`
pub open spec fn sp_factor(s: Seq<Token>) -> Parsed<FactorV>
    decreases s.len(), 1nat,
{
    if at_kind(s, TokenKind::LeftParenthesis) {
        match sp_expression(s.drop_first()) {
            Err(e) => Err(e),
            Ok((e, r)) => match expect(r, TokenKind::RightParenthesis) {
                Err(err) => Err(err),
                Ok(r) => Ok((FactorV::Paren(Box::new(e)), r)),
            },
        }
    } else if at_kind(s, TokenKind::Identifier) && s[0].lexeme is Some {
        let id = Identifier(s[0].lexeme->0);
        let r = s.drop_first();
        if at_kind(r, TokenKind::LeftParenthesis) {
            match sp_arguments(r) {
                Err(e) => Err(e),
                Ok((args, r)) => Ok((FactorV::Call(id, args), r)),
            }
        } else {
            Ok((FactorV::Identifier(id), r))
        }
    } else if s.len() > 0 && number_of(s[0]) is Some {
        Ok((FactorV::Number(number_of(s[0])->0), s.drop_first()))
    } else {
        failure(s, Expected::Factor)
    }
}

/// `arguments := '(' expression (',' expression)* ')'`
pub open spec fn sp_arguments(s: Seq<Token>) -> Parsed<Seq<ExpressionV>>
    decreases s.len(), 0nat,
{
    if at_kind(s, TokenKind::LeftParenthesis) {
        match sp_expression(s.drop_first()) {
            Err(e) => Err(e),
            Ok((e, r)) => if r.len() < s.len() {
                sp_arguments_rest(r, seq![e])
            } else {
                failure(r, Expected::Factor)
            },
        }
    } else {
        failure(s, Expected::Token(TokenKind::LeftParenthesis))
    }
}

pub open spec fn sp_arguments_rest(s: Seq<Token>, acc: Seq<ExpressionV>) -> Parsed<
    Seq<ExpressionV>,
>
    decreases s.len(), 0nat,
{
    if at_kind(s, TokenKind::Comma) {
        match sp_expression(s.drop_first()) {
            Err(e) => Err(e),
            Ok((e, r)) => if r.len() < s.len() {
                sp_arguments_rest(r, acc.push(e))
            } else {
                failure(r, Expected::Factor)
            },
        }
    } else {
        match expect(s, TokenKind::RightParenthesis) {
            Err(e) => Err(e),
            Ok(r) => Ok((acc, r)),
        }
    }
}

/// `term := ['-'] factor (('*' | '/') factor)*`, nesting on the left.
pub open spec fn sp_term(s: Seq<Token>) -> Parsed<TermV>
    decreases s.len(), 2nat,
{
    if at_kind(s, TokenKind::Minus) {
        match sp_factor(s.drop_first()) {
            Err(e) => Err(e),
            Ok((f, r)) => if r.len() < s.len() {
                sp_term_rest(r, TermV::Negated(f))
            } else {
                failure(r, Expected::Factor)
            },
        }
    } else {
        match sp_factor(s) {
            Err(e) => Err(e),
            Ok((f, r)) => if r.len() < s.len() {
                sp_term_rest(r, TermV::Factor(f))
            } else {
                failure(r, Expected::Factor)
            },
        }
    }
}

pub open spec fn sp_term_rest(s: Seq<Token>, left: TermV) -> Parsed<TermV>
    decreases s.len(), 0nat,
{
    if at_kind(s, TokenKind::Times) || at_kind(s, TokenKind::Divide) {
        match sp_factor(s.drop_first()) {
            Err(e) => Err(e),
            Ok((f, r)) => if r.len() < s.len() {
                if s[0].kind == TokenKind::Times {
                    sp_term_rest(r, TermV::Product(Box::new(left), f))
                } else {
                    sp_term_rest(r, TermV::Quotient(Box::new(left), f))
                }
            } else {
                failure(r, Expected::Factor)
            },
        }
    } else {
        Ok((left, s))
    }
}

/// `additive := term (('+' | '-') term)*`, nesting on the left.
pub open spec fn sp_additive(s: Seq<Token>) -> Parsed<ExpressionV>
    decreases s.len(), 3nat,
{
    match sp_term(s) {
        Err(e) => Err(e),
        Ok((t, r)) => if r.len() < s.len() {
            sp_additive_rest(r, ExpressionV::Term(t))
        } else {
            failure(r, Expected::Factor)
        },
    }
}

pub open spec fn sp_additive_rest(s: Seq<Token>, left: ExpressionV) -> Parsed<ExpressionV>
    decreases s.len(), 0nat,
{
    if at_kind(s, TokenKind::Plus) || at_kind(s, TokenKind::Minus) {
        match sp_term(s.drop_first()) {
            Err(e) => Err(e),
            Ok((t, r)) => if r.len() < s.len() {
                if s[0].kind == TokenKind::Plus {
                    sp_additive_rest(r, ExpressionV::Sum(Box::new(left), t))
                } else {
                    sp_additive_rest(r, ExpressionV::Difference(Box::new(left), t))
                }
            } else {
                failure(r, Expected::Factor)
            },
        }
    } else {
        Ok((left, s))
    }
}

/// `expression := block | if | additive [comparison-operator additive]`
pub open spec fn sp_expression(s: Seq<Token>) -> Parsed<ExpressionV>
    decreases s.len(), 5nat,
{
    if at_kind(s, TokenKind::LeftCurly) {
        match sp_block(s) {
            Err(e) => Err(e),
            Ok((b, r)) => Ok((ExpressionV::Block(Box::new(b)), r)),
        }
    } else if at_keyword(s, Keyword::If) {
        match sp_if(s) {
            Err(e) => Err(e),
            Ok((i, r)) => Ok((ExpressionV::If(Box::new(i)), r)),
        }
    } else {
        match sp_additive(s) {
            Err(e) => Err(e),
            Ok((left, r)) => if r.len() > 0 && comparison_of(r[0]) is Some {
                if r.len() <= s.len() {
                    match sp_additive(r.drop_first()) {
                        Err(e) => Err(e),
                        Ok((right, r2)) => Ok(
                            (
                                ExpressionV::Comparison(
                                    comparison_of(r[0])->0,
                                    Box::new(left),
                                    Box::new(right),
                                ),
                                r2,
                            ),
                        ),
                    }
                } else {
                    failure(r, Expected::Factor)
                }
            } else {
                Ok((left, r))
            },
        }
    }
}

/// `block := '{' statement* [expression] '}'`: each element is first read as
/// a statement; where that fails, the rest is read from the same place as the
/// one trailing expression, which must close the block.
pub open spec fn sp_block(s: Seq<Token>) -> Parsed<BlockV>
    decreases s.len(), 4nat,
{
    if at_kind(s, TokenKind::LeftCurly) {
        sp_block_items(s.drop_first(), Seq::empty())
    } else {
        failure(s, Expected::Token(TokenKind::LeftCurly))
    }
}

pub open spec fn sp_block_items(s: Seq<Token>, stmts: Seq<StatementV>) -> Parsed<BlockV>
    decreases s.len(), 7nat,
{
    if at_kind(s, TokenKind::RightCurly) {
        Ok((BlockV { statements: stmts, return_expression: ExpressionV::Unit }, s.drop_first()))
    } else if s.len() == 0 {
        failure(s, Expected::Token(TokenKind::RightCurly))
    } else {
        match sp_statement(s) {
            Ok((st, r)) => if r.len() < s.len() {
                sp_block_items(r, stmts.push(st))
            } else {
                failure(r, Expected::Token(TokenKind::RightCurly))
            },
            Err(_) => match sp_expression(s) {
                Err(e) => Err(e),
                Ok((e, r)) => match expect(r, TokenKind::RightCurly) {
                    Err(err) => Err(err),
                    Ok(r) => Ok((BlockV { statements: stmts, return_expression: e }, r)),
                },
            },
        }
    }
}

/// `if := 'if' expression block ('else' 'if' expression block)* ['else' block]`
pub open spec fn sp_if(s: Seq<Token>) -> Parsed<IfV>
    decreases s.len(), 4nat,
{
    if at_keyword(s, Keyword::If) {
        match sp_expression(s.drop_first()) {
            Err(e) => Err(e),
            Ok((c, r)) => if r.len() < s.len() {
                match sp_block(r) {
                    Err(e) => Err(e),
                    Ok((b, r2)) => if r2.len() < s.len() {
                        sp_if_rest(r2, BranchV { condition: c, block: b }, Seq::empty())
                    } else {
                        failure(r2, Expected::Token(TokenKind::LeftCurly))
                    },
                }
            } else {
                failure(r, Expected::Token(TokenKind::LeftCurly))
            },
        }
    } else {
        failure(s, Expected::Token(TokenKind::Keyword))
    }
}

pub open spec fn sp_if_rest(s: Seq<Token>, head: BranchV, branches: Seq<BranchV>) -> Parsed<IfV>
    decreases s.len(), 0nat,
{
    if at_keyword(s, Keyword::Else) && at_keyword(s.drop_first(), Keyword::If) {
        match sp_expression(s.subrange(2, s.len() as int)) {
            Err(e) => Err(e),
            Ok((c, r)) => if r.len() < s.len() {
                match sp_block(r) {
                    Err(e) => Err(e),
                    Ok((b, r2)) => if r2.len() < s.len() {
                        sp_if_rest(r2, head, branches.push(BranchV { condition: c, block: b }))
                    } else {
                        failure(r2, Expected::Token(TokenKind::LeftCurly))
                    },
                }
            } else {
                failure(r, Expected::Token(TokenKind::LeftCurly))
            },
        }
    } else if at_keyword(s, Keyword::Else) {
        match sp_block(s.drop_first()) {
            Err(e) => Err(e),
            Ok((b, r)) => Ok((IfV { if_block: head, else_if_blocks: branches, else_block: Some(b) }, r)),
        }
    } else {
        Ok((IfV { if_block: head, else_if_blocks: branches, else_block: None }, s))
    }
}

/// `declaration := ('let' | 'mut') identifier ':' type '=' expression ';'`
pub open spec fn sp_declaration(s: Seq<Token>) -> Parsed<DeclarationV>
    decreases s.len(), 5nat,
{
    if s.len() > 0 && decl_keyword_of(s[0]) is Some {
        let k = decl_keyword_of(s[0])->0;
        match sp_identifier(s.drop_first()) {
            Err(e) => Err(e),
            Ok((id, r)) => match expect(r, TokenKind::Colon) {
                Err(e) => Err(e),
                Ok(r) => match sp_type(r) {
                    Err(e) => Err(e),
                    Ok((t, r)) => match expect(r, TokenKind::Assignment) {
                        Err(e) => Err(e),
                        Ok(r) => if r.len() < s.len() {
                            match sp_expression(r) {
                                Err(e) => Err(e),
                                Ok((e, r)) => match expect(r, TokenKind::Semicolon) {
                                    Err(err) => Err(err),
                                    Ok(r) => Ok(
                                        (
                                            DeclarationV {
                                                keyword: k,
                                                identifier: id,
                                                data_type: t,
                                                expression: e,
                                            },
                                            r,
                                        ),
                                    ),
                                },
                            }
                        } else {
                            failure(r, Expected::Factor)
                        },
                    },
                },
            },
        }
    } else {
        failure(s, Expected::Token(TokenKind::Keyword))
    }
}

/// `statement := declaration | if | block | identifier '=' expression ';' | expression ';'`
pub open spec fn sp_statement(s: Seq<Token>) -> Parsed<StatementV>
    decreases s.len(), 6nat,
{
    if s.len() > 0 && decl_keyword_of(s[0]) is Some {
        match sp_declaration(s) {
            Err(e) => Err(e),
            Ok((d, r)) => Ok((StatementV::Declaration(d), r)),
        }
    } else if at_keyword(s, Keyword::If) {
        match sp_if(s) {
            Err(e) => Err(e),
            Ok((i, r)) => Ok((StatementV::Expression(ExpressionV::If(Box::new(i))), r)),
        }
    } else if at_kind(s, TokenKind::LeftCurly) {
        match sp_block(s) {
            Err(e) => Err(e),
            Ok((b, r)) => Ok((StatementV::Expression(ExpressionV::Block(Box::new(b))), r)),
        }
    } else if at_kind(s, TokenKind::Identifier) && s[0].lexeme is Some && at_kind(
        s.drop_first(),
        TokenKind::Assignment,
    ) {
        match sp_expression(s.subrange(2, s.len() as int)) {
            Err(e) => Err(e),
            Ok((e, r)) => match expect(r, TokenKind::Semicolon) {
                Err(err) => Err(err),
                Ok(r) => Ok((StatementV::Assignment(Identifier(s[0].lexeme->0), e), r)),
            },
        }
    } else {
        match sp_expression(s) {
            Err(e) => Err(e),
            Ok((e, r)) => match expect(r, TokenKind::Semicolon) {
                Err(err) => Err(err),
                Ok(r) => Ok((StatementV::Expression(e), r)),
            },
        }
    }
}

/// Whether the tokens are used up: none is left, or the next marks the end.
pub open spec fn at_end(s: Seq<Token>) -> bool {
    s.len() == 0 || s[0].kind == TokenKind::Eof
}

/// `program := statement*`, up to the end of the tokens or up to the first
/// end-of-stream token; tokens after that token are not read, and are no
/// error.
pub open spec fn sp_statements(s: Seq<Token>, acc: Seq<StatementV>) -> Result<
    Seq<StatementV>,
    ParsingError,
>
    decreases s.len(),
{
    if at_end(s) {
        Ok(acc)
    } else {
        match sp_statement(s) {
            Err(e) => Err(e),
            Ok((st, r)) => if r.len() < s.len() {
                sp_statements(r, acc.push(st))
            } else {
                Err(ParsingError { expected: Expected::Token(TokenKind::Eof), found: first(r) })
            },
        }
    }
}

/// The statements of a whole program.
pub open spec fn sp_program(s: Seq<Token>) -> Result<Seq<StatementV>, ParsingError> {
    sp_statements(s, Seq::empty())
}

} // verus!
