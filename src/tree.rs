//! The parse tree, and its mathematical model: the same tree with every
//! `Vec` read as a `Seq`.
use vstd::prelude::*;
use crate::numbers::Number;

verus! {

#[derive(Debug, Clone, PartialEq)]
pub struct Identifier(pub String);

#[derive(Debug, Clone, Copy, PartialEq, Eq, Structural)]
pub enum BasicType {
    Number,
    Int,
    Float,
}

#[derive(Debug, PartialEq)]
pub struct Parameter {
    pub identifier: Identifier,
    pub data_type: Type,
}

#[derive(Debug, PartialEq)]
pub struct FuncType {
    pub param_list: Vec<Parameter>,
    pub return_type: Box<Type>,
}

#[derive(Debug, PartialEq)]
pub enum Type {
    BasicType(BasicType),
    FuncType(FuncType),
}

#[derive(Debug, PartialEq)]
pub enum Factor {
    Number(Number),
    Identifier(Identifier),
    FunctionCall { name: Identifier, arguments: Vec<Expression> },
    ParentheizedExpression(Box<Expression>),
}

#[derive(Debug, PartialEq)]
pub enum Term {
    Factor(Factor),
    NegatedFactor(Factor),
    Product { multiplicant: Box<Term>, multiplier: Factor },
    Quotient { dividend: Box<Term>, divisor: Factor },
}

#[derive(Debug, Clone, Copy, PartialEq, Eq, Structural)]
pub enum Comparison {
    Less,
    Greater,
    LessEqual,
    GreaterEqual,
    Equal,
    NotEqual,
}

#[derive(Debug, PartialEq)]
pub enum Expression {
    Term(Term),
    Block(Box<Block>),
    If(Box<If>),
    Sum { augend: Box<Expression>, addend: Term },
    Difference { minuend: Box<Expression>, subtrahend: Term },
    Comparison { operator: Comparison, left: Box<Expression>, right: Box<Expression> },
    Unit,
}

#[derive(Debug, PartialEq)]
pub struct Block {
    pub statements: Vec<Statement>,
    pub return_expression: Expression,
}

#[derive(Debug, PartialEq)]
pub struct ConditionalBlock {
    pub condition: Expression,
    pub block: Block,
}

#[derive(Debug, PartialEq)]
pub struct If {
    pub if_block: ConditionalBlock,
    pub else_if_blocks: Vec<ConditionalBlock>,
    pub else_block: Option<Block>,
}

#[derive(Debug, Clone, Copy, PartialEq, Eq, Structural)]
pub enum DeclKeyword {
    Let,
    Mut,
}

#[derive(Debug, Clone, Copy, PartialEq, Eq, Structural)]
pub enum Keyword {
    DeclKeyword(DeclKeyword),
    If,
    Else,
}

#[derive(Debug, PartialEq)]
pub struct Declaration {
    pub keyword: DeclKeyword,
    pub identifier: Identifier,
    pub data_type: Type,
    pub expression: Expression,
}

#[derive(Debug, PartialEq)]
pub struct Assignment {
    pub identifier: Identifier,
    pub expression: Expression,
}

#[derive(Debug, PartialEq)]
pub enum Statement {
    Declaration(Declaration),
    Assignment(Assignment),
    Expression(Expression),
}

#[derive(Debug, PartialEq)]
pub struct Program {
    pub statements: Vec<Statement>,
}

/// Any node of the tree, as returned by the entry points of the grammar.
#[derive(Debug, PartialEq)]
pub enum ParseTree {
    Parameter(Parameter),
    ParameterList { parameters: Vec<Parameter> },
    Block(Block),
    StatementList { statements: Vec<Statement> },
    Statement(Statement),
    Expression(Expression),
    Declaration(Declaration),
    Number(Number),
    Identifier(Identifier),
    Type(Type),
    Keyword(Keyword),
    Term(Term),
    Factor(Factor),
}

// The model of the tree.
pub enum TypeV {
    Basic(BasicType),
    Func(Seq<ParameterV>, Box<TypeV>),
}

pub struct ParameterV {
    pub identifier: Identifier,
    pub data_type: TypeV,
}

pub enum FactorV {
    Number(Number),
    Identifier(Identifier),
    Call(Identifier, Seq<ExpressionV>),
    Paren(Box<ExpressionV>),
}

pub enum TermV {
    Factor(FactorV),
    Negated(FactorV),
    Product(Box<TermV>, FactorV),
    Quotient(Box<TermV>, FactorV),
}

pub enum ExpressionV {
    Term(TermV),
    Block(Box<BlockV>),
    If(Box<IfV>),
    Sum(Box<ExpressionV>, TermV),
    Difference(Box<ExpressionV>, TermV),
    Comparison(Comparison, Box<ExpressionV>, Box<ExpressionV>),
    Unit,
}

pub struct BlockV {
    pub statements: Seq<StatementV>,
    pub return_expression: ExpressionV,
}

pub struct BranchV {
    pub condition: ExpressionV,
    pub block: BlockV,
}

pub struct IfV {
    pub if_block: BranchV,
    pub else_if_blocks: Seq<BranchV>,
    pub else_block: Option<BlockV>,
}

pub struct DeclarationV {
    pub keyword: DeclKeyword,
    pub identifier: Identifier,
    pub data_type: TypeV,
    pub expression: ExpressionV,
}

pub enum StatementV {
    Declaration(DeclarationV),
    Assignment(Identifier, ExpressionV),
    Expression(ExpressionV),
}

pub open spec fn type_v(t: Type) -> TypeV
    decreases t,
{
    match t {
        Type::BasicType(b) => TypeV::Basic(b),
        Type::FuncType(f) => TypeV::Func(
            Seq::new(
                f.param_list@.len(),
                |i: int|
                    if 0 <= i < f.param_list@.len() {
                        param_v(f.param_list@[i])
                    } else {
                        ParameterV {
                            identifier: f.param_list@[i].identifier,
                            data_type: TypeV::Basic(BasicType::Number),
                        }
                    },
            ),
            Box::new(type_v(*f.return_type)),
        ),
    }
}

pub open spec fn param_v(p: Parameter) -> ParameterV
    decreases p,
{
    ParameterV { identifier: p.identifier, data_type: type_v(p.data_type) }
}

pub open spec fn factor_v(f: Factor) -> FactorV
    decreases f,
{
    match f {
        Factor::Number(n) => FactorV::Number(n),
        Factor::Identifier(id) => FactorV::Identifier(id),
        Factor::FunctionCall { name, arguments } => FactorV::Call(
            name,
            Seq::new(
                arguments@.len(),
                |i: int|
                    if 0 <= i < arguments@.len() {
                        expr_v(arguments@[i])
                    } else {
                        ExpressionV::Unit
                    },
            ),
        ),
        Factor::ParentheizedExpression(e) => FactorV::Paren(Box::new(expr_v(*e))),
    }
}

pub open spec fn term_v(t: Term) -> TermV
    decreases t,
{
    match t {
        Term::Factor(f) => TermV::Factor(factor_v(f)),
        Term::NegatedFactor(f) => TermV::Negated(factor_v(f)),
        Term::Product { multiplicant, multiplier } => TermV::Product(
            Box::new(term_v(*multiplicant)),
            factor_v(multiplier),
        ),
        Term::Quotient { dividend, divisor } => TermV::Quotient(
            Box::new(term_v(*dividend)),
            factor_v(divisor),
        ),
    }
}

pub open spec fn expr_v(e: Expression) -> ExpressionV
    decreases e,
{
    match e {
        Expression::Term(t) => ExpressionV::Term(term_v(t)),
        Expression::Block(b) => ExpressionV::Block(Box::new(block_v(*b))),
        Expression::If(i) => ExpressionV::If(Box::new(if_v(*i))),
        Expression::Sum { augend, addend } => ExpressionV::Sum(
            Box::new(expr_v(*augend)),
            term_v(addend),
        ),
        Expression::Difference { minuend, subtrahend } => ExpressionV::Difference(
            Box::new(expr_v(*minuend)),
            term_v(subtrahend),
        ),
        Expression::Comparison { operator, left, right } => ExpressionV::Comparison(
            operator,
            Box::new(expr_v(*left)),
            Box::new(expr_v(*right)),
        ),
        Expression::Unit => ExpressionV::Unit,
    }
}

pub open spec fn block_v(b: Block) -> BlockV
    decreases b,
{
    BlockV {
        statements: Seq::new(
            b.statements@.len(),
            |i: int|
                if 0 <= i < b.statements@.len() {
                    stmt_v(b.statements@[i])
                } else {
                    StatementV::Expression(ExpressionV::Unit)
                },
        ),
        return_expression: expr_v(b.return_expression),
    }
}

pub open spec fn branch_v(c: ConditionalBlock) -> BranchV
    decreases c,
{
    BranchV { condition: expr_v(c.condition), block: block_v(c.block) }
}

pub open spec fn if_v(i: If) -> IfV
    decreases i,
{
    IfV {
        if_block: branch_v(i.if_block),
        else_if_blocks: Seq::new(
            i.else_if_blocks@.len(),
            |k: int|
                if 0 <= k < i.else_if_blocks@.len() {
                    branch_v(i.else_if_blocks@[k])
                } else {
                    BranchV {
                        condition: ExpressionV::Unit,
                        block: BlockV { statements: Seq::empty(), return_expression: ExpressionV::Unit },
                    }
                },
        ),
        else_block: match i.else_block {
            Some(b) => Some(block_v(b)),
            None => None,
        },
    }
}

pub open spec fn decl_v(d: Declaration) -> DeclarationV
    decreases d,
{
    DeclarationV {
        keyword: d.keyword,
        identifier: d.identifier,
        data_type: type_v(d.data_type),
        expression: expr_v(d.expression),
    }
}

pub open spec fn stmt_v(s: Statement) -> StatementV
    decreases s,
{
    match s {
        Statement::Declaration(d) => StatementV::Declaration(decl_v(d)),
        Statement::Assignment(a) => StatementV::Assignment(a.identifier, expr_v(a.expression)),
        Statement::Expression(e) => StatementV::Expression(expr_v(e)),
    }
}

// The model of a list of nodes, element by element.
pub open spec fn params_v(v: Seq<Parameter>) -> Seq<ParameterV> {
    Seq::new(v.len(), |i: int| param_v(v[i]))
}

pub open spec fn exprs_v(v: Seq<Expression>) -> Seq<ExpressionV> {
    Seq::new(v.len(), |i: int| expr_v(v[i]))
}

pub open spec fn stmts_v(v: Seq<Statement>) -> Seq<StatementV> {
    Seq::new(v.len(), |i: int| stmt_v(v[i]))
}

pub open spec fn branches_v(v: Seq<ConditionalBlock>) -> Seq<BranchV> {
    Seq::new(v.len(), |i: int| branch_v(v[i]))
}

pub proof fn lemma_func_type_v(f: FuncType)
    ensures
        type_v(Type::FuncType(f)) == TypeV::Func(
            params_v(f.param_list@),
            Box::new(type_v(*f.return_type)),
        ),
{
    match type_v(Type::FuncType(f)) {
        TypeV::Func(ps, _) => assert(ps =~= params_v(f.param_list@)),
        _ => {},
    }
}

pub proof fn lemma_call_v(name: Identifier, arguments: Vec<Expression>)
    ensures
        factor_v(Factor::FunctionCall { name, arguments }) == FactorV::Call(
            name,
            exprs_v(arguments@),
        ),
{
    match factor_v(Factor::FunctionCall { name, arguments }) {
        FactorV::Call(_, args) => assert(args =~= exprs_v(arguments@)),
        _ => {},
    }
}

pub proof fn lemma_block_v(b: Block)
    ensures
        block_v(b) == (BlockV {
            statements: stmts_v(b.statements@),
            return_expression: expr_v(b.return_expression),
        }),
{
    assert(block_v(b).statements =~= stmts_v(b.statements@));
}

pub proof fn lemma_if_v(i: If)
    ensures
        if_v(i) == (IfV {
            if_block: branch_v(i.if_block),
            else_if_blocks: branches_v(i.else_if_blocks@),
            else_block: match i.else_block {
                Some(b) => Some(block_v(b)),
                None => None,
            },
        }),
{
    assert(if_v(i).else_if_blocks =~= branches_v(i.else_if_blocks@));
}

} // verus!
