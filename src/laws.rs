//! Properties of the parser and the reducer, stated over the grammar and the
//! reduction rules and proved from them.
use vstd::prelude::*;
use crate::fold::SemanticError;
use crate::extension::{lemma_extend_block_any, lemma_extend_expression, stops};
use crate::grammar::{
    ParsingError, at_keyword, comparison_of, keyword_of, number_of, sp_additive,
    sp_additive_rest, sp_block, sp_expression, sp_factor, sp_if, sp_if_rest, sp_term,
    sp_term_rest,
};
use crate::numbers::Number;
use crate::reducer::{
    BindingV, arith_value, basic_of, declare, factor_value, lookup, lookup_in_frame, reduce_expr,
    reduce_program, reduce_stmt, term_value,
};
use crate::tokens::{Token, TokenKind};
use crate::tree::{
    BasicType, BlockV, BranchV, DeclKeyword, DeclarationV, ExpressionV, FactorV, Identifier, IfV,
    Keyword, StatementV, TermV,
};

verus! {

/// The value of a reduction, where it succeeded with one.
pub open spec fn value_of(r: Result<(ExpressionV, Option<Number>), SemanticError>) -> Option<Number> {
    match r {
        Ok((_, v)) => v,
        Err(_) => None,
    }
}

/// An operand is read as what it reduces to on its own: where an
/// expression reduces to a number, its arithmetic value is that number.
pub proof fn lemma_operand_value(e: ExpressionV, ty: Option<BasicType>, frames: Seq<Seq<BindingV>>)
    ensures
        value_of(reduce_expr(e, ty, frames)) matches Some(n) ==> arith_value(e, ty, frames) == Ok::<
            Number,
            SemanticError,
        >(n),
    decreases e,
{
    match e {
        ExpressionV::Term(TermV::Factor(FactorV::Paren(inner))) => {
            lemma_operand_value(*inner, ty, frames);
            let f = FactorV::Paren(inner);
            assert(factor_value(f, ty, frames) == arith_value(*inner, ty, frames));
            assert(term_value(TermV::Factor(f), ty, frames) == factor_value(f, ty, frames));
        },
        _ => {},
    }
}

/// Mixed types: an addition of two operands of which one reduces on its own
/// to an integer and the other to a floating value, in either order, fails
/// with `MismatchedTypes`; nothing is converted.
pub proof fn lemma_mixed_addition_fails(
    left: ExpressionV,
    right: TermV,
    ty: Option<BasicType>,
    frames: Seq<Seq<BindingV>>,
)
    requires
        (value_of(reduce_expr(left, ty, frames)) matches Some(Number::Integer(_)) && value_of(
            reduce_expr(ExpressionV::Term(right), ty, frames),
        ) matches Some(Number::Float(_))) || (value_of(reduce_expr(left, ty, frames)) matches Some(
            Number::Float(_),
        ) && value_of(reduce_expr(ExpressionV::Term(right), ty, frames)) matches Some(
            Number::Integer(_),
        )),
    ensures
        reduce_expr(ExpressionV::Sum(Box::new(left), right), ty, frames) == Err::<
            (ExpressionV, Option<Number>),
            SemanticError,
        >(SemanticError::MismatchedTypes),
{
    lemma_operand_value(left, ty, frames);
    lemma_operand_value(ExpressionV::Term(right), ty, frames);
    let x = value_of(reduce_expr(left, ty, frames))->0;
    let y = value_of(reduce_expr(ExpressionV::Term(right), ty, frames))->0;
    assert(arith_value(left, ty, frames) == Ok::<Number, SemanticError>(x));
    assert(term_value(right, ty, frames) == Ok::<Number, SemanticError>(y));
    let sum = ExpressionV::Sum(Box::new(left), right);
    assert(crate::fold::num_add(x, y) == Err::<Number, SemanticError>(
        SemanticError::MismatchedTypes,
    ));
    assert(arith_value(sum, ty, frames) == Err::<Number, SemanticError>(
        SemanticError::MismatchedTypes,
    ));
}

/// The innermost frame, or none where there is no frame yet.
pub open spec fn innermost(frames: Seq<Seq<BindingV>>) -> Seq<BindingV> {
    if frames.len() > 0 {
        frames.last()
    } else {
        Seq::empty()
    }
}

/// Shadowing in one scope: declaring the same name twice in the innermost
/// frame (made by the first declaration where there is none) keeps both
/// bindings there, in the order declared, leaves the outer frames as they
/// were, and the name then refers to the later binding.
pub proof fn lemma_shadowing(frames: Seq<Seq<BindingV>>, first: BindingV, second: BindingV)
    requires
        first.name == second.name,
    ensures
        declare(declare(frames, first), second).len() == (if frames.len() > 0 {
            frames.len()
        } else {
            1
        }),
        declare(declare(frames, first), second).last() == innermost(frames).push(first).push(
            second,
        ),
        frames.len() > 0 ==> declare(declare(frames, first), second).drop_last()
            == frames.drop_last(),
        lookup(declare(declare(frames, first), second), second.name) == Some(second),
{
    let after = declare(declare(frames, first), second);
    if frames.len() > 0 {
        assert(after.drop_last() =~= frames.drop_last());
    } else {
        assert(seq![first].push(second) =~= Seq::<BindingV>::empty().push(first).push(second));
    }
    let f = innermost(frames).push(first).push(second);
    assert(f.last() == second);
    assert(lookup_in_frame(f, second.name) == Some(second));
}

/// Parentheses do not change a reduction: for every expression, its
/// parenthesized form reduces to the same node and value, or fails with the
/// same error.
pub proof fn lemma_parenthesized_reduction(
    e: ExpressionV,
    ty: Option<BasicType>,
    frames: Seq<Seq<BindingV>>,
)
    ensures
        reduce_expr(ExpressionV::Term(TermV::Factor(FactorV::Paren(Box::new(e)))), ty, frames)
            == reduce_expr(e, ty, frames),
{
}

/// Parenthesization: where the tokens `s` read in full as the expression
/// `e`, the tokens `( s )` followed by any `rest` read as a factor holding
/// `e` in parentheses and leave `rest`; followed by tokens that cannot
/// continue an expression they read as that factor alone; and the
/// parenthesized expression reduces to the same node and value as `e`, or
/// fails with the same error.
pub proof fn lemma_parenthesized(
    s: Seq<Token>,
    e: ExpressionV,
    open: Token,
    close: Token,
    rest: Seq<Token>,
    ty: Option<BasicType>,
    frames: Seq<Seq<BindingV>>,
)
    requires
        sp_expression(s) == Ok::<_, ParsingError>((e, Seq::<Token>::empty())),
        open.kind == TokenKind::LeftParenthesis,
        close.kind == TokenKind::RightParenthesis,
    ensures
        sp_factor(seq![open] + s + seq![close] + rest) == Ok::<_, ParsingError>(
            (FactorV::Paren(Box::new(e)), rest),
        ),
        stops(rest) ==> sp_expression(seq![open] + s + seq![close] + rest) == Ok::<_, ParsingError>(
            (ExpressionV::Term(TermV::Factor(FactorV::Paren(Box::new(e)))), rest),
        ),
        reduce_expr(ExpressionV::Term(TermV::Factor(FactorV::Paren(Box::new(e)))), ty, frames)
            == reduce_expr(e, ty, frames),
{
    let t = seq![close] + rest;
    let w = seq![open] + s + seq![close] + rest;
    assert(t[0] == close);
    assert(stops(t));
    lemma_extend_expression(s, t);
    assert(Seq::<Token>::empty() + t =~= t);
    assert(w.drop_first() =~= s + t);
    assert(t.drop_first() =~= rest);
    assert(w[0] == open);
    let f = FactorV::Paren(Box::new(e));
    assert(sp_factor(w) == Ok::<_, ParsingError>((f, rest)));
    if stops(rest) {
        assert(sp_term_rest(rest, TermV::Factor(f)) == Ok::<_, ParsingError>(
            (TermV::Factor(f), rest),
        ));
        assert(sp_term(w) == Ok::<_, ParsingError>((TermV::Factor(f), rest)));
        let wrapped = ExpressionV::Term(TermV::Factor(f));
        assert(sp_additive_rest(rest, wrapped) == Ok::<_, ParsingError>((wrapped, rest)));
        assert(sp_additive(w) == Ok::<_, ParsingError>((wrapped, rest)));
    }
    lemma_parenthesized_reduction(e, ty, frames);
}

/// An operand token: a number literal, or an identifier with its text.
pub open spec fn operand(t: Token) -> bool {
    number_of(t) is Some || (t.kind == TokenKind::Identifier && t.lexeme is Some)
}

/// The factor an operand token reads as.
pub open spec fn leaf(t: Token) -> FactorV {
    if t.kind == TokenKind::Identifier {
        FactorV::Identifier(Identifier(t.lexeme->0))
    } else {
        FactorV::Number(number_of(t)->0)
    }
}

pub open spec fn additive_op(t: Token) -> bool {
    t.kind == TokenKind::Plus || t.kind == TokenKind::Minus
}

pub open spec fn multiplicative_op(t: Token) -> bool {
    t.kind == TokenKind::Times || t.kind == TokenKind::Divide
}

/// The term `left op f` for `op` one of `* /`.
pub open spec fn term_node(left: TermV, op: Token, f: FactorV) -> TermV {
    if op.kind == TokenKind::Times {
        TermV::Product(Box::new(left), f)
    } else {
        TermV::Quotient(Box::new(left), f)
    }
}

/// The expression `left op t` for `op` one of `+ -`.
pub open spec fn expression_node(left: ExpressionV, op: Token, t: TermV) -> ExpressionV {
    if op.kind == TokenKind::Plus {
        ExpressionV::Sum(Box::new(left), t)
    } else {
        ExpressionV::Difference(Box::new(left), t)
    }
}

/// The tree of `a op1 b op2 c`: `* /` bind tighter than `+ -`, and
/// operators of one level nest on the left.
pub open spec fn binary_tree(a: Token, op1: Token, b: Token, op2: Token, c: Token) -> ExpressionV {
    let fa = TermV::Factor(leaf(a));
    if additive_op(op1) && multiplicative_op(op2) {
        expression_node(ExpressionV::Term(fa), op1, term_node(TermV::Factor(leaf(b)), op2, leaf(c)))
    } else if multiplicative_op(op1) && additive_op(op2) {
        expression_node(ExpressionV::Term(term_node(fa, op1, leaf(b))), op2, TermV::Factor(leaf(c)))
    } else if additive_op(op1) {
        expression_node(
            expression_node(ExpressionV::Term(fa), op1, TermV::Factor(leaf(b))),
            op2,
            TermV::Factor(leaf(c)),
        )
    } else {
        ExpressionV::Term(term_node(term_node(fa, op1, leaf(b)), op2, leaf(c)))
    }
}

/// Whether a token ends an arithmetic expression: it is no operator, no
/// comparison and no opening parenthesis.
pub open spec fn ends_arithmetic(rest: Seq<Token>) -> bool {
    rest.len() == 0 || !(additive_op(rest[0]) || multiplicative_op(rest[0]) || rest[0].kind
        == TokenKind::LeftParenthesis || comparison_of(rest[0]) is Some)
}

proof fn lemma_leaf(x: Token, rest: Seq<Token>)
    requires
        operand(x),
        rest.len() == 0 || rest[0].kind != TokenKind::LeftParenthesis,
    ensures
        sp_factor(seq![x] + rest) == Ok::<_, ParsingError>((leaf(x), rest)),
{
    let s = seq![x] + rest;
    assert(s[0] == x);
    assert(s.drop_first() =~= rest);
    if x.kind == TokenKind::Identifier {
        assert(number_of(x) is None || x.kind == TokenKind::Identifier);
    }
}

proof fn lemma_add_then_mul(
    a: Token,
    op1: Token,
    b: Token,
    op2: Token,
    c: Token,
    rest: Seq<Token>,
)
    requires
        operand(a),
        operand(b),
        operand(c),
        additive_op(op1) || multiplicative_op(op1),
        additive_op(op2) || multiplicative_op(op2),
        ends_arithmetic(rest),
        additive_op(op1) && multiplicative_op(op2),
    ensures
        sp_expression(seq![a, op1, b, op2, c] + rest) == Ok::<_, ParsingError>(
            (binary_tree(a, op1, b, op2, c), rest),
        ),
{
    let s0 = seq![a, op1, b, op2, c] + rest;
    let s1 = seq![op1, b, op2, c] + rest;
    let s2 = seq![b, op2, c] + rest;
    let s3 = seq![op2, c] + rest;
    let s4 = seq![c] + rest;
    assert(s0 =~= seq![a] + s1);
    assert(s1 =~= seq![op1] + s2);
    assert(s2 =~= seq![b] + s3);
    assert(s3 =~= seq![op2] + s4);
    assert(s1.drop_first() =~= s2);
    assert(s3.drop_first() =~= s4);
    lemma_leaf(a, s1);
    lemma_leaf(b, s3);
    lemma_leaf(c, rest);
    assert(s0[0] == a && s2[0] == b && s1[0] == op1 && s3[0] == op2);
    let fa = leaf(a);
    let fb = leaf(b);
    let fc = leaf(c);
    assert(sp_term_rest(rest, TermV::Factor(fc)) == Ok::<_, ParsingError>((TermV::Factor(fc), rest)));
        let rhs = term_node(TermV::Factor(fb), op2, fc);
        assert(sp_term_rest(s1, TermV::Factor(fa)) == Ok::<_, ParsingError>((TermV::Factor(fa), s1)));
        assert(sp_term(s0) == Ok::<_, ParsingError>((TermV::Factor(fa), s1)));
        assert(sp_term_rest(rest, rhs) == Ok::<_, ParsingError>((rhs, rest)));
        assert(sp_term_rest(s3, TermV::Factor(fb)) == Ok::<_, ParsingError>((rhs, rest)));
        assert(sp_term(s2) == Ok::<_, ParsingError>((rhs, rest)));
        let e = binary_tree(a, op1, b, op2, c);
        assert(sp_additive_rest(rest, e) == Ok::<_, ParsingError>((e, rest)));
        assert(sp_additive_rest(s1, ExpressionV::Term(TermV::Factor(fa))) == Ok::<_, ParsingError>(
            (e, rest),
        ));
        assert(sp_additive(s0) == Ok::<_, ParsingError>((e, rest)));
}

proof fn lemma_mul_then_add(
    a: Token,
    op1: Token,
    b: Token,
    op2: Token,
    c: Token,
    rest: Seq<Token>,
)
    requires
        operand(a),
        operand(b),
        operand(c),
        additive_op(op1) || multiplicative_op(op1),
        additive_op(op2) || multiplicative_op(op2),
        ends_arithmetic(rest),
        multiplicative_op(op1) && additive_op(op2),
    ensures
        sp_expression(seq![a, op1, b, op2, c] + rest) == Ok::<_, ParsingError>(
            (binary_tree(a, op1, b, op2, c), rest),
        ),
{
    let s0 = seq![a, op1, b, op2, c] + rest;
    let s1 = seq![op1, b, op2, c] + rest;
    let s2 = seq![b, op2, c] + rest;
    let s3 = seq![op2, c] + rest;
    let s4 = seq![c] + rest;
    assert(s0 =~= seq![a] + s1);
    assert(s1 =~= seq![op1] + s2);
    assert(s2 =~= seq![b] + s3);
    assert(s3 =~= seq![op2] + s4);
    assert(s1.drop_first() =~= s2);
    assert(s3.drop_first() =~= s4);
    lemma_leaf(a, s1);
    lemma_leaf(b, s3);
    lemma_leaf(c, rest);
    assert(s0[0] == a && s2[0] == b && s1[0] == op1 && s3[0] == op2);
    let fa = leaf(a);
    let fb = leaf(b);
    let fc = leaf(c);
    assert(sp_term_rest(rest, TermV::Factor(fc)) == Ok::<_, ParsingError>((TermV::Factor(fc), rest)));
        let lhs = term_node(TermV::Factor(fa), op1, fb);
        assert(sp_term_rest(s3, lhs) == Ok::<_, ParsingError>((lhs, s3)));
        assert(sp_term_rest(s1, TermV::Factor(fa)) == Ok::<_, ParsingError>((lhs, s3)));
        assert(sp_term(s0) == Ok::<_, ParsingError>((lhs, s3)));
        assert(sp_term(s4) == Ok::<_, ParsingError>((TermV::Factor(fc), rest)));
        let e = binary_tree(a, op1, b, op2, c);
        assert(sp_additive_rest(rest, e) == Ok::<_, ParsingError>((e, rest)));
        assert(sp_additive_rest(s3, ExpressionV::Term(lhs)) == Ok::<_, ParsingError>((e, rest)));
        assert(sp_additive(s0) == Ok::<_, ParsingError>((e, rest)));
}

proof fn lemma_add_then_add(
    a: Token,
    op1: Token,
    b: Token,
    op2: Token,
    c: Token,
    rest: Seq<Token>,
)
    requires
        operand(a),
        operand(b),
        operand(c),
        additive_op(op1) || multiplicative_op(op1),
        additive_op(op2) || multiplicative_op(op2),
        ends_arithmetic(rest),
        additive_op(op1) && additive_op(op2),
    ensures
        sp_expression(seq![a, op1, b, op2, c] + rest) == Ok::<_, ParsingError>(
            (binary_tree(a, op1, b, op2, c), rest),
        ),
{
    let s0 = seq![a, op1, b, op2, c] + rest;
    let s1 = seq![op1, b, op2, c] + rest;
    let s2 = seq![b, op2, c] + rest;
    let s3 = seq![op2, c] + rest;
    let s4 = seq![c] + rest;
    assert(s0 =~= seq![a] + s1);
    assert(s1 =~= seq![op1] + s2);
    assert(s2 =~= seq![b] + s3);
    assert(s3 =~= seq![op2] + s4);
    assert(s1.drop_first() =~= s2);
    assert(s3.drop_first() =~= s4);
    lemma_leaf(a, s1);
    lemma_leaf(b, s3);
    lemma_leaf(c, rest);
    assert(s0[0] == a && s2[0] == b && s1[0] == op1 && s3[0] == op2);
    let fa = leaf(a);
    let fb = leaf(b);
    let fc = leaf(c);
    assert(sp_term_rest(rest, TermV::Factor(fc)) == Ok::<_, ParsingError>((TermV::Factor(fc), rest)));
        assert(sp_term_rest(s1, TermV::Factor(fa)) == Ok::<_, ParsingError>((TermV::Factor(fa), s1)));
        assert(sp_term(s0) == Ok::<_, ParsingError>((TermV::Factor(fa), s1)));
        assert(sp_term_rest(s3, TermV::Factor(fb)) == Ok::<_, ParsingError>((TermV::Factor(fb), s3)));
        assert(sp_term(s2) == Ok::<_, ParsingError>((TermV::Factor(fb), s3)));
        assert(sp_term(s4) == Ok::<_, ParsingError>((TermV::Factor(fc), rest)));
        let mid = expression_node(ExpressionV::Term(TermV::Factor(fa)), op1, TermV::Factor(fb));
        let e = binary_tree(a, op1, b, op2, c);
        assert(sp_additive_rest(rest, e) == Ok::<_, ParsingError>((e, rest)));
        assert(sp_additive_rest(s3, mid) == Ok::<_, ParsingError>((e, rest)));
        assert(sp_additive_rest(s1, ExpressionV::Term(TermV::Factor(fa))) == Ok::<_, ParsingError>(
            (e, rest),
        ));
        assert(sp_additive(s0) == Ok::<_, ParsingError>((e, rest)));
}

proof fn lemma_mul_then_mul(
    a: Token,
    op1: Token,
    b: Token,
    op2: Token,
    c: Token,
    rest: Seq<Token>,
)
    requires
        operand(a),
        operand(b),
        operand(c),
        additive_op(op1) || multiplicative_op(op1),
        additive_op(op2) || multiplicative_op(op2),
        ends_arithmetic(rest),
        multiplicative_op(op1) && multiplicative_op(op2),
    ensures
        sp_expression(seq![a, op1, b, op2, c] + rest) == Ok::<_, ParsingError>(
            (binary_tree(a, op1, b, op2, c), rest),
        ),
{
    let s0 = seq![a, op1, b, op2, c] + rest;
    let s1 = seq![op1, b, op2, c] + rest;
    let s2 = seq![b, op2, c] + rest;
    let s3 = seq![op2, c] + rest;
    let s4 = seq![c] + rest;
    assert(s0 =~= seq![a] + s1);
    assert(s1 =~= seq![op1] + s2);
    assert(s2 =~= seq![b] + s3);
    assert(s3 =~= seq![op2] + s4);
    assert(s1.drop_first() =~= s2);
    assert(s3.drop_first() =~= s4);
    lemma_leaf(a, s1);
    lemma_leaf(b, s3);
    lemma_leaf(c, rest);
    assert(s0[0] == a && s2[0] == b && s1[0] == op1 && s3[0] == op2);
    let fa = leaf(a);
    let fb = leaf(b);
    let fc = leaf(c);
    assert(sp_term_rest(rest, TermV::Factor(fc)) == Ok::<_, ParsingError>((TermV::Factor(fc), rest)));
        let lhs = term_node(TermV::Factor(fa), op1, fb);
        let t = term_node(lhs, op2, fc);
        assert(sp_term_rest(rest, t) == Ok::<_, ParsingError>((t, rest)));
        assert(sp_term_rest(s3, lhs) == Ok::<_, ParsingError>((t, rest)));
        assert(sp_term_rest(s1, TermV::Factor(fa)) == Ok::<_, ParsingError>((t, rest)));
        assert(sp_term(s0) == Ok::<_, ParsingError>((t, rest)));
        let e = ExpressionV::Term(t);
        assert(sp_additive_rest(rest, e) == Ok::<_, ParsingError>((e, rest)));
        assert(sp_additive(s0) == Ok::<_, ParsingError>((e, rest)));
}

/// Precedence and associativity: in `a op1 b op2 c` with number or
/// identifier operands and operators among `+ - * /`, followed by tokens
/// that do not continue an arithmetic expression, the five tokens read as
/// one expression in which `* /` bind tighter than `+ -` and operators of one
/// level nest on the left; the following tokens are left over.
pub proof fn lemma_binary_precedence(
    a: Token,
    op1: Token,
    b: Token,
    op2: Token,
    c: Token,
    rest: Seq<Token>,
)
    requires
        operand(a),
        operand(b),
        operand(c),
        additive_op(op1) || multiplicative_op(op1),
        additive_op(op2) || multiplicative_op(op2),
        ends_arithmetic(rest),
    ensures
        sp_expression(seq![a, op1, b, op2, c] + rest) == Ok::<_, ParsingError>(
            (binary_tree(a, op1, b, op2, c), rest),
        ),
{
    if additive_op(op1) && multiplicative_op(op2) {
        lemma_add_then_mul(a, op1, b, op2, c, rest);
    } else if multiplicative_op(op1) && additive_op(op2) {
        lemma_mul_then_add(a, op1, b, op2, c, rest);
    } else if additive_op(op1) {
        lemma_add_then_add(a, op1, b, op2, c, rest);
    } else {
        lemma_mul_then_mul(a, op1, b, op2, c, rest);
    }
}

/// The tokens `else if c B` for each condition and block, in order.
pub open spec fn else_if_tokens(
    else_tok: Token,
    if_tok: Token,
    conds: Seq<Seq<Token>>,
    blocks: Seq<Seq<Token>>,
) -> Seq<Token>
    decreases conds.len(),
{
    if conds.len() == 0 || blocks.len() == 0 {
        Seq::empty()
    } else {
        seq![else_tok, if_tok] + conds[0] + blocks[0] + else_if_tokens(
            else_tok,
            if_tok,
            conds.drop_first(),
            blocks.drop_first(),
        )
    }
}

/// The branches made of conditions and blocks, pairwise and in order.
pub open spec fn branches_of(cs: Seq<ExpressionV>, bs: Seq<BlockV>) -> Seq<BranchV> {
    Seq::new(cs.len(), |i: int| BranchV { condition: cs[i], block: bs[i] })
}

/// Tokens that read in full as the condition `c` and then the block `b`.
pub open spec fn reads_branch(cond: Seq<Token>, c: ExpressionV, block: Seq<Token>, b: BlockV) -> bool {
    &&& sp_expression(cond) == Ok::<_, ParsingError>((c, Seq::<Token>::empty()))
    &&& sp_block(block) == Ok::<_, ParsingError>((b, Seq::<Token>::empty()))
}

proof fn lemma_branch(cond: Seq<Token>, c: ExpressionV, block: Seq<Token>, b: BlockV, rest: Seq<Token>)
    requires
        reads_branch(cond, c, block, b),
    ensures
        sp_expression(cond + (block + rest)) == Ok::<_, ParsingError>((c, block + rest)),
        sp_block(block + rest) == Ok::<_, ParsingError>((b, rest)),
        block.len() > 0,
{
    let t = block + rest;
    assert(block.len() > 0 && block[0].kind == TokenKind::LeftCurly);
    assert(t[0] == block[0]);
    assert(stops(t));
    lemma_extend_expression(cond, t);
    assert(Seq::<Token>::empty() + t =~= t);
    lemma_extend_block_any(block, rest);
    assert(Seq::<Token>::empty() + rest =~= rest);
}

proof fn lemma_else_ifs(
    else_tok: Token,
    if_tok: Token,
    conds: Seq<Seq<Token>>,
    cs: Seq<ExpressionV>,
    blocks: Seq<Seq<Token>>,
    bs: Seq<BlockV>,
    tail: Seq<Token>,
    head: BranchV,
    brs: Seq<BranchV>,
)
    requires
        keyword_of(else_tok) == Some(Keyword::Else),
        keyword_of(if_tok) == Some(Keyword::If),
        conds.len() == cs.len() && blocks.len() == bs.len() && cs.len() == bs.len(),
        forall|i: int| 0 <= i < cs.len() ==> reads_branch(conds[i], cs[i], blocks[i], bs[i]),
    ensures
        sp_if_rest(else_if_tokens(else_tok, if_tok, conds, blocks) + tail, head, brs) == sp_if_rest(
            tail,
            head,
            brs + branches_of(cs, bs),
        ),
    decreases conds.len(),
{
    if conds.len() == 0 {
        assert(Seq::<Token>::empty() + tail =~= tail);
        assert(brs + branches_of(cs, bs) =~= brs);
    } else {
        let later = else_if_tokens(else_tok, if_tok, conds.drop_first(), blocks.drop_first());
        let r = later + tail;
        let s = else_if_tokens(else_tok, if_tok, conds, blocks) + tail;
        assert(s =~= seq![else_tok, if_tok] + (conds[0] + (blocks[0] + r)));
        assert(s.drop_first()[0] == if_tok);
        assert(s.subrange(2, s.len() as int) =~= conds[0] + (blocks[0] + r));
        assert(reads_branch(conds[0], cs[0], blocks[0], bs[0]));
        lemma_branch(conds[0], cs[0], blocks[0], bs[0], r);
        let br = BranchV { condition: cs[0], block: bs[0] };
        assert(sp_if_rest(s, head, brs) == sp_if_rest(r, head, brs.push(br)));
        assert forall|i: int| 0 <= i < cs.drop_first().len() implies reads_branch(
            conds.drop_first()[i],
            cs.drop_first()[i],
            blocks.drop_first()[i],
            bs.drop_first()[i],
        ) by {
            assert(reads_branch(conds[i + 1], cs[i + 1], blocks[i + 1], bs[i + 1]));
        }
        lemma_else_ifs(
            else_tok,
            if_tok,
            conds.drop_first(),
            cs.drop_first(),
            blocks.drop_first(),
            bs.drop_first(),
            tail,
            head,
            brs.push(br),
        );
        assert(brs.push(br) + branches_of(cs.drop_first(), bs.drop_first()) =~= brs + branches_of(
            cs,
            bs,
        ));
    }
}

/// If/else-if chains: `if c0 B0`, then `else if c B` for each further
/// condition and block in order, then `else Be` where an else block is
/// given, where each condition reads in full as an expression and each block
/// in full as a block, read as one `if`: its first branch is `c0` with `B0`,
/// its else-if branches are the further pairs in their order, each `else if`
/// taken together as one branch, and its else block is `Be` exactly where one
/// is given. The tokens after are left over; without an else block they must
/// not begin with `else`.
pub proof fn lemma_if_chain(
    if_tok: Token,
    else_tok: Token,
    cond0: Seq<Token>,
    c0: ExpressionV,
    block0: Seq<Token>,
    b0: BlockV,
    conds: Seq<Seq<Token>>,
    cs: Seq<ExpressionV>,
    blocks: Seq<Seq<Token>>,
    bs: Seq<BlockV>,
    else_tokens: Seq<Token>,
    else_block: Option<BlockV>,
    rest: Seq<Token>,
)
    requires
        keyword_of(if_tok) == Some(Keyword::If),
        keyword_of(else_tok) == Some(Keyword::Else),
        reads_branch(cond0, c0, block0, b0),
        conds.len() == cs.len() && blocks.len() == bs.len() && cs.len() == bs.len(),
        forall|i: int| 0 <= i < cs.len() ==> reads_branch(conds[i], cs[i], blocks[i], bs[i]),
        else_block matches Some(be) ==> sp_block(else_tokens) == Ok::<_, ParsingError>(
            (be, Seq::<Token>::empty()),
        ),
        else_block is None ==> else_tokens.len() == 0 && !at_keyword(rest, Keyword::Else),
    ensures
        sp_if(
            seq![if_tok] + cond0 + block0 + else_if_tokens(else_tok, if_tok, conds, blocks) + (
            if else_block is Some {
                seq![else_tok] + else_tokens
            } else {
                Seq::empty()
            }) + rest,
        ) == Ok::<_, ParsingError>(
            (
                IfV {
                    if_block: BranchV { condition: c0, block: b0 },
                    else_if_blocks: branches_of(cs, bs),
                    else_block,
                },
                rest,
            ),
        ),
{
    let chain = else_if_tokens(else_tok, if_tok, conds, blocks);
    let last = if else_block is Some {
        seq![else_tok] + else_tokens
    } else {
        Seq::<Token>::empty()
    };
    let tail = last + rest;
    let x = chain + tail;
    let s = seq![if_tok] + cond0 + block0 + chain + last + rest;
    assert(s =~= seq![if_tok] + (cond0 + (block0 + x)));
    assert(s[0] == if_tok);
    assert(s.drop_first() =~= cond0 + (block0 + x));
    lemma_branch(cond0, c0, block0, b0, x);
    let head = BranchV { condition: c0, block: b0 };
    assert(sp_if(s) == sp_if_rest(x, head, Seq::empty()));
    lemma_else_ifs(else_tok, if_tok, conds, cs, blocks, bs, tail, head, Seq::empty());
    assert(Seq::<BranchV>::empty() + branches_of(cs, bs) =~= branches_of(cs, bs));
    let all = branches_of(cs, bs);
    match else_block {
        Some(be) => {
            assert(tail =~= seq![else_tok] + (else_tokens + rest));
            assert(tail.drop_first() =~= else_tokens + rest);
            lemma_extend_block_any(else_tokens, rest);
            assert(Seq::<Token>::empty() + rest =~= rest);
            assert(else_tokens.len() > 0 && else_tokens[0].kind == TokenKind::LeftCurly);
            assert(tail.drop_first()[0] == else_tokens[0]);
            assert(sp_if_rest(tail, head, all) == Ok::<_, ParsingError>(
                (IfV { if_block: head, else_if_blocks: all, else_block: Some(be) }, rest),
            ));
        },
        None => {
            assert(tail =~= rest);
        },
    }
}

/// The binding a declaration makes, with the value its initializer reduced to.
pub open spec fn binding_for(d: DeclarationV, value: Option<Number>) -> BindingV {
    BindingV {
        name: d.identifier.0@,
        mutable: d.keyword == DeclKeyword::Mut,
        datatype: d.data_type,
        value,
    }
}

/// Shadowing through validation: a program of two declarations of one name,
/// whose initializers reduce, validates to a table of one frame that holds
/// both bindings in the order declared, and the name refers to the second.
pub proof fn lemma_program_shadowing(d1: DeclarationV, d2: DeclarationV)
    requires
        d1.identifier.0@ == d2.identifier.0@,
        reduce_expr(d1.expression, basic_of(d1.data_type), Seq::empty()) is Ok,
        reduce_expr(
            d2.expression,
            basic_of(d2.data_type),
            declare(
                Seq::empty(),
                binding_for(d1, value_of(reduce_expr(d1.expression, basic_of(d1.data_type), Seq::empty()))),
            ),
        ) is Ok,
    ensures
        ({
            let b1 = binding_for(
                d1,
                value_of(reduce_expr(d1.expression, basic_of(d1.data_type), Seq::empty())),
            );
            let b2 = binding_for(
                d2,
                value_of(
                    reduce_expr(d2.expression, basic_of(d2.data_type), declare(Seq::empty(), b1)),
                ),
            );
            &&& reduce_program(
                seq![StatementV::Declaration(d1), StatementV::Declaration(d2)],
                0,
                Seq::empty(),
                Seq::empty(),
            ) matches Ok((_, frames))
            &&& frames == seq![seq![b1, b2]]
            &&& lookup(frames, d2.identifier.0@) == Some(b2)
        }),
{
    let stmts = seq![StatementV::Declaration(d1), StatementV::Declaration(d2)];
    let empty = Seq::<Seq<BindingV>>::empty();
    let b1 = binding_for(d1, value_of(reduce_expr(d1.expression, basic_of(d1.data_type), empty)));
    let f1 = declare(empty, b1);
    let b2 = binding_for(d2, value_of(reduce_expr(d2.expression, basic_of(d2.data_type), f1)));
    let f2 = declare(f1, b2);
    let (e1, _) = reduce_expr(d1.expression, basic_of(d1.data_type), empty)->Ok_0;
    let (e2, _) = reduce_expr(d2.expression, basic_of(d2.data_type), f1)->Ok_0;
    let s1 = StatementV::Declaration(DeclarationV { expression: e1, ..d1 });
    let s2 = StatementV::Declaration(DeclarationV { expression: e2, ..d2 });
    assert(reduce_stmt(stmts[0], empty) == Ok::<_, SemanticError>((s1, f1)));
    assert(reduce_stmt(stmts[1], f1) == Ok::<_, SemanticError>((s2, f2)));
    assert(seq![s1].push(s2) =~= seq![s1, s2]);
    assert(Seq::<StatementV>::empty().push(s1) =~= seq![s1]);
    assert(reduce_program(stmts, 2, f2, seq![s1, s2]) == Ok::<_, SemanticError>((seq![s1, s2], f2)));
    assert(reduce_program(stmts, 1, f1, seq![s1]) == Ok::<_, SemanticError>((seq![s1, s2], f2)));
    assert(reduce_program(stmts, 0, empty, Seq::empty()) == Ok::<_, SemanticError>(
        (seq![s1, s2], f2),
    ));
    assert(seq![b1].push(b2) =~= seq![b1, b2]);
    assert(f2 =~= seq![seq![b1, b2]]);
    lemma_shadowing(empty, b1, b2);
}

/// Parenthesization through validation: a declaration whose initializer is
/// wrapped in parentheses reduces to the same statement and the same table
/// as the declaration with the bare initializer, or fails with the same
/// error; so does an expression statement.
pub proof fn lemma_parenthesized_statement(d: DeclarationV, e: ExpressionV, frames: Seq<Seq<BindingV>>)
    ensures
        reduce_stmt(
            StatementV::Declaration(
                DeclarationV {
                    expression: ExpressionV::Term(
                        TermV::Factor(FactorV::Paren(Box::new(d.expression))),
                    ),
                    ..d
                },
            ),
            frames,
        ) == reduce_stmt(StatementV::Declaration(d), frames),
        reduce_stmt(
            StatementV::Expression(ExpressionV::Term(TermV::Factor(FactorV::Paren(Box::new(e))))),
            frames,
        ) == reduce_stmt(StatementV::Expression(e), frames),
{
    lemma_parenthesized_reduction(d.expression, basic_of(d.data_type), frames);
    lemma_parenthesized_reduction(e, None, frames);
}

} // verus!
