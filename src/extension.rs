//! Reading does not depend on what follows: where a rule left tokens over,
//! or the tokens appended do not begin with one that could continue what it
//! read, the rule reads the same node from the longer sequence and leaves
//! the appended tokens over as well.
use vstd::prelude::*;
use crate::grammar::{
    Parsed, ParsingError, at_keyword, at_kind, comparison_of, decl_keyword_of,
    expect, keyword_of, number_of, sp_additive, sp_additive_rest, sp_arguments,
    sp_arguments_rest, sp_block, sp_block_items, sp_declaration, sp_expression, sp_factor,
    sp_if, sp_if_rest, sp_parameter, sp_parameters, sp_parameters_rest,
    sp_statement, sp_term, sp_term_rest, sp_type,
};
use crate::tokens::{Token, TokenKind};
use crate::tree::{BranchV, ExpressionV, Keyword, ParameterV, StatementV, TermV};

verus! {

/// Whether a token, right after what a rule read, could make the rule read
/// on: an operator, a comparison, an opening parenthesis, a comma, an `=`,
/// or `else`.
pub open spec fn continues(t: Token) -> bool {
    ||| t.kind == TokenKind::Plus
    ||| t.kind == TokenKind::Minus
    ||| t.kind == TokenKind::Times
    ||| t.kind == TokenKind::Divide
    ||| t.kind == TokenKind::LeftParenthesis
    ||| t.kind == TokenKind::Comma
    ||| t.kind == TokenKind::Assignment
    ||| comparison_of(t) is Some
    ||| keyword_of(t) == Some(Keyword::Else)
}

/// Whether tokens can follow anything that was read without changing it.
pub open spec fn stops(t: Seq<Token>) -> bool {
    t.len() == 0 || !continues(t[0])
}

pub open spec fn is_suffix(r: Seq<Token>, s: Seq<Token>) -> bool {
    r.len() <= s.len() && r == s.subrange(s.len() - r.len(), s.len() as int)
}

/// What is left after a successful read.
pub open spec fn rest_of<V>(r: Parsed<V>) -> Seq<Token> {
    match r {
        Ok((_, q)) => q,
        Err(_) => Seq::empty(),
    }
}

/// Where `before` read a node from `s`, it left a suffix of `s`; and where
/// that suffix is not empty, or `t` cannot continue what was read, `after`
/// read the same node from `s + t`, leaving `t` after what `before` left.
pub open spec fn extends<V>(s: Seq<Token>, t: Seq<Token>, before: Parsed<V>, after: Parsed<V>) -> bool {
    match before {
        Ok((x, r)) => is_suffix(r, s) && ((r.len() > 0 || stops(t)) ==> after == Ok::<
            (V, Seq<Token>),
            ParsingError,
        >((x, r + t))),
        Err(_) => true,
    }
}

pub proof fn lemma_concat(s: Seq<Token>, t: Seq<Token>)
    ensures
        s.len() > 0 ==> (s + t).len() > 0 && (s + t)[0] == s[0] && (s + t).drop_first()
            == s.drop_first() + t,
        s.len() > 1 ==> (s + t)[1] == s[1] && (s + t).subrange(2, (s + t).len() as int)
            == s.subrange(2, s.len() as int) + t,
        s.len() == 0 ==> s + t == t,
{
    if s.len() > 0 {
        assert((s + t).drop_first() =~= s.drop_first() + t);
    } else {
        assert(s + t =~= t);
    }
    if s.len() > 1 {
        assert((s + t).subrange(2, (s + t).len() as int) =~= s.subrange(2, s.len() as int) + t);
    }
}

pub proof fn lemma_suffix_facts(r: Seq<Token>, q: Seq<Token>, s: Seq<Token>)
    ensures
        is_suffix(s, s),
        s.len() > 0 ==> is_suffix(s.drop_first(), s),
        s.len() > 1 ==> is_suffix(s.subrange(2, s.len() as int), s),
        is_suffix(r, q) && is_suffix(q, s) ==> is_suffix(r, s),
        is_suffix(r, s) && r.len() > 0 ==> is_suffix(r.drop_first(), s),
{
    assert(s =~= s.subrange(0, s.len() as int));
    if s.len() > 0 {
        assert(s.drop_first() =~= s.subrange(1, s.len() as int));
    }
    if s.len() > 1 {
        assert(s.subrange(2, s.len() as int) =~= s.subrange(s.len() - (s.len() - 2), s.len() as int));
    }
    if is_suffix(r, q) && is_suffix(q, s) {
        assert(r =~= s.subrange(s.len() - r.len(), s.len() as int));
    }
    if is_suffix(r, s) && r.len() > 0 {
        assert(r.drop_first() =~= s.subrange(s.len() - r.drop_first().len(), s.len() as int));
    }
}

pub proof fn lemma_expect(s: Seq<Token>, t: Seq<Token>, k: TokenKind)
    requires
        expect(s, k) is Ok,
    ensures
        is_suffix(expect(s, k)->Ok_0, s),
        expect(s + t, k) == Ok::<_, ParsingError>(expect(s, k)->Ok_0 + t),
{
    lemma_concat(s, t);
    lemma_suffix_facts(s, s, s);
}

pub proof fn lemma_extend_type(s: Seq<Token>, t: Seq<Token>)
    ensures
        extends(s, t, sp_type(s), sp_type(s + t)),
    decreases s.len(), 2nat,
{
    lemma_concat(s, t);
    lemma_suffix_facts(s, s, s);
    if sp_type(s) is Ok && at_kind(s, TokenKind::LeftParenthesis) {
        let s1 = s.drop_first();
        lemma_extend_parameters(s1, t);
        let r = rest_of(sp_parameters(s1));
        lemma_suffix_facts(r, s1, s);
        lemma_expect(r, t, TokenKind::RightParenthesis);
        let r2 = expect(r, TokenKind::RightParenthesis)->Ok_0;
        lemma_suffix_facts(r2, r, s);
        lemma_expect(r2, t, TokenKind::RightArrow);
        let r3 = expect(r2, TokenKind::RightArrow)->Ok_0;
        lemma_suffix_facts(r3, r2, s);
        lemma_extend_type(r3, t);
        lemma_suffix_facts(rest_of(sp_type(r3)), r3, s);
    }
}

pub proof fn lemma_extend_parameter(s: Seq<Token>, t: Seq<Token>)
    ensures
        extends(s, t, sp_parameter(s), sp_parameter(s + t)),
    decreases s.len(), 1nat,
{
    lemma_concat(s, t);
    lemma_suffix_facts(s, s, s);
    if sp_parameter(s) is Ok {
        let r = s.drop_first();
        lemma_expect(r, t, TokenKind::Colon);
        let r2 = expect(r, TokenKind::Colon)->Ok_0;
        lemma_suffix_facts(r2, r, s);
        lemma_extend_type(r2, t);
        lemma_suffix_facts(rest_of(sp_type(r2)), r2, s);
    }
}

pub proof fn lemma_extend_parameters(s: Seq<Token>, t: Seq<Token>)
    ensures
        extends(s, t, sp_parameters(s), sp_parameters(s + t)),
    decreases s.len(), 3nat,
{
    lemma_concat(s, t);
    lemma_suffix_facts(s, s, s);
    if sp_parameters(s) is Ok {
        lemma_extend_parameter(s, t);
        let (p, r) = sp_parameter(s)->Ok_0;
        lemma_extend_parameters_rest(r, t, seq![p]);
        lemma_suffix_facts(rest_of(sp_parameters_rest(r, seq![p])), r, s);
    }
}

pub proof fn lemma_extend_parameters_rest(s: Seq<Token>, t: Seq<Token>, acc: Seq<ParameterV>)
    ensures
        extends(s, t, sp_parameters_rest(s, acc), sp_parameters_rest(s + t, acc)),
    decreases s.len(), 0nat,
{
    lemma_concat(s, t);
    lemma_suffix_facts(s, s, s);
    if sp_parameters_rest(s, acc) is Ok && at_kind(s, TokenKind::Comma) {
        let s1 = s.drop_first();
        lemma_extend_parameter(s1, t);
        let (p, r) = sp_parameter(s1)->Ok_0;
        lemma_suffix_facts(r, s1, s);
        lemma_extend_parameters_rest(r, t, acc.push(p));
        lemma_suffix_facts(rest_of(sp_parameters_rest(r, acc.push(p))), r, s);
    }
}

pub proof fn lemma_extend_factor(s: Seq<Token>, t: Seq<Token>)
    ensures
        extends(s, t, sp_factor(s), sp_factor(s + t)),
    decreases s.len(), 1nat,
{
    lemma_concat(s, t);
    lemma_suffix_facts(s, s, s);
    if sp_factor(s) is Ok {
        if at_kind(s, TokenKind::LeftParenthesis) {
            let s1 = s.drop_first();
            lemma_extend_expression(s1, t);
            let r = rest_of(sp_expression(s1));
            lemma_suffix_facts(r, s1, s);
            lemma_expect(r, t, TokenKind::RightParenthesis);
            lemma_suffix_facts(expect(r, TokenKind::RightParenthesis)->Ok_0, r, s);
        } else if at_kind(s, TokenKind::Identifier) && s[0].lexeme is Some {
            let r = s.drop_first();
            lemma_concat(r, t);
            if at_kind(r, TokenKind::LeftParenthesis) {
                lemma_extend_arguments(r, t);
                lemma_suffix_facts(rest_of(sp_arguments(r)), r, s);
            }
        }
    }
}

pub proof fn lemma_extend_arguments(s: Seq<Token>, t: Seq<Token>)
    ensures
        extends(s, t, sp_arguments(s), sp_arguments(s + t)),
    decreases s.len(), 0nat,
{
    lemma_concat(s, t);
    lemma_suffix_facts(s, s, s);
    if sp_arguments(s) is Ok {
        let s1 = s.drop_first();
        lemma_extend_expression(s1, t);
        let (e, r) = sp_expression(s1)->Ok_0;
        lemma_suffix_facts(r, s1, s);
        lemma_extend_arguments_rest(r, t, seq![e]);
        lemma_suffix_facts(rest_of(sp_arguments_rest(r, seq![e])), r, s);
    }
}

pub proof fn lemma_extend_arguments_rest(s: Seq<Token>, t: Seq<Token>, acc: Seq<ExpressionV>)
    ensures
        extends(s, t, sp_arguments_rest(s, acc), sp_arguments_rest(s + t, acc)),
    decreases s.len(), 0nat,
{
    lemma_concat(s, t);
    lemma_suffix_facts(s, s, s);
    if sp_arguments_rest(s, acc) is Ok {
        if at_kind(s, TokenKind::Comma) {
            let s1 = s.drop_first();
            lemma_extend_expression(s1, t);
            let (e, r) = sp_expression(s1)->Ok_0;
            lemma_suffix_facts(r, s1, s);
            lemma_extend_arguments_rest(r, t, acc.push(e));
            lemma_suffix_facts(rest_of(sp_arguments_rest(r, acc.push(e))), r, s);
        } else {
            lemma_expect(s, t, TokenKind::RightParenthesis);
        }
    }
}

pub proof fn lemma_extend_term(s: Seq<Token>, t: Seq<Token>)
    ensures
        extends(s, t, sp_term(s), sp_term(s + t)),
    decreases s.len(), 2nat,
{
    lemma_concat(s, t);
    lemma_suffix_facts(s, s, s);
    if sp_term(s) is Ok {
        let start = if at_kind(s, TokenKind::Minus) {
            s.drop_first()
        } else {
            s
        };
        lemma_extend_factor(start, t);
        let (f, r) = sp_factor(start)->Ok_0;
        lemma_suffix_facts(r, start, s);
        let left = if at_kind(s, TokenKind::Minus) {
            TermV::Negated(f)
        } else {
            TermV::Factor(f)
        };
        lemma_extend_term_rest(r, t, left);
        lemma_suffix_facts(rest_of(sp_term_rest(r, left)), r, s);
    }
}

pub proof fn lemma_extend_term_rest(s: Seq<Token>, t: Seq<Token>, left: TermV)
    ensures
        extends(s, t, sp_term_rest(s, left), sp_term_rest(s + t, left)),
    decreases s.len(), 0nat,
{
    lemma_concat(s, t);
    lemma_suffix_facts(s, s, s);
    if sp_term_rest(s, left) is Ok && (at_kind(s, TokenKind::Times) || at_kind(s, TokenKind::Divide)) {
        let s1 = s.drop_first();
        lemma_extend_factor(s1, t);
        let (f, r) = sp_factor(s1)->Ok_0;
        lemma_suffix_facts(r, s1, s);
        let next = if s[0].kind == TokenKind::Times {
            TermV::Product(Box::new(left), f)
        } else {
            TermV::Quotient(Box::new(left), f)
        };
        lemma_extend_term_rest(r, t, next);
        lemma_suffix_facts(rest_of(sp_term_rest(r, next)), r, s);
    }
}

pub proof fn lemma_extend_additive(s: Seq<Token>, t: Seq<Token>)
    ensures
        extends(s, t, sp_additive(s), sp_additive(s + t)),
    decreases s.len(), 3nat,
{
    lemma_concat(s, t);
    lemma_suffix_facts(s, s, s);
    if sp_additive(s) is Ok {
        lemma_extend_term(s, t);
        let (t1, r) = sp_term(s)->Ok_0;
        lemma_extend_additive_rest(r, t, ExpressionV::Term(t1));
        lemma_suffix_facts(rest_of(sp_additive_rest(r, ExpressionV::Term(t1))), r, s);
    }
}

pub proof fn lemma_extend_additive_rest(s: Seq<Token>, t: Seq<Token>, left: ExpressionV)
    ensures
        extends(s, t, sp_additive_rest(s, left), sp_additive_rest(s + t, left)),
    decreases s.len(), 0nat,
{
    lemma_concat(s, t);
    lemma_suffix_facts(s, s, s);
    if sp_additive_rest(s, left) is Ok && (at_kind(s, TokenKind::Plus) || at_kind(s, TokenKind::Minus)) {
        let s1 = s.drop_first();
        lemma_extend_term(s1, t);
        let (t1, r) = sp_term(s1)->Ok_0;
        lemma_suffix_facts(r, s1, s);
        let next = if s[0].kind == TokenKind::Plus {
            ExpressionV::Sum(Box::new(left), t1)
        } else {
            ExpressionV::Difference(Box::new(left), t1)
        };
        lemma_extend_additive_rest(r, t, next);
        lemma_suffix_facts(rest_of(sp_additive_rest(r, next)), r, s);
    }
}

pub proof fn lemma_extend_expression(s: Seq<Token>, t: Seq<Token>)
    ensures
        extends(s, t, sp_expression(s), sp_expression(s + t)),
    decreases s.len(), 5nat,
{
    lemma_concat(s, t);
    lemma_suffix_facts(s, s, s);
    if sp_expression(s) is Ok {
        if at_kind(s, TokenKind::LeftCurly) {
            lemma_extend_block(s, t);
        } else if at_keyword(s, Keyword::If) {
            lemma_extend_if(s, t);
        } else {
            lemma_extend_additive(s, t);
            let r = rest_of(sp_additive(s));
            lemma_concat(r, t);
            if r.len() > 0 && comparison_of(r[0]) is Some {
                let r1 = r.drop_first();
                lemma_suffix_facts(r1, r, s);
                lemma_extend_additive(r1, t);
                lemma_suffix_facts(rest_of(sp_additive(r1)), r1, s);
            }
        }
    }
}

pub proof fn lemma_extend_block(s: Seq<Token>, t: Seq<Token>)
    ensures
        extends(s, t, sp_block(s), sp_block(s + t)),
    decreases s.len(), 4nat,
{
    lemma_concat(s, t);
    lemma_suffix_facts(s, s, s);
    if sp_block(s) is Ok {
        let s1 = s.drop_first();
        lemma_extend_block_items(s1, t, Seq::empty());
        lemma_suffix_facts(rest_of(sp_block_items(s1, Seq::empty())), s1, s);
    }
}

/// Where a block goes on with its trailing expression, reading a statement
/// from the same place fails, and still fails with more tokens after.
proof fn lemma_statement_still_fails(s: Seq<Token>, t: Seq<Token>)
    requires
        !at_kind(s, TokenKind::RightCurly),
        sp_statement(s) is Err,
        sp_expression(s) is Ok,
        expect(rest_of(sp_expression(s)), TokenKind::RightCurly) is Ok,
    ensures
        sp_statement(s + t) is Err,
    decreases s.len(), 6nat,
{
    lemma_concat(s, t);
    let r = rest_of(sp_expression(s));
    if s.len() > 0 && decl_keyword_of(s[0]) is Some {
        assert(number_of(s[0]) is None);
        assert(sp_factor(s) is Err);
        assert(sp_term(s) is Err);
        assert(sp_additive(s) is Err);
        assert(false);
    } else if at_keyword(s, Keyword::If) {
        assert(sp_if(s) is Err);
        assert(false);
    } else if at_kind(s, TokenKind::LeftCurly) {
        assert(sp_block(s) is Err);
        assert(false);
    } else if at_kind(s, TokenKind::Identifier) && s[0].lexeme is Some && at_kind(
        s.drop_first(),
        TokenKind::Assignment,
    ) {
        let s1 = s.drop_first();
        let id = crate::tree::FactorV::Identifier(crate::tree::Identifier(s[0].lexeme->0));
        assert(sp_factor(s) == Ok::<_, ParsingError>((id, s1)));
        assert(sp_term_rest(s1, TermV::Factor(id)) == Ok::<_, ParsingError>((TermV::Factor(id), s1)));
        assert(sp_term(s) == Ok::<_, ParsingError>((TermV::Factor(id), s1)));
        let left = ExpressionV::Term(TermV::Factor(id));
        assert(sp_additive_rest(s1, left) == Ok::<_, ParsingError>((left, s1)));
        assert(sp_additive(s) == Ok::<_, ParsingError>((left, s1)));
        assert(r == s1);
        assert(false);
    } else {
        lemma_extend_expression(s, t);
        lemma_concat(r, t);
        if s.len() == 1 {
            assert(s.drop_first() + t =~= t);
        }
        let (e, _) = sp_expression(s)->Ok_0;
        assert(sp_expression(s + t) == Ok::<_, ParsingError>((e, r + t)));
        assert((r + t)[0].kind == TokenKind::RightCurly);
        assert(expect(r + t, TokenKind::Semicolon) is Err);
    }
}

pub proof fn lemma_extend_block_items(s: Seq<Token>, t: Seq<Token>, stmts: Seq<StatementV>)
    ensures
        extends(s, t, sp_block_items(s, stmts), sp_block_items(s + t, stmts)),
    decreases s.len(), 7nat,
{
    lemma_concat(s, t);
    lemma_suffix_facts(s, s, s);
    if sp_block_items(s, stmts) is Ok && !at_kind(s, TokenKind::RightCurly) {
        if sp_statement(s) is Ok {
            lemma_extend_statement(s, t);
            let (st, r) = sp_statement(s)->Ok_0;
            lemma_extend_block_items(r, t, stmts.push(st));
            lemma_suffix_facts(rest_of(sp_block_items(r, stmts.push(st))), r, s);
        } else {
            lemma_extend_expression(s, t);
            let r = rest_of(sp_expression(s));
            lemma_expect(r, t, TokenKind::RightCurly);
            lemma_suffix_facts(expect(r, TokenKind::RightCurly)->Ok_0, r, s);
            lemma_statement_still_fails(s, t);
        }
    }
}

pub proof fn lemma_extend_if(s: Seq<Token>, t: Seq<Token>)
    ensures
        extends(s, t, sp_if(s), sp_if(s + t)),
    decreases s.len(), 4nat,
{
    lemma_concat(s, t);
    lemma_suffix_facts(s, s, s);
    if sp_if(s) is Ok {
        let s1 = s.drop_first();
        lemma_extend_expression(s1, t);
        let (c, r) = sp_expression(s1)->Ok_0;
        lemma_suffix_facts(r, s1, s);
        lemma_extend_block(r, t);
        let (b, r2) = sp_block(r)->Ok_0;
        lemma_suffix_facts(r2, r, s);
        let head = BranchV { condition: c, block: b };
        lemma_extend_if_rest(r2, t, head, Seq::empty());
        lemma_suffix_facts(rest_of(sp_if_rest(r2, head, Seq::empty())), r2, s);
    }
}

pub proof fn lemma_extend_if_rest(s: Seq<Token>, t: Seq<Token>, head: BranchV, branches: Seq<BranchV>)
    ensures
        extends(s, t, sp_if_rest(s, head, branches), sp_if_rest(s + t, head, branches)),
    decreases s.len(), 0nat,
{
    lemma_concat(s, t);
    lemma_suffix_facts(s, s, s);
    if sp_if_rest(s, head, branches) is Ok {
        if at_keyword(s, Keyword::Else) && at_keyword(s.drop_first(), Keyword::If) {
            let s2 = s.subrange(2, s.len() as int);
            lemma_extend_expression(s2, t);
            let (c, r) = sp_expression(s2)->Ok_0;
            lemma_suffix_facts(r, s2, s);
            lemma_extend_block(r, t);
            let (b, r2) = sp_block(r)->Ok_0;
            lemma_suffix_facts(r2, r, s);
            let next = branches.push(BranchV { condition: c, block: b });
            lemma_extend_if_rest(r2, t, head, next);
            lemma_suffix_facts(rest_of(sp_if_rest(r2, head, next)), r2, s);
        } else if at_keyword(s, Keyword::Else) {
            let s1 = s.drop_first();
            lemma_extend_block(s1, t);
            lemma_suffix_facts(rest_of(sp_block(s1)), s1, s);
        }
    }
}

pub proof fn lemma_extend_declaration(s: Seq<Token>, t: Seq<Token>)
    ensures
        extends(s, t, sp_declaration(s), sp_declaration(s + t)),
    decreases s.len(), 5nat,
{
    lemma_concat(s, t);
    lemma_suffix_facts(s, s, s);
    if sp_declaration(s) is Ok {
        let s1 = s.drop_first();
        let r = s1.drop_first();
        lemma_concat(s1, t);
        lemma_suffix_facts(r, s1, s);
        lemma_expect(r, t, TokenKind::Colon);
        let r2 = expect(r, TokenKind::Colon)->Ok_0;
        lemma_suffix_facts(r2, r, s);
        lemma_extend_type(r2, t);
        let r3 = rest_of(sp_type(r2));
        lemma_suffix_facts(r3, r2, s);
        lemma_expect(r3, t, TokenKind::Assignment);
        let r4 = expect(r3, TokenKind::Assignment)->Ok_0;
        lemma_suffix_facts(r4, r3, s);
        lemma_extend_expression(r4, t);
        let r5 = rest_of(sp_expression(r4));
        lemma_suffix_facts(r5, r4, s);
        lemma_expect(r5, t, TokenKind::Semicolon);
        lemma_suffix_facts(expect(r5, TokenKind::Semicolon)->Ok_0, r5, s);
    }
}

pub proof fn lemma_extend_statement(s: Seq<Token>, t: Seq<Token>)
    ensures
        extends(s, t, sp_statement(s), sp_statement(s + t)),
    decreases s.len(), 6nat,
{
    lemma_concat(s, t);
    lemma_suffix_facts(s, s, s);
    if sp_statement(s) is Ok {
        if s.len() > 0 && decl_keyword_of(s[0]) is Some {
            lemma_extend_declaration(s, t);
        } else if at_keyword(s, Keyword::If) {
            lemma_extend_if(s, t);
        } else if at_kind(s, TokenKind::LeftCurly) {
            lemma_extend_block(s, t);
        } else if at_kind(s, TokenKind::Identifier) && s[0].lexeme is Some && at_kind(
            s.drop_first(),
            TokenKind::Assignment,
        ) {
            let s2 = s.subrange(2, s.len() as int);
            lemma_extend_expression(s2, t);
            let r = rest_of(sp_expression(s2));
            lemma_suffix_facts(r, s2, s);
            lemma_expect(r, t, TokenKind::Semicolon);
            lemma_suffix_facts(expect(r, TokenKind::Semicolon)->Ok_0, r, s);
        } else {
            if s.len() == 1 {
                assert(s.drop_first() + t =~= t);
            }
            lemma_extend_expression(s, t);
            let r = rest_of(sp_expression(s));
            lemma_suffix_facts(r, s, s);
            lemma_expect(r, t, TokenKind::Semicolon);
            lemma_suffix_facts(expect(r, TokenKind::Semicolon)->Ok_0, r, s);
        }
    }
}

/// A block reads the same whatever follows it: its closing brace ends it.
pub proof fn lemma_extend_block_any(s: Seq<Token>, t: Seq<Token>)
    ensures
        sp_block(s) matches Ok((b, r)) ==> sp_block(s + t) == Ok::<_, ParsingError>((b, r + t)),
{
    lemma_concat(s, t);
    if sp_block(s) is Ok {
        lemma_extend_block_items_any(s.drop_first(), t, Seq::empty());
    }
}

proof fn lemma_extend_block_items_any(s: Seq<Token>, t: Seq<Token>, stmts: Seq<StatementV>)
    ensures
        sp_block_items(s, stmts) matches Ok((b, r)) ==> sp_block_items(s + t, stmts) == Ok::<
            _,
            ParsingError,
        >((b, r + t)),
    decreases s.len(),
{
    lemma_concat(s, t);
    lemma_suffix_facts(s, s, s);
    if sp_block_items(s, stmts) is Ok && !at_kind(s, TokenKind::RightCurly) {
        if sp_statement(s) is Ok {
            lemma_extend_statement(s, t);
            let (st, r) = sp_statement(s)->Ok_0;
            assert(r.len() < s.len());
            assert(sp_block_items(r, stmts.push(st)) is Ok);
            if r.len() == 0 {
                assert(sp_block_items(r, stmts.push(st)) is Err);
            }
            lemma_extend_block_items_any(r, t, stmts.push(st));
        } else {
            lemma_extend_expression(s, t);
            let r = rest_of(sp_expression(s));
            lemma_expect(r, t, TokenKind::RightCurly);
            lemma_statement_still_fails(s, t);
        }
    }
}

} // verus!
