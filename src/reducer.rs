//! The semantic reducer: resolves literals to typed numbers, folds constant
//! arithmetic, and records declarations in a scoped symbol table. It builds
//! a new tree; the first semantic error ends the pass.
use vstd::prelude::*;
use crate::fold::{
    SemanticError, add_numbers, coerce, coerce_number, divide_numbers, multiply_numbers,
    negate_number, num_add, num_div, num_mul, num_neg, num_sub, subtract_numbers,
};
use crate::numbers::Number;
use crate::tree::{
    Assignment, BasicType, Block, BlockV, DeclKeyword, Declaration, DeclarationV, Expression,
    ExpressionV, Factor, FactorV, Parameter, Program, Statement, StatementV, Term,
    TermV, Type, TypeV, FuncType, block_v, expr_v, factor_v, param_v, params_v, stmt_v,
    stmts_v, term_v, type_v, lemma_block_v, lemma_func_type_v,
};

verus! {

/// What the symbol table records of a declared name.
#[derive(Debug, PartialEq)]
pub struct Variable {
    pub mutable: bool,
    pub datatype: Type,
    /// The reduced value, where the initializer reduced to a number.
    pub value: Option<Number>,
}

#[derive(Debug, PartialEq)]
pub struct Binding {
    pub name: String,
    pub variable: Variable,
}

/// The model of a binding.
pub struct BindingV {
    pub name: Seq<char>,
    pub mutable: bool,
    pub datatype: TypeV,
    pub value: Option<Number>,
}

pub open spec fn binding_v(b: Binding) -> BindingV {
    BindingV {
        name: b.name@,
        mutable: b.variable.mutable,
        datatype: type_v(b.variable.datatype),
        value: b.variable.value,
    }
}

pub open spec fn frame_v(f: Seq<Binding>) -> Seq<BindingV> {
    Seq::new(f.len(), |i: int| binding_v(f[i]))
}

/// The binding that `name` refers to within one frame: the latest one.
pub open spec fn lookup_in_frame(f: Seq<BindingV>, name: Seq<char>) -> Option<BindingV>
    decreases f.len(),
{
    if f.len() == 0 {
        None
    } else if f.last().name == name {
        Some(f.last())
    } else {
        lookup_in_frame(f.drop_last(), name)
    }
}

/// The binding that `name` refers to: the latest one of the innermost frame
/// that has one.
pub open spec fn lookup(frames: Seq<Seq<BindingV>>, name: Seq<char>) -> Option<BindingV>
    decreases frames.len(),
{
    if frames.len() == 0 {
        None
    } else {
        match lookup_in_frame(frames.last(), name) {
            Some(b) => Some(b),
            None => lookup(frames.drop_last(), name),
        }
    }
}

/// The frames after a declaration: the binding is appended to the innermost
/// frame, which is created if there is none.
pub open spec fn declare(frames: Seq<Seq<BindingV>>, b: BindingV) -> Seq<Seq<BindingV>> {
    if frames.len() == 0 {
        seq![seq![b]]
    } else {
        frames.update(frames.len() - 1, frames.last().push(b))
    }
}

/// Whether a step changed at most the innermost frame, or, from no frames,
/// made at most one.
pub open spec fn only_innermost_changed(
    before: Seq<Seq<BindingV>>,
    after: Seq<Seq<BindingV>>,
) -> bool {
    if before.len() > 0 {
        after.len() == before.len() && after.drop_last() == before.drop_last()
    } else {
        after.len() <= 1
    }
}

/// A scoped symbol table: a stack of frames, innermost last, each holding its
/// bindings in the order they were declared.
#[derive(Debug)]
pub struct SymbolTable {
    frames: Vec<Vec<Binding>>,
}

pub open spec fn frames_v(frames: Seq<Vec<Binding>>) -> Seq<Seq<BindingV>> {
    Seq::new(frames.len(), |i: int| frame_v(frames[i]@))
}

impl View for SymbolTable {
    type V = Seq<Seq<BindingV>>;

    closed spec fn view(&self) -> Seq<Seq<BindingV>> {
        frames_v(self.frames@)
    }
}

impl SymbolTable {
    /// A table with no frames; the first declaration makes the outermost one.
    pub fn new() -> (r: SymbolTable)
        ensures
            r@ == Seq::<Seq<BindingV>>::empty(),
    {
        let r = SymbolTable { frames: Vec::new() };
        assert(r@ =~= Seq::<Seq<BindingV>>::empty());
        r
    }

    /// The frames, outermost first.
    pub fn frames(&self) -> (r: &Vec<Vec<Binding>>)
        ensures
            frames_v(r@) == self@,
    {
        &self.frames
    }

    pub fn enter_scope(&mut self)
        ensures
            final(self)@ == old(self)@.push(Seq::empty()),
    {
        self.frames.push(Vec::new());
        assert(frame_v(self.frames@.last()@) =~= Seq::<BindingV>::empty());
        assert(self@ =~= old(self)@.push(Seq::empty()));
    }

    pub fn exit_scope(&mut self)
        requires
            old(self)@.len() > 0,
        ensures
            final(self)@ == old(self)@.drop_last(),
    {
        let _ = self.frames.pop();
        assert(self@ =~= old(self)@.drop_last());
    }

    pub fn declare(&mut self, name: String, variable: Variable)
        ensures
            final(self)@ == declare(old(self)@, binding_v(Binding { name, variable })),
    {
        let ghost b = Binding { name, variable };
        let mut frame = match self.frames.pop() {
            Some(f) => f,
            None => Vec::new(),
        };
        let ghost old_frame = frame@;
        frame.push(Binding { name, variable });
        assert(frame_v(frame@) =~= frame_v(old_frame).push(binding_v(b)));
        self.frames.push(frame);
        proof {
            if old(self)@.len() == 0 {
                assert(frame_v(old_frame) =~= Seq::<BindingV>::empty());
                assert(frame_v(self.frames@[0]@) =~= seq![binding_v(b)]);
                assert(self@ =~= seq![seq![binding_v(b)]]);
            } else {
                assert(self@ =~= declare(old(self)@, binding_v(b)));
            }
        }
    }

    /// The variable that `name` refers to.
    pub fn lookup(&self, name: &str) -> (r: Option<&Variable>)
        ensures
            match r {
                Some(v) => lookup(self@, name@) == Some(
                    BindingV {
                        name: name@,
                        mutable: v.mutable,
                        datatype: type_v(v.datatype),
                        value: v.value,
                    },
                ),
                None => lookup(self@, name@) is None,
            },
    {
        let mut i = self.frames.len();
        assert(self@.subrange(0, i as int) =~= self@);
        while i > 0
            invariant
                i <= self.frames@.len(),
                lookup(self@, name@) == lookup(self@.subrange(0, i as int), name@),
            decreases i,
        {
            let frame = &self.frames[i - 1];
            let ghost fv = frame_v(frame@);
            assert(self@.subrange(0, i as int).last() == fv);
            assert(self@.subrange(0, i as int).drop_last() =~= self@.subrange(0, i - 1));
            let mut j = frame.len();
            assert(fv.subrange(0, j as int) =~= fv);
            while j > 0
                invariant
                    j <= frame@.len(),
                    fv == frame_v(frame@),
                    0 < i <= self.frames@.len(),
                    self@.subrange(0, i as int).len() > 0,
                    self@.subrange(0, i as int).last() == fv,
                    self@.subrange(0, i as int).drop_last() == self@.subrange(0, i - 1),
                    lookup(self@, name@) == lookup(self@.subrange(0, i as int), name@),
                    lookup_in_frame(fv, name@) == lookup_in_frame(fv.subrange(0, j as int), name@),
                decreases j,
            {
                let b = &frame[j - 1];
                assert(fv.subrange(0, j as int).drop_last() =~= fv.subrange(0, j - 1));
                if crate::tokens::text_equals(b.name.as_str(), name) {
                    assert(fv.subrange(0, j as int).last() == binding_v(*b));
                    assert(lookup_in_frame(fv, name@) == Some(binding_v(*b)));
                    assert(lookup(self@.subrange(0, i as int), name@) == Some(binding_v(*b)));
                    return Some(&b.variable);
                }
                j = j - 1;
            }
            assert(fv.subrange(0, 0) =~= Seq::<BindingV>::empty());
            i = i - 1;
        }
        assert(self@.subrange(0, 0) =~= Seq::<Seq<BindingV>>::empty());
        None
    }
}

/// The number a numeric expression in a given binding stands for: literals
/// resolved for the expected type, `let` names read from the table, the
/// operators folded left operand first, and a block, also inside
/// parentheses, read as the value it reduces to on its own.
pub open spec fn factor_value(
    f: FactorV,
    ty: Option<BasicType>,
    frames: Seq<Seq<BindingV>>,
) -> Result<Number, SemanticError>
    decreases f, 0int,
{
    match f {
        FactorV::Number(n) => coerce(n, ty),
        FactorV::Identifier(id) => match lookup(frames, id.0@) {
            Some(b) => if !b.mutable && b.value is Some {
                Ok(b.value->0)
            } else {
                Err(SemanticError::ExpectedNumber)
            },
            None => Err(SemanticError::ExpectedNumber),
        },
        FactorV::Call(_, _) => Err(SemanticError::ExpectedNumber),
        FactorV::Paren(e) => arith_value(*e, ty, frames),
    }
}

pub open spec fn term_value(t: TermV, ty: Option<BasicType>, frames: Seq<Seq<BindingV>>) -> Result<
    Number,
    SemanticError,
>
    decreases t, 0int,
{
    match t {
        TermV::Factor(f) => factor_value(f, ty, frames),
        TermV::Negated(f) => match factor_value(f, ty, frames) {
            Err(e) => Err(e),
            Ok(x) => num_neg(x),
        },
        TermV::Product(l, f) => match term_value(*l, ty, frames) {
            Err(e) => Err(e),
            Ok(x) => match factor_value(f, ty, frames) {
                Err(e) => Err(e),
                Ok(y) => num_mul(x, y),
            },
        },
        TermV::Quotient(l, f) => match term_value(*l, ty, frames) {
            Err(e) => Err(e),
            Ok(x) => match factor_value(f, ty, frames) {
                Err(e) => Err(e),
                Ok(y) => num_div(x, y),
            },
        },
    }
}

pub open spec fn arith_value(
    e: ExpressionV,
    ty: Option<BasicType>,
    frames: Seq<Seq<BindingV>>,
) -> Result<Number, SemanticError>
    decreases e, 0int,
{
    match e {
        ExpressionV::Block(b) => match reduce_block_from(
            *b,
            0,
            ty,
            frames.push(Seq::empty()),
            Seq::empty(),
        ) {
            Err(err) => Err(err),
            Ok((_, Some(n))) => Ok(n),
            Ok((_, None)) => Err(SemanticError::ExpectedNumber),
        },
        ExpressionV::Term(t) => term_value(t, ty, frames),
        ExpressionV::Sum(l, t) => match arith_value(*l, ty, frames) {
            Err(err) => Err(err),
            Ok(x) => match term_value(t, ty, frames) {
                Err(err) => Err(err),
                Ok(y) => num_add(x, y),
            },
        },
        ExpressionV::Difference(l, t) => match arith_value(*l, ty, frames) {
            Err(err) => Err(err),
            Ok(x) => match term_value(t, ty, frames) {
                Err(err) => Err(err),
                Ok(y) => num_sub(x, y),
            },
        },
        _ => Err(SemanticError::ExpectedNumber),
    }
}

fn factor_number(f: Factor, ty: Option<BasicType>, table: &mut SymbolTable) -> (r: Result<
    Number,
    SemanticError,
>)
    ensures
        r == factor_value(factor_v(f), ty, old(table)@),
        final(table)@ == old(table)@,
    decreases f, 0int,
{
    match f {
        Factor::Number(n) => coerce_number(n, ty),
        Factor::Identifier(id) => match table.lookup(id.0.as_str()) {
            Some(v) => if !v.mutable {
                match v.value {
                    Some(n) => Ok(n),
                    None => Err(SemanticError::ExpectedNumber),
                }
            } else {
                Err(SemanticError::ExpectedNumber)
            },
            None => Err(SemanticError::ExpectedNumber),
        },
        Factor::FunctionCall { .. } => Err(SemanticError::ExpectedNumber),
        Factor::ParentheizedExpression(e) => expression_number(*e, ty, table),
    }
}

fn term_number(t: Term, ty: Option<BasicType>, table: &mut SymbolTable) -> (r: Result<
    Number,
    SemanticError,
>)
    ensures
        r == term_value(term_v(t), ty, old(table)@),
        final(table)@ == old(table)@,
    decreases t, 0int,
{
    match t {
        Term::Factor(f) => factor_number(f, ty, table),
        Term::NegatedFactor(f) => match factor_number(f, ty, table) {
            Err(e) => Err(e),
            Ok(x) => negate_number(x),
        },
        Term::Product { multiplicant, multiplier } => match term_number(*multiplicant, ty, table) {
            Err(e) => Err(e),
            Ok(x) => match factor_number(multiplier, ty, table) {
                Err(e) => Err(e),
                Ok(y) => multiply_numbers(x, y),
            },
        },
        Term::Quotient { dividend, divisor } => match term_number(*dividend, ty, table) {
            Err(e) => Err(e),
            Ok(x) => match factor_number(divisor, ty, table) {
                Err(e) => Err(e),
                Ok(y) => divide_numbers(x, y),
            },
        },
    }
}

fn expression_number(e: Expression, ty: Option<BasicType>, table: &mut SymbolTable) -> (r: Result<
    Number,
    SemanticError,
>)
    ensures
        r == arith_value(expr_v(e), ty, old(table)@),
        final(table)@ == old(table)@,
    decreases e, 0int,
{
    match e {
        Expression::Term(t) => term_number(t, ty, table),
        Expression::Sum { augend, addend } => match expression_number(*augend, ty, table) {
            Err(err) => Err(err),
            Ok(x) => match term_number(addend, ty, table) {
                Err(err) => Err(err),
                Ok(y) => add_numbers(x, y),
            },
        },
        Expression::Difference { minuend, subtrahend } => match expression_number(
            *minuend,
            ty,
            table,
        ) {
            Err(err) => Err(err),
            Ok(x) => match term_number(subtrahend, ty, table) {
                Err(err) => Err(err),
                Ok(y) => subtract_numbers(x, y),
            },
        },
        Expression::Block(b) => {
            table.enter_scope();
            let r = reduce_block(*b, ty, table);
            table.exit_scope();
            assert(table@ =~= old(table)@);
            match r {
                Err(err) => Err(err),
                Ok((_, Some(n))) => Ok(n),
                Ok((_, None)) => Err(SemanticError::ExpectedNumber),
            }
        },
        _ => Err(SemanticError::ExpectedNumber),
    }
}

/// The numeric type a declared type asks of its initializer, if any.
pub open spec fn basic_of(t: TypeV) -> Option<BasicType> {
    match t {
        TypeV::Basic(b) => Some(b),
        _ => None,
    }
}

/// The node that stands for a folded number.
pub open spec fn number_expr(n: Number) -> ExpressionV {
    ExpressionV::Term(TermV::Factor(FactorV::Number(n)))
}

/// An expression reduced in a binding, with its value where it has one.
/// Arithmetic folds to a number; a block is reduced in a frame of its own,
/// which is gone afterwards, and has the value of its trailing expression;
/// `if` and the unit expression pass through; a comparison is an error; an
/// expression in parentheses reduces as the expression itself.
pub open spec fn reduce_expr(
    e: ExpressionV,
    ty: Option<BasicType>,
    frames: Seq<Seq<BindingV>>,
) -> Result<(ExpressionV, Option<Number>), SemanticError>
    decreases e, 1int,
{
    match e {
        ExpressionV::Block(b) => match reduce_block_from(
            *b,
            0,
            ty,
            frames.push(Seq::empty()),
            Seq::empty(),
        ) {
            Err(err) => Err(err),
            Ok((b2, v)) => Ok((ExpressionV::Block(Box::new(b2)), v)),
        },
        ExpressionV::If(_) => Ok((e, None)),
        ExpressionV::Unit => Ok((e, None)),
        ExpressionV::Comparison(_, _, _) => Err(SemanticError::ExpectedNumber),
        ExpressionV::Term(TermV::Factor(FactorV::Paren(inner))) => reduce_expr(*inner, ty, frames),
        _ => match arith_value(e, ty, frames) {
            Err(err) => Err(err),
            Ok(n) => Ok((number_expr(n), Some(n))),
        },
    }
}

/// The statements of a block from the `i`-th on, then its trailing
/// expression, reduced in order.
pub open spec fn reduce_block_from(
    b: BlockV,
    i: int,
    ty: Option<BasicType>,
    frames: Seq<Seq<BindingV>>,
    acc: Seq<StatementV>,
) -> Result<(BlockV, Option<Number>), SemanticError>
    decreases b, b.statements.len() - i,
{
    if 0 <= i < b.statements.len() {
        match reduce_stmt(b.statements[i], frames) {
            Err(e) => Err(e),
            Ok((s2, f2)) => reduce_block_from(b, i + 1, ty, f2, acc.push(s2)),
        }
    } else {
        match reduce_expr(b.return_expression, ty, frames) {
            Err(e) => Err(e),
            Ok((e2, v)) => Ok((BlockV { statements: acc, return_expression: e2 }, v)),
        }
    }
}

/// A statement reduced, with the frames after it. A declaration reduces its
/// initializer for its declared type and then binds the name in the
/// innermost frame; other statements reduce their expression.
pub open spec fn reduce_stmt(st: StatementV, frames: Seq<Seq<BindingV>>) -> Result<
    (StatementV, Seq<Seq<BindingV>>),
    SemanticError,
>
    decreases st, 0int,
{
    match st {
        StatementV::Declaration(d) => match reduce_expr(d.expression, basic_of(d.data_type), frames) {
            Err(e) => Err(e),
            Ok((e2, v)) => Ok(
                (
                    StatementV::Declaration(
                        DeclarationV {
                            keyword: d.keyword,
                            identifier: d.identifier,
                            data_type: d.data_type,
                            expression: e2,
                        },
                    ),
                    declare(
                        frames,
                        BindingV {
                            name: d.identifier.0@,
                            mutable: d.keyword == DeclKeyword::Mut,
                            datatype: d.data_type,
                            value: v,
                        },
                    ),
                ),
            ),
        },
        StatementV::Assignment(id, e) => match reduce_expr(e, None, frames) {
            Err(err) => Err(err),
            Ok((e2, _)) => Ok((StatementV::Assignment(id, e2), frames)),
        },
        StatementV::Expression(e) => match reduce_expr(e, None, frames) {
            Err(err) => Err(err),
            Ok((e2, _)) => Ok((StatementV::Expression(e2), frames)),
        },
    }
}

/// The statements of a program from the `i`-th on, reduced in order.
pub open spec fn reduce_program(
    stmts: Seq<StatementV>,
    i: int,
    frames: Seq<Seq<BindingV>>,
    acc: Seq<StatementV>,
) -> Result<(Seq<StatementV>, Seq<Seq<BindingV>>), SemanticError>
    decreases stmts.len() - i,
{
    if 0 <= i < stmts.len() {
        match reduce_stmt(stmts[i], frames) {
            Err(e) => Err(e),
            Ok((s2, f2)) => reduce_program(stmts, i + 1, f2, acc.push(s2)),
        }
    } else {
        Ok((acc, frames))
    }
}

/// A copy of a type.
pub fn copy_type(t: &Type) -> (r: Type)
    ensures
        type_v(r) == type_v(*t),
    decreases t,
{
    match t {
        Type::BasicType(b) => Type::BasicType(*b),
        Type::FuncType(f) => {
            let mut params: Vec<Parameter> = Vec::new();
            let mut i: usize = 0;
            while i < f.param_list.len()
                invariant
                    *t == Type::FuncType(*f),
                    i <= f.param_list@.len(),
                    params@.len() == i,
                    forall|k: int| 0 <= k < i ==> param_v(#[trigger] params@[k]) == param_v(f.param_list@[k]),
                decreases f.param_list@.len() - i,
            {
                let p = &f.param_list[i];
                proof {
                    assert(decreases_to!(*t => (*t)->FuncType_0));
                    assert((*t)->FuncType_0 == *f);
                    assert(decreases_to!(*f => f.param_list));
                    assert(decreases_to!(f.param_list => f.param_list@));
                    assert(decreases_to!(f.param_list@ => f.param_list@[i as int]));
                    assert(decreases_to!(f.param_list@[i as int] => p.data_type));
                    assert(decreases_to!(*t => p.data_type));
                }
                let copied = Parameter {
                    identifier: crate::tree::Identifier(p.identifier.0.clone()),
                    data_type: copy_type(&p.data_type),
                };
                params.push(copied);
                i = i + 1;
            }
            let ret = copy_type(&f.return_type);
            let r = FuncType { param_list: params, return_type: Box::new(ret) };
            proof {
                lemma_func_type_v(r);
                lemma_func_type_v(*f);
                assert(params_v(r.param_list@) =~= params_v(f.param_list@));
            }
            Type::FuncType(r)
        },
    }
}

fn reduce_expression(e: Expression, ty: Option<BasicType>, table: &mut SymbolTable) -> (r: Result<
    (Expression, Option<Number>),
    SemanticError,
>)
    ensures
        final(table)@ == old(table)@,
        match r {
            Ok((e2, v)) => reduce_expr(expr_v(e), ty, old(table)@) == Ok::<_, SemanticError>(
                (expr_v(e2), v),
            ),
            Err(err) => reduce_expr(expr_v(e), ty, old(table)@) == Err::<
                (ExpressionV, Option<Number>),
                SemanticError,
            >(err),
        },
    decreases e, 1int,
{
    match e {
        Expression::Block(b) => {
            table.enter_scope();
            let r = reduce_block(*b, ty, table);
            table.exit_scope();
            assert(table@ =~= old(table)@);
            match r {
                Err(err) => Err(err),
                Ok((b2, v)) => Ok((Expression::Block(Box::new(b2)), v)),
            }
        },
        Expression::If(_) => Ok((e, None)),
        Expression::Unit => Ok((e, None)),
        Expression::Comparison { .. } => Err(SemanticError::ExpectedNumber),
        Expression::Term(Term::Factor(Factor::ParentheizedExpression(inner))) => {
            proof {
                let f = Factor::ParentheizedExpression(inner);
                assert(factor_v(f) == FactorV::Paren(Box::new(expr_v(*inner))));
                assert(term_v(Term::Factor(f)) == TermV::Factor(factor_v(f)));
            }
            reduce_expression(*inner, ty, table)
        },
        _ => {
            proof {
                if e is Term && e->Term_0 is Factor {
                    let f = e->Term_0->Factor_0;
                    assert(term_v(Term::Factor(f)) == TermV::Factor(factor_v(f)));
                }
            }
            match expression_number(e, ty, table) {
            Err(err) => Err(err),
            Ok(n) => {
                let res = Expression::Term(Term::Factor(Factor::Number(n)));
                assert(factor_v(Factor::Number(n)) == FactorV::Number(n));
                assert(term_v(Term::Factor(Factor::Number(n))) == TermV::Factor(FactorV::Number(n)));
                Ok((res, Some(n)))
            },
        }
        },
    }
}

fn reduce_block(b: Block, ty: Option<BasicType>, table: &mut SymbolTable) -> (r: Result<
    (Block, Option<Number>),
    SemanticError,
>)
    ensures
        only_innermost_changed(old(table)@, final(table)@),
        match r {
            Ok((b2, v)) => reduce_block_from(block_v(b), 0, ty, old(table)@, Seq::empty()) == Ok::<
                _,
                SemanticError,
            >((block_v(b2), v)),
            Err(err) => reduce_block_from(block_v(b), 0, ty, old(table)@, Seq::empty()) == Err::<
                (BlockV, Option<Number>),
                SemanticError,
            >(err),
        },
    decreases b, 0int,
{
    let ghost bv = block_v(b);
    let ghost target = reduce_block_from(bv, 0, ty, old(table)@, Seq::empty());
    let ghost orig = b.statements@;
    proof {
        lemma_block_v(b);
    }
    let Block { statements, return_expression } = b;
    let n = statements.len();
    let mut rest = statements;
    let mut out: Vec<Statement> = Vec::new();
    let mut i: usize = 0;
    assert(rest@.subrange(0, rest@.len() as int) =~= rest@);
    assert(stmts_v(out@) =~= Seq::<StatementV>::empty());
    while rest.len() > 0
        invariant
            bv == block_v(b),
            bv.statements == stmts_v(orig),
            orig == b.statements@,
            orig.len() == n,
            i <= orig.len(),
            target == reduce_block_from(bv, 0, ty, old(table)@, Seq::empty()),
            rest@ == orig.subrange(i as int, orig.len() as int),
            only_innermost_changed(old(table)@, table@),
            target == reduce_block_from(bv, i as int, ty, table@, stmts_v(out@)),
        decreases rest@.len(),
    {
        let st = rest.remove(0);
        assert(st == orig[i as int]);
        assert(rest@ =~= orig.subrange(i + 1, orig.len() as int));
        proof {
            assert(decreases_to!(b => b.statements));
            assert(decreases_to!(b.statements => b.statements@));
            assert(decreases_to!(b.statements@ => b.statements@[i as int]));
        }
        let ghost before = table@;
        let ghost acc = stmts_v(out@);
        match reduce_statement(st, table) {
            Err(err) => {
                return Err(err);
            },
            Ok(s2) => {
                let ghost old_out = out@;
                out.push(s2);
                assert(stmts_v(out@) =~= stmts_v(old_out).push(stmt_v(s2)));
                i = i + 1;
            },
        }
    }
    assert(i == orig.len());
    match reduce_expression(return_expression, ty, table) {
        Err(err) => Err(err),
        Ok((e2, v)) => {
            let b2 = Block { statements: out, return_expression: e2 };
            proof {
                lemma_block_v(b2);
            }
            Ok((b2, v))
        },
    }
}

fn reduce_statement(st: Statement, table: &mut SymbolTable) -> (r: Result<Statement, SemanticError>)
    ensures
        only_innermost_changed(old(table)@, final(table)@),
        match r {
            Ok(s2) => reduce_stmt(stmt_v(st), old(table)@) == Ok::<_, SemanticError>(
                (stmt_v(s2), final(table)@),
            ),
            Err(err) => reduce_stmt(stmt_v(st), old(table)@) == Err::<
                (StatementV, Seq<Seq<BindingV>>),
                SemanticError,
            >(err),
        },
    decreases st, 0int,
{
    match st {
        Statement::Declaration(d) => {
            let Declaration { keyword, identifier, data_type, expression } = d;
            let ty = match &data_type {
                Type::BasicType(b) => Some(*b),
                _ => None,
            };
            match reduce_expression(expression, ty, table) {
                Err(err) => Err(err),
                Ok((e2, v)) => {
                    let datatype = copy_type(&data_type);
                    let mutable = matches!(keyword, DeclKeyword::Mut);
                    let ghost before = table@;
                    table.declare(identifier.0.clone(), Variable { mutable, datatype, value: v });
                    proof {
                        if before.len() > 0 {
                            assert(table@.drop_last() =~= before.drop_last());
                        }
                    }
                    Ok(
                        Statement::Declaration(
                            Declaration { keyword, identifier, data_type, expression: e2 },
                        ),
                    )
                },
            }
        },
        Statement::Assignment(a) => {
            let Assignment { identifier, expression } = a;
            match reduce_expression(expression, None, table) {
                Err(err) => Err(err),
                Ok((e2, _)) => Ok(Statement::Assignment(Assignment { identifier, expression: e2 })),
            }
        },
        Statement::Expression(e) => match reduce_expression(e, None, table) {
            Err(err) => Err(err),
            Ok((e2, _)) => Ok(Statement::Expression(e2)),
        },
    }
}

/// The outcome of validation: the reduced program and its symbol table,
/// which holds the outermost frame once a declaration has made it.
#[derive(Debug)]
pub struct Validator {
    pub program: Program,
    pub symbol_table: SymbolTable,
}

/// Validates a program: reduces its statements in order, starting from a
/// symbol table with no frames.
pub fn validate(program: Program) -> (r: Result<Validator, SemanticError>)
    ensures
        match r {
            Ok(v) => reduce_program(
                stmts_v(program.statements@),
                0,
                Seq::empty(),
                Seq::empty(),
            ) == Ok::<_, SemanticError>(
                (stmts_v(v.program.statements@), v.symbol_table@),
            ),
            Err(e) => reduce_program(
                stmts_v(program.statements@),
                0,
                Seq::empty(),
                Seq::empty(),
            ) == Err::<(Seq<StatementV>, Seq<Seq<BindingV>>), SemanticError>(e),
        },
{
    let ghost orig = program.statements@;
    let ghost target = reduce_program(stmts_v(orig), 0, Seq::empty(), Seq::empty());
    let mut table = SymbolTable::new();
    let n = program.statements.len();
    let mut rest = program.statements;
    let mut out: Vec<Statement> = Vec::new();
    let mut i: usize = 0;
    assert(rest@.subrange(0, rest@.len() as int) =~= rest@);
    assert(stmts_v(out@) =~= Seq::<StatementV>::empty());
    while rest.len() > 0
        invariant
            orig.len() == n,
            i <= orig.len(),
            rest@ == orig.subrange(i as int, orig.len() as int),
            table@.len() <= 1,
            target == reduce_program(stmts_v(orig), 0, Seq::empty(), Seq::empty()),
            orig == program.statements@,
            target == reduce_program(stmts_v(orig), i as int, table@, stmts_v(out@)),
        decreases rest@.len(),
    {
        let st = rest.remove(0);
        assert(st == orig[i as int]);
        assert(rest@ =~= orig.subrange(i + 1, orig.len() as int));
        match reduce_statement(st, &mut table) {
            Err(err) => {
                return Err(err);
            },
            Ok(s2) => {
                let ghost old_out = out@;
                out.push(s2);
                assert(stmts_v(out@) =~= stmts_v(old_out).push(stmt_v(s2)));
                i = i + 1;
            },
        }
    }
    Ok(Validator { program: Program { statements: out }, symbol_table: table })
}

} // verus!
