//! Emits assembly text for the numeric part of a reduced tree. Nodes that
//! code generation does not cover make it fail, before anything is emitted.
use vstd::prelude::*;
use crate::numbers::Number;
use crate::tree::{Expression, ExpressionV, Factor, FactorV, Term, TermV, expr_v, factor_v, term_v};

verus! {

/// The instructions a target architecture writes for the operations the
/// emitter needs.
pub trait Arch {
    spec fn header(&self) -> Seq<char>;

    spec fn footer(&self) -> Seq<char>;

    spec fn save_line(&self, reg: Seq<char>) -> Seq<char>;

    spec fn restore_line(&self, reg: Seq<char>) -> Seq<char>;

    spec fn add_line(&self, augend: Seq<char>, addend: Seq<char>) -> Seq<char>;

    spec fn sub_line(&self, minuend: Seq<char>, subtrahend: Seq<char>) -> Seq<char>;

    fn emit_header(&self) -> (r: String)
        ensures
            r@ == self.header(),
    ;

    fn emit_footer(&self) -> (r: String)
        ensures
            r@ == self.footer(),
    ;

    fn emit_save_register(&self, reg: &str) -> (r: String)
        ensures
            r@ == self.save_line(reg@),
    ;

    fn emit_restore_register(&self, reg: &str) -> (r: String)
        ensures
            r@ == self.restore_line(reg@),
    ;

    fn emit_add(&self, augend: &str, addend: &str) -> (r: String)
        ensures
            r@ == self.add_line(augend@, addend@),
    ;

    fn emit_sub(&self, minuend: &str, subtrahend: &str) -> (r: String)
        ensures
            r@ == self.sub_line(minuend@, subtrahend@),
    ;
}

/// 64-bit x86 in NASM syntax, as a Linux program entered at `_start`.
pub struct X86_64;

impl Arch for X86_64 {
    open spec fn header(&self) -> Seq<char> {
        "; Header\nsection .text\nglobal _start\n_start:"@
    }

    open spec fn footer(&self) -> Seq<char> {
        "; Footer\nmov rax, 60\nxor rdi, rdi\nsyscall"@
    }

    open spec fn save_line(&self, reg: Seq<char>) -> Seq<char> {
        "push "@ + reg
    }

    open spec fn restore_line(&self, reg: Seq<char>) -> Seq<char> {
        "pop "@ + reg
    }

    open spec fn add_line(&self, augend: Seq<char>, addend: Seq<char>) -> Seq<char> {
        "add "@ + augend + ", "@ + addend
    }

    open spec fn sub_line(&self, minuend: Seq<char>, subtrahend: Seq<char>) -> Seq<char> {
        "sub "@ + minuend + ", "@ + subtrahend
    }

    fn emit_header(&self) -> (r: String) {
        String::from_str("; Header\nsection .text\nglobal _start\n_start:")
    }

    fn emit_footer(&self) -> (r: String) {
        String::from_str("; Footer\nmov rax, 60\nxor rdi, rdi\nsyscall")
    }

    fn emit_save_register(&self, reg: &str) -> (r: String) {
        String::from_str("push ").concat(reg)
    }

    fn emit_restore_register(&self, reg: &str) -> (r: String) {
        String::from_str("pop ").concat(reg)
    }

    fn emit_add(&self, augend: &str, addend: &str) -> (r: String) {
        String::from_str("add ").concat(augend).concat(", ").concat(addend)
    }

    fn emit_sub(&self, minuend: &str, subtrahend: &str) -> (r: String) {
        String::from_str("sub ").concat(minuend).concat(", ").concat(subtrahend)
    }
}

pub open spec fn digit_char(d: nat) -> char {
    if d == 0 { '0' } else if d == 1 { '1' } else if d == 2 { '2' } else if d == 3 { '3' }
    else if d == 4 { '4' } else if d == 5 { '5' } else if d == 6 { '6' } else if d == 7 { '7' }
    else if d == 8 { '8' } else { '9' }
}

/// The decimal digits of `n`.
pub open spec fn nat_text(n: nat) -> Seq<char>
    decreases n,
{
    if n < 10 {
        seq![digit_char(n)]
    } else {
        nat_text(n / 10) + seq![digit_char(n % 10)]
    }
}

/// The decimal text of an integer, with a leading `-` when negative.
pub open spec fn int_text(i: int) -> Seq<char> {
    if i < 0 {
        seq!['-'] + nat_text((-i) as nat)
    } else {
        nat_text(i as nat)
    }
}

fn digit_str(d: u64) -> (r: &'static str)
    requires
        d < 10,
    ensures
        r@ == seq![digit_char(d as nat)],
{
    proof {
        reveal_strlit("0");
        reveal_strlit("1");
        reveal_strlit("2");
        reveal_strlit("3");
        reveal_strlit("4");
        reveal_strlit("5");
        reveal_strlit("6");
        reveal_strlit("7");
        reveal_strlit("8");
        reveal_strlit("9");
    }
    if d == 0 { "0" } else if d == 1 { "1" } else if d == 2 { "2" } else if d == 3 { "3" }
    else if d == 4 { "4" } else if d == 5 { "5" } else if d == 6 { "6" } else if d == 7 { "7" }
    else if d == 8 { "8" } else { "9" }
}

fn append_nat(s: &mut String, n: u64)
    ensures
        final(s)@ == old(s)@ + nat_text(n as nat),
    decreases n,
{
    if n >= 10 {
        append_nat(s, n / 10);
    }
    s.append(digit_str(n % 10));
    assert(final(s)@ =~= old(s)@ + nat_text(n as nat));
}

/// The decimal text of `i`.
pub fn int_to_text(i: i64) -> (r: String)
    ensures
        r@ == int_text(i as int),
{
    let mut s = String::new();
    if i < 0 {
        proof {
            reveal_strlit("-");
        }
        s.append("-");
        let u = (0i128 - i as i128) as u64;
        append_nat(&mut s, u);
    } else {
        append_nat(&mut s, i as u64);
    }
    assert(s@ =~= int_text(i as int));
    s
}

/// A line of the body, indented.
pub open spec fn indented(line: Seq<char>) -> Seq<char> {
    "  "@ + line
}

/// The body lines for a factor, where code generation covers it: an integer
/// is loaded into `rax`; a parenthesized expression is compiled as itself.
pub open spec fn factor_lines<A: Arch>(arch: A, f: FactorV) -> Option<Seq<Seq<char>>>
    decreases f,
{
    match f {
        FactorV::Number(Number::Integer(i)) => Some(seq![indented("mov rax, "@ + int_text(i as int))]),
        FactorV::Paren(e) => expr_lines(arch, *e),
        _ => None,
    }
}

pub open spec fn term_lines<A: Arch>(arch: A, t: TermV) -> Option<Seq<Seq<char>>>
    decreases t,
{
    match t {
        TermV::Factor(f) => factor_lines(arch, f),
        _ => None,
    }
}

/// The body lines for a binary operation: the right operand is computed and
/// saved, the left one computed into `rax`, the right one restored into
/// `rbx`, and the operation applied.
pub open spec fn binary_lines<A: Arch>(
    arch: A,
    start: Seq<char>,
    end: Seq<char>,
    left: Seq<Seq<char>>,
    right: Seq<Seq<char>>,
    op_line: Seq<char>,
) -> Seq<Seq<char>> {
    seq![indented(start)] + right + seq![indented(arch.save_line("rax"@))] + left + seq![
        indented(arch.restore_line("rbx"@)),
        indented(op_line),
        indented(end),
    ]
}

pub open spec fn expr_lines<A: Arch>(arch: A, e: ExpressionV) -> Option<Seq<Seq<char>>>
    decreases e,
{
    match e {
        ExpressionV::Term(t) => term_lines(arch, t),
        ExpressionV::Sum(l, t) => match (expr_lines(arch, *l), term_lines(arch, t)) {
            (Some(left), Some(right)) => Some(
                binary_lines(
                    arch,
                    "; Start of sum expression"@,
                    "; End of sum expression"@,
                    left,
                    right,
                    arch.add_line("rax"@, "rbx"@),
                ),
            ),
            _ => None,
        },
        ExpressionV::Difference(l, t) => match (expr_lines(arch, *l), term_lines(arch, t)) {
            (Some(left), Some(right)) => Some(
                binary_lines(
                    arch,
                    "; Start of subtraction expression"@,
                    "; End of subtraction expression"@,
                    left,
                    right,
                    arch.sub_line("rax"@, "rbx"@),
                ),
            ),
            _ => None,
        },
        _ => None,
    }
}

/// The error of code generation: the tree holds a node it does not cover.
#[derive(Debug, Clone, Copy, PartialEq, Eq, Structural)]
pub enum CodegenError {
    Unsupported,
}

/// Collects assembly lines for one architecture.
pub struct Assembler<A: Arch> {
    arch: A,
    lines: Vec<String>,
}

pub open spec fn lines_v(v: Seq<String>) -> Seq<Seq<char>> {
    Seq::new(v.len(), |i: int| v[i]@)
}

impl<A: Arch> Assembler<A> {
    pub closed spec fn spec_lines(&self) -> Seq<Seq<char>> {
        lines_v(self.lines@)
    }

    pub closed spec fn spec_arch(&self) -> A {
        self.arch
    }

    pub fn new(arch: A) -> (r: Assembler<A>)
        ensures
            r.spec_lines() == Seq::<Seq<char>>::empty(),
            r.spec_arch() == arch,
    {
        let r = Assembler { arch, lines: Vec::new() };
        assert(r.spec_lines() =~= Seq::<Seq<char>>::empty());
        r
    }

    /// Appends one indented line.
    pub fn emit(&mut self, line: &str)
        ensures
            final(self).spec_lines() == old(self).spec_lines().push(indented(line@)),
            final(self).spec_arch() == old(self).spec_arch(),
    {
        proof {
            reveal_strlit("  ");
        }
        let indented_line = String::from_str("  ").concat(line);
        self.lines.push(indented_line);
        assert(self.spec_lines() =~= old(self).spec_lines().push(indented(line@)));
    }

    /// The lines emitted so far.
    pub fn lines(&self) -> (r: &Vec<String>)
        ensures
            lines_v(r@) == self.spec_lines(),
    {
        &self.lines
    }

    /// Emits a whole program for an expression: the header, the body and the
    /// footer. Where code generation does not cover the expression, nothing
    /// is emitted and the result is `Unsupported`.
    pub fn assemble_ast(&mut self, ast: &Expression) -> (r: Result<(), CodegenError>)
        ensures
            final(self).spec_arch() == old(self).spec_arch(),
            match expr_lines(old(self).spec_arch(), expr_v(*ast)) {
                Some(body) => r is Ok && final(self).spec_lines() == old(self).spec_lines()
                    + seq![old(self).spec_arch().header()] + body + seq![
                    old(self).spec_arch().footer(),
                ],
                None => r == Err::<(), CodegenError>(CodegenError::Unsupported)
                    && final(self).spec_lines() == old(self).spec_lines(),
            },
    {
        if !covers_expression::<A>(ast, Ghost(self.arch)) {
            return Err(CodegenError::Unsupported);
        }
        let header = self.arch.emit_header();
        self.lines.push(header);
        let ghost before = self.spec_lines();
        assert(before =~= old(self).spec_lines().push(self.arch.header()));
        self.emit_expression(ast);
        let footer = self.arch.emit_footer();
        let ghost mid = self.spec_lines();
        self.lines.push(footer);
        assert(self.spec_lines() =~= mid.push(self.arch.footer()));
        assert(self.spec_lines() =~= old(self).spec_lines() + seq![old(self).spec_arch().header()]
            + expr_lines(self.arch, expr_v(*ast))->0 + seq![old(self).spec_arch().footer()]);
        Ok(())
    }

    fn emit_factor(&mut self, f: &Factor)
        requires
            factor_lines(old(self).spec_arch(), factor_v(*f)) is Some,
        ensures
            final(self).spec_arch() == old(self).spec_arch(),
            final(self).spec_lines() == old(self).spec_lines() + factor_lines(
                old(self).spec_arch(),
                factor_v(*f),
            )->0,
        decreases f,
    {
        match f {
            Factor::Number(Number::Integer(i)) => {
                proof {
                    reveal_strlit("mov rax, ");
                }
                let line = String::from_str("mov rax, ").concat(int_to_text(*i).as_str());
                self.emit(line.as_str());
                assert(self.spec_lines() =~= old(self).spec_lines() + seq![
                    indented("mov rax, "@ + int_text(*i as int)),
                ]);
            },
            Factor::ParentheizedExpression(e) => {
                self.emit_expression(e);
            },
            _ => {},
        }
    }

    fn emit_expression(&mut self, e: &Expression)
        requires
            expr_lines(old(self).spec_arch(), expr_v(*e)) is Some,
        ensures
            final(self).spec_arch() == old(self).spec_arch(),
            final(self).spec_lines() == old(self).spec_lines() + expr_lines(
                old(self).spec_arch(),
                expr_v(*e),
            )->0,
        decreases e,
    {
        match e {
            Expression::Term(Term::Factor(f)) => {
                let ghost arch = old(self).spec_arch();
                assert(term_v(Term::Factor(*f)) == TermV::Factor(factor_v(*f)));
                assert(expr_v(*e) == ExpressionV::Term(TermV::Factor(factor_v(*f))));
                assert(term_lines(arch, TermV::Factor(factor_v(*f))) == factor_lines(
                    arch,
                    factor_v(*f),
                ));
                assert(expr_lines(arch, ExpressionV::Term(TermV::Factor(factor_v(*f)))) == term_lines(
                    arch,
                    TermV::Factor(factor_v(*f)),
                ));
                self.emit_factor(f);
            },
            Expression::Sum { augend, addend: Term::Factor(f) } => {
                let ghost arch = old(self).spec_arch();
                let ghost l0 = old(self).spec_lines();
                assert(term_v(Term::Factor(*f)) == TermV::Factor(factor_v(*f)));
                assert(expr_v(*e) == ExpressionV::Sum(
                    Box::new(expr_v(**augend)),
                    TermV::Factor(factor_v(*f)),
                ));
                assert(term_lines(arch, TermV::Factor(factor_v(*f))) == factor_lines(
                    arch,
                    factor_v(*f),
                ));
                let ghost left = expr_lines(arch, expr_v(**augend))->0;
                let ghost right = factor_lines(arch, factor_v(*f))->0;
                self.emit("; Start of sum expression");
                self.emit_factor(f);
                let save = self.arch.emit_save_register("rax");
                self.emit(save.as_str());
                self.emit_expression(augend);
                let restore = self.arch.emit_restore_register("rbx");
                self.emit(restore.as_str());
                let op = self.arch.emit_add("rax", "rbx");
                self.emit(op.as_str());
                self.emit("; End of sum expression");
                assert(self.spec_lines() =~= l0 + binary_lines(
                    arch,
                    "; Start of sum expression"@,
                    "; End of sum expression"@,
                    left,
                    right,
                    arch.add_line("rax"@, "rbx"@),
                ));
            },
            Expression::Difference { minuend, subtrahend: Term::Factor(f) } => {
                let ghost arch = old(self).spec_arch();
                let ghost l0 = old(self).spec_lines();
                assert(term_v(Term::Factor(*f)) == TermV::Factor(factor_v(*f)));
                assert(expr_v(*e) == ExpressionV::Difference(
                    Box::new(expr_v(**minuend)),
                    TermV::Factor(factor_v(*f)),
                ));
                assert(term_lines(arch, TermV::Factor(factor_v(*f))) == factor_lines(
                    arch,
                    factor_v(*f),
                ));
                let ghost left = expr_lines(arch, expr_v(**minuend))->0;
                let ghost right = factor_lines(arch, factor_v(*f))->0;
                self.emit("; Start of subtraction expression");
                self.emit_factor(f);
                let save = self.arch.emit_save_register("rax");
                self.emit(save.as_str());
                self.emit_expression(minuend);
                let restore = self.arch.emit_restore_register("rbx");
                self.emit(restore.as_str());
                let op = self.arch.emit_sub("rax", "rbx");
                self.emit(op.as_str());
                self.emit("; End of subtraction expression");
                assert(self.spec_lines() =~= l0 + binary_lines(
                    arch,
                    "; Start of subtraction expression"@,
                    "; End of subtraction expression"@,
                    left,
                    right,
                    arch.sub_line("rax"@, "rbx"@),
                ));
            },
            Expression::Term(t) => {
                assert(expr_lines(old(self).spec_arch(), expr_v(*e)) == term_lines(
                    old(self).spec_arch(),
                    term_v(*t),
                ));
            },
            Expression::Sum { addend, .. } => {
                assert(term_lines(old(self).spec_arch(), term_v(*addend)) is None);
            },
            Expression::Difference { subtrahend, .. } => {
                assert(term_lines(old(self).spec_arch(), term_v(*subtrahend)) is None);
            },
            _ => {},
        }
    }
}

fn covers_factor<A: Arch>(f: &Factor, Ghost(arch): Ghost<A>) -> (r: bool)
    ensures
        r == (factor_lines(arch, factor_v(*f)) is Some),
    decreases f,
{
    match f {
        Factor::Number(Number::Integer(_)) => true,
        Factor::ParentheizedExpression(e) => covers_expression::<A>(e, Ghost(arch)),
        _ => false,
    }
}

fn covers_term<A: Arch>(t: &Term, Ghost(arch): Ghost<A>) -> (r: bool)
    ensures
        r == (term_lines(arch, term_v(*t)) is Some),
    decreases t,
{
    match t {
        Term::Factor(f) => covers_factor::<A>(f, Ghost(arch)),
        _ => false,
    }
}

/// Whether code generation covers an expression.
fn covers_expression<A: Arch>(e: &Expression, Ghost(arch): Ghost<A>) -> (r: bool)
    ensures
        r == (expr_lines(arch, expr_v(*e)) is Some),
    decreases e,
{
    match e {
        Expression::Term(t) => covers_term::<A>(t, Ghost(arch)),
        Expression::Sum { augend, addend } => covers_expression::<A>(augend, Ghost(arch)) && covers_term::<A>(
            addend,
            Ghost(arch),
        ),
        Expression::Difference { minuend, subtrahend } => covers_expression::<A>(minuend, Ghost(arch))
            && covers_term::<A>(subtrahend, Ghost(arch)),
        _ => false,
    }
}

} // verus!
