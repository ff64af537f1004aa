//! Typing of literals and constant folding of arithmetic on numbers.
//!
//! Integers fold with 64-bit wraparound. Floating values are exact decimals:
//! they fold exactly when each operand, brought to the larger scale, and the
//! result fit in 64 bits, and fail with `FloatOutOfRange` otherwise.
use vstd::prelude::*;
use crate::numbers::{Decimal, Number};
use crate::tree::BasicType;

verus! {

/// A semantic error; each ends the validation pass.
#[derive(Debug, Clone, Copy, PartialEq, Eq, Structural)]
pub enum SemanticError {
    /// An operand of arithmetic does not reduce to a number.
    ExpectedNumber,
    /// Arithmetic on an integer and a floating value.
    MismatchedTypes,
    /// A literal cannot be read as the type its context requires.
    LiteralType,
    DivisionByZero,
    /// Division of floating values, which has no exact decimal result.
    FloatDivision,
    /// An exact floating result that does not fit in 64 bits.
    FloatOutOfRange,
}

/// A literal resolved for the type its context expects: an integer literal
/// becomes a floating value where a `float` is expected; a floating literal
/// where an `int` is expected is an error. Without an expected type, or
/// where `number` is expected, the literal stays as it was read.
pub open spec fn coerce(n: Number, ty: Option<BasicType>) -> Result<Number, SemanticError> {
    match ty {
        Some(BasicType::Int) => match n {
            Number::Integer(_) => Ok(n),
            Number::Float(_) => Err(SemanticError::LiteralType),
        },
        Some(BasicType::Float) => match n {
            Number::Integer(v) => Ok(Number::Float(Decimal { mantissa: v, scale: 0 })),
            Number::Float(_) => Ok(n),
        },
        _ => Ok(n),
    }
}

pub fn coerce_number(n: Number, ty: Option<BasicType>) -> (r: Result<Number, SemanticError>)
    ensures
        r == coerce(n, ty),
{
    match ty {
        Some(BasicType::Int) => match n {
            Number::Integer(_) => Ok(n),
            Number::Float(_) => Err(SemanticError::LiteralType),
        },
        Some(BasicType::Float) => match n {
            Number::Integer(v) => Ok(Number::Float(Decimal { mantissa: v, scale: 0 })),
            Number::Float(_) => Ok(n),
        },
        _ => Ok(n),
    }
}

pub open spec fn pow10(k: nat) -> int
    decreases k,
{
    if k == 0 {
        1
    } else {
        10 * pow10((k - 1) as nat)
    }
}

pub open spec fn fits(v: int) -> bool {
    i64::MIN <= v <= i64::MAX
}

/// The mantissa of `d` written at a scale `k` places finer, if it fits.
pub open spec fn rescaled(m: i64, k: nat) -> Option<i64> {
    if k <= 18 && fits(m * pow10(k)) {
        Some((m * pow10(k)) as i64)
    } else {
        None
    }
}

pub open spec fn max_scale(a: Decimal, b: Decimal) -> u32 {
    if a.scale >= b.scale {
        a.scale
    } else {
        b.scale
    }
}

/// The sum (or, with `subtract`, the difference) of two decimals.
pub open spec fn dec_add(a: Decimal, b: Decimal, subtract: bool) -> Result<Number, SemanticError> {
    let s = max_scale(a, b);
    match (rescaled(a.mantissa, (s - a.scale) as nat), rescaled(b.mantissa, (s - b.scale) as nat)) {
        (Some(x), Some(y)) => {
            let v = if subtract {
                x - y
            } else {
                x + y
            };
            if fits(v) {
                Ok(Number::Float(Decimal { mantissa: v as i64, scale: s }))
            } else {
                Err(SemanticError::FloatOutOfRange)
            }
        },
        _ => Err(SemanticError::FloatOutOfRange),
    }
}

pub open spec fn num_add(a: Number, b: Number) -> Result<Number, SemanticError> {
    match (a, b) {
        (Number::Integer(x), Number::Integer(y)) => Ok(Number::Integer(x.wrapping_add(y))),
        (Number::Float(x), Number::Float(y)) => dec_add(x, y, false),
        _ => Err(SemanticError::MismatchedTypes),
    }
}

pub open spec fn num_sub(a: Number, b: Number) -> Result<Number, SemanticError> {
    match (a, b) {
        (Number::Integer(x), Number::Integer(y)) => Ok(Number::Integer(x.wrapping_sub(y))),
        (Number::Float(x), Number::Float(y)) => dec_add(x, y, true),
        _ => Err(SemanticError::MismatchedTypes),
    }
}

pub open spec fn num_mul(a: Number, b: Number) -> Result<Number, SemanticError> {
    match (a, b) {
        (Number::Integer(x), Number::Integer(y)) => Ok(Number::Integer(x.wrapping_mul(y))),
        (Number::Float(x), Number::Float(y)) => {
            let v = x.mantissa * y.mantissa;
            let s = x.scale + y.scale;
            if fits(v) && s <= u32::MAX {
                Ok(Number::Float(Decimal { mantissa: v as i64, scale: s as u32 }))
            } else {
                Err(SemanticError::FloatOutOfRange)
            }
        },
        _ => Err(SemanticError::MismatchedTypes),
    }
}

/// Integer division truncates toward zero; the one quotient that does not
/// fit, `i64::MIN / -1`, wraps to `i64::MIN`.
pub open spec fn num_div(a: Number, b: Number) -> Result<Number, SemanticError> {
    match (a, b) {
        (Number::Integer(x), Number::Integer(y)) => if y == 0 {
            Err(SemanticError::DivisionByZero)
        } else {
            match x.checked_div(y) {
                Some(q) => Ok(Number::Integer(q)),
                None => Ok(Number::Integer(i64::MIN)),
            }
        },
        (Number::Float(_), Number::Float(_)) => Err(SemanticError::FloatDivision),
        _ => Err(SemanticError::MismatchedTypes),
    }
}

pub open spec fn num_neg(a: Number) -> Result<Number, SemanticError> {
    match a {
        Number::Integer(x) => Ok(Number::Integer(0i64.wrapping_sub(x))),
        Number::Float(d) => if d.mantissa == i64::MIN {
            Err(SemanticError::FloatOutOfRange)
        } else {
            Ok(Number::Float(Decimal { mantissa: (-d.mantissa) as i64, scale: d.scale }))
        },
    }
}

proof fn lemma_pow10_pos(k: nat)
    ensures
        pow10(k) >= 1,
    decreases k,
{
    if k > 0 {
        lemma_pow10_pos((k - 1) as nat);
    }
}

proof fn lemma_pow10_le(k: nat)
    requires
        k <= 18,
    ensures
        pow10(k) <= pow10(18),
    decreases 18 - k,
{
    if k < 18 {
        lemma_pow10_le(k + 1);
        lemma_pow10_pos(k);
    }
}

fn rescale(m: i64, k: u32) -> (r: Option<i64>)
    ensures
        r == rescaled(m, k as nat),
{
    if k > 18 {
        return None;
    }
    let mut p: i64 = 1;
    let mut i: u32 = 0;
    proof {
        reveal_with_fuel(pow10, 19);
        assert(pow10(18) == 1000000000000000000);
    }
    while i < k
        invariant
            i <= k <= 18,
            p == pow10(i as nat),
            1 <= p <= 1000000000000000000,
            pow10(18) == 1000000000000000000,
        decreases k - i,
    {
        proof {
            lemma_pow10_le((i + 1) as nat);
            assert(pow10((i + 1) as nat) == 10 * pow10(i as nat));
        }
        p = p * 10;
        i = i + 1;
    }
    let mm = m as i128;
    let pp = p as i128;
    assert(-0x8000_0000_0000_0000 * 1000000000000000000 <= mm * pp <= 0x8000_0000_0000_0000
        * 1000000000000000000) by (nonlinear_arith)
        requires
            -0x8000_0000_0000_0000 <= mm <= 0x7fff_ffff_ffff_ffff,
            1 <= pp <= 1000000000000000000,
    ;
    let v = mm * pp;
    if i64::MIN as i128 <= v && v <= i64::MAX as i128 {
        Some(v as i64)
    } else {
        None
    }
}

fn decimal_add(a: Decimal, b: Decimal, subtract: bool) -> (r: Result<Number, SemanticError>)
    ensures
        r == dec_add(a, b, subtract),
{
    let s = if a.scale >= b.scale {
        a.scale
    } else {
        b.scale
    };
    let x = match rescale(a.mantissa, s - a.scale) {
        Some(x) => x,
        None => {
            return Err(SemanticError::FloatOutOfRange);
        },
    };
    let y = match rescale(b.mantissa, s - b.scale) {
        Some(y) => y,
        None => {
            return Err(SemanticError::FloatOutOfRange);
        },
    };
    let v = if subtract {
        x as i128 - y as i128
    } else {
        x as i128 + y as i128
    };
    if i64::MIN as i128 <= v && v <= i64::MAX as i128 {
        Ok(Number::Float(Decimal { mantissa: v as i64, scale: s }))
    } else {
        Err(SemanticError::FloatOutOfRange)
    }
}

pub fn add_numbers(a: Number, b: Number) -> (r: Result<Number, SemanticError>)
    ensures
        r == num_add(a, b),
{
    match (a, b) {
        (Number::Integer(x), Number::Integer(y)) => Ok(Number::Integer(x.wrapping_add(y))),
        (Number::Float(x), Number::Float(y)) => decimal_add(x, y, false),
        _ => Err(SemanticError::MismatchedTypes),
    }
}

pub fn subtract_numbers(a: Number, b: Number) -> (r: Result<Number, SemanticError>)
    ensures
        r == num_sub(a, b),
{
    match (a, b) {
        (Number::Integer(x), Number::Integer(y)) => Ok(Number::Integer(x.wrapping_sub(y))),
        (Number::Float(x), Number::Float(y)) => decimal_add(x, y, true),
        _ => Err(SemanticError::MismatchedTypes),
    }
}

pub fn multiply_numbers(a: Number, b: Number) -> (r: Result<Number, SemanticError>)
    ensures
        r == num_mul(a, b),
{
    match (a, b) {
        (Number::Integer(x), Number::Integer(y)) => Ok(Number::Integer(x.wrapping_mul(y))),
        (Number::Float(x), Number::Float(y)) => {
            let xm = x.mantissa as i128;
            let ym = y.mantissa as i128;
            assert(-0x8000_0000_0000_0000 * 0x8000_0000_0000_0000 <= xm * ym
                <= 0x8000_0000_0000_0000 * 0x8000_0000_0000_0000) by (nonlinear_arith)
                requires
                    -0x8000_0000_0000_0000 <= xm <= 0x7fff_ffff_ffff_ffff,
                    -0x8000_0000_0000_0000 <= ym <= 0x7fff_ffff_ffff_ffff,
            ;
            let v = xm * ym;
            let s = x.scale as u64 + y.scale as u64;
            if i64::MIN as i128 <= v && v <= i64::MAX as i128 && s <= u32::MAX as u64 {
                Ok(Number::Float(Decimal { mantissa: v as i64, scale: s as u32 }))
            } else {
                Err(SemanticError::FloatOutOfRange)
            }
        },
        _ => Err(SemanticError::MismatchedTypes),
    }
}

pub fn divide_numbers(a: Number, b: Number) -> (r: Result<Number, SemanticError>)
    ensures
        r == num_div(a, b),
{
    match (a, b) {
        (Number::Integer(x), Number::Integer(y)) => if y == 0 {
            Err(SemanticError::DivisionByZero)
        } else {
            match x.checked_div(y) {
                Some(q) => Ok(Number::Integer(q)),
                None => Ok(Number::Integer(i64::MIN)),
            }
        },
        (Number::Float(_), Number::Float(_)) => Err(SemanticError::FloatDivision),
        _ => Err(SemanticError::MismatchedTypes),
    }
}

pub fn negate_number(a: Number) -> (r: Result<Number, SemanticError>)
    ensures
        r == num_neg(a),
{
    match a {
        Number::Integer(x) => Ok(Number::Integer(0i64.wrapping_sub(x))),
        Number::Float(d) => if d.mantissa == i64::MIN {
            Err(SemanticError::FloatOutOfRange)
        } else {
            Ok(Number::Float(Decimal { mantissa: -d.mantissa, scale: d.scale }))
        },
    }
}

} // verus!
