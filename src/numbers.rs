//! Numeric values of the language and the syntax of numeric literals.
use vstd::prelude::*;

verus! {

/// A floating value held exactly as written: `mantissa * 10^(-scale)`.
#[derive(Debug, Clone, Copy, PartialEq, Eq, Structural)]
pub struct Decimal {
    pub mantissa: i64,
    pub scale: u32,
}

impl Decimal {
    pub fn new(mantissa: i64, scale: u32) -> (r: Decimal)
        ensures
            r.mantissa == mantissa,
            r.scale == scale,
    {
        Decimal { mantissa, scale }
    }
}

/// A resolved number: a 64-bit integer or a decimal floating value.
#[derive(Debug, Clone, Copy, PartialEq, Eq, Structural)]
pub enum Number {
    Integer(i64),
    Float(Decimal),
}

pub open spec fn is_digit(c: char) -> bool {
    '0' <= c && c <= '9'
}

pub open spec fn digit_value(c: char) -> int {
    c as int - '0' as int
}

/// What a scan of literal text has read so far.
pub struct ScanState {
    pub value: int,
    pub frac: Option<nat>,
    pub digits: nat,
}

/// Reads a literal left to right: digits with at most one decimal point.
/// Gives the value of all digits taken together, the number of digits after
/// the point (`None` when there is no point), and the number of digits.
pub open spec fn scan(s: Seq<char>) -> Option<ScanState>
    decreases s.len(),
{
    if s.len() == 0 {
        Some(ScanState { value: 0, frac: None, digits: 0 })
    } else {
        match scan(s.drop_last()) {
            None => None,
            Some(st) => {
                let (v, frac, n) = (st.value, st.frac, st.digits);
                let c = s.last();
                if is_digit(c) {
                    let f = match frac {
                        Some(k) => Some(k + 1),
                        None => None,
                    };
                    Some(ScanState { value: v * 10 + digit_value(c), frac: f, digits: n + 1 })
                } else if c == '.' && frac is None {
                    Some(ScanState { value: v, frac: Some(0nat), digits: n })
                } else {
                    None
                }
            },
        }
    }
}

/// An integer literal: one or more decimal digits whose value fits in `i64`.
/// A literal carries no sign: a leading `-` is an operator of the grammar,
/// and `+5` or `-5` as the text of one token is not a literal.
pub open spec fn int_literal(s: Seq<char>) -> Option<i64> {
    match scan(s) {
        Some(st) => if st.frac is None && st.digits > 0 && st.value <= i64::MAX {
            Some(st.value as i64)
        } else {
            None
        },
        None => None,
    }
}

/// A floating literal: one or more decimal digits with at most one point,
/// whose digits taken together fit in `i64`.
pub open spec fn float_literal(s: Seq<char>) -> Option<Decimal> {
    match scan(s) {
        Some(st) => if st.digits > 0 && st.value <= i64::MAX && (st.frac is None || st.frac->0
            <= u32::MAX) {
            Some(
                Decimal {
                    mantissa: st.value as i64,
                    scale: match st.frac {
                        Some(k) => k as u32,
                        None => 0u32,
                    },
                },
            )
        } else {
            None
        },
        None => None,
    }
}

/// The outcome of scanning a literal, as machine values.
struct Scanned {
    valid: bool,
    overflow: bool,
    value: i64,
    frac: Option<usize>,
    digits: usize,
}

spec fn scanned_matches(r: Scanned, s: Seq<char>) -> bool {
    match scan(s) {
        None => !r.valid,
        Some(st) => {
            &&& r.valid
            &&& r.overflow == (st.value > i64::MAX)
            &&& (!r.overflow ==> r.value == st.value)
            &&& r.frac is None == st.frac is None
            &&& (r.frac is Some ==> r.frac->0 == st.frac->0)
            &&& r.digits == st.digits
        },
    }
}

proof fn lemma_scan_nonneg(s: Seq<char>)
    ensures
        scan(s) is Some ==> scan(s)->0.value >= 0 && scan(s)->0.digits <= s.len() && (scan(
            s,
        )->0.frac is Some ==> scan(s)->0.frac->0 <= s.len()),
    decreases s.len(),
{
    if s.len() > 0 {
        lemma_scan_nonneg(s.drop_last());
    }
}

fn scan_text(s: &str) -> (r: Scanned)
    ensures
        scanned_matches(r, s@),
{
    let n = s.unicode_len();
    let mut r = Scanned { valid: true, overflow: false, value: 0, frac: None, digits: 0 };
    let mut i: usize = 0;
    assert(s@.subrange(0, 0) =~= Seq::<char>::empty());
    while i < n
        invariant
            n == s@.len(),
            i <= n,
            scanned_matches(r, s@.subrange(0, i as int)),
        decreases n - i,
    {
        let c = s.get_char(i);
        let ghost prev = s@.subrange(0, i as int);
        let ghost next = s@.subrange(0, i + 1);
        assert(next.drop_last() =~= prev);
        assert(next.last() == c);
        proof {
            lemma_scan_nonneg(prev);
        }
        if r.valid {
            if '0' <= c && c <= '9' {
                let d = (c as u32 - '0' as u32) as i64;
                assert(d == digit_value(c));
                if !r.overflow {
                    if r.value <= (i64::MAX - d) / 10 {
                        r.value = r.value * 10 + d;
                    } else {
                        r.overflow = true;
                    }
                } else {
                    let ghost v = scan(prev)->0.value;
                    assert(v * 10 + d > i64::MAX) by (nonlinear_arith)
                        requires
                            v > i64::MAX,
                            d >= 0,
                    ;
                }
                r.frac = match r.frac {
                    Some(k) => Some(k + 1),
                    None => None,
                };
                r.digits = r.digits + 1;
            } else if c == '.' && r.frac.is_none() {
                r.frac = Some(0);
            } else {
                r.valid = false;
            }
        }
        i = i + 1;
    }
    assert(s@.subrange(0, n as int) =~= s@);
    r
}

/// Reads an integer literal.
pub fn parse_integer_literal(s: &str) -> (r: Option<i64>)
    ensures
        r == int_literal(s@),
{
    let sc = scan_text(s);
    if sc.valid && !sc.overflow && sc.frac.is_none() && sc.digits > 0 {
        Some(sc.value)
    } else {
        None
    }
}

/// Reads a floating literal as an exact decimal.
pub fn parse_float_literal(s: &str) -> (r: Option<Decimal>)
    ensures
        r == float_literal(s@),
{
    let sc = scan_text(s);
    if !sc.valid || sc.overflow || sc.digits == 0 {
        return None;
    }
    match sc.frac {
        None => Some(Decimal { mantissa: sc.value, scale: 0 }),
        Some(k) => if k <= u32::MAX as usize {
            Some(Decimal { mantissa: sc.value, scale: k as u32 })
        } else {
            None
        },
    }
}

} // verus!
