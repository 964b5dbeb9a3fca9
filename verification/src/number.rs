//! Numbers of the scripting language: 64-bit signed integers and IEEE 754
//! doubles (held as bit patterns). Arithmetic between mismatched kinds
//! promotes the integer operand to a double, and equality and ordering are
//! defined cross-kind through the same promotion. Integer arithmetic wraps;
//! integer division and remainder truncate toward zero and are undefined for
//! a zero divisor (the operations return `None` there).
use crate::float_bits::{
    add_bits, display_f64_bits, div_bits, eq_bits, f64_display, f64_of_i64, fadd_bits, fdiv_bits,
    feq_bits, fle_bits, flt_bits, fmul_bits, fpow_bits, frem_bits, fsub_bits, i64_to_f64_bits,
    le_bits, lt_bits, mul_bits, pow_bits, rem_bits, sub_bits,
};
use vstd::math::abs;
use vstd::prelude::*;

verus! {

#[derive(Debug, Clone, Copy)]
pub enum Number {
    Integer(i64),
    Float(u64),
}

/// The bit pattern of the double that stands for this number: a float's own
/// bits, or the integer rounded to the nearest double.
pub open spec fn num_f64_bits(n: Number) -> u64 {
    match n {
        Number::Integer(i) => f64_of_i64(i),
        Number::Float(b) => b,
    }
}

/// Whether both operands are integers, in which case arithmetic stays in the
/// integer kind.
pub open spec fn both_integer(a: Number, b: Number) -> bool {
    a is Integer && b is Integer
}

pub open spec fn spec_num_add(a: Number, b: Number) -> Number {
    match (a, b) {
        (Number::Integer(x), Number::Integer(y)) => Number::Integer(i64::wrapping_add(x, y)),
        _ => Number::Float(fadd_bits(num_f64_bits(a), num_f64_bits(b))),
    }
}

pub open spec fn spec_num_sub(a: Number, b: Number) -> Number {
    match (a, b) {
        (Number::Integer(x), Number::Integer(y)) => Number::Integer(i64::wrapping_sub(x, y)),
        _ => Number::Float(fsub_bits(num_f64_bits(a), num_f64_bits(b))),
    }
}

pub open spec fn spec_num_mul(a: Number, b: Number) -> Number {
    match (a, b) {
        (Number::Integer(x), Number::Integer(y)) => Number::Integer(i64::wrapping_mul(x, y)),
        _ => Number::Float(fmul_bits(num_f64_bits(a), num_f64_bits(b))),
    }
}

/// Truncated (round-toward-zero) division of 64-bit signed integers, with
/// `i64::MIN / -1` wrapping back to `i64::MIN`.
pub open spec fn spec_i64_div(x: i64, y: i64) -> i64
    recommends
        y != 0,
{
    let q = abs(x as int) / abs(y as int);
    if (x < 0) != (y < 0) {
        if -q < i64::MIN {
            i64::MIN
        } else {
            (-q) as i64
        }
    } else {
        if q > i64::MAX {
            i64::MIN
        } else {
            q as i64
        }
    }
}

/// Remainder of truncated division: same sign as the dividend.
pub open spec fn spec_i64_rem(x: i64, y: i64) -> i64
    recommends
        y != 0,
{
    let m = abs(x as int) % abs(y as int);
    if x < 0 {
        (-m) as i64
    } else {
        m as i64
    }
}

/// Division: `None` exactly for an integer division by integer zero.
pub open spec fn spec_num_div(a: Number, b: Number) -> Option<Number> {
    match (a, b) {
        (Number::Integer(x), Number::Integer(y)) => if y == 0 {
            None
        } else {
            Some(Number::Integer(spec_i64_div(x, y)))
        },
        _ => Some(Number::Float(fdiv_bits(num_f64_bits(a), num_f64_bits(b)))),
    }
}

/// Remainder: `None` exactly for an integer remainder by integer zero.
pub open spec fn spec_num_rem(a: Number, b: Number) -> Option<Number> {
    match (a, b) {
        (Number::Integer(x), Number::Integer(y)) => if y == 0 {
            None
        } else {
            Some(Number::Integer(spec_i64_rem(x, y)))
        },
        _ => Some(Number::Float(frem_bits(num_f64_bits(a), num_f64_bits(b)))),
    }
}

/// Exponentiation always coerces both operands to doubles and yields a float.
pub open spec fn spec_num_pow(a: Number, b: Number) -> Number {
    Number::Float(fpow_bits(num_f64_bits(a), num_f64_bits(b)))
}

/// Numeric equality: integer pairs compare exactly; any float operand makes
/// the comparison an IEEE 754 one under promotion.
pub open spec fn spec_num_eq(a: Number, b: Number) -> bool {
    match (a, b) {
        (Number::Integer(x), Number::Integer(y)) => x == y,
        _ => feq_bits(num_f64_bits(a), num_f64_bits(b)),
    }
}

pub open spec fn spec_num_lt(a: Number, b: Number) -> bool {
    match (a, b) {
        (Number::Integer(x), Number::Integer(y)) => x < y,
        _ => flt_bits(num_f64_bits(a), num_f64_bits(b)),
    }
}

pub open spec fn spec_num_le(a: Number, b: Number) -> bool {
    match (a, b) {
        (Number::Integer(x), Number::Integer(y)) => x <= y,
        _ => fle_bits(num_f64_bits(a), num_f64_bits(b)),
    }
}

/// The decimal digit characters of a natural number, most significant first.
pub open spec fn spec_nat_digits(n: nat) -> Seq<char>
    decreases n,
{
    if n < 10 {
        seq![spec_digit_char(n)]
    } else {
        spec_nat_digits(n / 10) + seq![spec_digit_char(n % 10)]
    }
}

pub open spec fn spec_digit_char(d: nat) -> char {
    if d == 0 {
        '0'
    } else if d == 1 {
        '1'
    } else if d == 2 {
        '2'
    } else if d == 3 {
        '3'
    } else if d == 4 {
        '4'
    } else if d == 5 {
        '5'
    } else if d == 6 {
        '6'
    } else if d == 7 {
        '7'
    } else if d == 8 {
        '8'
    } else {
        '9'
    }
}

/// The decimal text of a 64-bit signed integer.
pub open spec fn spec_i64_display(i: i64) -> Seq<char> {
    if i < 0 {
        seq!['-'] + spec_nat_digits((-(i as int)) as nat)
    } else {
        spec_nat_digits(i as nat)
    }
}

/// The text that printing a number produces.
pub open spec fn spec_num_display(n: Number) -> Seq<char> {
    match n {
        Number::Integer(i) => spec_i64_display(i),
        Number::Float(b) => f64_display(b),
    }
}

impl Number {
    pub fn add(&self, other: &Number) -> (r: Number)
        ensures
            r == spec_num_add(*self, *other),
    {
        match (self, other) {
            (Number::Integer(x), Number::Integer(y)) => Number::Integer(x.wrapping_add(*y)),
            _ => Number::Float(add_bits(self.to_f64_bits(), other.to_f64_bits())),
        }
    }

    pub fn sub(&self, other: &Number) -> (r: Number)
        ensures
            r == spec_num_sub(*self, *other),
    {
        match (self, other) {
            (Number::Integer(x), Number::Integer(y)) => Number::Integer(x.wrapping_sub(*y)),
            _ => Number::Float(sub_bits(self.to_f64_bits(), other.to_f64_bits())),
        }
    }

    pub fn mul(&self, other: &Number) -> (r: Number)
        ensures
            r == spec_num_mul(*self, *other),
    {
        match (self, other) {
            (Number::Integer(x), Number::Integer(y)) => Number::Integer(x.wrapping_mul(*y)),
            _ => Number::Float(mul_bits(self.to_f64_bits(), other.to_f64_bits())),
        }
    }

    pub fn div(&self, other: &Number) -> (r: Option<Number>)
        ensures
            r == spec_num_div(*self, *other),
    {
        match (self, other) {
            (Number::Integer(x), Number::Integer(y)) => {
                if *y == 0 {
                    None
                } else {
                    Some(Number::Integer(i64_div_trunc(*x, *y)))
                }
            },
            _ => Some(Number::Float(div_bits(self.to_f64_bits(), other.to_f64_bits()))),
        }
    }

    pub fn rem(&self, other: &Number) -> (r: Option<Number>)
        ensures
            r == spec_num_rem(*self, *other),
    {
        match (self, other) {
            (Number::Integer(x), Number::Integer(y)) => {
                if *y == 0 {
                    None
                } else {
                    Some(Number::Integer(i64_rem_trunc(*x, *y)))
                }
            },
            _ => Some(Number::Float(rem_bits(self.to_f64_bits(), other.to_f64_bits()))),
        }
    }

    /// Raises this number to the power of the other; the result is always a
    /// float, never an integer.
    pub fn pow(&self, other: &Number) -> (r: Number)
        ensures
            r == spec_num_pow(*self, *other),
            r is Float,
    {
        Number::Float(pow_bits(self.to_f64_bits(), other.to_f64_bits()))
    }

    pub fn num_eq(&self, other: &Number) -> (r: bool)
        ensures
            r == spec_num_eq(*self, *other),
    {
        match (self, other) {
            (Number::Integer(x), Number::Integer(y)) => *x == *y,
            _ => eq_bits(self.to_f64_bits(), other.to_f64_bits()),
        }
    }

    pub fn num_lt(&self, other: &Number) -> (r: bool)
        ensures
            r == spec_num_lt(*self, *other),
    {
        match (self, other) {
            (Number::Integer(x), Number::Integer(y)) => *x < *y,
            _ => lt_bits(self.to_f64_bits(), other.to_f64_bits()),
        }
    }

    pub fn num_le(&self, other: &Number) -> (r: bool)
        ensures
            r == spec_num_le(*self, *other),
    {
        match (self, other) {
            (Number::Integer(x), Number::Integer(y)) => *x <= *y,
            _ => le_bits(self.to_f64_bits(), other.to_f64_bits()),
        }
    }

    fn to_f64_bits(&self) -> (r: u64)
        ensures
            r == num_f64_bits(*self),
    {
        match self {
            Number::Integer(i) => i64_to_f64_bits(*i),
            Number::Float(b) => *b,
        }
    }

    pub fn to_string(&self) -> (r: String)
        ensures
            r@ == spec_num_display(*self),
    {
        match self {
            Number::Integer(i) => i64_to_string(*i),
            Number::Float(b) => display_f64_bits(*b),
        }
    }
}

/// Truncated division with the divisor known nonzero; `i64::MIN / -1` wraps.
fn i64_div_trunc(x: i64, y: i64) -> (r: i64)
    requires
        y != 0,
    ensures
        r == spec_i64_div(x, y),
{
    let mag_x = i64_magnitude(x);
    let mag_y = i64_magnitude(y);
    let q = mag_x / mag_y;
    if (x < 0) != (y < 0) {
        if q == 9223372036854775808u64 {
            i64::MIN
        } else {
            assert(q < 0x8000_0000_0000_0000);
            -(q as i64)
        }
    } else {
        if q >= 9223372036854775808u64 {
            // Only `i64::MIN / -1` reaches a quotient of 2^63 with equal signs.
            assert(q == 0x8000_0000_0000_0000);
            i64::MIN
        } else {
            q as i64
        }
    }
}

/// Remainder of truncated division with the divisor known nonzero.
fn i64_rem_trunc(x: i64, y: i64) -> (r: i64)
    requires
        y != 0,
    ensures
        r == spec_i64_rem(x, y),
{
    let mag_x = i64_magnitude(x);
    let mag_y = i64_magnitude(y);
    let m = mag_x % mag_y;
    assert(m < mag_y);
    if x < 0 {
        assert(m <= 0x8000_0000_0000_0000);
        if m == 9223372036854775808u64 {
            i64::MIN
        } else {
            -(m as i64)
        }
    } else {
        assert(m < 0x8000_0000_0000_0000);
        m as i64
    }
}

fn i64_magnitude(x: i64) -> (r: u64)
    ensures
        r == abs(x as int),
{
    if x >= 0 {
        x as u64
    } else if x == i64::MIN {
        9223372036854775808u64
    } else {
        (-x) as u64
    }
}

/// A one-character string for a single decimal digit.
fn digit_str(d: u64) -> (r: &'static str)
    requires
        d < 10,
    ensures
        r@ =~= seq![spec_digit_char(d as nat)],
{
    proof {
        reveal_strlit("0");
        reveal_strlit("1");
        reveal_strlit("2");
        reveal_strlit("3");
        reveal_strlit("4");
        reveal_strlit("5");
        reveal_strlit("6");
        reveal_strlit("7");
        reveal_strlit("8");
        reveal_strlit("9");
    }
    match d {
        0 => "0",
        1 => "1",
        2 => "2",
        3 => "3",
        4 => "4",
        5 => "5",
        6 => "6",
        7 => "7",
        8 => "8",
        _ => "9",
    }
}

fn push_nat_digits(n: u64, s: &mut String)
    ensures
        final(s)@ == old(s)@ + spec_nat_digits(n as nat),
    decreases n,
{
    if n < 10 {
        s.append(digit_str(n));
    } else {
        push_nat_digits(n / 10, s);
        s.append(digit_str(n % 10));
        proof {
            assert(s@ =~= old(s)@ + spec_nat_digits(n as nat));
        }
    }
}

/// The decimal text of a 64-bit signed integer.
pub fn i64_to_string(i: i64) -> (r: String)
    ensures
        r@ == spec_i64_display(i),
{
    let mut s = String::new();
    if i < 0 {
        proof {
            reveal_strlit("-");
        }
        s.append("-");
        assert(s@ =~= seq!['-']);
    }
    let mag = i64_magnitude(i);
    push_nat_digits(mag, &mut s);
    proof {
        assert(s@ =~= spec_i64_display(i));
    }
    s
}

/// Every exponentiation yields a float, never an integer, whatever the
/// operand kinds.
pub proof fn lemma_pow_never_integer(a: Number, b: Number)
    ensures
        spec_num_pow(a, b) is Float,
{
}

/// Arithmetic keeps the integer kind exactly when both operands are
/// integers; one float operand makes the result a float.
pub proof fn lemma_arith_promotion(a: Number, b: Number)
    ensures
        both_integer(a, b) ==> spec_num_add(a, b) is Integer && spec_num_sub(a, b) is Integer
            && spec_num_mul(a, b) is Integer,
        !both_integer(a, b) ==> spec_num_add(a, b) is Float && spec_num_sub(a, b) is Float
            && spec_num_mul(a, b) is Float,
{
}

} // verus!
