//! Double-precision IEEE 754 operations, carried out on raw bit patterns.
//!
//! The scripting language's floating-point values are held as `u64` bit
//! patterns throughout this crate. Every operation on them is performed by
//! the host's IEEE 754 double-precision arithmetic, reached through `libm`
//! (whose pure-Rust routines anchor the operand type) and `bytemuck` (which
//! reinterprets a bit pattern as a double and back). Each operation is a
//! fixed function of the operand bit patterns, so its result is given an
//! uninterpreted name that the rest of the crate reasons with.
use vstd::prelude::*;

verus! {

/// The bit pattern of the IEEE 754 double-precision sum of two doubles.
pub uninterp spec fn fadd_bits(a: u64, b: u64) -> u64;

/// The bit pattern of the IEEE 754 double-precision difference of two doubles.
pub uninterp spec fn fsub_bits(a: u64, b: u64) -> u64;

/// The bit pattern of the IEEE 754 double-precision product of two doubles.
pub uninterp spec fn fmul_bits(a: u64, b: u64) -> u64;

/// The bit pattern of the IEEE 754 double-precision quotient of two doubles.
pub uninterp spec fn fdiv_bits(a: u64, b: u64) -> u64;

/// The bit pattern of the truncating (fmod-style) remainder that `%`
/// computes for two doubles.
pub uninterp spec fn frem_bits(a: u64, b: u64) -> u64;

/// The bit pattern of the first double raised to the power of the second,
/// as computed by `libm::pow`.
pub uninterp spec fn fpow_bits(a: u64, b: u64) -> u64;

/// Whether two doubles compare equal under IEEE 754 comparison.
pub uninterp spec fn feq_bits(a: u64, b: u64) -> bool;

/// Whether the first double is IEEE-754-less than the second.
pub uninterp spec fn flt_bits(a: u64, b: u64) -> bool;

/// Whether the first double is IEEE-754-less than or equal to the second.
pub uninterp spec fn fle_bits(a: u64, b: u64) -> bool;

/// The bit pattern of the double nearest to the given 64-bit signed integer.
pub uninterp spec fn f64_of_i64(i: i64) -> u64;

/// The bit pattern of the double that a decimal literal parses to, or `None`
/// where the text is not a well-formed decimal number.
pub uninterp spec fn f64_of_decimal(s: Seq<char>) -> Option<u64>;

/// A decimal float literal as this crate's scanner produces it: a leading
/// digit, then digits with exactly one dot anywhere after the first
/// character. Rust's float parser accepts every such text.
pub open spec fn well_formed_decimal(s: Seq<char>) -> bool {
    s.len() > 0 && 48 <= s[0] as u32 <= 57 && exists|i: int|
        0 <= i < s.len() && s[i] == '.' && (forall|j: int|
            0 <= j < s.len() && j != i ==> 48 <= #[trigger] s[j] as u32 <= 57)
}

/// The text that the standard formatter prints for the double with the given
/// bit pattern.
pub uninterp spec fn f64_display(a: u64) -> Seq<char>;

/// Relies on Rust's IEEE 754 addition for doubles. `libm::copysign(x, x)`
/// returns `x` unchanged and only fixes the operand type.
#[verifier::external_body]
pub(crate) fn add_bits(a: u64, b: u64) -> (r: u64)
    ensures
        r == fadd_bits(a, b),
{
    let x = libm::copysign(bytemuck::cast(a), bytemuck::cast(a));
    let y = libm::copysign(bytemuck::cast(b), bytemuck::cast(b));
    (x + y).to_bits()
}

/// Relies on Rust's IEEE 754 subtraction for doubles.
#[verifier::external_body]
pub(crate) fn sub_bits(a: u64, b: u64) -> (r: u64)
    ensures
        r == fsub_bits(a, b),
{
    let x = libm::copysign(bytemuck::cast(a), bytemuck::cast(a));
    let y = libm::copysign(bytemuck::cast(b), bytemuck::cast(b));
    (x - y).to_bits()
}

/// Relies on Rust's IEEE 754 multiplication for doubles.
#[verifier::external_body]
pub(crate) fn mul_bits(a: u64, b: u64) -> (r: u64)
    ensures
        r == fmul_bits(a, b),
{
    let x = libm::copysign(bytemuck::cast(a), bytemuck::cast(a));
    let y = libm::copysign(bytemuck::cast(b), bytemuck::cast(b));
    (x * y).to_bits()
}

/// Relies on Rust's IEEE 754 division for doubles.
#[verifier::external_body]
pub(crate) fn div_bits(a: u64, b: u64) -> (r: u64)
    ensures
        r == fdiv_bits(a, b),
{
    let x = libm::copysign(bytemuck::cast(a), bytemuck::cast(a));
    let y = libm::copysign(bytemuck::cast(b), bytemuck::cast(b));
    (x / y).to_bits()
}

/// Relies on Rust's `%` for doubles: the truncating (fmod-style) remainder,
/// not the IEEE `remainder` operation.
#[verifier::external_body]
pub(crate) fn rem_bits(a: u64, b: u64) -> (r: u64)
    ensures
        r == frem_bits(a, b),
{
    let x = libm::copysign(bytemuck::cast(a), bytemuck::cast(a));
    let y = libm::copysign(bytemuck::cast(b), bytemuck::cast(b));
    (x % y).to_bits()
}

/// Relies on `libm::pow`, a pure-Rust double-precision power function whose
/// result is a fixed function of the operand bits on every machine; it may
/// differ from a platform's own power routine in the last unit of precision.
#[verifier::external_body]
pub(crate) fn pow_bits(a: u64, b: u64) -> (r: u64)
    ensures
        r == fpow_bits(a, b),
{
    let r = libm::pow(bytemuck::cast(a), bytemuck::cast(b));
    r.to_bits()
}

/// Relies on Rust's IEEE 754 equality comparison for doubles.
#[verifier::external_body]
pub(crate) fn eq_bits(a: u64, b: u64) -> (r: bool)
    ensures
        r == feq_bits(a, b),
{
    let x = libm::copysign(bytemuck::cast(a), bytemuck::cast(a));
    let y = libm::copysign(bytemuck::cast(b), bytemuck::cast(b));
    x == y
}

/// Relies on Rust's IEEE 754 ordered less-than comparison for doubles.
#[verifier::external_body]
pub(crate) fn lt_bits(a: u64, b: u64) -> (r: bool)
    ensures
        r == flt_bits(a, b),
{
    let x = libm::copysign(bytemuck::cast(a), bytemuck::cast(a));
    let y = libm::copysign(bytemuck::cast(b), bytemuck::cast(b));
    x < y
}

/// Relies on Rust's IEEE 754 ordered less-than-or-equal comparison for doubles.
#[verifier::external_body]
pub(crate) fn le_bits(a: u64, b: u64) -> (r: bool)
    ensures
        r == fle_bits(a, b),
{
    let x = libm::copysign(bytemuck::cast(a), bytemuck::cast(a));
    let y = libm::copysign(bytemuck::cast(b), bytemuck::cast(b));
    x <= y
}

/// Relies on Rust's integer-to-double conversion, which rounds to the nearest
/// double. The integer is written in decimal and parsed back, which performs
/// the same round-to-nearest conversion.
#[verifier::external_body]
pub(crate) fn i64_to_f64_bits(i: i64) -> (r: u64)
    ensures
        r == f64_of_i64(i),
{
    match format!("{}", i).parse() {
        Ok(v) => libm::copysign(v, v).to_bits(),
        // An integer's decimal text always parses; this arm is unreachable.
        Err(_) => 0,
    }
}

/// Relies on Rust's decimal-to-double parser, which rounds the written value
/// to the nearest double and accepts every digit string with one dot.
#[verifier::external_body]
pub(crate) fn parse_f64_bits(digits: &Vec<char>) -> (r: Option<u64>)
    ensures
        r == f64_of_decimal(digits@),
        well_formed_decimal(digits@) ==> r is Some,
{
    let text: String = digits.iter().collect();
    match text.parse() {
        Ok(v) => Some(libm::copysign(v, v).to_bits()),
        Err(_) => None,
    }
}

/// Relies on Rust's standard formatter for doubles.
#[verifier::external_body]
pub(crate) fn display_f64_bits(a: u64) -> (r: String)
    ensures
        r@ == f64_display(a),
{
    let x = libm::copysign(bytemuck::cast(a), bytemuck::cast(a));
    format!("{}", x)
}

} // verus!
