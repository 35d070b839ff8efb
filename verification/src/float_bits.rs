//! Comparisons of IEEE-754 binary64 values held as their bit patterns.
//!
//! Coordinates and measures are 64-bit floating-point numbers in the file format. The
//! library keeps them as the `u64` bit pattern that is stored in the file, and compares
//! them here exactly as the floating-point comparison operators do: NaN is unordered,
//! `-0.0` and `+0.0` are equal, and otherwise the order is that of the real values.
use vstd::prelude::*;

verus! {

/// The bit pattern of `-10e38`: measures at or below this value mean "no data".
pub const NO_DATA: u64 = 0xc807_8287_f49c_4a1du64;

/// The bit pattern of the largest finite value (`f64::MAX`).
pub const F64_MAX: u64 = 0x7fef_ffff_ffff_ffffu64;

/// The bit pattern of the smallest finite value (`f64::MIN`).
pub const F64_MIN: u64 = 0xffef_ffff_ffff_ffffu64;

/// The bit pattern of `0.0`.
pub const ZERO: u64 = 0u64;

/// The sign bit.
pub const SIGN_BIT: u64 = 0x8000_0000_0000_0000u64;

/// The bit pattern of positive infinity; larger magnitudes are NaNs.
pub const INFINITY: u64 = 0x7ff0_0000_0000_0000u64;

/// Whether the sign bit is set.
pub open spec fn is_negative(b: u64) -> bool {
    b >= SIGN_BIT
}

/// The bits without the sign bit.
pub open spec fn magnitude(b: u64) -> int {
    if is_negative(b) {
        b - SIGN_BIT
    } else {
        b as int
    }
}

/// Whether the value is a NaN.
pub open spec fn is_nan(b: u64) -> bool {
    magnitude(b) > INFINITY
}

/// Whether the value is `+0.0` or `-0.0`.
pub open spec fn is_zero(b: u64) -> bool {
    magnitude(b) == 0
}

/// The floating-point `a < b`.
pub open spec fn f64_lt(a: u64, b: u64) -> bool {
    &&& !is_nan(a)
    &&& !is_nan(b)
    &&& !(is_zero(a) && is_zero(b))
    &&& if is_negative(a) && !is_negative(b) {
        true
    } else if !is_negative(a) && is_negative(b) {
        false
    } else if !is_negative(a) {
        magnitude(a) < magnitude(b)
    } else {
        magnitude(a) > magnitude(b)
    }
}

/// The floating-point `a == b`.
pub open spec fn f64_eq(a: u64, b: u64) -> bool {
    !is_nan(a) && !is_nan(b) && (a == b || (is_zero(a) && is_zero(b)))
}

/// The floating-point `a <= b`.
pub open spec fn f64_le(a: u64, b: u64) -> bool {
    f64_lt(a, b) || f64_eq(a, b)
}

/// The smaller of the two values as `if a < b { a } else { b }` picks it.
pub open spec fn spec_min(a: u64, b: u64) -> u64 {
    if f64_lt(a, b) {
        a
    } else {
        b
    }
}

/// The larger of the two values as `if a > b { a } else { b }` picks it.
pub open spec fn spec_max(a: u64, b: u64) -> u64 {
    if f64_lt(b, a) {
        a
    } else {
        b
    }
}

/// A measure read from a file, raised to `NO_DATA` when below it or NaN
/// (what `f64::max(m, NO_DATA)` gives).
pub open spec fn spec_clamp_measure(m: u64) -> u64 {
    if is_nan(m) || f64_lt(m, NO_DATA) {
        NO_DATA
    } else {
        m
    }
}

/// Whether a measure means "no data".
pub open spec fn spec_is_no_data(m: u64) -> bool {
    f64_le(m, NO_DATA)
}

fn exec_magnitude(b: u64) -> (r: u64)
    ensures
        r == magnitude(b),
{
    if b >= SIGN_BIT {
        b - SIGN_BIT
    } else {
        b
    }
}

/// Whether `b` is a NaN.
pub fn nan(b: u64) -> (r: bool)
    ensures
        r == is_nan(b),
{
    exec_magnitude(b) > INFINITY
}

/// The floating-point `a < b` on bit patterns.
pub fn lt(a: u64, b: u64) -> (r: bool)
    ensures
        r == f64_lt(a, b),
{
    let ma = exec_magnitude(a);
    let mb = exec_magnitude(b);
    if ma > INFINITY || mb > INFINITY {
        return false;
    }
    if ma == 0 && mb == 0 {
        return false;
    }
    let na = a >= SIGN_BIT;
    let nb = b >= SIGN_BIT;
    if na && !nb {
        true
    } else if !na && nb {
        false
    } else if !na {
        ma < mb
    } else {
        ma > mb
    }
}

/// The floating-point `a == b` on bit patterns.
pub fn eq(a: u64, b: u64) -> (r: bool)
    ensures
        r == f64_eq(a, b),
{
    let ma = exec_magnitude(a);
    let mb = exec_magnitude(b);
    ma <= INFINITY && mb <= INFINITY && (a == b || (ma == 0 && mb == 0))
}

/// `if a < b { a } else { b }`.
pub fn f64_min(a: u64, b: u64) -> (r: u64)
    ensures
        r == spec_min(a, b),
{
    if lt(a, b) {
        a
    } else {
        b
    }
}

/// `if a > b { a } else { b }`.
pub fn f64_max(a: u64, b: u64) -> (r: u64)
    ensures
        r == spec_max(a, b),
{
    if lt(b, a) {
        a
    } else {
        b
    }
}

/// `f64::max(m, NO_DATA)`.
pub fn clamp_measure(m: u64) -> (r: u64)
    ensures
        r == spec_clamp_measure(m),
{
    if nan(m) || lt(m, NO_DATA) {
        NO_DATA
    } else {
        m
    }
}

/// `m <= NO_DATA`.
pub fn is_no_data(m: u64) -> (r: bool)
    ensures
        r == spec_is_no_data(m),
{
    lt(m, NO_DATA) || eq(m, NO_DATA)
}

/// Among values that are not NaN, `<` is a strict total order up to the equality of
/// the two zeros, and `<=` is reflexive and transitive.
pub proof fn lemma_order(a: u64, b: u64, c: u64)
    requires
        !is_nan(a),
        !is_nan(b),
        !is_nan(c),
    ensures
        !f64_lt(a, a),
        f64_lt(a, b) ==> !f64_lt(b, a),
        f64_lt(a, b) || f64_lt(b, a) || f64_eq(a, b),
        f64_le(a, a),
        f64_le(a, b) && f64_le(b, c) ==> f64_le(a, c),
        f64_lt(a, b) && f64_le(b, c) ==> f64_lt(a, c),
{
}

/// The minimum and maximum of two values are one of them, and for values that are not
/// NaN the minimum is below both and the maximum above both.
pub proof fn lemma_min_max(a: u64, b: u64)
    ensures
        spec_min(a, b) == a || spec_min(a, b) == b,
        spec_max(a, b) == a || spec_max(a, b) == b,
        !is_nan(a) && !is_nan(b) ==> f64_le(spec_min(a, b), a) && f64_le(spec_min(a, b), b),
        !is_nan(a) && !is_nan(b) ==> f64_le(a, spec_max(a, b)) && f64_le(b, spec_max(a, b)),
{
}

/// A clamped measure is never below `NO_DATA`, is never NaN, and clamping twice changes
/// nothing.
pub proof fn lemma_clamp_measure(m: u64)
    ensures
        !is_nan(spec_clamp_measure(m)),
        f64_le(NO_DATA, spec_clamp_measure(m)),
        spec_clamp_measure(spec_clamp_measure(m)) == spec_clamp_measure(m),
{
}

/// Reading a measure gives the larger of the measure and `NO_DATA`: the result is never
/// below `NO_DATA` nor below the measure, and it is the measure or `NO_DATA`. So a
/// measure that is not NaN and not below `NO_DATA` is read unchanged, and only a NaN or
/// a value below `NO_DATA` becomes `NO_DATA`.
pub proof fn lemma_clamp_measure_is_max(m: u64)
    ensures
        f64_le(NO_DATA, spec_clamp_measure(m)),
        !is_nan(m) ==> f64_le(m, spec_clamp_measure(m)),
        spec_clamp_measure(m) == m || spec_clamp_measure(m) == NO_DATA,
        !is_nan(m) && f64_le(NO_DATA, m) ==> spec_clamp_measure(m) == m,
        (is_nan(m) || f64_lt(m, NO_DATA)) ==> spec_clamp_measure(m) == NO_DATA,
{
}

} // verus!
