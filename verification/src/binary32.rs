//! Single-precision numbers held as their IEEE-754 bit patterns.
//!
//! A pattern is read as sign, 8-bit exponent field and 23-bit fraction field.
//! `value` gives the number a pattern denotes, multiplied by 2^149 so that every
//! finite number is an integer; infinities land above (or below) every finite
//! number, and patterns with the all-ones exponent and a non-zero fraction are
//! NaN, which has no place in the order.
use vstd::prelude::*;
use vstd::arithmetic::power2::*;

verus! {

/// Weight of one unit of the exponent field: 2^23.
pub open spec fn exponent_unit() -> nat {
    0x80_0000
}

/// The sign bit is set.
pub open spec fn is_negative(bits: u32) -> bool {
    bits >= 0x8000_0000
}

/// The 31 bits below the sign bit.
pub open spec fn low_bits(bits: u32) -> nat {
    if bits >= 0x8000_0000 {
        (bits - 0x8000_0000) as nat
    } else {
        bits as nat
    }
}

pub open spec fn exponent_field(bits: u32) -> nat {
    low_bits(bits) / exponent_unit()
}

pub open spec fn fraction_field(bits: u32) -> nat {
    low_bits(bits) % exponent_unit()
}

/// The pattern is a NaN.
pub open spec fn is_nan(bits: u32) -> bool {
    exponent_field(bits) == 255 && fraction_field(bits) != 0
}

/// Magnitude, scaled by 2^149, of the number whose low 31 bits are `low`.
pub open spec fn magnitude_of(low: nat) -> nat {
    let e = low / exponent_unit();
    let f = low % exponent_unit();
    if e == 0 {
        f
    } else {
        (f + exponent_unit()) * pow2((e - 1) as nat)
    }
}

/// The number that `bits` denotes, scaled by 2^149.
pub open spec fn value(bits: u32) -> int {
    if is_negative(bits) {
        -(magnitude_of(low_bits(bits)) as int)
    } else {
        magnitude_of(low_bits(bits)) as int
    }
}

/// The magnitude grows strictly with the low 31 bits, up to and including infinity.
pub proof fn lemma_magnitude_strictly_increases(a: nat, b: nat)
    requires
        a < b <= 0x7F80_0000,
    ensures
        magnitude_of(a) < magnitude_of(b),
{
    let u = exponent_unit();
    let ea = a / u;
    let eb = b / u;
    let fa = a % u;
    let fb = b % u;
    assert(a == ea * u + fa && fa < u);
    assert(b == eb * u + fb && fb < u);
    assert(ea <= eb) by (nonlinear_arith)
        requires a == ea * u + fa, b == eb * u + fb, fa < u, fb < u, a < b, u > 0, fa >= 0, fb >= 0;
    if ea == eb {
        assert(fa < fb) by (nonlinear_arith)
            requires a == ea * u + fa, b == eb * u + fb, ea == eb, a < b;
        if ea != 0 {
            let p = pow2((ea - 1) as nat);
            lemma_pow2_pos((ea - 1) as nat);
            assert((fa + u) * p < (fb + u) * p) by (nonlinear_arith)
                requires fa < fb, p > 0;
        }
    } else {
        // magnitude_of(a) < u * pow2(ea) <= magnitude_of(b)
        let pa = pow2(ea);
        if ea == 0 {
            lemma2_to64();
            assert(magnitude_of(a) < u * pa);
        } else {
            lemma_pow2_unfold(ea);
            let q = pow2((ea - 1) as nat);
            lemma_pow2_pos((ea - 1) as nat);
            assert((fa + u) * q < u * pa) by (nonlinear_arith)
                requires fa < u, q > 0, pa == 2 * q;
        }
        let pb = pow2((eb - 1) as nat);
        if ea < (eb - 1) as nat {
            lemma_pow2_strictly_increases(ea, (eb - 1) as nat);
        }
        assert(pa <= pb);
        assert(u * pa <= (fb + u) * pb) by (nonlinear_arith)
            requires pa <= pb, fb >= 0, u > 0;
    }
}

/// Setting the sign bit negates the number; without it the number is not negative.
pub proof fn lemma_sign_bit_negates(bits: u32)
    requires
        bits < 0x8000_0000,
    ensures
        value(bits) >= 0,
        value((bits + 0x8000_0000) as u32) == -value(bits),
        is_nan((bits + 0x8000_0000) as u32) == is_nan(bits),
{
}

/// Magnitudes compare as their low bits do.
pub proof fn lemma_magnitude_order(a: nat, b: nat)
    requires
        a <= 0x7F80_0000,
        b <= 0x7F80_0000,
    ensures
        (a <= b) == (magnitude_of(a) <= magnitude_of(b)),
        (a < b) == (magnitude_of(a) < magnitude_of(b)),
        (a == 0) == (magnitude_of(a) == 0),
{
    if a < b {
        lemma_magnitude_strictly_increases(a, b);
    } else if b < a {
        lemma_magnitude_strictly_increases(b, a);
    }
    if a > 0 {
        lemma_magnitude_strictly_increases(0, a);
    }
}

/// A pattern is a NaN exactly when its low 31 bits lie above infinity's.
pub proof fn lemma_nan_range(bits: u32)
    ensures
        is_nan(bits) == (low_bits(bits) > 0x7F80_0000),
        low_bits(bits) < 0x8000_0000,
{
    let l = low_bits(bits);
    let u = exponent_unit();
    assert(l == (l / u) * u + l % u && l % u < u) by (nonlinear_arith)
        requires u > 0;
    assert(l / u <= 255) by (nonlinear_arith)
        requires l < 0x8000_0000, u == 0x80_0000;
}

/// Splits a pattern into its sign and its low 31 bits.
fn split(bits: u32) -> (r: (bool, u32))
    ensures
        r.0 == is_negative(bits),
        r.1 as nat == low_bits(bits),
{
    if bits >= 0x8000_0000 {
        (true, bits - 0x8000_0000)
    } else {
        (false, bits)
    }
}

/// `a <= b` on the numbers the patterns denote; false where either is a NaN.
pub fn le(a: u32, b: u32) -> (r: bool)
    ensures
        r == (!is_nan(a) && !is_nan(b) && value(a) <= value(b)),
{
    let (an, la) = split(a);
    let (bn, lb) = split(b);
    proof {
        lemma_nan_range(a);
        lemma_nan_range(b);
    }
    if la > 0x7F80_0000 || lb > 0x7F80_0000 {
        return false;
    }
    proof {
        lemma_magnitude_order(la as nat, lb as nat);
        lemma_magnitude_order(lb as nat, la as nat);
    }
    if !an && !bn {
        la <= lb
    } else if an && bn {
        lb <= la
    } else if an {
        true
    } else {
        la == 0 && lb == 0
    }
}

/// `a < b` on the numbers the patterns denote; false where either is a NaN.
pub fn lt(a: u32, b: u32) -> (r: bool)
    ensures
        r == (!is_nan(a) && !is_nan(b) && value(a) < value(b)),
{
    let (an, la) = split(a);
    let (bn, lb) = split(b);
    proof {
        lemma_nan_range(a);
        lemma_nan_range(b);
    }
    if la > 0x7F80_0000 || lb > 0x7F80_0000 {
        return false;
    }
    proof {
        lemma_magnitude_order(la as nat, lb as nat);
        lemma_magnitude_order(lb as nat, la as nat);
    }
    if !an && !bn {
        la < lb
    } else if an && bn {
        lb < la
    } else if an {
        !(la == 0 && lb == 0)
    } else {
        false
    }
}

/// `a == 0`: true for both zeros.
pub fn is_zero(a: u32) -> (r: bool)
    ensures
        r == (!is_nan(a) && value(a) == 0),
{
    let (_an, la) = split(a);
    proof {
        lemma_nan_range(a);
        if la <= 0x7F80_0000 {
            lemma_magnitude_order(la as nat, la as nat);
        }
    }
    la == 0
}

/// `a > 0`.
pub fn is_positive(a: u32) -> (r: bool)
    ensures
        r == (!is_nan(a) && value(a) > 0),
{
    let (an, la) = split(a);
    proof {
        lemma_nan_range(a);
        if la <= 0x7F80_0000 {
            lemma_magnitude_order(la as nat, la as nat);
        }
    }
    !an && la != 0 && la <= 0x7F80_0000
}

} // verus!
