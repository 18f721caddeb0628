//! Fixed-point quantities.
//!
//! Every physical or normalized value in this crate is an `i64` that counts
//! billionths: the raw value `ONE` stands for 1.0. Quotients are rounded toward
//! zero, so that negating an argument negates the result.

use vstd::arithmetic::div_mod::lemma_div_denominator;
use vstd::arithmetic::power2::{lemma2_to64, lemma_pow2_pos, lemma_pow2_unfold, pow2};
use vstd::prelude::*;

verus! {

/// Raw value of the quantity 1.0.
pub const ONE: i64 = 1_000_000_000;

/// Largest magnitude a raw value may have.
pub const LIMIT: i64 = 1_000_000_000_000_000_000;

/// `x` brought into the closed interval from `lo` to `hi`.
pub open spec fn clamp(x: int, lo: int, hi: int) -> int {
    if x < lo {
        lo
    } else if x > hi {
        hi
    } else {
        x
    }
}

/// The smaller of two integers.
pub open spec fn least(a: int, b: int) -> int {
    if a <= b {
        a
    } else {
        b
    }
}

/// The larger of two integers.
pub open spec fn greatest(a: int, b: int) -> int {
    if a >= b {
        a
    } else {
        b
    }
}

/// Magnitude of `x`.
pub open spec fn magnitude(x: int) -> int {
    if x < 0 {
        -x
    } else {
        x
    }
}

/// Quotient of `p` by a positive `d`, rounded toward zero.
pub open spec fn trunc_div(p: int, d: int) -> int {
    if p >= 0 {
        p / d
    } else {
        -((-p) / d)
    }
}

/// `a * b / c`, rounded toward zero.
pub open spec fn mul_div(a: int, b: int, c: int) -> int {
    trunc_div(a * b, c)
}

/// Scaling by a ratio of magnitude at most one never grows the magnitude, keeps
/// the order of the scaled values, and a ratio of exactly one changes nothing.
pub proof fn lemma_mul_div_bounds(a: int, b: int, c: int)
    requires
        0 < c,
        -c <= a <= c,
    ensures
        magnitude(mul_div(a, b, c)) <= magnitude(b),
        (a >= 0 && b >= 0) || (a <= 0 && b <= 0) ==> mul_div(a, b, c) >= 0,
        (a >= 0 && b <= 0) || (a <= 0 && b >= 0) ==> mul_div(a, b, c) <= 0,
        a == c ==> mul_div(a, b, c) == b,
        a == 0 || b == 0 ==> mul_div(a, b, c) == 0,
{
    let ma = magnitude(a);
    let mb = magnitude(b);
    assert(0 <= (ma * mb) / c <= mb && (ma == c ==> (ma * mb) / c == mb) && ((ma == 0 || mb == 0)
        ==> (ma * mb) / c == 0) && ma * mb >= 0) by (nonlinear_arith)
        requires
            0 <= ma <= c,
            0 <= mb,
            0 < c,
    ;
    assert(a * b == ma * mb || a * b == -(ma * mb)) by (nonlinear_arith)
        requires
            ma == magnitude(a),
            mb == magnitude(b),
    ;
    assert((a >= 0 && b >= 0) || (a <= 0 && b <= 0) ==> a * b == ma * mb) by (nonlinear_arith)
        requires
            ma == magnitude(a),
            mb == magnitude(b),
    ;
    assert((a >= 0 && b <= 0) || (a <= 0 && b >= 0) ==> a * b == -(ma * mb)) by (nonlinear_arith)
        requires
            ma == magnitude(a),
            mb == magnitude(b),
    ;
}

/// Brings `x` into the closed interval from `lo` to `hi`.
pub fn clamp_to(x: i64, lo: i64, hi: i64) -> (r: i64)
    ensures
        r == clamp(x as int, lo as int, hi as int),
{
    if x < lo {
        lo
    } else if x > hi {
        hi
    } else {
        x
    }
}

/// Computes `a * b / c`, rounded toward zero, for a ratio `a / c` of magnitude
/// at most one.
pub fn scale(a: i64, b: i64, c: i64) -> (r: i64)
    requires
        0 < c,
        -c <= a <= c,
        b > i64::MIN,
    ensures
        r == mul_div(a as int, b as int, c as int),
{
    proof {
        lemma_mul_div_bounds(a as int, b as int, c as int);
        let ma = magnitude(a as int);
        let mb = magnitude(b as int);
        assert(0 <= ma * mb <= 0x8000_0000_0000_0000 * mb) by (nonlinear_arith)
            requires
                0 <= ma <= 0x8000_0000_0000_0000,
                0 <= mb,
        ;
        assert((a as int) * (b as int) == ma * mb || (a as int) * (b as int) == -(ma * mb))
            by (nonlinear_arith)
            requires
                ma == magnitude(a as int),
                mb == magnitude(b as int),
        ;
    }
    let product: i128 = (a as i128) * (b as i128);
    let quotient: i128 = product / (c as i128);
    quotient as i64
}

/// Whether the IEEE 754 double with these bits has its sign bit set.
pub open spec fn double_negative(bits: u64) -> bool {
    bits >= 0x8000_0000_0000_0000
}

/// Exponent field of the IEEE 754 double with these bits.
pub open spec fn double_exponent(bits: u64) -> int {
    (bits as int / 0x10_0000_0000_0000) % 2048
}

/// Fraction field of the IEEE 754 double with these bits.
pub open spec fn double_fraction(bits: u64) -> int {
    bits as int % 0x10_0000_0000_0000
}

/// Whether these bits encode a NaN.
pub open spec fn double_is_nan(bits: u64) -> bool {
    double_exponent(bits) == 2047 && double_fraction(bits) != 0
}

/// Significand of a finite double, as an integer: the double's magnitude is
/// `double_significand(bits) / 2^double_shift(bits)`.
pub open spec fn double_significand(bits: u64) -> int {
    if double_exponent(bits) == 0 {
        double_fraction(bits)
    } else {
        0x10_0000_0000_0000 + double_fraction(bits)
    }
}

/// Number of binary places behind the point of `double_significand`. It is
/// negative for doubles of 2^53 and more.
pub open spec fn double_shift(bits: u64) -> int {
    if double_exponent(bits) == 0 {
        1074
    } else {
        1075 - double_exponent(bits)
    }
}

/// Magnitude of the double in raw units, rounded toward zero and capped at
/// `LIMIT`; an infinity counts as `LIMIT`.
pub open spec fn double_raw_magnitude(bits: u64) -> int {
    if double_exponent(bits) == 2047 {
        LIMIT as int
    } else {
        let scaled = if double_shift(bits) > 0 {
            (double_significand(bits) * ONE) / (pow2(double_shift(bits) as nat) as int)
        } else {
            double_significand(bits) * ONE * pow2((-double_shift(bits)) as nat)
        };
        if scaled > LIMIT {
            LIMIT as int
        } else {
            scaled
        }
    }
}

/// The raw value nearest to the double on the side of zero, within
/// `-LIMIT ..= LIMIT`.
pub open spec fn double_raw(bits: u64) -> int {
    if double_negative(bits) {
        -double_raw_magnitude(bits)
    } else {
        double_raw_magnitude(bits)
    }
}

/// Halves `x` `places` times.
fn shift_down(x: u128, places: u32) -> (r: u128)
    ensures
        r == x as int / (pow2(places as nat) as int),
{
    let mut r: u128 = x;
    let mut done: u32 = 0;
    proof {
        lemma2_to64();
    }
    while done < places
        invariant
            done <= places,
            r == x as int / (pow2(done as nat) as int),
        decreases places - done,
    {
        proof {
            lemma_pow2_pos(done as nat);
            lemma_pow2_unfold((done + 1) as nat);
            lemma_div_denominator(x as int, pow2(done as nat) as int, 2);
            assert(pow2(done as nat) * 2 == 2 * pow2(done as nat));
        }
        r = r / 2;
        done = done + 1;
    }
    r
}

/// Reads an IEEE 754 double, given by its bits, as a raw value. A NaN has no
/// value; every other double is rounded toward zero and kept within
/// `-LIMIT ..= LIMIT`.
pub fn raw_from_double(bits: u64) -> (r: Option<i64>)
    ensures
        r == if double_is_nan(bits) {
            None
        } else {
            Some(double_raw(bits) as i64)
        },
        r matches Some(v) ==> v == double_raw(bits) && -LIMIT <= v <= LIMIT,
{
    let negative = bits >= 0x8000_0000_0000_0000;
    let exponent: u64 = (bits / 0x10_0000_0000_0000) % 2048;
    let fraction: u64 = bits % 0x10_0000_0000_0000;
    if exponent == 2047 && fraction != 0 {
        return None;
    }
    let magnitude: i64 = if exponent == 2047 {
        LIMIT
    } else if exponent >= 1075 {
        proof {
            let up = pow2((-double_shift(bits)) as nat);
            lemma_pow2_pos((-double_shift(bits)) as nat);
            let m = double_significand(bits);
            assert(m * ONE * up >= 0x10_0000_0000_0000 * ONE) by (nonlinear_arith)
                requires
                    m >= 0x10_0000_0000_0000,
                    up >= 1,
            ;
        }
        LIMIT
    } else {
        let significand: u64 = if exponent == 0 {
            fraction
        } else {
            0x10_0000_0000_0000 + fraction
        };
        let places: u32 = if exponent == 0 {
            1074
        } else {
            (1075 - exponent) as u32
        };
        assert(significand < 0x20_0000_0000_0000 && ONE == 1_000_000_000);
        let product: u128 = (significand as u128) * (ONE as u128);
        let scaled: u128 = shift_down(product, places);
        proof {
            lemma_pow2_pos(places as nat);
            let d = pow2(places as nat) as int;
            assert(0 <= (product as int) / d <= product) by (nonlinear_arith)
                requires
                    0 <= product,
                    1 <= d,
            ;
        }
        if scaled > LIMIT as u128 {
            LIMIT
        } else {
            scaled as i64
        }
    };
    if negative {
        Some(-magnitude)
    } else {
        Some(magnitude)
    }
}

} // verus!
