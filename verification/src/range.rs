//! The mapping between a parameter's normalized value, from zero to `ONE`, and
//! its physical value, from `min` to `max`.

use crate::units::{clamp, clamp_to, lemma_mul_div_bounds, magnitude, mul_div, scale, LIMIT, ONE};
use vstd::prelude::*;

verus! {

/// Largest exponent a skewed range may have.
pub const MAX_FACTOR: u32 = 16;

/// `t / ONE` raised to the `exponent`-th power, in raw units, each product
/// rounded down.
pub open spec fn unit_pow(t: int, exponent: nat) -> int
    decreases exponent,
{
    if exponent == 0 {
        ONE as int
    } else {
        (unit_pow(t, (exponent - 1) as nat) * t) / (ONE as int)
    }
}

/// The smallest `t` from `start` to `ONE` whose power is at least `n`, or `ONE`.
pub open spec fn root_from(n: int, exponent: nat, start: int) -> int
    decreases ONE - start,
{
    if start >= ONE {
        ONE as int
    } else if unit_pow(start, exponent) >= n {
        start
    } else {
        root_from(n, exponent, start + 1)
    }
}

/// The `exponent`-th root of `n / ONE` in raw units, rounded up: the smallest
/// `t` from zero to `ONE` with `unit_pow(t, exponent) >= n`.
pub open spec fn unit_root(n: int, exponent: nat) -> int {
    root_from(n, exponent, 0)
}

/// Powers of a proportion are proportions, and the power grows with its base.
pub proof fn lemma_unit_pow_monotonic(a: int, b: int, exponent: nat)
    requires
        0 <= a <= b <= ONE,
    ensures
        0 <= unit_pow(a, exponent) <= unit_pow(b, exponent) <= ONE,
    decreases exponent,
{
    if exponent > 0 {
        lemma_unit_pow_monotonic(a, b, (exponent - 1) as nat);
        let pa = unit_pow(a, (exponent - 1) as nat);
        let pb = unit_pow(b, (exponent - 1) as nat);
        let one = ONE as int;
        assert(0 <= (pa * a) / one <= (pb * b) / one <= one) by (nonlinear_arith)
            requires
                0 <= pa <= pb <= one,
                0 <= a <= b <= one,
                one > 0,
        ;
    }
}

/// The powers of zero and of one, the first power of anything, and that a
/// power of one or more is at most its base.
pub proof fn lemma_unit_pow_ends(t: int, exponent: nat)
    requires
        0 <= t <= ONE,
    ensures
        unit_pow(ONE as int, exponent) == ONE,
        exponent >= 1 ==> unit_pow(0, exponent) == 0,
        unit_pow(t, 1) == t,
        exponent >= 1 ==> unit_pow(t, exponent) <= t,
    decreases exponent,
{
    reveal_with_fuel(unit_pow, 2);
    let one = ONE as int;
    if exponent > 0 {
        lemma_unit_pow_ends(t, (exponent - 1) as nat);
        lemma_unit_pow_monotonic(t, t, (exponent - 1) as nat);
        assert(unit_pow(0, (exponent - 1) as nat) * 0 == 0);
        let p = unit_pow(t, (exponent - 1) as nat);
        assert((p * t) / one <= t) by (nonlinear_arith)
            requires
                0 <= p <= one,
                0 <= t,
                one > 0,
        ;
    }
    assert((one * t) / one == t) by (nonlinear_arith)
        requires
            one > 0,
    ;
    assert((one * one) / one == one) by (nonlinear_arith)
        requires
            one > 0,
    ;
}

/// The power of a proportion changes by at most `exponent` raw units for each
/// raw unit that the proportion changes by.
pub proof fn lemma_unit_pow_slope(a: int, b: int, exponent: nat)
    requires
        0 <= a <= b <= ONE,
    ensures
        unit_pow(b, exponent) - unit_pow(a, exponent) <= exponent * (b - a),
    decreases exponent,
{
    if exponent > 0 {
        let lower = (exponent - 1) as nat;
        lemma_unit_pow_slope(a, b, lower);
        lemma_unit_pow_monotonic(a, b, lower);
        let pa = unit_pow(a, lower);
        let pb = unit_pow(b, lower);
        let one = ONE as int;
        let d = b - a;
        let rise = pb - pa;
        assert((pb * b) / one - (pa * a) / one <= rise + d) by (nonlinear_arith)
            requires
                0 <= pa <= pb <= one,
                0 <= a <= b <= one,
                one > 0,
                d == b - a,
                rise == pb - pa,
        ;
        assert(exponent * d == lower * d + d) by (nonlinear_arith)
            requires
                exponent == lower + 1,
        ;
    } else {
        assert(0 * (b - a) == 0);
    }
}

/// What singles out the root: its power is at least `n`, and the power of the
/// proportion before it, if there is one, is less than `n`.
pub open spec fn is_unit_root(t: int, n: int, exponent: nat) -> bool {
    &&& 0 <= t <= ONE
    &&& unit_pow(t, exponent) >= n
    &&& t > 0 ==> unit_pow(t - 1, exponent) < n
}

/// A proportion with the properties of the root is the root.
pub proof fn lemma_unit_root_unique(t: int, n: int, exponent: nat)
    requires
        is_unit_root(t, n, exponent),
    ensures
        unit_root(n, exponent) == t,
{
    lemma_root_from(t, n, exponent, 0);
}

proof fn lemma_root_from(t: int, n: int, exponent: nat, start: int)
    requires
        is_unit_root(t, n, exponent),
        0 <= start <= t,
    ensures
        root_from(n, exponent, start) == t,
    decreases t - start,
{
    if start < t {
        lemma_unit_pow_monotonic(start, t - 1, exponent);
        lemma_root_from(t, n, exponent, start + 1);
    }
}

/// The root of a proportion exists and is a proportion.
pub proof fn lemma_unit_root_exists(n: int, exponent: nat)
    requires
        0 <= n <= ONE,
    ensures
        is_unit_root(unit_root(n, exponent), n, exponent),
{
    lemma_root_from_is_root(n, exponent, 0);
}

proof fn lemma_root_from_is_root(n: int, exponent: nat, start: int)
    requires
        0 <= n <= ONE,
        0 <= start <= ONE,
        start > 0 ==> unit_pow(start - 1, exponent) < n,
    ensures
        is_unit_root(root_from(n, exponent, start), n, exponent),
    decreases ONE - start,
{
    lemma_unit_pow_ends(0, exponent);
    if start < ONE && unit_pow(start, exponent) < n {
        lemma_root_from_is_root(n, exponent, start + 1);
    }
}

/// A parameter's range.
#[derive(Clone, Copy, Debug, PartialEq, Eq, Structural)]
pub enum Range {
    /// Normalized values are spread evenly from `min` to `max`.
    Linear { min: i64, max: i64 },
    /// The normalized value is the `factor`-th power of the proportion of the
    /// way from `min` to `max`.
    Skewed { min: i64, max: i64, factor: u32 },
}

impl Range {
    /// Lowest physical value.
    pub open spec fn lower(self) -> int {
        match self {
            Range::Linear { min, .. } => min as int,
            Range::Skewed { min, .. } => min as int,
        }
    }

    /// Highest physical value.
    pub open spec fn upper(self) -> int {
        match self {
            Range::Linear { max, .. } => max as int,
            Range::Skewed { max, .. } => max as int,
        }
    }

    /// Exponent of the warp; one for a linear range.
    pub open spec fn exponent(self) -> nat {
        match self {
            Range::Linear { .. } => 1,
            Range::Skewed { factor, .. } => factor as nat,
        }
    }

    /// Width of the range.
    pub open spec fn span(self) -> int {
        self.upper() - self.lower()
    }

    /// The bounds are in order, apart and representable, and the exponent of a
    /// skewed range is from one to `MAX_FACTOR`.
    pub open spec fn valid(self) -> bool {
        &&& -LIMIT <= self.lower() < self.upper() <= LIMIT
        &&& 1 <= self.exponent() <= MAX_FACTOR
    }

    /// Whether `plain` lies within the range.
    pub open spec fn contains(self, plain: int) -> bool {
        self.lower() <= plain <= self.upper()
    }

    /// `plain` brought into the range.
    pub open spec fn clamped(self, plain: int) -> int {
        clamp(plain, self.lower(), self.upper())
    }

    /// How far `plain`, brought into the range, lies from `min` toward `max`,
    /// from zero to `ONE`.
    pub open spec fn proportion(self, plain: int) -> int {
        mul_div(self.clamped(plain) - self.lower(), ONE as int, self.span())
    }

    /// The physical value at proportion `t` of the way from `min` to `max`.
    pub open spec fn at_proportion(self, t: int) -> int {
        self.lower() + mul_div(t, self.span(), ONE as int)
    }

    /// The normalized value at proportion `t`: `t` itself in a linear range,
    /// its power in a skewed one.
    pub open spec fn warped(self, t: int) -> int {
        match self {
            Range::Linear { .. } => t,
            Range::Skewed { factor, .. } => unit_pow(t, factor as nat),
        }
    }

    /// The proportion at the normalized value `n`: `n` itself in a linear
    /// range, its root in a skewed one.
    pub open spec fn unwarped(self, n: int) -> int {
        match self {
            Range::Linear { .. } => n,
            Range::Skewed { factor, .. } => unit_root(n, factor as nat),
        }
    }

    /// Normalized value of the physical value `plain`; a value outside the
    /// range counts as the nearest bound.
    pub open spec fn normalized(self, plain: int) -> int {
        self.warped(self.proportion(plain))
    }

    /// Physical value of the normalized value `n`; a value outside zero to
    /// `ONE` counts as the nearest of the two.
    pub open spec fn unnormalized(self, n: int) -> int {
        self.at_proportion(self.unwarped(clamp(n, 0, ONE as int)))
    }

    /// Checks `valid`.
    pub fn is_valid(&self) -> (ok: bool)
        ensures
            ok == self.valid(),
    {
        match *self {
            Range::Linear { min, max } => -LIMIT <= min && min < max && max <= LIMIT,
            Range::Skewed { min, max, factor } => -LIMIT <= min && min < max && max <= LIMIT && 1
                <= factor && factor <= MAX_FACTOR,
        }
    }

    /// Lowest physical value.
    pub fn min(&self) -> (value: i64)
        ensures
            value == self.lower(),
    {
        match *self {
            Range::Linear { min, .. } => min,
            Range::Skewed { min, .. } => min,
        }
    }

    /// Highest physical value.
    pub fn max(&self) -> (value: i64)
        ensures
            value == self.upper(),
    {
        match *self {
            Range::Linear { max, .. } => max,
            Range::Skewed { max, .. } => max,
        }
    }

    /// Brings `plain` into the range.
    pub fn clamp(&self, plain: i64) -> (value: i64)
        requires
            self.valid(),
        ensures
            value == self.clamped(plain as int),
            self.contains(value as int),
    {
        clamp_to(plain, self.min(), self.max())
    }

    /// Normalized value of the physical value `plain`.
    pub fn normalize(&self, plain: i64) -> (n: i64)
        requires
            self.valid(),
        ensures
            n == self.normalized(plain as int),
            0 <= n <= ONE,
    {
        let min = self.min();
        let max = self.max();
        let inside = clamp_to(plain, min, max);
        proof {
            lemma_mul_div_bounds(inside - min, ONE as int, max - min);
        }
        let t = scale(inside - min, ONE, max - min);
        match *self {
            Range::Linear { .. } => t,
            Range::Skewed { factor, .. } => raise(t, factor as u64),
        }
    }

    /// Physical value of the normalized value `n`.
    pub fn unnormalize(&self, n: i64) -> (plain: i64)
        requires
            self.valid(),
        ensures
            plain == self.unnormalized(n as int),
            self.contains(plain as int),
    {
        let min = self.min();
        let max = self.max();
        let inside = clamp_to(n, 0, ONE);
        let t = match *self {
            Range::Linear { .. } => inside,
            Range::Skewed { factor, .. } => root(inside, factor as u64),
        };
        proof {
            lemma_mul_div_bounds(t as int, max - min, ONE as int);
        }
        min + scale(t, max - min, ONE)
    }
}

/// Once a power is zero, all higher powers are.
proof fn lemma_unit_pow_stays_zero(t: int, low: nat, high: nat)
    requires
        unit_pow(t, low) == 0,
        low <= high,
    ensures
        unit_pow(t, high) == 0,
    decreases high - low,
{
    if low < high {
        lemma_unit_pow_stays_zero(t, low, (high - 1) as nat);
        assert(0 * t == 0);
    }
}

/// Computes `unit_pow`.
pub fn raise(t: i64, exponent: u64) -> (p: i64)
    requires
        0 <= t <= ONE,
    ensures
        p == unit_pow(t as int, exponent as nat),
        0 <= p <= ONE,
{
    if t == ONE {
        proof {
            lemma_unit_pow_ends(t as int, exponent as nat);
        }
        return ONE;
    }
    let mut p: i64 = ONE;
    let mut done: u64 = 0;
    while done < exponent && p > 0
        invariant
            done <= exponent,
            0 <= t <= ONE,
            p == unit_pow(t as int, done as nat),
            0 <= p <= ONE,
        decreases exponent - done,
    {
        proof {
            lemma_unit_pow_monotonic(t as int, t as int, (done + 1) as nat);
            lemma_mul_div_bounds(p as int, t as int, ONE as int);
            assert((p as int) * (t as int) >= 0) by (nonlinear_arith)
                requires
                    p >= 0,
                    t >= 0,
            ;
        }
        p = scale(p, t, ONE);
        done = done + 1;
    }
    proof {
        if done < exponent {
            lemma_unit_pow_stays_zero(t as int, done as nat, exponent as nat);
        }
    }
    p
}

/// Computes `unit_root`.
pub fn root(n: i64, exponent: u64) -> (t: i64)
    requires
        0 <= n <= ONE,
    ensures
        t == unit_root(n as int, exponent as nat),
        is_unit_root(t as int, n as int, exponent as nat),
{
    let mut low: i64 = -1;
    let mut high: i64 = ONE;
    proof {
        lemma_unit_pow_ends(0, exponent as nat);
    }
    while high - low > 1
        invariant
            -1 <= low < high <= ONE,
            0 <= n <= ONE,
            unit_pow(high as int, exponent as nat) >= n,
            low >= 0 ==> unit_pow(low as int, exponent as nat) < n,
        decreases high - low,
    {
        let middle = low + (high - low) / 2;
        if raise(middle, exponent) >= n {
            high = middle;
        } else {
            low = middle;
        }
    }
    proof {
        lemma_unit_root_unique(high as int, n as int, exponent as nat);
    }
    high
}

/// The first root of a proportion is the proportion.
pub proof fn lemma_linear_root(n: int)
    requires
        0 <= n <= ONE,
    ensures
        unit_root(n, 1) == n,
{
    lemma_unit_pow_ends(n, 1);
    if n > 0 {
        lemma_unit_pow_ends(n - 1, 1);
    }
    lemma_unit_root_unique(n, n, 1);
}

/// In either kind of range the warp is the power by the range's exponent, and
/// its inverse is the root.
pub proof fn lemma_warp_is_power(range: Range, t: int)
    requires
        0 <= t <= ONE,
    ensures
        range.warped(t) == unit_pow(t, range.exponent()),
        range.unwarped(t) == unit_root(t, range.exponent()),
{
    if range is Linear {
        lemma_unit_pow_ends(t, 1);
        lemma_linear_root(t);
    }
}

/// Round trip: a normalized value that is mapped to its physical value and
/// back comes out within `exponent * (ONE / span + 1)` raw units of where it
/// started; through a linear range it is never raised.
pub proof fn lemma_round_trip(range: Range, n: int)
    requires
        range.valid(),
        0 <= n <= ONE,
    ensures
        range.contains(range.unnormalized(n)),
        magnitude(range.normalized(range.unnormalized(n)) - n) <= range.exponent() * ((ONE as int)
            / range.span() + 1),
        range is Linear ==> range.normalized(range.unnormalized(n)) <= n,
{
    let k = range.exponent();
    let one = ONE as int;
    let slack = one / range.span() + 1;
    lemma_unit_root_exists(n, k);
    lemma_warp_is_power(range, n);
    let t = unit_root(n, k);
    lemma_proportion_round_trip(range, t);
    let back = range.proportion(range.at_proportion(t));
    lemma_warp_is_power(range, back);
    lemma_unit_pow_slope(back, t, k);
    lemma_unit_pow_monotonic(back, t, k);
    assert(k * (t - back) <= k * slack) by (nonlinear_arith)
        requires
            0 <= t - back <= slack,
            k >= 0,
    ;
    if t > 0 {
        lemma_unit_pow_slope(t - 1, t, k);
        assert(k * 1 == k);
        assert(k <= k * slack) by (nonlinear_arith)
            requires
                slack >= 1,
                k >= 0,
        ;
    } else {
        lemma_unit_pow_ends(0, k);
    }
    if range is Linear {
        lemma_unit_pow_ends(back, 1);
        lemma_unit_pow_ends(t, 1);
    }
}

/// A proportion that is mapped to its physical value and back is never
/// raised, and is lowered by at most `ONE / span + 1` raw units.
pub proof fn lemma_proportion_round_trip(range: Range, t: int)
    requires
        range.valid(),
        0 <= t <= ONE,
    ensures
        range.contains(range.at_proportion(t)),
        0 <= range.proportion(range.at_proportion(t)) <= t,
        t - range.proportion(range.at_proportion(t)) <= (ONE as int) / range.span() + 1,
{
    let one = ONE as int;
    let span = range.span();
    let offset = (t * span) / one;
    assert(t * span >= 0) by (nonlinear_arith)
        requires
            t >= 0,
            span > 0,
    ;
    assert(0 <= offset <= span) by (nonlinear_arith)
        requires
            offset == (t * span) / one,
            0 <= t <= one,
            span > 0,
            one > 0,
    ;
    assert(offset * one >= 0) by (nonlinear_arith)
        requires
            offset >= 0,
            one > 0,
    ;
    let back = (offset * one) / span;
    assert(range.proportion(range.at_proportion(t)) == back);
    assert(0 <= back <= t && t - back <= one / span + 1) by (nonlinear_arith)
        requires
            offset == (t * span) / one,
            back == (offset * one) / span,
            0 <= t <= one,
            span > 0,
            one > 0,
            offset >= 0,
    ;
}

/// The ends of a range: normalized zero is `min`, normalized `ONE` is `max`,
/// and the other way round.
pub proof fn lemma_range_ends(range: Range)
    requires
        range.valid(),
    ensures
        range.unnormalized(0) == range.lower(),
        range.unnormalized(ONE as int) == range.upper(),
        range.normalized(range.lower()) == 0,
        range.normalized(range.upper()) == ONE,
{
    let k = range.exponent();
    let one = ONE as int;
    lemma_warp_is_power(range, 0);
    lemma_warp_is_power(range, one);
    lemma_unit_pow_ends(one - 1, k);
    lemma_unit_pow_ends(0, k);
    lemma_unit_root_unique(one, one, k);
    lemma_unit_root_unique(0, 0, k);
    lemma_mul_div_bounds(0, range.span(), one);
    lemma_mul_div_bounds(one, range.span(), one);
    lemma_mul_div_bounds(0, one, range.span());
    lemma_mul_div_bounds(range.span(), one, range.span());
}

} // verus!
