//! Decimal fixed-point numbers.
//!
//! A `Scalar` stores a whole number of units, of which `SCALE`, ten to the
//! sixteenth, make up the number one. Its raw value stays within
//! `[-LIMIT, LIMIT]`, which reaches from minus to plus ten to the eighteenth;
//! the two ends stand in for the infinities.
//!
//! Every operation is total and is an exact function of its operands, given
//! by the integer formulas at the head of this file: sums and differences are
//! exact, products, quotients and roots are rounded toward zero to the
//! nearest unit, and every result that leaves the range is clamped to the
//! end it left by. Powers and the angle functions are defined by the sums
//! and products that compute them.

use vstd::prelude::*;

verus! {

/// Number of raw units that make up the value one.
pub const SCALE: i128 = 10_000_000_000_000_000;

/// The square root of `SCALE`.
pub const ROOT_SCALE: i128 = 100_000_000;

/// Largest raw magnitude a `Scalar` can hold.
pub const LIMIT: i128 = 10_000_000_000_000_000_000_000_000_000_000_000;

/// Raw tolerance used by approximate comparisons: one hundred-thousandth.
pub const EPSILON_RAW: i128 = 100_000_000_000;

/// The number brought into the representable range.
pub open spec fn clamp(x: int) -> int {
    if x > LIMIT {
        LIMIT as int
    } else if x < -LIMIT {
        -LIMIT as int
    } else {
        x
    }
}

/// The number without its sign.
pub open spec fn magnitude(x: int) -> int {
    if x < 0 {
        -x
    } else {
        x
    }
}

/// -1 when exactly one of the two operands is negative, else 1.
pub open spec fn product_sign(a: int, b: int) -> int {
    if (a < 0) != (b < 0) {
        -1
    } else {
        1
    }
}

/// The whole number `n`, in raw units.
pub open spec fn whole_raw(n: int) -> int {
    clamp(n * SCALE)
}

/// Sum, clamped.
pub open spec fn add_raw(a: int, b: int) -> int {
    clamp(a + b)
}

/// Difference, clamped.
pub open spec fn sub_raw(a: int, b: int) -> int {
    clamp(a - b)
}

/// Product of two raw values: the exact product over `SCALE`, rounded toward
/// zero and clamped.
pub open spec fn mul_raw(a: int, b: int) -> int {
    product_sign(a, b) * clamp((magnitude(a) * magnitude(b)) / (SCALE as int))
}

/// Quotient of two raw values: `SCALE` times the exact quotient, rounded
/// toward zero and clamped. Over zero, a number other than zero gives the
/// infinity of its sign, and zero gives zero.
pub open spec fn div_raw(a: int, b: int) -> int {
    if b == 0 {
        if a > 0 {
            LIMIT as int
        } else if a < 0 {
            -LIMIT as int
        } else {
            0
        }
    } else {
        product_sign(a, b) * clamp((magnitude(a) * SCALE) / magnitude(b))
    }
}

/// `r` is the integer square root of `n`, rounded down.
pub open spec fn is_floor_sqrt(n: int, r: int) -> bool {
    0 <= r && r * r <= n < (r + 1) * (r + 1)
}

/// The integer square root of `n`, rounded down.
pub open spec fn floor_sqrt(n: int) -> int {
    choose|r: int| is_floor_sqrt(n, r)
}

/// Square root of a raw value; values below zero have the root zero.
pub open spec fn sqrt_raw(a: int) -> int {
    if a <= 0 {
        0
    } else {
        floor_sqrt(a * SCALE)
    }
}

/// The largest whole number not above the value, in raw units.
pub open spec fn floor_raw(a: int) -> int {
    a - a % (SCALE as int)
}

/// Whether the two values differ by less than the tolerance.
pub open spec fn near_raw(a: int, b: int) -> bool {
    magnitude(a - b) < EPSILON_RAW
}

/// Whether the largest whole number not above the value is even.
pub open spec fn even_floor_raw(a: int) -> bool {
    (floor_raw(a) / (SCALE as int)) % 2 == 0
}

/// Power with a whole exponent, by squaring: every product is rounded as
/// `mul_raw` rounds.
pub open spec fn powi_raw(base: int, n: nat) -> int
    decreases n,
{
    if n == 0 {
        SCALE as int
    } else if n % 2 == 0 {
        let half = powi_raw(base, n / 2);
        mul_raw(half, half)
    } else {
        mul_raw(powi_raw(base, (n - 1) as nat), base)
    }
}

/// Power with an exponent `frac / SCALE` below one, read off as a binary
/// fraction of at most `bits` digits: the k-th digit contributes the k-fold
/// repeated square root of the base.
pub open spec fn root_pow_raw(base: int, frac: int, bits: nat) -> int
    decreases bits,
{
    if bits == 0 || frac <= 0 {
        SCALE as int
    } else {
        let root = sqrt_raw(base);
        if 2 * frac >= SCALE {
            mul_raw(root, root_pow_raw(root, 2 * frac - SCALE, (bits - 1) as nat))
        } else {
            root_pow_raw(root, 2 * frac, (bits - 1) as nat)
        }
    }
}

/// Number of binary digits of a fractional exponent that take part in a power.
pub const FRACTION_BITS: u32 = 53;

/// Power with an exponent that is not negative: the whole part by squaring,
/// the fractional part by repeated square roots.
pub open spec fn pow_nonneg_raw(base: int, exp: int) -> int {
    mul_raw(
        powi_raw(base, (exp / (SCALE as int)) as nat),
        root_pow_raw(base, exp % (SCALE as int), FRACTION_BITS as nat),
    )
}

/// Power with any exponent: for an exponent below zero, one over the power
/// with the exponent negated.
pub open spec fn pow_raw(base: int, exp: int) -> int {
    if exp < 0 {
        div_raw(SCALE as int, pow_nonneg_raw(base, -exp))
    } else {
        pow_nonneg_raw(base, exp)
    }
}

/// Raw value of pi, rounded down.
pub const PI_RAW: i128 = 31_415_926_535_897_932;

/// Raw value of a whole turn, two pi, rounded to the nearest unit.
pub const TURN_RAW: i128 = 62_831_853_071_795_865;

/// Where the power series of sine and cosine are cut off: no term of a degree
/// above this takes part.
pub const SERIES_END: u32 = 34;

/// The angle less a whole number of turns, so that it lies in `[-pi, pi)`.
pub open spec fn reduced_angle_raw(a: int) -> int {
    (a + PI_RAW) % (TURN_RAW as int) - PI_RAW
}

/// The nested form of an alternating power series in `x2`, from degree `n`
/// on: `1 - x2 / ((n + 1)(n + 2)) * (1 - x2 / ((n + 3)(n + 4)) * (1 - ...))`.
/// From degree zero it is the cosine series for an angle whose square is
/// `x2`; from degree one it is the sine series without its leading factor.
pub open spec fn series_raw(x2: int, n: nat) -> int
    decreases SERIES_END + 1 - n,
{
    if n >= SERIES_END {
        SCALE as int
    } else {
        sub_raw(
            SCALE as int,
            mul_raw(div_raw(x2, (n + 1) * (n + 2) * SCALE), series_raw(x2, n + 2)),
        )
    }
}

/// The sine of an angle in radians: the reduced angle times its power series
/// from degree one.
pub open spec fn sin_raw(a: int) -> int {
    let r = reduced_angle_raw(a);
    mul_raw(r, series_raw(mul_raw(r, r), 1))
}

/// The cosine of an angle in radians: the power series of the reduced angle
/// from degree zero.
pub open spec fn cos_raw(a: int) -> int {
    let r = reduced_angle_raw(a);
    series_raw(mul_raw(r, r), 0)
}

/// The tangent: sine over cosine.
pub open spec fn tan_raw(a: int) -> int {
    div_raw(sin_raw(a), cos_raw(a))
}

/// A number in fixed-point form. Its view is its raw value: the number times
/// `SCALE`, which lies within `[-LIMIT, LIMIT]`.
#[derive(Clone, Copy, Debug, PartialEq, Eq)]
pub struct Scalar {
    raw: i128,
}

impl View for Scalar {
    type V = int;

    closed spec fn view(&self) -> int {
        self.raw as int
    }
}

/// The raw values of a sequence of scalars.
pub open spec fn raws(s: Seq<Scalar>) -> Seq<int> {
    s.map_values(|x: Scalar| x@)
}

impl Scalar {
    #[verifier::type_invariant]
    spec fn in_bounds(self) -> bool {
        -LIMIT <= self.raw <= LIMIT
    }

    /// The scalar of `raw` units, clamped to the representable range.
    pub fn from_raw(raw: i128) -> (r: Scalar)
        ensures
            r@ == clamp(raw as int),
    {
        if raw > LIMIT {
            Scalar { raw: LIMIT }
        } else if raw < -LIMIT {
            Scalar { raw: -LIMIT }
        } else {
            Scalar { raw }
        }
    }

    /// The raw value.
    pub fn raw(&self) -> (r: i128)
        ensures
            r == self@,
            -LIMIT <= r <= LIMIT,
    {
        proof {
            use_type_invariant(self);
        }
        self.raw
    }

    /// The whole number `n`, clamped to the representable range.
    pub fn from_int(n: i64) -> (r: Scalar)
        ensures
            r@ == whole_raw(n as int),
    {
        assert(-0x8000_0000_0000_0000 * SCALE <= n * SCALE <= 0x7fff_ffff_ffff_ffff * SCALE)
            by (nonlinear_arith)
            requires
                -0x8000_0000_0000_0000 <= n <= 0x7fff_ffff_ffff_ffff,
                SCALE > 0,
        ;
        let wide: i128 = n as i128;
        Scalar::from_raw(wide * SCALE)
    }

    /// The whole number `n`, clamped to the representable range.
    pub fn from_count(n: usize) -> (r: Scalar)
        ensures
            r@ == whole_raw(n as int),
    {
        assert(0 <= n * SCALE <= 0xffff_ffff_ffff_ffff * SCALE) by (nonlinear_arith)
            requires
                0 <= n <= 0xffff_ffff_ffff_ffff,
                SCALE > 0,
        ;
        let wide: i128 = n as i128;
        Scalar::from_raw(wide * SCALE)
    }

    /// The number zero.
    pub fn zero() -> (r: Scalar)
        ensures
            r@ == 0,
    {
        Scalar { raw: 0 }
    }

    /// The number one.
    pub fn one() -> (r: Scalar)
        ensures
            r@ == SCALE,
    {
        Scalar { raw: SCALE }
    }

    /// The number pi.
    pub fn pi() -> (r: Scalar)
        ensures
            r@ == PI_RAW,
    {
        Scalar { raw: PI_RAW }
    }

    /// The tolerance of approximate comparisons.
    pub fn epsilon() -> (r: Scalar)
        ensures
            r@ == EPSILON_RAW,
    {
        Scalar { raw: EPSILON_RAW }
    }

    /// The largest value, which stands for positive infinity.
    pub fn infinity() -> (r: Scalar)
        ensures
            r@ == LIMIT,
    {
        Scalar { raw: LIMIT }
    }

    /// The smallest value, which stands for negative infinity.
    pub fn neg_infinity() -> (r: Scalar)
        ensures
            r@ == -LIMIT,
    {
        Scalar { raw: -LIMIT }
    }

    /// Whether this number lies below the other.
    pub fn lt(&self, other: Scalar) -> (r: bool)
        ensures
            r == (self@ < other@),
    {
        self.raw < other.raw
    }

    /// Whether this number does not lie above the other.
    pub fn le(&self, other: Scalar) -> (r: bool)
        ensures
            r == (self@ <= other@),
    {
        self.raw <= other.raw
    }

    /// Whether this number lies above the other.
    pub fn gt(&self, other: Scalar) -> (r: bool)
        ensures
            r == (self@ > other@),
    {
        self.raw > other.raw
    }

    /// Whether this number does not lie below the other.
    pub fn ge(&self, other: Scalar) -> (r: bool)
        ensures
            r == (self@ >= other@),
    {
        self.raw >= other.raw
    }

    /// Exact equality of the two values.
    pub fn equals(&self, other: Scalar) -> (r: bool)
        ensures
            r == (self@ == other@),
            r == (*self == other),
    {
        self.raw == other.raw
    }

    /// Equality up to the tolerance.
    pub fn is_equal(&self, other: Scalar) -> (r: bool)
        ensures
            r == near_raw(self@, other@),
    {
        proof {
            use_type_invariant(self);
            use_type_invariant(&other);
        }
        let d: i128 = self.raw - other.raw;
        let m: i128 = if d < 0 { -d } else { d };
        m < EPSILON_RAW
    }

    /// The larger of the two numbers.
    pub fn max(&self, other: Scalar) -> (r: Scalar)
        ensures
            r@ == if self@ >= other@ { self@ } else { other@ },
    {
        if self.raw >= other.raw {
            *self
        } else {
            other
        }
    }

    /// The smaller of the two numbers.
    pub fn min(&self, other: Scalar) -> (r: Scalar)
        ensures
            r@ == if self@ <= other@ { self@ } else { other@ },
    {
        if self.raw <= other.raw {
            *self
        } else {
            other
        }
    }

    /// The number with its sign changed.
    pub fn neg(&self) -> (r: Scalar)
        ensures
            r@ == -self@,
    {
        proof {
            use_type_invariant(self);
        }
        Scalar { raw: -self.raw }
    }

    /// The number without its sign.
    pub fn abs(&self) -> (r: Scalar)
        ensures
            r@ == magnitude(self@),
    {
        proof {
            use_type_invariant(self);
        }
        if self.raw < 0 {
            Scalar { raw: -self.raw }
        } else {
            *self
        }
    }

    /// Sum, clamped to the representable range.
    pub fn add(&self, other: Scalar) -> (r: Scalar)
        ensures
            r@ == add_raw(self@, other@),
    {
        proof {
            use_type_invariant(self);
            use_type_invariant(&other);
        }
        Scalar::from_raw(self.raw + other.raw)
    }

    /// Difference, clamped to the representable range.
    pub fn sub(&self, other: Scalar) -> (r: Scalar)
        ensures
            r@ == sub_raw(self@, other@),
    {
        proof {
            use_type_invariant(self);
            use_type_invariant(&other);
        }
        Scalar::from_raw(self.raw - other.raw)
    }

    /// Product, rounded toward zero and clamped to the representable range.
    pub fn mul(&self, other: Scalar) -> (r: Scalar)
        ensures
            r@ == mul_raw(self@, other@),
    {
        proof {
            use_type_invariant(self);
            use_type_invariant(&other);
        }
        let a: i128 = if self.raw < 0 { -self.raw } else { self.raw };
        let b: i128 = if other.raw < 0 { -other.raw } else { other.raw };
        let negative = (self.raw < 0) != (other.raw < 0);
        let ah: i128 = a / SCALE;
        let al: i128 = a % SCALE;
        let bh: i128 = b / SCALE;
        let bl: i128 = b % SCALE;
        let m: i128 = if bh > 0 && a > LIMIT / bh {
            proof {
                lemma_mul_high_saturates(a as int, b as int);
            }
            LIMIT
        } else {
            proof {
                lemma_mul_split(a as int, b as int);
            }
            let q: i128 = a * bh + ah * bl + (al * bl) / SCALE;
            if q > LIMIT {
                LIMIT
            } else {
                q
            }
        };
        if negative {
            Scalar { raw: -m }
        } else {
            Scalar { raw: m }
        }
    }

    /// Quotient, truncated toward zero. Dividing by zero gives the infinity
    /// with the sign of the dividend, or zero when the dividend is zero.
    pub fn div(&self, other: Scalar) -> (r: Scalar)
        ensures
            r@ == div_raw(self@, other@),
    {
        proof {
            use_type_invariant(self);
            use_type_invariant(&other);
        }
        if other.raw == 0 {
            if self.raw > 0 {
                Scalar { raw: LIMIT }
            } else if self.raw < 0 {
                Scalar { raw: -LIMIT }
            } else {
                Scalar { raw: 0 }
            }
        } else {
            let a: i128 = if self.raw < 0 { -self.raw } else { self.raw };
            let b: i128 = if other.raw < 0 { -other.raw } else { other.raw };
            let negative = (self.raw < 0) != (other.raw < 0);
            let m = Scalar::scaled_quotient(a, b);
            if negative {
                Scalar { raw: -m }
            } else {
                Scalar { raw: m }
            }
        }
    }

    /// `a * SCALE / b`, clamped to the limit: long division that brings down
    /// four decimal places at a time.
    fn scaled_quotient(a: i128, b: i128) -> (m: i128)
        requires
            0 <= a <= LIMIT,
            0 < b <= LIMIT,
        ensures
            m == clamp((a * SCALE) / (b as int)),
            0 <= m <= LIMIT,
    {
        let mut q: i128 = a / b;
        let mut r: i128 = a % b;
        let mut done: i128 = 1;
        let mut left: i128 = SCALE;
        proof {
            vstd::arithmetic::div_mod::lemma_fundamental_div_mod(a as int, b as int);
            vstd::arithmetic::div_mod::lemma_div_pos_is_pos(a as int, b as int);
            assert(a * done == a) by (nonlinear_arith)
                requires
                    done == 1,
            ;
            assert(q * b == b * q) by (nonlinear_arith);
        }
        while left > 1
            invariant
                0 <= a <= LIMIT,
                0 < b <= LIMIT,
                (done == 1 && left == SCALE) || (done == 10_000 && left == 1_000_000_000_000) || (
                done == 100_000_000 && left == 100_000_000) || (done == 1_000_000_000_000 && left
                    == 10_000) || (done == SCALE && left == 1),
                a * done == q * b + r,
                0 <= r < b,
                0 <= q,
            decreases left,
        {
            if q > LIMIT {
                proof {
                    lemma_quotient_lower_bound(
                        a as int,
                        b as int,
                        q as int,
                        r as int,
                        done as int,
                        left as int,
                    );
                }
                return LIMIT;
            }
            proof {
                lemma_division_step(a as int, b as int, q as int, r as int, done as int);
            }
            let rk: i128 = r * 10_000;
            q = q * 10_000 + rk / b;
            r = rk % b;
            done = done * 10_000;
            left = left / 10_000;
        }
        proof {
            assert(done == SCALE);
            assert(a * SCALE == b * q + r) by (nonlinear_arith)
                requires
                    a * done == q * b + r,
                    done == SCALE,
            ;
            vstd::arithmetic::div_mod::lemma_fundamental_div_mod_converse(
                a * SCALE,
                b as int,
                q as int,
                r as int,
            );
        }
        if q > LIMIT {
            LIMIT
        } else {
            q
        }
    }

    /// Square root, rounded down to the nearest unit.
    pub fn sqrt(&self) -> (r: Scalar)
        ensures
            r@ == sqrt_raw(self@),
            self@ > 0 ==> is_floor_sqrt(self@ * SCALE, r@),
    {
        proof {
            use_type_invariant(self);
        }
        if self.raw <= 0 {
            return Scalar { raw: 0 };
        }
        let a: i128 = self.raw;
        // the whole part of the root of `a`
        let mut lo: i128 = 0;
        let mut hi: i128 = 100_000_000_000_000_001;
        while hi - lo > 1
            invariant
                0 <= lo < hi <= 100_000_000_000_000_001,
                lo * lo <= a < hi * hi,
                0 <= a <= LIMIT,
            decreases hi - lo,
        {
            let mid: i128 = lo + (hi - lo) / 2;
            assert(0 <= mid * mid <= 100_000_000_000_000_001 * 100_000_000_000_000_001)
                by (nonlinear_arith)
                requires
                    0 <= mid <= 100_000_000_000_000_001,
            ;
            if mid * mid <= a {
                lo = mid;
            } else {
                hi = mid;
            }
        }
        let high: i128 = lo;
        proof {
            assert(hi == high + 1);
            lemma_root_gap(a as int, high as int);
        }
        let gap: i128 = a - high * high;
        assert(0 <= gap * SCALE <= 200_000_000_000_000_002 * SCALE) by (nonlinear_arith)
            requires
                0 <= gap <= 200_000_000_000_000_002,
                SCALE > 0,
        ;
        let target: i128 = gap * SCALE;
        assert(0 <= 2 * high * ROOT_SCALE <= 2 * 100_000_000_000_000_001 * ROOT_SCALE)
            by (nonlinear_arith)
            requires
                0 <= high <= 100_000_000_000_000_001,
                ROOT_SCALE > 0,
        ;
        let slope: i128 = 2 * high * ROOT_SCALE;
        // the largest low part whose square, with the mixed term, fits the gap
        let mut lo2: i128 = 0;
        let mut hi2: i128 = ROOT_SCALE;
        assert(slope * lo2 + lo2 * lo2 == 0) by (nonlinear_arith)
            requires
                lo2 == 0,
        ;
        while hi2 - lo2 > 1
            invariant
                0 <= lo2 < hi2 <= ROOT_SCALE,
                0 <= slope <= 2 * 100_000_000_000_000_001 * ROOT_SCALE,
                slope * lo2 + lo2 * lo2 <= target,
                hi2 < ROOT_SCALE ==> slope * hi2 + hi2 * hi2 > target,
            decreases hi2 - lo2,
        {
            let mid: i128 = lo2 + (hi2 - lo2) / 2;
            assert(0 <= slope * mid <= 2 * 100_000_000_000_000_001 * ROOT_SCALE * ROOT_SCALE
                && 0 <= mid * mid <= ROOT_SCALE * ROOT_SCALE) by (nonlinear_arith)
                requires
                    0 <= mid <= ROOT_SCALE,
                    0 <= slope <= 2 * 100_000_000_000_000_001 * ROOT_SCALE,
                    ROOT_SCALE == 100_000_000,
            ;
            if slope * mid + mid * mid <= target {
                lo2 = mid;
            } else {
                hi2 = mid;
            }
        }
        proof {
            lemma_root_compose(a as int, high as int, lo2 as int);
        }
        assert(0 <= high * ROOT_SCALE + lo2 <= LIMIT) by (nonlinear_arith)
            requires
                0 <= high <= 100_000_000_000_000_001,
                0 <= lo2 < ROOT_SCALE,
                ROOT_SCALE == 100_000_000,
                LIMIT == 10_000_000_000_000_000_000_000_000_000_000_000,
        ;
        Scalar { raw: high * ROOT_SCALE + lo2 }
    }

    /// The largest whole number not above the value.
    pub fn floor(&self) -> (r: Scalar)
        ensures
            r@ == floor_raw(self@),
    {
        proof {
            use_type_invariant(self);
        }
        if self.raw >= 0 {
            let rem: i128 = self.raw % SCALE;
            Scalar { raw: self.raw - rem }
        } else {
            let m: i128 = -self.raw;
            let rem: i128 = m % SCALE;
            proof {
                lemma_floor_negative(self.raw as int);
            }
            if rem == 0 {
                *self
            } else {
                Scalar { raw: -(m - rem + SCALE) }
            }
        }
    }

    /// Whether the largest whole number not above the value is even.
    pub fn has_even_floor(&self) -> (r: bool)
        ensures
            r == even_floor_raw(self@),
    {
        let whole = self.floor();
        proof {
            use_type_invariant(&whole);
            lemma_parity_of_whole(whole.raw as int);
        }
        let m: i128 = if whole.raw < 0 { -whole.raw } else { whole.raw };
        (m / SCALE) % 2 == 0
    }

    /// Power with a whole exponent.
    pub fn powi(&self, n: u128) -> (r: Scalar)
        ensures
            r@ == powi_raw(self@, n as nat),
        decreases n,
    {
        if n == 0 {
            Scalar::one()
        } else if n % 2 == 0 {
            let half = self.powi(n / 2);
            half.mul(half)
        } else {
            self.powi(n - 1).mul(*self)
        }
    }

    /// Power with the exponent `frac / SCALE`, read to `bits` binary digits.
    fn root_pow(&self, frac: i128, bits: u32) -> (r: Scalar)
        requires
            frac < SCALE,
        ensures
            r@ == root_pow_raw(self@, frac as int, bits as nat),
        decreases bits,
    {
        if bits == 0 || frac <= 0 {
            Scalar::one()
        } else {
            let root = self.sqrt();
            if 2 * frac >= SCALE {
                root.mul(root.root_pow(2 * frac - SCALE, bits - 1))
            } else {
                root.root_pow(2 * frac, bits - 1)
            }
        }
    }

    fn pow_nonneg(&self, exp: i128) -> (r: Scalar)
        requires
            0 <= exp <= LIMIT,
        ensures
            r@ == pow_nonneg_raw(self@, exp as int),
    {
        let whole: i128 = exp / SCALE;
        let frac: i128 = exp % SCALE;
        self.powi(whole as u128).mul(self.root_pow(frac, FRACTION_BITS))
    }

    /// Power with any exponent; a negative exponent gives the reciprocal.
    pub fn pow(&self, exp: Scalar) -> (r: Scalar)
        ensures
            r@ == pow_raw(self@, exp@),
    {
        proof {
            use_type_invariant(&exp);
        }
        if exp.raw < 0 {
            Scalar::one().div(self.pow_nonneg(-exp.raw))
        } else {
            self.pow_nonneg(exp.raw)
        }
    }

    /// The angle less a whole number of turns.
    fn reduced_angle(&self) -> (r: Scalar)
        ensures
            r@ == reduced_angle_raw(self@),
    {
        proof {
            use_type_invariant(self);
        }
        let v: i128 = self.raw + PI_RAW;
        let m: i128 = if v >= 0 {
            v % TURN_RAW
        } else {
            let rem: i128 = (-v) % TURN_RAW;
            proof {
                lemma_mod_of_negative(v as int, TURN_RAW as int);
            }
            if rem == 0 {
                0
            } else {
                TURN_RAW - rem
            }
        };
        Scalar { raw: m - PI_RAW }
    }

    fn series(x2: Scalar, n: u32) -> (r: Scalar)
        requires
            n <= SERIES_END + 1,
        ensures
            r@ == series_raw(x2@, n as nat),
        decreases SERIES_END + 1 - n,
    {
        if n >= SERIES_END {
            Scalar::one()
        } else {
            assert((n + 1) * (n + 2) <= 1260) by (nonlinear_arith)
                requires
                    n < 34,
            ;
            let step: i64 = ((n + 1) * (n + 2)) as i64;
            assert(whole_raw(step as int) == (n + 1) * (n + 2) * SCALE);
            Scalar::one().sub(x2.div(Scalar::from_int(step)).mul(Scalar::series(x2, n + 2)))
        }
    }

    /// The sine of an angle in radians, by its power series.
    pub fn sin(&self) -> (r: Scalar)
        ensures
            r@ == sin_raw(self@),
    {
        let angle = self.reduced_angle();
        angle.mul(Scalar::series(angle.mul(angle), 1))
    }

    /// The cosine of an angle in radians, by its power series.
    pub fn cos(&self) -> (r: Scalar)
        ensures
            r@ == cos_raw(self@),
    {
        let angle = self.reduced_angle();
        Scalar::series(angle.mul(angle), 0)
    }

    /// The tangent of an angle in radians: its sine over its cosine.
    pub fn tan(&self) -> (r: Scalar)
        ensures
            r@ == tan_raw(self@),
    {
        self.sin().div(self.cos())
    }
}

/// Whether two scalars are equal up to the tolerance.
pub fn is_equal(a: Scalar, b: Scalar) -> (r: bool)
    ensures
        r == near_raw(a@, b@),
{
    a.is_equal(b)
}

/// The gap between a number and the square of its whole root is at most
/// twice the root.
proof fn lemma_root_gap(a: int, high: int)
    requires
        0 <= high,
        high * high <= a < (high + 1) * (high + 1),
    ensures
        0 <= a - high * high <= 2 * high,
{
    assert((high + 1) * (high + 1) == high * high + 2 * high + 1) by (nonlinear_arith);
}

/// A root in two parts: with `high` the whole root of `a`, and `low` the
/// largest number below `ROOT_SCALE` whose square, with the mixed term, fits
/// into the scaled gap, `high * ROOT_SCALE + low` is the whole root of
/// `a * SCALE`.
proof fn lemma_root_compose(a: int, high: int, low: int)
    requires
        0 <= high,
        high * high <= a < (high + 1) * (high + 1),
        0 <= low < ROOT_SCALE,
        2 * high * ROOT_SCALE * low + low * low <= (a - high * high) * SCALE,
        low + 1 < ROOT_SCALE ==> 2 * high * ROOT_SCALE * (low + 1) + (low + 1) * (low + 1) > (a
            - high * high) * SCALE,
    ensures
        is_floor_sqrt(a * SCALE, high * ROOT_SCALE + low),
        floor_sqrt(a * SCALE) == high * ROOT_SCALE + low,
{
    let t = ROOT_SCALE as int;
    let s = SCALE as int;
    let r = high * t + low;
    assert(s == t * t);
    assert(0 <= r) by (nonlinear_arith)
        requires
            r == high * t + low,
            0 <= high,
            0 <= low,
            t > 0,
    ;
    assert(r * r == high * high * s + 2 * high * t * low + low * low) by (nonlinear_arith)
        requires
            r == high * t + low,
            s == t * t,
    ;
    assert((a - high * high) * s == a * s - high * high * s) by (nonlinear_arith);
    assert(r * r <= a * s);
    if low + 1 < t {
        assert((r + 1) * (r + 1) == high * high * s + 2 * high * t * (low + 1) + (low + 1) * (
        low + 1)) by (nonlinear_arith)
            requires
                r == high * t + low,
                s == t * t,
        ;
    } else {
        assert(r + 1 == (high + 1) * t) by (nonlinear_arith)
            requires
                r == high * t + low,
                low + 1 == t,
        ;
        assert((r + 1) * (r + 1) == (high + 1) * (high + 1) * s) by (nonlinear_arith)
            requires
                r + 1 == (high + 1) * t,
                s == t * t,
        ;
        assert((high + 1) * (high + 1) * s > a * s) by (nonlinear_arith)
            requires
                (high + 1) * (high + 1) > a,
                s > 0,
        ;
    }
    lemma_floor_sqrt_is(a * s, r);
}

/// One step of long division: four more decimal places of the quotient.
proof fn lemma_division_step(a: int, b: int, q: int, r: int, done: int)
    requires
        0 < b <= LIMIT,
        0 <= q <= LIMIT,
        0 <= r < b,
        a * done == q * b + r,
    ensures
        0 <= r * 10_000 <= LIMIT * 10_000,
        0 <= (r * 10_000) / b < 10_000,
        0 <= (r * 10_000) % b < b,
        a * (done * 10_000) == (q * 10_000 + (r * 10_000) / b) * b + (r * 10_000) % b,
{
    let rk = r * 10_000;
    vstd::arithmetic::div_mod::lemma_fundamental_div_mod(rk, b);
    vstd::arithmetic::div_mod::lemma_div_pos_is_pos(rk, b);
    assert(rk / b < 10_000) by {
        if rk / b >= 10_000 {
            assert(b * (rk / b) >= b * 10_000) by (nonlinear_arith)
                requires
                    rk / b >= 10_000,
                    b > 0,
            ;
        }
    }
    assert(a * (done * 10_000) == (q * 10_000 + rk / b) * b + rk % b) by (nonlinear_arith)
        requires
            a * done == q * b + r,
            rk == r * 10_000,
            rk == b * (rk / b) + rk % b,
    ;
}

/// A quotient so far is a lower bound of the finished quotient.
proof fn lemma_quotient_lower_bound(a: int, b: int, q: int, r: int, done: int, left: int)
    requires
        0 < b,
        0 <= r,
        q >= 0,
        left >= 1,
        done * left == SCALE,
        a * done == q * b + r,
    ensures
        (a * SCALE) / b >= q,
{
    assert(a * SCALE == left * (q * b + r)) by (nonlinear_arith)
        requires
            done * left == SCALE,
            a * done == q * b + r,
    ;
    assert(left * (q * b + r) >= q * b) by (nonlinear_arith)
        requires
            left >= 1,
            q >= 0,
            b > 0,
            r >= 0,
    ;
    vstd::arithmetic::div_mod::lemma_div_is_ordered(q * b, a * SCALE, b);
    vstd::arithmetic::div_mod::lemma_div_multiples_vanish(q, b);
    assert(q * b == b * q) by (nonlinear_arith);
}

/// The remainder of a negative number, from that of its magnitude.
proof fn lemma_mod_of_negative(v: int, m: int)
    requires
        v < 0,
        m > 0,
    ensures
        (-v) % m == 0 ==> v % m == 0,
        (-v) % m != 0 ==> v % m == m - (-v) % m,
{
    let q = (-v) / m;
    let rem = (-v) % m;
    vstd::arithmetic::div_mod::lemma_fundamental_div_mod(-v, m);
    if rem == 0 {
        assert(v == m * (-q)) by (nonlinear_arith)
            requires
                -v == m * q + rem,
                rem == 0,
        ;
        vstd::arithmetic::div_mod::lemma_fundamental_div_mod_converse(v, m, -q, 0);
    } else {
        assert(v == m * (-q - 1) + (m - rem)) by (nonlinear_arith)
            requires
                -v == m * q + rem,
        ;
        vstd::arithmetic::div_mod::lemma_fundamental_div_mod_converse(v, m, -q - 1, m - rem);
    }
}

proof fn lemma_floor_negative(a: int)
    requires
        -LIMIT <= a < 0,
    ensures
        (-a) % (SCALE as int) == 0 ==> floor_raw(a) == a,
        (-a) % (SCALE as int) != 0 ==> floor_raw(a) == -((-a) - (-a) % (SCALE as int) + SCALE),
        (-a) % (SCALE as int) != 0 ==> -LIMIT <= -((-a) - (-a) % (SCALE as int) + SCALE),
{
    let s = SCALE as int;
    let m = -a;
    let q = m / s;
    let rem = m % s;
    vstd::arithmetic::div_mod::lemma_fundamental_div_mod(m, s);
    if rem == 0 {
        assert(a == s * (-q)) by (nonlinear_arith)
            requires m == s * q + rem, rem == 0, a == -m;
        vstd::arithmetic::div_mod::lemma_fundamental_div_mod_converse(a, s, -q, 0);
    } else {
        assert(a == s * (-q - 1) + (s - rem)) by (nonlinear_arith)
            requires m == s * q + rem, a == -m;
        vstd::arithmetic::div_mod::lemma_fundamental_div_mod_converse(a, s, -q - 1, s - rem);
        // the limit is a whole number, so rounding down stays in range
        let lq = 1_000_000_000_000_000_000int;
        assert(LIMIT == s * lq);
        assert(q < lq) by (nonlinear_arith)
            requires s * q + rem <= s * lq, rem > 0, s > 0;
        assert(m - rem + s <= s * lq) by (nonlinear_arith)
            requires m - rem == s * q, q + 1 <= lq, s > 0;
    }
}

proof fn lemma_parity_of_whole(w: int)
    requires
        w % (SCALE as int) == 0 || (-w) % (SCALE as int) == 0,
    ensures
        ((w / (SCALE as int)) % 2 == 0) == ((magnitude(w) / (SCALE as int)) % 2 == 0),
        floor_raw(w) == w,
{
    let s = SCALE as int;
    if w < 0 {
        let m = -w;
        let q = m / s;
        vstd::arithmetic::div_mod::lemma_fundamental_div_mod(m, s);
        vstd::arithmetic::div_mod::lemma_fundamental_div_mod(w, s);
        if m % s != 0 {
            // then w % s == 0 by the requirement
            let k = w / s;
            assert(m == s * (-k)) by (nonlinear_arith)
                requires w == s * k, m == -w;
            vstd::arithmetic::div_mod::lemma_fundamental_div_mod_converse(m, s, -k, 0);
        }
        assert(w == s * (-q)) by (nonlinear_arith)
            requires m == s * q, w == -m;
        vstd::arithmetic::div_mod::lemma_fundamental_div_mod_converse(w, s, -q, 0);
        assert(((-q) % 2 == 0) == (q % 2 == 0)) by {
            vstd::arithmetic::div_mod::lemma_fundamental_div_mod(q, 2);
            vstd::arithmetic::div_mod::lemma_fundamental_div_mod(-q, 2);
        }
    } else {
        if w % s != 0 {
            let k = (-w) / s;
            vstd::arithmetic::div_mod::lemma_fundamental_div_mod(-w, s);
            assert(w == s * (-k)) by (nonlinear_arith)
                requires -w == s * k;
            vstd::arithmetic::div_mod::lemma_fundamental_div_mod_converse(w, s, -k, 0);
        }
    }
}

/// At most one integer is the rounded-down square root of `n`.
pub proof fn lemma_floor_sqrt_unique(n: int, r1: int, r2: int)
    requires
        is_floor_sqrt(n, r1),
        is_floor_sqrt(n, r2),
    ensures
        r1 == r2,
{
    if r1 < r2 {
        assert((r1 + 1) * (r1 + 1) <= r2 * r2) by (nonlinear_arith)
            requires 0 <= r1, r1 + 1 <= r2;
    } else if r2 < r1 {
        assert((r2 + 1) * (r2 + 1) <= r1 * r1) by (nonlinear_arith)
            requires 0 <= r2, r2 + 1 <= r1;
    }
}

proof fn lemma_floor_sqrt_is(n: int, r: int)
    requires
        is_floor_sqrt(n, r),
    ensures
        floor_sqrt(n) == r,
{
    lemma_floor_sqrt_unique(n, r, floor_sqrt(n));
}

proof fn lemma_mul_high_saturates(a: int, b: int)
    requires
        0 <= a <= LIMIT,
        0 <= b <= LIMIT,
        b / (SCALE as int) > 0,
        a > (LIMIT as int) / (b / (SCALE as int)),
    ensures
        (a * b) / (SCALE as int) > LIMIT,
{
    let s = SCALE as int;
    let bh = b / s;
    let l = LIMIT as int;
    assert(b >= bh * s) by {
        vstd::arithmetic::div_mod::lemma_fundamental_div_mod(b, s);
    }
    assert(a * bh > l) by {
        vstd::arithmetic::div_mod::lemma_fundamental_div_mod(l, bh);
        assert(a >= l / bh + 1);
        assert(a * bh >= (l / bh + 1) * bh) by (nonlinear_arith)
            requires a >= l / bh + 1, bh > 0;
        assert((l / bh + 1) * bh == bh * (l / bh) + bh) by (nonlinear_arith);
    }
    assert(a * b >= a * bh * s) by (nonlinear_arith)
        requires b >= bh * s, a >= 0;
    assert(a * bh * s >= (l + 1) * s) by (nonlinear_arith)
        requires a * bh >= l + 1, s > 0;
    assert((a * b) / s >= l + 1) by {
        vstd::arithmetic::div_mod::lemma_div_is_ordered((l + 1) * s, a * b, s);
        vstd::arithmetic::div_mod::lemma_div_multiples_vanish(l + 1, s);
    }
}

proof fn lemma_mul_split(a: int, b: int)
    requires
        0 <= a <= LIMIT,
        0 <= b <= LIMIT,
        b / (SCALE as int) == 0 || a <= (LIMIT as int) / (b / (SCALE as int)),
    ensures
        (a * b) / (SCALE as int) == a * (b / (SCALE as int)) + (a / (SCALE as int)) * (b % (
        SCALE as int)) + ((a % (SCALE as int)) * (b % (SCALE as int))) / (SCALE as int),
        0 <= a * (b / (SCALE as int)) <= LIMIT,
        0 <= (a / (SCALE as int)) * (b % (SCALE as int)) <= LIMIT,
        0 <= (a % (SCALE as int)) * (b % (SCALE as int)) <= SCALE * SCALE,
{
    let s = SCALE as int;
    let l = LIMIT as int;
    let ah = a / s;
    let al = a % s;
    let bh = b / s;
    let bl = b % s;
    vstd::arithmetic::div_mod::lemma_fundamental_div_mod(a, s);
    vstd::arithmetic::div_mod::lemma_fundamental_div_mod(b, s);
    assert(0 <= bl < s && 0 <= al < s);
    assert(bh >= 0 && ah >= 0) by {
        vstd::arithmetic::div_mod::lemma_div_pos_is_pos(b, s);
        vstd::arithmetic::div_mod::lemma_div_pos_is_pos(a, s);
    }
    let lq = 1_000_000_000_000_000_000int;
    assert(l == s * lq);
    assert(ah <= lq) by (nonlinear_arith)
        requires
            a == s * ah + al,
            al >= 0,
            a <= s * lq,
            s > 0,
    ;
    assert(a * b == s * (a * bh + ah * bl) + al * bl) by (nonlinear_arith)
        requires
            b == s * bh + bl,
            a == s * ah + al,
    ;
    assert(0 <= ah * bl <= l) by (nonlinear_arith)
        requires
            0 <= ah <= lq,
            0 <= bl < s,
            l == s * lq,
    ;
    assert(0 <= al * bl <= s * s) by (nonlinear_arith)
        requires
            0 <= al < s,
            0 <= bl < s,
    ;
    assert(0 <= a * bh <= l) by {
        if bh == 0 {
            assert(a * bh == 0) by (nonlinear_arith)
                requires
                    bh == 0,
            ;
        } else {
            vstd::arithmetic::div_mod::lemma_fundamental_div_mod(l, bh);
            assert(a * bh <= (l / bh) * bh) by (nonlinear_arith)
                requires
                    0 <= a <= l / bh,
                    bh > 0,
            ;
            assert((l / bh) * bh <= l) by (nonlinear_arith)
                requires
                    l == bh * (l / bh) + l % bh,
                    0 <= l % bh,
            ;
            assert(0 <= a * bh) by (nonlinear_arith)
                requires
                    a >= 0,
                    bh >= 0,
            ;
        }
    }
    let x = a * bh + ah * bl;
    assert((s * x + al * bl) / s == x + (al * bl) / s) by {
        vstd::arithmetic::div_mod::lemma_hoist_over_denominator(al * bl, x, s as nat);
        assert(s * x == x * s) by (nonlinear_arith);
    }
}

/// A product with zero is zero.
pub proof fn lemma_mul_by_zero(a: int)
    ensures
        mul_raw(a, 0) == 0,
        mul_raw(0, a) == 0,
{
    assert(magnitude(a) * 0 == 0) by (nonlinear_arith);
    assert(0 * magnitude(a) == 0) by (nonlinear_arith);
}

/// A product does not depend on the order of its factors.
pub proof fn lemma_mul_commutes(a: int, b: int)
    ensures
        mul_raw(a, b) == mul_raw(b, a),
{
    assert(magnitude(a) * magnitude(b) == magnitude(b) * magnitude(a)) by (nonlinear_arith);
}

/// The product with one is the number itself.
pub proof fn lemma_mul_by_one(a: int)
    requires
        -LIMIT <= a <= LIMIT,
    ensures
        mul_raw(a, SCALE as int) == a,
        mul_raw(SCALE as int, a) == a,
{
    lemma_mul_commutes(a, SCALE as int);
    vstd::arithmetic::div_mod::lemma_div_multiples_vanish(magnitude(a), SCALE as int);
    assert(magnitude(a) * SCALE == SCALE * magnitude(a)) by (nonlinear_arith);
}

/// Negating a factor negates the product.
pub proof fn lemma_mul_negated(a: int, b: int)
    ensures
        mul_raw(-a, b) == -mul_raw(a, b),
        mul_raw(a, -b) == -mul_raw(a, b),
{
    assert(0 <= magnitude(a) * magnitude(b)) by (nonlinear_arith)
        requires
            magnitude(a) >= 0,
            magnitude(b) >= 0,
    ;
    vstd::arithmetic::div_mod::lemma_div_pos_is_pos(
        magnitude(a) * magnitude(b),
        SCALE as int,
    );
    if a == 0 || b == 0 {
        lemma_mul_by_zero(a);
        lemma_mul_by_zero(b);
        lemma_mul_by_zero(-a);
        lemma_mul_by_zero(-b);
    }
}

/// Every number that is not negative has a rounded-down square root.
pub proof fn lemma_floor_sqrt_exists(n: int)
    requires
        n >= 0,
    ensures
        is_floor_sqrt(n, floor_sqrt(n)),
    decreases n,
{
    if n == 0 {
        assert(is_floor_sqrt(0, 0));
    } else {
        lemma_floor_sqrt_exists(n - 1);
        let r = floor_sqrt(n - 1);
        if (r + 1) * (r + 1) <= n {
            assert((r + 2) * (r + 2) > (r + 1) * (r + 1)) by (nonlinear_arith)
                requires
                    r >= 0,
            ;
            assert(is_floor_sqrt(n, r + 1));
        } else {
            assert(is_floor_sqrt(n, r));
        }
    }
}

/// The square of a number, rounded as `mul_raw` rounds, where it is within
/// range: `SCALE` times the result is at most the exact square, and less
/// than `SCALE` below it.
pub proof fn lemma_square_bounds(a: int, bound: int)
    requires
        magnitude(a) <= bound,
        bound * bound <= LIMIT * SCALE,
    ensures
        0 <= mul_raw(a, a) <= LIMIT,
        mul_raw(a, a) == (magnitude(a) * magnitude(a)) / (SCALE as int),
        SCALE * mul_raw(a, a) <= magnitude(a) * magnitude(a) < SCALE * mul_raw(a, a) + SCALE,
{
    let m = magnitude(a);
    let s = SCALE as int;
    assert(0 <= m * m <= bound * bound) by (nonlinear_arith)
        requires
            0 <= m <= bound,
    ;
    vstd::arithmetic::div_mod::lemma_fundamental_div_mod(m * m, s);
    vstd::arithmetic::div_mod::lemma_div_pos_is_pos(m * m, s);
    let q = (m * m) / s;
    assert(q <= LIMIT) by {
        if q > LIMIT {
            assert(s * q >= s * (LIMIT + 1)) by (nonlinear_arith)
                requires
                    q >= LIMIT + 1,
                    s > 0,
            ;
            assert(s * (LIMIT + 1) > LIMIT * s) by (nonlinear_arith)
                requires
                    s > 0,
            ;
        }
    }
}

/// The product with a whole number is exact where it is within range.
pub proof fn lemma_mul_by_whole(k: int, a: int)
    requires
        k >= 0,
        k * SCALE <= LIMIT,
        -LIMIT <= k * a <= LIMIT,
    ensures
        mul_raw(k * SCALE, a) == k * a,
{
    let s = SCALE as int;
    let m = magnitude(a);
    assert(k * s >= 0) by (nonlinear_arith)
        requires
            k >= 0,
            s > 0,
    ;
    assert((k * s) * m == s * (k * m)) by (nonlinear_arith);
    vstd::arithmetic::div_mod::lemma_div_multiples_vanish(k * m, s);
    assert(k * m == magnitude(k * a)) by (nonlinear_arith)
        requires
            k >= 0,
            m == magnitude(a),
            m == if a < 0 {
                -a
            } else {
                a
            },
    ;
    if k == 0 || a == 0 {
        assert(k * a == 0) by (nonlinear_arith)
            requires
                k == 0 || a == 0,
        ;
        assert(k * m == 0) by (nonlinear_arith)
            requires
                k == 0 || m == 0,
        ;
    } else if a < 0 {
        assert(k * a < 0) by (nonlinear_arith)
            requires
                k > 0,
                a < 0,
        ;
        assert(k * s > 0) by (nonlinear_arith)
            requires
                k > 0,
                s > 0,
        ;
        assert(-1 * (k * m) == -(k * m)) by (nonlinear_arith);
    } else {
        assert(k * a > 0) by (nonlinear_arith)
            requires
                k > 0,
                a > 0,
        ;
        assert(1 * (k * m) == k * m) by (nonlinear_arith);
    }
}

/// The quotient of the `k`-fold of a number by the whole number `k` is that
/// number.
pub proof fn lemma_div_by_whole(k: int, a: int)
    requires
        k > 0,
        k * SCALE <= LIMIT,
        -LIMIT <= a <= LIMIT,
    ensures
        div_raw(k * a, k * SCALE) == a,
{
    let s = SCALE as int;
    let m = magnitude(a);
    assert(k * s > 0) by (nonlinear_arith)
        requires
            k > 0,
            s > 0,
    ;
    assert(magnitude(k * a) == k * m) by (nonlinear_arith)
        requires
            k > 0,
            m == if a < 0 {
                -a
            } else {
                a
            },
    ;
    assert((k * m) * s == (k * s) * m) by (nonlinear_arith);
    vstd::arithmetic::div_mod::lemma_div_multiples_vanish(m, k * s);
    if a == 0 {
        assert(k * a == 0) by (nonlinear_arith)
            requires
                a == 0,
        ;
    } else if a < 0 {
        assert(k * a < 0) by (nonlinear_arith)
            requires
                k > 0,
                a < 0,
        ;
        assert(-1 * m == -m) by (nonlinear_arith);
    } else {
        assert(k * a > 0) by (nonlinear_arith)
            requires
                k > 0,
                a > 0,
        ;
        assert(1 * m == m) by (nonlinear_arith);
    }
}

/// A product lies within the representable range.
pub proof fn lemma_mul_in_range(a: int, b: int)
    ensures
        -LIMIT <= mul_raw(a, b) <= LIMIT,
{
    let c = clamp((magnitude(a) * magnitude(b)) / (SCALE as int));
    assert(1 * c == c && -1 * c == -c) by (nonlinear_arith);
}

/// Equality up to the tolerance holds of every number with itself, and does
/// not depend on the order of the two numbers.
pub proof fn lemma_near_is_symmetric(a: int, b: int)
    ensures
        near_raw(a, a),
        near_raw(a, b) == near_raw(b, a),
{
}

/// Zero over any number is zero, and a number other than zero over itself is
/// one.
pub proof fn lemma_div_of_zero_and_self(a: int)
    ensures
        div_raw(0, a) == 0,
        a != 0 ==> div_raw(a, a) == SCALE,
{
    if a != 0 {
        let m = magnitude(a);
        assert(0 * SCALE == 0) by (nonlinear_arith);
        assert(0int / m == 0);
        assert(product_sign(0, a) * 0 == 0) by (nonlinear_arith);
        assert(m * SCALE == SCALE * m) by (nonlinear_arith);
        vstd::arithmetic::div_mod::lemma_div_multiples_vanish(SCALE as int, m);
    }
}

/// A product that is not clamped lies less than one unit from the exact
/// product over `SCALE`.
pub proof fn lemma_product_error(x: int, y: int)
    requires
        magnitude(x) * magnitude(y) <= LIMIT * SCALE,
    ensures
        -SCALE < SCALE * mul_raw(x, y) - x * y < SCALE,
        -LIMIT <= mul_raw(x, y) <= LIMIT,
{
    let s = SCALE as int;
    let n = magnitude(x) * magnitude(y);
    assert(n >= 0) by (nonlinear_arith)
        requires
            n == magnitude(x) * magnitude(y),
            magnitude(x) >= 0,
            magnitude(y) >= 0,
    ;
    vstd::arithmetic::div_mod::lemma_fundamental_div_mod(n, s);
    vstd::arithmetic::div_mod::lemma_div_pos_is_pos(n, s);
    let q = n / s;
    assert(q <= LIMIT) by {
        if q > LIMIT {
            assert(s * q >= s * (LIMIT + 1)) by (nonlinear_arith)
                requires
                    q >= LIMIT + 1,
                    s > 0,
            ;
            assert(s * (LIMIT + 1) > LIMIT * s) by (nonlinear_arith)
                requires
                    s > 0,
            ;
        }
    }
    assert(1 * q == q && -1 * q == -q) by (nonlinear_arith);
    if (x < 0) != (y < 0) {
        assert(x * y == -n) by (nonlinear_arith)
            requires
                n == magnitude(x) * magnitude(y),
                (x < 0 && y >= 0 && magnitude(x) == -x && magnitude(y) == y) || (x >= 0 && y < 0
                    && magnitude(x) == x && magnitude(y) == -y),
        ;
        assert(s * (-q) == -(s * q)) by (nonlinear_arith);
    } else {
        assert(x * y == n) by (nonlinear_arith)
            requires
                n == magnitude(x) * magnitude(y),
                (x < 0 && y < 0 && magnitude(x) == -x && magnitude(y) == -y) || (x >= 0 && y >= 0
                    && magnitude(x) == x && magnitude(y) == y),
        ;
    }
}

/// The product of a number that is not negative with a number between zero
/// and one lies between zero and the first number.
pub proof fn lemma_mul_by_share(x: int, share: int)
    requires
        0 <= x <= LIMIT,
        0 <= share <= SCALE,
    ensures
        0 <= mul_raw(x, share) <= x,
{
    let s = SCALE as int;
    let n = x * share;
    assert(0 <= n <= x * s) by (nonlinear_arith)
        requires
            n == x * share,
            0 <= x,
            0 <= share <= s,
    ;
    vstd::arithmetic::div_mod::lemma_div_pos_is_pos(n, s);
    vstd::arithmetic::div_mod::lemma_div_is_ordered(n, x * s, s);
    vstd::arithmetic::div_mod::lemma_div_multiples_vanish(x, s);
    assert(x * s == s * x) by (nonlinear_arith);
    let q = n / s;
    assert(1 * q == q) by (nonlinear_arith);
}

/// The root of a number between zero and one lies between zero and one, and
/// the root of a negative number is zero.
pub proof fn lemma_root_of_share(x: int)
    requires
        x <= SCALE,
    ensures
        0 <= sqrt_raw(x) <= SCALE,
{
    let s = SCALE as int;
    if x > 0 {
        assert(0 <= x * s <= s * s) by (nonlinear_arith)
            requires
                0 < x <= s,
        ;
        lemma_floor_sqrt_exists(x * s);
        let r = floor_sqrt(x * s);
        if r > s {
            assert(r * r > s * s) by (nonlinear_arith)
                requires
                    r > s,
                    s > 0,
            ;
        }
    }
}

} // verus!
