//! Four-component tuples: points (`w` is one) and vectors (`w` is zero).

use vstd::prelude::*;
use crate::scalar::{
    add_raw, div_raw, floor_sqrt, is_floor_sqrt, lemma_floor_sqrt_exists, lemma_mul_by_one,
    lemma_mul_by_whole, lemma_mul_by_zero, lemma_square_bounds, magnitude, mul_raw, near_raw,
    sqrt_raw, sub_raw, Scalar, EPSILON_RAW, LIMIT, SCALE,
};

verus! {

/// A point or a vector in space.
#[derive(Clone, Copy, Debug, PartialEq, Eq)]
pub struct Tuple {
    pub x: Scalar,
    pub y: Scalar,
    pub z: Scalar,
    pub w: Scalar,
}

/// The raw components of a tuple.
pub struct TupleView {
    pub x: int,
    pub y: int,
    pub z: int,
    pub w: int,
}

impl View for Tuple {
    type V = TupleView;

    open spec fn view(&self) -> TupleView {
        TupleView { x: self.x@, y: self.y@, z: self.z@, w: self.w@ }
    }
}

impl TupleView {
    /// Component-wise sum.
    pub open spec fn plus(self, other: TupleView) -> TupleView {
        TupleView {
            x: add_raw(self.x, other.x),
            y: add_raw(self.y, other.y),
            z: add_raw(self.z, other.z),
            w: add_raw(self.w, other.w),
        }
    }

    /// Component-wise difference.
    pub open spec fn minus(self, other: TupleView) -> TupleView {
        TupleView {
            x: sub_raw(self.x, other.x),
            y: sub_raw(self.y, other.y),
            z: sub_raw(self.z, other.z),
            w: sub_raw(self.w, other.w),
        }
    }

    /// Every component times `s`.
    pub open spec fn scaled(self, s: int) -> TupleView {
        TupleView {
            x: mul_raw(s, self.x),
            y: mul_raw(s, self.y),
            z: mul_raw(s, self.z),
            w: mul_raw(s, self.w),
        }
    }

    /// Every component with its sign changed.
    pub open spec fn negated(self) -> TupleView {
        TupleView { x: -self.x, y: -self.y, z: -self.z, w: -self.w }
    }

    /// Every component over `s`.
    pub open spec fn divided(self, s: int) -> TupleView {
        TupleView {
            x: div_raw(self.x, s),
            y: div_raw(self.y, s),
            z: div_raw(self.z, s),
            w: div_raw(self.w, s),
        }
    }

    /// Sum of the products of all four components, added left to right.
    pub open spec fn dot(self, other: TupleView) -> int {
        add_raw(
            add_raw(
                add_raw(mul_raw(self.x, other.x), mul_raw(self.y, other.y)),
                mul_raw(self.z, other.z),
            ),
            mul_raw(self.w, other.w),
        )
    }

    /// Length of the spatial part; `w` takes no part.
    pub open spec fn magnitude(self) -> int {
        sqrt_raw(
            add_raw(
                add_raw(mul_raw(self.x, self.x), mul_raw(self.y, self.y)),
                mul_raw(self.z, self.z),
            ),
        )
    }

    /// The tuple over its length.
    pub open spec fn normalized(self) -> TupleView {
        self.divided(self.magnitude())
    }

    /// The largest magnitude among the three spatial components.
    pub open spec fn largest_component(self) -> int {
        let xy = if magnitude(self.x) >= magnitude(self.y) {
            magnitude(self.x)
        } else {
            magnitude(self.y)
        };
        if xy >= magnitude(self.z) {
            xy
        } else {
            magnitude(self.z)
        }
    }

    /// Whether the tuple can be normalized as it stands: it is at least as
    /// long as the tolerance, and none of its spatial components exceeds a
    /// hundred million in magnitude.
    pub open spec fn normalizes_well(self) -> bool {
        &&& magnitude(self.x) <= normalizable_bound()
        &&& magnitude(self.y) <= normalizable_bound()
        &&& magnitude(self.z) <= normalizable_bound()
        &&& self.magnitude() >= normalizable_length()
    }

    /// The vector of length one along the tuple. A tuple that cannot be
    /// normalized as it stands, being too short or too long for its squares,
    /// is first divided by its largest component.
    pub open spec fn direction(self) -> TupleView {
        if self.normalizes_well() {
            self.normalized()
        } else {
            self.divided(self.largest_component()).normalized()
        }
    }

    /// The cross product of two vectors.
    pub open spec fn cross(self, other: TupleView) -> TupleView {
        TupleView {
            x: sub_raw(mul_raw(self.y, other.z), mul_raw(self.z, other.y)),
            y: sub_raw(mul_raw(self.z, other.x), mul_raw(self.x, other.z)),
            z: sub_raw(mul_raw(self.x, other.y), mul_raw(self.y, other.x)),
            w: 0,
        }
    }

    /// The vector mirrored about `normal`: `v - n * (2 * (v . n))`.
    pub open spec fn reflected(self, normal: TupleView) -> TupleView {
        self.minus(normal.scaled(mul_raw(2 * SCALE, self.dot(normal))))
    }

    /// Whether every component lies within the representable range.
    pub open spec fn within_limit(self) -> bool {
        &&& -LIMIT <= self.x <= LIMIT
        &&& -LIMIT <= self.y <= LIMIT
        &&& -LIMIT <= self.z <= LIMIT
        &&& -LIMIT <= self.w <= LIMIT
    }

    /// Component-wise equality up to the tolerance.
    pub open spec fn near(self, other: TupleView) -> bool {
        &&& near_raw(self.x, other.x)
        &&& near_raw(self.y, other.y)
        &&& near_raw(self.z, other.z)
        &&& near_raw(self.w, other.w)
    }
}

impl Tuple {
    /// The tuple with the given components.
    pub fn new(x: Scalar, y: Scalar, z: Scalar, w: Scalar) -> (r: Tuple)
        ensures
            r@ == (TupleView { x: x@, y: y@, z: z@, w: w@ }),
    {
        Tuple { x, y, z, w }
    }

    /// The point at `(x, y, z)`.
    pub fn point(x: Scalar, y: Scalar, z: Scalar) -> (r: Tuple)
        ensures
            r@ == (TupleView { x: x@, y: y@, z: z@, w: SCALE as int }),
    {
        Tuple { x, y, z, w: Scalar::one() }
    }

    /// The vector `(x, y, z)`.
    pub fn vector(x: Scalar, y: Scalar, z: Scalar) -> (r: Tuple)
        ensures
            r@ == (TupleView { x: x@, y: y@, z: z@, w: 0 }),
    {
        Tuple { x, y, z, w: Scalar::zero() }
    }

    /// Whether every component equals that of the other tuple up to the
    /// tolerance.
    pub fn is_equal(&self, other: Tuple) -> (r: bool)
        ensures
            r == self@.near(other@),
    {
        self.x.is_equal(other.x) && self.y.is_equal(other.y) && self.z.is_equal(other.z)
            && self.w.is_equal(other.w)
    }

    /// Component-wise sum.
    pub fn add(&self, other: Tuple) -> (r: Tuple)
        ensures
            r@ == self@.plus(other@),
    {
        Tuple {
            x: self.x.add(other.x),
            y: self.y.add(other.y),
            z: self.z.add(other.z),
            w: self.w.add(other.w),
        }
    }

    /// Component-wise difference.
    pub fn subtract(&self, other: Tuple) -> (r: Tuple)
        ensures
            r@ == self@.minus(other@),
    {
        Tuple {
            x: self.x.sub(other.x),
            y: self.y.sub(other.y),
            z: self.z.sub(other.z),
            w: self.w.sub(other.w),
        }
    }

    /// Every component times `s`.
    pub fn multiply(&self, s: Scalar) -> (r: Tuple)
        ensures
            r@ == self@.scaled(s@),
    {
        Tuple { x: s.mul(self.x), y: s.mul(self.y), z: s.mul(self.z), w: s.mul(self.w) }
    }

    /// Every component with its sign changed.
    pub fn negate(&self) -> (r: Tuple)
        ensures
            r@ == self@.negated(),
    {
        Tuple { x: self.x.neg(), y: self.y.neg(), z: self.z.neg(), w: self.w.neg() }
    }

    /// Every component over `s`.
    pub fn divide(&self, s: Scalar) -> (r: Tuple)
        ensures
            r@ == self@.divided(s@),
    {
        Tuple { x: self.x.div(s), y: self.y.div(s), z: self.z.div(s), w: self.w.div(s) }
    }

    /// The length of the spatial part.
    pub fn magnitude(&self) -> (r: Scalar)
        ensures
            r@ == self@.magnitude(),
    {
        self.x.mul(self.x).add(self.y.mul(self.y)).add(self.z.mul(self.z)).sqrt()
    }

    /// The dot product, over all four components.
    pub fn dot(&self, other: Tuple) -> (r: Scalar)
        ensures
            r@ == self@.dot(other@),
    {
        self.x.mul(other.x).add(self.y.mul(other.y)).add(self.z.mul(other.z)).add(
            self.w.mul(other.w),
        )
    }

    /// The tuple over its length.
    pub fn normalize(&self) -> (r: Tuple)
        ensures
            r@ == self@.normalized(),
    {
        self.divide(self.magnitude())
    }

    /// The vector of length one along this vector, whatever its length is:
    /// of every vector other than the zero vector it has the length one, up
    /// to the tolerance.
    pub fn direction(&self) -> (r: Tuple)
        ensures
            r@ == self@.direction(),
            self@.w == 0 ==> r@.w == 0,
            self@.x != 0 || self@.y != 0 || self@.z != 0 ==> near_raw(
                r@.magnitude(),
                SCALE as int,
            ),
    {
        proof {
            lemma_direction_is_unit(self@);
        }
        let bound = Scalar::from_int(100_000_000);
        let length = self.magnitude();
        if self.x.abs().le(bound) && self.y.abs().le(bound) && self.z.abs().le(bound)
            && length.ge(Scalar::epsilon()) {
            self.divide(length)
        } else {
            let largest = self.x.abs().max(self.y.abs()).max(self.z.abs());
            self.divide(largest).normalize()
        }
    }

    /// The cross product of two vectors.
    pub fn cross(&self, other: Tuple) -> (r: Tuple)
        ensures
            r@ == self@.cross(other@),
    {
        Tuple {
            x: self.y.mul(other.z).sub(self.z.mul(other.y)),
            y: self.z.mul(other.x).sub(self.x.mul(other.z)),
            z: self.x.mul(other.y).sub(self.y.mul(other.x)),
            w: Scalar::zero(),
        }
    }

    /// The vector mirrored about `normal`.
    pub fn reflect(&self, normal: Tuple) -> (r: Tuple)
        ensures
            r@ == self@.reflected(normal@),
    {
        let two = Scalar::from_int(2);
        self.subtract(normal.multiply(two.mul(self.dot(normal))))
    }
}

/// The largest magnitude of a component for which `lemma_normalized_is_unit`
/// speaks: a hundred million.
pub open spec fn normalizable_bound() -> int {
    100_000_000 * SCALE
}

/// The smallest length for which `lemma_normalized_is_unit` speaks: the
/// tolerance.
pub open spec fn normalizable_length() -> int {
    EPSILON_RAW as int
}

/// `n` is `a * SCALE / m`, rounded down.
spec fn is_quotient(a: int, m: int, n: int) -> bool {
    0 <= n && n * m <= a * SCALE < n * m + m
}

/// From a quotient to its square: `n^2 m^2 <= a^2 SCALE^2 < (n + 1)^2 m^2`.
proof fn lemma_quotient_squared(a: int, m: int, n: int)
    requires
        0 <= a,
        0 < m,
        is_quotient(a, m, n),
    ensures
        n * n * (m * m) <= a * a * (SCALE * SCALE),
        a * a * (SCALE * SCALE) < (n + 1) * (n + 1) * (m * m),
{
    let s = SCALE as int;
    let lo = n * m;
    let mid = a * s;
    let hi = (n + 1) * m;
    assert(hi == n * m + m) by (nonlinear_arith)
        requires
            hi == (n + 1) * m,
    ;
    assert(0 <= lo) by (nonlinear_arith)
        requires
            lo == n * m,
            0 <= n,
            0 < m,
    ;
    assert(lo * lo <= mid * mid) by (nonlinear_arith)
        requires
            0 <= lo <= mid,
    ;
    assert(mid * mid < hi * hi) by (nonlinear_arith)
        requires
            0 <= mid < hi,
    ;
    assert(lo * lo == n * n * (m * m)) by (nonlinear_arith)
        requires
            lo == n * m,
    ;
    assert(mid * mid == a * a * (s * s)) by (nonlinear_arith)
        requires
            mid == a * s,
    ;
    assert(hi * hi == (n + 1) * (n + 1) * (m * m)) by (nonlinear_arith)
        requires
            hi == (n + 1) * m,
    ;
}

/// A length of at least the tolerance leaves room for the rounding of the
/// root: `(SCALE + EPSILON)^2 m^2 >= SCALE^2 ((m + 1)^2 + 3 SCALE)`.
proof fn lemma_room_for_rounding(m: int)
    requires
        m >= EPSILON_RAW,
    ensures
        (SCALE + EPSILON_RAW) * (SCALE + EPSILON_RAW) * (m * m) >= SCALE * SCALE * ((m + 1) * (m
            + 1) + 3 * SCALE),
{
    let s = SCALE as int;
    let e = EPSILON_RAW as int;
    let c2 = 2 * s * e + e * e;
    let m0 = e;
    assert((s + e) * (s + e) == s * s + c2) by (nonlinear_arith)
        requires
            c2 == 2 * s * e + e * e,
    ;
    assert((s + e) * (s + e) * (m * m) == s * s * (m * m) + c2 * (m * m)) by (nonlinear_arith)
        requires
            (s + e) * (s + e) == s * s + c2,
    ;
    assert(s * s * ((m + 1) * (m + 1) + 3 * s) == s * s * (m * m) + 2 * (s * s) * m + s * s + 3
        * (s * s * s)) by (nonlinear_arith);
    // c2 m^2 >= c2 m0 m, and (c2 m0 - 2 s^2) m >= (c2 m0 - 2 s^2) m0 >= s^2 + 3 s^3
    assert(c2 * (m * m) >= c2 * m0 * m) by (nonlinear_arith)
        requires
            m >= m0,
            m0 >= 0,
            c2 >= 0,
    ;
    let k = c2 * m0 - 2 * (s * s);
    assert(k >= 0 && k * m0 >= s * s + 3 * (s * s * s)) by {
        assert(s == 10_000_000_000_000_000);
        assert(e == 100_000_000_000);
        assert(s * e == 1_000_000_000_000_000_000_000_000_000) by (nonlinear_arith)
            requires
                s == 10_000_000_000_000_000,
                e == 100_000_000_000,
        ;
        assert(e * e == 10_000_000_000_000_000_000_000) by (nonlinear_arith)
            requires
                e == 100_000_000_000,
        ;
        assert(s * s == 100_000_000_000_000_000_000_000_000_000_000) by (nonlinear_arith)
            requires
                s == 10_000_000_000_000_000,
        ;
        assert(c2 == 2_000_010_000_000_000_000_000_000_000);
        assert(c2 * m0 == 200_001_000_000_000_000_000_000_000_000_000_000_000)
            by (nonlinear_arith)
            requires
                c2 == 2_000_010_000_000_000_000_000_000_000,
                m0 == 100_000_000_000,
        ;
        assert(s * s * s == 1_000_000_000_000_000_000_000_000_000_000_000_000_000_000_000_000)
            by (nonlinear_arith)
            requires
                s * s == 100_000_000_000_000_000_000_000_000_000_000,
                s == 10_000_000_000_000_000,
        ;
        assert(k == 200_000_800_000_000_000_000_000_000_000_000_000_000);
        assert(k * m0 == 20_000_080_000_000_000_000_000_000_000_000_000_000_000_000_000_000)
            by (nonlinear_arith)
            requires
                k == 200_000_800_000_000_000_000_000_000_000_000_000_000,
                m0 == 100_000_000_000,
        ;
    }
    assert(k * m >= k * m0) by (nonlinear_arith)
        requires
            k >= 0,
            m >= m0,
    ;
    assert(c2 * m0 * m == k * m + 2 * (s * s) * m) by (nonlinear_arith)
        requires
            k == c2 * m0 - 2 * (s * s),
    ;
}

/// The squares of the components of a vector divided by its rounded length
/// `m` add up to about `SCALE^2`: to less than `(SCALE + EPSILON)^2`, and,
/// with twice the components and three added, to more than `SCALE^2`.
proof fn lemma_quotients_bounded(
    ax: int,
    ay: int,
    az: int,
    q: int,
    m: int,
    nx: int,
    ny: int,
    nz: int,
)
    requires
        0 <= ax && 0 <= ay && 0 <= az,
        SCALE * q <= ax * ax + ay * ay + az * az < SCALE * q + 3 * SCALE,
        m >= EPSILON_RAW,
        is_floor_sqrt(q * SCALE, m),
        is_quotient(ax, m, nx),
        is_quotient(ay, m, ny),
        is_quotient(az, m, nz),
    ensures
        nx * nx + ny * ny + nz * nz < (SCALE + EPSILON_RAW) * (SCALE + EPSILON_RAW),
        nx < SCALE + EPSILON_RAW && ny < SCALE + EPSILON_RAW && nz < SCALE + EPSILON_RAW,
        SCALE * SCALE < nx * nx + ny * ny + nz * nz + 2 * (nx + ny + nz) + 3,
        m >= SCALE ==> nx * nx + ny * ny + nz * nz < SCALE * (SCALE + 6),
{
    let s = SCALE as int;
    let e = EPSILON_RAW as int;
    let a2 = ax * ax + ay * ay + az * az;
    let n2 = nx * nx + ny * ny + nz * nz;
    let mm = m * m;
    let ss = s * s;
    let top = (s + e) * (s + e);
    lemma_quotient_squared(ax, m, nx);
    lemma_quotient_squared(ay, m, ny);
    lemma_quotient_squared(az, m, nz);
    lemma_room_for_rounding(m);
    assert(mm > 0) by (nonlinear_arith)
        requires
            mm == m * m,
            m > 0,
    ;
    assert(q * s == s * q) by (nonlinear_arith);
    // the squares of the quotients against the square of the vector
    assert(n2 * mm <= a2 * ss) by (nonlinear_arith)
        requires
            nx * nx * mm <= ax * ax * ss,
            ny * ny * mm <= ay * ay * ss,
            nz * nz * mm <= az * az * ss,
            n2 == nx * nx + ny * ny + nz * nz,
            a2 == ax * ax + ay * ay + az * az,
    ;
    let n2up = (nx + 1) * (nx + 1) + (ny + 1) * (ny + 1) + (nz + 1) * (nz + 1);
    assert(a2 * ss < n2up * mm) by (nonlinear_arith)
        requires
            ax * ax * ss < (nx + 1) * (nx + 1) * mm,
            ay * ay * ss < (ny + 1) * (ny + 1) * mm,
            az * az * ss < (nz + 1) * (nz + 1) * mm,
            n2up == (nx + 1) * (nx + 1) + (ny + 1) * (ny + 1) + (nz + 1) * (nz + 1),
            a2 == ax * ax + ay * ay + az * az,
    ;
    // from above
    assert(a2 < (m + 1) * (m + 1) + 3 * s);
    assert(a2 * ss < ((m + 1) * (m + 1) + 3 * s) * ss) by (nonlinear_arith)
        requires
            a2 < (m + 1) * (m + 1) + 3 * s,
            ss > 0,
    ;
    assert(((m + 1) * (m + 1) + 3 * s) * ss == s * s * ((m + 1) * (m + 1) + 3 * s))
        by (nonlinear_arith)
        requires
            ss == s * s,
    ;
    assert(n2 * mm < top * mm);
    assert(n2 < top) by (nonlinear_arith)
        requires
            n2 * mm < top * mm,
            mm > 0,
    ;
    assert(nx < s + e && ny < s + e && nz < s + e) by (nonlinear_arith)
        requires
            nx * nx + ny * ny + nz * nz < top,
            top == (s + e) * (s + e),
            nx >= 0,
            ny >= 0,
            nz >= 0,
            s + e >= 0,
    ;
    if m >= s {
        // a vector at least one long leaves less room
        let room = s * ((m + 1) * (m + 1) + 3 * s);
        assert(room <= (s + 6) * mm) by (nonlinear_arith)
            requires
                room == s * ((m + 1) * (m + 1) + 3 * s),
                mm == m * m,
                m >= s,
                s >= 1,
        ;
        assert(((m + 1) * (m + 1) + 3 * s) * ss == s * room) by (nonlinear_arith)
            requires
                room == s * ((m + 1) * (m + 1) + 3 * s),
                ss == s * s,
        ;
        assert(s * room <= s * ((s + 6) * mm)) by (nonlinear_arith)
            requires
                room <= (s + 6) * mm,
                s > 0,
        ;
        assert(s * ((s + 6) * mm) == (s * (s + 6)) * mm) by (nonlinear_arith);
        assert(n2 < s * (s + 6)) by (nonlinear_arith)
            requires
                n2 * mm < (s * (s + 6)) * mm,
                mm > 0,
        ;
    }
    // from below
    assert(mm <= a2);
    assert(mm * ss <= a2 * ss) by (nonlinear_arith)
        requires
            mm <= a2,
            ss >= 0,
    ;
    assert(mm * ss < n2up * mm);
    assert(ss < n2up) by (nonlinear_arith)
        requires
            mm * ss < n2up * mm,
            mm > 0,
    ;
    assert(n2up == n2 + 2 * (nx + ny + nz) + 3) by (nonlinear_arith)
        requires
            n2up == (nx + 1) * (nx + 1) + (ny + 1) * (ny + 1) + (nz + 1) * (nz + 1),
            n2 == nx * nx + ny * ny + nz * nz,
    ;
}

/// The rounded root `mp` of a sum of squares that lies about `SCALE^2`, as
/// `lemma_quotients_bounded` has it, lies within the tolerance of `SCALE`.
proof fn lemma_root_near_one(nx: int, ny: int, nz: int, qp: int, mp: int)
    requires
        0 <= nx < SCALE + EPSILON_RAW,
        0 <= ny < SCALE + EPSILON_RAW,
        0 <= nz < SCALE + EPSILON_RAW,
        nx * nx + ny * ny + nz * nz < (SCALE + EPSILON_RAW) * (SCALE + EPSILON_RAW),
        SCALE * SCALE < nx * nx + ny * ny + nz * nz + 2 * (nx + ny + nz) + 3,
        SCALE * qp <= nx * nx + ny * ny + nz * nz < SCALE * qp + 3 * SCALE,
        is_floor_sqrt(qp * SCALE, mp),
    ensures
        SCALE - EPSILON_RAW < mp < SCALE + EPSILON_RAW,
{
    let s = SCALE as int;
    let e = EPSILON_RAW as int;
    let ss = s * s;
    let top = (s + e) * (s + e);
    assert(qp * s == s * qp) by (nonlinear_arith);
    assert(mp * mp < top);
    assert(mp < s + e) by (nonlinear_arith)
        requires
            mp * mp < top,
            top == (s + e) * (s + e),
            mp >= 0,
            s + e >= 0,
    ;
    assert((mp + 1) * (mp + 1) > ss - 6 * (s + e) - 3 - 3 * s);
    if mp <= s - e {
        assert((mp + 1) * (mp + 1) <= (s - e + 1) * (s - e + 1)) by (nonlinear_arith)
            requires
                0 <= mp + 1 <= s - e + 1,
        ;
        assert((s - e + 1) * (s - e + 1) == ss - 2 * s * (e - 1) + (e - 1) * (e - 1))
            by (nonlinear_arith)
            requires
                ss == s * s,
        ;
        assert(s * (e - 1) == 999_999_999_990_000_000_000_000_000) by (nonlinear_arith)
            requires
                s == 10_000_000_000_000_000,
                e == 100_000_000_000,
        ;
        assert((e - 1) * (e - 1) == 9_999_999_999_800_000_000_001) by (nonlinear_arith)
            requires
                e == 100_000_000_000,
        ;
        assert(false);
    }
}

/// A vector divided by its length has the length one, up to the tolerance,
/// if it is at least as long as the tolerance and none of its components
/// exceeds a hundred million in magnitude. (Much shorter vectors lose too
/// much to rounding: the vector without any length stays as it is.)
pub proof fn lemma_normalized_is_unit(v: TupleView)
    requires
        magnitude(v.x) <= normalizable_bound(),
        magnitude(v.y) <= normalizable_bound(),
        magnitude(v.z) <= normalizable_bound(),
        v.magnitude() >= normalizable_length(),
    ensures
        near_raw(v.normalized().magnitude(), SCALE as int),
{
    let s = SCALE as int;
    let e = EPSILON_RAW as int;
    let bound = normalizable_bound();
    let ax = magnitude(v.x);
    let ay = magnitude(v.y);
    let az = magnitude(v.z);
    // the length of the vector
    assert(3 * (bound * bound) <= LIMIT * SCALE) by (nonlinear_arith)
        requires
            bound == 100_000_000 * 10_000_000_000_000_000,
            LIMIT == 10_000_000_000_000_000_000_000_000_000_000_000,
            SCALE == 10_000_000_000_000_000,
    ;
    lemma_sum_of_squares(v.x, v.y, v.z, bound);
    let q = mul_raw(v.x, v.x) + mul_raw(v.y, v.y) + mul_raw(v.z, v.z);
    let m = v.magnitude();
    assert(m == sqrt_raw(q));
    assert(q > 0);
    assert(q * s >= 0) by (nonlinear_arith)
        requires
            q > 0,
            s > 0,
    ;
    lemma_floor_sqrt_exists(q * s);
    // the components of the quotient
    let nx = (ax * s) / m;
    let ny = (ay * s) / m;
    let nz = (az * s) / m;
    lemma_quotient_of(ax, m);
    lemma_quotient_of(ay, m);
    lemma_quotient_of(az, m);
    lemma_quotients_bounded(ax, ay, az, q, m, nx, ny, nz);
    lemma_quotient_magnitude(v.x, m);
    lemma_quotient_magnitude(v.y, m);
    lemma_quotient_magnitude(v.z, m);
    let n = v.normalized();
    // the length of the quotient
    let small = s + e;
    assert(3 * (small * small) <= LIMIT * SCALE) by (nonlinear_arith)
        requires
            small == 10_000_000_000_000_000 + 100_000_000_000,
            LIMIT == 10_000_000_000_000_000_000_000_000_000_000_000,
            SCALE == 10_000_000_000_000_000,
    ;
    lemma_sum_of_squares(n.x, n.y, n.z, small);
    let qp = mul_raw(n.x, n.x) + mul_raw(n.y, n.y) + mul_raw(n.z, n.z);
    let mp = n.magnitude();
    assert(mp == sqrt_raw(qp));
    assert(qp * s >= 0) by (nonlinear_arith)
        requires
            qp >= 0,
            s > 0,
    ;
    lemma_floor_sqrt_exists(qp * s);
    assert(is_floor_sqrt(qp * s, mp)) by {
        if qp == 0 {
            assert(qp * s == 0) by (nonlinear_arith)
                requires
                    qp == 0,
            ;
            assert(is_floor_sqrt(0, 0));
        }
    }
    lemma_root_near_one(nx, ny, nz, qp, mp);
}

/// The square of the normalized form of a vector that is at least one long,
/// as the dot product computes it, lies within ten units of one, and no
/// component of the normalized form exceeds one by more than the tolerance.
pub proof fn lemma_normalized_squares_to_one(v: TupleView)
    requires
        v.w == 0,
        magnitude(v.x) <= normalizable_bound(),
        magnitude(v.y) <= normalizable_bound(),
        magnitude(v.z) <= normalizable_bound(),
        v.magnitude() >= SCALE,
    ensures
        v.normalized().w == 0,
        magnitude(v.normalized().x) < SCALE + EPSILON_RAW,
        magnitude(v.normalized().y) < SCALE + EPSILON_RAW,
        magnitude(v.normalized().z) < SCALE + EPSILON_RAW,
        magnitude(v.normalized().dot(v.normalized()) - SCALE) <= 10,
{
    let s = SCALE as int;
    let e = EPSILON_RAW as int;
    let bound = normalizable_bound();
    let ax = magnitude(v.x);
    let ay = magnitude(v.y);
    let az = magnitude(v.z);
    assert(3 * (bound * bound) <= LIMIT * SCALE) by (nonlinear_arith)
        requires
            bound == 100_000_000 * 10_000_000_000_000_000,
            LIMIT == 10_000_000_000_000_000_000_000_000_000_000_000,
            SCALE == 10_000_000_000_000_000,
    ;
    lemma_sum_of_squares(v.x, v.y, v.z, bound);
    let q = mul_raw(v.x, v.x) + mul_raw(v.y, v.y) + mul_raw(v.z, v.z);
    let m = v.magnitude();
    assert(m == sqrt_raw(q));
    assert(q > 0);
    assert(q * s >= 0) by (nonlinear_arith)
        requires
            q > 0,
            s > 0,
    ;
    lemma_floor_sqrt_exists(q * s);
    let nx = (ax * s) / m;
    let ny = (ay * s) / m;
    let nz = (az * s) / m;
    lemma_quotient_of(ax, m);
    lemma_quotient_of(ay, m);
    lemma_quotient_of(az, m);
    lemma_quotients_bounded(ax, ay, az, q, m, nx, ny, nz);
    lemma_quotient_magnitude(v.x, m);
    lemma_quotient_magnitude(v.y, m);
    lemma_quotient_magnitude(v.z, m);
    let n = v.normalized();
    crate::scalar::lemma_div_of_zero_and_self(m);
    lemma_mul_by_zero(0);
    let small = s + e;
    assert(3 * (small * small) <= LIMIT * SCALE) by (nonlinear_arith)
        requires
            small == 10_000_000_000_000_000 + 100_000_000_000,
            LIMIT == 10_000_000_000_000_000_000_000_000_000_000_000,
            SCALE == 10_000_000_000_000_000,
    ;
    lemma_sum_of_squares(n.x, n.y, n.z, small);
    let a = mul_raw(n.x, n.x) + mul_raw(n.y, n.y) + mul_raw(n.z, n.z);
    assert(n.dot(n) == a);
    let n2 = nx * nx + ny * ny + nz * nz;
    // SCALE a <= n2 < SCALE (SCALE + 6), and SCALE^2 - 6 (SCALE + EPSILON) - 3 < n2 < SCALE a + 3 SCALE
    assert(s * (s + 6) == s * s + 6 * s) by (nonlinear_arith);
    assert(a <= s + 5) by (nonlinear_arith)
        requires
            s * a < s * s + 6 * s,
            s > 0,
    ;
    assert(a >= s - 9) by (nonlinear_arith)
        requires
            s * a + 3 * s > s * s - 6 * (s + e) - 3,
            e == 100_000_000_000,
            s == 10_000_000_000_000_000,
    ;
}

/// The sum of the rounded squares of three numbers within a bound: it is
/// not clamped, and `SCALE` times the sum is at most the exact sum of the
/// squares, and less than three times `SCALE` below it.
pub proof fn lemma_sum_of_squares(x: int, y: int, z: int, bound: int)
    requires
        magnitude(x) <= bound,
        magnitude(y) <= bound,
        magnitude(z) <= bound,
        3 * (bound * bound) <= LIMIT * SCALE,
    ensures
        ({
            let q = mul_raw(x, x) + mul_raw(y, y) + mul_raw(z, z);
            let exact = magnitude(x) * magnitude(x) + magnitude(y) * magnitude(y) + magnitude(z)
                * magnitude(z);
            &&& 0 <= q <= LIMIT
            &&& add_raw(add_raw(mul_raw(x, x), mul_raw(y, y)), mul_raw(z, z)) == q
            &&& SCALE * q <= exact < SCALE * q + 3 * SCALE
        }),
{
    let s = SCALE as int;
    let ax = magnitude(x);
    let ay = magnitude(y);
    let az = magnitude(z);
    assert(bound * bound >= 0) by (nonlinear_arith);
    lemma_square_bounds(x, bound);
    lemma_square_bounds(y, bound);
    lemma_square_bounds(z, bound);
    let sx = mul_raw(x, x);
    let sy = mul_raw(y, y);
    let sz = mul_raw(z, z);
    assert(ax * ax <= bound * bound && ay * ay <= bound * bound && az * az <= bound * bound)
        by (nonlinear_arith)
        requires
            0 <= ax <= bound,
            0 <= ay <= bound,
            0 <= az <= bound,
    ;
    assert(s * (sx + sy + sz) == s * sx + s * sy + s * sz) by (nonlinear_arith);
    let q = sx + sy + sz;
    assert(q <= LIMIT) by {
        if q > LIMIT {
            assert(s * q > LIMIT * s) by (nonlinear_arith)
                requires
                    q > LIMIT,
                    s > 0,
            ;
        }
    }
}

/// The magnitude of a quotient that is within range.
proof fn lemma_quotient_magnitude(x: int, m: int)
    requires
        0 < m,
        0 <= (magnitude(x) * SCALE) / m <= LIMIT,
    ensures
        magnitude(div_raw(x, m)) == (magnitude(x) * SCALE) / m,
{
    let n = (magnitude(x) * SCALE) / m;
    assert(1 * n == n && -1 * n == -n) by (nonlinear_arith);
}

/// The quotient `a * SCALE / m` is a quotient.
proof fn lemma_quotient_of(a: int, m: int)
    requires
        0 <= a,
        0 < m,
    ensures
        is_quotient(a, m, (a * SCALE) / m),
{
    let s = SCALE as int;
    assert(a * s >= 0) by (nonlinear_arith)
        requires
            a >= 0,
            s > 0,
    ;
    vstd::arithmetic::div_mod::lemma_fundamental_div_mod(a * s, m);
    vstd::arithmetic::div_mod::lemma_div_pos_is_pos(a * s, m);
    let n = (a * s) / m;
    assert(n * m == m * n) by (nonlinear_arith);
}

/// The direction of a vector has the length one, up to the tolerance, for
/// every vector but the zero vector, and is a vector.
pub proof fn lemma_direction_is_unit(v: TupleView)
    ensures
        v.w == 0 ==> v.direction().w == 0,
        v.x != 0 || v.y != 0 || v.z != 0 ==> near_raw(v.direction().magnitude(), SCALE as int),
{
    let s = SCALE as int;
    crate::scalar::lemma_div_of_zero_and_self(v.magnitude());
    if v.normalizes_well() {
        lemma_normalized_is_unit(v);
    } else {
        let largest = v.largest_component();
        let u = v.divided(largest);
        crate::scalar::lemma_div_of_zero_and_self(largest);
        crate::scalar::lemma_div_of_zero_and_self(u.magnitude());
        if v.x != 0 || v.y != 0 || v.z != 0 {
            assert(largest > 0);
            lemma_component_over_largest(v.x, largest);
            lemma_component_over_largest(v.y, largest);
            lemma_component_over_largest(v.z, largest);
            assert(3 * (s * s) <= LIMIT * SCALE) by (nonlinear_arith)
                requires
                    s == 10_000_000_000_000_000,
                    LIMIT == 10_000_000_000_000_000_000_000_000_000_000_000,
                    SCALE == 10_000_000_000_000_000,
            ;
            lemma_sum_of_squares(u.x, u.y, u.z, s);
            let q = mul_raw(u.x, u.x) + mul_raw(u.y, u.y) + mul_raw(u.z, u.z);
            lemma_mul_by_one(s);
            lemma_mul_by_one(-s);
            crate::scalar::lemma_mul_negated(s, s);
            crate::scalar::lemma_mul_negated(-s, s);
            crate::scalar::lemma_square_bounds(u.x, s);
            crate::scalar::lemma_square_bounds(u.y, s);
            crate::scalar::lemma_square_bounds(u.z, s);
            assert(q >= s);
            assert(q * s >= s * s) by (nonlinear_arith)
                requires
                    q >= s,
                    s > 0,
            ;
            lemma_floor_sqrt_exists(q * s);
            let m = u.magnitude();
            assert(m == floor_sqrt(q * s));
            if m < s {
                assert((m + 1) * (m + 1) <= s * s) by (nonlinear_arith)
                    requires
                        0 <= m + 1 <= s,
                ;
            }
            lemma_normalized_is_unit(u);
        }
    }
}

/// A component over the largest of the components lies between minus one
/// and one, and the largest component over itself is one.
pub proof fn lemma_component_over_largest(x: int, largest: int)
    requires
        0 < largest,
        magnitude(x) <= largest,
    ensures
        magnitude(div_raw(x, largest)) <= SCALE,
        magnitude(x) == largest ==> magnitude(div_raw(x, largest)) == SCALE,
{
    let s = SCALE as int;
    let a = magnitude(x);
    lemma_quotient_of(a, largest);
    let n = (a * s) / largest;
    assert(n <= s) by {
        if n > s {
            assert(n * largest >= (s + 1) * largest) by (nonlinear_arith)
                requires
                    n >= s + 1,
                    largest > 0,
            ;
            assert(a * s <= largest * s) by (nonlinear_arith)
                requires
                    0 <= a <= largest,
                    s > 0,
            ;
            assert((s + 1) * largest == largest * s + largest) by (nonlinear_arith);
        }
    }
    lemma_quotient_magnitude(x, largest);
    if a == largest {
        assert(a * s == s * largest) by (nonlinear_arith)
            requires
                a == largest,
        ;
        vstd::arithmetic::div_mod::lemma_div_multiples_vanish(s, largest);
    }
}

/// A vector mirrored about the upward normal `(0, 1, 0)` keeps its x and z
/// components and has its y component negated, where twice that component
/// is within range.
pub proof fn lemma_reflect_off_ground(v: TupleView)
    requires
        -LIMIT <= v.x <= LIMIT,
        -LIMIT <= 2 * v.y <= LIMIT,
        -LIMIT <= v.z <= LIMIT,
        -LIMIT <= v.w <= LIMIT,
    ensures
        v.reflected(TupleView { x: 0, y: SCALE as int, z: 0, w: 0 }) == (TupleView {
            x: v.x,
            y: -v.y,
            z: v.z,
            w: v.w,
        }),
{
    let up = TupleView { x: 0, y: SCALE as int, z: 0, w: 0 };
    lemma_mul_by_zero(v.x);
    lemma_mul_by_zero(v.z);
    lemma_mul_by_zero(v.w);
    lemma_mul_by_one(v.y);
    assert(v.dot(up) == v.y);
    lemma_mul_by_whole(2, v.y);
    let twice = mul_raw(2 * SCALE, v.y);
    assert(twice == 2 * v.y);
    lemma_mul_by_zero(twice);
    lemma_mul_by_one(twice);
}

} // verus!
