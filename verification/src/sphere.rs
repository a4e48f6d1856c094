//! The unit sphere about the origin.

use vstd::prelude::*;
use crate::material::Material;
use crate::matrix::{inverse_view, invertible, Matrix4};
use crate::ray::{Ray, RayView};
use crate::scalar::{
    add_raw, div_raw, floor_sqrt, is_floor_sqrt, lemma_div_by_whole, lemma_floor_sqrt_exists,
    lemma_floor_sqrt_unique, lemma_mul_by_one, lemma_mul_by_whole, lemma_mul_by_zero,
    lemma_product_error, lemma_square_bounds, magnitude, mul_raw, near_raw, raws, sqrt_raw,
    sub_raw, Scalar, LIMIT, SCALE,
};
use crate::shape::Shape;
use crate::tuple::{
    lemma_normalized_squares_to_one, lemma_sum_of_squares, normalizable_bound, Tuple, TupleView,
};

verus! {

/// A sphere in the world: its transform with the inverse, and its material.
#[derive(Clone, Copy, Debug)]
pub struct Sphere {
    pub transform: Matrix4,
    pub inverse_transform: Matrix4,
    pub material: Material,
}

/// The center of the sphere: the origin.
pub open spec fn center() -> TupleView {
    TupleView { x: 0, y: 0, z: 0, w: SCALE as int }
}

/// The coefficients `(a, b, c)` of the quadratic `|o + t d|^2 = 1` in `t`.
pub open spec fn sphere_quadratic(ray: RayView) -> (int, int, int) {
    let sphere_to_ray = ray.origin.minus(center());
    (
        ray.direction.dot(ray.direction),
        mul_raw(2 * SCALE, ray.direction.dot(sphere_to_ray)),
        sub_raw(sphere_to_ray.dot(sphere_to_ray), SCALE as int),
    )
}

/// `b^2 - 4ac`
pub open spec fn discriminant(a: int, b: int, c: int) -> int {
    sub_raw(mul_raw(b, b), mul_raw(mul_raw(4 * SCALE, a), c))
}

/// The roots of the quadratic: none for a ray whose direction has no length
/// or where the discriminant is negative, one where the discriminant is
/// zero, else the one with the root of the discriminant subtracted before the
/// one with it added.
pub open spec fn sphere_hits(ray: RayView) -> Seq<int> {
    let (a, b, c) = sphere_quadratic(ray);
    let d = discriminant(a, b, c);
    if a == 0 {
        seq![]
    } else if d < 0 {
        seq![]
    } else if d == 0 {
        seq![div_raw(div_raw(-b, 2 * SCALE), a)]
    } else {
        seq![
            div_raw(div_raw(sub_raw(-b, sqrt_raw(d)), 2 * SCALE), a),
            div_raw(div_raw(add_raw(-b, sqrt_raw(d)), 2 * SCALE), a),
        ]
    }
}

impl Sphere {
    /// Whether the stored inverse is the inverse of the transform.
    pub open spec fn wf(&self) -> bool {
        invertible(self.transform@) && self.inverse_transform@ == inverse_view(self.transform@)
    }

    /// A sphere with the given transform, which has to have an inverse.
    pub fn new(transform: Matrix4, material: Material) -> (s: Sphere)
        requires
            invertible(transform@),
        ensures
            s.wf(),
            s.transform == transform,
            s.material == material,
    {
        Sphere { transform, inverse_transform: transform.inverse().unwrap(), material }
    }
}

impl Shape for Sphere {
    open spec fn hits(&self, local_ray: RayView) -> Seq<int> {
        sphere_hits(local_ray)
    }

    open spec fn normal(&self, local_point: TupleView) -> TupleView {
        local_point.minus(center())
    }

    fn intersect(&self, local_ray: &Ray) -> (ts: Vec<Scalar>) {
        let zero = Scalar::zero();
        let two = Scalar::from_int(2);
        let four = Scalar::from_int(4);
        let sphere_to_ray = local_ray.origin.subtract(Tuple::point(zero, zero, zero));
        let a = local_ray.direction.dot(local_ray.direction);
        let b = two.mul(local_ray.direction.dot(sphere_to_ray));
        let c = sphere_to_ray.dot(sphere_to_ray).sub(Scalar::one());
        let discriminant = b.mul(b).sub(four.mul(a).mul(c));

        let mut ts: Vec<Scalar> = Vec::new();
        if !a.equals(zero) && discriminant.equals(zero) {
            ts.push(b.neg().div(two).div(a));
        } else if !a.equals(zero) && discriminant.gt(zero) {
            ts.push(b.neg().sub(discriminant.sqrt()).div(two).div(a));
            ts.push(b.neg().add(discriminant.sqrt()).div(two).div(a));
        }
        assert(raws(ts@) =~= sphere_hits(local_ray@));
        ts
    }

    fn normal_at(&self, local_point: Tuple) -> (n: Tuple) {
        let zero = Scalar::zero();
        local_point.subtract(Tuple::point(zero, zero, zero))
    }
}

/// A ray that runs along the z axis with a direction of length one meets the
/// unit sphere twice: one unit before and one unit behind the point where it
/// passes the center. The origin may lie up to a hundred million units from
/// the center.
pub proof fn lemma_ray_through_center(z: int)
    requires
        magnitude(z) <= 100_000_000 * SCALE,
    ensures
        sphere_hits(
            RayView {
                origin: TupleView { x: 0, y: 0, z: z, w: SCALE as int },
                direction: TupleView { x: 0, y: 0, z: SCALE as int, w: 0 },
            },
        ) == seq![-z - SCALE, -z + SCALE],
{
    let s = SCALE as int;
    let ray = RayView {
        origin: TupleView { x: 0, y: 0, z: z, w: s },
        direction: TupleView { x: 0, y: 0, z: s, w: 0 },
    };
    let bound = 100_000_000 * s;
    assert(bound * bound <= LIMIT * SCALE && 4 * (bound * bound) <= LIMIT * SCALE)
        by (nonlinear_arith)
        requires
            bound == 100_000_000 * 10_000_000_000_000_000,
            LIMIT == 10_000_000_000_000_000_000_000_000_000_000_000,
            SCALE == 10_000_000_000_000_000,
    ;
    lemma_mul_by_zero(0);
    lemma_mul_by_zero(z);
    lemma_mul_by_zero(s);
    lemma_mul_by_one(s);
    lemma_mul_by_one(z);
    let (a, b, c) = sphere_quadratic(ray);
    assert(a == s);
    lemma_mul_by_whole(2, z);
    assert(b == 2 * z);
    // the square of the distance from the center
    lemma_square_bounds(z, bound);
    let zz = mul_raw(z, z);
    let m = magnitude(z);
    assert(m * m <= bound * bound) by (nonlinear_arith)
        requires
            0 <= m <= bound,
    ;
    assert(zz <= 100_000_000 * bound) by {
        if zz > 100_000_000 * bound {
            assert(s * zz > s * (100_000_000 * bound)) by (nonlinear_arith)
                requires
                    zz > 100_000_000 * bound,
                    s > 0,
            ;
            assert(s * (100_000_000 * bound) == bound * bound) by (nonlinear_arith)
                requires
                    bound == 100_000_000 * s,
            ;
        }
    }
    assert(c == zz - s);
    // the discriminant is four, up to the rounding of the squares
    lemma_square_bounds(2 * z, 2 * bound);
    let bb = mul_raw(b, b);
    assert(magnitude(2 * z) == 2 * m);
    assert((2 * m) * (2 * m) == 4 * (m * m)) by (nonlinear_arith);
    lemma_mul_by_whole(4, s);
    lemma_mul_by_whole(4, c);
    assert(mul_raw(mul_raw(4 * s, a), c) == 4 * c);
    let d = discriminant(a, b, c);
    assert(d == bb - 4 * c);
    assert(4 * s <= d <= 4 * s + 3) by {
        assert(s * bb <= 4 * (m * m) < s * bb + s);
        assert(s * zz <= m * m < s * zz + s);
        assert(s * (bb - 4 * zz) == s * bb - 4 * (s * zz)) by (nonlinear_arith);
        let gap = bb - 4 * zz;
        assert(-s < s * gap < 4 * s);
        assert(0 <= gap <= 3) by (nonlinear_arith)
            requires
                -s < s * gap < 4 * s,
                s > 0,
        ;
    }
    // its root is two
    assert(is_floor_sqrt(d * s, 2 * s)) by {
        assert((2 * s) * (2 * s) == 4 * s * s) by (nonlinear_arith);
        assert((2 * s + 1) * (2 * s + 1) == 4 * s * s + 4 * s + 1) by (nonlinear_arith);
        assert(4 * s * s <= d * s <= (4 * s + 3) * s) by (nonlinear_arith)
            requires
                4 * s <= d <= 4 * s + 3,
                s > 0,
        ;
        assert((4 * s + 3) * s == 4 * s * s + 3 * s) by (nonlinear_arith);
    }
    assert(d * s >= 0) by (nonlinear_arith)
        requires
            d >= 0,
            s > 0,
    ;
    lemma_floor_sqrt_exists(d * s);
    lemma_floor_sqrt_unique(d * s, 2 * s, crate::scalar::floor_sqrt(d * s));
    assert(sqrt_raw(d) == 2 * s);
    // the two roots
    assert(sub_raw(-b, 2 * s) == 2 * (-z - s));
    assert(add_raw(-b, 2 * s) == 2 * (-z + s));
    lemma_div_by_whole(2, -z - s);
    lemma_div_by_whole(2, -z + s);
    lemma_div_by_whole(1, -z - s);
    lemma_div_by_whole(1, -z + s);
    assert(1 * (-z - s) == -z - s && 1 * (-z + s) == -z + s && 1 * s == s);
    assert(sphere_hits(ray) =~= seq![-z - SCALE, -z + SCALE]);
}

/// How far the linear coefficient of a quadratic may lie from that of a ray
/// of speed one through the center for `lemma_roots_about_center` to speak:
/// a millionth of a unit.
pub open spec fn coefficient_slack() -> int {
    10_000_000_000
}

/// How far the discriminant may lie from four for `lemma_roots_about_center`
/// to speak: twice the tolerance.
pub open spec fn discriminant_slack() -> int {
    200_000_000_000
}

/// The root of a number about four lies a third as near to two as the number
/// to four, and one unit.
proof fn lemma_root_about_two(d: int)
    requires
        magnitude(d - 4 * SCALE) <= discriminant_slack(),
    ensures
        magnitude(sqrt_raw(d) - 2 * SCALE) <= magnitude(d - 4 * SCALE) / 3 + 1,
{
    let s = SCALE as int;
    let delta = magnitude(d - 4 * s);
    let x = delta / 3 + 1;
    let n = d * s;
    assert(n == 4 * s * s + (d - 4 * s) * s) by (nonlinear_arith)
        requires
            n == d * s,
    ;
    assert(-delta * s <= (d - 4 * s) * s <= delta * s) by (nonlinear_arith)
        requires
            -delta <= d - 4 * s <= delta,
            s > 0,
    ;
    assert(n >= 0) by (nonlinear_arith)
        requires
            n >= 4 * s * s - delta * s,
            0 <= delta <= s,
            s > 0,
    ;
    lemma_floor_sqrt_exists(n);
    let r = floor_sqrt(n);
    let low = 2 * s - x;
    let high = 2 * s + x;
    assert(low * low == 4 * s * s - 4 * s * x + x * x) by (nonlinear_arith)
        requires
            low == 2 * s - x,
    ;
    assert(high * high == 4 * s * s + 4 * s * x + x * x) by (nonlinear_arith)
        requires
            high == 2 * s + x,
    ;
    assert(delta + 1 <= 3 * x <= delta + 3);
    assert(x * x <= s * x) by (nonlinear_arith)
        requires
            0 <= x <= s,
    ;
    assert(x * x >= 0) by (nonlinear_arith);
    assert(4 * s * x == s * (3 * x) + s * x) by (nonlinear_arith);
    assert(s * (3 * x) >= s * (delta + 1)) by (nonlinear_arith)
        requires
            3 * x >= delta + 1,
            s > 0,
    ;
    assert(s * (delta + 1) == delta * s + s) by (nonlinear_arith);
    assert(low * low <= n);
    assert(high * high > n);
    if r < low {
        assert((r + 1) * (r + 1) <= low * low) by (nonlinear_arith)
            requires
                0 <= r + 1 <= low,
        ;
    }
    if r >= high {
        assert(r * r >= high * high) by (nonlinear_arith)
            requires
                r >= high,
                high >= 0,
        ;
    }
}

/// Half of a number, rounded toward zero, lies within one unit of the
/// number when doubled.
proof fn lemma_half(x: int)
    requires
        -LIMIT <= x <= LIMIT,
    ensures
        magnitude(2 * div_raw(x, 2 * SCALE) - x) <= 1,
        magnitude(div_raw(x, 2 * SCALE)) <= magnitude(x),
{
    let s = SCALE as int;
    let m = magnitude(x);
    assert(m * s == s * m) by (nonlinear_arith);
    vstd::arithmetic::div_mod::lemma_div_denominator(s * m, s, 2);
    vstd::arithmetic::div_mod::lemma_div_multiples_vanish(m, s);
    assert(s * 2 == 2 * s);
    assert((m * s) / (2 * s) == m / 2);
    let h = m / 2;
    assert(1 * h == h && -1 * h == -h) by (nonlinear_arith);
}

/// A quotient by a number about one lies near the dividend: for a dividend
/// of at most two million and a divisor within a thousand units of one,
/// within four billion units.
proof fn lemma_quotient_about_dividend(h: int, a: int)
    requires
        magnitude(h) <= 2_000_000 * SCALE,
        magnitude(a - SCALE) <= 1000,
    ensures
        magnitude(div_raw(h, a) - h) <= 4_000_000_000,
{
    let s = SCALE as int;
    let m = magnitude(h);
    let n = m * s;
    assert(0 <= n <= 2_000_000 * s * s) by (nonlinear_arith)
        requires
            n == m * s,
            0 <= m <= 2_000_000 * s,
            s > 0,
    ;
    vstd::arithmetic::div_mod::lemma_fundamental_div_mod(n, a);
    vstd::arithmetic::div_mod::lemma_div_pos_is_pos(n, a);
    let t = n / a;
    let bound = 4_000_000_000int;
    // a t <= m s < a t + a, and a lies within a thousand of s
    assert(a * t <= n < a * t + a);
    if t > m + bound {
        assert(a * t >= a * (m + bound + 1)) by (nonlinear_arith)
            requires
                t >= m + bound + 1,
                a > 0,
        ;
        assert(a * (m + bound + 1) == a * m + a * (bound + 1)) by (nonlinear_arith);
        assert(a * m >= s * m - 1000 * m) by (nonlinear_arith)
            requires
                a >= s - 1000,
                m >= 0,
        ;
        assert(a * (bound + 1) >= (s - 1000) * (bound + 1)) by (nonlinear_arith)
            requires
                a >= s - 1000,
                bound >= 0,
        ;
        assert(s * m == m * s) by (nonlinear_arith);
        assert(false);
    }
    if t < m - bound {
        assert(a * t + a <= a * (m - bound)) by (nonlinear_arith)
            requires
                t + 1 <= m - bound,
                a > 0,
        ;
        assert(a * (m - bound) == a * m - a * bound) by (nonlinear_arith);
        assert(a * m <= s * m + 1000 * m) by (nonlinear_arith)
            requires
                a <= s + 1000,
                m >= 0,
        ;
        assert(a * bound >= (s - 1000) * bound) by (nonlinear_arith)
            requires
                a >= s - 1000,
                bound >= 0,
        ;
        assert(s * m == m * s) by (nonlinear_arith);
        assert(false);
    }
    assert(t <= LIMIT);
    assert(1 * t == t && -1 * t == -t) by (nonlinear_arith);
}

/// A ray whose quadratic is, up to `coefficient_slack` and
/// `discriminant_slack`, that of a ray of speed one that passes the center of
/// the sphere at the parameter `k` meets the sphere twice: one unit before
/// `k` and one unit behind it, up to the tolerance. This holds for `k` up to
/// a million.
pub proof fn lemma_roots_about_center(ray: RayView, k: int)
    requires
        magnitude(k) <= 1_000_000 * SCALE,
        magnitude(sphere_quadratic(ray).0 - SCALE) <= 1000,
        magnitude(sphere_quadratic(ray).1 + 2 * k) <= coefficient_slack(),
        magnitude(
            discriminant(
                sphere_quadratic(ray).0,
                sphere_quadratic(ray).1,
                sphere_quadratic(ray).2,
            ) - 4 * SCALE,
        ) <= discriminant_slack(),
    ensures
        sphere_hits(ray).len() == 2,
        near_raw(sphere_hits(ray)[0], k - SCALE),
        near_raw(sphere_hits(ray)[1], k + SCALE),
        sphere_hits(ray)[0] <= sphere_hits(ray)[1],
{
    let s = SCALE as int;
    let (a, b, c) = sphere_quadratic(ray);
    let d = discriminant(a, b, c);
    lemma_root_about_two(d);
    let root = sqrt_raw(d);
    let before = sub_raw(-b, root);
    let behind = add_raw(-b, root);
    assert(before == -b - root && behind == -b + root);
    lemma_half(before);
    lemma_half(behind);
    let half_before = div_raw(before, 2 * s);
    let half_behind = div_raw(behind, 2 * s);
    lemma_quotient_about_dividend(half_before, a);
    lemma_quotient_about_dividend(half_behind, a);
    assert(sphere_hits(ray) =~= seq![div_raw(half_before, a), div_raw(half_behind, a)]);
}

/// The ray with the direction `d` that passes the center of the sphere at
/// the parameter `k`: it starts `k` times the direction before the center.
pub open spec fn ray_through_center(d: TupleView, k: int) -> RayView {
    RayView { origin: center().minus(d.scaled(k)), direction: d }
}

/// One component of a ray through the center: with `p` the component of the
/// way from the origin to the center and `q` its product with the component
/// of the direction, `q` is about `-k d^2` and `p^2` about `k^2 d^2`, in
/// units of `SCALE^2`.
proof fn lemma_component_through_center(k: int, d: int)
    requires
        magnitude(k) <= 100_000 * SCALE,
        magnitude(d) <= 2 * SCALE,
    ensures
        ({
            let p = mul_raw(k, d);
            let q = mul_raw(d, -p);
            &&& magnitude(p) <= 200_000 * SCALE
            &&& magnitude(q) <= 400_000 * SCALE
            &&& magnitude(SCALE * SCALE * q + k * (d * d)) <= 3 * (SCALE * SCALE)
            &&& magnitude(SCALE * SCALE * (p * p) - (k * k) * (d * d)) <= 400_001 * (SCALE * SCALE
                * SCALE)
        }),
{
    let s = SCALE as int;
    let mk = magnitude(k);
    let md = magnitude(d);
    assert(0 <= mk * md <= 200_000 * (s * s)) by (nonlinear_arith)
        requires
            0 <= mk <= 100_000 * s,
            0 <= md <= 2 * s,
    ;
    assert(200_000 * (s * s) <= LIMIT * SCALE) by (nonlinear_arith)
        requires
            s == 10_000_000_000_000_000,
            LIMIT == 10_000_000_000_000_000_000_000_000_000_000_000,
            SCALE == 10_000_000_000_000_000,
    ;
    lemma_product_error(k, d);
    let p = mul_raw(k, d);
    let t = s * p - k * d;
    assert(-200_000 * (s * s) <= k * d <= 200_000 * (s * s)) by (nonlinear_arith)
        requires
            -100_000 * s <= k <= 100_000 * s,
            -2 * s <= d <= 2 * s,
            s > 0,
    ;
    assert(-200_000 * s <= p <= 200_000 * s) by (nonlinear_arith)
        requires
            -s < s * p - k * d < s,
            -200_000 * (s * s) <= k * d <= 200_000 * (s * s),
            s > 0,
    ;
    let mp = magnitude(-p);
    assert(0 <= md * mp <= 400_000 * (s * s)) by (nonlinear_arith)
        requires
            0 <= md <= 2 * s,
            0 <= mp <= 200_000 * s,
    ;
    assert(400_000 * (s * s) <= LIMIT * SCALE) by (nonlinear_arith)
        requires
            s == 10_000_000_000_000_000,
            LIMIT == 10_000_000_000_000_000_000_000_000_000_000_000,
            SCALE == 10_000_000_000_000_000,
    ;
    lemma_product_error(d, -p);
    let q = mul_raw(d, -p);
    let r = s * q - d * (-p);
    assert(-400_000 * (s * s) <= d * (-p) <= 400_000 * (s * s)) by (nonlinear_arith)
        requires
            -2 * s <= d <= 2 * s,
            -200_000 * s <= -p <= 200_000 * s,
            s > 0,
    ;
    assert(-400_000 * s <= q <= 400_000 * s) by (nonlinear_arith)
        requires
            -s < s * q - d * (-p) < s,
            -400_000 * (s * s) <= d * (-p) <= 400_000 * (s * s),
            s > 0,
    ;
    // SCALE^2 q + k d^2 == SCALE r - d t
    assert(s * s * q + k * (d * d) == s * r - d * t) by (nonlinear_arith)
        requires
            r == s * q - d * (-p),
            t == s * p - k * d,
    ;
    assert(-(s * s) <= s * r <= s * s) by (nonlinear_arith)
        requires
            -s < r < s,
            s > 0,
    ;
    assert(-2 * (s * s) <= d * t <= 2 * (s * s)) by (nonlinear_arith)
        requires
            -2 * s <= d <= 2 * s,
            -s < t < s,
            s > 0,
    ;
    // SCALE^2 p^2 - k^2 d^2 == 2 (k d) t + t^2
    let kd = k * d;
    let sp = s * p;
    assert(sp * sp == kd * kd + 2 * (kd * t) + t * t) by (nonlinear_arith)
        requires
            sp == kd + t,
    ;
    assert(s * s * (p * p) == sp * sp) by (nonlinear_arith)
        requires
            sp == s * p,
    ;
    assert((k * k) * (d * d) == kd * kd) by (nonlinear_arith)
        requires
            kd == k * d,
    ;
    assert(-200_000 * (s * s * s) <= kd * t <= 200_000 * (s * s * s)) by (nonlinear_arith)
        requires
            -200_000 * (s * s) <= kd <= 200_000 * (s * s),
            -s < t < s,
            s > 0,
    ;
    assert(0 <= t * t <= s * s * s) by (nonlinear_arith)
        requires
            -s < t < s,
            s >= 1,
    ;
}

/// The coefficients of the quadratic of a ray through the center, by the
/// components `p` of the way to the center and their products `q` with the
/// components of the direction.
proof fn lemma_quadratic_through_center(d: TupleView, k: int)
    requires
        d.w == 0,
        magnitude(d.x) <= 2 * SCALE,
        magnitude(d.y) <= 2 * SCALE,
        magnitude(d.z) <= 2 * SCALE,
        magnitude(k) <= 100_000 * SCALE,
    ensures
        ({
            let px = mul_raw(k, d.x);
            let py = mul_raw(k, d.y);
            let pz = mul_raw(k, d.z);
            let dot = mul_raw(d.x, -px) + mul_raw(d.y, -py) + mul_raw(d.z, -pz);
            let c0 = mul_raw(-px, -px) + mul_raw(-py, -py) + mul_raw(-pz, -pz);
            sphere_quadratic(ray_through_center(d, k)) == (d.dot(d), 2 * dot, c0 - SCALE)
        }),
        ({
            let px = mul_raw(k, d.x);
            let py = mul_raw(k, d.y);
            let pz = mul_raw(k, d.z);
            let c0 = mul_raw(-px, -px) + mul_raw(-py, -py) + mul_raw(-pz, -pz);
            &&& 0 <= c0
            &&& SCALE * c0 <= px * px + py * py + pz * pz < SCALE * c0 + 3 * SCALE
        }),
{
    let s = SCALE as int;
    let ray = ray_through_center(d, k);
    lemma_mul_by_zero(0);
    lemma_mul_by_zero(k);
    lemma_component_through_center(k, d.x);
    lemma_component_through_center(k, d.y);
    lemma_component_through_center(k, d.z);
    let px = mul_raw(k, d.x);
    let py = mul_raw(k, d.y);
    let pz = mul_raw(k, d.z);
    assert(ray.origin == (TupleView { x: -px, y: -py, z: -pz, w: s }));
    let to_ray = ray.origin.minus(center());
    assert(to_ray == (TupleView { x: -px, y: -py, z: -pz, w: 0 }));
    let dot = mul_raw(d.x, -px) + mul_raw(d.y, -py) + mul_raw(d.z, -pz);
    assert(ray.direction.dot(to_ray) == dot);
    lemma_mul_by_whole(2, dot);
    let bound = 200_000 * s;
    assert(3 * (bound * bound) <= LIMIT * SCALE) by (nonlinear_arith)
        requires
            bound == 200_000 * 10_000_000_000_000_000,
            LIMIT == 10_000_000_000_000_000_000_000_000_000_000_000,
            SCALE == 10_000_000_000_000_000,
    ;
    lemma_sum_of_squares(-px, -py, -pz, bound);
    assert(magnitude(-px) * magnitude(-px) == px * px && magnitude(-py) * magnitude(-py) == py
        * py && magnitude(-pz) * magnitude(-pz) == pz * pz) by (nonlinear_arith)
        requires
            magnitude(-px) == px || magnitude(-px) == -px,
            magnitude(-py) == py || magnitude(-py) == -py,
            magnitude(-pz) == pz || magnitude(-pz) == -pz,
    ;
    let c0 = mul_raw(-px, -px) + mul_raw(-py, -py) + mul_raw(-pz, -pz);
    assert(to_ray.dot(to_ray) == c0);
}

/// A ray of speed one that passes the center of the sphere at the parameter
/// `k` meets the sphere twice: one unit before `k` and one unit behind it,
/// up to the tolerance. The direction may be any vector whose square, as it
/// is computed, lies within ten units of one, and `k` may reach a hundred
/// thousand; beyond that the rounding of the square of the direction, times
/// the square of `k`, uses up the tolerance.
pub proof fn lemma_ray_through_center_anywhere(d: TupleView, k: int)
    requires
        d.w == 0,
        magnitude(d.x) <= 2 * SCALE,
        magnitude(d.y) <= 2 * SCALE,
        magnitude(d.z) <= 2 * SCALE,
        magnitude(d.dot(d) - SCALE) <= 10,
        magnitude(k) <= 100_000 * SCALE,
    ensures
        sphere_hits(ray_through_center(d, k)).len() == 2,
        near_raw(sphere_hits(ray_through_center(d, k))[0], k - SCALE),
        near_raw(sphere_hits(ray_through_center(d, k))[1], k + SCALE),
        sphere_hits(ray_through_center(d, k))[0] <= sphere_hits(ray_through_center(d, k))[1],
{
    let s = SCALE as int;
    let ss = s * s;
    let sss = s * s * s;
    let ray = ray_through_center(d, k);
    lemma_quadratic_through_center(d, k);
    lemma_component_through_center(k, d.x);
    lemma_component_through_center(k, d.y);
    lemma_component_through_center(k, d.z);
    let px = mul_raw(k, d.x);
    let py = mul_raw(k, d.y);
    let pz = mul_raw(k, d.z);
    let qx = mul_raw(d.x, -px);
    let qy = mul_raw(d.y, -py);
    let qz = mul_raw(d.z, -pz);
    let dot = qx + qy + qz;
    let c0 = mul_raw(-px, -px) + mul_raw(-py, -py) + mul_raw(-pz, -pz);
    let a = d.dot(d);
    let b = 2 * dot;
    let c = c0 - s;
    let alpha = a - s;
    assert(sss == ss * s);
    // the square of the direction: dd == SCALE a + rho == SCALE^2 + theta
    let two = 2 * s;
    assert(3 * (two * two) <= LIMIT * SCALE) by (nonlinear_arith)
        requires
            two == 2 * 10_000_000_000_000_000,
            LIMIT == 10_000_000_000_000_000_000_000_000_000_000_000,
            SCALE == 10_000_000_000_000_000,
    ;
    lemma_sum_of_squares(d.x, d.y, d.z, two);
    lemma_mul_by_zero(0);
    let dd = d.x * d.x + d.y * d.y + d.z * d.z;
    assert(magnitude(d.x) * magnitude(d.x) == d.x * d.x && magnitude(d.y) * magnitude(d.y) == d.y
        * d.y && magnitude(d.z) * magnitude(d.z) == d.z * d.z) by (nonlinear_arith)
        requires
            magnitude(d.x) == d.x || magnitude(d.x) == -d.x,
            magnitude(d.y) == d.y || magnitude(d.y) == -d.y,
            magnitude(d.z) == d.z || magnitude(d.z) == -d.z,
    ;
    assert(a == mul_raw(d.x, d.x) + mul_raw(d.y, d.y) + mul_raw(d.z, d.z));
    let theta = dd - ss;
    let rho = dd - s * a;
    let s_alpha = s * alpha;
    assert(s * a == ss + s_alpha) by (nonlinear_arith)
        requires
            alpha == a - s,
            ss == s * s,
            s_alpha == s * alpha,
    ;
    assert(-10 * s <= s_alpha <= 10 * s) by (nonlinear_arith)
        requires
            s_alpha == s * alpha,
            -10 <= alpha <= 10,
            s > 0,
    ;
    assert(0 <= rho < 3 * s);
    assert(s_alpha == theta - rho);
    assert(-13 * s <= theta <= 13 * s);
    // the linear coefficient: SCALE^2 (dot + k) == (SCALE^2 dot + k dd) - k theta
    let beta = dot + k;
    let sum = ss * dot + k * dd;
    assert(sum == (s * s * qx + k * (d.x * d.x)) + (s * s * qy + k * (d.y * d.y)) + (s * s * qz
        + k * (d.z * d.z))) by (nonlinear_arith)
        requires
            sum == ss * dot + k * dd,
            ss == s * s,
            dot == qx + qy + qz,
            dd == d.x * d.x + d.y * d.y + d.z * d.z,
    ;
    assert(-9 * ss <= sum <= 9 * ss);
    let k_theta = k * theta;
    assert(-1_300_000 * ss <= k_theta <= 1_300_000 * ss) by (nonlinear_arith)
        requires
            k_theta == k * theta,
            -100_000 * s <= k <= 100_000 * s,
            -13 * s <= theta <= 13 * s,
            ss == s * s,
            s > 0,
    ;
    let ss_beta = ss * beta;
    assert(ss_beta == sum - k_theta) by (nonlinear_arith)
        requires
            ss_beta == ss * beta,
            beta == dot + k,
            sum == ss * dot + k * dd,
            theta == dd - ss,
            k_theta == k * theta,
    ;
    assert(-1_300_009 <= beta <= 1_300_009) by (nonlinear_arith)
        requires
            -1_300_009 * ss <= ss * beta <= 1_300_009 * ss,
            ss > 0,
    ;
    // the constant coefficient: w == SCALE c0 - k^2
    let kk = k * k;
    let pp = px * px + py * py + pz * pz;
    let w = s * c0 - kk;
    assert(0 <= kk <= 10_000_000_000 * ss) by (nonlinear_arith)
        requires
            kk == k * k,
            -100_000 * s <= k <= 100_000 * s,
            ss == s * s,
    ;
    let spread = ss * pp - kk * dd;
    assert(spread == (s * s * (px * px) - (k * k) * (d.x * d.x)) + (s * s * (py * py) - (k * k)
        * (d.y * d.y)) + (s * s * (pz * pz) - (k * k) * (d.z * d.z))) by (nonlinear_arith)
        requires
            spread == ss * pp - kk * dd,
            ss == s * s,
            kk == k * k,
            pp == px * px + py * py + pz * pz,
            dd == d.x * d.x + d.y * d.y + d.z * d.z,
    ;
    assert(-1_200_003 * sss <= spread <= 1_200_003 * sss);
    let kk_theta = kk * theta;
    assert(-130_000_000_000 * sss <= kk_theta <= 130_000_000_000 * sss) by (nonlinear_arith)
        requires
            kk_theta == kk * theta,
            0 <= kk <= 10_000_000_000 * ss,
            -13 * s <= theta <= 13 * s,
            ss == s * s,
            sss == s * s * s,
            s > 0,
    ;
    let rounding = ss * (s * c0) - ss * pp;
    assert(-3 * sss <= rounding <= 0) by (nonlinear_arith)
        requires
            rounding == ss * (s * c0) - ss * pp,
            s * c0 <= pp < s * c0 + 3 * s,
            ss == s * s,
            sss == s * s * s,
            s > 0,
    ;
    let ss_w = ss * w;
    assert(ss_w == rounding + spread + kk_theta) by (nonlinear_arith)
        requires
            ss_w == ss * w,
            w == s * c0 - kk,
            rounding == ss * (s * c0) - ss * pp,
            spread == ss * pp - kk * dd,
            kk_theta == kk * theta,
            theta == dd - ss,
    ;
    assert(-130_001_200_006 * s <= w <= 130_001_200_006 * s) by (nonlinear_arith)
        requires
            -130_001_200_006 * (ss * s) <= ss * w <= 130_001_200_006 * (ss * s),
            ss > 0,
    ;
    assert(0 <= c0 <= 10_000_000_001 * s) by (nonlinear_arith)
        requires
            s * c0 - kk <= 130_001_200_006 * s,
            0 <= kk <= 10_000_000_000 * (s * s),
            0 <= c0,
            s >= 130_001_200_006,
    ;
    // the terms in the square of k cancel:
    // SCALE^2 (-4 w - 8 k beta - 4 alpha c0)
    //   == -4 (rounding + spread) - 8 k sum - 4 theta w + 4 rho k^2 + 4 rho w
    let k_beta = k * beta;
    let k_sum = k * sum;
    assert(k * k_theta == kk_theta) by (nonlinear_arith)
        requires
            k_theta == k * theta,
            kk_theta == kk * theta,
            kk == k * k,
    ;
    assert(k * ss_beta == k_sum - k * k_theta) by (nonlinear_arith)
        requires
            ss_beta == sum - k_theta,
            k_sum == k * sum,
    ;
    assert(ss * k_beta == k * ss_beta) by (nonlinear_arith)
        requires
            k_beta == k * beta,
            ss_beta == ss * beta,
    ;
    assert(-900_000 * sss <= k_sum <= 900_000 * sss) by (nonlinear_arith)
        requires
            k_sum == k * sum,
            -100_000 * s <= k <= 100_000 * s,
            -9 * ss <= sum <= 9 * ss,
            sss == ss * s,
            ss > 0,
            s > 0,
    ;
    let alpha_c0 = alpha * c0;
    let s_c0 = s * c0;
    assert(ss * alpha_c0 == s_alpha * s_c0) by (nonlinear_arith)
        requires
            alpha_c0 == alpha * c0,
            s_alpha == s * alpha,
            s_c0 == s * c0,
            ss == s * s,
    ;
    let theta_w = theta * w;
    let rho_kk = rho * kk;
    let rho_w = rho * w;
    assert(s_alpha * s_c0 == kk_theta + theta_w - rho_kk - rho_w) by (nonlinear_arith)
        requires
            s_alpha == theta - rho,
            s_c0 == kk + w,
            kk_theta == kk * theta,
            theta_w == theta * w,
            rho_kk == rho * kk,
            rho_w == rho * w,
    ;
    assert(-sss <= theta_w <= sss) by (nonlinear_arith)
        requires
            theta_w == theta * w,
            -13 * s <= theta <= 13 * s,
            -130_001_200_006 * s <= w <= 130_001_200_006 * s,
            sss == s * s * s,
            s >= 13 * 130_001_200_006,
    ;
    assert(0 <= rho_kk <= 30_000_000_000 * sss) by (nonlinear_arith)
        requires
            rho_kk == rho * kk,
            0 <= rho < 3 * s,
            0 <= kk <= 10_000_000_000 * ss,
            sss == ss * s,
            ss > 0,
    ;
    assert(-sss <= rho_w <= sss) by (nonlinear_arith)
        requires
            rho_w == rho * w,
            0 <= rho < 3 * s,
            -130_001_200_006 * s <= w <= 130_001_200_006 * s,
            sss == s * s * s,
            s >= 3 * 130_001_200_006,
    ;
    let y = -4 * w - 8 * k_beta - 4 * alpha_c0;
    assert(ss * y == -4 * ss_w - 8 * (ss * k_beta) - 4 * (ss * alpha_c0)) by (nonlinear_arith)
        requires
            y == -4 * w - 8 * k_beta - 4 * alpha_c0,
            ss_w == ss * w,
    ;
    assert(ss * y == -4 * rounding - 4 * spread - 8 * k_sum - 4 * theta_w + 4 * rho_kk + 4
        * rho_w);
    assert(-120_012_000_040 * s <= y <= 120_012_000_040 * s) by (nonlinear_arith)
        requires
            -120_012_000_040 * (ss * s) <= ss * y <= 120_012_000_040 * (ss * s),
            ss > 0,
    ;
    // the discriminant
    let reach = 300_000 * s;
    assert(reach * reach <= LIMIT * SCALE) by (nonlinear_arith)
        requires
            reach == 300_000 * 10_000_000_000_000_000,
            LIMIT == 10_000_000_000_000_000_000_000_000_000_000_000,
            SCALE == 10_000_000_000_000_000,
    ;
    lemma_square_bounds(b, reach);
    let bb = mul_raw(b, b);
    assert(magnitude(b) * magnitude(b) == b * b) by (nonlinear_arith)
        requires
            magnitude(b) == b || magnitude(b) == -b,
    ;
    assert(0 <= bb <= 90_000_000_000 * s) by (nonlinear_arith)
        requires
            s * bb <= b * b,
            -300_000 * s <= b <= 300_000 * s,
            0 <= bb,
            s > 0,
    ;
    lemma_mul_by_whole(4, a);
    let ac = a * c;
    assert(ac == s * c0 + alpha_c0 - ss - alpha * s) by (nonlinear_arith)
        requires
            ac == a * c,
            a == s + alpha,
            c == c0 - s,
            ss == s * s,
            alpha_c0 == alpha * c0,
    ;
    assert(-100_000_000_010 * s <= alpha_c0 <= 100_000_000_010 * s) by (nonlinear_arith)
        requires
            alpha_c0 == alpha * c0,
            -10 <= alpha <= 10,
            0 <= c0 <= 10_000_000_001 * s,
    ;
    let four_a = 4 * a;
    assert(magnitude(four_a) * magnitude(c) <= LIMIT * SCALE) by (nonlinear_arith)
        requires
            0 <= magnitude(four_a) <= 5 * s,
            0 <= magnitude(c) <= 10_000_000_002 * s,
            s == 10_000_000_000_000_000,
            LIMIT == 10_000_000_000_000_000_000_000_000_000_000_000,
            SCALE == 10_000_000_000_000_000,
    ;
    lemma_product_error(four_a, c);
    let m4 = mul_raw(four_a, c);
    assert(four_a * c == 4 * ac) by (nonlinear_arith)
        requires
            four_a == 4 * a,
            ac == a * c,
    ;
    assert(-50_000_000_100 * s <= m4 <= 50_000_000_100 * s) by (nonlinear_arith)
        requires
            -s < s * m4 - 4 * ac < s,
            ac == s * c0 + alpha_c0 - ss - alpha * s,
            0 <= c0 <= 10_000_000_001 * s,
            -100_000_000_010 * s <= alpha_c0 <= 100_000_000_010 * s,
            -10 <= alpha <= 10,
            ss == s * s,
            s >= 1_000_000_000_000,
    ;
    let disc = discriminant(a, b, c);
    assert(disc == bb - m4);
    let beta2 = beta * beta;
    assert(0 <= beta2 <= 1_690_023_400_081) by (nonlinear_arith)
        requires
            beta2 == beta * beta,
            -1_300_009 <= beta <= 1_300_009,
    ;
    assert(b * b == 4 * kk - 8 * k_beta + 4 * beta2) by (nonlinear_arith)
        requires
            b == 2 * (beta - k),
            kk == k * k,
            k_beta == k * beta,
            beta2 == beta * beta,
    ;
    // SCALE disc - 4 SCALE^2 == (SCALE bb - b^2) + (b^2 - 4 a c - 4 SCALE^2) - (SCALE m4 - 4 a c)
    let off = s * disc - 4 * ss;
    assert(off == (s * bb - b * b) + (y + 4 * beta2 + 4 * s_alpha) - (s * m4 - 4 * ac))
        by (nonlinear_arith)
        requires
            off == s * disc - 4 * ss,
            disc == bb - m4,
            b * b == 4 * kk - 8 * k_beta + 4 * beta2,
            ac == s * c0 + alpha_c0 - ss - alpha * s,
            w == s * c0 - kk,
            y == -4 * w - 8 * k_beta - 4 * alpha_c0,
            s_alpha == s * alpha,
    ;
    assert(-130_000_000_000 * s <= off <= 130_000_000_000 * s);
    assert(-130_000_000_000 <= disc - 4 * s <= 130_000_000_000) by (nonlinear_arith)
        requires
            -130_000_000_000 * s <= s * disc - 4 * (s * s) <= 130_000_000_000 * s,
            s > 0,
    ;
    lemma_roots_about_center(ray, k);
}

/// A ray whose direction is the normalized form of a vector at least one
/// long, and that passes the center of the sphere at the parameter `k`,
/// meets the sphere one unit before `k` and one unit behind it, up to the
/// tolerance.
pub proof fn lemma_unit_ray_through_center(v: TupleView, k: int)
    requires
        v.w == 0,
        magnitude(v.x) <= normalizable_bound(),
        magnitude(v.y) <= normalizable_bound(),
        magnitude(v.z) <= normalizable_bound(),
        v.magnitude() >= SCALE,
        magnitude(k) <= 100_000 * SCALE,
    ensures
        sphere_hits(ray_through_center(v.normalized(), k)).len() == 2,
        near_raw(sphere_hits(ray_through_center(v.normalized(), k))[0], k - SCALE),
        near_raw(sphere_hits(ray_through_center(v.normalized(), k))[1], k + SCALE),
        sphere_hits(ray_through_center(v.normalized(), k))[0] <= sphere_hits(
            ray_through_center(v.normalized(), k),
        )[1],
{
    lemma_normalized_squares_to_one(v);
    lemma_ray_through_center_anywhere(v.normalized(), k);
}

} // verus!
