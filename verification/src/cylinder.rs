//! The cylinder of radius one about the y axis: endless, cut off at two
//! heights, or cut off and closed by caps.

use vstd::prelude::*;
use crate::material::Material;
use crate::matrix::{inverse_view, invertible, Matrix4};
use crate::ray::{Ray, RayView};
use crate::scalar::{
    add_raw, div_raw, magnitude, mul_raw, raws, sqrt_raw, sub_raw, Scalar, EPSILON_RAW, LIMIT,
    SCALE,
};
use crate::shape::Shape;
use crate::tuple::{Tuple, TupleView};

verus! {

/// A cylinder in the world: its bounds along the axis, whether caps close it
/// there, its transform with the inverse, and its material.
#[derive(Clone, Copy, Debug)]
pub struct Cylinder {
    pub transform: Matrix4,
    pub inverse_transform: Matrix4,
    pub material: Material,
    pub minimum: Scalar,
    pub maximum: Scalar,
    pub is_closed: bool,
}

/// The height of the ray at parameter `t`.
pub open spec fn height_at(ray: RayView, t: int) -> int {
    add_raw(ray.origin.y, mul_raw(ray.direction.y, t))
}

/// The parameter `t`, if the ray's height there lies strictly between the
/// two bounds.
pub open spec fn hit_within(ray: RayView, t: int, minimum: int, maximum: int) -> Seq<int> {
    if minimum < height_at(ray, t) < maximum {
        seq![t]
    } else {
        seq![]
    }
}

/// The coefficients `(a, b, c)` of the quadratic `x^2 + z^2 = 1` in `t`.
pub open spec fn wall_quadratic(ray: RayView) -> (int, int, int) {
    let o = ray.origin;
    let d = ray.direction;
    (
        add_raw(mul_raw(d.x, d.x), mul_raw(d.z, d.z)),
        add_raw(mul_raw(mul_raw(2 * SCALE, o.x), d.x), mul_raw(mul_raw(2 * SCALE, o.z), d.z)),
        sub_raw(add_raw(mul_raw(o.x, o.x), mul_raw(o.z, o.z)), SCALE as int),
    )
}

/// `b^2 - 4ac`
pub open spec fn discriminant(a: int, b: int, c: int) -> int {
    sub_raw(mul_raw(b, b), mul_raw(mul_raw(4 * SCALE, a), c))
}

/// The roots of a quadratic with a positive discriminant `d`, the one with
/// the root of `d` subtracted first.
pub open spec fn two_roots(a: int, b: int, d: int) -> (int, int) {
    (
        div_raw(sub_raw(-b, sqrt_raw(d)), mul_raw(2 * SCALE, a)),
        div_raw(add_raw(-b, sqrt_raw(d)), mul_raw(2 * SCALE, a)),
    )
}

/// The hits on the wall: none for a ray parallel to the axis within the
/// tolerance, else the roots of the quadratic at which the ray's height lies
/// strictly between the bounds.
pub open spec fn wall_hits(ray: RayView, minimum: int, maximum: int) -> Seq<int> {
    let (a, b, c) = wall_quadratic(ray);
    let d = discriminant(a, b, c);
    if magnitude(a) < EPSILON_RAW {
        seq![]
    } else if d < 0 {
        seq![]
    } else if d == 0 {
        hit_within(ray, div_raw(-b, mul_raw(2 * SCALE, a)), minimum, maximum)
    } else {
        hit_within(ray, two_roots(a, b, d).0, minimum, maximum) + hit_within(
            ray,
            two_roots(a, b, d).1,
            minimum,
            maximum,
        )
    }
}

/// Whether the ray at parameter `t` is within radius one of the axis.
pub open spec fn within_cap(ray: RayView, t: int) -> bool {
    let x = add_raw(ray.origin.x, mul_raw(t, ray.direction.x));
    let z = add_raw(ray.origin.z, mul_raw(t, ray.direction.z));
    add_raw(mul_raw(x, x), mul_raw(z, z)) <= SCALE
}

/// The parameter at which the ray reaches height `y`.
pub open spec fn plane_parameter(ray: RayView, y: int) -> int {
    div_raw(sub_raw(y, ray.origin.y), ray.direction.y)
}

/// The hits on the caps of a closed cylinder, the lower cap first: where the
/// ray crosses the plane of a cap within radius one of the axis.
pub open spec fn cap_hits(ray: RayView, minimum: int, maximum: int, is_closed: bool) -> Seq<int> {
    if !is_closed || magnitude(ray.direction.y) < EPSILON_RAW {
        seq![]
    } else {
        let lower = plane_parameter(ray, minimum);
        let upper = plane_parameter(ray, maximum);
        (if within_cap(ray, lower) {
            seq![lower]
        } else {
            seq![]
        }) + (if within_cap(ray, upper) {
            seq![upper]
        } else {
            seq![]
        })
    }
}

/// Upward or downward at a point within radius one that lies at an end, up to
/// the tolerance; else outward from the axis.
pub open spec fn cylinder_normal(p: TupleView, minimum: int, maximum: int) -> TupleView {
    let distance = add_raw(mul_raw(p.x, p.x), mul_raw(p.z, p.z));
    if distance < SCALE && p.y >= sub_raw(maximum, EPSILON_RAW as int) {
        TupleView { x: 0, y: SCALE as int, z: 0, w: 0 }
    } else if distance < SCALE && p.y <= add_raw(minimum, EPSILON_RAW as int) {
        TupleView { x: 0, y: -SCALE, z: 0, w: 0 }
    } else {
        TupleView { x: p.x, y: 0, z: p.z, w: 0 }
    }
}

impl Cylinder {
    /// Whether the stored inverse is the inverse of the transform.
    pub open spec fn wf(&self) -> bool {
        invertible(self.transform@) && self.inverse_transform@ == inverse_view(self.transform@)
    }

    /// A cylinder without ends: its bounds are the two infinities.
    pub fn new_infinite(transform: Matrix4, material: Material) -> (c: Cylinder)
        requires
            invertible(transform@),
        ensures
            c.wf(),
            c.transform == transform,
            c.material == material,
            c.minimum@ == -LIMIT,
            c.maximum@ == LIMIT,
            !c.is_closed,
    {
        Cylinder {
            transform,
            inverse_transform: transform.inverse().unwrap(),
            material,
            minimum: Scalar::neg_infinity(),
            maximum: Scalar::infinity(),
            is_closed: false,
        }
    }

    /// A cylinder between two heights, open at both ends.
    pub fn new_truncated(transform: Matrix4, material: Material, minimum: Scalar, maximum: Scalar)
        -> (c: Cylinder)
        requires
            invertible(transform@),
        ensures
            c.wf(),
            c.transform == transform,
            c.material == material,
            c.minimum == minimum,
            c.maximum == maximum,
            !c.is_closed,
    {
        Cylinder {
            transform,
            inverse_transform: transform.inverse().unwrap(),
            material,
            minimum,
            maximum,
            is_closed: false,
        }
    }

    /// A cylinder between two heights, closed by a cap at both ends.
    pub fn new_capped(transform: Matrix4, material: Material, minimum: Scalar, maximum: Scalar)
        -> (c: Cylinder)
        requires
            invertible(transform@),
        ensures
            c.wf(),
            c.transform == transform,
            c.material == material,
            c.minimum == minimum,
            c.maximum == maximum,
            c.is_closed,
    {
        Cylinder {
            transform,
            inverse_transform: transform.inverse().unwrap(),
            material,
            minimum,
            maximum,
            is_closed: true,
        }
    }

    fn check_cap(&self, local_ray: &Ray, t: Scalar) -> (r: bool)
        ensures
            r == within_cap(local_ray@, t@),
    {
        let x = local_ray.origin.x.add(t.mul(local_ray.direction.x));
        let z = local_ray.origin.z.add(t.mul(local_ray.direction.z));
        x.mul(x).add(z.mul(z)).le(Scalar::one())
    }

    fn intersect_caps(&self, local_ray: &Ray) -> (ts: Vec<Scalar>)
        ensures
            raws(ts@) == cap_hits(local_ray@, self.minimum@, self.maximum@, self.is_closed),
    {
        let mut ts: Vec<Scalar> = Vec::new();
        if self.is_closed && local_ray.direction.y.abs().ge(Scalar::epsilon()) {
            let t1 = self.minimum.sub(local_ray.origin.y).div(local_ray.direction.y);
            if self.check_cap(local_ray, t1) {
                ts.push(t1);
            }
            let t2 = self.maximum.sub(local_ray.origin.y).div(local_ray.direction.y);
            if self.check_cap(local_ray, t2) {
                ts.push(t2);
            }
        }
        assert(raws(ts@) =~= cap_hits(
            local_ray@,
            self.minimum@,
            self.maximum@,
            self.is_closed,
        ));
        ts
    }

    fn intersect_walls(&self, local_ray: &Ray) -> (ts: Vec<Scalar>)
        ensures
            raws(ts@) == wall_hits(local_ray@, self.minimum@, self.maximum@),
    {
        let two = Scalar::from_int(2);
        let four = Scalar::from_int(4);
        let zero = Scalar::zero();
        let o = local_ray.origin;
        let d = local_ray.direction;
        let mut ts: Vec<Scalar> = Vec::new();

        let a = d.x.mul(d.x).add(d.z.mul(d.z));
        if a.abs().ge(Scalar::epsilon()) {
            let b = two.mul(o.x).mul(d.x).add(two.mul(o.z).mul(d.z));
            let c = o.x.mul(o.x).add(o.z.mul(o.z)).sub(Scalar::one());
            let discriminant = b.mul(b).sub(four.mul(a).mul(c));

            if discriminant.equals(zero) {
                let t = b.neg().div(two.mul(a));
                let y = o.y.add(d.y.mul(t));
                if y.gt(self.minimum) && y.lt(self.maximum) {
                    ts.push(t);
                }
            } else if discriminant.gt(zero) {
                let t1 = b.neg().sub(discriminant.sqrt()).div(two.mul(a));
                let t2 = b.neg().add(discriminant.sqrt()).div(two.mul(a));

                let y1 = o.y.add(d.y.mul(t1));
                if y1.gt(self.minimum) && y1.lt(self.maximum) {
                    ts.push(t1);
                }
                let y2 = o.y.add(d.y.mul(t2));
                if y2.gt(self.minimum) && y2.lt(self.maximum) {
                    ts.push(t2);
                }
            }
        }
        assert(raws(ts@) =~= wall_hits(local_ray@, self.minimum@, self.maximum@));
        ts
    }
}

impl Shape for Cylinder {
    /// The hits on the wall, then those on the caps.
    open spec fn hits(&self, local_ray: RayView) -> Seq<int> {
        wall_hits(local_ray, self.minimum@, self.maximum@) + cap_hits(
            local_ray,
            self.minimum@,
            self.maximum@,
            self.is_closed,
        )
    }

    open spec fn normal(&self, local_point: TupleView) -> TupleView {
        cylinder_normal(local_point, self.minimum@, self.maximum@)
    }

    fn intersect(&self, local_ray: &Ray) -> (ts: Vec<Scalar>) {
        let mut wall_ts = self.intersect_walls(local_ray);
        let mut caps_ts = self.intersect_caps(local_ray);
        wall_ts.append(&mut caps_ts);
        assert(raws(wall_ts@) =~= self.hits(local_ray@));
        wall_ts
    }

    fn normal_at(&self, local_point: Tuple) -> (n: Tuple) {
        let zero = Scalar::zero();
        let one = Scalar::one();
        let distance = local_point.x.mul(local_point.x).add(local_point.z.mul(local_point.z));

        if distance.lt(one) && local_point.y.ge(self.maximum.sub(Scalar::epsilon())) {
            Tuple::vector(zero, one, zero)
        } else if distance.lt(one) && local_point.y.le(self.minimum.add(Scalar::epsilon())) {
            Tuple::vector(zero, one.neg(), zero)
        } else {
            Tuple::vector(local_point.x, zero, local_point.z)
        }
    }
}

} // verus!
