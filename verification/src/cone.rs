//! The double cone about the y axis whose radius at every height is the
//! magnitude of that height: endless, or cut off and closed by caps.

use vstd::prelude::*;
use crate::cylinder::{discriminant, hit_within, plane_parameter, two_roots};
use crate::material::Material;
use crate::matrix::{inverse_view, invertible, Matrix4};
use crate::ray::{Ray, RayView};
use crate::scalar::{
    add_raw, div_raw, magnitude, mul_raw, raws, sqrt_raw, sub_raw, Scalar, EPSILON_RAW, LIMIT,
    SCALE,
};
use crate::shape::Shape;
use crate::tuple::{Tuple, TupleView};

verus! {

/// A double cone in the world: its bounds along the axis, whether caps close
/// it there, its transform with the inverse, and its material.
#[derive(Clone, Copy, Debug)]
pub struct Cone {
    pub transform: Matrix4,
    pub inverse_transform: Matrix4,
    pub material: Material,
    pub minimum: Scalar,
    pub maximum: Scalar,
    pub is_closed: bool,
}

/// The coefficients `(a, b, c)` of the quadratic `x^2 - y^2 + z^2 = 0` in `t`.
pub open spec fn cone_quadratic(ray: RayView) -> (int, int, int) {
    let o = ray.origin;
    let d = ray.direction;
    (
        add_raw(sub_raw(mul_raw(d.x, d.x), mul_raw(d.y, d.y)), mul_raw(d.z, d.z)),
        add_raw(
            sub_raw(mul_raw(mul_raw(2 * SCALE, o.x), d.x), mul_raw(mul_raw(2 * SCALE, o.y), d.y)),
            mul_raw(mul_raw(2 * SCALE, o.z), d.z),
        ),
        add_raw(sub_raw(mul_raw(o.x, o.x), mul_raw(o.y, o.y)), mul_raw(o.z, o.z)),
    )
}

/// The hits on the two nappes. Where the leading coefficient vanishes within
/// the tolerance, the ray runs parallel to one nappe: it then misses if the
/// linear coefficient vanishes too, and else meets the other nappe once, at
/// `-c / 2 / b`. With a leading coefficient the hits are the roots of the
/// quadratic at which the ray's height lies strictly between the bounds.
pub open spec fn nappe_hits(ray: RayView, minimum: int, maximum: int) -> Seq<int> {
    let (a, b, c) = cone_quadratic(ray);
    let d = discriminant(a, b, c);
    if magnitude(a) < EPSILON_RAW && magnitude(b) < EPSILON_RAW {
        seq![]
    } else if magnitude(a) < EPSILON_RAW {
        seq![div_raw(div_raw(-c, 2 * SCALE), b)]
    } else if d < 0 {
        seq![]
    } else if d == 0 {
        hit_within(ray, div_raw(-b, mul_raw(2 * SCALE, a)), minimum, maximum)
    } else {
        hit_within(ray, two_roots(a, b, d).0, minimum, maximum) + hit_within(
            ray,
            two_roots(a, b, d).1,
            minimum,
            maximum,
        )
    }
}

/// Whether the ray at parameter `t` is within the radius of the cap at
/// height `y`, which is the magnitude of `y`.
pub open spec fn within_cone_cap(ray: RayView, t: int, y: int) -> bool {
    let x = add_raw(ray.origin.x, mul_raw(t, ray.direction.x));
    let z = add_raw(ray.origin.z, mul_raw(t, ray.direction.z));
    add_raw(mul_raw(x, x), mul_raw(z, z)) <= magnitude(y)
}

/// The hits on the caps of a closed cone, the lower cap first.
pub open spec fn cone_cap_hits(ray: RayView, minimum: int, maximum: int, is_closed: bool) -> Seq<
    int,
> {
    if !is_closed || magnitude(ray.direction.y) < EPSILON_RAW {
        seq![]
    } else {
        let lower = plane_parameter(ray, minimum);
        let upper = plane_parameter(ray, maximum);
        (if within_cone_cap(ray, lower, minimum) {
            seq![lower]
        } else {
            seq![]
        }) + (if within_cone_cap(ray, upper, maximum) {
            seq![upper]
        } else {
            seq![]
        })
    }
}

/// Upward or downward at a point within radius one that lies at an end, up to
/// the tolerance; else outward, with a height component of the distance from
/// the axis, pointing down above the apex and up below it.
pub open spec fn cone_normal(p: TupleView, minimum: int, maximum: int) -> TupleView {
    let distance = add_raw(mul_raw(p.x, p.x), mul_raw(p.z, p.z));
    if distance < SCALE && p.y >= sub_raw(maximum, EPSILON_RAW as int) {
        TupleView { x: 0, y: SCALE as int, z: 0, w: 0 }
    } else if distance < SCALE && p.y <= add_raw(minimum, EPSILON_RAW as int) {
        TupleView { x: 0, y: -SCALE, z: 0, w: 0 }
    } else if p.y > 0 {
        TupleView { x: p.x, y: -sqrt_raw(distance), z: p.z, w: 0 }
    } else {
        TupleView { x: p.x, y: sqrt_raw(distance), z: p.z, w: 0 }
    }
}

impl Cone {
    /// Whether the stored inverse is the inverse of the transform.
    pub open spec fn wf(&self) -> bool {
        invertible(self.transform@) && self.inverse_transform@ == inverse_view(self.transform@)
    }

    /// A cone without ends: its bounds are the two infinities.
    pub fn new_infinite(transform: Matrix4, material: Material) -> (c: Cone)
        requires
            invertible(transform@),
        ensures
            c.wf(),
            c.transform == transform,
            c.material == material,
            c.minimum@ == -LIMIT,
            c.maximum@ == LIMIT,
            !c.is_closed,
    {
        Cone {
            transform,
            inverse_transform: transform.inverse().unwrap(),
            material,
            minimum: Scalar::neg_infinity(),
            maximum: Scalar::infinity(),
            is_closed: false,
        }
    }

    /// A cone between two heights, closed by a cap at both ends.
    pub fn new_capped(transform: Matrix4, material: Material, minimum: Scalar, maximum: Scalar)
        -> (c: Cone)
        requires
            invertible(transform@),
        ensures
            c.wf(),
            c.transform == transform,
            c.material == material,
            c.minimum == minimum,
            c.maximum == maximum,
            c.is_closed,
    {
        Cone {
            transform,
            inverse_transform: transform.inverse().unwrap(),
            material,
            minimum,
            maximum,
            is_closed: true,
        }
    }

    fn check_cap(&self, local_ray: &Ray, t: Scalar, y: Scalar) -> (r: bool)
        ensures
            r == within_cone_cap(local_ray@, t@, y@),
    {
        let x = local_ray.origin.x.add(t.mul(local_ray.direction.x));
        let z = local_ray.origin.z.add(t.mul(local_ray.direction.z));
        x.mul(x).add(z.mul(z)).le(y.abs())
    }

    fn intersect_caps(&self, local_ray: &Ray) -> (ts: Vec<Scalar>)
        ensures
            raws(ts@) == cone_cap_hits(local_ray@, self.minimum@, self.maximum@, self.is_closed),
    {
        let mut ts: Vec<Scalar> = Vec::new();
        if self.is_closed && local_ray.direction.y.abs().ge(Scalar::epsilon()) {
            let t1 = self.minimum.sub(local_ray.origin.y).div(local_ray.direction.y);
            if self.check_cap(local_ray, t1, self.minimum) {
                ts.push(t1);
            }
            let t2 = self.maximum.sub(local_ray.origin.y).div(local_ray.direction.y);
            if self.check_cap(local_ray, t2, self.maximum) {
                ts.push(t2);
            }
        }
        assert(raws(ts@) =~= cone_cap_hits(
            local_ray@,
            self.minimum@,
            self.maximum@,
            self.is_closed,
        ));
        ts
    }

    fn intersect_walls(&self, local_ray: &Ray) -> (ts: Vec<Scalar>)
        ensures
            raws(ts@) == nappe_hits(local_ray@, self.minimum@, self.maximum@),
    {
        let two = Scalar::from_int(2);
        let four = Scalar::from_int(4);
        let zero = Scalar::zero();
        let epsilon = Scalar::epsilon();
        let o = local_ray.origin;
        let d = local_ray.direction;
        let mut ts: Vec<Scalar> = Vec::new();

        let a = d.x.mul(d.x).sub(d.y.mul(d.y)).add(d.z.mul(d.z));
        let b = two.mul(o.x).mul(d.x).sub(two.mul(o.y).mul(d.y)).add(two.mul(o.z).mul(d.z));
        let c = o.x.mul(o.x).sub(o.y.mul(o.y)).add(o.z.mul(o.z));

        if a.abs().lt(epsilon) {
            if b.abs().ge(epsilon) {
                ts.push(c.neg().div(two).div(b));
            }
        } else {
            let discriminant = b.mul(b).sub(four.mul(a).mul(c));

            if discriminant.equals(zero) {
                let t = b.neg().div(two.mul(a));
                let y = o.y.add(d.y.mul(t));
                if y.gt(self.minimum) && y.lt(self.maximum) {
                    ts.push(t);
                }
            } else if discriminant.gt(zero) {
                let t1 = b.neg().sub(discriminant.sqrt()).div(two.mul(a));
                let t2 = b.neg().add(discriminant.sqrt()).div(two.mul(a));

                let y1 = o.y.add(d.y.mul(t1));
                if y1.gt(self.minimum) && y1.lt(self.maximum) {
                    ts.push(t1);
                }
                let y2 = o.y.add(d.y.mul(t2));
                if y2.gt(self.minimum) && y2.lt(self.maximum) {
                    ts.push(t2);
                }
            }
        }
        assert(raws(ts@) =~= nappe_hits(local_ray@, self.minimum@, self.maximum@));
        ts
    }
}

impl Shape for Cone {
    /// The hits on the nappes, then those on the caps.
    open spec fn hits(&self, local_ray: RayView) -> Seq<int> {
        nappe_hits(local_ray, self.minimum@, self.maximum@) + cone_cap_hits(
            local_ray,
            self.minimum@,
            self.maximum@,
            self.is_closed,
        )
    }

    open spec fn normal(&self, local_point: TupleView) -> TupleView {
        cone_normal(local_point, self.minimum@, self.maximum@)
    }

    fn intersect(&self, local_ray: &Ray) -> (ts: Vec<Scalar>) {
        let mut wall_ts = self.intersect_walls(local_ray);
        let mut caps_ts = self.intersect_caps(local_ray);
        wall_ts.append(&mut caps_ts);
        assert(raws(wall_ts@) =~= self.hits(local_ray@));
        wall_ts
    }

    fn normal_at(&self, local_point: Tuple) -> (n: Tuple) {
        let zero = Scalar::zero();
        let one = Scalar::one();
        let distance = local_point.x.mul(local_point.x).add(local_point.z.mul(local_point.z));

        if distance.lt(one) && local_point.y.ge(self.maximum.sub(Scalar::epsilon())) {
            Tuple::vector(zero, one, zero)
        } else if distance.lt(one) && local_point.y.le(self.minimum.add(Scalar::epsilon())) {
            Tuple::vector(zero, one.neg(), zero)
        } else if local_point.y.gt(zero) {
            Tuple::vector(local_point.x, distance.sqrt().neg(), local_point.z)
        } else {
            Tuple::vector(local_point.x, distance.sqrt(), local_point.z)
        }
    }
}

} // verus!
