//! The axis-aligned cube that reaches from -1 to 1 along every axis.

use vstd::prelude::*;
use crate::material::Material;
use crate::matrix::{inverse_view, invertible, Matrix4};
use crate::ray::{Ray, RayView};
use crate::scalar::{div_raw, magnitude, raws, sub_raw, Scalar, EPSILON_RAW, LIMIT, SCALE};
use crate::shape::Shape;
use crate::tuple::{Tuple, TupleView};

verus! {

/// A cube in the world: its transform with the inverse, and its material.
#[derive(Clone, Copy, Debug)]
pub struct Cube {
    pub transform: Matrix4,
    pub inverse_transform: Matrix4,
    pub material: Material,
}

/// The larger of two numbers.
pub open spec fn max_raw(a: int, b: int) -> int {
    if a >= b {
        a
    } else {
        b
    }
}

/// The smaller of two numbers.
pub open spec fn min_raw(a: int, b: int) -> int {
    if a <= b {
        a
    } else {
        b
    }
}

/// The parameters at which a ray enters and leaves the slab between the two
/// faces across one axis, the smaller first. Where the ray runs parallel to
/// the faces within the tolerance, each face lies at the infinity on its
/// side of the origin: at the infinity with the sign of the distance to the
/// face, and at zero for a face that the origin lies on.
pub open spec fn axis_range(origin: int, direction: int) -> (int, int) {
    let tmin_numerator = sub_raw(-SCALE, origin);
    let tmax_numerator = sub_raw(SCALE as int, origin);
    let tmin = if magnitude(direction) >= EPSILON_RAW {
        div_raw(tmin_numerator, direction)
    } else {
        div_raw(tmin_numerator, 0)
    };
    let tmax = if magnitude(direction) >= EPSILON_RAW {
        div_raw(tmax_numerator, direction)
    } else {
        div_raw(tmax_numerator, 0)
    };
    if tmin > tmax {
        (tmax, tmin)
    } else {
        (tmin, tmax)
    }
}

/// The largest of the three entry parameters.
pub open spec fn cube_entry(ray: RayView) -> int {
    max_raw(
        max_raw(
            axis_range(ray.origin.x, ray.direction.x).0,
            axis_range(ray.origin.y, ray.direction.y).0,
        ),
        axis_range(ray.origin.z, ray.direction.z).0,
    )
}

/// The smallest of the three exit parameters.
pub open spec fn cube_exit(ray: RayView) -> int {
    min_raw(
        min_raw(
            axis_range(ray.origin.x, ray.direction.x).1,
            axis_range(ray.origin.y, ray.direction.y).1,
        ),
        axis_range(ray.origin.z, ray.direction.z).1,
    )
}

/// Whether the direction of a ray has no length, up to the tolerance in
/// every component.
pub open spec fn without_direction(ray: RayView) -> bool {
    &&& magnitude(ray.direction.x) < EPSILON_RAW
    &&& magnitude(ray.direction.y) < EPSILON_RAW
    &&& magnitude(ray.direction.z) < EPSILON_RAW
}

/// Entry and exit, or nothing where the ray leaves one slab before it has
/// entered another, or has no direction.
pub open spec fn cube_hits(ray: RayView) -> Seq<int> {
    if without_direction(ray) {
        seq![]
    } else if cube_entry(ray) > cube_exit(ray) {
        seq![]
    } else {
        seq![cube_entry(ray), cube_exit(ray)]
    }
}

/// The normal of the face on which the point lies: the axis along which the
/// point's coordinate is largest in magnitude, x before y before z.
pub open spec fn cube_normal(p: TupleView) -> TupleView {
    let largest = max_raw(max_raw(magnitude(p.x), magnitude(p.y)), magnitude(p.z));
    if largest == magnitude(p.x) {
        TupleView { x: p.x, y: 0, z: 0, w: 0 }
    } else if largest == magnitude(p.y) {
        TupleView { x: 0, y: p.y, z: 0, w: 0 }
    } else {
        TupleView { x: 0, y: 0, z: p.z, w: 0 }
    }
}

/// Where a ray enters and leaves the slab between the two faces across one
/// axis, from its origin and direction along that axis. A ray that runs
/// parallel to the faces from an origin between them is inside the slab from
/// the one infinity to the other.
pub fn check_axis(origin: Scalar, direction: Scalar) -> (r: (Scalar, Scalar))
    ensures
        (r.0@, r.1@) == axis_range(origin@, direction@),
        r.0@ <= r.1@,
        magnitude(direction@) < EPSILON_RAW && magnitude(origin@) < SCALE ==> r.0@ == -LIMIT && r.1@
            == LIMIT,
{
    let tmin_numerator = Scalar::one().neg().sub(origin);
    let tmax_numerator = Scalar::one().sub(origin);

    let tmin: Scalar;
    let tmax: Scalar;
    if direction.abs().ge(Scalar::epsilon()) {
        tmin = tmin_numerator.div(direction);
        tmax = tmax_numerator.div(direction);
    } else {
        tmin = tmin_numerator.div(Scalar::zero());
        tmax = tmax_numerator.div(Scalar::zero());
    }

    if tmin.gt(tmax) {
        (tmax, tmin)
    } else {
        (tmin, tmax)
    }
}

impl Cube {
    /// Whether the stored inverse is the inverse of the transform.
    pub open spec fn wf(&self) -> bool {
        invertible(self.transform@) && self.inverse_transform@ == inverse_view(self.transform@)
    }

    /// A cube with the given transform, which has to have an inverse.
    pub fn new(transform: Matrix4, material: Material) -> (c: Cube)
        requires
            invertible(transform@),
        ensures
            c.wf(),
            c.transform == transform,
            c.material == material,
    {
        Cube { transform, inverse_transform: transform.inverse().unwrap(), material }
    }
}

impl Shape for Cube {
    open spec fn hits(&self, local_ray: RayView) -> Seq<int> {
        cube_hits(local_ray)
    }

    open spec fn normal(&self, local_point: TupleView) -> TupleView {
        cube_normal(local_point)
    }

    fn intersect(&self, local_ray: &Ray) -> (ts: Vec<Scalar>) {
        let (xtmin, xtmax) = check_axis(local_ray.origin.x, local_ray.direction.x);
        let (ytmin, ytmax) = check_axis(local_ray.origin.y, local_ray.direction.y);
        let (ztmin, ztmax) = check_axis(local_ray.origin.z, local_ray.direction.z);
        let tmin = xtmin.max(ytmin).max(ztmin);
        let tmax = xtmax.min(ytmax).min(ztmax);
        let mut ts: Vec<Scalar> = Vec::new();
        let epsilon = Scalar::epsilon();
        let has_direction = local_ray.direction.x.abs().ge(epsilon)
            || local_ray.direction.y.abs().ge(epsilon) || local_ray.direction.z.abs().ge(epsilon);
        if has_direction && tmin.le(tmax) {
            ts.push(tmin);
            ts.push(tmax);
        }
        assert(raws(ts@) =~= cube_hits(local_ray@));
        ts
    }

    fn normal_at(&self, local_point: Tuple) -> (n: Tuple) {
        let zero = Scalar::zero();
        let ax = local_point.x.abs();
        let ay = local_point.y.abs();
        let az = local_point.z.abs();
        let largest = ax.max(ay).max(az);
        if largest.equals(ax) {
            Tuple::vector(local_point.x, zero, zero)
        } else if largest.equals(ay) {
            Tuple::vector(zero, local_point.y, zero)
        } else {
            Tuple::vector(zero, zero, local_point.z)
        }
    }
}

} // verus!
