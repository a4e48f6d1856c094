//! The plane through the origin that holds the x and z axes.

use vstd::prelude::*;
use crate::material::Material;
use crate::matrix::{inverse_view, invertible, Matrix4};
use crate::ray::{Ray, RayView};
use crate::scalar::{div_raw, magnitude, raws, Scalar, EPSILON_RAW, SCALE};
use crate::shape::Shape;
use crate::tuple::{Tuple, TupleView};

verus! {

/// A plane in the world: its transform with the inverse, and its material.
#[derive(Clone, Copy, Debug)]
pub struct Plane {
    pub transform: Matrix4,
    pub inverse_transform: Matrix4,
    pub material: Material,
}

/// No hit where the ray runs parallel to the plane within the tolerance,
/// else the one parameter at which the ray's height is zero.
pub open spec fn plane_hits(ray: RayView) -> Seq<int> {
    if magnitude(ray.direction.y) < EPSILON_RAW {
        seq![]
    } else {
        seq![div_raw(-ray.origin.y, ray.direction.y)]
    }
}

impl Plane {
    /// Whether the stored inverse is the inverse of the transform.
    pub open spec fn wf(&self) -> bool {
        invertible(self.transform@) && self.inverse_transform@ == inverse_view(self.transform@)
    }

    /// A plane with the given transform, which has to have an inverse.
    pub fn new(transform: Matrix4, material: Material) -> (p: Plane)
        requires
            invertible(transform@),
        ensures
            p.wf(),
            p.transform == transform,
            p.material == material,
    {
        Plane { transform, inverse_transform: transform.inverse().unwrap(), material }
    }
}

impl Shape for Plane {
    open spec fn hits(&self, local_ray: RayView) -> Seq<int> {
        plane_hits(local_ray)
    }

    open spec fn normal(&self, local_point: TupleView) -> TupleView {
        TupleView { x: 0, y: SCALE as int, z: 0, w: 0 }
    }

    fn intersect(&self, local_ray: &Ray) -> (ts: Vec<Scalar>) {
        let mut ts: Vec<Scalar> = Vec::new();
        if local_ray.direction.y.abs().ge(Scalar::epsilon()) {
            ts.push(local_ray.origin.y.neg().div(local_ray.direction.y));
        }
        assert(raws(ts@) =~= plane_hits(local_ray@));
        ts
    }

    fn normal_at(&self, local_point: Tuple) -> (n: Tuple) {
        Tuple::vector(Scalar::zero(), Scalar::one(), Scalar::zero())
    }
}

} // verus!
