//! What every geometric primitive offers, in its own space.

use vstd::prelude::*;
use crate::ray::{Ray, RayView};
use crate::scalar::{raws, Scalar};
use crate::tuple::{Tuple, TupleView};

verus! {

/// A geometric primitive in its own space.
pub trait Shape {
    /// The ray parameters at which a ray, given in the shape's own space,
    /// meets the shape. They come in no particular order, and parameters
    /// below zero (behind the origin of the ray) are among them.
    spec fn hits(&self, local_ray: RayView) -> Seq<int>;

    /// The surface normal at a point of the shape's own space that lies on
    /// the surface. It is not normalized.
    spec fn normal(&self, local_point: TupleView) -> TupleView;

    fn intersect(&self, local_ray: &Ray) -> (ts: Vec<Scalar>)
        ensures
            raws(ts@) == self.hits(local_ray@),
    ;

    fn normal_at(&self, local_point: Tuple) -> (n: Tuple)
        ensures
            n@ == self.normal(local_point@),
    ;
}

} // verus!
