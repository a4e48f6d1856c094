//! Rays: an origin point and a direction vector.

use vstd::prelude::*;
use crate::matrix::{apply_view, Matrix4, MatrixView};
use crate::scalar::Scalar;
use crate::tuple::{Tuple, TupleView};

verus! {

/// A ray: the points `origin + direction * t` for all parameters `t`.
#[derive(Clone, Copy, Debug)]
pub struct Ray {
    pub origin: Tuple,
    pub direction: Tuple,
}

/// A ray in raw values.
pub struct RayView {
    pub origin: TupleView,
    pub direction: TupleView,
}

impl View for Ray {
    type V = RayView;

    open spec fn view(&self) -> RayView {
        RayView { origin: self.origin@, direction: self.direction@ }
    }
}

impl RayView {
    /// The point `origin + direction * t`.
    pub open spec fn position_at(self, t: int) -> TupleView {
        self.origin.plus(self.direction.scaled(t))
    }

    /// The ray with origin and direction both mapped by `m`.
    pub open spec fn transformed(self, m: MatrixView) -> RayView {
        RayView { origin: apply_view(m, self.origin), direction: apply_view(m, self.direction) }
    }
}

impl Ray {
    /// The ray from `origin` along `direction`.
    pub fn new(origin: Tuple, direction: Tuple) -> (r: Ray)
        ensures
            r@ == (RayView { origin: origin@, direction: direction@ }),
    {
        Ray { origin, direction }
    }

    /// The point of the ray at parameter `t`.
    pub fn position_at(&self, t: Scalar) -> (p: Tuple)
        ensures
            p@ == self@.position_at(t@),
    {
        self.origin.add(self.direction.multiply(t))
    }

    /// The ray with origin and direction both mapped by `m`.
    pub fn transform(&self, m: Matrix4) -> (r: Ray)
        ensures
            r@ == self@.transformed(m@),
    {
        Ray { origin: m.multiply_tuple(self.origin), direction: m.multiply_tuple(self.direction) }
    }
}

} // verus!
