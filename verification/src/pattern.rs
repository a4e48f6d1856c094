//! Surface patterns: a color for every point, found in the pattern's own
//! space.

use vstd::prelude::*;
use crate::color::{Color, ColorView};
use crate::matrix::{apply_view, inverse_view, invertible, Matrix4};
use crate::object::Object;
use crate::scalar::{add_raw, even_floor_raw, floor_raw, mul_raw, sqrt_raw, sub_raw};
use crate::tuple::{Tuple, TupleView};

verus! {

/// Stripes along x: one color where the whole part of x is even, the other
/// where it is odd.
#[derive(Clone, Copy, Debug)]
pub struct Striped {
    pub color: Color,
    pub other_color: Color,
    pub transform: Matrix4,
    pub inverse_transform: Matrix4,
}

/// A blend from one color to the other over every unit step of x.
#[derive(Clone, Copy, Debug)]
pub struct Gradient {
    pub color: Color,
    pub other_color: Color,
    pub transform: Matrix4,
    pub inverse_transform: Matrix4,
}

/// Rings about the y axis, alternating with the whole part of the distance
/// from it.
#[derive(Clone, Copy, Debug)]
pub struct Ring {
    pub color: Color,
    pub other_color: Color,
    pub transform: Matrix4,
    pub inverse_transform: Matrix4,
}

/// Unit cubes alternating in all three directions.
#[derive(Clone, Copy, Debug)]
pub struct Checker {
    pub color: Color,
    pub other_color: Color,
    pub transform: Matrix4,
    pub inverse_transform: Matrix4,
}

/// The pattern whose color at a point has the point's coordinates as its
/// components.
#[derive(Clone, Copy, Debug)]
pub struct Test {
    pub transform: Matrix4,
    pub inverse_transform: Matrix4,
}

/// A pattern of any kind.
#[derive(Clone, Copy, Debug)]
pub enum Pattern {
    StripedPattern(Striped),
    GradientPattern(Gradient),
    RingPattern(Ring),
    CheckerPattern(Checker),
    TestPattern(Test),
}

/// One color where the whole part of x is even, the other where it is odd.
pub open spec fn striped_color(color: ColorView, other: ColorView, p: TupleView) -> ColorView {
    if even_floor_raw(p.x) {
        color
    } else {
        other
    }
}

/// `color + (other - color) * (x - floor(x))`
pub open spec fn gradient_color(color: ColorView, other: ColorView, p: TupleView) -> ColorView {
    color.plus(other.minus(color).scaled(sub_raw(p.x, floor_raw(p.x))))
}

/// One color where the whole part of the distance from the y axis is even,
/// the other where it is odd.
pub open spec fn ring_color(color: ColorView, other: ColorView, p: TupleView) -> ColorView {
    if even_floor_raw(sqrt_raw(add_raw(mul_raw(p.x, p.x), mul_raw(p.z, p.z)))) {
        color
    } else {
        other
    }
}

/// One color where the whole parts of x, y and z add up to an even number,
/// the other where the sum is odd.
pub open spec fn checker_color(color: ColorView, other: ColorView, p: TupleView) -> ColorView {
    if even_floor_raw(add_raw(add_raw(floor_raw(p.x), floor_raw(p.y)), floor_raw(p.z))) {
        color
    } else {
        other
    }
}

impl Striped {
    /// Whether the stored inverse is the inverse of the transform.
    pub open spec fn wf(&self) -> bool {
        invertible(self.transform@) && self.inverse_transform@ == inverse_view(self.transform@)
    }

    /// A pattern of the two colors with the given transform, which has to
    /// have an inverse.
    pub fn new(color: Color, other_color: Color, transform: Matrix4) -> (r: Striped)
        requires
            invertible(transform@),
        ensures
            r.wf(),
            r.color == color,
            r.other_color == other_color,
            r.transform == transform,
    {
        Striped { color, other_color, transform, inverse_transform: transform.inverse().unwrap() }
    }

    /// The color at a point of the pattern's own space.
    pub fn color_at(&self, point: Tuple) -> (c: Color)
        ensures
            c@ == striped_color(self.color@, self.other_color@, point@),
    {
        if point.x.has_even_floor() {
            self.color
        } else {
            self.other_color
        }
    }
}

impl Gradient {
    /// Whether the stored inverse is the inverse of the transform.
    pub open spec fn wf(&self) -> bool {
        invertible(self.transform@) && self.inverse_transform@ == inverse_view(self.transform@)
    }

    /// A pattern of the two colors with the given transform, which has to
    /// have an inverse.
    pub fn new(color: Color, other_color: Color, transform: Matrix4) -> (r: Gradient)
        requires
            invertible(transform@),
        ensures
            r.wf(),
            r.color == color,
            r.other_color == other_color,
            r.transform == transform,
    {
        Gradient { color, other_color, transform, inverse_transform: transform.inverse().unwrap() }
    }

    /// The color at a point of the pattern's own space.
    pub fn color_at(&self, point: Tuple) -> (c: Color)
        ensures
            c@ == gradient_color(self.color@, self.other_color@, point@),
    {
        let distance = self.other_color.subtract(self.color);
        let fraction = point.x.sub(point.x.floor());
        self.color.add(distance.multiply(fraction))
    }
}

impl Ring {
    /// Whether the stored inverse is the inverse of the transform.
    pub open spec fn wf(&self) -> bool {
        invertible(self.transform@) && self.inverse_transform@ == inverse_view(self.transform@)
    }

    /// A pattern of the two colors with the given transform, which has to
    /// have an inverse.
    pub fn new(color: Color, other_color: Color, transform: Matrix4) -> (r: Ring)
        requires
            invertible(transform@),
        ensures
            r.wf(),
            r.color == color,
            r.other_color == other_color,
            r.transform == transform,
    {
        Ring { color, other_color, transform, inverse_transform: transform.inverse().unwrap() }
    }

    /// The color at a point of the pattern's own space.
    pub fn color_at(&self, point: Tuple) -> (c: Color)
        ensures
            c@ == ring_color(self.color@, self.other_color@, point@),
    {
        if point.x.mul(point.x).add(point.z.mul(point.z)).sqrt().has_even_floor() {
            self.color
        } else {
            self.other_color
        }
    }
}

impl Checker {
    /// Whether the stored inverse is the inverse of the transform.
    pub open spec fn wf(&self) -> bool {
        invertible(self.transform@) && self.inverse_transform@ == inverse_view(self.transform@)
    }

    /// A pattern of the two colors with the given transform, which has to
    /// have an inverse.
    pub fn new(color: Color, other_color: Color, transform: Matrix4) -> (r: Checker)
        requires
            invertible(transform@),
        ensures
            r.wf(),
            r.color == color,
            r.other_color == other_color,
            r.transform == transform,
    {
        Checker { color, other_color, transform, inverse_transform: transform.inverse().unwrap() }
    }

    /// The color at a point of the pattern's own space.
    pub fn color_at(&self, point: Tuple) -> (c: Color)
        ensures
            c@ == checker_color(self.color@, self.other_color@, point@),
    {
        if point.x.floor().add(point.y.floor()).add(point.z.floor()).has_even_floor() {
            self.color
        } else {
            self.other_color
        }
    }
}

impl Test {
    /// Whether the stored inverse is the inverse of the transform.
    pub open spec fn wf(&self) -> bool {
        invertible(self.transform@) && self.inverse_transform@ == inverse_view(self.transform@)
    }

    /// A pattern with the given transform, which has to have an inverse.
    pub fn new(transform: Matrix4) -> (r: Test)
        requires
            invertible(transform@),
        ensures
            r.wf(),
            r.transform == transform,
    {
        Test { transform, inverse_transform: transform.inverse().unwrap() }
    }

    /// The color at a point of the pattern's own space.
    pub fn color_at(&self, point: Tuple) -> (c: Color)
        ensures
            c@ == (ColorView { r: point@.x, g: point@.y, b: point@.z }),
    {
        Color::new(point.x, point.y, point.z)
    }
}

impl Pattern {
    /// Whether the stored inverse is the inverse of the transform.
    pub open spec fn wf(&self) -> bool {
        match self {
            Pattern::StripedPattern(p) => p.wf(),
            Pattern::GradientPattern(p) => p.wf(),
            Pattern::RingPattern(p) => p.wf(),
            Pattern::CheckerPattern(p) => p.wf(),
            Pattern::TestPattern(p) => p.wf(),
        }
    }

    /// The transform from the space of the object into that of the pattern,
    /// as stored.
    pub open spec fn inverse_transform_spec(&self) -> Matrix4 {
        match self {
            Pattern::StripedPattern(p) => p.inverse_transform,
            Pattern::GradientPattern(p) => p.inverse_transform,
            Pattern::RingPattern(p) => p.inverse_transform,
            Pattern::CheckerPattern(p) => p.inverse_transform,
            Pattern::TestPattern(p) => p.inverse_transform,
        }
    }

    /// The color at a point given in the pattern's own space.
    pub open spec fn local_color(&self, p: TupleView) -> ColorView {
        match self {
            Pattern::StripedPattern(s) => striped_color(s.color@, s.other_color@, p),
            Pattern::GradientPattern(g) => gradient_color(g.color@, g.other_color@, p),
            Pattern::RingPattern(r) => ring_color(r.color@, r.other_color@, p),
            Pattern::CheckerPattern(c) => checker_color(c.color@, c.other_color@, p),
            Pattern::TestPattern(_) => ColorView { r: p.x, g: p.y, b: p.z },
        }
    }

    /// The color at a world point on `object`: the point is taken into the
    /// object's space, from there into the pattern's space.
    pub open spec fn color_at_spec(&self, object: &Object, world_point: TupleView) -> ColorView {
        self.local_color(
            apply_view(
                self.inverse_transform_spec()@,
                apply_view(object.inverse_transform_spec()@, world_point),
            ),
        )
    }

    /// The color at a world point on `object`.
    pub fn color_at(&self, object: &Object, world_point: Tuple) -> (c: Color)
        ensures
            c@ == self.color_at_spec(object, world_point@),
    {
        let object_point = object.get_inverse_transform().multiply_tuple(world_point);
        let pattern_point = self.get_inverse_transform().multiply_tuple(object_point);
        match self {
            Pattern::StripedPattern(striped) => striped.color_at(pattern_point),
            Pattern::GradientPattern(gradient) => gradient.color_at(pattern_point),
            Pattern::RingPattern(ring) => ring.color_at(pattern_point),
            Pattern::CheckerPattern(checker) => checker.color_at(pattern_point),
            Pattern::TestPattern(test) => test.color_at(pattern_point),
        }
    }

    /// The transform from the space of the object into that of the pattern.
    pub fn get_inverse_transform(&self) -> (m: Matrix4)
        ensures
            m == self.inverse_transform_spec(),
    {
        match self {
            Pattern::StripedPattern(striped) => striped.inverse_transform,
            Pattern::GradientPattern(gradient) => gradient.inverse_transform,
            Pattern::RingPattern(ring) => ring.inverse_transform,
            Pattern::CheckerPattern(checker) => checker.inverse_transform,
            Pattern::TestPattern(test) => test.inverse_transform,
        }
    }
}

} // verus!
