//! Colors with unclamped red, green and blue components.

use vstd::prelude::*;
use crate::scalar::{add_raw, mul_raw, near_raw, sub_raw, Scalar, SCALE};

verus! {

/// A color by its red, green and blue parts. One is full intensity; parts
/// may lie below zero and above one.
#[derive(Clone, Copy, Debug, PartialEq, Eq)]
pub struct Color {
    pub r: Scalar,
    pub g: Scalar,
    pub b: Scalar,
}

/// The raw components of a color.
pub struct ColorView {
    pub r: int,
    pub g: int,
    pub b: int,
}

impl View for Color {
    type V = ColorView;

    open spec fn view(&self) -> ColorView {
        ColorView { r: self.r@, g: self.g@, b: self.b@ }
    }
}

impl ColorView {
    /// No light at all.
    pub open spec fn black() -> ColorView {
        ColorView { r: 0, g: 0, b: 0 }
    }

    /// Full intensity in every part.
    pub open spec fn white() -> ColorView {
        ColorView { r: SCALE as int, g: SCALE as int, b: SCALE as int }
    }

    /// Part-wise sum.
    pub open spec fn plus(self, other: ColorView) -> ColorView {
        ColorView {
            r: add_raw(self.r, other.r),
            g: add_raw(self.g, other.g),
            b: add_raw(self.b, other.b),
        }
    }

    /// Part-wise difference.
    pub open spec fn minus(self, other: ColorView) -> ColorView {
        ColorView {
            r: sub_raw(self.r, other.r),
            g: sub_raw(self.g, other.g),
            b: sub_raw(self.b, other.b),
        }
    }

    /// Every part times `s`.
    pub open spec fn scaled(self, s: int) -> ColorView {
        ColorView { r: mul_raw(self.r, s), g: mul_raw(self.g, s), b: mul_raw(self.b, s) }
    }

    /// Component-wise product.
    pub open spec fn hadamard(self, other: ColorView) -> ColorView {
        ColorView {
            r: mul_raw(self.r, other.r),
            g: mul_raw(self.g, other.g),
            b: mul_raw(self.b, other.b),
        }
    }

    /// Component-wise equality up to the tolerance.
    pub open spec fn near(self, other: ColorView) -> bool {
        &&& near_raw(self.r, other.r)
        &&& near_raw(self.g, other.g)
        &&& near_raw(self.b, other.b)
    }
}

impl Color {
    /// The color with the given parts.
    pub fn new(r: Scalar, g: Scalar, b: Scalar) -> (c: Color)
        ensures
            c@ == (ColorView { r: r@, g: g@, b: b@ }),
    {
        Color { r, g, b }
    }

    /// No light at all.
    pub fn black() -> (c: Color)
        ensures
            c@ == ColorView::black(),
    {
        Color { r: Scalar::zero(), g: Scalar::zero(), b: Scalar::zero() }
    }

    /// Full intensity in every part.
    pub fn white() -> (c: Color)
        ensures
            c@ == ColorView::white(),
    {
        Color { r: Scalar::one(), g: Scalar::one(), b: Scalar::one() }
    }

    /// Part-wise sum.
    pub fn add(&self, other: Color) -> (c: Color)
        ensures
            c@ == self@.plus(other@),
    {
        Color { r: self.r.add(other.r), g: self.g.add(other.g), b: self.b.add(other.b) }
    }

    /// Part-wise difference.
    pub fn subtract(&self, other: Color) -> (c: Color)
        ensures
            c@ == self@.minus(other@),
    {
        Color { r: self.r.sub(other.r), g: self.g.sub(other.g), b: self.b.sub(other.b) }
    }

    /// Every part times `s`.
    pub fn multiply(&self, s: Scalar) -> (c: Color)
        ensures
            c@ == self@.scaled(s@),
    {
        Color { r: self.r.mul(s), g: self.g.mul(s), b: self.b.mul(s) }
    }

    /// Part-wise product.
    pub fn hadamard(&self, other: Color) -> (c: Color)
        ensures
            c@ == self@.hadamard(other@),
    {
        Color { r: self.r.mul(other.r), g: self.g.mul(other.g), b: self.b.mul(other.b) }
    }

    /// Whether every part equals that of the other color up to the
    /// tolerance.
    pub fn is_equal(&self, other: Color) -> (r: bool)
        ensures
            r == self@.near(other@),
    {
        self.r.is_equal(other.r) && self.g.is_equal(other.g) && self.b.is_equal(other.b)
    }
}

} // verus!
