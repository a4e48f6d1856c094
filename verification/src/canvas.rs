//! A rectangular grid of pixels, stored row by row.

use vstd::prelude::*;
use crate::color::{Color, ColorView};

verus! {

/// A picture of a fixed width and height.
pub struct Canvas {
    width: usize,
    height: usize,
    pixels: Vec<Color>,
}

impl Canvas {
    #[verifier::type_invariant]
    spec fn holds_every_pixel(self) -> bool {
        self.pixels.len() == self.width * self.height
    }

    /// The number of pixels in a row.
    pub closed spec fn columns(&self) -> nat {
        self.width as nat
    }

    /// The number of rows.
    pub closed spec fn rows(&self) -> nat {
        self.height as nat
    }

    /// The color of the pixel in column `x` of row `y`.
    pub closed spec fn pixel(&self, x: int, y: int) -> Color {
        self.pixels[x + y * self.width]
    }

    /// A canvas of `w` by `h` black pixels.
    pub fn new(w: usize, h: usize) -> (c: Canvas)
        requires
            w * h <= usize::MAX,
        ensures
            c.columns() == w,
            c.rows() == h,
            forall|x: int, y: int|
                0 <= x < w && 0 <= y < h ==> (#[trigger] c.pixel(x, y))@ == ColorView::black(),
    {
        let c = Canvas { width: w, height: h, pixels: vec![Color::black(); w * h] };
        proof {
            assert forall|x: int, y: int| 0 <= x < w && 0 <= y < h implies (#[trigger] c.pixel(
                x,
                y,
            ))@ == ColorView::black() by {
                lemma_index_in_range(x, y, w as int, h as int);
            }
        }
        c
    }

    /// The number of pixels in a row.
    pub fn width(&self) -> (w: usize)
        ensures
            w == self.columns(),
    {
        self.width
    }

    /// The number of rows.
    pub fn height(&self) -> (h: usize)
        ensures
            h == self.rows(),
    {
        self.height
    }

    /// The color of the pixel in column `x` of row `y`.
    pub fn get_pixel(&self, x: usize, y: usize) -> (c: Color)
        requires
            x < self.columns(),
            y < self.rows(),
        ensures
            c == self.pixel(x as int, y as int),
    {
        proof {
            use_type_invariant(self);
            lemma_index_in_range(x as int, y as int, self.width as int, self.height as int);
        }
        self.pixels[x + y * self.width]
    }

    /// Gives the pixel in column `x` of row `y` the color `c`, and leaves
    /// every other pixel as it is.
    pub fn set_pixel(&mut self, x: usize, y: usize, c: Color)
        requires
            x < old(self).columns(),
            y < old(self).rows(),
        ensures
            final(self).columns() == old(self).columns(),
            final(self).rows() == old(self).rows(),
            final(self).pixel(x as int, y as int) == c,
            forall|i: int, j: int|
                0 <= i < old(self).columns() && 0 <= j < old(self).rows() && (i != x || j != y)
                    ==> #[trigger] final(self).pixel(i, j) == old(self).pixel(i, j),
    {
        proof {
            use_type_invariant(&*self);
            lemma_index_in_range(x as int, y as int, self.width as int, self.height as int);
        }
        let ghost before = *self;
        let index = x + y * self.width;
        self.pixels[index] = c;
        proof {
            assert forall|i: int, j: int|
                0 <= i < before.columns() && 0 <= j < before.rows() && (i != x || j != y)
                implies #[trigger] self.pixel(i, j) == before.pixel(i, j) by {
                lemma_index_distinct(i, j, x as int, y as int, self.width as int);
                lemma_index_in_range(i, j, self.width as int, self.height as int);
            }
        }
    }
}

/// The index of a pixel of the canvas lies within the pixels.
proof fn lemma_index_in_range(x: int, y: int, w: int, h: int)
    requires
        0 <= x < w,
        0 <= y < h,
    ensures
        0 <= y * w <= x + y * w < w * h,
{
    assert(y * w >= 0) by (nonlinear_arith)
        requires
            y >= 0,
            w >= 0,
    ;
    assert(x + y * w < w * h) by (nonlinear_arith)
        requires
            0 <= x < w,
            0 <= y,
            y + 1 <= h,
    ;
}

/// Two different pixels of a canvas have different indices.
proof fn lemma_index_distinct(i: int, j: int, x: int, y: int, w: int)
    requires
        0 <= i < w,
        0 <= x < w,
        0 <= j,
        0 <= y,
        i != x || j != y,
    ensures
        i + j * w != x + y * w,
{
    if j < y {
        assert(i + j * w < x + y * w) by (nonlinear_arith)
            requires
                0 <= i < w,
                0 <= x,
                j + 1 <= y,
        ;
    } else if y < j {
        assert(x + y * w < i + j * w) by (nonlinear_arith)
            requires
                0 <= x < w,
                0 <= i,
                y + 1 <= j,
        ;
    }
}

} // verus!
