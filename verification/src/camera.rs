//! The camera: a canvas one unit in front of the eye, and the ray through
//! the center of each of its pixels.

use vstd::prelude::*;
use crate::canvas::Canvas;
use crate::color::ColorView;
use crate::matrix::{apply_view, inverse_view, invertible, Matrix4};
use crate::ray::{Ray, RayView};
use crate::scalar::{
    add_raw, div_raw, mul_raw, sub_raw, tan_raw, whole_raw, Scalar, SCALE,
};
use crate::tuple::{Tuple, TupleView};
use crate::world::{World, MAX_RECURSIONS};

verus! {

/// A camera: where it stands, how large its canvas is in pixels, how wide it
/// sees, and the measures of the canvas that follow from those.
pub struct Camera {
    pub view: Matrix4,
    pub horizontal_size: usize,
    pub vertical_size: usize,
    pub field_of_view: Scalar,
    pub half_width: Scalar,
    pub half_height: Scalar,
    pub pixel_size: Scalar,
}

/// Half the extent of the canvas along its longer side: the tangent of half
/// the field of view.
pub open spec fn half_view_raw(field_of_view: int) -> int {
    tan_raw(div_raw(field_of_view, 2 * SCALE))
}

/// Width of the canvas over its height, in pixels.
pub open spec fn aspect_raw(horizontal_size: int, vertical_size: int) -> int {
    div_raw(whole_raw(horizontal_size), whole_raw(vertical_size))
}

/// Half the width of the canvas: the half view where the canvas is at least
/// as wide as high, else the half view scaled down by the aspect.
pub open spec fn half_width_raw(horizontal_size: int, vertical_size: int, field_of_view: int)
    -> int {
    let aspect = aspect_raw(horizontal_size, vertical_size);
    if aspect >= SCALE {
        half_view_raw(field_of_view)
    } else {
        mul_raw(half_view_raw(field_of_view), aspect)
    }
}

/// Half the height of the canvas: the half view where the canvas is higher
/// than wide, else the half view scaled down by the aspect.
pub open spec fn half_height_raw(horizontal_size: int, vertical_size: int, field_of_view: int)
    -> int {
    let aspect = aspect_raw(horizontal_size, vertical_size);
    if aspect >= SCALE {
        div_raw(half_view_raw(field_of_view), aspect)
    } else {
        half_view_raw(field_of_view)
    }
}

/// The side of a pixel: the width of the canvas over its number of columns.
pub open spec fn pixel_size_raw(horizontal_size: int, vertical_size: int, field_of_view: int)
    -> int {
    div_raw(
        mul_raw(half_width_raw(horizontal_size, vertical_size, field_of_view), 2 * SCALE),
        whole_raw(horizontal_size),
    )
}

impl Camera {
    /// Whether the derived measures belong to the sizes and the field of view.
    pub open spec fn wf(&self) -> bool {
        let h = self.horizontal_size as int;
        let v = self.vertical_size as int;
        &&& self.half_width@ == half_width_raw(h, v, self.field_of_view@)
        &&& self.half_height@ == half_height_raw(h, v, self.field_of_view@)
        &&& self.pixel_size@ == pixel_size_raw(h, v, self.field_of_view@)
    }

    /// The ray from the eye through the center of the pixel in column
    /// `pixel_x` of row `pixel_y`. The canvas lies at `z = -1` before the
    /// view is undone, and its columns run from the left, where x is
    /// positive.
    pub open spec fn ray_spec(&self, pixel_x: int, pixel_y: int) -> RayView {
        let half = SCALE / 2;
        let offset_x = mul_raw(add_raw(whole_raw(pixel_x), half), self.pixel_size@);
        let offset_y = mul_raw(add_raw(whole_raw(pixel_y), half), self.pixel_size@);
        let world_x = sub_raw(self.half_width@, offset_x);
        let world_y = sub_raw(self.half_height@, offset_y);
        let inverse = inverse_view(self.view@);
        let pixel = apply_view(
            inverse,
            TupleView { x: world_x, y: world_y, z: -SCALE, w: SCALE as int },
        );
        let origin = apply_view(inverse, TupleView { x: 0, y: 0, z: 0, w: SCALE as int });
        RayView { origin: origin, direction: pixel.minus(origin).normalized() }
    }

    /// The color of the pixel in column `x` of row `y` in a picture of
    /// `world`: what the ray through the pixel sees, followed for the usual
    /// number of bounces.
    #[verifier::opaque]
    pub open spec fn pixel_color(&self, world: &World, x: int, y: int) -> ColorView {
        world.color_at_spec(self.ray_spec(x, y), MAX_RECURSIONS as nat)
    }

    /// A camera with the given view, canvas size in pixels and field of view
    /// in radians.
    pub fn new(view: Matrix4, horizontal_size: usize, vertical_size: usize, field_of_view: Scalar)
        -> (c: Camera)
        ensures
            c.wf(),
            c.view == view,
            c.horizontal_size == horizontal_size,
            c.vertical_size == vertical_size,
            c.field_of_view == field_of_view,
    {
        let half_view = field_of_view.div(Scalar::from_int(2)).tan();
        let aspect = Scalar::from_count(horizontal_size).div(Scalar::from_count(vertical_size));
        let half_width: Scalar;
        let half_height: Scalar;
        if aspect.ge(Scalar::one()) {
            half_width = half_view;
            half_height = half_view.div(aspect);
        } else {
            half_width = half_view.mul(aspect);
            half_height = half_view;
        }
        let pixel_size = half_width.mul(Scalar::from_int(2)).div(
            Scalar::from_count(horizontal_size),
        );

        Camera {
            view,
            horizontal_size,
            vertical_size,
            field_of_view,
            half_width,
            half_height,
            pixel_size,
        }
    }

    /// The ray from the eye through the center of a pixel. The view has to
    /// have an inverse.
    pub fn ray_at(&self, pixel_x: usize, pixel_y: usize) -> (r: Ray)
        requires
            invertible(self.view@),
        ensures
            r@ == self.ray_spec(pixel_x as int, pixel_y as int),
    {
        let half = Scalar::from_raw(SCALE / 2);
        let offset_x = Scalar::from_count(pixel_x).add(half).mul(self.pixel_size);
        let offset_y = Scalar::from_count(pixel_y).add(half).mul(self.pixel_size);

        let world_x = self.half_width.sub(offset_x);
        let world_y = self.half_height.sub(offset_y);

        let zero = Scalar::zero();
        let inverse = self.view.inverse().unwrap();
        let pixel = inverse.multiply_tuple(Tuple::point(world_x, world_y, Scalar::one().neg()));
        let origin = inverse.multiply_tuple(Tuple::point(zero, zero, zero));
        let direction = pixel.subtract(origin).normalize();

        Ray::new(origin, direction)
    }

    /// The picture of the world: every pixel has the color that the ray
    /// through its center sees, followed for the usual number of bounces.
    pub fn render(&self, world: World) -> (canvas: Canvas)
        requires
            invertible(self.view@),
            self.horizontal_size * self.vertical_size <= usize::MAX,
        ensures
            canvas.columns() == self.horizontal_size,
            canvas.rows() == self.vertical_size,
            forall|x: int, y: int|
                0 <= x < self.horizontal_size && 0 <= y < self.vertical_size ==> (
                #[trigger] canvas.pixel(x, y))@ == self.pixel_color(&world, x, y),
    {
        let mut canvas = Canvas::new(self.horizontal_size, self.vertical_size);
        let mut y: usize = 0;
        while y < self.vertical_size
            invariant
                y <= self.vertical_size,
                invertible(self.view@),
                canvas.columns() == self.horizontal_size,
                canvas.rows() == self.vertical_size,
                forall|i: int, j: int|
                    0 <= i < self.horizontal_size && 0 <= j < y ==> (#[trigger] canvas.pixel(
                        i,
                        j,
                    ))@ == self.pixel_color(&world, i, j),
            decreases self.vertical_size - y,
        {
            let mut x: usize = 0;
            while x < self.horizontal_size
                invariant
                    x <= self.horizontal_size,
                    y < self.vertical_size,
                    invertible(self.view@),
                    canvas.columns() == self.horizontal_size,
                    canvas.rows() == self.vertical_size,
                    forall|i: int, j: int|
                        0 <= i < self.horizontal_size && 0 <= j < y ==> (#[trigger] canvas.pixel(
                            i,
                            j,
                        ))@ == self.pixel_color(&world, i, j),
                    forall|i: int|
                        0 <= i < x ==> (#[trigger] canvas.pixel(i, y as int))@
                            == self.pixel_color(&world, i, y as int),
                decreases self.horizontal_size - x,
            {
                let ray = self.ray_at(x, y);
                let color = world.color_at(&ray, MAX_RECURSIONS);
                assert(color@ == self.pixel_color(&world, x as int, y as int)) by {
                    reveal(Camera::pixel_color);
                }
                canvas.set_pixel(x, y, color);
                x += 1;
            }
            y += 1;
        }
        canvas
    }
}

} // verus!
