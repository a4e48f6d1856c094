//! Surface materials and the lighting of a surface point by a point light.

use vstd::prelude::*;
use crate::color::{Color, ColorView};
use crate::light::{Light, LightView};
use crate::object::Object;
use crate::pattern::Pattern;
use crate::scalar::{lemma_mul_by_zero, lemma_mul_in_range, mul_raw, pow_raw, Scalar, SCALE};
use crate::tuple::{Tuple, TupleView};

verus! {

/// Where a surface takes its color from.
#[derive(Clone, Copy, Debug)]
pub enum Coloring {
    SolidColor(Color),
    SurfacePattern(Pattern),
}

/// How a surface answers to light: its color, the shares of ambient, diffuse
/// and specular light, the shininess of the highlight, how much it reflects
/// and lets through, and its refractive index.
#[derive(Clone, Copy, Debug)]
pub struct Material {
    pub color: Coloring,
    pub ambient: Scalar,
    pub diffuse: Scalar,
    pub specular: Scalar,
    pub shininess: Scalar,
    pub reflective: Scalar,
    pub transparency: Scalar,
    pub refractive: Scalar,
}

impl Material {
    /// Whether the optical properties lie in their ranges.
    pub open spec fn wf(&self) -> bool {
        &&& self.shininess@ >= 0
        &&& 0 <= self.reflective@ <= SCALE
        &&& 0 <= self.transparency@ <= SCALE
        &&& self.refractive@ > 0
    }

    /// The default material: white, ambient 0.1, diffuse 0.9, specular 0.9,
    /// shininess 200, neither reflective nor transparent, refractive index 1.
    pub open spec fn is_default(&self) -> bool {
        &&& self.color matches Coloring::SolidColor(c)
        &&& c@ == ColorView::white()
        &&& self.ambient@ == SCALE / 10
        &&& self.diffuse@ == 9 * (SCALE / 10)
        &&& self.specular@ == 9 * (SCALE / 10)
        &&& self.shininess@ == 200 * SCALE
        &&& self.reflective@ == 0
        &&& self.transparency@ == 0
        &&& self.refractive@ == SCALE
    }

    /// The default material.
    pub fn new() -> (m: Material)
        ensures
            m.is_default(),
            m.wf(),
    {
        Material {
            color: Coloring::SolidColor(Color::white()),
            ambient: Scalar::from_raw(SCALE / 10),
            diffuse: Scalar::from_raw(9 * (SCALE / 10)),
            specular: Scalar::from_raw(9 * (SCALE / 10)),
            shininess: Scalar::from_int(200),
            reflective: Scalar::zero(),
            transparency: Scalar::zero(),
            refractive: Scalar::one(),
        }
    }

    /// The color of the surface itself at a world point on `object`.
    pub open spec fn surface_color(&self, object: &Object, point: TupleView) -> ColorView {
        match self.color {
            Coloring::SolidColor(color) => color@,
            Coloring::SurfacePattern(pattern) => pattern.color_at_spec(object, point),
        }
    }

    /// Ambient, diffuse and specular light at a point, added up. In shadow
    /// only the ambient part is left. With the light behind the surface the
    /// diffuse and specular parts are black, and the specular part is black
    /// as well where the light reflects away from the eye.
    pub open spec fn lighting_spec(
        &self,
        light: LightView,
        object: &Object,
        point: TupleView,
        eye: TupleView,
        normal: TupleView,
        is_shadowed: bool,
    ) -> ColorView {
        let effective_color = self.surface_color(object, point).hadamard(light.intensity);
        let ambient = effective_color.scaled(self.ambient@);
        if is_shadowed {
            ambient
        } else {
            let light_vector = light.position.minus(point).normalized();
            let light_dot_normal = light_vector.dot(normal);
            if light_dot_normal < 0 {
                ambient.plus(ColorView::black()).plus(ColorView::black())
            } else {
                let diffuse = effective_color.scaled(mul_raw(self.diffuse@, light_dot_normal));
                let reflected_dot_eye = light_vector.negated().reflected(normal).dot(eye);
                if reflected_dot_eye <= 0 {
                    ambient.plus(diffuse).plus(ColorView::black())
                } else {
                    let factor = pow_raw(reflected_dot_eye, self.shininess@);
                    let specular = light.intensity.scaled(mul_raw(self.specular@, factor));
                    ambient.plus(diffuse).plus(specular)
                }
            }
        }
    }

    /// The light that reaches the eye from a point of `object`, by the
    /// lighting model of Phong.
    pub fn lighting(
        &self,
        light: &Light,
        object: &Object,
        point: Tuple,
        eye: Tuple,
        normal: Tuple,
        is_shadowed: bool,
    ) -> (c: Color)
        ensures
            c@ == self.lighting_spec(light@, object, point@, eye@, normal@, is_shadowed),
    {
        let surface = match &self.color {
            Coloring::SolidColor(color) => *color,
            Coloring::SurfacePattern(pattern) => pattern.color_at(object, point),
        };
        let effective_color = surface.hadamard(light.intensity);
        let ambient = effective_color.multiply(self.ambient);

        if is_shadowed {
            ambient
        } else {
            let light_vector = light.position.subtract(point).normalize();
            let light_dot_normal = light_vector.dot(normal);

            let diffuse: Color;
            let specular: Color;
            if light_dot_normal.lt(Scalar::zero()) {
                diffuse = Color::black();
                specular = Color::black();
            } else {
                diffuse = effective_color.multiply(self.diffuse.mul(light_dot_normal));
                let reflected = light_vector.negate().reflect(normal);
                let reflected_dot_eye = reflected.dot(eye);
                if reflected_dot_eye.le(Scalar::zero()) {
                    specular = Color::black();
                } else {
                    let factor = reflected_dot_eye.pow(self.shininess);
                    specular = light.intensity.multiply(self.specular.mul(factor));
                }
            }
            ambient.add(diffuse).add(specular)
        }
    }
}

/// A light without intensity leaves every surface black, whether the point
/// lies in shadow or not.
pub proof fn lemma_black_light_gives_black(
    material: Material,
    light: LightView,
    object: &Object,
    point: TupleView,
    eye: TupleView,
    normal: TupleView,
    is_shadowed: bool,
)
    requires
        light.intensity == ColorView::black(),
    ensures
        material.lighting_spec(light, object, point, eye, normal, is_shadowed)
            == ColorView::black(),
{
    let surface = material.surface_color(object, point);
    lemma_mul_by_zero(surface.r);
    lemma_mul_by_zero(surface.g);
    lemma_mul_by_zero(surface.b);
    lemma_mul_by_zero(material.ambient@);
    let light_vector = light.position.minus(point).normalized();
    lemma_mul_by_zero(mul_raw(material.diffuse@, light_vector.dot(normal)));
    let reflected_dot_eye = light_vector.negated().reflected(normal).dot(eye);
    lemma_mul_by_zero(mul_raw(material.specular@, pow_raw(reflected_dot_eye, material.shininess@)));
}

/// Scaling the intensity of a light by zero gives a light without intensity.
pub proof fn lemma_scaling_by_zero_gives_black(intensity: ColorView)
    ensures
        intensity.scaled(0) == ColorView::black(),
{
    lemma_mul_by_zero(intensity.r);
    lemma_mul_by_zero(intensity.g);
    lemma_mul_by_zero(intensity.b);
}

/// In shadow a point receives the ambient part of the light and nothing
/// else: the color of the surface times the intensity of the light, scaled
/// by the ambient share.
pub proof fn lemma_shadow_leaves_ambient(
    material: Material,
    light: LightView,
    object: &Object,
    point: TupleView,
    eye: TupleView,
    normal: TupleView,
)
    ensures
        material.lighting_spec(light, object, point, eye, normal, true) == material.surface_color(
            object,
            point,
        ).hadamard(light.intensity).scaled(material.ambient@),
{
}

/// With the light behind the surface, where the direction to the light and
/// the normal enclose more than a right angle, a point receives the ambient
/// part of the light and nothing else.
pub proof fn lemma_light_behind_surface(
    material: Material,
    light: LightView,
    object: &Object,
    point: TupleView,
    eye: TupleView,
    normal: TupleView,
)
    requires
        light.position.minus(point).normalized().dot(normal) < 0,
    ensures
        material.lighting_spec(light, object, point, eye, normal, false)
            == material.lighting_spec(light, object, point, eye, normal, true),
{
    let effective = material.surface_color(object, point).hadamard(light.intensity);
    lemma_mul_in_range(effective.r, material.ambient@);
    lemma_mul_in_range(effective.g, material.ambient@);
    lemma_mul_in_range(effective.b, material.ambient@);
}

} // verus!
