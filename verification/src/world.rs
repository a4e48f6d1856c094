//! The scene, and the color that a ray sees in it: the light on the nearest
//! surface, plus what that surface reflects and lets through, followed up to
//! a given number of bounces.

use vstd::prelude::*;
use crate::color::{Color, ColorView};
use crate::intersection::{
    ascending, hit, hit_spec, lemma_hit_is_nearest, lemma_sorted_is_ascending,
    lemma_sorted_is_permutation, lemma_sorted_of_ascending, sort_by_t, sorted, views,
    Computations, ComputationsView, Intersection, IntersectionView,
};
use crate::light::Light;
use crate::object::Object;
use crate::ray::{Ray, RayView};
use crate::scalar::{
    add_raw, div_raw, lemma_mul_by_one, lemma_mul_by_share, lemma_mul_in_range,
    lemma_root_of_share, lemma_square_bounds, magnitude, mul_raw, powi_raw, sqrt_raw, sub_raw,
    Scalar, LIMIT, SCALE,
};
use crate::tuple::{lemma_component_over_largest, Tuple, TupleView};

verus! {

/// The number of bounces that callers usually allow.
pub const MAX_RECURSIONS: usize = 5;

/// Schlick's approximation of the reflectance at the border of two media:
/// `r0 + (1 - r0) (1 - cos)^5` with `r0 = ((n1 - n2) / (n1 + n2))^2`.
pub open spec fn schlick_helper_spec(n1: int, n2: int, cosine: int) -> int {
    let ratio = div_raw(sub_raw(n1, n2), add_raw(n1, n2));
    let r0 = mul_raw(ratio, ratio);
    add_raw(r0, mul_raw(sub_raw(SCALE as int, r0), powi_raw(sub_raw(SCALE as int, cosine), 5)))
}

/// `(n1 / n2)^2 (1 - cos^2)`: the squared sine of the angle of the ray on the
/// far side of the surface.
pub open spec fn sin2_beyond(c: ComputationsView) -> int {
    let ratio = div_raw(c.n1, c.n2);
    let cosine = c.eye.dot(c.normal);
    mul_raw(mul_raw(ratio, ratio), sub_raw(SCALE as int, mul_raw(cosine, cosine)))
}

/// The share of light that a surface reflects. It is one under total internal
/// reflection, which needs a denser medium on the near side and a squared
/// sine above one. Leaving a denser medium otherwise, the cosine on the far
/// side enters the approximation, else the cosine on the near side.
pub open spec fn schlick_spec(c: ComputationsView) -> int {
    if c.n1 > c.n2 && sin2_beyond(c) > SCALE {
        SCALE as int
    } else if c.n1 > c.n2 {
        schlick_helper_spec(c.n1, c.n2, sqrt_raw(sub_raw(SCALE as int, sin2_beyond(c))))
    } else {
        schlick_helper_spec(c.n1, c.n2, c.eye.dot(c.normal))
    }
}

/// The ray on the far side of a surface that lets light through.
pub open spec fn refracted_ray(c: ComputationsView) -> RayView {
    let ratio = div_raw(c.n1, c.n2);
    let cos_i = c.eye.dot(c.normal);
    let cos_t = sqrt_raw(sub_raw(SCALE as int, sin2_beyond(c)));
    RayView {
        origin: c.under_point,
        direction: c.normal.scaled(sub_raw(mul_raw(ratio, cos_i), cos_t)).minus(
            c.eye.scaled(ratio),
        ),
    }
}

/// The intersections of a ray with the objects one after the other.
pub open spec fn gathered(objects: Seq<Object>, ray: RayView) -> Seq<IntersectionView>
    decreases objects.len(),
{
    if objects.len() == 0 {
        Seq::empty()
    } else {
        gathered(objects.drop_last(), ray) + objects.last().intersections(ray)
    }
}

/// Schlick's approximation for the refractive indices on the two sides of a
/// surface and the cosine of the angle of the ray.
pub fn schlick_reflectance_helper(n1: Scalar, n2: Scalar, cosine_of_angle: Scalar) -> (r: Scalar)
    ensures
        r@ == schlick_helper_spec(n1@, n2@, cosine_of_angle@),
{
    let one = Scalar::one();
    let ratio = n1.sub(n2).div(n1.add(n2));
    ratio.mul(ratio).add(one.sub(ratio.mul(ratio)).mul(one.sub(cosine_of_angle).powi(5)))
}

/// The share of light that the surface reflects at a hit.
pub fn schlick_reflectance(computations: Computations) -> (r: Scalar)
    ensures
        r@ == schlick_spec(computations@),
{
    let one = Scalar::one();
    let cos_theta_1 = computations.eye.dot(computations.normal);
    let n = computations.n1.div(computations.n2);
    let sin2_theta_1 = n.mul(n).mul(one.sub(cos_theta_1.mul(cos_theta_1)));
    let cos_theta_2 = one.sub(sin2_theta_1).sqrt();
    if computations.n1.gt(computations.n2) && sin2_theta_1.gt(one) {
        one
    } else if computations.n1.gt(computations.n2) {
        schlick_reflectance_helper(computations.n1, computations.n2, cos_theta_2)
    } else {
        schlick_reflectance_helper(computations.n1, computations.n2, cos_theta_1)
    }
}

/// A scene: one light and the objects it shines on.
pub struct World {
    pub light: Light,
    pub objects: Vec<Object>,
}

impl World {
    /// All intersections of a ray with the objects of the scene, in
    /// ascending order of the ray parameter.
    pub open spec fn intersections(&self, ray: RayView) -> Seq<IntersectionView> {
        sorted(gathered(self.objects@, ray))
    }

    /// Whether something lies between a point and the light: the ray from
    /// the point toward the light has a hit that is nearer than the light.
    pub open spec fn shadowed(&self, point: TupleView) -> bool {
        let light_to_point = self.light@.position.minus(point);
        let ray = RayView { origin: point, direction: light_to_point.normalized() };
        match hit_spec(self.intersections(ray)) {
            Some(h) => h.t < light_to_point.magnitude(),
            None => false,
        }
    }

    /// The color that a ray sees: black where it hits nothing in front of its
    /// origin, else the shade of its nearest hit.
    pub open spec fn color_at_spec(&self, ray: RayView, remaining: nat) -> ColorView
        decreases remaining, 2int,
    {
        let all = self.intersections(ray);
        match hit_spec(all) {
            None => ColorView::black(),
            Some(h) => self.shade_hit_spec(h.prepared(ray, all), remaining),
        }
    }

    /// The light on the surface plus what the surface reflects and lets
    /// through. Where the material both reflects and lets light through, the
    /// reflectance weighs the two against each other.
    pub open spec fn shade_hit_spec(&self, c: ComputationsView, remaining: nat) -> ColorView
        decreases remaining, 1int,
    {
        let material = c.object.material_spec();
        let surface = material.lighting_spec(
            self.light@,
            &c.object,
            c.point,
            c.eye,
            c.normal,
            self.shadowed(c.over_point),
        );
        let reflected = self.reflected_color_spec(c, remaining);
        let refracted = self.refracted_color_spec(c, remaining);
        if material.reflective@ > 0 && material.transparency@ > 0 {
            let reflectance = schlick_spec(c);
            surface.plus(reflected.scaled(reflectance)).plus(
                refracted.scaled(sub_raw(SCALE as int, reflectance)),
            )
        } else {
            surface.plus(reflected).plus(refracted)
        }
    }

    /// What the surface reflects: black with no bounce left or a material
    /// that does not reflect, else the color seen along the reflected ray
    /// with one bounce less, scaled by the reflectivity.
    pub open spec fn reflected_color_spec(&self, c: ComputationsView, remaining: nat) -> ColorView
        decreases remaining, 0int,
    {
        if remaining == 0 {
            ColorView::black()
        } else if c.object.material_spec().reflective@ == 0 {
            ColorView::black()
        } else {
            self.color_at_spec(
                RayView { origin: c.over_point, direction: c.reflected },
                (remaining - 1) as nat,
            ).scaled(c.object.material_spec().reflective@)
        }
    }

    /// What the surface lets through: black with no bounce left, an opaque
    /// material or total internal reflection, else the color seen along the
    /// refracted ray with one bounce less, scaled by the transparency.
    pub open spec fn refracted_color_spec(&self, c: ComputationsView, remaining: nat) -> ColorView
        decreases remaining, 0int,
    {
        if remaining == 0 {
            ColorView::black()
        } else if c.object.material_spec().transparency@ == 0 {
            ColorView::black()
        } else if sin2_beyond(c) > SCALE {
            ColorView::black()
        } else {
            self.color_at_spec(refracted_ray(c), (remaining - 1) as nat).scaled(
                c.object.material_spec().transparency@,
            )
        }
    }

    /// The world with the given light and objects.
    pub fn new(light: Light, objects: Vec<Object>) -> (w: World)
        ensures
            w.light == light,
            w.objects == objects,
    {
        World { light, objects }
    }

    /// All intersections of a ray with the objects of the world, in
    /// ascending order of the parameter.
    pub fn intersect<'scene>(&'scene self, ray: &Ray) -> (xs: Vec<Intersection<'scene>>)
        ensures
            views(xs@) == self.intersections(ray@),
    {
        let mut all_intersections: Vec<Intersection<'scene>> = Vec::new();
        let mut i: usize = 0;
        assert(views(all_intersections@) =~= gathered(self.objects@.take(0), ray@));
        while i < self.objects.len()
            invariant
                i <= self.objects.len(),
                views(all_intersections@) == gathered(self.objects@.take(i as int), ray@),
            decreases self.objects.len() - i,
        {
            let ghost before = all_intersections@;
            let mut intersections = self.objects[i].intersect(ray);
            let ghost added = intersections@;
            all_intersections.append(&mut intersections);
            proof {
                let upto = self.objects@.take(i + 1);
                assert(upto.last() == self.objects[i as int]);
                assert(upto.drop_last() =~= self.objects@.take(i as int));
                assert(views(before + added) =~= views(before) + views(added));
            }
            i += 1;
        }
        assert(self.objects@.take(i as int) =~= self.objects@);
        sort_by_t(&mut all_intersections);
        all_intersections
    }

    /// Whether something lies between a point and the light.
    pub fn is_shadowed(&self, point: Tuple) -> (r: bool)
        ensures
            r == self.shadowed(point@),
    {
        let light_to_point = self.light.position.subtract(point);
        let distance = light_to_point.magnitude();
        let direction = light_to_point.normalize();
        let ray = Ray::new(point, direction);
        let mut intersections = self.intersect(&ray);
        let hit = hit(&mut intersections);
        match hit {
            Some(h) => h.t.lt(distance),
            None => false,
        }
    }

    /// The color that the surface lets through at a hit, followed for at
    /// most `remaining_reflections` bounces.
    pub fn refracted_color(&self, computations: &Computations, remaining_reflections: usize) -> (c:
        Color)
        ensures
            c@ == self.refracted_color_spec(computations@, remaining_reflections as nat),
        decreases remaining_reflections, 0int,
    {
        if remaining_reflections == 0 {
            return Color::black();
        }
        let one = Scalar::one();
        if computations.object.get_material().transparency.equals(Scalar::zero()) {
            Color::black()
        } else {
            let n_ratio = computations.n1.div(computations.n2);
            let cos_theta_i = computations.eye.dot(computations.normal);
            let sin2_theta_t = n_ratio.mul(n_ratio).mul(one.sub(cos_theta_i.mul(cos_theta_i)));

            if sin2_theta_t.gt(one) {
                Color::black()
            } else {
                let cos_theta_t = one.sub(sin2_theta_t).sqrt();
                let direction = computations.normal.multiply(
                    n_ratio.mul(cos_theta_i).sub(cos_theta_t),
                ).subtract(computations.eye.multiply(n_ratio));
                let refracted_ray = Ray::new(computations.under_point, direction);
                self.color_at(&refracted_ray, remaining_reflections - 1).multiply(
                    computations.object.get_material().transparency,
                )
            }
        }
    }

    /// The color that the surface reflects at a hit, followed for at most
    /// `remaining_reflections` bounces.
    pub fn reflected_color(&self, computations: &Computations, remaining_reflections: usize) -> (c:
        Color)
        ensures
            c@ == self.reflected_color_spec(computations@, remaining_reflections as nat),
        decreases remaining_reflections, 0int,
    {
        if remaining_reflections == 0 {
            return Color::black();
        }
        if computations.object.get_material().reflective.equals(Scalar::zero()) {
            Color::black()
        } else {
            let reflected_ray = Ray::new(computations.over_point, computations.reflected);
            let reflected_color = self.color_at(&reflected_ray, remaining_reflections - 1);
            reflected_color.multiply(computations.object.get_material().reflective)
        }
    }

    /// The color of a hit.
    pub fn shade_hit(&self, computations: Computations, remaining_reflections: usize) -> (c: Color)
        ensures
            c@ == self.shade_hit_spec(computations@, remaining_reflections as nat),
        decreases remaining_reflections, 1int,
    {
        let is_shadowed = self.is_shadowed(computations.over_point);

        let material = computations.object.get_material();
        let surface_color = material.lighting(
            &self.light,
            computations.object,
            computations.point,
            computations.eye,
            computations.normal,
            is_shadowed,
        );
        let reflected_color = self.reflected_color(&computations, remaining_reflections);
        let refracted_color = self.refracted_color(&computations, remaining_reflections);

        let zero = Scalar::zero();
        if material.reflective.gt(zero) && material.transparency.gt(zero) {
            let reflectance = schlick_reflectance(computations);
            surface_color.add(reflected_color.multiply(reflectance)).add(
                refracted_color.multiply(Scalar::one().sub(reflectance)),
            )
        } else {
            surface_color.add(reflected_color).add(refracted_color)
        }
    }

    /// The color that a ray sees, followed for at most
    /// `remaining_reflections` bounces.
    pub fn color_at(&self, ray: &Ray, remaining_reflections: usize) -> (c: Color)
        ensures
            c@ == self.color_at_spec(ray@, remaining_reflections as nat),
        decreases remaining_reflections, 2int,
    {
        let mut intersections = self.intersect(ray);
        let intersections_copy = intersections.clone();
        assert(views(intersections_copy@) =~= views(intersections@));
        let hit = hit(&mut intersections);
        match hit {
            None => Color::black(),
            Some(intersection) => {
                let computations = intersection.prepare_computations(ray, intersections_copy);
                self.shade_hit(computations, remaining_reflections)
            },
        }
    }
}

/// Under total internal reflection, where the squared sine on the far side
/// exceeds one, nothing passes the surface, however many bounces are left,
/// and a surface that borders on a thinner medium reflects all light.
pub proof fn lemma_total_internal_reflection(world: World, c: ComputationsView, remaining: nat)
    requires
        sin2_beyond(c) > SCALE,
    ensures
        world.refracted_color_spec(c, remaining) == ColorView::black(),
        c.n1 > c.n2 ==> schlick_spec(c) == SCALE,
{
}

/// With no bounce left a surface neither reflects nor lets anything through.
pub proof fn lemma_no_bounce_left(world: World, c: ComputationsView)
    ensures
        world.reflected_color_spec(c, 0) == ColorView::black(),
        world.refracted_color_spec(c, 0) == ColorView::black(),
{
}

/// A material that does not reflect gives no reflected color, and an opaque
/// material lets nothing through.
pub proof fn lemma_dull_and_opaque(world: World, c: ComputationsView, remaining: nat)
    ensures
        c.object.material_spec().reflective@ == 0 ==> world.reflected_color_spec(c, remaining)
            == ColorView::black(),
        c.object.material_spec().transparency@ == 0 ==> world.refracted_color_spec(c, remaining)
            == ColorView::black(),
{
}

/// The intersections of a ray with a world are those of its objects, each as
/// often as its object gives it, in ascending order of the parameter.
pub proof fn lemma_world_intersections(world: World, ray: RayView)
    ensures
        ascending(world.intersections(ray)),
        world.intersections(ray).to_multiset() == gathered(world.objects@, ray).to_multiset(),
        world.intersections(ray).len() == gathered(world.objects@, ray).len(),
{
    lemma_sorted_is_ascending(gathered(world.objects@, ray));
    lemma_sorted_is_permutation(gathered(world.objects@, ray));
}

/// A ray sees black where every intersection lies behind its origin.
pub proof fn lemma_miss_is_black(world: World, ray: RayView, remaining: nat)
    requires
        forall|i: int|
            0 <= i < gathered(world.objects@, ray).len() ==> (#[trigger] gathered(
                world.objects@,
                ray,
            )[i]).t < 0,
    ensures
        world.color_at_spec(ray, remaining) == ColorView::black(),
{
    let all = world.intersections(ray);
    lemma_world_intersections(world, ray);
    lemma_sorted_of_ascending(all);
    lemma_hit_is_nearest(all);
    if let Some(h) = hit_spec(all) {
        broadcast use vstd::seq_lib::group_to_multiset_ensures;

        assert(all.contains(h));
        assert(all.to_multiset().count(h) > 0);
        assert(gathered(world.objects@, ray).contains(h));
    }
}

/// The approximation of Schlick gives a share: for refractive indices that
/// are positive and a cosine between zero and one it lies between zero and
/// one.
pub proof fn lemma_schlick_helper_is_a_share(n1: int, n2: int, cosine: int)
    requires
        0 < n1,
        0 < n2,
        n1 + n2 <= LIMIT,
        0 <= cosine <= SCALE,
    ensures
        0 <= schlick_helper_spec(n1, n2, cosine) <= SCALE,
{
    let s = SCALE as int;
    let ratio = div_raw(sub_raw(n1, n2), add_raw(n1, n2));
    lemma_component_over_largest(n1 - n2, n1 + n2);
    assert(s * s <= LIMIT * SCALE) by (nonlinear_arith)
        requires
            s == 10_000_000_000_000_000,
            LIMIT == 10_000_000_000_000_000_000_000_000_000_000_000,
            SCALE == 10_000_000_000_000_000,
    ;
    lemma_square_bounds(ratio, s);
    let r0 = mul_raw(ratio, ratio);
    assert(magnitude(ratio) * magnitude(ratio) <= s * s) by (nonlinear_arith)
        requires
            0 <= magnitude(ratio) <= s,
    ;
    assert(r0 <= s) by (nonlinear_arith)
        requires
            s * r0 <= s * s,
            s > 0,
    ;
    // the fifth power of a share is a share
    let x = sub_raw(s, cosine);
    reveal_with_fuel(powi_raw, 6);
    lemma_mul_by_one(x);
    let p1 = powi_raw(x, 1);
    assert(p1 == x);
    lemma_mul_by_share(p1, p1);
    let p2 = powi_raw(x, 2);
    assert(p2 == mul_raw(p1, p1));
    lemma_mul_by_share(p2, p2);
    let p4 = powi_raw(x, 4);
    assert(p4 == mul_raw(p2, p2));
    lemma_mul_by_share(p4, x);
    let p5 = powi_raw(x, 5);
    assert(p5 == mul_raw(p4, x));
    lemma_mul_by_share(s - r0, p5);
}

/// The reflectance at a hit is a share, between zero and one, wherever the
/// refractive indices on both sides are positive and the normal, of length
/// one, faces the eye: wherever the cosine of the angle between the two lies
/// between zero and one.
pub proof fn lemma_schlick_is_a_share(c: ComputationsView)
    requires
        0 < c.n1,
        0 < c.n2,
        c.n1 + c.n2 <= LIMIT,
        0 <= c.eye.dot(c.normal) <= SCALE,
    ensures
        0 <= schlick_spec(c) <= SCALE,
{
    let s = SCALE as int;
    let cosine = c.eye.dot(c.normal);
    if c.n1 > c.n2 && sin2_beyond(c) <= SCALE {
        let beyond = sub_raw(s, sin2_beyond(c));
        lemma_mul_in_range(
            mul_raw(div_raw(c.n1, c.n2), div_raw(c.n1, c.n2)),
            sub_raw(s, mul_raw(cosine, cosine)),
        );
        lemma_mul_by_share(cosine, cosine);
        lemma_square_is_nonnegative(div_raw(c.n1, c.n2));
        lemma_nonnegative_product(
            mul_raw(div_raw(c.n1, c.n2), div_raw(c.n1, c.n2)),
            sub_raw(s, mul_raw(cosine, cosine)),
        );
        lemma_root_of_share(beyond);
        lemma_schlick_helper_is_a_share(c.n1, c.n2, sqrt_raw(beyond));
    } else if c.n1 <= c.n2 {
        lemma_schlick_helper_is_a_share(c.n1, c.n2, cosine);
    }
}

/// A square is not negative.
proof fn lemma_square_is_nonnegative(x: int)
    ensures
        0 <= mul_raw(x, x),
{
    let m = magnitude(x);
    assert(0 <= m * m) by (nonlinear_arith);
    vstd::arithmetic::div_mod::lemma_div_pos_is_pos(m * m, SCALE as int);
    let q = (m * m) / (SCALE as int);
    assert(1 * q == q) by (nonlinear_arith);
    assert(1 * (LIMIT as int) == LIMIT) by (nonlinear_arith);
}

/// The product of two numbers that are not negative is not negative.
proof fn lemma_nonnegative_product(x: int, y: int)
    requires
        0 <= x,
        0 <= y,
    ensures
        0 <= mul_raw(x, y),
{
    assert(0 <= x * y) by (nonlinear_arith)
        requires
            0 <= x,
            0 <= y,
    ;
    vstd::arithmetic::div_mod::lemma_div_pos_is_pos(x * y, SCALE as int);
    let q = (x * y) / (SCALE as int);
    assert(1 * q == q) by (nonlinear_arith);
    assert(1 * (LIMIT as int) == LIMIT) by (nonlinear_arith);
}

} // verus!
