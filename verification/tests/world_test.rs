use raytracer::color::Color;
use raytracer::intersection::Intersection;
use raytracer::light::Light;
use raytracer::material::{Coloring, Material};
use raytracer::matrix::Matrix4;
use raytracer::object::Object;
use raytracer::pattern::{Pattern, Test};
use raytracer::plane::Plane;
use raytracer::ray::Ray;
use raytracer::scalar::Scalar;
use raytracer::sphere::Sphere;
use raytracer::transform::{scaling, translation};
use raytracer::tuple::Tuple;
use raytracer::world::{schlick_reflectance, schlick_reflectance_helper, World, MAX_RECURSIONS};

fn s(x: f64) -> Scalar {
    let text = format!("{}", x);
    let (whole, fraction) = text.split_once('.').unwrap_or((text.as_str(), ""));
    let mut digits = format!("{}{:0<16}", whole, fraction);
    digits.truncate(whole.len() + 16);
    Scalar::from_raw(digits.parse::<i128>().unwrap())
}

fn point(x: f64, y: f64, z: f64) -> Tuple {
    Tuple::point(s(x), s(y), s(z))
}

fn vector(x: f64, y: f64, z: f64) -> Tuple {
    Tuple::vector(s(x), s(y), s(z))
}

fn color(r: f64, g: f64, b: f64) -> Color {
    Color::new(s(r), s(g), s(b))
}

fn material(
    coloring: Coloring,
    ambient: f64,
    diffuse: f64,
    specular: f64,
    reflective: f64,
    transparency: f64,
    refractive: f64,
) -> Material {
    Material {
        color: coloring,
        ambient: s(ambient),
        diffuse: s(diffuse),
        specular: s(specular),
        shininess: s(200.0),
        reflective: s(reflective),
        transparency: s(transparency),
        refractive: s(refractive),
    }
}

fn solid(r: f64, g: f64, b: f64) -> Coloring {
    Coloring::SolidColor(color(r, g, b))
}

fn light() -> Light {
    Light::new(point(-10., 10., -10.), color(1., 1., 1.))
}

fn outer(m: Material) -> Object {
    Object::Sphere(Sphere::new(Matrix4::identity(), m))
}

fn inner(m: Material) -> Object {
    Object::Sphere(Sphere::new(scaling(s(0.5), s(0.5), s(0.5)), m))
}

fn outer_material() -> Material {
    material(solid(0.8, 1.0, 0.6), 0.1, 0.7, 0.2, 0.0, 0.0, 1.0)
}

fn test_world() -> World {
    World { light: light(), objects: vec![outer(outer_material()), inner(Material::new())] }
}

fn glass_world() -> World {
    let glass = material(solid(1., 1., 1.), 0.1, 0.9, 0.9, 0.0, 1.0, 1.5);
    World { light: light(), objects: vec![outer(glass)] }
}

fn slanted_ray() -> Ray {
    Ray::new(point(0., 0., -3.), vector(0., -2.0_f64.sqrt() / 2., 2.0_f64.sqrt() / 2.))
}

#[test]
fn test_world_new() {
    let world = World::new(light(), vec![outer(outer_material()), inner(Material::new())]);
    assert_eq!(world.objects.len(), 2);
    assert_eq!(world.light.position, point(-10., 10., -10.));
    assert_eq!(world.light.intensity, color(1., 1., 1.));
    assert_eq!(world.objects[1].get_inverse_transform(), scaling(s(2.), s(2.), s(2.)));
    assert_eq!(MAX_RECURSIONS, 5);
}

#[test]
fn test_intersect_world() {
    let world = test_world();
    let ray = Ray::new(point(0., 0., -5.), vector(0., 0., 1.));
    let intersections = world.intersect(&ray);
    assert_eq!(intersections.len(), 4);
    let ts: Vec<Scalar> = intersections.iter().map(|i| i.t).collect();
    assert_eq!(ts, [s(4.), s(4.5), s(5.5), s(6.)]);
}

#[test]
fn test_intersect_world_keeps_each_object() {
    let world = test_world();
    let ray = Ray::new(point(0., 0., -5.), vector(0., 0., 1.));
    let intersections = world.intersect(&ray);
    let owners: Vec<bool> =
        intersections.iter().map(|i| i.object.is_equal(&world.objects[0])).collect();
    assert_eq!(owners, vec![true, false, false, true]);
    let empty = World::new(light(), vec![]);
    assert_eq!(empty.intersect(&ray).len(), 0);
}

#[test]
fn test_is_shadowed_point_is_not_collinear_with_light() {
    let world = test_world();
    assert_eq!(world.is_shadowed(point(0., 10., 0.)), false);
}

#[test]
fn test_is_shadowed_object_between_light_and_point() {
    let world = test_world();
    assert_eq!(world.is_shadowed(point(10., -10., 10.)), true);
}

#[test]
fn test_is_shadowed_light_between_point_and_object() {
    let world = test_world();
    assert_eq!(world.is_shadowed(point(-20., 20., -20.)), false);
}

#[test]
fn test_is_shadowed_point_between_light_and_object() {
    let world = test_world();
    assert_eq!(world.is_shadowed(point(-2., 2., -2.)), false);
}

#[test]
fn test_shade_hit_outside() {
    let world = test_world();
    let ray = Ray::new(point(0., 0., -5.), vector(0., 0., 1.));
    let shape = world.objects.first().unwrap();
    let intersection = Intersection::new(s(4.), shape);
    let computations = intersection.prepare_computations(&ray, vec![intersection.clone()]);
    let c = world.shade_hit(computations, MAX_RECURSIONS);
    assert!(c.is_equal(color(0.38066, 0.47583, 0.2855)));
}

#[test]
fn test_shade_hit_inside() {
    let mut world = test_world();
    world.light = Light::new(point(0., 0.25, 0.), color(1., 1., 1.));
    let ray = Ray::new(point(0., 0., 0.), vector(0., 0., 1.));
    let shape = world.objects.iter().nth(1).unwrap();
    let intersection = Intersection::new(s(0.5), shape);
    let computations = intersection.prepare_computations(&ray, vec![intersection.clone()]);
    let c = world.shade_hit(computations, MAX_RECURSIONS);
    assert!(c.is_equal(color(0.90498, 0.90498, 0.90498)));
}

#[test]
fn test_shade_hit_in_shadow() {
    let near = Object::Sphere(Sphere::new(Matrix4::identity(), Material::new()));
    let far = Object::Sphere(Sphere::new(translation(s(0.), s(0.), s(10.)), Material::new()));
    let world = World::new(Light::new(point(0., 0., -10.), color(1., 1., 1.)), vec![near, far]);
    let ray = Ray::new(point(0., 0., 5.), vector(0., 0., 1.));
    let intersection = Intersection::new(s(4.), &world.objects[1]);
    let computations = intersection.prepare_computations(&ray, vec![intersection.clone()]);
    let c = world.shade_hit(computations, MAX_RECURSIONS);
    assert!(c.is_equal(color(0.1, 0.1, 0.1)));
}

#[test]
fn test_shade_hit_reflective_material() {
    let s1 = outer(outer_material());
    let s2 = inner(material(solid(1., 1., 1.), 1.0, 0.9, 0.9, 0.0, 0.0, 1.0));
    let plane = Object::Plane(Plane::new(
        translation(s(0.), s(-1.), s(0.)),
        material(solid(1., 1., 1.), 0.1, 0.9, 0.9, 0.5, 0.0, 1.0),
    ));
    let world = World { light: light(), objects: vec![s1.clone(), s2.clone(), plane.clone()] };

    let ray = slanted_ray();
    let intersection = Intersection::new(s(2.0_f64.sqrt()), &plane);
    let computations = intersection.prepare_computations(&ray, vec![intersection.clone()]);
    let c = world.shade_hit(computations, MAX_RECURSIONS);
    assert!(c.is_equal(color(0.87676, 0.92434, 0.82917)));
}

#[test]
fn test_color_at_ray_misses() {
    let world = test_world();
    let ray = Ray::new(point(0., 0., -5.), vector(0., 1., 0.));
    let c = world.color_at(&ray, MAX_RECURSIONS);
    assert_eq!(c, Color::black());
}

#[test]
fn test_color_at_ray_hits() {
    let world = test_world();
    let ray = Ray::new(point(0., 0., -5.), vector(0., 0., 1.));
    let c = world.color_at(&ray, MAX_RECURSIONS);
    assert!(c.is_equal(color(0.38066, 0.47583, 0.2855)));
}

#[test]
fn test_color_at_ray_inside_outer_sphere_and_outside_inner_sphere() {
    let s1 = outer(material(solid(0.8, 1.0, 0.6), 1., 0.7, 0.2, 0.0, 0.0, 1.0));
    let mut m2 = Material::new();
    m2.ambient = s(1.);
    let s2 = inner(m2);
    let world = World { light: light(), objects: vec![s1, s2] };

    let ray = Ray::new(point(0., 0., 0.75), vector(0., 0., -1.));
    let c = world.color_at(&ray, MAX_RECURSIONS);
    assert_eq!(c, Color::white());
}

#[test]
fn test_prepare_computations_nonrelective_material() {
    let s1 = outer(material(solid(0.8, 1.0, 0.6), 0.0, 0.7, 0.2, 0.0, 0.0, 1.0));
    let s2 = inner(material(solid(1., 1., 1.), 0.1, 0.9, 0.9, 0.0, 0.0, 1.0));
    let world = World { light: light(), objects: vec![s1.clone(), s2.clone()] };

    let ray = Ray::new(point(0., 0., 0.), vector(0., 0., 1.));
    let intersection = Intersection::new(s(1.), &s2);
    let computations = intersection.prepare_computations(&ray, vec![intersection.clone()]);
    let reflected_color = world.reflected_color(&computations, MAX_RECURSIONS);
    assert_eq!(reflected_color, Color::black());
}

#[test]
fn test_prepare_computations_reflective_material() {
    let s1 = outer(outer_material());
    let s2 = inner(material(solid(1., 1., 1.), 1.0, 0.9, 0.9, 0.0, 0.0, 1.0));
    let plane = Object::Plane(Plane::new(
        translation(s(0.), s(-1.), s(0.)),
        material(solid(1., 1., 1.), 0.0, 0.7, 0.2, 0.5, 0.0, 1.0),
    ));
    let world = World { light: light(), objects: vec![s1.clone(), s2.clone(), plane.clone()] };

    let ray = slanted_ray();
    let intersection = Intersection::new(s(2.0_f64.sqrt()), &plane);
    let computations = intersection.prepare_computations(&ray, vec![intersection.clone()]);
    let reflected_color = world.reflected_color(&computations, MAX_RECURSIONS);
    assert!(reflected_color.is_equal(color(0.19033, 0.23792, 0.14275)));
}

#[test]
fn test_reflected_color_at_maximum_recursive_depth() {
    let plane = Object::Plane(Plane::new(
        translation(s(0.), s(-1.), s(0.)),
        material(solid(1., 1., 1.), 0.0, 0.7, 0.2, 0.5, 0.0, 1.0),
    ));
    let world = World { light: light(), objects: vec![outer(outer_material()), plane.clone()] };
    let ray = slanted_ray();
    let intersection = Intersection::new(s(2.0_f64.sqrt()), &plane);
    let computations = intersection.prepare_computations(&ray, vec![intersection.clone()]);
    assert_eq!(world.reflected_color(&computations, 0), Color::black());
    assert!(world.reflected_color(&computations, 1) != Color::black());
}

#[test]
fn test_color_at_terminates_safely() {
    let mirror = material(solid(1., 1., 1.), 0.1, 0.7, 0.2, 1.0, 0.0, 1.0);
    let lower_plane = Object::Plane(Plane::new(translation(s(0.), s(-1.), s(0.)), mirror));
    let upper_plane = Object::Plane(Plane::new(translation(s(0.), s(1.), s(0.)), mirror));
    let world = World {
        light: Light::new(point(0., 0., 0.), color(1., 1., 1.)),
        objects: vec![lower_plane, upper_plane],
    };

    let ray = slanted_ray();
    // There is nothing to assert here; just that the call to color_at terminates.
    let _color = world.color_at(&ray, MAX_RECURSIONS);
}

#[test]
fn test_refracted_color_opaque_surface() {
    let world = test_world();
    let ray = Ray::new(point(0., 0., -5.), vector(0., 0., 1.));
    let intersections = world.intersect(&ray);
    let i1 = intersections.iter().nth(0).unwrap();
    let computations = i1.prepare_computations(&ray, intersections.clone());
    let c = world.refracted_color(&computations, MAX_RECURSIONS);
    assert_eq!(c, Color::black());
}

#[test]
fn test_refracted_color_at_maximum_recursive_depth() {
    let s1 = outer(material(solid(0.8, 1.0, 0.6), 0.1, 0.7, 0.2, 0.0, 1.0, 1.5));
    let world = World { light: light(), objects: vec![s1, inner(Material::new())] };

    let ray = Ray::new(point(0., 0., -5.), vector(0., 0., 1.));
    let intersections = world.intersect(&ray);
    let i1 = intersections.iter().nth(0).unwrap();
    let computations = i1.prepare_computations(&ray, intersections.clone());
    let c = world.refracted_color(&computations, 0);
    assert_eq!(c, Color::black());
}

#[test]
fn test_refracted_color_total_internal_reflection() {
    let s1 = outer(material(solid(0.8, 1.0, 0.6), 0.1, 0.7, 0.2, 0.0, 1.0, 1.5));
    let world = World { light: light(), objects: vec![s1, inner(Material::new())] };

    let ray = Ray::new(point(0., 0., 2.0_f64.sqrt() / 2.), vector(0., 1., 0.));
    let intersections = world.intersect(&ray);
    // This time the ray starts inside the sphere, so the second
    // intersection is the one to look at.
    let i2 = intersections.iter().nth(1).unwrap();
    let computations = i2.prepare_computations(&ray, intersections.clone());
    let c = world.refracted_color(&computations, MAX_RECURSIONS);
    assert_eq!(c, Color::black());
}

#[test]
fn test_refracted_color_for_refracted_ray() {
    let m1 = material(
        Coloring::SurfacePattern(Pattern::TestPattern(Test::new(Matrix4::identity()))),
        1.0,
        0.9,
        0.9,
        0.0,
        0.0,
        1.0,
    );
    let m2 = material(solid(1., 1., 1.), 0.1, 0.9, 0.9, 0.0, 1.0, 1.5);
    let world = World { light: light(), objects: vec![outer(m1), inner(m2)] };

    let ray = Ray::new(point(0., 0., 0.1), vector(0., 1., 0.));
    let intersections = world.intersect(&ray);
    let i3 = intersections.iter().nth(2).unwrap();
    let computations = i3.prepare_computations(&ray, intersections.clone());
    let c = world.refracted_color(&computations, MAX_RECURSIONS);
    assert!(c.is_equal(color(0., 0.99888, 0.04722)));
}

#[test]
fn test_shade_hit_for_transparent_material() {
    let floor = Object::Plane(Plane::new(
        translation(s(0.), s(-1.), s(0.)),
        material(solid(1., 1., 1.), 0.1, 0.9, 0.9, 0.0, 0.5, 1.5),
    ));
    let ball = Object::Sphere(Sphere::new(
        translation(s(0.0), s(-3.5), s(-0.5)),
        material(solid(1., 0., 0.), 0.5, 0.9, 0.9, 0.0, 0.0, 1.0),
    ));
    let world = World { light: light(), objects: vec![floor.clone(), ball.clone()] };

    let ray = slanted_ray();
    let intersections = world.intersect(&ray);
    let i0 = intersections.iter().nth(0).unwrap();
    let computations = i0.prepare_computations(&ray, intersections.clone());
    let c = world.shade_hit(computations, MAX_RECURSIONS);
    assert!(c.is_equal(color(0.93642, 0.68642, 0.68642)));
}

#[test]
fn test_schlick_reflectance_total_internal_reflection() {
    let world = glass_world();
    let ray = Ray::new(point(0., 0., 2.0_f64.sqrt() / 2.), vector(0., 1., 0.));
    let intersections = world.intersect(&ray);
    let i1 = intersections.iter().nth(1).unwrap();
    let computations = i1.prepare_computations(&ray, intersections.clone());
    let reflectance = schlick_reflectance(computations);
    assert_eq!(reflectance, s(1.0));
}

#[test]
fn test_schlick_reflectance_perpendicular_ray() {
    let world = glass_world();
    let ray = Ray::new(point(0., 0., 0.), vector(0., 1., 0.));
    let intersections = world.intersect(&ray);
    let i1 = intersections.iter().nth(1).unwrap();
    let computations = i1.prepare_computations(&ray, intersections.clone());
    let reflectance = schlick_reflectance(computations);
    assert!(reflectance.is_equal(s(0.04)));
}

#[test]
fn test_schlick_reflectance_small_angle() {
    let world = glass_world();
    let ray = Ray::new(point(0., 0.99, -2.), vector(0., 0., 1.));
    let intersections = world.intersect(&ray);
    let i0 = intersections.iter().nth(0).unwrap();
    let computations = i0.prepare_computations(&ray, intersections.clone());
    let reflectance = schlick_reflectance(computations);
    assert!(reflectance.is_equal(s(0.48881)));
}

#[test]
fn test_schlick_reflectance_helper() {
    assert_eq!(schlick_reflectance_helper(s(1.), s(1.), s(0.3)), s(0.16807));
    assert_eq!(schlick_reflectance_helper(s(1.5), s(0.5), s(1.)), s(0.25));
    assert_eq!(schlick_reflectance_helper(s(1.), s(3.), s(0.)), s(1.));
    assert!(schlick_reflectance_helper(s(1.), s(1.5), s(1.)).is_equal(s(0.04)));
}

#[test]
fn test_shade_hit_with_schlick_reflectance() {
    let floor = Object::Plane(Plane::new(
        translation(s(0.), s(-1.), s(0.)),
        material(solid(1., 1., 1.), 0.1, 0.9, 0.9, 0.5, 0.5, 1.5),
    ));
    let ball = Object::Sphere(Sphere::new(
        translation(s(0.0), s(-3.5), s(-0.5)),
        material(solid(1., 0., 0.), 0.5, 0.9, 0.9, 0.0, 0.0, 0.0),
    ));
    let world = World {
        light: light(),
        objects: vec![outer(outer_material()), inner(Material::new()), ball, floor],
    };

    let ray = slanted_ray();
    let intersections = world.intersect(&ray);
    let i0 = intersections.iter().nth(0).unwrap();
    let computations = i0.prepare_computations(&ray, intersections.clone());
    let c = world.shade_hit(computations, 5);
    assert!(c.is_equal(color(0.93391, 0.69643, 0.69243)));
}

#[test]
fn test_schlick_reflectance_helper_gives_a_share() {
    for (n1, n2) in [(1., 1.5), (1.5, 1.), (1., 1.), (2.5, 0.001), (0.001, 2.5), (1e9, 1.)] {
        for cosine in [0., 0.0000000000000001, 0.25, 0.5, 0.9999999999999999, 1.] {
            let r = schlick_reflectance_helper(s(n1), s(n2), s(cosine));
            assert!(r.ge(s(0.)) && r.le(s(1.)));
        }
    }
}
