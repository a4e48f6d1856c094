use raytracer::color::Color;
use raytracer::intersection::{hit, sort_by_t, Intersection};
use raytracer::light::Light;
use raytracer::material::Material;
use raytracer::matrix::Matrix4;
use raytracer::object::Object;
use raytracer::plane::Plane;
use raytracer::ray::Ray;
use raytracer::scalar::Scalar;
use raytracer::sphere::Sphere;
use raytracer::transform::{scaling, translation};
use raytracer::tuple::Tuple;
use raytracer::world::World;

fn s(x: f64) -> Scalar {
    let text = format!("{}", x);
    let (whole, fraction) = text.split_once('.').unwrap_or((text.as_str(), ""));
    let mut digits = format!("{}{:0<16}", whole, fraction);
    digits.truncate(whole.len() + 16);
    Scalar::from_raw(digits.parse::<i128>().unwrap())
}

fn point(x: f64, y: f64, z: f64) -> Tuple {
    Tuple::point(s(x), s(y), s(z))
}

fn vector(x: f64, y: f64, z: f64) -> Tuple {
    Tuple::vector(s(x), s(y), s(z))
}

fn sphere() -> Object {
    Object::Sphere(Sphere::new(Matrix4::identity(), Material::new()))
}

fn glass(transform: Matrix4, refractive: f64) -> Object {
    let material = Material { refractive: s(refractive), ..Material::new() };
    Object::Sphere(Sphere::new(transform, material))
}

#[test]
fn test_hit_all_positive_t() {
    let s0 = sphere();
    let i1 = Intersection::new(s(1.), &s0);
    let i2 = Intersection::new(s(2.), &s0);
    let mut intersections = vec![i1.clone(), i2.clone()];
    let hit = hit(&mut intersections).unwrap();
    assert_eq!(hit.t, i1.t);
}

#[test]
fn test_hit_mixture() {
    let s0 = sphere();
    let i1 = Intersection::new(s(-1.), &s0);
    let i2 = Intersection::new(s(1.), &s0);
    let mut intersections = vec![i1.clone(), i2.clone()];
    let hit = hit(&mut intersections).unwrap();
    assert_eq!(hit.t, i2.t);
}

#[test]
fn test_hit_all_negative_t() {
    let s0 = sphere();
    let i1 = Intersection::new(s(-2.), &s0);
    let i2 = Intersection::new(s(-1.), &s0);
    let mut intersections = vec![i1.clone(), i2.clone()];
    let hit = hit(&mut intersections);
    assert!(hit.is_none());
}

#[test]
fn test_hit_unsorted_intersection() {
    let s0 = sphere();
    let i1 = Intersection::new(s(5.), &s0);
    let i2 = Intersection::new(s(7.), &s0);
    let i3 = Intersection::new(s(-3.), &s0);
    let i4 = Intersection::new(s(2.), &s0);
    let mut intersections = vec![i1.clone(), i2.clone(), i3.clone(), i4.clone()];
    let hit = hit(&mut intersections).unwrap();
    assert_eq!(hit.t, i4.t);
}

#[test]
fn test_hit_of_nothing() {
    let mut intersections: Vec<Intersection> = vec![];
    assert!(hit(&mut intersections).is_none());
}

#[test]
fn test_hit_at_zero() {
    let s0 = sphere();
    let mut intersections =
        vec![Intersection::new(s(3.), &s0), Intersection::new(s(0.), &s0)];
    assert_eq!(hit(&mut intersections).unwrap().t, s(0.));
}

#[test]
fn test_hit_leaves_the_intersections_sorted() {
    let s0 = sphere();
    let mut intersections: Vec<Intersection> =
        [5., 7., -3., 2.].iter().map(|t| Intersection::new(s(*t), &s0)).collect();
    hit(&mut intersections);
    let ts: Vec<Scalar> = intersections.iter().map(|i| i.t).collect();
    assert_eq!(ts, vec![s(-3.), s(2.), s(5.), s(7.)]);
}

#[test]
fn test_hit_takes_the_first_of_equals() {
    let a = glass(Matrix4::identity(), 1.5);
    let b = glass(Matrix4::identity(), 2.5);
    let mut intersections = vec![
        Intersection::new(s(4.), &a),
        Intersection::new(s(1.), &b),
        Intersection::new(s(1.), &a),
        Intersection::new(s(-1.), &a),
    ];
    let h = hit(&mut intersections).unwrap();
    assert_eq!(h.t, s(1.));
    assert_eq!(h.object.get_material().refractive, s(2.5));
}

#[test]
fn test_sort_by_t_keeps_the_order_of_equals() {
    let a = glass(Matrix4::identity(), 1.5);
    let b = glass(Matrix4::identity(), 2.5);
    let c = glass(Matrix4::identity(), 3.5);
    let mut intersections = vec![
        Intersection::new(s(2.), &a),
        Intersection::new(s(1.), &b),
        Intersection::new(s(2.), &c),
        Intersection::new(s(1.), &a),
        Intersection::new(s(2.), &b),
        Intersection::new(s(-5.), &c),
    ];
    sort_by_t(&mut intersections);
    let got: Vec<(Scalar, Scalar)> =
        intersections.iter().map(|i| (i.t, i.object.get_material().refractive)).collect();
    let expected = vec![
        (s(-5.), s(3.5)),
        (s(1.), s(2.5)),
        (s(1.), s(1.5)),
        (s(2.), s(1.5)),
        (s(2.), s(3.5)),
        (s(2.), s(2.5)),
    ];
    assert_eq!(got, expected);
}

#[test]
fn test_prepare_computations_outside() {
    let ray = Ray::new(point(0., 0., -5.), vector(0., 0., 1.));
    let s0 = sphere();
    let intersection = Intersection::new(s(4.), &s0);
    let computations = intersection.prepare_computations(&ray, vec![intersection.clone()]);
    assert_eq!(computations.t, intersection.t);
    assert!(computations.point.is_equal(point(0., 0., -1.)));
    assert!(computations.eye.is_equal(vector(0., 0., -1.)));
    assert!(computations.normal.is_equal(vector(0., 0., -1.)));
    assert_eq!(computations.is_inside, false);
}

#[test]
fn test_prepare_computations_inside() {
    let ray = Ray::new(point(0., 0., 0.), vector(0., 0., 1.));
    let s0 = sphere();
    let intersection = Intersection::new(s(1.), &s0);
    let computations = intersection.prepare_computations(&ray, vec![intersection.clone()]);
    assert_eq!(computations.t, intersection.t);
    assert!(computations.point.is_equal(point(0., 0., 1.)));
    assert!(computations.eye.is_equal(vector(0., 0., -1.)));
    assert!(computations.normal.is_equal(vector(0., 0., -1.)));
    assert_eq!(computations.is_inside, true);
}

#[test]
fn test_prepare_computations_offsets_and_reflection() {
    let plane = Object::Plane(Plane::new(translation(s(0.), s(-1.), s(0.)), Material::new()));
    let k = 2.0_f64.sqrt() / 2.;
    let ray = Ray::new(point(0., 1., -1.), vector(0., -k, k));
    let intersection = Intersection::new(s(2.0_f64.sqrt()), &plane);
    let computations = intersection.prepare_computations(&ray, vec![intersection.clone()]);
    assert!(computations.reflected.is_equal(vector(0., k, k)));
    assert!(computations.normal.is_equal(vector(0., 1., 0.)));
    assert_eq!(
        computations.over_point.y.sub(computations.point.y),
        Scalar::epsilon().mul(computations.normal.y)
    );
    assert_eq!(
        computations.point.y.sub(computations.under_point.y),
        Scalar::epsilon().mul(computations.normal.y)
    );
    assert!(computations.over_point.y.gt(computations.point.y));
    assert!(computations.under_point.y.lt(computations.point.y));
    assert_eq!((computations.n1, computations.n2), (s(1.), s(1.)));
}

#[test]
fn test_prepare_computations_n1_n2() {
    let sphere_a = glass(scaling(s(2.), s(2.), s(2.)), 1.5);
    let sphere_b = glass(translation(s(0.), s(0.), s(-0.25)), 2.0);
    let sphere_c = glass(translation(s(0.), s(0.), s(0.25)), 2.5);

    let light = Light::new(point(-10., 10., -10.), Color::new(s(1.), s(1.), s(1.)));
    let world = World { light: light, objects: vec![sphere_a, sphere_b, sphere_c] };

    let ray = Ray::new(point(0., 0., -4.), vector(0., 0., 1.));

    let expected_values = [
        (s(1.0), s(1.5)),
        (s(1.5), s(2.0)),
        (s(2.0), s(2.5)),
        (s(2.5), s(2.5)),
        (s(2.5), s(1.5)),
        (s(1.5), s(1.0)),
    ];
    for i in 0..6 {
        let all_intersections = world.intersect(&ray);
        let hit = &all_intersections[i];
        let computations = hit.prepare_computations(&ray, all_intersections.clone());
        assert_eq!((computations.n1, computations.n2), expected_values[i]);
    }
}

#[test]
fn test_refractive_indices_for() {
    let a = glass(scaling(s(2.), s(2.), s(2.)), 1.5);
    let b = glass(translation(s(0.), s(0.), s(-0.25)), 2.0);
    let all: Vec<Intersection> = vec![
        Intersection::new(s(1.), &a),
        Intersection::new(s(2.), &b),
        Intersection::new(s(3.), &a),
        Intersection::new(s(4.), &b),
    ];
    let pairs: Vec<(Scalar, Scalar)> =
        all.iter().map(|i| i.refractive_indices_for(all.clone())).collect();
    assert_eq!(
        pairs,
        vec![(s(1.), s(1.5)), (s(1.5), s(2.)), (s(2.), s(2.)), (s(2.), s(1.))]
    );
    let stray = Intersection::new(s(9.), &a);
    assert_eq!(stray.refractive_indices_for(all.clone()), (s(1.), s(1.)));
    assert_eq!(stray.refractive_indices_for(vec![]), (s(1.), s(1.)));
}

#[test]
fn test_refractive_indices_take_like_transforms_for_one_object() {
    let a = glass(Matrix4::identity(), 1.5);
    let twin = glass(Matrix4::identity(), 3.0);
    let all: Vec<Intersection> =
        vec![Intersection::new(s(1.), &a), Intersection::new(s(2.), &twin)];
    assert_eq!(all[1].refractive_indices_for(all.clone()), (s(1.5), s(1.)));
}

#[test]
fn test_refractive_indices_where_two_objects_touch() {
    let a = glass(translation(s(0.), s(0.), s(5.)), 1.5);
    let b = glass(translation(s(0.), s(0.), s(7.)), 2.0);
    let all: Vec<Intersection> = vec![
        Intersection::new(s(4.), &a),
        Intersection::new(s(6.), &a),
        Intersection::new(s(6.), &b),
        Intersection::new(s(8.), &b),
    ];
    let pairs: Vec<(Scalar, Scalar)> =
        all.iter().map(|i| i.refractive_indices_for(all.clone())).collect();
    assert_eq!(
        pairs,
        vec![(s(1.), s(1.5)), (s(1.5), s(1.)), (s(1.), s(2.)), (s(2.), s(1.))]
    );
}

#[test]
fn test_refractive_indices_of_touching_spheres_in_a_world() {
    let a = glass(translation(s(0.), s(0.), s(5.)), 1.5);
    let b = glass(translation(s(0.), s(0.), s(7.)), 2.0);
    let light = Light::new(point(-10., 10., -10.), Color::new(s(1.), s(1.), s(1.)));
    let world = World { light: light, objects: vec![a, b] };
    let ray = Ray::new(point(0., 0., 0.), vector(0., 0., 1.));
    let all = world.intersect(&ray);
    let ts: Vec<Scalar> = all.iter().map(|i| i.t).collect();
    assert_eq!(ts, vec![s(4.), s(6.), s(6.), s(8.)]);
    let computations = all[2].prepare_computations(&ray, all.clone());
    assert_eq!((computations.n1, computations.n2), (s(1.), s(2.)));
    let before = all[1].prepare_computations(&ray, all.clone());
    assert_eq!((before.n1, before.n2), (s(1.5), s(1.)));
}
