use raytracer::cone::Cone;
use raytracer::cube::Cube;
use raytracer::cylinder::Cylinder;
use raytracer::material::Material;
use raytracer::matrix::Matrix4;
use raytracer::object::Object;
use raytracer::plane::Plane;
use raytracer::ray::Ray;
use raytracer::scalar::Scalar;
use raytracer::sphere::Sphere;
use raytracer::transform::{rotation_z, scaling, translation};
use raytracer::tuple::Tuple;
use std::f64::consts::PI;

fn s(x: f64) -> Scalar {
    let text = format!("{}", x);
    let (whole, fraction) = text.split_once('.').unwrap_or((text.as_str(), ""));
    let mut digits = format!("{}{:0<16}", whole, fraction);
    digits.truncate(whole.len() + 16);
    Scalar::from_raw(digits.parse::<i128>().unwrap())
}

fn point(x: f64, y: f64, z: f64) -> Tuple {
    Tuple::point(s(x), s(y), s(z))
}

fn vector(x: f64, y: f64, z: f64) -> Tuple {
    Tuple::vector(s(x), s(y), s(z))
}

fn every_shape(transform: Matrix4) -> Vec<Object> {
    vec![
        Object::Sphere(Sphere::new(transform, Material::new())),
        Object::Plane(Plane::new(transform, Material::new())),
        Object::Cube(Cube::new(transform, Material::new())),
        Object::Cylinder(Cylinder::new_infinite(transform, Material::new())),
        Object::Cone(Cone::new_infinite(transform, Material::new())),
    ]
}

#[test]
fn test_object_intersect_scaled_sphere() {
    let object = Object::Sphere(Sphere::new(scaling(s(2.), s(2.), s(2.)), Material::new()));
    let ray = Ray::new(point(0., 0., -5.), vector(0., 0., 1.));
    let xs = object.intersect(&ray);
    let ts: Vec<Scalar> = xs.iter().map(|x| x.t).collect();
    assert_eq!(ts, vec![s(3.), s(7.)]);
    assert!(xs.iter().all(|x| x.object.is_equal(&object)));
}

#[test]
fn test_object_intersect_translated_sphere() {
    let object = Object::Sphere(Sphere::new(translation(s(5.), s(0.), s(0.)), Material::new()));
    let ray = Ray::new(point(0., 0., -5.), vector(0., 0., 1.));
    assert_eq!(object.intersect(&ray).len(), 0);
}

#[test]
fn test_object_intersect_every_shape() {
    let ray = Ray::new(point(0.5, 3., 0.), vector(0., -1., 0.));
    let counts: Vec<usize> =
        every_shape(Matrix4::identity()).iter().map(|o| o.intersect(&ray).len()).collect();
    assert_eq!(counts, vec![2, 1, 2, 0, 2]);
}

#[test]
fn test_object_normal_at_translated_sphere() {
    let object = Object::Sphere(Sphere::new(translation(s(0.), s(1.), s(0.)), Material::new()));
    let n = object.normal_at(point(0., 1.70711, -0.70711));
    assert!(n.is_equal(vector(0., 0.70711, -0.70711)));
}

#[test]
fn test_object_normal_at_transformed_sphere() {
    let transform = scaling(s(1.), s(0.5), s(1.)).multiply_matrix(rotation_z(s(PI / 5.)));
    let object = Object::Sphere(Sphere::new(transform, Material::new()));
    let k = 2.0_f64.sqrt() / 2.;
    let n = object.normal_at(point(0., k, -k));
    assert!(n.is_equal(vector(0., 0.97014, -0.24254)));
}

#[test]
fn test_object_normal_at_is_a_unit_vector() {
    let transform = scaling(s(3.), s(0.5), s(2.)).multiply_matrix(rotation_z(s(PI / 7.)));
    let local_points = vec![
        point(0., 1., 0.),
        point(0., 0., 0.),
        point(1., 0.5, -0.25),
        point(1., 0.5, 0.),
        point(0.6, 1., 0.8),
    ];
    for (object, local_point) in every_shape(transform).iter().zip(local_points) {
        let world_point = transform.multiply_tuple(local_point);
        let n = object.normal_at(world_point);
        assert!(n.magnitude().is_equal(s(1.)));
        assert_eq!(n.w, s(0.));
    }
}

#[test]
fn test_object_accessors() {
    let transform = translation(s(1.), s(2.), s(3.));
    let material = Material { ambient: s(0.25), ..Material::new() };
    let object = Object::Plane(Plane::new(transform, material));
    assert_eq!(object.get_material().ambient, s(0.25));
    assert_eq!(object.get_inverse_transform(), translation(s(-1.), s(-2.), s(-3.)));
}

#[test]
fn test_object_is_equal() {
    let shapes = every_shape(Matrix4::identity());
    let moved = every_shape(translation(s(0.), s(0.00001), s(0.)));
    let nudged = every_shape(translation(s(0.), s(0.000005), s(0.)));
    for a in 0..shapes.len() {
        for b in 0..shapes.len() {
            assert!(shapes[a].is_equal(&shapes[b]));
            assert!(shapes[a].is_equal(&nudged[b]));
            assert!(nudged[b].is_equal(&shapes[a]));
            assert!(!shapes[a].is_equal(&moved[b]));
            assert!(!moved[b].is_equal(&shapes[a]));
        }
    }
}

#[test]
fn test_object_is_equal_goes_by_the_transform_alone() {
    let transform = scaling(s(2.), s(3.), s(4.));
    let sphere = Object::Sphere(Sphere::new(transform, Material::new()));
    let glass = Material { refractive: s(1.5), transparency: s(1.), ..Material::new() };
    let plane = Object::Plane(Plane::new(transform, glass));
    assert!(sphere.is_equal(&plane));
    assert!(plane.is_equal(&sphere));
    assert_eq!(sphere.get_transform(), transform);
    let other = Object::Sphere(Sphere::new(scaling(s(2.), s(3.), s(4.5)), Material::new()));
    assert!(!sphere.is_equal(&other));
}

#[test]
fn test_ray_without_direction_hits_nothing() {
    let origins = vec![point(0., 0., 0.), point(0.5, 0.25, -0.5), point(1., 0., 0.), point(3., 4., 5.)];
    for object in every_shape(Matrix4::identity()) {
        for origin in &origins {
            let ray = Ray::new(*origin, vector(0., 0., 0.));
            assert_eq!(object.intersect(&ray).len(), 0);
        }
    }
    let capped = vec![
        Object::Cylinder(Cylinder::new_capped(Matrix4::identity(), Material::new(), s(-1.), s(1.))),
        Object::Cone(Cone::new_capped(Matrix4::identity(), Material::new(), s(-1.), s(1.))),
    ];
    for object in capped {
        let ray = Ray::new(point(0., 0.5, 0.), vector(0., 0., 0.));
        assert_eq!(object.intersect(&ray).len(), 0);
    }
}

#[test]
fn test_object_normal_at_without_length() {
    let cone = Object::Cone(Cone::new_infinite(Matrix4::identity(), Material::new()));
    assert_eq!(cone.normal_at(point(0., 0., 0.)), vector(0., 0., 0.));
    let short = Object::Sphere(Sphere::new(Matrix4::identity(), Material::new()));
    let n = short.normal_at(point(0.00001, 0., 0.));
    assert!(n.is_equal(vector(1., 0., 0.)));
    assert_eq!(n.w, s(0.));
}

#[test]
fn test_object_normal_at_on_a_wide_sphere() {
    let wide = Object::Sphere(Sphere::new(scaling(s(1e8), s(1e8), s(1.)), Material::new()));
    let n = wide.normal_at(point(6e7, 8e7, 0.));
    assert!(n.is_equal(vector(0.6, 0.8, 0.)));
    assert!(n.magnitude().is_equal(s(1.)));
    let large = Object::Sphere(Sphere::new(scaling(s(1e6), s(1e6), s(1e6)), Material::new()));
    let k = 1e6 * 2.0_f64.sqrt() / 2.;
    let n = large.normal_at(point(k, k, 0.));
    assert!(n.magnitude().is_equal(s(1.)));
    assert!(n.is_equal(vector(2.0_f64.sqrt() / 2., 2.0_f64.sqrt() / 2., 0.)));
    let small = Object::Sphere(Sphere::new(scaling(s(1e-3), s(1e-3), s(1e-3)), Material::new()));
    let n = small.normal_at(point(0., 0.0006, -0.0008));
    assert!(n.is_equal(vector(0., 0.6, -0.8)));
}
