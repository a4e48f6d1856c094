use raytracer::material::Material;
use raytracer::matrix::Matrix4;
use raytracer::plane::Plane;
use raytracer::ray::Ray;
use raytracer::scalar::Scalar;
use raytracer::shape::Shape;
use raytracer::tuple::Tuple;

fn s(x: f64) -> Scalar {
    let text = format!("{}", x);
    let (whole, fraction) = text.split_once('.').unwrap_or((text.as_str(), ""));
    let mut digits = format!("{}{:0<16}", whole, fraction);
    digits.truncate(whole.len() + 16);
    Scalar::from_raw(digits.parse::<i128>().unwrap())
}

fn point(x: f64, y: f64, z: f64) -> Tuple {
    Tuple::point(s(x), s(y), s(z))
}

fn vector(x: f64, y: f64, z: f64) -> Tuple {
    Tuple::vector(s(x), s(y), s(z))
}

fn plane() -> Plane {
    Plane::new(Matrix4::identity(), Material::new())
}

#[test]
fn test_normal_at() {
    let plane = plane();
    let n1 = plane.normal_at(point(0., 0., 0.));
    let n2 = plane.normal_at(point(10., 0., -10.));
    let n3 = plane.normal_at(point(-5., 0., 150.));
    assert!(vec![n1, n2, n3].iter().all(|v| v.is_equal(vector(0., 1., 0.))));
}

#[test]
fn test_intersect_parallel_ray() {
    let local_ray = Ray::new(point(0., 10., 0.), vector(0., 0., 1.));
    let ts = plane().intersect(&local_ray);
    assert_eq!(ts.len(), 0);
}

#[test]
fn test_intersect_coplanar_ray() {
    let local_ray = Ray::new(point(0., 0., 0.), vector(0., 0., 1.));
    let ts = plane().intersect(&local_ray);
    assert_eq!(ts.len(), 0);
}

#[test]
fn test_intersect_nearly_parallel_ray() {
    let below = Ray::new(point(0., 1., 0.), vector(0., 0.000009999, 1.));
    assert_eq!(plane().intersect(&below).len(), 0);
    let at = Ray::new(point(0., 1., 0.), vector(0., -0.00001, 1.));
    assert_eq!(plane().intersect(&at), vec![s(100000.)]);
}

#[test]
fn test_intersect_above() {
    let local_ray = Ray::new(point(0., 1., 0.), vector(0., -1., 0.));
    let ts = plane().intersect(&local_ray);
    assert_eq!(ts.len(), 1);
    assert!(ts[0].is_equal(s(1.0)));
}

#[test]
fn test_intersect_below() {
    let local_ray = Ray::new(point(0., -1., 0.), vector(0., 1., 0.));
    let ts = plane().intersect(&local_ray);
    assert_eq!(ts.len(), 1);
    assert!(ts[0].is_equal(s(1.0)));
}
