use raytracer::color::Color;
use raytracer::material::{Coloring, Material};
use raytracer::matrix::Matrix4;
use raytracer::object::Object;
use raytracer::pattern::{Checker, Gradient, Pattern, Ring, Striped, Test};
use raytracer::scalar::Scalar;
use raytracer::sphere::Sphere;
use raytracer::transform::{scaling, translation};
use raytracer::tuple::Tuple;

fn s(x: f64) -> Scalar {
    let text = format!("{}", x);
    let (whole, fraction) = text.split_once('.').unwrap_or((text.as_str(), ""));
    let mut digits = format!("{}{:0<16}", whole, fraction);
    digits.truncate(whole.len() + 16);
    Scalar::from_raw(digits.parse::<i128>().unwrap())
}

fn point(x: f64, y: f64, z: f64) -> Tuple {
    Tuple::point(s(x), s(y), s(z))
}

fn color(r: f64, g: f64, b: f64) -> Color {
    Color::new(s(r), s(g), s(b))
}

fn flat(coloring: Coloring) -> Material {
    Material {
        color: coloring,
        ambient: s(0.0),
        diffuse: s(0.0),
        specular: s(0.0),
        shininess: s(0.0),
        reflective: s(0.0),
        transparency: s(0.0),
        refractive: s(1.0),
    }
}

#[test]
fn test_local_color_at_striped_is_constant_for_y() {
    let pattern = Striped::new(Color::white(), Color::black(), Matrix4::identity());
    assert_eq!(pattern.color_at(point(0., 0., 0.)), Color::white());
    assert_eq!(pattern.color_at(point(0., 1., 0.)), Color::white());
    assert_eq!(pattern.color_at(point(0., 2., 0.)), Color::white());
}

#[test]
fn test_local_color_at_striped_is_constant_for_z() {
    let pattern = Striped::new(Color::white(), Color::black(), Matrix4::identity());
    assert_eq!(pattern.color_at(point(0., 0., 0.)), Color::white());
    assert_eq!(pattern.color_at(point(0., 0., 1.)), Color::white());
    assert_eq!(pattern.color_at(point(0., 0., 2.)), Color::white());
}

#[test]
fn test_local_color_at_striped_alternates_for_x() {
    let pattern = Striped::new(Color::white(), Color::black(), Matrix4::identity());
    assert_eq!(pattern.color_at(point(0., 0., 0.)), Color::white());
    assert_eq!(pattern.color_at(point(0.9, 0., 0.)), Color::white());
    assert_eq!(pattern.color_at(point(1., 0., 0.)), Color::black());
    assert_eq!(pattern.color_at(point(-0.1, 0., 0.)), Color::black());
    assert_eq!(pattern.color_at(point(-1., 0., 0.)), Color::black());
    assert_eq!(pattern.color_at(point(-1.1, 0., 0.)), Color::white());
}

#[test]
fn test_world_color_at_with_object_transformation() {
    let pattern =
        Pattern::StripedPattern(Striped::new(Color::white(), Color::black(), Matrix4::identity()));
    let material = flat(Coloring::SurfacePattern(pattern.clone()));
    let transform = scaling(s(2.), s(2.), s(2.));
    let object = Object::Sphere(Sphere::new(transform, material));
    assert_eq!(pattern.color_at(&object, point(1.5, 0., 0.)), Color::white());
}

#[test]
fn test_world_color_at_with_pattern_transformation() {
    let transform = scaling(s(2.), s(2.), s(2.));
    let pattern = Pattern::StripedPattern(Striped::new(Color::white(), Color::black(), transform));
    let material = flat(Coloring::SurfacePattern(pattern.clone()));
    let object = Object::Sphere(Sphere::new(Matrix4::identity(), material));
    assert_eq!(pattern.color_at(&object, point(1.5, 0., 0.)), Color::white());
}

#[test]
fn test_world_color_at_with_object_and_pattern_transformation() {
    let pattern_transform = translation(s(0.5), s(0.0), s(0.0));
    let pattern =
        Pattern::StripedPattern(Striped::new(Color::white(), Color::black(), pattern_transform));
    let material = flat(Coloring::SurfacePattern(pattern.clone()));
    let object_transform = scaling(s(2.), s(2.), s(2.));
    let object = Object::Sphere(Sphere::new(object_transform, material));
    assert_eq!(pattern.color_at(&object, point(2.5, 0., 0.)), Color::white());
}

#[test]
fn test_world_color_at_tells_the_stripes_apart() {
    let pattern =
        Pattern::StripedPattern(Striped::new(Color::white(), Color::black(), Matrix4::identity()));
    let material = flat(Coloring::SurfacePattern(pattern));
    let object = Object::Sphere(Sphere::new(scaling(s(2.), s(2.), s(2.)), material));
    assert_eq!(pattern.color_at(&object, point(2.5, 0., 0.)), Color::black());
    assert_eq!(pattern.get_inverse_transform(), Matrix4::identity());
}

#[test]
fn test_local_color_at_gradient() {
    let pattern = Gradient::new(Color::white(), Color::black(), Matrix4::identity());
    assert_eq!(pattern.color_at(point(0., 0., 0.)), Color::white());
    assert_eq!(pattern.color_at(point(0.25, 0., 0.)), color(0.75, 0.75, 0.75));
    assert_eq!(pattern.color_at(point(0.5, 0., 0.)), color(0.5, 0.5, 0.5));
    assert_eq!(pattern.color_at(point(0.75, 0., 0.)), color(0.25, 0.25, 0.25));
}

#[test]
fn test_local_color_at_ring() {
    let pattern = Ring::new(Color::white(), Color::black(), Matrix4::identity());
    assert_eq!(pattern.color_at(point(0., 0., 0.)), Color::white());
    assert_eq!(pattern.color_at(point(1., 0., 0.)), Color::black());
    assert_eq!(pattern.color_at(point(0., 0., 1.)), Color::black());
    assert_eq!(pattern.color_at(point(0.708, 0., 0.708)), Color::black());
}

#[test]
fn test_local_color_at_checker_repeats_for_x() {
    let pattern = Checker::new(Color::white(), Color::black(), Matrix4::identity());
    assert_eq!(pattern.color_at(point(0., 0., 0.)), Color::white());
    assert_eq!(pattern.color_at(point(0.99, 0., 0.)), Color::white());
    assert_eq!(pattern.color_at(point(1.01, 0., 0.)), Color::black());
}

#[test]
fn test_local_color_at_checker_repeats_for_y() {
    let pattern = Checker::new(Color::white(), Color::black(), Matrix4::identity());
    assert_eq!(pattern.color_at(point(0., 0., 0.)), Color::white());
    assert_eq!(pattern.color_at(point(0., 0.99, 0.)), Color::white());
    assert_eq!(pattern.color_at(point(0., 1.01, 0.)), Color::black());
}

#[test]
fn test_local_color_at_checker_repeats_for_z() {
    let pattern = Checker::new(Color::white(), Color::black(), Matrix4::identity());
    assert_eq!(pattern.color_at(point(0., 0., 0.)), Color::white());
    assert_eq!(pattern.color_at(point(0., 0., 0.99)), Color::white());
    assert_eq!(pattern.color_at(point(0., 0., 1.01)), Color::black());
}

#[test]
fn test_local_color_at_test_pattern() {
    let pattern = Test::new(Matrix4::identity());
    assert_eq!(pattern.color_at(point(0.25, -1.5, 3.)), color(0.25, -1.5, 3.));
}
