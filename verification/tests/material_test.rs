use raytracer::color::Color;
use raytracer::light::Light;
use raytracer::material::{Coloring, Material};
use raytracer::matrix::Matrix4;
use raytracer::object::Object;
use raytracer::pattern::{Pattern, Striped};
use raytracer::scalar::Scalar;
use raytracer::sphere::Sphere;
use raytracer::tuple::Tuple;

fn s(x: f64) -> Scalar {
    let text = format!("{}", x);
    let (whole, fraction) = text.split_once('.').unwrap_or((text.as_str(), ""));
    let mut digits = format!("{}{:0<16}", whole, fraction);
    digits.truncate(whole.len() + 16);
    Scalar::from_raw(digits.parse::<i128>().unwrap())
}

fn point(x: f64, y: f64, z: f64) -> Tuple {
    Tuple::point(s(x), s(y), s(z))
}

fn vector(x: f64, y: f64, z: f64) -> Tuple {
    Tuple::vector(s(x), s(y), s(z))
}

fn color(r: f64, g: f64, b: f64) -> Color {
    Color::new(s(r), s(g), s(b))
}

fn sphere() -> Object {
    Object::Sphere(Sphere::new(Matrix4::identity(), Material::new()))
}

#[test]
fn test_default_material() {
    let m = Material::new();
    assert!(matches!(m.color, Coloring::SolidColor(c) if c == Color::white()));
    assert_eq!(m.ambient, s(0.1));
    assert_eq!(m.diffuse, s(0.9));
    assert_eq!(m.specular, s(0.9));
    assert_eq!(m.shininess, s(200.0));
    assert_eq!(m.reflective, s(0.0));
    assert_eq!(m.transparency, s(0.0));
    assert_eq!(m.refractive, s(1.0));
}

#[test]
fn test_lighting_eye_between_light_and_surface() {
    let material = Material::new();
    let position = point(0., 0., 0.);
    let eye = vector(0., 0., -1.);
    let normal = vector(0., 0., -1.);
    let light = Light::new(point(0., 0., -10.), Color::white());
    let c = material.lighting(&light, &sphere(), position, eye, normal, false);
    assert_eq!(c, color(1.9, 1.9, 1.9));
}

#[test]
fn test_lighting_eye_offset_45_degrees() {
    let material = Material::new();
    let position = point(0., 0., 0.);
    let eye = vector(0., 2.0_f64.sqrt() / 2., -2.0_f64.sqrt() / 2.);
    let normal = vector(0., 0., -1.);
    let light = Light::new(point(0., 0., -10.), Color::white());
    let c = material.lighting(&light, &sphere(), position, eye, normal, false);
    assert_eq!(c, color(1.0, 1.0, 1.0));
}

#[test]
fn test_lighting_light_offset_45_degrees() {
    let material = Material::new();
    let position = point(0., 0., 0.);
    let eye = vector(0., 0., -1.);
    let normal = vector(0., 0., -1.);
    let light = Light::new(point(0., 10., -10.), Color::white());
    let c = material.lighting(&light, &sphere(), position, eye, normal, false);
    assert!(c.is_equal(color(0.7364, 0.7364, 0.7364)));
}

#[test]
fn test_lighting_eye_in_reflection_path() {
    let material = Material::new();
    let position = point(0., 0., 0.);
    let eye = vector(0., -2.0_f64.sqrt() / 2., -2.0_f64.sqrt() / 2.);
    let normal = vector(0., 0., -1.);
    let light = Light::new(point(0., 10., -10.), Color::white());
    let c = material.lighting(&light, &sphere(), position, eye, normal, false);
    assert!(c.is_equal(color(1.6364, 1.6364, 1.6364)));
}

#[test]
fn test_lighting_light_behind_surface() {
    let material = Material::new();
    let position = point(0., 0., 0.);
    let eye = vector(0., 0., -1.);
    let normal = vector(0., 0., -1.);
    let light = Light::new(point(0., 0., 10.), Color::white());
    let c = material.lighting(&light, &sphere(), position, eye, normal, false);
    assert_eq!(c, color(0.1, 0.1, 0.1));
}

#[test]
fn test_lighting_in_shadow() {
    let material = Material::new();
    let position = point(0., 0., 0.);
    let eye = vector(0., 0., -1.);
    let normal = vector(0., 0., -1.);
    let light = Light::new(point(0., 0., -10.), Color::white());
    let c = material.lighting(&light, &sphere(), position, eye, normal, true);
    assert_eq!(c, color(0.1, 0.1, 0.1));
}

#[test]
fn test_lighting_with_black_light() {
    let material = Material::new();
    let position = point(0., 0., 0.);
    let eye = vector(0., 2.0_f64.sqrt() / 2., -2.0_f64.sqrt() / 2.);
    let normal = vector(0., 0., -1.);
    let light = Light::new(point(0., 10., -10.), Color::white().multiply(s(0.)));
    for shadowed in [false, true] {
        let c = material.lighting(&light, &sphere(), position, eye, normal, shadowed);
        assert_eq!(c, Color::black());
    }
}

#[test]
fn test_lighting_with_pattern() {
    let pattern = Striped::new(Color::white(), Color::black(), Matrix4::identity());
    let material = Material {
        color: Coloring::SurfacePattern(Pattern::StripedPattern(pattern)),
        ambient: s(1.0),
        diffuse: s(0.0),
        specular: s(0.0),
        shininess: s(0.0),
        reflective: s(0.0),
        transparency: s(0.0),
        refractive: s(1.0),
    };
    let eye = vector(0., 0., -1.);
    let normal = vector(0., 0., -1.);
    let light = Light::new(point(0., 0., -10.), color(1., 1., 1.));
    let p1 = point(0.9, 0., 0.);
    let c1 = material.lighting(&light, &sphere(), p1, eye, normal, false);
    assert_eq!(c1, Color::white());

    let p2 = point(1.1, 0., 0.);
    let c2 = material.lighting(&light, &sphere(), p2, eye, normal, false);
    assert_eq!(c2, Color::black());
}
