use raytracer::cylinder::Cylinder;
use raytracer::material::Material;
use raytracer::matrix::Matrix4;
use raytracer::ray::Ray;
use raytracer::scalar::Scalar;
use raytracer::shape::Shape;
use raytracer::tuple::Tuple;

fn s(x: f64) -> Scalar {
    let text = format!("{}", x);
    let (whole, fraction) = text.split_once('.').unwrap_or((text.as_str(), ""));
    let mut digits = format!("{}{:0<16}", whole, fraction);
    digits.truncate(whole.len() + 16);
    Scalar::from_raw(digits.parse::<i128>().unwrap())
}

fn point(x: f64, y: f64, z: f64) -> Tuple {
    Tuple::point(s(x), s(y), s(z))
}

fn vector(x: f64, y: f64, z: f64) -> Tuple {
    Tuple::vector(s(x), s(y), s(z))
}

#[test]
fn test_cylinder_constructors() {
    let infinite = Cylinder::new_infinite(Matrix4::identity(), Material::new());
    assert_eq!(infinite.minimum, Scalar::neg_infinity());
    assert_eq!(infinite.maximum, Scalar::infinity());
    assert!(!infinite.is_closed);
    let truncated = Cylinder::new_truncated(Matrix4::identity(), Material::new(), s(1.), s(2.));
    assert_eq!((truncated.minimum, truncated.maximum), (s(1.), s(2.)));
    assert!(!truncated.is_closed);
    let capped = Cylinder::new_capped(Matrix4::identity(), Material::new(), s(1.), s(2.));
    assert_eq!((capped.minimum, capped.maximum), (s(1.), s(2.)));
    assert!(capped.is_closed);
}

#[test]
fn test_intersect_miss_infinite() {
    let cylinder = Cylinder::new_infinite(Matrix4::identity(), Material::new());

    let test_cases = vec![
        (point(1., 0., 0.), vector(0., 1., 0.)),
        (point(0., 0., 0.), vector(0., 1., 0.)),
        (point(0., 0., -5.), vector(1., 1., 1.)),
    ];
    for (origin, direction) in test_cases {
        let ray = Ray::new(origin, direction.normalize());
        let ts = cylinder.intersect(&ray);
        assert_eq!(ts.len(), 0);
    }
}

#[test]
fn test_intersect_hits_infinite() {
    let cylinder = Cylinder::new_infinite(Matrix4::identity(), Material::new());

    let test_cases = vec![(point(0., 0., -5.), vector(0., 0., 1.), vec![4., 6.])];
    for (origin, direction, expected_ts) in test_cases {
        let ray = Ray::new(origin, direction.normalize());
        let ts = cylinder.intersect(&ray);
        assert!(ts.iter().zip(expected_ts).all(|(&a, b)| a.is_equal(s(b))));
    }
}

#[test]
fn test_intersect_hits_infinite_exactly() {
    let cylinder = Cylinder::new_infinite(Matrix4::identity(), Material::new());
    let ray = Ray::new(point(0., 0., -5.), vector(0., 0., 1.));
    assert_eq!(cylinder.intersect(&ray), vec![s(4.), s(6.)]);
    let tangent = Ray::new(point(1., 0., -5.), vector(0., 0., 1.));
    assert_eq!(cylinder.intersect(&tangent), vec![s(5.)]);
    let skew = Ray::new(point(0.5, 0., -5.), vector(0.1, 1., 1.).normalize());
    let ts = cylinder.intersect(&skew);
    assert_eq!(ts.len(), 2);
    assert!(ts[0].is_equal(s(6.80798)));
    assert!(ts[1].is_equal(s(7.08872)));
}

#[test]
fn test_intersect_hits_truncated() {
    let cylinder = Cylinder::new_truncated(Matrix4::identity(), Material::new(), s(1.), s(2.));

    let test_cases = vec![
        (point(0., 1.5, 0.), vector(0.1, 1., 0.), 0),
        (point(0., 3., -5.), vector(0., 0., 1.), 0),
        (point(0., 0., -5.), vector(0., 0., 1.), 0),
        (point(0., 2., -5.), vector(0., 0., 1.), 0),
        (point(0., 1., -5.), vector(0., 0., 1.), 0),
        (point(0., 1.5, -2.), vector(0., 0., 1.), 2),
    ];
    for (origin, direction, expected_count) in test_cases {
        let ray = Ray::new(origin, direction.normalize());
        let ts = cylinder.intersect(&ray);
        assert_eq!(ts.len(), expected_count);
    }
}

#[test]
fn test_intersect_hits_capped() {
    let cylinder = Cylinder::new_capped(Matrix4::identity(), Material::new(), s(1.), s(2.));

    let test_cases = vec![
        (point(0., 3., 0.), vector(0., -1., 0.), 2),
        (point(0., 3., -2.), vector(0., -1., 2.), 2),
        (point(0., 4., -2.), vector(0., -1., 1.), 2),
        (point(0., 0., -2.), vector(0., 1., 2.), 2),
        (point(0., -1., -2.), vector(0., 1., 1.), 2),
    ];
    for (origin, direction, expected_count) in test_cases {
        let ray = Ray::new(origin, direction.normalize());
        let ts = cylinder.intersect(&ray);
        assert_eq!(ts.len(), expected_count);
    }
}

#[test]
fn test_intersect_caps_come_after_walls() {
    let cylinder = Cylinder::new_capped(Matrix4::identity(), Material::new(), s(1.), s(2.));
    let ray = Ray::new(point(0., 3., 0.), vector(0., -1., 0.));
    assert_eq!(cylinder.intersect(&ray), vec![s(2.), s(1.)]);
    let open = Cylinder::new_truncated(Matrix4::identity(), Material::new(), s(1.), s(2.));
    assert_eq!(open.intersect(&ray).len(), 0);
}

#[test]
fn test_normal_at_infinite() {
    let cylinder = Cylinder::new_infinite(Matrix4::identity(), Material::new());

    let test_cases = vec![
        (point(1., 0., 0.), vector(1., 0., 0.)),
        (point(0., 5., -1.), vector(0., 0., -1.)),
        (point(0., -2., 1.), vector(0., 0., 1.)),
        (point(-1., 1., 0.), vector(-1., 0., 0.)),
    ];

    for (p, expected_value) in test_cases {
        let normal = cylinder.normal_at(p);
        assert!(normal.is_equal(expected_value));
    }
}

#[test]
fn cylinder_test_normal_at_capped() {
    let cylinder = Cylinder::new_capped(Matrix4::identity(), Material::new(), s(1.), s(2.));

    let test_cases = vec![
        (point(0., 1., 0.), vector(0., -1., 0.)),
        (point(0.5, 1., 0.), vector(0., -1., 0.)),
        (point(0., 1., 0.5), vector(0., -1., 0.)),
        (point(0., 2., 0.), vector(0., 1., 0.)),
        (point(0.5, 2., 0.), vector(0., 1., 0.)),
        (point(0., 2., 0.5), vector(0., 1., 0.)),
    ];

    for (p, expected_value) in test_cases {
        let normal = cylinder.normal_at(p);
        assert!(normal.is_equal(expected_value));
    }
}
