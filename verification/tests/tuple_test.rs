use raytracer::scalar::Scalar;
use raytracer::tuple::Tuple;

fn s(x: f64) -> Scalar {
    let text = format!("{}", x);
    let (whole, fraction) = text.split_once('.').unwrap_or((text.as_str(), ""));
    let mut digits = format!("{}{:0<16}", whole, fraction);
    digits.truncate(whole.len() + 16);
    Scalar::from_raw(digits.parse::<i128>().unwrap())
}

fn t(a: [f64; 4]) -> Tuple {
    Tuple::new(s(a[0]), s(a[1]), s(a[2]), s(a[3]))
}

fn point(x: f64, y: f64, z: f64) -> Tuple {
    Tuple::point(s(x), s(y), s(z))
}

fn vector(x: f64, y: f64, z: f64) -> Tuple {
    Tuple::vector(s(x), s(y), s(z))
}

#[test]
fn tuple_test_is_equal() {
    assert!(t([1., 2., 3., 0.]).is_equal(t([1., 2., 3., 0.])));
    assert!(t([1., 2., 3., 0.]).is_equal(t([1.000005, 1.999995, 2.999995, 0.])));

    assert!(t([1., 2., 3., 0.]).is_equal(t([1., 2., 3., 0.])));
    assert!(t([1., 2., 3., 0.]).is_equal(t([1.000005, 1.999995, 2.999995, 0.])));
}

#[test]
fn test_is_equal_tells_apart() {
    assert!(!t([1., 2., 3., 0.]).is_equal(t([1.00001, 2., 3., 0.])));
    assert!(!t([1., 2., 3., 0.]).is_equal(t([1., 2., 3., 1.])));
    assert!(!t([1., 2., 3., 0.]).is_equal(t([1., 2.5, 3., 0.])));
    assert!(!t([1., 2., 3., 0.]).is_equal(t([1., 2., -3., 0.])));
}

#[test]
fn test_point_and_vector() {
    assert_eq!(point(4., -4., 3.), t([4., -4., 3., 1.]));
    assert_eq!(vector(4., -4., 3.), t([4., -4., 3., 0.]));
}

#[test]
fn tuple_test_add() {
    let t1 = t([3., -2., 5., 1.]);
    let t2 = t([-2., 3., 1., 0.]);
    assert_eq!(t1.add(t2).is_equal(t([1., 1., 6., 1.])), true);
}

#[test]
fn tuple_test_subtract() {
    let t1 = t([3., 2., 1., 1.]);
    let t2 = t([5., 6., 7., 1.]);
    assert_eq!(t1.subtract(t2).is_equal(t([-2., -4., -6., 0.])), true);

    let t3 = t([3., 2., 1., 1.]);
    let t4 = t([5., 6., 7., 0.]);
    assert_eq!(t3.subtract(t4).is_equal(t([-2., -4., -6., 1.])), true);

    let t3 = t([3., 2., 1., 0.]);
    let t4 = t([5., 6., 7., 0.]);
    assert_eq!(t3.subtract(t4).is_equal(t([-2., -4., -6., 0.])), true);
}

#[test]
fn test_negate() {
    assert_eq!(t([1., -2., 3., -4.]).negate().is_equal(t([-1., 2., -3., 4.])), true);
}

#[test]
fn tuple_test_multiply() {
    assert!(t([1., -2., 3., -4.]).multiply(s(3.5)).is_equal(t([3.5, -7., 10.5, -14.])));
    assert!(t([1., -2., 3., -4.]).multiply(s(0.5)).is_equal(t([0.5, -1., 1.5, -2.])));
}

#[test]
fn test_divide() {
    assert!(t([1., -2., 3., -4.]).divide(s(2.)).is_equal(t([0.5, -1., 1.5, -2.])));
}

#[test]
fn test_magnitude() {
    assert!(t([1., 0., 0., 0.]).magnitude().is_equal(s(1.0)));
    assert!(t([0., 1., 0., 0.]).magnitude().is_equal(s(1.0)));
    assert!(t([0., 0., 1., 0.]).magnitude().is_equal(s(1.0)));

    assert!(t([1., 2., 3., 0.]).magnitude().is_equal(s(14.0_f64.sqrt())));

    assert!(t([-1., -2., -3., 0.]).magnitude().is_equal(s(14.0_f64.sqrt())));
}

#[test]
fn test_magnitude_leaves_w_out() {
    assert_eq!(t([3., 4., 0., 1.]).magnitude(), s(5.));
}

#[test]
fn test_normalize() {
    assert!(t([4., 0., 0., 0.]).normalize().is_equal(t([1., 0., 0., 0.])));

    assert!(t([1., 2., 3., 0.]).normalize().is_equal(t([0.26726, 0.53452, 0.80178, 0.])));

    let n = t([1., 2., 3., 0.]).normalize();
    assert!(n.magnitude().is_equal(s(1.)));
}

#[test]
fn test_dot() {
    let t1 = t([1., 2., 3., 0.]);
    let t2 = t([2., 3., 4., 0.]);
    assert_eq!(t1.dot(t2).is_equal(s(20.)), true);
}

#[test]
fn test_dot_counts_w() {
    assert_eq!(t([1., 2., 3., 4.]).dot(t([2., 3., 4., 5.])), s(40.));
}

#[test]
fn test_cross() {
    let t1 = t([1., 2., 3., 0.]);
    let t2 = t([2., 3., 4., 0.]);
    assert!(t1.cross(t2).is_equal(t([-1., 2., -1., 0.])));

    assert!(t2.cross(t1).is_equal(t([1., -2., 1., 0.])));
}

#[test]
fn test_reflect_45_degrees() {
    let incident = vector(1., -1., 0.);
    let normal = vector(0., 1., 0.);
    let reflected = incident.reflect(normal);
    assert!(reflected.is_equal(vector(1., 1., 0.)));
}

#[test]
fn test_reflect_slanted_surface() {
    let incident = vector(0., -1., 0.);
    let normal = vector(2_f64.sqrt() / 2., 2_f64.sqrt() / 2., 0.);
    let reflected = incident.reflect(normal);
    assert!(reflected.is_equal(vector(1., 0., 0.)));
}

#[test]
fn test_direction() {
    assert_eq!(vector(3., 0., 4.).direction(), vector(3., 0., 4.).normalize());
    assert!(vector(3., 0., 4.).direction().is_equal(vector(0.6, 0., 0.8)));
    let tiny = Tuple::vector(Scalar::from_raw(6), Scalar::from_raw(-8), Scalar::from_raw(0));
    assert!(tiny.direction().is_equal(vector(0.6, -0.8, 0.)));
    let huge = vector(3e17, 4e17, 0.);
    assert!(huge.direction().is_equal(vector(0.6, 0.8, 0.)));
    let one_sided = Tuple::vector(Scalar::infinity(), Scalar::from_raw(1), Scalar::zero());
    assert!(one_sided.direction().is_equal(vector(1., 0., 0.)));
    assert_eq!(vector(0., 0., 0.).direction(), vector(0., 0., 0.));
    for v in [tiny, huge, one_sided, vector(1e-9, 2e-9, -2e-9), vector(1e9, 1., 1e-9)] {
        assert!(v.direction().magnitude().is_equal(s(1.)));
    }
}
