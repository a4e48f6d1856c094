use raytracer::canvas::Canvas;
use raytracer::color::Color;
use raytracer::scalar::Scalar;

fn s(x: f64) -> Scalar {
    let text = format!("{}", x);
    let (whole, fraction) = text.split_once('.').unwrap_or((text.as_str(), ""));
    let mut digits = format!("{}{:0<16}", whole, fraction);
    digits.truncate(whole.len() + 16);
    Scalar::from_raw(digits.parse::<i128>().unwrap())
}

#[test]
fn test_new() {
    let canvas = Canvas::new(10, 20);
    assert!(canvas.get_pixel(0, 0).is_equal(Color::black()));
    assert!(canvas.get_pixel(5, 5).is_equal(Color::black()));
    assert!(canvas.get_pixel(9, 9).is_equal(Color::black()));
}

#[test]
fn test_new_has_the_given_size() {
    let canvas = Canvas::new(10, 20);
    assert_eq!(canvas.width(), 10);
    assert_eq!(canvas.height(), 20);
    for y in 0..20 {
        for x in 0..10 {
            assert_eq!(canvas.get_pixel(x, y), Color::black());
        }
    }
    let empty = Canvas::new(0, 7);
    assert_eq!((empty.width(), empty.height()), (0, 7));
}

#[test]
fn test_set_pixel() {
    let mut canvas = Canvas::new(10, 20);
    let red = Color::new(s(1.), s(0.), s(0.));
    canvas.set_pixel(2, 3, red);
    assert!(canvas.get_pixel(2, 3).is_equal(red));
}

#[test]
fn test_set_pixel_leaves_the_others() {
    let mut canvas = Canvas::new(5, 3);
    let red = Color::new(s(1.), s(0.), s(0.));
    let green = Color::new(s(0.), s(1.), s(0.));
    canvas.set_pixel(3, 0, red);
    canvas.set_pixel(0, 1, green);
    canvas.set_pixel(4, 2, red);
    for y in 0..3 {
        for x in 0..5 {
            let expected = match (x, y) {
                (3, 0) | (4, 2) => red,
                (0, 1) => green,
                _ => Color::black(),
            };
            assert_eq!(canvas.get_pixel(x, y), expected);
        }
    }
    assert_eq!((canvas.width(), canvas.height()), (5, 3));
}
