use raytrace_core::color::Color;
use raytrace_core::ppm::{encode_ppm, push_decimal, push_pixel};

/// The plain-PPM magic number followed by `rest`.
fn plain_ppm(rest: &str) -> String {
    let mut text = String::from("P");
    text.push('3');
    text.push_str(rest);
    text
}

#[test]
fn color_channels() {
    let c = Color::new(12, 200, 255);
    assert_eq!(c.red(), 12);
    assert_eq!(c.green(), 200);
    assert_eq!(c.blue(), 255);
}

#[test]
fn decimal_digits() {
    let mut out = Vec::new();
    push_decimal(&mut out, 0);
    assert_eq!(out, b"0".to_vec());
    let mut out = b"x".to_vec();
    push_decimal(&mut out, 4_294_967_295);
    assert_eq!(out, b"x4294967295".to_vec());
    let mut out = Vec::new();
    push_decimal(&mut out, 100);
    assert_eq!(out, b"100".to_vec());
}

#[test]
fn pixel_line() {
    let mut out = Vec::new();
    push_pixel(&mut out, Color::new(255, 0, 7));
    assert_eq!(out, b"255 0 7\n".to_vec());
}

#[test]
fn ppm_two_by_one() {
    let pixels = vec![Color::new(255, 0, 7), Color::new(10, 100, 0)];
    let text = encode_ppm(2, 1, &pixels).unwrap();
    assert_eq!(
        String::from_utf8(text).unwrap(),
        plain_ppm("\n2 1\n255\n255 0 7\n10 100 0\n")
    );
}

#[test]
fn ppm_empty_image() {
    let text = encode_ppm(0, 3, &Vec::new()).unwrap();
    assert_eq!(String::from_utf8(text).unwrap(), plain_ppm("\n0 3\n255\n"));
}

#[test]
fn ppm_wrong_pixel_count() {
    let pixels = vec![Color::new(1, 2, 3); 5];
    assert!(encode_ppm(2, 2, &pixels).is_none());
    assert!(encode_ppm(3, 2, &pixels).is_none());
    assert!(encode_ppm(5, 1, &pixels).is_some());
}
