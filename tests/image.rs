use jtracer::imbuf::{decimal_bytes, ImBuf};
use jtracer::Color;

#[test]
fn decimals() {
    assert_eq!(decimal_bytes(0), b"0".to_vec());
    assert_eq!(decimal_bytes(7), b"7".to_vec());
    assert_eq!(decimal_bytes(500), b"500".to_vec());
    assert_eq!(decimal_bytes(1234567), b"1234567".to_vec());
}

#[test]
fn new_image_is_black() {
    let b = ImBuf::new(3, 2);
    assert_eq!(b.pixels.len(), 6);
    assert!(b.pixels.iter().all(|c| *c == Color { r: 0, g: 0, b: 0 }));
}

#[test]
fn set_then_get() {
    let mut b = ImBuf::new(3, 2);
    let c = Color { r: 1, g: 2, b: 3 };
    b.set(2, 1, c);
    assert_eq!(b.get(2, 1), c);
    assert_eq!(b.get(1, 1), Color { r: 0, g: 0, b: 0 });
    assert_eq!(b.pixels[5], c);
}

#[test]
fn ppm_flips_rows() {
    let mut b = ImBuf::new(2, 2);
    b.set(0, 0, Color { r: 1, g: 2, b: 3 });
    b.set(1, 1, Color { r: 4, g: 5, b: 6 });
    let mut want = b"P6\n2 2\n255\n".to_vec();
    want.extend_from_slice(&[0, 0, 0, 4, 5, 6, 1, 2, 3, 0, 0, 0]);
    assert_eq!(b.to_ppm(), want);
}

#[test]
fn empty_image_has_header_only() {
    let b = ImBuf::new(0, 4);
    assert_eq!(b.to_ppm(), b"P6\n0 4\n255\n".to_vec());
}

#[test]
fn background_image_of_requested_size() {
    let b = ImBuf::new(4, 3);
    let ppm = b.to_ppm();
    let head = b"P6\n4 3\n255\n";
    assert_eq!(&ppm[..head.len()], head);
    assert_eq!(ppm.len(), head.len() + 4 * 3 * 3);
    assert!(ppm[head.len()..].iter().all(|x| *x == 0));
}
