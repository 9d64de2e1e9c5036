use rtracer::image::{push_decimal, Image};

#[test]
fn background_fills_every_pixel() {
    let img = Image::with_background(3, 2, 7u16);
    assert_eq!((img.width(), img.height()), (3, 2));
    assert_eq!(img.buf(), &vec![7u16; 6]);
    let none = Image::with_background(0, 5, 1u8);
    assert_eq!(none.buf().len(), 0);
}

#[test]
fn pixels_are_stored_row_by_row() {
    let mut img = Image::with_background(3, 2, 0u32);
    img.set(1, 0, 10);
    img.set(0, 1, 20);
    img.set(2, 1, 30);
    assert_eq!(img.buf(), &vec![0, 10, 0, 20, 0, 30]);
    assert_eq!(img.get(1, 0), 10);
    assert_eq!(img.get(0, 1), 20);
    assert_eq!(img.get(2, 1), 30);
    assert_eq!(img.get(2, 0), 0);
    assert_eq!(img.index_of(2, 1), 5);
}

#[test]
fn slots_and_pixels_correspond_one_to_one() {
    let img = Image::with_background(5, 4, ());
    let mut seen = vec![false; 20];
    for y in 0..4 {
        for x in 0..5 {
            let slot = img.index_of(x, y);
            assert!(!seen[slot]);
            seen[slot] = true;
            assert_eq!(img.coords_of(slot), (x, y));
        }
    }
    assert!(seen.iter().all(|s| *s));
    assert_eq!(img.coords_of(7), (2, 1));
}

#[test]
fn from_pixels_wants_exactly_one_pixel_per_place() {
    assert!(Image::from_pixels(2, 2, vec![1, 2, 3]).is_none());
    assert!(Image::from_pixels(2, 2, vec![1, 2, 3, 4, 5]).is_none());
    let img = Image::from_pixels(2, 2, vec![1, 2, 3, 4]).unwrap();
    assert_eq!(img.get(1, 1), 4);
    assert_eq!(img.get(0, 1), 3);
    assert!(Image::from_pixels(65536, 65536, vec![0u8; 0]).is_none());
    assert!(Image::from_pixels(0, 9, Vec::<u8>::new()).is_some());
}

#[test]
fn decimal_has_no_leading_zeros() {
    let mut out = b"n=".to_vec();
    push_decimal(&mut out, 0);
    out.push(b',');
    push_decimal(&mut out, 7);
    out.push(b',');
    push_decimal(&mut out, 10);
    out.push(b',');
    push_decimal(&mut out, 255);
    out.push(b',');
    push_decimal(&mut out, 4294967295);
    assert_eq!(out, b"n=0,7,10,255,4294967295".to_vec());
}

#[test]
fn ppm_is_header_then_one_line_per_pixel() {
    let pixels = vec![(255, 0, 0), (0, 128, 9), (1, 2, 3), (100, 100, 100)];
    let img = Image::from_pixels(2, 2, pixels).unwrap();
    let mut file = Vec::new();
    img.write_ppm(&mut file);
    assert_eq!(
        String::from_utf8(file).unwrap(),
        "P3\n2 2\n255\n255 0 0\n0 128 9\n1 2 3\n100 100 100\n"
    );
}

#[test]
fn ppm_is_appended_to_what_the_file_holds() {
    let img = Image::with_background(1, 3, (0u8, 0u8, 0u8));
    let mut file = b"# ".to_vec();
    img.write_ppm(&mut file);
    assert_eq!(String::from_utf8(file).unwrap(), "# P3\n1 3\n255\n0 0 0\n0 0 0\n0 0 0\n");
}
