use raytracer::image::{push_decimal, Image, Pixel, RESOLUTION};
use raytracer::scalar::Scalar;

fn s(x: f64) -> Scalar {
    Scalar::from_bits(x.to_bits())
}

fn f(x: Scalar) -> f64 {
    f64::from_bits(x.to_bits())
}

fn rgb(p: &Pixel) -> [f64; 3] {
    [f(p.r), f(p.g), f(p.b)]
}

fn decimal(n: usize) -> String {
    let mut out = Vec::new();
    push_decimal(&mut out, n);
    String::from_utf8(out).unwrap()
}

#[test]
fn a_new_image_is_filled() {
    let image = Image::new(4, 3, Pixel::rgb(s(0.25), s(0.5), s(0.75)));
    assert_eq!((image.width(), image.height()), (4, 3));
    assert_eq!(image.pixels().len(), 12);
    for y in 0..3 {
        for x in 0..4 {
            assert_eq!(rgb(image.pixel(x, y)), [0.25, 0.5, 0.75]);
        }
    }
    assert_eq!(rgb(&Pixel::black()), [0.0, 0.0, 0.0]);
}

#[test]
fn an_image_may_be_empty() {
    let image = Image::new(0, 7, Pixel::black());
    assert_eq!((image.width(), image.height()), (0, 7));
    assert!(image.pixels().is_empty());
}

#[test]
fn pixels_are_stored_row_by_row() {
    let mut image = Image::new(3, 2, Pixel::black());
    for y in 0..2 {
        for x in 0..3 {
            *image.pixel_mut(x, y) = Pixel::rgb(s(x as f64), s(y as f64), s(0.0));
        }
    }
    let order: Vec<(f64, f64)> = image.pixels().iter().map(|p| (f(p.r), f(p.g))).collect();
    assert_eq!(order, vec![(0.0, 0.0), (1.0, 0.0), (2.0, 0.0), (0.0, 1.0), (1.0, 1.0), (2.0, 1.0)]);
    assert_eq!(rgb(image.pixel(2, 1)), [2.0, 1.0, 0.0]);
}

#[test]
fn changing_one_pixel_leaves_the_others() {
    let mut image = Image::new(2, 2, Pixel::black());
    image.pixel_mut(1, 0).g = s(9.0);
    assert_eq!(rgb(image.pixel(1, 0)), [0.0, 9.0, 0.0]);
    assert_eq!(rgb(image.pixel(0, 0)), [0.0, 0.0, 0.0]);
    assert_eq!(rgb(image.pixel(0, 1)), [0.0, 0.0, 0.0]);
    assert_eq!(rgb(image.pixel(1, 1)), [0.0, 0.0, 0.0]);
}

#[test]
fn numbers_are_written_in_base_ten() {
    assert_eq!(decimal(0), "0");
    assert_eq!(decimal(7), "7");
    assert_eq!(decimal(10), "10");
    assert_eq!(decimal(255), "255");
    assert_eq!(decimal(711), "711");
    assert_eq!(decimal(1000000), "1000000");
    assert_eq!(decimal(usize::MAX), format!("{}", usize::MAX));
    let mut out = vec![b'x'];
    push_decimal(&mut out, 42);
    assert_eq!(out, b"x42");
}

/// The level of a channel, as a writer of files makes it.
fn level(channel: Scalar) -> u8 {
    (f(channel.clamp(s(0.0), s(1.0))) * RESOLUTION as f64).round() as u8
}

fn pixmap(image: &Image) -> Vec<u8> {
    let mut out = Vec::new();
    image.write_ppm(level, &mut out);
    out
}

#[test]
fn a_pixmap_is_its_head_and_three_levels_for_each_pixel() {
    assert_eq!(RESOLUTION, 255);
    let mut image = Image::new(2, 1, Pixel::black());
    *image.pixel_mut(0, 0) = Pixel::rgb(s(1.0), s(0.0), s(-3.0));
    *image.pixel_mut(1, 0) = Pixel::rgb(s(0.0), s(0.5), s(7.0));
    let mut want = b"P6 2 1 255 ".to_vec();
    want.extend_from_slice(&[255, 0, 0, 0, 128, 255]);
    assert_eq!(pixmap(&image), want);
    assert_eq!(pixmap(&Image::new(711, 0, Pixel::black())), b"P6 711 0 255 ");
    assert_eq!(pixmap(&Image::new(0, 0, Pixel::black())), b"P6 0 0 255 ");
}

#[test]
fn the_samples_of_a_pixmap_stand_row_by_row_from_the_top() {
    let (width, height) = (3, 2);
    let mut image = Image::new(width, height, Pixel::black());
    for y in 0..height {
        for x in 0..width {
            // Each channel of each pixel gets a level of its own.
            let base = (10 * y + x) as f64;
            *image.pixel_mut(x, y) = Pixel::rgb(s(base / 255.0), s((base + 100.0) / 255.0), s((base + 200.0) / 255.0));
        }
    }
    let bytes = pixmap(&image);
    let head = b"P6 3 2 255 ".len();
    assert_eq!(bytes.len(), head + 3 * width * height);
    for y in 0..height {
        for x in 0..width {
            for c in 0..3 {
                let want = (10 * y + x + 100 * c) as u8;
                assert_eq!(bytes[head + 3 * (y * width + x) + c], want);
            }
        }
    }
}

#[test]
fn every_channel_goes_through_the_quantizer_once_in_order() {
    let mut image = Image::new(2, 2, Pixel::black());
    *image.pixel_mut(1, 0) = Pixel::rgb(s(1.0), s(2.0), s(3.0));
    *image.pixel_mut(0, 1) = Pixel::rgb(s(4.0), s(5.0), s(6.0));
    let seen = std::cell::RefCell::new(Vec::new());
    let mut out = Vec::new();
    image.write_ppm(
        |channel| {
            seen.borrow_mut().push(f(channel));
            f(channel) as u8
        },
        &mut out,
    );
    assert_eq!(*seen.borrow(), vec![0.0, 0.0, 0.0, 1.0, 2.0, 3.0, 4.0, 5.0, 6.0, 0.0, 0.0, 0.0]);
    assert_eq!(&out[b"P6 2 2 255 ".len()..], &[0, 0, 0, 1, 2, 3, 4, 5, 6, 0, 0, 0]);
}

#[test]
fn a_pixmap_is_appended_to_what_the_buffer_holds() {
    let mut out = b"kept".to_vec();
    Image::new(1, 1, Pixel::rgb(s(1.0), s(1.0), s(0.0))).write_ppm(level, &mut out);
    assert_eq!(out, b"keptP6 1 1 255 \xff\xff\x00");
}
