use tinyrender::{FrameBuffer, Rgb};

const BLACK: Rgb = Rgb { r: 0, g: 0, b: 0 };

fn shade(v: u8) -> Rgb {
    Rgb { r: v, g: v, b: v }
}

#[test]
fn new_buffer_is_black() {
    let img = FrameBuffer::new(4, 3);
    assert_eq!(img.width(), 4);
    assert_eq!(img.height(), 3);
    for y in 0..3 {
        for x in 0..4 {
            assert_eq!(img.get_pixel(x, y), BLACK);
        }
    }
}

#[test]
fn put_pixel_changes_only_its_target() {
    let mut img = FrameBuffer::new(4, 4);
    let c = Rgb { r: 1, g: 2, b: 3 };
    img.put_pixel(2, 1, c);
    for y in 0..4 {
        for x in 0..4 {
            if (x, y) == (2, 1) {
                assert_eq!(img.get_pixel(x, y), c);
            } else {
                assert_eq!(img.get_pixel(x, y), BLACK);
            }
        }
    }
}

#[test]
fn flip_vertical_reverses_rows() {
    let mut img = FrameBuffer::new(2, 3);
    for y in 0..3 {
        for x in 0..2 {
            img.put_pixel(x, y, shade((10 * y + x) as u8));
        }
    }
    img.flip_vertical();
    for y in 0..3 {
        for x in 0..2 {
            assert_eq!(img.get_pixel(x, y), shade((10 * (2 - y) + x) as u8));
        }
    }
}

#[test]
fn flip_vertical_twice_is_identity() {
    let mut img = FrameBuffer::new(5, 4);
    for y in 0..4 {
        for x in 0..5 {
            img.put_pixel(x, y, Rgb { r: x as u8, g: y as u8, b: (x + y) as u8 });
        }
    }
    let before: Vec<Rgb> =
        (0..4).flat_map(|y| (0..5).map(move |x| (x, y))).map(|(x, y)| img.get_pixel(x, y)).collect();
    img.flip_vertical();
    img.flip_vertical();
    let after: Vec<Rgb> =
        (0..4).flat_map(|y| (0..5).map(move |x| (x, y))).map(|(x, y)| img.get_pixel(x, y)).collect();
    assert_eq!(before, after);
}

#[test]
fn flip_vertical_odd_height_keeps_middle_row() {
    let mut img = FrameBuffer::new(1, 3);
    img.put_pixel(0, 0, shade(1));
    img.put_pixel(0, 1, shade(2));
    img.put_pixel(0, 2, shade(3));
    img.flip_vertical();
    assert_eq!(img.get_pixel(0, 0), shade(3));
    assert_eq!(img.get_pixel(0, 1), shade(2));
    assert_eq!(img.get_pixel(0, 2), shade(1));
}
