use tinyrender::fill::draw_triangle;
use tinyrender::line::draw_line;
use tinyrender::{FrameBuffer, Line, Rgb, Triangle, Vec2i};

const BLACK: Rgb = Rgb { r: 0, g: 0, b: 0 };
const RED: Rgb = Rgb { r: 255, g: 0, b: 0 };
const WHITE: Rgb = Rgb { r: 255, g: 255, b: 255 };

fn painted(img: &FrameBuffer) -> Vec<(usize, usize)> {
    let mut v = Vec::new();
    for y in 0..img.height() {
        for x in 0..img.width() {
            if img.get_pixel(x, y) != BLACK {
                v.push((x, y));
            }
        }
    }
    v
}

#[test]
fn fill_triangle_on_canvas() {
    // red triangle on a 200 by 200 black canvas
    let mut img = FrameBuffer::new(200, 200);
    let t = Triangle(Vec2i::new(10, 70), Vec2i::new(50, 160), Vec2i::new(70, 80));
    draw_triangle(t, &mut img, RED);
    assert_eq!(img.get_pixel(50, 100), RED);
    assert_eq!(img.get_pixel(0, 0), BLACK);
}

#[test]
fn fill_paints_vertices_of_nondegenerate_triangle() {
    let mut img = FrameBuffer::new(64, 64);
    let t = Triangle(Vec2i::new(5, 6), Vec2i::new(40, 10), Vec2i::new(20, 50));
    draw_triangle(t, &mut img, WHITE);
    assert_eq!(img.get_pixel(5, 6), WHITE);
    assert_eq!(img.get_pixel(40, 10), WHITE);
    assert_eq!(img.get_pixel(20, 50), WHITE);
}

#[test]
fn fill_degenerate_triangle_paints_nothing() {
    // collinear vertices: the fill paints zero pixels
    let mut img = FrameBuffer::new(20, 20);
    let t = Triangle(Vec2i::new(1, 1), Vec2i::new(5, 5), Vec2i::new(9, 9));
    draw_triangle(t, &mut img, RED);
    assert_eq!(painted(&img), Vec::new());
}

#[test]
fn fill_clamps_to_buffer() {
    // a triangle reaching far outside the canvas stays within it
    let mut img = FrameBuffer::new(8, 8);
    let t = Triangle(Vec2i::new(-20, -20), Vec2i::new(30, -20), Vec2i::new(-20, 30));
    draw_triangle(t, &mut img, RED);
    assert_eq!(img.get_pixel(0, 0), RED);
    assert_eq!(img.get_pixel(7, 7), BLACK);
}

#[test]
fn line_horizontal() {
    let mut img = FrameBuffer::new(10, 10);
    draw_line(Line(Vec2i::new(2, 3), Vec2i::new(7, 3)), &mut img, WHITE);
    for x in 2..=7 {
        assert_eq!(img.get_pixel(x, 3), WHITE);
    }
    assert_eq!(img.get_pixel(1, 3), BLACK);
    assert_eq!(img.get_pixel(8, 3), BLACK);
}

#[test]
fn line_includes_both_endpoints() {
    let mut img = FrameBuffer::new(100, 100);
    draw_line(Line(Vec2i::new(13, 20), Vec2i::new(80, 40)), &mut img, WHITE);
    assert_eq!(img.get_pixel(13, 20), WHITE);
    assert_eq!(img.get_pixel(80, 40), WHITE);
}

#[test]
fn line_steep_connected() {
    let mut img = FrameBuffer::new(12, 12);
    draw_line(Line(Vec2i::new(1, 1), Vec2i::new(3, 10)), &mut img, WHITE);
    assert_eq!(img.get_pixel(1, 1), WHITE);
    assert_eq!(img.get_pixel(3, 10), WHITE);
    // one pixel per row between the endpoints
    let pts = painted(&img);
    assert_eq!(pts.len(), 10);
}

#[test]
fn line_symmetric_painted_set() {
    // the same segment drawn in both directions paints the same pixels
    let mut fwd = FrameBuffer::new(100, 100);
    let mut rev = FrameBuffer::new(100, 100);
    draw_line(Line(Vec2i::new(13, 20), Vec2i::new(80, 40)), &mut fwd, WHITE);
    draw_line(Line(Vec2i::new(80, 40), Vec2i::new(13, 20)), &mut rev, WHITE);
    assert_eq!(painted(&fwd), painted(&rev));
}

#[test]
fn line_single_point() {
    let mut img = FrameBuffer::new(5, 5);
    draw_line(Line(Vec2i::new(2, 2), Vec2i::new(2, 2)), &mut img, RED);
    assert_eq!(painted(&img), vec![(2, 2)]);
}

#[test]
fn fill_on_empty_buffer_is_safe() {
    // a zero-sized buffer: the clamped box inverts and nothing is written
    let mut img = FrameBuffer::new(0, 0);
    let t = Triangle(Vec2i::new(0, 0), Vec2i::new(4, 0), Vec2i::new(0, 4));
    draw_triangle(t, &mut img, RED);
    assert_eq!(img.width(), 0);
}

#[test]
fn fill_on_single_pixel_buffer() {
    let mut img = FrameBuffer::new(1, 1);
    let t = Triangle(Vec2i::new(-2, -2), Vec2i::new(3, -1), Vec2i::new(0, 3));
    draw_triangle(t, &mut img, RED);
    assert_eq!(img.get_pixel(0, 0), RED);
}
