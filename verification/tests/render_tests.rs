use tinyrender::render::{isqrt, project, render, shade, FIXED_ONE};
use tinyrender::{Mesh, ModelVertex, Rgb};

const BLACK: Rgb = Rgb { r: 0, g: 0, b: 0 };
const WHITE: Rgb = Rgb { r: 255, g: 255, b: 255 };

fn v(x: i64, y: i64, z: i64) -> ModelVertex {
    ModelVertex { x, y, z }
}

#[test]
fn isqrt_small_values() {
    assert_eq!(isqrt(0), 0);
    assert_eq!(isqrt(1), 1);
    assert_eq!(isqrt(3), 1);
    assert_eq!(isqrt(4), 2);
    assert_eq!(isqrt(99), 9);
    assert_eq!(isqrt(100), 10);
}

#[test]
fn isqrt_large_values() {
    assert_eq!(isqrt(1u128 << 64), 1u64 << 32);
    assert_eq!(isqrt((1u128 << 64) - 1), (1u64 << 32) - 1);
    assert_eq!(isqrt(u128::MAX), u64::MAX);
}

#[test]
fn project_maps_model_cube_to_screen() {
    // the orthographic map sends x to (x + 1) * width / 2 - 1, truncated
    let origin = project(v(0, 0, 0), 40, 40);
    assert_eq!((origin.x, origin.y), (19, 19));
    let right = project(v(FIXED_ONE, 0, 0), 40, 40);
    assert_eq!(right.x, 39);
    let left = project(v(-FIXED_ONE, 0, 0), 40, 40);
    assert_eq!(left.x, -1);
    let top = project(v(0, FIXED_ONE, 0), 40, 40);
    assert_eq!(top.y, 39);
}

#[test]
fn shade_head_on_face_is_full_intensity() {
    // the computed normal (C - A) x (B - A) points straight at the light
    let a = v(0, 0, 0);
    let b = v(FIXED_ONE, 0, 0);
    let c = v(0, FIXED_ONE, 0);
    assert_eq!(shade(a, b, c), Some(255));
}

#[test]
fn shade_back_face_is_culled() {
    // the opposite winding flips the normal away from the light
    let a = v(0, 0, 0);
    let b = v(0, FIXED_ONE, 0);
    let c = v(FIXED_ONE, 0, 0);
    assert_eq!(shade(a, b, c), None);
}

#[test]
fn shade_angled_face_rounds_intensity() {
    // the normal comes out as (1, 0, -1) / sqrt(2): intensity 0.7071...,
    // and 255 * 0.7071... rounds to 180
    let a = v(0, 0, 0);
    let b = v(FIXED_ONE, 0, FIXED_ONE);
    let c = v(0, FIXED_ONE, 0);
    assert_eq!(shade(a, b, c), Some(180));
}

#[test]
fn shade_degenerate_face_is_culled() {
    let a = v(0, 0, 0);
    let b = v(FIXED_ONE, FIXED_ONE, 0);
    let c = v(2 * FIXED_ONE, 2 * FIXED_ONE, 0);
    assert_eq!(shade(a, b, c), None);
}

#[test]
fn render_single_face_fills_white() {
    let mesh = Mesh {
        positions: vec![v(0, 0, 0), v(FIXED_ONE, 0, 0), v(0, FIXED_ONE, 0)],
        faces: vec![(0, 1, 2)],
    };
    assert!(mesh.check());
    let img = render(&mesh, 40, 40);
    // the face projects to the triangle (19,19) (39,19) (19,39); after the
    // vertical flip its interior point (20,20) sits at row 19
    assert_eq!(img.get_pixel(20, 19), WHITE);
    assert_eq!(img.get_pixel(0, 0), BLACK);
}

#[test]
fn render_culled_face_paints_nothing() {
    let mesh = Mesh {
        positions: vec![v(0, 0, 0), v(FIXED_ONE, 0, 0), v(0, FIXED_ONE, 0)],
        faces: vec![(0, 2, 1)],
    };
    assert!(mesh.check());
    let img = render(&mesh, 40, 40);
    for y in 0..40 {
        for x in 0..40 {
            assert_eq!(img.get_pixel(x, y), BLACK);
        }
    }
}

#[test]
fn render_empty_mesh_is_black() {
    let mesh = Mesh { positions: Vec::new(), faces: Vec::new() };
    assert!(mesh.check());
    let img = render(&mesh, 16, 16);
    for y in 0..16 {
        for x in 0..16 {
            assert_eq!(img.get_pixel(x, y), BLACK);
        }
    }
}

#[test]
fn later_faces_overwrite_earlier_ones() {
    // a large head-on white face, then a smaller angled gray face on top:
    // there is no depth test, so the later face wins where they overlap
    let mesh = Mesh {
        positions: vec![
            v(-FIXED_ONE, -FIXED_ONE, 0),
            v(FIXED_ONE, -FIXED_ONE, 0),
            v(-FIXED_ONE, FIXED_ONE, 0),
            v(0, 0, 0),
            v(FIXED_ONE / 2, 0, FIXED_ONE / 2),
            v(0, FIXED_ONE / 2, 0),
        ],
        faces: vec![(0, 1, 2), (3, 4, 5)],
    };
    assert!(mesh.check());
    let img = render(&mesh, 40, 40);
    let gray = Rgb { r: 180, g: 180, b: 180 };
    // outside the small face the big one shows
    assert_eq!(img.get_pixel(5, 30), WHITE);
    // in the overlap the later, angled face overwrites the white fill
    assert_eq!(img.get_pixel(20, 19), gray);
}

#[test]
fn mesh_check_rejects_bad_index() {
    let mesh = Mesh { positions: vec![v(0, 0, 0)], faces: vec![(0, 0, 1)] };
    assert!(!mesh.check());
}

#[test]
fn mesh_check_rejects_out_of_range_coordinate() {
    let mesh = Mesh { positions: vec![v(0, 1 << 40, 0)], faces: vec![] };
    assert!(!mesh.check());
}
