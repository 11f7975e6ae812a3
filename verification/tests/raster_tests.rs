use softraster::color::Color;
use softraster::raster::{classify_sample, redraw, Mat3};
use softraster::store::{RasterBuffer, RasterError};

const WHITE: u32 = 0xFFFFFF;
const BLACK: u32 = 0;

#[test]
fn sample_inside_reference_triangle() {
    let m = Mat3::from_cols((0, 0, 1), (4, 0, 1), (0, 4, 1));
    assert_eq!(classify_sample(&m, 1, 1, 1), Ok(true));
}

#[test]
fn sample_outside_reference_triangle() {
    let m = Mat3::from_cols((0, 0, 1), (4, 0, 1), (0, 4, 1));
    assert_eq!(classify_sample(&m, 3, 3, 1), Ok(false));
}

#[test]
fn sample_against_clockwise_triangle() {
    // reversed winding flips the determinant's sign, not the answer
    let m = Mat3::from_cols((0, 0, 1), (0, 4, 1), (4, 0, 1));
    assert_eq!(classify_sample(&m, 1, 1, 1), Ok(true));
    assert_eq!(classify_sample(&m, 3, 3, 1), Ok(false));
}

#[test]
fn collinear_vertices_are_degenerate() {
    let m = Mat3::from_cols((0, 0, 1), (1, 1, 1), (2, 2, 1));
    assert_eq!(classify_sample(&m, 1, 1, 1), Err(RasterError::DegenerateGeometry));
}

#[test]
fn redraw_paints_triangle_pixels() {
    let mut s = RasterBuffer::new();
    s.push_vertex((0, 0, 0)).unwrap();
    s.push_vertex((4, 0, 0)).unwrap();
    s.push_vertex((0, 4, 0)).unwrap();
    s.push_face((0, 1, 2)).unwrap();
    let mut buffer = vec![7u32; 64];
    let degenerate = redraw(&mut buffer, &s, 8, 8, WHITE, BLACK);
    assert_eq!(degenerate, 0);
    // pixel (1, 1) samples (1.5, 1.5), inside the triangle
    assert_eq!(buffer[1 * 8 + 1], WHITE);
    // pixel (3, 3) samples (3.5, 3.5), outside the triangle
    assert_eq!(buffer[3 * 8 + 3], BLACK);
    // pixel (0, 0) samples (0.5, 0.5), inside
    assert_eq!(buffer[0], WHITE);
    // far corner stays background
    assert_eq!(buffer[7 * 8 + 7], BLACK);
}

#[test]
fn redraw_after_flush_paints_background_everywhere() {
    let mut s = RasterBuffer::new();
    s.push_vertex((0, 0, 0)).unwrap();
    s.push_vertex((4, 0, 0)).unwrap();
    s.push_vertex((0, 4, 0)).unwrap();
    s.push_face((0, 1, 2)).unwrap();
    s.flush();
    let mut buffer = vec![7u32; 100];
    let degenerate = redraw(&mut buffer, &s, 10, 10, WHITE, 0xAABBCC);
    assert_eq!(degenerate, 0);
    assert!(buffer.iter().all(|&px| px == 0xAABBCC));
}

#[test]
fn degenerate_face_covers_nothing() {
    let mut s = RasterBuffer::new();
    s.push_vertex((0, 0, 0)).unwrap();
    s.push_vertex((1, 1, 0)).unwrap();
    s.push_vertex((2, 2, 0)).unwrap();
    s.push_face((0, 1, 2)).unwrap();
    let mut buffer = vec![7u32; 64];
    let degenerate = redraw(&mut buffer, &s, 8, 8, WHITE, BLACK);
    assert_eq!(degenerate, 1);
    assert!(buffer.iter().all(|&px| px == BLACK));
}

#[test]
fn degenerate_face_does_not_stop_the_frame() {
    let mut s = RasterBuffer::new();
    // a collinear face first, then a covering triangle
    s.push_vertex((0, 0, 0)).unwrap();
    s.push_vertex((1, 1, 0)).unwrap();
    s.push_vertex((2, 2, 0)).unwrap();
    s.push_vertex((8, 0, 0)).unwrap();
    s.push_vertex((0, 8, 0)).unwrap();
    s.push_face((0, 1, 2)).unwrap();
    s.push_face((0, 3, 4)).unwrap();
    let mut buffer = vec![7u32; 64];
    let degenerate = redraw(&mut buffer, &s, 8, 8, WHITE, BLACK);
    assert_eq!(degenerate, 1);
    // the later face was still painted
    assert_eq!(buffer[1 * 8 + 1], WHITE);
}

#[test]
fn redraw_uses_packed_colors() {
    let mut s = RasterBuffer::new();
    s.push_vertex((0, 0, 0)).unwrap();
    s.push_vertex((4, 0, 0)).unwrap();
    s.push_vertex((0, 4, 0)).unwrap();
    s.push_face((0, 1, 2)).unwrap();
    let fill = Color::new(255, 0, 0).as_hex();
    let background = Color::new(0, 0, 255).as_hex();
    let mut buffer = vec![0u32; 16];
    redraw(&mut buffer, &s, 4, 4, fill, background);
    assert_eq!(buffer[0], 0xFF0000);
    assert_eq!(buffer[3 * 4 + 3], 0x0000FF);
}
