use softraster::color::Color;
use softraster::mesh::build_cube;
use softraster::raster::redraw;

#[test]
fn cube_builder_yields_eight_vertices_twelve_faces() {
    let c = Color::new(10, 20, 30);
    let mesh = build_cube((0, 0, 0), 1, c).unwrap();
    assert_eq!(mesh.store.vert_count(), 8);
    assert_eq!(mesh.store.face_count(), 12);
    for k in 0..12 {
        assert!(mesh.store.face_to_matrix(k).is_ok());
    }
}

#[test]
fn cube_corners_are_exact_sign_combinations() {
    let c = Color::new(1, 2, 3);
    let mesh = build_cube((0, 0, 0), 1, c).unwrap();
    // every origin +/- 1 combination is registered, each under its own id
    let mut ids = Vec::new();
    for &x in &[1i32, -1] {
        for &y in &[1i32, -1] {
            for &z in &[1i32, -1] {
                ids.push(mesh.store.find_vertex((x, y, z)).unwrap());
            }
        }
    }
    ids.sort();
    ids.dedup();
    assert_eq!(ids.len(), 8);
    assert!(ids.iter().all(|&id| id < 8));
}

#[test]
fn cube_attributes_run_parallel_to_vertices() {
    let c = Color::new(9, 8, 7);
    let mesh = build_cube((5, -5, 2), 3, c).unwrap();
    assert_eq!(mesh.colors.len(), 8);
    assert_eq!(mesh.intensities.len(), 8);
    assert!(mesh.colors.iter().all(|&col| col == c));
    assert!(mesh.intensities.iter().all(|&lux| lux == 255));
    assert_eq!(mesh.adjacency.vertex_count(), 8);
}

#[test]
fn cube_adjacency_rows_hold_face_edges() {
    let c = Color::new(0, 0, 0);
    let mesh = build_cube((0, 0, 0), 1, c).unwrap();
    // vertex 0 meets faces (0,1,2), (0,2,6), (0,6,3), (0,5,1), (0,3,5)
    let n0 = mesh.adjacency.neighbors(0);
    for v in [1usize, 2, 6, 3, 5] {
        assert!(n0.contains(&v));
    }
    assert!(!n0.contains(&0));
    assert!(!n0.contains(&4));
    // the edge is undirected
    let n1 = mesh.adjacency.neighbors(1);
    assert!(n1.contains(&0));
}

#[test]
fn cube_front_face_rasterizes_inside_buffer() {
    // orthographic projection: drop z; corners at 30 and 70 on both axes
    let c = Color::new(200, 200, 0);
    let mesh = build_cube((50, 50, 0), 20, c).unwrap();
    let fill = c.as_hex();
    let background = 0u32;
    let mut buffer = vec![1u32; 100 * 100];
    let degenerate = redraw(&mut buffer, &mesh.store, 100, 100, fill, background);
    // the eight side faces collapse under the projection; front and back stay
    assert_eq!(degenerate, 8);
    // a pixel within the projected silhouette is painted
    assert_eq!(buffer[50 * 100 + 50], fill);
    assert_ne!(buffer[50 * 100 + 50], background);
    // all four buffer corners stay background
    assert_eq!(buffer[0], background);
    assert_eq!(buffer[99], background);
    assert_eq!(buffer[99 * 100], background);
    assert_eq!(buffer[99 * 100 + 99], background);
}
