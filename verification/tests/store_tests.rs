use softraster::store::{RasterBuffer, RasterError, MAX_FACES, MAX_VERTS};

#[test]
fn push_vertex_dedup_returns_same_id() {
    let mut s = RasterBuffer::new();
    let first = s.push_vertex((3, -4, 5)).unwrap();
    let second = s.push_vertex((3, -4, 5)).unwrap();
    assert_eq!(first, second);
    assert_eq!(s.vert_count(), 1);
}

#[test]
fn push_vertex_assigns_dense_ids() {
    let mut s = RasterBuffer::new();
    assert_eq!(s.push_vertex((0, 0, 0)).unwrap(), 0);
    assert_eq!(s.push_vertex((1, 0, 0)).unwrap(), 1);
    assert_eq!(s.push_vertex((0, 0, 0)).unwrap(), 0);
    assert_eq!(s.push_vertex((2, 0, 0)).unwrap(), 2);
    assert_eq!(s.vert_count(), 3);
}

#[test]
fn push_vertex_capacity_exceeded_leaves_count() {
    let mut s = RasterBuffer::new();
    for i in 0..MAX_VERTS {
        s.push_vertex((i as i32, 0, 0)).unwrap();
    }
    assert_eq!(s.vert_count(), MAX_VERTS);
    assert_eq!(s.push_vertex((-1, 2, 3)), Err(RasterError::CapacityExceeded));
    assert_eq!(s.vert_count(), MAX_VERTS);
    // a position that is already present still resolves when the store is full
    assert_eq!(s.push_vertex((5, 0, 0)), Ok(5));
    assert_eq!(s.vert_count(), MAX_VERTS);
}

#[test]
fn push_face_capacity_exceeded_leaves_count() {
    let mut s = RasterBuffer::new();
    s.push_vertex((0, 0, 0)).unwrap();
    s.push_vertex((4, 0, 0)).unwrap();
    s.push_vertex((0, 4, 0)).unwrap();
    for _ in 0..MAX_FACES {
        s.push_face((0, 1, 2)).unwrap();
    }
    assert_eq!(s.face_count(), MAX_FACES);
    assert_eq!(s.push_face((0, 1, 2)), Err(RasterError::CapacityExceeded));
    assert_eq!(s.face_count(), MAX_FACES);
}

#[test]
fn find_vertex_hits_and_misses() {
    let mut s = RasterBuffer::new();
    s.push_vertex((7, 8, 9)).unwrap();
    s.push_vertex((-7, 8, 9)).unwrap();
    assert_eq!(s.find_vertex((-7, 8, 9)), Ok(1));
    assert_eq!(s.find_vertex((7, 8, 9)), Ok(0));
    assert_eq!(s.find_vertex((7, 8, 10)), Err(RasterError::VertexNotFound));
}

#[test]
fn push_triangle_resolves_positions() {
    let mut s = RasterBuffer::new();
    s.push_vertex((0, 0, 1)).unwrap();
    s.push_vertex((4, 0, 1)).unwrap();
    s.push_vertex((0, 4, 1)).unwrap();
    s.push_triangle((0, 0, 1), (4, 0, 1), (0, 4, 1)).unwrap();
    assert_eq!(s.face_count(), 1);
}

#[test]
fn push_triangle_unregistered_position_fails() {
    let mut s = RasterBuffer::new();
    s.push_vertex((0, 0, 1)).unwrap();
    s.push_vertex((4, 0, 1)).unwrap();
    let r = s.push_triangle((0, 0, 1), (4, 0, 1), (9, 9, 9));
    assert_eq!(r, Err(RasterError::VertexNotFound));
    assert_eq!(s.face_count(), 0);
}

#[test]
fn face_to_matrix_out_of_range() {
    let mut s = RasterBuffer::new();
    assert!(matches!(s.face_to_matrix(0), Err(RasterError::IndexOutOfRange)));
    s.push_vertex((0, 0, 1)).unwrap();
    s.push_vertex((4, 0, 1)).unwrap();
    s.push_vertex((0, 4, 1)).unwrap();
    s.push_face((0, 1, 2)).unwrap();
    assert!(s.face_to_matrix(0).is_ok());
    assert!(matches!(s.face_to_matrix(1), Err(RasterError::IndexOutOfRange)));
}

#[test]
fn flush_resets_and_is_idempotent() {
    let mut s = RasterBuffer::new();
    s.push_vertex((1, 2, 3)).unwrap();
    s.push_vertex((4, 5, 6)).unwrap();
    s.push_vertex((7, 8, 10)).unwrap();
    s.push_face((0, 1, 2)).unwrap();
    s.flush();
    assert_eq!(s.vert_count(), 0);
    assert_eq!(s.face_count(), 0);
    assert_eq!(s.find_vertex((1, 2, 3)), Err(RasterError::VertexNotFound));
    s.flush();
    assert_eq!(s.vert_count(), 0);
    assert_eq!(s.face_count(), 0);
    // identifiers are reassigned from zero after a flush
    assert_eq!(s.push_vertex((4, 5, 6)).unwrap(), 0);
}
