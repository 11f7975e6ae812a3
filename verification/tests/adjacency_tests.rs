use softraster::adjacency::AdjacencyList;

#[test]
fn adjacency_from_scratch() {
    let mut a = AdjacencyList::new();
    assert_eq!(a.vertex_count(), 0);
    a.push_row();
    a.push_row();
    a.push_row();
    assert_eq!(a.vertex_count(), 3);
    a.add_edge(0, 1);
    a.add_edge(0, 2);
    a.add_edge(0, 1); // repeated edge is not stored twice
    assert_eq!(a.neighbors(0), vec![1, 2]);
    assert_eq!(a.neighbors(1), vec![0]);
    assert_eq!(a.neighbors(2), vec![0]);
}

#[test]
fn adjacency_rows_grow_independently() {
    let mut a = AdjacencyList::new();
    for _ in 0..4 {
        a.push_row();
    }
    // load row 0 far beyond any fixed per-row chunk
    for v in 1..4 {
        a.add_edge(0, v);
    }
    assert_eq!(a.neighbors(0), vec![1, 2, 3]);
    // the other rows kept exactly their own entries
    assert_eq!(a.neighbors(1), vec![0]);
    assert_eq!(a.neighbors(2), vec![0]);
    assert_eq!(a.neighbors(3), vec![0]);
}

#[test]
fn adjacency_keeps_insertion_order() {
    let mut a = AdjacencyList::new();
    for _ in 0..5 {
        a.push_row();
    }
    a.add_edge(2, 4);
    a.add_edge(2, 1);
    a.add_edge(2, 3);
    assert_eq!(a.neighbors(2), vec![4, 1, 3]);
}
