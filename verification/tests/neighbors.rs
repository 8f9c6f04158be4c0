use vector_index::neighbors::NeighborStorage;

#[test]
fn new_storage_nodes_start_empty() {
    let mut s = NeighborStorage::new(2);
    s.add_node(2);
    for level in 0..=2 {
        assert!(s.get_neighbors(level, 0).is_empty());
    }
}

#[test]
fn add_neighbor_appends_to_list() {
    let mut s = NeighborStorage::new(1);
    s.add_node(1);
    s.add_neighbor(0, 0, 5);
    s.add_neighbor(0, 0, 7);
    s.add_neighbor(1, 0, 3);
    assert_eq!(s.get_neighbors(0, 0), &[5, 7]);
    assert_eq!(s.get_neighbors(1, 0), &[3]);
}

#[test]
fn add_node_only_reaches_its_levels() {
    let mut s = NeighborStorage::new(2);
    s.add_node(0);
    s.add_node(2);
    // the second node is number 1 on level 0 but number 0 on levels 1 and 2
    s.add_neighbor(0, 1, 11);
    s.add_neighbor(2, 0, 22);
    assert_eq!(s.get_neighbors(0, 1), &[11]);
    assert_eq!(s.get_neighbors(0, 0), &[] as &[usize]);
    assert_eq!(s.get_neighbors(2, 0), &[22]);
    assert_eq!(s.get_neighbors(1, 0), &[] as &[usize]);
}

#[test]
fn lists_filled_in_turn_stay_apart() {
    let mut s = NeighborStorage::new(0);
    s.add_node(0);
    s.add_neighbor(0, 0, 1);
    s.add_neighbor(0, 0, 2);
    s.add_node(0);
    s.add_neighbor(0, 1, 3);
    assert_eq!(s.get_neighbors(0, 0), &[1, 2]);
    assert_eq!(s.get_neighbors(0, 1), &[3]);
}

#[test]
fn append_inside_buffer_overwrites_other_window() {
    // Both nodes start with a window at offset 0; the first append grows
    // the buffer, the second writes slot 0 in place, which the first
    // node's window covers.
    let mut s = NeighborStorage::new(0);
    s.add_node(0);
    s.add_node(0);
    s.add_neighbor(0, 0, 10);
    s.add_neighbor(0, 1, 20);
    assert_eq!(s.get_neighbors(0, 1), &[20]);
    assert_eq!(s.get_neighbors(0, 0), &[20]);
}
