use vector_index::distances::{chunk_split, lane_offset, CHUNK_LEN, LANE_WIDTH};

#[test]
fn chunk_split_short_vector_has_no_chunk() {
    assert_eq!(chunk_split(3), (0, 0));
}

#[test]
fn chunk_split_exact_and_tail() {
    assert_eq!(chunk_split(16), (1, 16));
    assert_eq!(chunk_split(40), (2, 32));
    assert_eq!(chunk_split(0), (0, 0));
}

#[test]
fn lane_offsets_cover_chunk() {
    assert_eq!(lane_offset(40, 0, 0), 0);
    assert_eq!(lane_offset(40, 1, 3), 28);
    assert_eq!(CHUNK_LEN / LANE_WIDTH, 4);
}
