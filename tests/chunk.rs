use patent_similarity::chunk::chunk_bounds;

#[test]
fn chunks_cover_records_in_order() {
    let bounds = chunk_bounds(7, 3);
    assert_eq!(bounds, vec![(0, 3), (3, 6), (6, 7)]);
    let records: Vec<u32> = (10..17).collect();
    let joined: Vec<u32> = bounds.iter().flat_map(|(s, e)| records[*s..*e].to_vec()).collect();
    assert_eq!(joined, records);
}

#[test]
fn last_chunk_is_full_when_size_divides() {
    assert_eq!(chunk_bounds(6, 3), vec![(0, 3), (3, 6)]);
}

#[test]
fn no_records_give_no_chunks() {
    assert!(chunk_bounds(0, 250).is_empty());
}

#[test]
fn one_chunk_when_batch_is_larger_than_data() {
    assert_eq!(chunk_bounds(3, 250), vec![(0, 3)]);
}

#[test]
fn last_chunk_holds_the_remainder() {
    let bounds = chunk_bounds(1001, 250);
    assert_eq!(bounds.len(), 5);
    let (s, e) = bounds[4];
    assert_eq!(e - s, 1001 % 250);
}
