use patent_similarity::batcher::{pad_batch, pad_row, BatchError, PAD_ID};
use patent_similarity::data::DataPoint;

fn three_records() -> Vec<DataPoint> {
    vec![
        DataPoint {
            feature: vec![1, 2, 3, 4],
            label: 7,
            seq_len: 4,
        },
        DataPoint {
            feature: vec![5, 6, 7, 8],
            label: 10,
            seq_len: 4,
        },
        DataPoint {
            feature: vec![9, 10, 11, 12],
            label: 0,
            seq_len: 4,
        },
    ]
}

#[test]
fn test_create_batch() {
    let data = three_records();
    let max_seq_len = 120;
    let batch = pad_batch(&data, max_seq_len).unwrap();
    assert!(batch.token_ids.len() == 3);
}

#[test]
fn three_records_pad_to_shape_with_mask() {
    let data = three_records();
    let batch = pad_batch(&data, 120).unwrap();
    assert_eq!(batch.token_ids.len(), 3);
    assert_eq!(batch.padding_mask.len(), 3);
    assert_eq!(batch.positions.len(), 3);
    assert_eq!(batch.labels, vec![7, 10, 0]);
    for (i, row) in batch.padding_mask.iter().enumerate() {
        assert_eq!(row.len(), 120);
        assert!(row[..4].iter().all(|m| !m));
        assert_eq!(row[4..].iter().filter(|m| **m).count(), 116);
        let ids = &batch.token_ids[i];
        assert_eq!(ids.len(), 120);
        assert_eq!(&ids[..4], &data[i].feature[..]);
        assert!(ids[4..].iter().all(|t| *t == PAD_ID));
        let expected: Vec<usize> = (0..120).collect();
        assert_eq!(batch.positions[i], expected);
    }
}

#[test]
fn rows_of_different_lengths_pad_to_target() {
    let data = vec![
        DataPoint::new(vec![3, 1], 2, 2),
        DataPoint::new(vec![4, 5, 6], 5, 3),
    ];
    let batch = pad_batch(&data, 3).unwrap();
    assert_eq!(batch.token_ids, vec![vec![3, 1, 0], vec![4, 5, 6]]);
    assert_eq!(batch.padding_mask, vec![vec![false, false, true], vec![false, false, false]]);
}

#[test]
fn real_zero_token_is_not_masked() {
    let data = vec![DataPoint::new(vec![0, 7], 0, 2)];
    let batch = pad_batch(&data, 4).unwrap();
    assert_eq!(batch.token_ids[0], vec![0, 7, 0, 0]);
    assert_eq!(batch.padding_mask[0], vec![false, false, true, true]);
}

#[test]
fn empty_batch_is_rejected() {
    let data: Vec<DataPoint> = Vec::new();
    assert!(matches!(pad_batch(&data, 10), Err(BatchError::EmptyBatch)));
}

#[test]
fn too_long_record_is_rejected_with_its_index() {
    let data = vec![
        DataPoint::new(vec![1, 2], 0, 2),
        DataPoint::new(vec![1, 2, 3, 4, 5], 0, 5),
        DataPoint::new(vec![1, 2, 3, 4, 5, 6], 0, 6),
    ];
    assert!(matches!(pad_batch(&data, 4), Err(BatchError::Shape { index: 1 })));
}

#[test]
fn wrong_length_field_is_rejected() {
    let data = vec![DataPoint::new(vec![1, 2, 3], 0, 2)];
    assert!(matches!(pad_batch(&data, 8), Err(BatchError::Shape { index: 0 })));
}

#[test]
fn record_of_exact_length_gets_no_padding() {
    assert_eq!(pad_row(&vec![9, 8, 7], 3), vec![9, 8, 7]);
    assert_eq!(pad_row(&vec![], 2), vec![0, 0]);
}

#[test]
fn padding_twice_gives_the_same_batch() {
    let data = three_records();
    let a = pad_batch(&data, 6).unwrap();
    let b = pad_batch(&data, 6).unwrap();
    assert_eq!(a.token_ids, b.token_ids);
    assert_eq!(a.padding_mask, b.padding_mask);
}
