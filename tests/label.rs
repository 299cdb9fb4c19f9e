use patent_similarity::label::{bucket_label, class_ids, class_index, class_name, LabelRangeError};

#[test]
fn class_names_of_buckets() {
    assert_eq!(class_name(0), "Unrelated");
    assert_eq!(class_name(2), "Somewhat Related");
    assert_eq!(class_name(5), "Different Meaning Synonym");
    assert_eq!(class_name(7), "Close Synonym");
    assert_eq!(class_name(10), "Very Close Match");
}

#[test]
fn buckets_are_accepted() {
    for v in [0, 2, 5, 7, 10] {
        assert_eq!(bucket_label(v, 0), Ok(v));
    }
}

#[test]
fn unmapped_scaled_score_is_a_label_range_error() {
    assert_eq!(bucket_label(3, 4), Err(LabelRangeError { index: 4, value: 3 }));
    assert_eq!(bucket_label(-1, 0), Err(LabelRangeError { index: 0, value: -1 }));
    assert_eq!(bucket_label(11, 2), Err(LabelRangeError { index: 2, value: 11 }));
}

#[test]
fn class_ids_are_dense() {
    assert_eq!(class_index(0), Some(0));
    assert_eq!(class_index(2), Some(1));
    assert_eq!(class_index(5), Some(2));
    assert_eq!(class_index(7), Some(3));
    assert_eq!(class_index(10), Some(4));
    assert_eq!(class_index(1), None);
}

#[test]
fn class_ids_of_batch_labels() {
    assert_eq!(class_ids(&vec![7, 10, 0]), Ok(vec![3, 4, 0]));
    assert_eq!(class_ids(&vec![7, 8, 9]), Err(LabelRangeError { index: 1, value: 8 }));
}

#[test]
fn three_quarter_score_truncates_to_close_synonym() {
    let scaled = (0.75f32 * 10.0) as i32;
    assert_eq!(bucket_label(scaled, 0), Ok(7));
    assert_eq!(class_name(7), "Close Synonym");
    let scaled = (0.5f32 * 10.0) as i32;
    assert_eq!(bucket_label(scaled, 0), Ok(5));
    assert_eq!(class_name(5), "Different Meaning Synonym");
    let scaled = (0.3f32 * 10.0) as i32;
    assert_eq!(bucket_label(scaled, 9), Err(LabelRangeError { index: 9, value: 3 }));
}
