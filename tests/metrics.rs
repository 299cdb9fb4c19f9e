use patent_similarity::metrics::count_correct;

#[test]
fn all_predictions_right() {
    let labels = vec![0, 4, 2, 2];
    assert_eq!(count_correct(&labels, &labels), 4);
}

#[test]
fn all_predictions_wrong() {
    assert_eq!(count_correct(&vec![1, 1, 1], &vec![0, 2, 3]), 0);
}

#[test]
fn some_predictions_right() {
    assert_eq!(count_correct(&vec![1, 2, 3, 4], &vec![1, 0, 3, 0]), 2);
    assert_eq!(count_correct(&vec![], &vec![]), 0);
}
