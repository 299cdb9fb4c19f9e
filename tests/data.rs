use std::collections::HashMap;

use patent_similarity::data::{bucket_labels, DataError, DataPoint, DataSet, TextRecord};
use patent_similarity::label::LabelRangeError;
use patent_similarity::tokenize::format_text;
use tokenizers::models::wordlevel::WordLevel;
use tokenizers::pre_tokenizers::whitespace::Whitespace;
use tokenizers::Tokenizer;

fn small_tokenizer() -> Tokenizer {
    let words = [
        "[UNK]", "PHR1", ":", "PHR2", "CON", "telephone", "communications", "DO3", "abatement",
        "pollution", "A47",
    ];
    let vocab: HashMap<String, u32> = words
        .iter()
        .enumerate()
        .map(|(i, w)| (w.to_string(), i as u32))
        .collect();
    let model = WordLevel::builder()
        .vocab(vocab)
        .unk_token("[UNK]".to_string())
        .build()
        .unwrap();
    let mut tokenizer = Tokenizer::new(model);
    tokenizer.with_pre_tokenizer(Whitespace {});
    tokenizer
}

fn record(anchor: &str, target: &str, context: &str, score_tenths: i32) -> TextRecord {
    TextRecord {
        anchor: anchor.to_string(),
        target: target.to_string(),
        context: context.to_string(),
        score_tenths,
    }
}

#[test]
fn text_is_formatted_with_markers() {
    assert_eq!(
        format_text("telephone", "communications", "DO3"),
        "PHR1: telephone PHR2: communications CON: DO3"
    );
}

#[test]
fn tokenize_text_with_word_tokenizer() {
    let tokenizer = small_tokenizer();
    let ids = DataSet::tokenize_text(&tokenizer, "telephone", "communications", "DO3").unwrap();
    assert_eq!(ids, vec![1, 2, 5, 3, 2, 6, 4, 2, 7]);
}

#[test]
fn data_set_from_records() {
    let tokenizer = small_tokenizer();
    let records = vec![
        record("telephone", "communications", "DO3", 5),
        record("abatement", "pollution", "A47", 10),
        record("abatement", "noise reduction", "A47", 0),
    ];
    let ds = DataSet::new(&records, &tokenizer).unwrap();
    assert_eq!(ds.len(), 3);
    assert_eq!(ds.vocab_size, 11);
    assert_eq!(ds.data_points[0].feature, vec![1, 2, 5, 3, 2, 6, 4, 2, 7]);
    assert_eq!(ds.data_points[0].label, 5);
    assert_eq!(ds.data_points[1].label, 10);
    assert_eq!(ds.data_points[2].seq_len, 10);
    assert_eq!(ds.max_seq_len, 10);
}

#[test]
fn data_set_rejects_unmapped_score() {
    let tokenizer = small_tokenizer();
    let records = vec![
        record("telephone", "communications", "DO3", 5),
        record("abatement", "pollution", "A47", 6),
        record("abatement", "pollution", "A47", 9),
    ];
    let err = DataSet::new(&records, &tokenizer).err().unwrap();
    assert_eq!(err, DataError::LabelRange(LabelRangeError { index: 1, value: 6 }));
}

#[test]
fn labels_of_valid_records() {
    let records = vec![record("a", "b", "c", 2), record("d", "e", "f", 7)];
    assert_eq!(bucket_labels(&records).unwrap(), vec![2, 7]);
}

#[test]
fn max_seq_len_is_longest_record() {
    let points = vec![
        DataPoint::new(vec![1, 2], 0, 2),
        DataPoint::new(vec![1, 2, 3, 4, 5], 2, 5),
        DataPoint::new(vec![1], 5, 1),
    ];
    let ds = DataSet::from_points(points, 30);
    assert_eq!(ds.max_seq_len, 5);
    assert_eq!(ds.vocab_size, 30);
}

#[test]
fn empty_data_set_has_zero_length() {
    let ds = DataSet::from_points(Vec::new(), 30);
    assert_eq!(ds.max_seq_len, 0);
    assert_eq!(ds.len(), 0);
}

#[test]
fn encodings_become_points() {
    let ds = DataSet::from_encodings(&vec![vec![4, 9, 1], vec![7]], &vec![2, 10], 12);
    assert_eq!(ds.data_points[0].feature, vec![4, 9, 1]);
    assert_eq!(ds.data_points[0].seq_len, 3);
    assert_eq!(ds.data_points[1].label, 10);
    assert_eq!(ds.max_seq_len, 3);
}
