use vstd::prelude::*;
use tokenizers::Tokenizer;
use crate::batcher::fits;
use crate::label::{bucket_label, is_bucket, LabelRangeError};
use crate::tokenize::{encode_ids, format_text, vocab_size};

verus! {

/// One tokenized record: its token ids, its label and its natural length.
#[derive(Debug)]
pub struct DataPoint {
    pub feature: Vec<usize>,
    pub label: i32,
    pub seq_len: usize,
}

impl DataPoint {
    /// The length field agrees with the token ids.
    pub open spec fn wf(&self) -> bool {
        self.seq_len == self.feature@.len()
    }

    /// A record from its parts, as given.
    pub fn new(feature: Vec<usize>, label: i32, seq_len: usize) -> (r: DataPoint)
        ensures
            r.feature@ == feature@,
            r.label == label,
            r.seq_len == seq_len,
    {
        DataPoint { feature, label, seq_len }
    }

    /// A record from the ids that a tokenizer returned, its length taken from them.
    pub fn from_ids(ids: &Vec<u32>, label: i32) -> (r: DataPoint)
        ensures
            r.wf(),
            r.label == label,
            r.feature@ == widened(ids@),
    {
        let feature = widen_ids(ids);
        let seq_len = feature.len();
        DataPoint { feature, label, seq_len }
    }
}

/// Token ids as `usize`.
pub open spec fn widened(ids: Seq<u32>) -> Seq<usize> {
    ids.map_values(|x: u32| x as usize)
}

/// Each token id as a `usize`, in order.
pub fn widen_ids(ids: &Vec<u32>) -> (r: Vec<usize>)
    ensures
        r@ == widened(ids@),
{
    let mut r: Vec<usize> = Vec::new();
    let mut i: usize = 0;
    while i < ids.len()
        invariant
            i <= ids@.len(),
            r@ == widened(ids@.subrange(0, i as int)),
        decreases ids@.len() - i,
    {
        proof {
            assert(ids@.subrange(0, i + 1) == ids@.subrange(0, i as int).push(ids@[i as int]));
        }
        r.push(ids[i] as usize);
        i = i + 1;
    }
    assert(ids@.subrange(0, ids@.len() as int) == ids@);
    r
}

/// The largest `seq_len` among the records, zero for none.
pub open spec fn max_seq_len_of(points: Seq<DataPoint>) -> nat
    decreases points.len(),
{
    if points.len() == 0 {
        0
    } else {
        let rest = max_seq_len_of(points.drop_last());
        let last = points.last().seq_len as nat;
        if last > rest {
            last
        } else {
            rest
        }
    }
}

pub proof fn lemma_max_seq_len_bounds(points: Seq<DataPoint>)
    ensures
        forall|i: int| 0 <= i < points.len() ==> points[i].seq_len <= max_seq_len_of(points),
        points.len() > 0 ==> exists|i: int|
            0 <= i < points.len() && points[i].seq_len == max_seq_len_of(points),
    decreases points.len(),
{
    if points.len() > 0 {
        lemma_max_seq_len_bounds(points.drop_last());
        let rest = points.drop_last();
        assert forall|i: int| 0 <= i < points.len() implies points[i].seq_len <= max_seq_len_of(
            points,
        ) by {
            if i < points.len() - 1 {
                assert(points[i] == rest[i]);
            }
        }
        if points.last().seq_len as nat <= max_seq_len_of(rest) && rest.len() > 0 {
            let j = choose|j: int| 0 <= j < rest.len() && rest[j].seq_len == max_seq_len_of(rest);
            assert(points[j] == rest[j]);
        }
    }
}

/// One input record: two phrases, the subject that relates them, and the
/// similarity score scaled by ten and truncated.
pub struct TextRecord {
    pub anchor: String,
    pub target: String,
    pub context: String,
    pub score_tenths: i32,
}

/// Why a data set could not be built.
#[derive(Debug, Clone, Copy, PartialEq, Eq, Structural)]
pub enum DataError {
    /// A record's scaled score is not one of the buckets.
    LabelRange(LabelRangeError),
    /// The tokenizer rejected the text of the record at `index`.
    TokenizerFailure { index: usize },
}

/// Record `i` is the first whose score is not a bucket.
pub open spec fn first_bad_label(records: Seq<TextRecord>, i: int) -> bool {
    &&& 0 <= i < records.len()
    &&& !is_bucket(records[i].score_tenths as int)
    &&& forall|k: int| 0 <= k < i ==> is_bucket(#[trigger] records[k].score_tenths as int)
}

pub open spec fn all_labels_valid(records: Seq<TextRecord>) -> bool {
    forall|k: int| 0 <= k < records.len() ==> is_bucket(#[trigger] records[k].score_tenths as int)
}

/// The labels of the records, or the error of the first one whose score is
/// not a bucket.
pub fn bucket_labels(records: &Vec<TextRecord>) -> (r: Result<Vec<i32>, LabelRangeError>)
    ensures
        r is Ok ==> all_labels_valid(records@),
        all_labels_valid(records@) ==> (r matches Ok(v) && v@.len() == records@.len() && forall|k: int|
            0 <= k < records@.len() ==> v@[k] == (#[trigger] records@[k]).score_tenths),
        forall|i: int|
            first_bad_label(records@, i) ==> r == Err::<Vec<i32>, LabelRangeError>(
                LabelRangeError { index: i as usize, value: records@[i].score_tenths },
            ),
{
    let mut labels: Vec<i32> = Vec::new();
    let mut i: usize = 0;
    while i < records.len()
        invariant
            i <= records@.len(),
            labels@.len() == i,
            forall|k: int| 0 <= k < i ==> is_bucket(#[trigger] records@[k].score_tenths as int),
            forall|k: int| 0 <= k < i ==> labels@[k] == (#[trigger] records@[k]).score_tenths,
        decreases records@.len() - i,
    {
        match bucket_label(records[i].score_tenths, i) {
            Ok(l) => labels.push(l),
            Err(e) => {
                proof {
                    assert(first_bad_label(records@, i as int));
                    assert forall|j: int| first_bad_label(records@, j) implies j == i by {
                        if j < i {
                            assert(is_bucket(records@[j].score_tenths as int));
                        } else if j > i {
                            assert(!is_bucket(records@[i as int].score_tenths as int));
                        }
                    }
                }
                return Err(e);
            },
        }
        i = i + 1;
    }
    proof {
        assert forall|j: int| !first_bad_label(records@, j) by {
            if 0 <= j < records@.len() {
                assert(is_bucket(records@[j].score_tenths as int));
            }
        }
    }
    Ok(labels)
}

/// A collection of tokenized records with its longest length and the
/// tokenizer's vocabulary size.
pub struct DataSet {
    pub data_points: Vec<DataPoint>,
    pub vocab_size: usize,
    pub max_seq_len: usize,
}

impl DataSet {
    /// Every record is well formed and `max_seq_len` is the longest of them.
    pub open spec fn wf(&self) -> bool {
        &&& forall|i: int| 0 <= i < self.data_points@.len() ==> (#[trigger] self.data_points@[i]).wf()
        &&& self.max_seq_len as nat == max_seq_len_of(self.data_points@)
    }

    /// A data set over the given records; its `max_seq_len` is computed here.
    pub fn from_points(data_points: Vec<DataPoint>, vocab_size: usize) -> (r: DataSet)
        requires
            forall|i: int| 0 <= i < data_points@.len() ==> (#[trigger] data_points@[i]).wf(),
        ensures
            r.wf(),
            r.data_points@ == data_points@,
            r.vocab_size == vocab_size,
    {
        let mut max_seq_len: usize = 0;
        let mut i: usize = 0;
        while i < data_points.len()
            invariant
                i <= data_points@.len(),
                max_seq_len as nat == max_seq_len_of(data_points@.subrange(0, i as int)),
            decreases data_points@.len() - i,
        {
            proof {
                let s = data_points@.subrange(0, i + 1);
                assert(s.drop_last() == data_points@.subrange(0, i as int));
                assert(s.last() == data_points@[i as int]);
            }
            let sl = data_points[i].seq_len;
            if sl > max_seq_len {
                max_seq_len = sl;
            }
            i = i + 1;
        }
        assert(data_points@.subrange(0, data_points@.len() as int) == data_points@);
        DataSet { data_points, vocab_size, max_seq_len }
    }

    /// The data set over records whose token ids are `encodings` and whose
    /// labels are `labels`, position by position.
    pub fn from_encodings(encodings: &Vec<Vec<u32>>, labels: &Vec<i32>, vocab_size: usize) -> (r:
        DataSet)
        requires
            encodings@.len() == labels@.len(),
        ensures
            r.wf(),
            r.vocab_size == vocab_size,
            r.data_points@.len() == encodings@.len(),
            forall|i: int|
                0 <= i < encodings@.len() ==> (#[trigger] r.data_points@[i]).feature@ == widened(
                    encodings@[i]@,
                ) && r.data_points@[i].label == labels@[i],
    {
        let mut points: Vec<DataPoint> = Vec::new();
        let mut i: usize = 0;
        while i < encodings.len()
            invariant
                i <= encodings@.len() == labels@.len(),
                points@.len() == i,
                forall|k: int|
                    0 <= k < i ==> (#[trigger] points@[k]).wf() && points@[k].feature@ == widened(
                        encodings@[k]@,
                    ) && points@[k].label == labels@[k],
            decreases encodings@.len() - i,
        {
            points.push(DataPoint::from_ids(&encodings[i], labels[i]));
            i = i + 1;
        }
        DataSet::from_points(points, vocab_size)
    }

    /// The token ids of one record's text, or `None` where the tokenizer
    /// rejects it.
    pub fn tokenize_text(tokenizer: &Tokenizer, anchor: &str, target: &str, context: &str) -> (r:
        Option<Vec<usize>>)
        ensures
            r matches Some(v) ==> forall|i: int| 0 <= i < v@.len() ==> v@[i] <= u32::MAX,
    {
        match encode_ids(tokenizer, format_text(anchor, target, context)) {
            Some(ids) => {
                let v = widen_ids(&ids);
                Some(v)
            },
            None => None,
        }
    }

    /// Tokenizes every record and labels it with its bucket. Fails on the
    /// first record whose score is not a bucket, before any tokenizing, and
    /// otherwise on the first record that the tokenizer rejects.
    pub fn new(records: &Vec<TextRecord>, tokenizer: &Tokenizer) -> (r: Result<DataSet, DataError>)
        ensures
            forall|i: int|
                first_bad_label(records@, i) ==> r == Err::<DataSet, DataError>(
                    DataError::LabelRange(
                        LabelRangeError { index: i as usize, value: records@[i].score_tenths },
                    ),
                ),
            all_labels_valid(records@) ==> match r {
                Ok(ds) => {
                    &&& ds.wf()
                    &&& ds.data_points@.len() == records@.len()
                    &&& forall|k: int|
                        0 <= k < records@.len() ==> (#[trigger] ds.data_points@[k]).label
                            == records@[k].score_tenths
                },
                Err(DataError::TokenizerFailure { index }) => index < records@.len(),
                Err(_) => false,
            },
    {
        let labels = match bucket_labels(records) {
            Ok(v) => v,
            Err(e) => {
                return Err(DataError::LabelRange(e));
            },
        };
        proof {
            assert forall|j: int| !first_bad_label(records@, j) by {
                if 0 <= j < records@.len() {
                    assert(is_bucket(records@[j].score_tenths as int));
                }
            }
        }
        let mut encodings: Vec<Vec<u32>> = Vec::new();
        let mut i: usize = 0;
        while i < records.len()
            invariant
                i <= records@.len(),
                encodings@.len() == i,
                labels@.len() == records@.len(),
                forall|k: int| 0 <= k < records@.len() ==> labels@[k] == (#[trigger] records@[k]).score_tenths,
                forall|j: int| !first_bad_label(records@, j),
            decreases records@.len() - i,
        {
            let text = format_text(
                records[i].anchor.as_str(),
                records[i].target.as_str(),
                records[i].context.as_str(),
            );
            match encode_ids(tokenizer, text) {
                Some(ids) => encodings.push(ids),
                None => {
                    return Err(DataError::TokenizerFailure { index: i });
                },
            }
            i = i + 1;
        }
        let vocab = vocab_size(tokenizer);
        Ok(DataSet::from_encodings(&encodings, &labels, vocab))
    }

    /// Every slice of a well-formed data set fits a batch padded to the data
    /// set's `max_seq_len`, so padding it cannot fail on a record's length.
    pub proof fn lemma_slice_fits(&self, start: int, end: int)
        requires
            self.wf(),
            0 <= start <= end <= self.data_points@.len(),
        ensures
            forall|i: int|
                0 <= i < end - start ==> fits(
                    #[trigger] self.data_points@.subrange(start, end)[i],
                    self.max_seq_len as nat,
                ),
    {
        lemma_max_seq_len_bounds(self.data_points@);
        assert forall|i: int| 0 <= i < end - start implies fits(
            #[trigger] self.data_points@.subrange(start, end)[i],
            self.max_seq_len as nat,
        ) by {
            assert(self.data_points@.subrange(start, end)[i] == self.data_points@[start + i]);
        }
    }

    /// Number of records.
    pub fn len(&self) -> (r: usize)
        ensures
            r == self.data_points@.len(),
    {
        self.data_points.len()
    }
}

} // verus!
