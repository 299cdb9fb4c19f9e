use vstd::prelude::*;

verus! {

/// Number of classes that the classifier head predicts.
pub const NUM_CLASSES: usize = 5;

/// A label is a similarity score scaled by ten and truncated; only these
/// five values are buckets.
pub open spec fn is_bucket(v: int) -> bool {
    v == 0 || v == 2 || v == 5 || v == 7 || v == 10
}

/// Position of a bucket in the ordered list of buckets, the class id that
/// the loss is computed against.
pub open spec fn class_index_of(v: int) -> int
    recommends
        is_bucket(v),
{
    if v == 0 {
        0
    } else if v == 2 {
        1
    } else if v == 5 {
        2
    } else if v == 7 {
        3
    } else {
        4
    }
}

/// Human-readable name of each bucket.
pub open spec fn class_name_of(v: int) -> Seq<char>
    recommends
        is_bucket(v),
{
    if v == 0 {
        "Unrelated"@
    } else if v == 2 {
        "Somewhat Related"@
    } else if v == 5 {
        "Different Meaning Synonym"@
    } else if v == 7 {
        "Close Synonym"@
    } else {
        "Very Close Match"@
    }
}

/// A label that is not a bucket, with where it came from.
#[derive(Debug, Clone, Copy, PartialEq, Eq, Structural)]
pub struct LabelRangeError {
    pub index: usize,
    pub value: i32,
}

/// Checks that a scaled score is one of the buckets, and returns it as the label.
pub fn bucket_label(score_tenths: i32, index: usize) -> (r: Result<i32, LabelRangeError>)
    ensures
        is_bucket(score_tenths as int) ==> r == Ok::<i32, LabelRangeError>(score_tenths),
        !is_bucket(score_tenths as int) ==> r == Err::<i32, LabelRangeError>(
            LabelRangeError { index, value: score_tenths },
        ),
{
    if score_tenths == 0 || score_tenths == 2 || score_tenths == 5 || score_tenths == 7
        || score_tenths == 10 {
        Ok(score_tenths)
    } else {
        Err(LabelRangeError { index, value: score_tenths })
    }
}

/// The class id of a label, in `0..NUM_CLASSES`, or `None` for a label that
/// is not a bucket.
pub fn class_index(label: i32) -> (r: Option<usize>)
    ensures
        is_bucket(label as int) ==> r == Some(class_index_of(label as int) as usize),
        !is_bucket(label as int) ==> r is None,
        r matches Some(c) ==> c < NUM_CLASSES,
{
    if label == 0 {
        Some(0)
    } else if label == 2 {
        Some(1)
    } else if label == 5 {
        Some(2)
    } else if label == 7 {
        Some(3)
    } else if label == 10 {
        Some(4)
    } else {
        None
    }
}

/// Label `i` is the first that is not a bucket.
pub open spec fn first_non_bucket(labels: Seq<i32>, i: int) -> bool {
    &&& 0 <= i < labels.len()
    &&& !is_bucket(labels[i] as int)
    &&& forall|k: int| 0 <= k < i ==> is_bucket(#[trigger] labels[k] as int)
}

/// The class ids of a batch's labels, for the loss; fails on the first label
/// that is not a bucket.
pub fn class_ids(labels: &Vec<i32>) -> (r: Result<Vec<usize>, LabelRangeError>)
    ensures
        (forall|k: int| 0 <= k < labels@.len() ==> is_bucket(#[trigger] labels@[k] as int)) ==> (
        r matches Ok(v) && v@.len() == labels@.len() && forall|k: int|
            0 <= k < labels@.len() ==> v@[k] == class_index_of(#[trigger] labels@[k] as int)),
        forall|i: int|
            first_non_bucket(labels@, i) ==> r == Err::<Vec<usize>, LabelRangeError>(
                LabelRangeError { index: i as usize, value: labels@[i] },
            ),
{
    let mut ids: Vec<usize> = Vec::new();
    let mut i: usize = 0;
    while i < labels.len()
        invariant
            i <= labels@.len(),
            ids@.len() == i,
            forall|k: int| 0 <= k < i ==> is_bucket(#[trigger] labels@[k] as int),
            forall|k: int| 0 <= k < i ==> ids@[k] == class_index_of(#[trigger] labels@[k] as int),
        decreases labels@.len() - i,
    {
        match class_index(labels[i]) {
            Some(c) => ids.push(c),
            None => {
                proof {
                    assert(first_non_bucket(labels@, i as int));
                    assert forall|j: int| first_non_bucket(labels@, j) implies j == i by {
                        if j < i {
                            assert(is_bucket(labels@[j] as int));
                        } else if j > i {
                            assert(!is_bucket(labels@[i as int] as int));
                        }
                    }
                }
                return Err(LabelRangeError { index: i, value: labels[i] });
            },
        }
        i = i + 1;
    }
    proof {
        assert forall|j: int| !first_non_bucket(labels@, j) by {
            if 0 <= j < labels@.len() {
                assert(is_bucket(labels@[j] as int));
            }
        }
    }
    Ok(ids)
}

/// The name of a label.
pub fn class_name(label: i32) -> (r: String)
    requires
        is_bucket(label as int),
    ensures
        r@ == class_name_of(label as int),
{
    if label == 0 {
        String::from_str("Unrelated")
    } else if label == 2 {
        String::from_str("Somewhat Related")
    } else if label == 5 {
        String::from_str("Different Meaning Synonym")
    } else if label == 7 {
        String::from_str("Close Synonym")
    } else {
        String::from_str("Very Close Match")
    }
}

/// Every bucket has its own class id, and the ids are exactly `0..NUM_CLASSES`.
pub proof fn lemma_class_index_bijective(a: int, b: int)
    requires
        is_bucket(a),
        is_bucket(b),
    ensures
        0 <= class_index_of(a) < NUM_CLASSES,
        class_index_of(a) == class_index_of(b) ==> a == b,
        a < b ==> class_index_of(a) < class_index_of(b),
{
}

} // verus!
