use vstd::prelude::*;

verus! {

/// How many of the first `predictions.len()` predictions equal their target.
pub open spec fn correct_count(predictions: Seq<i64>, targets: Seq<i64>) -> nat
    decreases predictions.len(),
{
    if predictions.len() == 0 {
        0
    } else {
        let k = (predictions.len() - 1) as int;
        correct_count(predictions.drop_last(), targets) + if predictions[k] == targets[k] {
            1nat
        } else {
            0nat
        }
    }
}

/// The number of positions where the predicted class equals the target class.
pub fn count_correct(predictions: &Vec<i64>, targets: &Vec<i64>) -> (r: usize)
    requires
        predictions@.len() == targets@.len(),
    ensures
        r == correct_count(predictions@, targets@),
{
    let mut r: usize = 0;
    let mut i: usize = 0;
    while i < predictions.len()
        invariant
            i <= predictions@.len() == targets@.len(),
            r == correct_count(predictions@.subrange(0, i as int), targets@),
            r <= i,
        decreases predictions@.len() - i,
    {
        proof {
            assert(predictions@.subrange(0, i + 1).drop_last() == predictions@.subrange(0, i as int));
        }
        if predictions[i] == targets[i] {
            r = r + 1;
        }
        i = i + 1;
    }
    assert(predictions@.subrange(0, predictions@.len() as int) == predictions@);
    r
}

/// When every prediction equals its target, all of them are counted correct;
/// when none does, none is.
pub proof fn lemma_count_extremes(predictions: Seq<i64>, targets: Seq<i64>)
    requires
        predictions.len() == targets.len(),
    ensures
        (forall|i: int| 0 <= i < predictions.len() ==> predictions[i] == targets[i])
            ==> correct_count(predictions, targets) == predictions.len(),
        (forall|i: int| 0 <= i < predictions.len() ==> predictions[i] != targets[i])
            ==> correct_count(predictions, targets) == 0,
    decreases predictions.len(),
{
    if predictions.len() > 0 {
        let p = predictions.drop_last();
        let t = targets.drop_last();
        lemma_count_extremes(p, t);
        lemma_count_ignores_tail(p, targets);
    }
}

/// The count over a prefix reads only the matching prefix of the targets.
proof fn lemma_count_ignores_tail(predictions: Seq<i64>, targets: Seq<i64>)
    requires
        predictions.len() < targets.len(),
    ensures
        correct_count(predictions, targets) == correct_count(predictions, targets.drop_last()),
    decreases predictions.len(),
{
    if predictions.len() > 0 {
        lemma_count_ignores_tail(predictions.drop_last(), targets);
    }
}

} // verus!
