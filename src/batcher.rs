use vstd::prelude::*;
use crate::data::DataPoint;

verus! {

/// The id that fills a row past the end of its tokens.
pub const PAD_ID: usize = 0;

/// Token ids, padding mask, position ids and labels of a batch, every row
/// `max_seq_len` long.
pub struct PaddedBatch {
    pub token_ids: Vec<Vec<usize>>,
    pub padding_mask: Vec<Vec<bool>>,
    pub positions: Vec<Vec<usize>>,
    pub labels: Vec<i32>,
}

/// Why a batch could not be built.
#[derive(Debug, Clone, Copy, PartialEq, Eq, Structural)]
pub enum BatchError {
    /// No records were given.
    EmptyBatch,
    /// The record at `index` is longer than the target length, or its length
    /// field disagrees with its tokens.
    Shape { index: usize },
}

/// A token row followed by pad ids up to length `n`.
pub open spec fn padded_row(tokens: Seq<usize>, n: nat) -> Seq<usize> {
    tokens + Seq::new((n - tokens.len()) as nat, |j: int| PAD_ID)
}

/// A mask row of length `n`: `true` from position `len` on.
pub open spec fn mask_row(len: nat, n: nat) -> Seq<bool> {
    Seq::new(n, |j: int| j >= len)
}

/// The position ids `0..n`.
pub open spec fn position_row(n: nat) -> Seq<usize> {
    Seq::new(n, |j: int| j as usize)
}

/// A record fits a batch padded to `n` when its length field is right and
/// at most `n`.
pub open spec fn fits(p: DataPoint, n: nat) -> bool {
    p.wf() && p.seq_len <= n
}

/// Record `i` is the first that does not fit.
pub open spec fn first_misfit(points: Seq<DataPoint>, n: nat, i: int) -> bool {
    &&& 0 <= i < points.len()
    &&& !fits(points[i], n)
    &&& forall|k: int| 0 <= k < i ==> fits(#[trigger] points[k], n)
}

/// What a batch built from `points` at length `n` holds.
pub open spec fn batch_of(b: PaddedBatch, points: Seq<DataPoint>, n: nat) -> bool {
    &&& b.token_ids@.len() == points.len()
    &&& b.padding_mask@.len() == points.len()
    &&& b.positions@.len() == points.len()
    &&& b.labels@.len() == points.len()
    &&& forall|i: int|
        0 <= i < points.len() ==> {
            &&& (#[trigger] b.token_ids@[i])@ == padded_row(points[i].feature@, n)
            &&& b.padding_mask@[i]@ == mask_row(points[i].seq_len as nat, n)
            &&& b.positions@[i]@ == position_row(n)
            &&& b.labels@[i] == points[i].label
        }
}

/// One record's tokens right-padded with `PAD_ID` to `n`.
pub fn pad_row(tokens: &Vec<usize>, n: usize) -> (r: Vec<usize>)
    requires
        tokens@.len() <= n,
    ensures
        r@ == padded_row(tokens@, n as nat),
{
    let mut r: Vec<usize> = Vec::new();
    let mut i: usize = 0;
    while i < tokens.len()
        invariant
            i <= tokens@.len(),
            r@ == tokens@.subrange(0, i as int),
        decreases tokens@.len() - i,
    {
        r.push(tokens[i]);
        i = i + 1;
    }
    while i < n
        invariant
            tokens@.len() <= i <= n,
            r@ == padded_row(tokens@, i as nat),
        decreases n - i,
    {
        proof {
            assert(padded_row(tokens@, (i + 1) as nat) == padded_row(tokens@, i as nat).push(PAD_ID));
        }
        r.push(PAD_ID);
        i = i + 1;
    }
    r
}

/// A mask row of length `n` that is `true` from `len` on.
pub fn mask_for(len: usize, n: usize) -> (r: Vec<bool>)
    ensures
        r@ == mask_row(len as nat, n as nat),
{
    let mut r: Vec<bool> = Vec::new();
    let mut j: usize = 0;
    while j < n
        invariant
            j <= n,
            r@ == mask_row(len as nat, j as nat),
        decreases n - j,
    {
        proof {
            assert(mask_row(len as nat, (j + 1) as nat) == mask_row(len as nat, j as nat).push(j >= len));
        }
        r.push(j >= len);
        j = j + 1;
    }
    r
}

/// The position ids `0..n`.
pub fn positions_for(n: usize) -> (r: Vec<usize>)
    ensures
        r@ == position_row(n as nat),
{
    let mut r: Vec<usize> = Vec::new();
    let mut j: usize = 0;
    while j < n
        invariant
            j <= n,
            r@ == position_row(j as nat),
        decreases n - j,
    {
        proof {
            assert(position_row((j + 1) as nat) == position_row(j as nat).push(j));
        }
        r.push(j);
        j = j + 1;
    }
    r
}

/// Pads each record to `max_seq_len`, marks the padding, and gathers the
/// position ids and labels. Fails on an empty slice, and on the first record
/// that is longer than `max_seq_len` or whose length field is wrong.
pub fn pad_batch(points: &[DataPoint], max_seq_len: usize) -> (r: Result<PaddedBatch, BatchError>)
    ensures
        points@.len() == 0 ==> r == Err::<PaddedBatch, BatchError>(BatchError::EmptyBatch),
        points@.len() > 0 && (forall|i: int|
            0 <= i < points@.len() ==> fits(#[trigger] points@[i], max_seq_len as nat)) ==> (
        r matches Ok(b) && batch_of(b, points@, max_seq_len as nat)),
        points@.len() > 0 ==> forall|i: int|
            first_misfit(points@, max_seq_len as nat, i) ==> r == Err::<PaddedBatch, BatchError>(
                BatchError::Shape { index: i as usize },
            ),
{
    if points.len() == 0 {
        return Err(BatchError::EmptyBatch);
    }
    let mut token_ids: Vec<Vec<usize>> = Vec::new();
    let mut padding_mask: Vec<Vec<bool>> = Vec::new();
    let mut positions: Vec<Vec<usize>> = Vec::new();
    let mut labels: Vec<i32> = Vec::new();
    let mut i: usize = 0;
    while i < points.len()
        invariant
            i <= points@.len(),
            forall|k: int| 0 <= k < i ==> fits(#[trigger] points@[k], max_seq_len as nat),
            batch_of(
                PaddedBatch { token_ids, padding_mask, positions, labels },
                points@.subrange(0, i as int),
                max_seq_len as nat,
            ),
        decreases points@.len() - i,
    {
        let p = &points[i];
        if p.seq_len != p.feature.len() || p.seq_len > max_seq_len {
            proof {
                assert(first_misfit(points@, max_seq_len as nat, i as int));
                assert forall|j: int| first_misfit(points@, max_seq_len as nat, j) implies j
                    == i by {
                    if j < i {
                        assert(fits(points@[j], max_seq_len as nat));
                    } else if j > i {
                        assert(fits(points@[i as int], max_seq_len as nat));
                    }
                }
            }
            return Err(BatchError::Shape { index: i });
        }
        token_ids.push(pad_row(&p.feature, max_seq_len));
        padding_mask.push(mask_for(p.seq_len, max_seq_len));
        positions.push(positions_for(max_seq_len));
        labels.push(p.label);
        i = i + 1;
    }
    assert(points@.subrange(0, points@.len() as int) == points@);
    let b = PaddedBatch { token_ids, padding_mask, positions, labels };
    proof {
        assert forall|j: int| !first_misfit(points@, max_seq_len as nat, j) by {
            if 0 <= j < points@.len() {
                assert(fits(points@[j], max_seq_len as nat));
            }
        }
    }
    Ok(b)
}

/// A batch is fixed by its records and its length: two batches built from
/// the same records at the same length hold the same token ids, mask,
/// position ids and labels, each of `points.len()` rows of `n` columns.
pub proof fn lemma_batch_determined(b1: PaddedBatch, b2: PaddedBatch, points: Seq<DataPoint>, n: nat)
    requires
        forall|i: int| 0 <= i < points.len() ==> fits(#[trigger] points[i], n),
        batch_of(b1, points, n),
        batch_of(b2, points, n),
    ensures
        b1.token_ids@.map_values(|r: Vec<usize>| r@) == b2.token_ids@.map_values(|r: Vec<usize>| r@),
        b1.padding_mask@.map_values(|r: Vec<bool>| r@) == b2.padding_mask@.map_values(
            |r: Vec<bool>| r@,
        ),
        b1.positions@.map_values(|r: Vec<usize>| r@) == b2.positions@.map_values(|r: Vec<usize>| r@),
        b1.labels@ == b2.labels@,
        forall|i: int|
            0 <= i < points.len() ==> (#[trigger] b1.token_ids@[i])@.len() == n
                && b1.padding_mask@[i]@.len() == n && b1.positions@[i]@.len() == n,
{
    assert forall|i: int| 0 <= i < points.len() implies #[trigger] b1.padding_mask@[i]@
        == b2.padding_mask@[i]@ && b1.padding_mask@[i]@.len() == n by {
        assert(b1.token_ids@[i]@ == b2.token_ids@[i]@);
    }
    assert forall|i: int| 0 <= i < points.len() implies #[trigger] b1.positions@[i]@
        == b2.positions@[i]@ && b1.positions@[i]@.len() == n by {
        assert(b1.token_ids@[i]@ == b2.token_ids@[i]@);
    }
    assert forall|i: int| 0 <= i < points.len() implies #[trigger] b1.labels@[i] == b2.labels@[i]
        && b1.token_ids@[i]@.len() == n by {
        assert(b1.token_ids@[i]@ == b2.token_ids@[i]@);
        assert(fits(points[i], n));
    }
    assert(b1.token_ids@.map_values(|r: Vec<usize>| r@) =~= b2.token_ids@.map_values(
        |r: Vec<usize>| r@,
    ));
    assert(b1.padding_mask@.map_values(|r: Vec<bool>| r@) =~= b2.padding_mask@.map_values(
        |r: Vec<bool>| r@,
    ));
    assert(b1.positions@.map_values(|r: Vec<usize>| r@) =~= b2.positions@.map_values(
        |r: Vec<usize>| r@,
    ));
    assert(b1.labels@ =~= b2.labels@);
}

} // verus!
