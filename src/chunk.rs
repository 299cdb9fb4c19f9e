use vstd::prelude::*;
use vstd::arithmetic::div_mod::lemma_fundamental_div_mod_converse;

verus! {

/// The smaller of two integers.
pub open spec fn lesser(a: int, b: int) -> int {
    if a < b {
        a
    } else {
        b
    }
}

/// `bounds` cuts `0..len` into contiguous pieces of `batch_size`, in order;
/// only the last may be shorter.
pub open spec fn is_chunking(bounds: Seq<(usize, usize)>, len: nat, batch_size: nat) -> bool {
    &&& len == 0 ==> bounds.len() == 0
    &&& len > 0 ==> bounds.len() * batch_size >= len && (bounds.len() - 1) * batch_size < len
    &&& forall|k: int|
        0 <= k < bounds.len() ==> (#[trigger] bounds[k]).0 == k * batch_size && bounds[k].1
            == lesser((k + 1) * batch_size, len as int)
}

/// The pieces of `s` that `bounds` select, joined in order.
pub open spec fn gather<A>(s: Seq<A>, bounds: Seq<(usize, usize)>) -> Seq<A>
    decreases bounds.len(),
{
    if bounds.len() == 0 {
        Seq::empty()
    } else {
        gather(s, bounds.drop_last()) + s.subrange(bounds.last().0 as int, bounds.last().1 as int)
    }
}

/// The start and end of each batch over `len` records, `batch_size` at a time.
pub fn chunk_bounds(len: usize, batch_size: usize) -> (r: Vec<(usize, usize)>)
    requires
        batch_size > 0,
    ensures
        is_chunking(r@, len as nat, batch_size as nat),
{
    let mut r: Vec<(usize, usize)> = Vec::new();
    let mut start: usize = 0;
    assert(r@.len() * batch_size == 0) by (nonlinear_arith)
        requires
            r@.len() == 0,
    ;
    while start < len
        invariant
            batch_size > 0,
            start == lesser(r@.len() * batch_size, len as int),
            r@.len() > 0 ==> (r@.len() - 1) * batch_size < len,
            r@.len() * batch_size < len ==> start == r@.len() * batch_size,
            forall|k: int|
                0 <= k < r@.len() ==> (#[trigger] r@[k]).0 == k * batch_size && r@[k].1 == lesser(
                    (k + 1) * batch_size,
                    len as int,
                ),
        decreases len - start,
    {
        let ghost k = r@.len() as int;
        assert(start == k * batch_size);
        assert((k + 1) * batch_size == k * batch_size + batch_size) by (nonlinear_arith);
        let end: usize = if len - start > batch_size {
            start + batch_size
        } else {
            len
        };
        r.push((start, end));
        start = end;
    }
    proof {
        if len == 0 {
            assert(r@.len() == 0) by {
                if r@.len() > 0 {
                    assert((r@.len() - 1) * batch_size >= 0) by (nonlinear_arith)
                        requires
                            r@.len() >= 1,
                            batch_size > 0,
                    ;
                }
            }
        }
    }
    r
}

/// Every batch is a non-empty range of the records.
pub proof fn lemma_chunks_nonempty(bounds: Seq<(usize, usize)>, len: nat, batch_size: nat)
    requires
        batch_size > 0,
        is_chunking(bounds, len, batch_size),
    ensures
        forall|k: int| 0 <= k < bounds.len() ==> (#[trigger] bounds[k]).0 < bounds[k].1 <= len,
{
    let n = bounds.len();
    assert forall|k: int| 0 <= k < bounds.len() implies (#[trigger] bounds[k]).0 < bounds[k].1 <= len by {
        assert(k * batch_size <= (n - 1) * batch_size) by (nonlinear_arith)
            requires
                k <= n - 1,
                batch_size > 0,
        ;
        assert((k + 1) * batch_size == k * batch_size + batch_size) by (nonlinear_arith);
    }
}

/// Joining the batches in order gives back every record, in the original
/// order; the last batch holds `len % batch_size` records when that is not
/// zero, and `batch_size` otherwise.
pub proof fn lemma_chunks_reassemble<A>(s: Seq<A>, bounds: Seq<(usize, usize)>, batch_size: nat)
    requires
        batch_size > 0,
        is_chunking(bounds, s.len(), batch_size),
    ensures
        gather(s, bounds) == s,
        bounds.len() > 0 ==> bounds.last().1 - bounds.last().0 == (if s.len() % batch_size != 0 {
            (s.len() % batch_size) as int
        } else {
            batch_size as int
        }),
{
    let n = bounds.len();
    if n > 0 {
        lemma_gather_prefix(s, bounds, batch_size, n);
        assert(bounds.subrange(0, n as int) == bounds);
        let q = n - 1;
        let last = bounds[q as int];
        assert(last.0 == q * batch_size);
        assert(n * batch_size == q * batch_size + batch_size) by (nonlinear_arith)
            requires
                q == n - 1,
        ;
        assert(last.1 == s.len());
        assert(s.subrange(0, s.len() as int) == s);
        let rem = s.len() - q * batch_size;
        if rem < batch_size {
            lemma_fundamental_div_mod_converse(s.len() as int, batch_size as int, q, rem);
        } else {
            lemma_fundamental_div_mod_converse(s.len() as int, batch_size as int, n as int, 0);
        }
    }
}

/// The first `m` batches joined are the records up to the end of batch `m - 1`.
proof fn lemma_gather_prefix<A>(s: Seq<A>, bounds: Seq<(usize, usize)>, batch_size: nat, m: nat)
    requires
        batch_size > 0,
        is_chunking(bounds, s.len(), batch_size),
        0 < m <= bounds.len(),
    ensures
        gather(s, bounds.subrange(0, m as int)) == s.subrange(0, bounds[m - 1].1 as int),
    decreases m,
{
    let n = bounds.len();
    let pre = bounds.subrange(0, m as int);
    assert(pre.drop_last() == bounds.subrange(0, m - 1));
    assert(pre.last() == bounds[m - 1]);
    let k = m - 1;
    assert(k * batch_size <= (n - 1) * batch_size) by (nonlinear_arith)
        requires
            k <= n - 1,
            batch_size > 0,
    ;
    assert(bounds[k].0 == k * batch_size);
    if m == 1 {
        assert(bounds[0].0 == 0 * batch_size);
        assert(0 * batch_size == 0) by (nonlinear_arith);
        assert(bounds[0].1 <= s.len());
        assert(gather(s, pre.drop_last()) == Seq::<A>::empty());
        assert(s.subrange(0, bounds[0].1 as int) =~= Seq::<A>::empty() + s.subrange(0, bounds[0].1 as int));
    } else {
        lemma_gather_prefix(s, bounds, batch_size, (m - 1) as nat);
        assert(k * batch_size == (k - 1 + 1) * batch_size);
        assert((k - 1 + 1) * batch_size == (k - 1) * batch_size + batch_size) by (nonlinear_arith);
        assert(bounds[k - 1].1 == k * batch_size);
        assert(bounds[k].1 <= s.len());
        assert(k * batch_size <= (k + 1) * batch_size) by (nonlinear_arith)
            requires
                batch_size > 0,
        ;
        assert(bounds[k].0 <= bounds[k].1);
        assert(s.subrange(0, bounds[k].1 as int) =~= s.subrange(0, bounds[k - 1].1 as int) + s.subrange(
            bounds[k].0 as int,
            bounds[k].1 as int,
        ));
    }
}

} // verus!
