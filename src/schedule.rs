use vstd::prelude::*;

verus! {

/// The next unit of work of a training run: one training batch, one
/// validation batch, or nothing more.
#[derive(Debug, Clone, Copy, PartialEq, Eq, Structural)]
pub enum Stage {
    Train { epoch: usize, batch: usize },
    Validate { epoch: usize, batch: usize },
    Done,
}

/// Drives a run of `epochs` epochs, each training on `train_batches`
/// batches and then validating on `valid_batches` batches.
pub struct Orchestrator {
    pub epochs: usize,
    pub train_batches: usize,
    pub valid_batches: usize,
    pub stage: Stage,
}

/// The first stage of epoch `e`, skipping a phase that has no batches.
pub open spec fn entry(epochs: nat, train_batches: nat, valid_batches: nat, e: nat) -> Stage {
    if e >= epochs {
        Stage::Done
    } else if train_batches > 0 {
        Stage::Train { epoch: e as usize, batch: 0 }
    } else if valid_batches > 0 {
        Stage::Validate { epoch: e as usize, batch: 0 }
    } else {
        Stage::Done
    }
}

/// The stage that follows `s`.
pub open spec fn successor(epochs: nat, train_batches: nat, valid_batches: nat, s: Stage) -> Stage {
    match s {
        Stage::Train { epoch, batch } => if batch + 1 < train_batches {
            Stage::Train { epoch, batch: (batch + 1) as usize }
        } else if valid_batches > 0 {
            Stage::Validate { epoch, batch: 0 }
        } else {
            entry(epochs, train_batches, valid_batches, (epoch + 1) as nat)
        },
        Stage::Validate { epoch, batch } => if batch + 1 < valid_batches {
            Stage::Validate { epoch, batch: (batch + 1) as usize }
        } else {
            entry(epochs, train_batches, valid_batches, (epoch + 1) as nat)
        },
        Stage::Done => Stage::Done,
    }
}

/// The stages of one epoch: every training batch, then every validation batch.
pub open spec fn epoch_stages(e: nat, train_batches: nat, valid_batches: nat) -> Seq<Stage> {
    Seq::new(train_batches, |b: int| Stage::Train { epoch: e as usize, batch: b as usize }) + Seq::new(
        valid_batches,
        |b: int| Stage::Validate { epoch: e as usize, batch: b as usize },
    )
}

/// The stages of epochs `e` up to `epochs`, in order.
pub open spec fn run_stages(epochs: nat, train_batches: nat, valid_batches: nat, e: nat) -> Seq<
    Stage,
>
    decreases epochs - e,
{
    if e >= epochs {
        Seq::empty()
    } else {
        epoch_stages(e, train_batches, valid_batches) + run_stages(
            epochs,
            train_batches,
            valid_batches,
            e + 1,
        )
    }
}

/// The `k` stages met from `s` on.
pub open spec fn walk(epochs: nat, train_batches: nat, valid_batches: nat, s: Stage, k: nat) -> Seq<
    Stage,
>
    decreases k,
{
    if k == 0 {
        Seq::empty()
    } else {
        seq![s] + walk(
            epochs,
            train_batches,
            valid_batches,
            successor(epochs, train_batches, valid_batches, s),
            (k - 1) as nat,
        )
    }
}

/// The stage reached from `s` after `k` steps.
pub open spec fn after(epochs: nat, train_batches: nat, valid_batches: nat, s: Stage, k: nat) -> Stage
    decreases k,
{
    if k == 0 {
        s
    } else {
        after(
            epochs,
            train_batches,
            valid_batches,
            successor(epochs, train_batches, valid_batches, s),
            (k - 1) as nat,
        )
    }
}

proof fn lemma_walk_split(epochs: nat, t: nat, v: nat, s: Stage, k1: nat, k2: nat)
    ensures
        walk(epochs, t, v, s, k1 + k2) == walk(epochs, t, v, s, k1) + walk(
            epochs,
            t,
            v,
            after(epochs, t, v, s, k1),
            k2,
        ),
        after(epochs, t, v, s, k1 + k2) == after(epochs, t, v, after(epochs, t, v, s, k1), k2),
    decreases k1,
{
    if k1 == 0 {
        assert(walk(epochs, t, v, s, 0) + walk(epochs, t, v, s, k2) =~= walk(epochs, t, v, s, k2));
    } else {
        let s1 = successor(epochs, t, v, s);
        lemma_walk_split(epochs, t, v, s1, (k1 - 1) as nat, k2);
        assert((k1 + k2 - 1) as nat == (k1 - 1) as nat + k2);
        assert(seq![s] + (walk(epochs, t, v, s1, (k1 - 1) as nat) + walk(
            epochs,
            t,
            v,
            after(epochs, t, v, s1, (k1 - 1) as nat),
            k2,
        )) =~= (seq![s] + walk(epochs, t, v, s1, (k1 - 1) as nat)) + walk(
            epochs,
            t,
            v,
            after(epochs, t, v, s1, (k1 - 1) as nat),
            k2,
        ));
    }
}

/// From training batch `b` of epoch `e`, the rest of that epoch's training.
proof fn lemma_walk_train(epochs: nat, t: nat, v: nat, e: nat, b: nat)
    requires
        e < epochs <= usize::MAX,
        b < t <= usize::MAX,
    ensures
        walk(epochs, t, v, Stage::Train { epoch: e as usize, batch: b as usize }, (t - b) as nat)
            =~= Seq::new((t - b) as nat, |i: int| Stage::Train { epoch: e as usize, batch: (b + i) as usize }),
        after(epochs, t, v, Stage::Train { epoch: e as usize, batch: b as usize }, (t - b) as nat)
            == (if v > 0 {
            Stage::Validate { epoch: e as usize, batch: 0 }
        } else {
            entry(epochs, t, v, e + 1)
        }),
    decreases t - b,
{
    let s = Stage::Train { epoch: e as usize, batch: b as usize };
    let k = (t - b) as nat;
    if b + 1 < t {
        lemma_walk_train(epochs, t, v, e, b + 1);
        assert(successor(epochs, t, v, s) == Stage::Train { epoch: e as usize, batch: (b + 1) as usize });
    } else {
        assert(k == 1);
        assert(walk(epochs, t, v, successor(epochs, t, v, s), 0) == Seq::<Stage>::empty());
        assert(after(epochs, t, v, s, 1) == after(epochs, t, v, successor(epochs, t, v, s), 0));
        assert((e as usize + 1) as nat == e + 1);
    }
}

/// From validation batch `b` of epoch `e`, the rest of that epoch.
proof fn lemma_walk_validate(epochs: nat, t: nat, v: nat, e: nat, b: nat)
    requires
        e < epochs <= usize::MAX,
        b < v <= usize::MAX,
    ensures
        walk(epochs, t, v, Stage::Validate { epoch: e as usize, batch: b as usize }, (v - b) as nat)
            =~= Seq::new((v - b) as nat, |i: int| Stage::Validate { epoch: e as usize, batch: (b + i) as usize }),
        after(epochs, t, v, Stage::Validate { epoch: e as usize, batch: b as usize }, (v - b) as nat)
            == entry(epochs, t, v, e + 1),
    decreases v - b,
{
    let s = Stage::Validate { epoch: e as usize, batch: b as usize };
    if b + 1 < v {
        lemma_walk_validate(epochs, t, v, e, b + 1);
        assert(successor(epochs, t, v, s) == Stage::Validate { epoch: e as usize, batch: (b + 1) as usize });
    } else {
        assert(walk(epochs, t, v, successor(epochs, t, v, s), 0) == Seq::<Stage>::empty());
        assert(after(epochs, t, v, s, 1) == after(epochs, t, v, successor(epochs, t, v, s), 0));
        assert((e as usize + 1) as nat == e + 1);
    }
}

/// From the first stage of epoch `e`, a run meets the stages of epochs `e`
/// onward in order and then stays done.
proof fn lemma_walk_epochs(epochs: nat, t: nat, v: nat, e: nat)
    requires
        epochs <= usize::MAX,
        t <= usize::MAX,
        v <= usize::MAX,
    ensures
        walk(epochs, t, v, entry(epochs, t, v, e), run_stages(epochs, t, v, e).len())
            == run_stages(epochs, t, v, e),
        after(epochs, t, v, entry(epochs, t, v, e), run_stages(epochs, t, v, e).len()) == Stage::Done,
    decreases epochs - e,
{
    let rest = run_stages(epochs, t, v, e);
    if e >= epochs {
        assert(walk(epochs, t, v, Stage::Done, 0) =~= rest);
    } else {
        lemma_walk_epochs(epochs, t, v, e + 1);
        let next = run_stages(epochs, t, v, e + 1);
        let start = entry(epochs, t, v, e);
        if t > 0 {
            lemma_walk_train(epochs, t, v, e, 0);
            lemma_walk_split(epochs, t, v, start, t, v + next.len());
            let mid = after(epochs, t, v, start, t);
            if v > 0 {
                lemma_walk_validate(epochs, t, v, e, 0);
                lemma_walk_split(epochs, t, v, mid, v, next.len());
            } else {
                assert(walk(epochs, t, v, mid, 0) == Seq::<Stage>::empty());
            }
        } else if v > 0 {
            lemma_walk_validate(epochs, t, v, e, 0);
            lemma_walk_split(epochs, t, v, start, v, next.len());
        } else {
            lemma_no_work(epochs, t, v, e);
            assert(walk(epochs, t, v, Stage::Done, 0) =~= rest);
        }
        assert(walk(epochs, t, v, start, rest.len()) =~= rest);
    }
}

/// Without batches, a run has no stages.
proof fn lemma_no_work(epochs: nat, t: nat, v: nat, e: nat)
    requires
        t == 0,
        v == 0,
    ensures
        run_stages(epochs, t, v, e).len() == 0,
    decreases epochs - e,
{
    if e < epochs {
        lemma_no_work(epochs, t, v, e + 1);
    }
}

/// A new run, advanced step by step, trains on every batch and then
/// validates on every batch of each epoch in turn, from the first epoch to
/// the last, and is then done.
pub proof fn lemma_run_visits_every_batch(epochs: usize, train_batches: usize, valid_batches: usize)
    ensures
        walk(
            epochs as nat,
            train_batches as nat,
            valid_batches as nat,
            entry(epochs as nat, train_batches as nat, valid_batches as nat, 0),
            run_stages(epochs as nat, train_batches as nat, valid_batches as nat, 0).len(),
        ) == run_stages(epochs as nat, train_batches as nat, valid_batches as nat, 0),
        after(
            epochs as nat,
            train_batches as nat,
            valid_batches as nat,
            entry(epochs as nat, train_batches as nat, valid_batches as nat, 0),
            run_stages(epochs as nat, train_batches as nat, valid_batches as nat, 0).len(),
        ) == Stage::Done,
{
    lemma_walk_epochs(epochs as nat, train_batches as nat, valid_batches as nat, 0);
}

impl Orchestrator {
    /// The stage names a batch that exists in an epoch that is run.
    pub open spec fn wf(&self) -> bool {
        match self.stage {
            Stage::Train { epoch, batch } => epoch < self.epochs && batch < self.train_batches,
            Stage::Validate { epoch, batch } => epoch < self.epochs && batch < self.valid_batches,
            Stage::Done => true,
        }
    }

    fn entry_of(epochs: usize, train_batches: usize, valid_batches: usize, e: usize) -> (r: Stage)
        ensures
            r == entry(epochs as nat, train_batches as nat, valid_batches as nat, e as nat),
    {
        if e >= epochs {
            Stage::Done
        } else if train_batches > 0 {
            Stage::Train { epoch: e, batch: 0 }
        } else if valid_batches > 0 {
            Stage::Validate { epoch: e, batch: 0 }
        } else {
            Stage::Done
        }
    }

    /// A run at the first stage of its first epoch.
    pub fn new(epochs: usize, train_batches: usize, valid_batches: usize) -> (r: Orchestrator)
        ensures
            r.wf(),
            r.epochs == epochs,
            r.train_batches == train_batches,
            r.valid_batches == valid_batches,
            r.stage == entry(epochs as nat, train_batches as nat, valid_batches as nat, 0),
    {
        let stage = Self::entry_of(epochs, train_batches, valid_batches, 0);
        Orchestrator { epochs, train_batches, valid_batches, stage }
    }

    /// Returns the work to do now and moves to the stage after it. Called
    /// once the previous unit of work has completed.
    pub fn advance(&mut self) -> (r: Stage)
        requires
            old(self).wf(),
        ensures
            final(self).wf(),
            r == old(self).stage,
            final(self).epochs == old(self).epochs,
            final(self).train_batches == old(self).train_batches,
            final(self).valid_batches == old(self).valid_batches,
            final(self).stage == successor(
                old(self).epochs as nat,
                old(self).train_batches as nat,
                old(self).valid_batches as nat,
                old(self).stage,
            ),
    {
        let r = self.stage;
        let next = match self.stage {
            Stage::Train { epoch, batch } => {
                if batch + 1 < self.train_batches {
                    Stage::Train { epoch, batch: batch + 1 }
                } else if self.valid_batches > 0 {
                    Stage::Validate { epoch, batch: 0 }
                } else {
                    Self::entry_of(self.epochs, self.train_batches, self.valid_batches, epoch + 1)
                }
            },
            Stage::Validate { epoch, batch } => {
                if batch + 1 < self.valid_batches {
                    Stage::Validate { epoch, batch: batch + 1 }
                } else {
                    Self::entry_of(self.epochs, self.train_batches, self.valid_batches, epoch + 1)
                }
            },
            Stage::Done => Stage::Done,
        };
        self.stage = next;
        r
    }

    /// Whether the run has no work left.
    pub fn is_done(&self) -> (r: bool)
        ensures
            r == (self.stage == Stage::Done),
    {
        match self.stage {
            Stage::Done => true,
            _ => false,
        }
    }
}

} // verus!
