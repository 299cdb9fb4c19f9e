use patent_similarity::schedule::{Orchestrator, Stage};

fn run(epochs: usize, train: usize, valid: usize) -> Vec<Stage> {
    let mut o = Orchestrator::new(epochs, train, valid);
    let mut out = Vec::new();
    while !o.is_done() {
        out.push(o.advance());
    }
    out
}

#[test]
fn epochs_train_then_validate() {
    assert_eq!(
        run(2, 2, 1),
        vec![
            Stage::Train { epoch: 0, batch: 0 },
            Stage::Train { epoch: 0, batch: 1 },
            Stage::Validate { epoch: 0, batch: 0 },
            Stage::Train { epoch: 1, batch: 0 },
            Stage::Train { epoch: 1, batch: 1 },
            Stage::Validate { epoch: 1, batch: 0 },
        ]
    );
}

#[test]
fn run_without_validation() {
    assert_eq!(
        run(1, 3, 0),
        vec![
            Stage::Train { epoch: 0, batch: 0 },
            Stage::Train { epoch: 0, batch: 1 },
            Stage::Train { epoch: 0, batch: 2 },
        ]
    );
}

#[test]
fn empty_run_is_done_at_once() {
    assert!(run(0, 4, 4).is_empty());
    assert!(run(3, 0, 0).is_empty());
}

#[test]
fn done_stays_done() {
    let mut o = Orchestrator::new(1, 1, 0);
    assert_eq!(o.advance(), Stage::Train { epoch: 0, batch: 0 });
    assert_eq!(o.advance(), Stage::Done);
    assert_eq!(o.advance(), Stage::Done);
}
