use arael_sketch_backend::grouping::{drive_group, group_step, GroupAction, GroupEvent, GroupState};

use GroupAction::{BeginGroup, EndGroup, RollbackGroup, RunBatch};

#[test]
fn every_batch_succeeds_then_the_group_ends() {
    assert_eq!(
        drive_group(2, &vec![true, true]),
        vec![BeginGroup, RunBatch(0), RunBatch(1), EndGroup]
    );
}

#[test]
fn a_failed_batch_rolls_back_without_end() {
    assert_eq!(
        drive_group(3, &vec![true, false, true]),
        vec![BeginGroup, RunBatch(0), RunBatch(1), RollbackGroup { failed: 1 }]
    );
}

#[test]
fn no_batches_begin_and_end_the_group() {
    assert_eq!(drive_group(0, &vec![false]), vec![BeginGroup, EndGroup]);
}

#[test]
fn outcomes_still_missing_leave_the_next_batch_running() {
    assert_eq!(drive_group(3, &vec![true]), vec![BeginGroup, RunBatch(0), RunBatch(1)]);
}

#[test]
fn steps_ignore_events_that_do_not_apply() {
    let (s, acts) = group_step(GroupState::Ended, 2, GroupEvent::BatchOk);
    assert_eq!((s, acts), (GroupState::Ended, vec![]));
    let (s, acts) = group_step(GroupState::Open { next: 1 }, 2, GroupEvent::BatchOk);
    assert_eq!((s, acts), (GroupState::Ended, vec![EndGroup]));
    let (s, acts) = group_step(GroupState::Open { next: 0 }, 2, GroupEvent::BatchFailed);
    assert_eq!((s, acts), (GroupState::RolledBack, vec![RollbackGroup { failed: 0 }]));
}
