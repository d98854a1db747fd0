//! How a composite operation (mirror, pattern, offset, a fillet corner)
//! runs its batches of actions as one undo group: the group is begun
//! first; each batch runs only after the one before it succeeded; when
//! every batch succeeded the group is ended, and when one fails the group
//! is rolled back at once, so that an operation that failed half-way
//! leaves nothing behind.
//!
//! The runner performs each action and reports the outcome of each batch;
//! `group_step` decides what comes next.

use vstd::prelude::*;

verus! {

/// Where a grouped operation stands.
#[derive(Clone, Copy, PartialEq, Eq, Structural, Debug)]
pub enum GroupState {
    /// Nothing has run yet.
    Ready,
    /// The group is open and batch `next` is running.
    Open { next: usize },
    /// Every batch succeeded and the group was ended.
    Ended,
    /// A batch failed and the group was rolled back.
    RolledBack,
}

/// What the runner reports.
#[derive(Clone, Copy, PartialEq, Eq, Structural, Debug)]
pub enum GroupEvent {
    /// The operation starts.
    Start,
    /// The running batch succeeded.
    BatchOk,
    /// The running batch failed.
    BatchFailed,
}

/// What the runner is to do next.
#[derive(Clone, Copy, PartialEq, Eq, Structural, Debug)]
pub enum GroupAction {
    BeginGroup,
    /// Run batch `i` (0-based).
    RunBatch(usize),
    EndGroup,
    /// Undo and forget everything run since the group began; the
    /// operation fails with batch `failed`'s error.
    RollbackGroup { failed: usize },
}

/// Whether a state is one the steps can reach for `batches` batches.
pub open spec fn state_ok(state: GroupState, batches: nat) -> bool {
    state matches GroupState::Open { next } ==> next < batches
}

/// One step: the state after an event, and the actions to perform, in
/// order. An event that does not apply in a state changes nothing.
pub open spec fn step_spec(state: GroupState, batches: nat, event: GroupEvent) -> (GroupState, Seq<GroupAction>) {
    match (state, event) {
        (GroupState::Ready, GroupEvent::Start) => if batches == 0 {
            (GroupState::Ended, seq![GroupAction::BeginGroup, GroupAction::EndGroup])
        } else {
            (GroupState::Open { next: 0 }, seq![GroupAction::BeginGroup, GroupAction::RunBatch(0)])
        },
        (GroupState::Open { next }, GroupEvent::BatchOk) => if next + 1 >= batches {
            (GroupState::Ended, seq![GroupAction::EndGroup])
        } else {
            (
                GroupState::Open { next: (next + 1) as usize },
                seq![GroupAction::RunBatch((next + 1) as usize)],
            )
        },
        (GroupState::Open { next }, GroupEvent::BatchFailed) => (
            GroupState::RolledBack,
            seq![GroupAction::RollbackGroup { failed: next }],
        ),
        _ => (state, seq![]),
    }
}

/// Decide the next step of a grouped operation of `batches` batches (see
/// [`step_spec`]).
pub fn group_step(state: GroupState, batches: usize, event: GroupEvent) -> (r: (GroupState, Vec<GroupAction>))
    requires
        state_ok(state, batches as nat),
    ensures
        (r.0, r.1@) == step_spec(state, batches as nat, event),
        state_ok(r.0, batches as nat),
{
    let mut acts: Vec<GroupAction> = Vec::new();
    let next_state = match (state, event) {
        (GroupState::Ready, GroupEvent::Start) => {
            acts.push(GroupAction::BeginGroup);
            if batches == 0 {
                acts.push(GroupAction::EndGroup);
                GroupState::Ended
            } else {
                acts.push(GroupAction::RunBatch(0));
                GroupState::Open { next: 0 }
            }
        },
        (GroupState::Open { next }, GroupEvent::BatchOk) => {
            if next + 1 >= batches {
                acts.push(GroupAction::EndGroup);
                GroupState::Ended
            } else {
                acts.push(GroupAction::RunBatch(next + 1));
                GroupState::Open { next: next + 1 }
            }
        },
        (GroupState::Open { next }, GroupEvent::BatchFailed) => {
            acts.push(GroupAction::RollbackGroup { failed: next });
            GroupState::RolledBack
        },
        _ => state,
    };
    assert(acts@ =~= step_spec(state, batches as nat, event).1);
    (next_state, acts)
}

/// The first batch reported failed among the first `batches` outcomes.
pub open spec fn first_failure(outcomes: Seq<bool>, batches: nat) -> Option<nat>
    decreases outcomes.len(),
{
    if outcomes.len() == 0 {
        None
    } else {
        let n = (outcomes.len() - 1) as nat;
        let prev = first_failure(outcomes.drop_last(), batches);
        if prev is Some {
            prev
        } else if n < batches && !outcomes.last() {
            Some(n)
        } else {
            None
        }
    }
}

/// `RunBatch(0)` to `RunBatch(k - 1)`.
pub open spec fn runs(k: nat) -> Seq<GroupAction> {
    Seq::new(k, |j: int| GroupAction::RunBatch(j as usize))
}

/// Every action a grouped operation of `batches` batches performs when
/// its batches report `outcomes` in turn (`true`: it succeeded): the group
/// begun; the batches in order up to the first failure; then the group
/// rolled back right after that failure, or ended once every batch
/// succeeded, and nothing after that. While outcomes are still missing,
/// the next batch is the last action.
pub open spec fn group_trace(batches: nat, outcomes: Seq<bool>) -> Seq<GroupAction> {
    if batches == 0 {
        seq![GroupAction::BeginGroup, GroupAction::EndGroup]
    } else {
        match first_failure(outcomes, batches) {
            Some(f) => seq![GroupAction::BeginGroup] + runs(f + 1) + seq![
                GroupAction::RollbackGroup { failed: f as usize },
            ],
            None => if outcomes.len() >= batches {
                seq![GroupAction::BeginGroup] + runs(batches) + seq![GroupAction::EndGroup]
            } else {
                seq![GroupAction::BeginGroup] + runs(outcomes.len() + 1)
            },
        }
    }
}

/// The state after the outcomes so far.
pub open spec fn group_state_after(batches: nat, outcomes: Seq<bool>) -> GroupState {
    if batches == 0 {
        GroupState::Ended
    } else {
        match first_failure(outcomes, batches) {
            Some(_) => GroupState::RolledBack,
            None => if outcomes.len() >= batches {
                GroupState::Ended
            } else {
                GroupState::Open { next: outcomes.len() as usize }
            },
        }
    }
}

fn push_all(out: &mut Vec<GroupAction>, more: Vec<GroupAction>)
    ensures
        final(out)@ == old(out)@ + more@,
{
    let mut i: usize = 0;
    while i < more.len()
        invariant
            i <= more@.len(),
            out@ == old(out)@ + more@.take(i as int),
        decreases more@.len() - i,
    {
        out.push(more[i]);
        assert(more@.take(i + 1) =~= more@.take(i as int).push(more@[i as int]));
        i = i + 1;
    }
    assert(more@.take(more@.len() as int) =~= more@);
}

/// Run the steps of a grouped operation of `batches` batches whose
/// batches report `outcomes` in turn, and collect the actions (see
/// [`group_trace`]).
pub fn drive_group(batches: usize, outcomes: &Vec<bool>) -> (acts: Vec<GroupAction>)
    ensures
        acts@ == group_trace(batches as nat, outcomes@),
{
    let (first, mut acts) = group_step(GroupState::Ready, batches, GroupEvent::Start);
    let mut state = first;
    let mut i: usize = 0;
    assert(outcomes@.take(0) =~= Seq::<bool>::empty());
    assert(acts@ =~= group_trace(batches as nat, outcomes@.take(0)));
    while i < outcomes.len()
        invariant
            i <= outcomes@.len(),
            state_ok(state, batches as nat),
            state == group_state_after(batches as nat, outcomes@.take(i as int)),
            acts@ == group_trace(batches as nat, outcomes@.take(i as int)),
        decreases outcomes@.len() - i,
    {
        let ghost o = outcomes@.take(i as int);
        let ghost o1 = outcomes@.take(i + 1);
        assert(o1.drop_last() =~= o);
        assert(o1.last() == outcomes@[i as int]);
        let event = if outcomes[i] {
            GroupEvent::BatchOk
        } else {
            GroupEvent::BatchFailed
        };
        let (next, more) = group_step(state, batches, event);
        let ghost before = acts@;
        push_all(&mut acts, more);
        state = next;
        proof {
            let b = batches as nat;
            if b > 0 && first_failure(o, b) is None && o.len() < b {
                if outcomes@[i as int] {
                    if i + 1 >= b {
                        assert(acts@ =~= seq![GroupAction::BeginGroup] + runs(b) + seq![GroupAction::EndGroup]);
                    } else {
                        assert(acts@ =~= seq![GroupAction::BeginGroup] + runs(o1.len() + 1));
                    }
                } else {
                    assert(first_failure(o1, b) == Some(i as nat));
                    assert(acts@ =~= seq![GroupAction::BeginGroup] + runs((i + 1) as nat) + seq![
                        GroupAction::RollbackGroup { failed: i },
                    ]);
                }
            }
        }
        i = i + 1;
    }
    assert(outcomes@.take(outcomes@.len() as int) =~= outcomes@);
    acts
}

/// A grouped operation pairs its group: once every batch has reported,
/// its actions are the group begun, then batches only, and last either the
/// group ended (every batch succeeded) or rolled back (at the first
/// failure, which is the last batch run), never both.
pub proof fn lemma_group_paired(batches: nat, outcomes: Seq<bool>)
    requires
        outcomes.len() >= batches,
    ensures
        ({
            let t = group_trace(batches, outcomes);
            &&& t.len() >= 2
            &&& t[0] == GroupAction::BeginGroup
            &&& forall|i: int| 1 <= i < t.len() - 1 ==> #[trigger] t[i] is RunBatch
            &&& (t.last() == GroupAction::EndGroup) <==> first_failure(outcomes, batches) is None
            &&& t.last() is RollbackGroup <==> first_failure(outcomes, batches) is Some
            &&& t.last() matches GroupAction::RollbackGroup { failed } ==> t[t.len() - 2] == GroupAction::RunBatch(failed)
        }),
{
    let t = group_trace(batches, outcomes);
    lemma_first_failure_bound(outcomes, batches);
    if batches > 0 {
        match first_failure(outcomes, batches) {
            Some(f) => {
                let r = runs(f + 1);
                assert(t == seq![GroupAction::BeginGroup] + r + seq![GroupAction::RollbackGroup { failed: f as usize }]);
                assert(t.len() == f + 3);
                assert forall|i: int| 1 <= i < t.len() - 1 implies #[trigger] t[i] is RunBatch by {
                    assert(t[i] == r[i - 1]);
                }
                assert(t[t.len() - 2] == r[f as int]);
            },
            None => {
                let r = runs(batches);
                assert(t == seq![GroupAction::BeginGroup] + r + seq![GroupAction::EndGroup]);
                assert forall|i: int| 1 <= i < t.len() - 1 implies #[trigger] t[i] is RunBatch by {
                    assert(t[i] == r[i - 1]);
                }
            },
        }
    }
}

proof fn lemma_first_failure_bound(outcomes: Seq<bool>, batches: nat)
    ensures
        first_failure(outcomes, batches) matches Some(f) ==> f < batches && f < outcomes.len()
            && !outcomes[f as int],
    decreases outcomes.len(),
{
    if outcomes.len() > 0 {
        lemma_first_failure_bound(outcomes.drop_last(), batches);
    }
}

} // verus!
