//! Undo/redo stack and canonical edit log for a sketch.
//!
//! Every reversible edit is pushed with the bincode snapshot of the sketch
//! after it, the cursor state from just before it, and the id of the group
//! it belongs to. Undo and redo move over whole groups: a run of
//! consecutive entries with one group id is one step. Undo/redo restore a
//! snapshot (the caller solves it once); they never replay actions.

use vstd::prelude::*;
use arael_sketch_solver::Sketch;
use crate::sketch_io::{decode_sketch, decodes, encode_sketch, encoded};
use crate::text::{decimal, push_decimal, push_seq, push_str, string_of};

verus! {

// ---------------------------------------------------------------------------
// Runs of group ids
// ---------------------------------------------------------------------------

/// Walking back from position `c`, the first position whose predecessor
/// does not carry group `id`.
pub open spec fn back_over(g: Seq<u32>, c: nat, id: u32) -> nat
    decreases c,
{
    if 0 < c <= g.len() && g[c - 1] == id {
        back_over(g, (c - 1) as nat, id)
    } else {
        c
    }
}

/// Walking forward from position `c`, the first position that does not
/// carry group `id`.
pub open spec fn fwd_over(g: Seq<u32>, c: nat, id: u32) -> nat
    decreases g.len() - c,
{
    if c < g.len() && g[c as int] == id {
        fwd_over(g, c + 1, id)
    } else {
        c
    }
}

/// Where undo from `c` lands: the start of the group run ending at `c`.
pub open spec fn undo_target(g: Seq<u32>, c: nat) -> nat {
    if c == 0 {
        0
    } else {
        back_over(g, c, g[c - 1])
    }
}

/// Where redo from `c` lands: the end of the group run starting at `c`.
pub open spec fn redo_target(g: Seq<u32>, c: nat) -> nat {
    if c >= g.len() {
        c
    } else {
        fwd_over(g, c, g[c as int])
    }
}

/// `c` sits between two groups (or at either end).
pub open spec fn at_boundary(g: Seq<u32>, c: nat) -> bool {
    c == 0 || c >= g.len() || g[c - 1] != g[c as int]
}

pub proof fn lemma_back_over(g: Seq<u32>, c: nat, id: u32)
    requires
        c <= g.len(),
    ensures
        back_over(g, c, id) <= c,
        forall|k: int| back_over(g, c, id) <= k < c ==> #[trigger] g[k] == id,
        back_over(g, c, id) == 0 || g[back_over(g, c, id) - 1] != id,
    decreases c,
{
    if 0 < c && g[c - 1] == id {
        lemma_back_over(g, (c - 1) as nat, id);
    }
}

pub proof fn lemma_fwd_over(g: Seq<u32>, c: nat, id: u32)
    requires
        c <= g.len(),
    ensures
        c <= fwd_over(g, c, id) <= g.len(),
        forall|k: int| c <= k < fwd_over(g, c, id) ==> #[trigger] g[k] == id,
        fwd_over(g, c, id) == g.len() || g[fwd_over(g, c, id) as int] != id,
    decreases g.len() - c,
{
    if c < g.len() && g[c as int] == id {
        lemma_fwd_over(g, c + 1, id);
    }
}

/// A run of `id` from `a` that ends at a boundary `b` is walked to `b`.
proof fn lemma_fwd_over_exact(g: Seq<u32>, a: nat, b: nat, id: u32)
    requires
        a <= b <= g.len(),
        forall|k: int| a <= k < b ==> #[trigger] g[k] == id,
        b == g.len() || g[b as int] != id,
    ensures
        fwd_over(g, a, id) == b,
    decreases b - a,
{
    if a < b {
        lemma_fwd_over_exact(g, a + 1, b, id);
    }
}

/// A run of `id` ending at `b` that starts at a boundary `a` is walked to `a`.
proof fn lemma_back_over_exact(g: Seq<u32>, a: nat, b: nat, id: u32)
    requires
        a <= b <= g.len(),
        forall|k: int| a <= k < b ==> #[trigger] g[k] == id,
        a == 0 || g[a - 1] != id,
    ensures
        back_over(g, b, id) == a,
    decreases b - a,
{
    if a < b {
        lemma_back_over_exact(g, a, (b - 1) as nat, id);
    }
}

pub proof fn lemma_undo_target(g: Seq<u32>, c: nat)
    requires
        0 < c <= g.len(),
    ensures
        undo_target(g, c) < c,
        at_boundary(g, undo_target(g, c)),
        forall|k: int| undo_target(g, c) <= k < c ==> #[trigger] g[k] == g[c - 1],
{
    lemma_back_over(g, c, g[c - 1]);
}

pub proof fn lemma_redo_target(g: Seq<u32>, c: nat)
    requires
        c < g.len(),
    ensures
        c < redo_target(g, c) <= g.len(),
        at_boundary(g, redo_target(g, c)),
        forall|k: int| c <= k < redo_target(g, c) ==> #[trigger] g[k] == g[c as int],
{
    lemma_fwd_over(g, c, g[c as int]);
}

// ---------------------------------------------------------------------------
// The abstract history
// ---------------------------------------------------------------------------

/// What a [`History`] holds, as mathematical values.
pub struct HistoryModel<A, C> {
    pub actions: Seq<A>,
    pub descriptions: Seq<Seq<char>>,
    pub snapshots: Seq<Seq<u8>>,
    pub cursors: Seq<C>,
    pub groups: Seq<u32>,
    pub cursor: nat,
    pub next_group: u32,
    pub current_group: u32,
    pub initial: Seq<u8>,
}

impl<A, C> HistoryModel<A, C> {
    pub open spec fn len(self) -> nat {
        self.groups.len()
    }

    /// The parallel logs agree in length, the cursor sits at a group
    /// boundary, and the current group id and every recorded one are below
    /// the next id to hand out.
    pub open spec fn wf(self) -> bool {
        &&& self.actions.len() == self.len()
        &&& self.descriptions.len() == self.len()
        &&& self.snapshots.len() == self.len()
        &&& self.cursors.len() == self.len()
        &&& self.cursor <= self.len()
        &&& at_boundary(self.groups, self.cursor)
        &&& self.current_group < self.next_group
        &&& forall|i: int| 0 <= i < self.len() ==> #[trigger] self.groups[i] < self.next_group
    }

    /// Every recorded state reads back: the initial snapshot and every
    /// snapshot pushed decode.
    pub open spec fn restorable(self) -> bool {
        &&& decodes(self.initial)
        &&& forall|i: int| 0 <= i < self.snapshots.len() ==> decodes(#[trigger] self.snapshots[i])
    }

    /// The state the cursor stands at: the initial snapshot, or the one
    /// taken after the last applied action.
    pub open spec fn current_snapshot(self) -> Seq<u8> {
        if self.cursor == 0 {
            self.initial
        } else {
            self.snapshots[self.cursor - 1]
        }
    }

    pub open spec fn can_undo(self) -> bool {
        self.cursor > 0
    }

    pub open spec fn can_redo(self) -> bool {
        self.cursor < self.len()
    }

    /// A fresh group: later pushes carry the next id.
    pub open spec fn begin_group(self) -> Self {
        HistoryModel {
            current_group: self.next_group,
            next_group: (self.next_group + 1) as u32,
            ..self
        }
    }

    /// Drop the redo tail, then append one entry in the current group.
    pub open spec fn push(self, action: A, description: Seq<char>, snapshot: Seq<u8>, cursor: C) -> Self {
        let c = self.cursor as int;
        HistoryModel {
            actions: self.actions.take(c).push(action),
            descriptions: self.descriptions.take(c).push(description),
            snapshots: self.snapshots.take(c).push(snapshot),
            cursors: self.cursors.take(c).push(cursor),
            groups: self.groups.take(c).push(self.current_group),
            cursor: self.cursor + 1,
            ..self
        }
    }

    /// Step back over the group run before the cursor.
    pub open spec fn undo(self) -> Self {
        HistoryModel { cursor: undo_target(self.groups, self.cursor), ..self }
    }

    /// The cursor state undo restores: the one saved with the first entry
    /// of the group undone.
    pub open spec fn undo_cursor_state(self) -> C {
        self.cursors[undo_target(self.groups, self.cursor) as int]
    }

    /// Step forward over the group run after the cursor.
    pub open spec fn redo(self) -> Self {
        HistoryModel { cursor: redo_target(self.groups, self.cursor), ..self }
    }

    /// The cursor state redo restores: the one saved with the entry after
    /// the redone group, or, for the newest group, the one saved with its
    /// last entry.
    pub open spec fn redo_cursor_state(self) -> C {
        let r = redo_target(self.groups, self.cursor);
        if r < self.len() {
            self.cursors[r as int]
        } else {
            self.cursors[r - 1]
        }
    }

    /// The cursor state at a position reached by moving.
    pub open spec fn landing_cursor_state(self) -> C {
        if self.cursor < self.len() {
            self.cursors[self.cursor as int]
        } else {
            self.cursors[self.cursor - 1]
        }
    }

    /// Undo repeatedly while the cursor is above `target`.
    pub open spec fn undo_down(self, target: nat) -> Self
        decreases self.cursor,
    {
        if self.cursor > target && 0 < self.cursor <= self.len() {
            proof {
                lemma_undo_target(self.groups, self.cursor);
            }
            self.undo().undo_down(target)
        } else {
            self
        }
    }

    /// Redo repeatedly while the cursor is below `target` and there is
    /// something to redo.
    pub open spec fn redo_up(self, target: nat) -> Self
        decreases self.len() - self.cursor,
    {
        if self.cursor < target && self.cursor < self.len() {
            proof {
                lemma_redo_target(self.groups, self.cursor);
            }
            self.redo().redo_up(target)
        } else {
            self
        }
    }

    /// Where `goto(target)` leaves the history.
    pub open spec fn goto(self, target: nat) -> Self {
        self.undo_down(target).redo_up(target)
    }
}

// ---------------------------------------------------------------------------
// Laws
// ---------------------------------------------------------------------------

proof fn lemma_push_restorable<A, C>(m: HistoryModel<A, C>, action: A, description: Seq<char>, snapshot: Seq<u8>, c: C)
    requires
        m.wf(),
        decodes(snapshot),
    ensures
        decodes(m.push(action, description, snapshot, c).current_snapshot()),
        m.restorable() ==> m.push(action, description, snapshot, c).restorable(),
{
    let p = m.push(action, description, snapshot, c);
    assert(p.snapshots[p.cursor - 1] == snapshot);
    if m.restorable() {
        assert forall|i: int| 0 <= i < p.snapshots.len() implies decodes(#[trigger] p.snapshots[i]) by {
            if i < m.cursor {
                assert(p.snapshots[i] == m.snapshots[i]);
            }
        }
    }
}

/// Undo and redo give back what was recorded: in a history whose recorded
/// states all read back, the state the cursor stands at reads back, and
/// undo, redo, goto and beginning a group keep every recorded state, as
/// does a push of a state that reads back.
pub proof fn lemma_recorded_states_restore<A, C>(m: HistoryModel<A, C>, target: nat, action: A, description: Seq<char>, snapshot: Seq<u8>, c: C)
    requires
        m.wf(),
        m.restorable(),
    ensures
        decodes(m.current_snapshot()),
        m.undo().restorable(),
        m.redo().restorable(),
        m.goto(target).restorable(),
        m.begin_group().restorable(),
        decodes(snapshot) ==> m.push(action, description, snapshot, c).restorable(),
{
    lemma_goto_keeps_logs(m, target);
    if decodes(snapshot) {
        let p = m.push(action, description, snapshot, c);
        assert forall|i: int| 0 <= i < p.snapshots.len() implies decodes(#[trigger] p.snapshots[i]) by {
            if i < m.cursor {
                assert(p.snapshots[i] == m.snapshots[i]);
            }
        }
    }
}

proof fn lemma_goto_keeps_logs<A, C>(m: HistoryModel<A, C>, target: nat)
    ensures
        m.goto(target) == (HistoryModel { cursor: m.goto(target).cursor, ..m }),
{
    lemma_undo_down_keeps_logs(m, target);
    lemma_redo_up_keeps_logs(m.undo_down(target), target);
}

proof fn lemma_undo_down_keeps_logs<A, C>(m: HistoryModel<A, C>, target: nat)
    ensures
        m.undo_down(target) == (HistoryModel { cursor: m.undo_down(target).cursor, ..m }),
    decreases m.cursor,
{
    if m.cursor > target && 0 < m.cursor <= m.len() {
        lemma_undo_target(m.groups, m.cursor);
        lemma_undo_down_keeps_logs(m.undo(), target);
    }
}

proof fn lemma_redo_up_keeps_logs<A, C>(m: HistoryModel<A, C>, target: nat)
    ensures
        m.redo_up(target) == (HistoryModel { cursor: m.redo_up(target).cursor, ..m }),
    decreases m.len() - m.cursor,
{
    if m.cursor < target && m.cursor < m.len() {
        lemma_redo_target(m.groups, m.cursor);
        lemma_redo_up_keeps_logs(m.redo(), target);
    }
}

/// Undo and redo give back what push recorded: after a push the history
/// stands at the pushed snapshot, and redo after an undo comes back to it;
/// when the push began a new group, undo right after it returns to the
/// state before the push.
pub proof fn lemma_push_recorded<A, C>(m: HistoryModel<A, C>, action: A, description: Seq<char>, snapshot: Seq<u8>, c: C)
    requires
        m.wf(),
    ensures
        m.push(action, description, snapshot, c).current_snapshot() == snapshot,
        m.push(action, description, snapshot, c).undo().redo().current_snapshot() == snapshot,
        (m.cursor == 0 || m.groups[m.cursor - 1] != m.current_group) ==> m.push(
            action,
            description,
            snapshot,
            c,
        ).undo().current_snapshot() == m.current_snapshot(),
{
    let p = m.push(action, description, snapshot, c);
    lemma_operations_keep_wf(m, action, description, snapshot, c);
    assert(p.snapshots[p.cursor - 1] == snapshot);
    lemma_redo_undoes_undo(p);
    if m.cursor == 0 || m.groups[m.cursor - 1] != m.current_group {
        let g = p.groups;
        let k = m.cursor;
        assert(g[k as int] == m.current_group);
        assert(back_over(g, k + 1, m.current_group) == back_over(g, k, m.current_group));
        if k > 0 {
            assert(g[k - 1] == m.groups[k - 1]);
        }
        assert(back_over(g, k, m.current_group) == k);
        assert(p.undo().cursor == k);
        if k > 0 {
            assert(p.snapshots[k - 1] == m.snapshots[k - 1]);
        }
    }
}

/// Every operation keeps the history well formed.
pub proof fn lemma_operations_keep_wf<A, C>(
    m: HistoryModel<A, C>,
    action: A,
    description: Seq<char>,
    snapshot: Seq<u8>,
    cursor: C,
)
    requires
        m.wf(),
    ensures
        m.undo().wf(),
        m.redo().wf(),
        m.next_group < u32::MAX ==> m.begin_group().wf(),
        m.push(action, description, snapshot, cursor).wf(),
{
    if m.cursor > 0 {
        lemma_undo_target(m.groups, m.cursor);
    }
    if m.cursor < m.len() {
        lemma_redo_target(m.groups, m.cursor);
    }
    let p = m.push(action, description, snapshot, cursor);
    assert forall|i: int| 0 <= i < p.len() implies #[trigger] p.groups[i] < p.next_group by {
        if i < m.cursor {
            assert(p.groups[i] == m.groups[i]);
        }
    }
    if m.next_group < u32::MAX {
        let b = m.begin_group();
        assert forall|i: int| 0 <= i < b.len() implies #[trigger] b.groups[i] < b.next_group by {
            assert(m.groups[i] < m.next_group);
        }
    }
}

/// Redo right after an undo returns to where the history was, and so to
/// the state it showed.
pub proof fn lemma_redo_undoes_undo<A, C>(m: HistoryModel<A, C>)
    requires
        m.wf(),
        m.can_undo(),
    ensures
        m.undo().redo() == m,
        m.undo().redo().current_snapshot() == m.current_snapshot(),
{
    let g = m.groups;
    let c = m.cursor;
    let u = undo_target(g, c);
    lemma_undo_target(g, c);
    assert(g[u as int] == g[c - 1]);
    lemma_fwd_over_exact(g, u, c, g[c - 1]);
    assert(redo_target(g, u) == c);
}

/// Undo right after a redo returns to where the history was, and so to
/// the state it showed.
pub proof fn lemma_undo_undoes_redo<A, C>(m: HistoryModel<A, C>)
    requires
        m.wf(),
        m.can_redo(),
    ensures
        m.redo().undo() == m,
        m.redo().undo().current_snapshot() == m.current_snapshot(),
{
    let g = m.groups;
    let c = m.cursor;
    let r = redo_target(g, c);
    lemma_redo_target(g, c);
    assert(g[r - 1] == g[c as int]);
    lemma_back_over_exact(g, c, r, g[c as int]);
    assert(undo_target(g, r) == c);
}

/// After a push nothing is left to redo, the pushed state is the current
/// one, and it can be undone.
pub proof fn lemma_push_state<A, C>(
    m: HistoryModel<A, C>,
    action: A,
    description: Seq<char>,
    snapshot: Seq<u8>,
    cursor: C,
)
    requires
        m.wf(),
    ensures
        !m.push(action, description, snapshot, cursor).can_redo(),
        m.push(action, description, snapshot, cursor).can_undo(),
        m.push(action, description, snapshot, cursor).current_snapshot() == snapshot,
{
}

/// An edit pushed as a group of its own is undone in one step: the cursor
/// and the shown state go back to what they were before the push, and the
/// cursor state saved with the edit is restored.
pub proof fn lemma_undo_reverts_grouped_push<A, C>(
    m: HistoryModel<A, C>,
    action: A,
    description: Seq<char>,
    snapshot: Seq<u8>,
    cursor: C,
)
    requires
        m.wf(),
        m.next_group < u32::MAX,
    ensures
        ({
            let p = m.begin_group().push(action, description, snapshot, cursor);
            &&& p.undo().cursor == m.cursor
            &&& p.undo().current_snapshot() == m.current_snapshot()
            &&& p.undo_cursor_state() == cursor
        }),
{
    let b = m.begin_group();
    let p = b.push(action, description, snapshot, cursor);
    let c = m.cursor;
    assert(p.groups[c as int] == m.next_group);
    if c > 0 {
        assert(m.groups[c - 1] < m.next_group);
        assert(p.groups[c - 1] == m.groups[c - 1]);
    }
    lemma_back_over_exact(p.groups, c, c + 1, m.next_group);
    assert(undo_target(p.groups, c + 1) == c);
    if c > 0 {
        assert(p.snapshots[c - 1] == m.snapshots[c - 1]);
    }
}

proof fn lemma_undo_down_exact<A, C>(m: HistoryModel<A, C>, t: nat)
    requires
        m.wf(),
        t <= m.cursor,
        at_boundary(m.groups, t),
    ensures
        m.undo_down(t).cursor == t,
        m.undo_down(t).wf(),
        m.undo_down(t) == (HistoryModel { cursor: t, ..m }),
    decreases m.cursor,
{
    if m.cursor > t {
        let g = m.groups;
        let c = m.cursor;
        lemma_undo_target(g, c);
        let u = undo_target(g, c);
        if u < t {
            // t would sit strictly inside the run [u, c): not a boundary
            assert(g[t - 1] == g[c - 1]);
            assert(g[t as int] == g[c - 1]);
        }
        lemma_operations_keep_wf(m, m.actions[0], seq![], seq![], m.cursors[0]);
        lemma_undo_down_exact(m.undo(), t);
    }
}

proof fn lemma_redo_up_exact<A, C>(m: HistoryModel<A, C>, t: nat)
    requires
        m.wf(),
        m.cursor <= t <= m.len(),
        at_boundary(m.groups, t),
    ensures
        m.redo_up(t) == (HistoryModel { cursor: t, ..m }),
    decreases m.len() - m.cursor,
{
    if m.cursor < t {
        let g = m.groups;
        let c = m.cursor;
        lemma_redo_target(g, c);
        let r = redo_target(g, c);
        if r > t {
            assert(g[t - 1] == g[c as int]);
            assert(g[t as int] == g[c as int]);
        }
        lemma_operations_keep_wf(m, m.actions[0], seq![], seq![], m.cursors[0]);
        lemma_redo_up_exact(m.redo(), t);
    }
}

/// `goto` reaches any position between two groups exactly, changing
/// nothing but the cursor.
pub proof fn lemma_goto_reaches_boundary<A, C>(m: HistoryModel<A, C>, t: nat)
    requires
        m.wf(),
        t <= m.len(),
        at_boundary(m.groups, t),
    ensures
        m.goto(t) == (HistoryModel { cursor: t, ..m }),
{
    if m.cursor >= t {
        lemma_undo_down_exact(m, t);
        let d = m.undo_down(t);
        lemma_redo_up_exact(d, t);
    } else {
        assert(m.undo_down(t) == m);
        lemma_redo_up_exact(m, t);
    }
}

/// How a group is listed: its first action's description, with the
/// number of further actions when there are any (`"desc (+2)"`).
pub open spec fn group_label(description: Seq<char>, count: nat) -> Seq<char> {
    if count > 1 {
        description + " (+"@ + decimal((count - 1) as nat) + ")"@
    } else {
        description
    }
}

/// The groups from position `i` on: for each run of equal group ids, the
/// id, the cursor value after the run, and its label.
pub open spec fn group_runs(g: Seq<u32>, d: Seq<Seq<char>>, i: nat) -> Seq<(u32, nat, Seq<char>)>
    decreases g.len() - i,
{
    if i < g.len() {
        let e = fwd_over(g, i, g[i as int]);
        proof {
            lemma_fwd_over(g, i + 1, g[i as int]);
        }
        seq![(g[i as int], e, group_label(d[i as int], (e - i) as nat))] + group_runs(g, d, e)
    } else {
        seq![]
    }
}

/// Where run `k` of a listing from position `i` starts: at `i`, or where
/// the run before it ends.
pub open spec fn run_start(r: Seq<(u32, nat, Seq<char>)>, i: nat, k: int) -> nat {
    if k == 0 {
        i
    } else {
        r[k - 1].1
    }
}

/// The groups listed from position `i` are the maximal runs of equal ids
/// from there, in order: each run starts where the one before it ended,
/// holds one id throughout, is not followed by the same id, and is labelled
/// by its first description; the last run ends at the end of the log.
pub proof fn lemma_group_runs_maximal(g: Seq<u32>, d: Seq<Seq<char>>, i: nat)
    requires
        i <= g.len(),
    ensures
        ({
            let r = group_runs(g, d, i);
            &&& (r.len() > 0) == (i < g.len())
            &&& r.len() > 0 ==> r.last().1 == g.len()
            &&& forall|k: int| 0 <= k < r.len() ==> {
                let s = run_start(r, i, k);
                &&& i <= s < (#[trigger] r[k]).1 <= g.len()
                &&& forall|j: int| s <= j < r[k].1 ==> g[j] == r[k].0
                &&& (r[k].1 == g.len() || g[r[k].1 as int] != r[k].0)
                &&& r[k].2 == group_label(d[s as int], (r[k].1 - s) as nat)
            }
        }),
    decreases g.len() - i,
{
    if i < g.len() {
        let id = g[i as int];
        let e = fwd_over(g, i, id);
        lemma_fwd_over(g, i, id);
        lemma_fwd_over(g, i + 1, id);
        let r = group_runs(g, d, i);
        let rest = group_runs(g, d, e);
        lemma_group_runs_maximal(g, d, e);
        assert(r == seq![(id, e, group_label(d[i as int], (e - i) as nat))] + rest);
        assert forall|k: int| 0 <= k < r.len() implies {
            let s = run_start(r, i, k);
            &&& i <= s < (#[trigger] r[k]).1 <= g.len()
            &&& forall|j: int| s <= j < r[k].1 ==> g[j] == r[k].0
            &&& (r[k].1 == g.len() || g[r[k].1 as int] != r[k].0)
            &&& r[k].2 == group_label(d[s as int], (r[k].1 - s) as nat)
        } by {
            if k > 0 {
                assert(r[k] == rest[k - 1]);
                assert(run_start(r, i, k) == run_start(rest, e, k - 1));
                assert(rest[k - 1] == rest[k - 1]);
            }
        }
        if rest.len() > 0 {
            assert(r.last() == rest.last());
        }
    }
}

// ---------------------------------------------------------------------------
// The history
// ---------------------------------------------------------------------------

/// The undo/redo log. `A` is the action type recorded, `C` the cursor
/// state saved with each entry.
pub struct History<A, C> {
    pub actions: Vec<A>,
    /// What each action does, for listings.
    pub descriptions: Vec<String>,
    /// bincode-serialized sketch after each action.
    pub snapshots: Vec<Vec<u8>>,
    pub cursors: Vec<C>,
    /// Group id of each action.
    pub groups: Vec<u32>,
    /// Number of applied actions (0 = initial state).
    pub cursor: usize,
    pub next_group: u32,
    pub current_group: u32,
    /// The state before any action.
    pub initial_snapshot: Vec<u8>,
}

impl<A, C> View for History<A, C> {
    type V = HistoryModel<A, C>;

    open spec fn view(&self) -> HistoryModel<A, C> {
        HistoryModel {
            actions: self.actions@,
            descriptions: self.descriptions@.map_values(|d: String| d@),
            snapshots: self.snapshots@.map_values(|s: Vec<u8>| s@),
            cursors: self.cursors@,
            groups: self.groups@,
            cursor: self.cursor as nat,
            next_group: self.next_group,
            current_group: self.current_group,
            initial: self.initial_snapshot@,
        }
    }
}

/// A copy of a byte vector.
fn copy_bytes(v: &Vec<u8>) -> (r: Vec<u8>)
    ensures
        r@ == v@,
{
    let r = v.clone();
    assert(r@ =~= v@);
    r
}

impl<A, C: Copy> History<A, C> {
    /// An empty history whose initial state is the given snapshot.
    pub fn from_snapshot(initial: Vec<u8>) -> (h: Self)
        ensures
            h@.wf(),
            h@.len() == 0,
            h@.cursor == 0,
            h@.next_group == 1,
            h@.current_group == 0,
            h@.initial == initial@,
            h@.restorable() == decodes(initial@),
    {
        // Pushes before the first begin_group carry group 0; the first
        // explicit group must not share that id.
        History {
            actions: Vec::new(),
            descriptions: Vec::new(),
            snapshots: Vec::new(),
            cursors: Vec::new(),
            groups: Vec::new(),
            cursor: 0,
            next_group: 1,
            current_group: 0,
            initial_snapshot: initial,
        }
    }

    /// An empty history starting from `sketch`.
    pub fn new(sketch: &Sketch) -> (h: Self)
        ensures
            h@.initial == encoded(*sketch),
            h@.wf(),
            h@.len() == 0,
            h@.cursor == 0,
            h@.next_group == 1,
            h@.current_group == 0,
            h@.restorable(),
    {
        Self::from_snapshot(encode_sketch(sketch))
    }

    /// Later pushes form a new group, undone and redone as one step.
    pub fn begin_group(&mut self)
        requires
            old(self)@.wf(),
            old(self).next_group < u32::MAX,
        ensures
            final(self)@ == old(self)@.begin_group(),
            final(self)@.wf(),
    {
        proof {
            lemma_operations_keep_wf(old(self)@, arbitrary(), seq![], seq![], arbitrary());
        }
        self.current_group = self.next_group;
        self.next_group = self.next_group + 1;
    }

    /// Record an action with the snapshot of the state after it and the
    /// cursor state from before it; the redo tail is dropped.
    pub fn push_snapshot(&mut self, action: A, description: String, snapshot: Vec<u8>, cursor: C)
        requires
            old(self)@.wf(),
            old(self)@.len() < usize::MAX,
        ensures
            final(self)@ == old(self)@.push(action, description@, snapshot@, cursor),
            final(self)@.wf(),
    {
        proof {
            lemma_operations_keep_wf(old(self)@, action, description@, snapshot@, cursor);
        }
        let c = self.cursor;
        self.actions.truncate(c);
        self.descriptions.truncate(c);
        self.snapshots.truncate(c);
        self.cursors.truncate(c);
        self.groups.truncate(c);
        self.actions.push(action);
        self.descriptions.push(description);
        self.snapshots.push(snapshot);
        self.cursors.push(cursor);
        self.groups.push(self.current_group);
        self.cursor = c + 1;
        proof {
            let o = old(self)@;
            assert(self@.descriptions =~= o.descriptions.take(c as int).push(description@));
            assert(self@.snapshots =~= o.snapshots.take(c as int).push(snapshot@));
        }
    }

    /// Record an action with the sketch as it stands after it.
    pub fn push(&mut self, action: A, description: String, sketch: &Sketch, cursor: C)
        requires
            old(self)@.wf(),
            old(self)@.len() < usize::MAX,
        ensures
            final(self)@ == old(self)@.push(action, description@, encoded(*sketch), cursor),
            final(self)@.current_snapshot() == encoded(*sketch),
            final(self)@.wf(),
            decodes(final(self)@.current_snapshot()),
            old(self)@.restorable() ==> final(self)@.restorable(),
    {
        let snapshot = encode_sketch(sketch);
        proof {
            lemma_push_restorable(old(self)@, action, description@, snapshot@, cursor);
            lemma_push_recorded(old(self)@, action, description@, snapshot@, cursor);
        }
        self.push_snapshot(action, description, snapshot, cursor);
    }

    pub fn can_undo(&self) -> (b: bool)
        ensures
            b == self@.can_undo(),
    {
        self.cursor > 0
    }

    pub fn can_redo(&self) -> (b: bool)
        requires
            self@.wf(),
        ensures
            b == self@.can_redo(),
    {
        self.cursor < self.actions.len()
    }

    /// The snapshot of the state the cursor stands at.
    pub fn current_snapshot(&self) -> (s: &Vec<u8>)
        requires
            self@.wf(),
        ensures
            s@ == self@.current_snapshot(),
    {
        if self.cursor == 0 {
            &self.initial_snapshot
        } else {
            &self.snapshots[self.cursor - 1]
        }
    }

    /// Undo the group before the cursor: the snapshot to restore and the
    /// cursor state saved at the start of that group.
    pub fn undo_snapshot(&mut self) -> (r: Option<(Vec<u8>, C)>)
        requires
            old(self)@.wf(),
        ensures
            final(self)@ == old(self)@.undo(),
            final(self)@.wf(),
            r is Some <==> old(self)@.can_undo(),
            r matches Some(p) ==> p.0@ == final(self)@.current_snapshot() && p.1
                == old(self)@.undo_cursor_state(),
    {
        if self.cursor == 0 {
            return None;
        }
        proof {
            lemma_undo_target(self@.groups, self@.cursor);
            lemma_operations_keep_wf(old(self)@, arbitrary(), seq![], seq![], arbitrary());
        }
        let ghost g = self@.groups;
        let ghost c0 = self@.cursor;
        // The cursor state to restore is saved at the start of the group
        // being undone.
        let group = self.groups[self.cursor - 1];
        while self.cursor > 0 && self.groups[self.cursor - 1] == group
            invariant
                self@ == (HistoryModel { cursor: self.cursor as nat, ..old(self)@ }),
                old(self)@.wf(),
                g == self@.groups,
                c0 == old(self)@.cursor,
                group == g[c0 - 1],
                back_over(g, self.cursor as nat, group) == back_over(g, c0, group),
                self.cursor <= c0,
            decreases self.cursor,
        {
            self.cursor = self.cursor - 1;
        }
        let restored = self.cursors[self.cursor];
        let snap = if self.cursor == 0 {
            copy_bytes(&self.initial_snapshot)
        } else {
            copy_bytes(&self.snapshots[self.cursor - 1])
        };
        Some((snap, restored))
    }

    /// Redo the group after the cursor: the snapshot to restore and the
    /// cursor state to go with it.
    pub fn redo_snapshot(&mut self) -> (r: Option<(Vec<u8>, C)>)
        requires
            old(self)@.wf(),
        ensures
            final(self)@ == old(self)@.redo(),
            final(self)@.wf(),
            r is Some <==> old(self)@.can_redo(),
            r matches Some(p) ==> p.0@ == final(self)@.current_snapshot() && p.1
                == old(self)@.redo_cursor_state(),
    {
        if self.cursor >= self.actions.len() {
            return None;
        }
        proof {
            lemma_redo_target(self@.groups, self@.cursor);
            lemma_operations_keep_wf(old(self)@, arbitrary(), seq![], seq![], arbitrary());
        }
        let ghost g = self@.groups;
        let ghost c0 = self@.cursor;
        let group = self.groups[self.cursor];
        let n = self.groups.len();
        while self.cursor < n && self.groups[self.cursor] == group
            invariant
                self@ == (HistoryModel { cursor: self.cursor as nat, ..old(self)@ }),
                old(self)@.wf(),
                g == self@.groups,
                n == g.len(),
                c0 == old(self)@.cursor,
                c0 < n,
                group == g[c0 as int],
                fwd_over(g, self.cursor as nat, group) == fwd_over(g, c0, group),
                c0 <= self.cursor <= n,
            decreases n - self.cursor,
        {
            self.cursor = self.cursor + 1;
        }
        let snap = copy_bytes(&self.snapshots[self.cursor - 1]);
        // Each saved cursor state is the one from just before its action,
        // so the state after the redone group is the next entry's. For the
        // newest group no later entry exists; the pre-last-action state is
        // the closest on record.
        let restored = if self.cursor < n {
            self.cursors[self.cursor]
        } else {
            self.cursors[self.cursor - 1]
        };
        Some((snap, restored))
    }

    /// Read the sketch of a snapshot back; `None` exactly when the snapshot
    /// does not decode.
    fn restore(snapshot: &Vec<u8>) -> (r: Option<Sketch>)
        ensures
            r is Some <==> decodes(snapshot@),
    {
        decode_sketch(snapshot)
    }

    /// Undo the group before the cursor and return the sketch of the state
    /// reached (as recorded; solving it is the caller's, in floating point)
    /// with the restored cursor state. `None` when there is nothing to undo,
    /// or when the snapshot does not decode, which no recorded state does.
    pub fn undo(&mut self) -> (r: Option<(Sketch, C)>)
        requires
            old(self)@.wf(),
        ensures
            final(self)@ == old(self)@.undo(),
            final(self)@.wf(),
            r is Some <==> (old(self)@.can_undo() && decodes(final(self)@.current_snapshot())),
            old(self)@.restorable() ==> (r is Some <==> old(self)@.can_undo()),
            r matches Some(p) ==> p.1 == old(self)@.undo_cursor_state(),
    {
        let step = self.undo_snapshot();
        proof {
            if old(self)@.restorable() {
                lemma_recorded_states_restore(old(self)@, 0, arbitrary(), seq![], seq![], arbitrary());
                lemma_recorded_states_restore(self@, 0, arbitrary(), seq![], seq![], arbitrary());
            }
        }
        match step {
            Some((snapshot, cursor)) => match Self::restore(&snapshot) {
                Some(sketch) => Some((sketch, cursor)),
                None => None,
            },
            None => None,
        }
    }

    /// Redo the group after the cursor and return the sketch of the state
    /// reached (as recorded; solving it is the caller's, in floating point)
    /// with the restored cursor state. `None` when there is nothing to redo,
    /// or when the snapshot does not decode, which no recorded state does.
    pub fn redo(&mut self) -> (r: Option<(Sketch, C)>)
        requires
            old(self)@.wf(),
        ensures
            final(self)@ == old(self)@.redo(),
            final(self)@.wf(),
            r is Some <==> (old(self)@.can_redo() && decodes(final(self)@.current_snapshot())),
            old(self)@.restorable() ==> (r is Some <==> old(self)@.can_redo()),
            r matches Some(p) ==> p.1 == old(self)@.redo_cursor_state(),
    {
        let step = self.redo_snapshot();
        proof {
            if old(self)@.restorable() {
                lemma_recorded_states_restore(old(self)@, 0, arbitrary(), seq![], seq![], arbitrary());
                lemma_recorded_states_restore(self@, 0, arbitrary(), seq![], seq![], arbitrary());
            }
        }
        match step {
            Some((snapshot, cursor)) => match Self::restore(&snapshot) {
                Some(sketch) => Some((sketch, cursor)),
                None => None,
            },
            None => None,
        }
    }

    /// Undo/redo whole groups towards `target`; the snapshot and cursor
    /// state of the last step, `None` when no step was taken or the last
    /// redo found nothing to redo (a target past the end).
    pub fn goto_snapshot(&mut self, target: usize) -> (r: Option<(Vec<u8>, C)>)
        requires
            old(self)@.wf(),
        ensures
            final(self)@ == old(self)@.goto(target as nat),
            final(self)@.wf(),
            r is Some <==> (old(self)@.cursor != target && target <= old(self)@.len()),
            r matches Some(p) ==> p.0@ == final(self)@.current_snapshot() && p.1
                == final(self)@.landing_cursor_state(),
    {
        let ghost m0 = self@;
        let mut result: Option<(Vec<u8>, C)> = None;
        while self.cursor > target
            invariant
                self@.wf(),
                self@.undo_down(target as nat) == m0.undo_down(target as nat),
                self@ == (HistoryModel { cursor: self@.cursor, ..m0 }),
                m0.wf(),
                self.cursor <= m0.cursor,
                m0.cursor <= target ==> self@ == m0,
                result is Some <==> self.cursor < m0.cursor,
                result matches Some(p) ==> p.0@ == self@.current_snapshot() && p.1
                    == self@.landing_cursor_state(),
            decreases self.cursor,
        {
            proof {
                lemma_undo_target(self@.groups, self@.cursor);
            }
            result = self.undo_snapshot();
        }
        let ghost m1 = self@;
        assert(m1 == m0.undo_down(target as nat));
        let n = self.actions.len();
        while self.cursor < target && self.cursor < n
            invariant
                self@.wf(),
                n == self@.len(),
                self@.redo_up(target as nat) == m1.redo_up(target as nat),
                self@ == (HistoryModel { cursor: self@.cursor, ..m0 }),
                m1 == m0.undo_down(target as nat),
                m1.cursor <= self.cursor,
                m0.cursor <= target ==> m1 == m0,
                result is Some <==> (m0.cursor > target || self.cursor > m1.cursor),
                result matches Some(p) ==> p.0@ == self@.current_snapshot() && p.1
                    == self@.landing_cursor_state(),
            decreases n - self.cursor,
        {
            proof {
                lemma_redo_target(self@.groups, self@.cursor);
            }
            result = self.redo_snapshot();
        }
        if self.cursor < target {
            // The last redo found nothing to redo.
            result = None;
        }
        result
    }

    /// Undo/redo to reach the given cursor position; the sketch of the state
    /// reached (as recorded; solving it is the caller's) and the cursor
    /// state there, for any position of the history, the current one
    /// included. `None` for a position past the end, or when the snapshot
    /// does not decode, which no recorded state does. At the current
    /// position of an empty history no cursor state was saved: the default
    /// one comes back.
    pub fn goto(&mut self, target: usize) -> (r: Option<(Sketch, C)>)
        where C: Default
        requires
            old(self)@.wf(),
        ensures
            final(self)@ == old(self)@.goto(target as nat),
            final(self)@.wf(),
            r is Some <==> (target <= old(self)@.len() && decodes(final(self)@.current_snapshot())),
            old(self)@.restorable() ==> (r is Some <==> target <= old(self)@.len()),
            r matches Some(p) ==> final(self)@.len() > 0 ==> p.1 == final(self)@.landing_cursor_state(),
    {
        proof {
            if old(self)@.restorable() {
                lemma_recorded_states_restore(old(self)@, target as nat, arbitrary(), seq![], seq![], arbitrary());
            }
        }
        if target == self.cursor {
            proof {
                lemma_goto_keeps_logs(old(self)@, target as nat);
                if old(self)@.restorable() {
                    lemma_recorded_states_restore(old(self)@, 0, arbitrary(), seq![], seq![], arbitrary());
                }
            }
            // Already there: the current state, with the cursor state saved
            // for this position.
            let cursor = if self.cursors.len() == 0 {
                C::default()
            } else if self.cursor < self.cursors.len() {
                self.cursors[self.cursor]
            } else {
                self.cursors[self.cursor - 1]
            };
            return match Self::restore(self.current_snapshot()) {
                Some(sketch) => Some((sketch, cursor)),
                None => None,
            };
        }
        let step = self.goto_snapshot(target);
        proof {
            if old(self)@.restorable() {
                lemma_recorded_states_restore(self@, 0, arbitrary(), seq![], seq![], arbitrary());
            }
        }
        match step {
            Some((snapshot, cursor)) => match Self::restore(&snapshot) {
                Some(sketch) => Some((sketch, cursor)),
                None => None,
            },
            None => None,
        }
    }

    /// For every group, in order: its id, the cursor value after it, and
    /// its first action's description with the count of further actions.
    pub fn group_list(&self) -> (r: Vec<(u32, usize, String)>)
        requires
            self@.wf(),
        ensures
            r@.map_values(|t: (u32, usize, String)| (t.0, t.1 as nat, t.2@)) == group_runs(
                self@.groups,
                self@.descriptions,
                0,
            ),
    {
        let ghost g = self@.groups;
        let ghost d = self@.descriptions;
        let n = self.groups.len();
        let mut result: Vec<(u32, usize, String)> = Vec::new();
        let mut i: usize = 0;
        while i < n
            invariant
                self@.wf(),
                n == g.len(),
                g == self@.groups,
                d == self@.descriptions,
                i <= n,
                result@.map_values(|t: (u32, usize, String)| (t.0, t.1 as nat, t.2@)) + group_runs(
                    g,
                    d,
                    i as nat,
                ) == group_runs(g, d, 0),
            decreases n - i,
        {
            let gid = self.groups[i];
            let desc = self.descriptions[i].clone();
            let ghost i0 = i as nat;
            proof {
                lemma_fwd_over(g, i0, gid);
            }
            let mut count: usize = 0;
            while i < n && self.groups[i] == gid
                invariant
                    g == self@.groups,
                    n == g.len(),
                    i0 <= i <= n,
                    count == i - i0,
                    fwd_over(g, i as nat, gid) == fwd_over(g, i0, gid),
                decreases n - i,
            {
                i = i + 1;
                count = count + 1;
            }
            let mut label = crate::text::chars_of(desc.as_str());
            if count > 1 {
                push_str(&mut label, " (+");
                push_decimal(&mut label, count - 1);
                push_str(&mut label, ")");
            }
            let label = string_of(&label);
            proof {
                assert(i as nat == fwd_over(g, i0, g[i0 as int]));
                assert(label@ == group_label(d[i0 as int], (i - i0) as nat));
            }
            let ghost before = result@.map_values(|t: (u32, usize, String)| (t.0, t.1 as nat, t.2@));
            result.push((gid, i, label));
            proof {
                assert(result@.map_values(|t: (u32, usize, String)| (t.0, t.1 as nat, t.2@)) =~= before.push(
                    (gid, i as nat, label@),
                ));
                assert(group_runs(g, d, i0) == seq![(g[i0 as int], i as nat, group_label(d[i0 as int], (i - i0) as nat))] + group_runs(g, d, i as nat));
                assert(before.push((gid, i as nat, label@)) + group_runs(g, d, i as nat) =~= before + group_runs(g, d, i0));
            }
        }
        assert(group_runs(g, d, i as nat) == Seq::<(u32, nat, Seq<char>)>::empty());
        assert(result@.map_values(|t: (u32, usize, String)| (t.0, t.1 as nat, t.2@)) =~= result@.map_values(|t: (u32, usize, String)| (t.0, t.1 as nat, t.2@)) + group_runs(g, d, i as nat));
        result
    }
}

} // verus!
