//! The command context and the history/view commands: `undo [n]`,
//! `redo [n]`, `history [n]`, `zoom`, and their dispatch.

use vstd::prelude::*;
use arael_sketch_solver::Sketch;
use crate::complete::{complete, views, NameIndex, NamesModel};
use crate::history::{
    group_runs, lemma_recorded_states_restore, lemma_redo_target, lemma_undo_target, History,
    HistoryModel,
};
use crate::sketch_io::{decode_sketch, decodes, empty_sketch};
use crate::text::{
    chars_of, decimal, is_whitespace, is_ws, parse_usize, parse_usize_spec, push_decimal,
    push_seq, push_str, slice_chars, string_of, trim, trim_chars,
};

verus! {

/// Everything a command works on: the sketch, its undo history, the
/// command-panel cursor state (`C`, saved with each history entry), and the
/// names completion offers.
pub struct CommandContext<A, C> {
    pub sketch: Sketch,
    pub history: History<A, C>,
    pub cursor: C,
    pub names: NameIndex,
}

/// The result of one command: its output text, and whether it failed.
pub struct CommandResult {
    pub output: String,
    pub is_error: bool,
}

impl<A, C: Copy> CommandContext<A, C> {
    /// An empty sketch with an empty history, the given cursor state and no
    /// names.
    pub fn new(cursor: C) -> (ctx: Self)
        ensures
            ctx.history@.wf(),
            ctx.history@.restorable(),
            ctx.history@.len() == 0,
            ctx.history@.cursor == 0,
            ctx.history@.next_group == 1,
            ctx.history@.current_group == 0,
            ctx.history@.initial == crate::sketch_io::encoded(ctx.sketch),
            ctx.cursor == cursor,
            ctx.names@.lines.len() == 0,
            ctx.names@.arcs.len() == 0,
            ctx.names@.points.len() == 0,
            ctx.names@.dims.len() == 0,
            ctx.names@.params.len() == 0,
            ctx.names@.metas.len() == 0,
            ctx.names@.constraints.len() == 0,
            ctx.names@.session.len() == 0,
    {
        let sketch = empty_sketch();
        let history = History::new(&sketch);
        CommandContext { sketch, history, cursor, names: NameIndex::new() }
    }

    /// Replace the sketch with the one decoded from the history's current
    /// snapshot; `false`, with the sketch left as it was, when the snapshot
    /// does not decode. Solving the restored sketch is the caller's part.
    fn restore_current(&mut self) -> (ok: bool)
        requires
            old(self).history@.wf(),
        ensures
            ok == decodes(old(self).history@.current_snapshot()),
            !ok ==> final(self).sketch == old(self).sketch,
            final(self).history == old(self).history,
            final(self).cursor == old(self).cursor,
            final(self).names == old(self).names,
    {
        match decode_sketch(self.history.current_snapshot()) {
            Some(sketch) => {
                self.sketch = sketch;
                true
            },
            None => false,
        }
    }
}

// ---------------------------------------------------------------------------
// undo / redo
// ---------------------------------------------------------------------------

/// The step count an `undo`/`redo` argument asks for: the number given,
/// else one.
pub open spec fn step_count(args: Seq<char>) -> nat {
    match parse_usize_spec(trim(args)) {
        Some(n) => n as nat,
        None => 1,
    }
}

/// The history after up to `k` undo steps (stopping when nothing is left).
pub open spec fn undo_n<A, C>(m: HistoryModel<A, C>, k: nat) -> HistoryModel<A, C>
    decreases k,
{
    if k == 0 || !m.can_undo() {
        m
    } else {
        undo_n(m.undo(), (k - 1) as nat)
    }
}

/// Whether all `k` undo steps find something to undo.
pub open spec fn undo_all<A, C>(m: HistoryModel<A, C>, k: nat) -> bool
    decreases k,
{
    k == 0 || (m.can_undo() && undo_all(m.undo(), (k - 1) as nat))
}

/// The cursor state after up to `k` undo steps: the one restored by the
/// last step taken, else `c`.
pub open spec fn undo_n_cursor<A, C>(m: HistoryModel<A, C>, k: nat, c: C) -> C
    decreases k,
{
    if k == 0 || !m.can_undo() {
        c
    } else {
        undo_n_cursor(m.undo(), (k - 1) as nat, m.undo_cursor_state())
    }
}

/// The history after up to `k` redo steps.
pub open spec fn redo_n<A, C>(m: HistoryModel<A, C>, k: nat) -> HistoryModel<A, C>
    decreases k,
{
    if k == 0 || !m.can_redo() {
        m
    } else {
        redo_n(m.redo(), (k - 1) as nat)
    }
}

/// Whether all `k` redo steps find something to redo.
pub open spec fn redo_all<A, C>(m: HistoryModel<A, C>, k: nat) -> bool
    decreases k,
{
    k == 0 || (m.can_redo() && redo_all(m.redo(), (k - 1) as nat))
}

/// The cursor state after up to `k` redo steps.
pub open spec fn redo_n_cursor<A, C>(m: HistoryModel<A, C>, k: nat, c: C) -> C
    decreases k,
{
    if k == 0 || !m.can_redo() {
        c
    } else {
        redo_n_cursor(m.redo(), (k - 1) as nat, m.redo_cursor_state())
    }
}

/// The message of `undo` asking for `k` steps.
pub open spec fn undo_message<A, C>(m: HistoryModel<A, C>, k: nat) -> Seq<char> {
    if undo_all(m, k) {
        "Undone "@ + decimal(k) + " step(s)"@
    } else {
        "Nothing to undo"@
    }
}

/// The message of `redo` asking for `k` steps.
pub open spec fn redo_message<A, C>(m: HistoryModel<A, C>, k: nat) -> Seq<char> {
    if redo_all(m, k) {
        "Redone "@ + decimal(k) + " step(s)"@
    } else {
        "Nothing to redo"@
    }
}

proof fn lemma_undo_n_stuck<A, C>(m: HistoryModel<A, C>, k: nat, c: C)
    requires
        !m.can_undo(),
    ensures
        undo_n(m, k) == m,
        undo_n_cursor(m, k, c) == c,
        undo_all(m, k) == (k == 0),
{
}

proof fn lemma_redo_n_stuck<A, C>(m: HistoryModel<A, C>, k: nat, c: C)
    requires
        !m.can_redo(),
    ensures
        redo_n(m, k) == m,
        redo_n_cursor(m, k, c) == c,
        redo_all(m, k) == (k == 0),
{
}

/// The step count of an argument string.
fn parse_count(args: &str, default: usize) -> (n: usize)
    ensures
        n == (match parse_usize_spec(trim(args@)) {
            Some(v) => v,
            None => default,
        }),
{
    let a = chars_of(args);
    let t = trim_chars(&a);
    match parse_usize(&t) {
        Some(v) => v,
        None => default,
    }
}

/// A message with a count in it: `prefix`, the count, `suffix`.
fn counted_message(prefix: &str, n: usize, suffix: &str) -> (s: String)
    ensures
        s@ == prefix@ + decimal(n as nat) + suffix@,
{
    let mut out: Vec<char> = Vec::new();
    push_str(&mut out, prefix);
    push_decimal(&mut out, n);
    push_str(&mut out, suffix);
    assert(out@ =~= prefix@ + decimal(n as nat) + suffix@);
    string_of(&out)
}

/// Undo `n` groups (the argument; one when it is not a number), moving the
/// cursor state back with each. Stops when nothing is left to undo. The
/// sketch is restored from the snapshot reached; when that snapshot does
/// not decode, the error says so and the sketch stays as it was.
pub fn cmd_undo<A, C: Copy>(ctx: &mut CommandContext<A, C>, args: &str) -> (r: Result<String, String>)
    requires
        old(ctx).history@.wf(),
    ensures
        final(ctx).history@ == undo_n(old(ctx).history@, step_count(args@)),
        final(ctx).history@.wf(),
        final(ctx).cursor == undo_n_cursor(old(ctx).history@, step_count(args@), old(ctx).cursor),
        final(ctx).names == old(ctx).names,
        r matches Ok(s) ==> s@ == undo_message(old(ctx).history@, step_count(args@)),
        r is Err <==> (final(ctx).history@.cursor < old(ctx).history@.cursor
            && !decodes(final(ctx).history@.current_snapshot())),
        r matches Err(e) ==> e@ == "Undo: the history snapshot does not decode"@,
        r is Err || final(ctx).history@.cursor == old(ctx).history@.cursor ==> final(ctx).sketch == old(ctx).sketch,
        old(ctx).history@.restorable() ==> r is Ok && final(ctx).history@.restorable(),
{
    let n = parse_count(args, 1);
    let ghost m0 = ctx.history@;
    let ghost c0 = ctx.cursor;
    let mut i: usize = 0;
    let mut stop = false;
    let mut moved = false;
    while i < n && !stop
        invariant
            ctx.history@.wf(),
            i <= n,
            ctx.names == old(ctx).names,
            ctx.sketch == old(ctx).sketch,
            undo_n(ctx.history@, (n - i) as nat) == undo_n(m0, n as nat),
            undo_n_cursor(ctx.history@, (n - i) as nat, ctx.cursor) == undo_n_cursor(m0, n as nat, c0),
            undo_all(m0, n as nat) == (!stop && undo_all(ctx.history@, (n - i) as nat)),
            stop ==> !ctx.history@.can_undo(),
            ctx.history@.cursor <= m0.cursor,
            moved <==> ctx.history@.cursor < m0.cursor,
            m0.restorable() ==> ctx.history@.restorable(),
        decreases n - i, (if stop { 0int } else { 1int }),
    {
        let ghost h = ctx.history@;
        proof {
            if h.cursor > 0 {
                lemma_undo_target(h.groups, h.cursor);
            }
        }
        let step = ctx.history.undo_snapshot();
        proof {
            if m0.restorable() {
                lemma_recorded_states_restore(h, 0, arbitrary(), seq![], seq![], arbitrary());
            }
        }
        match step {
            Some((_snapshot, c)) => {
                ctx.cursor = c;
                moved = true;
                i = i + 1;
            },
            None => {
                proof {
                    lemma_undo_n_stuck(h, (n - i) as nat, ctx.cursor);
                }
                stop = true;
            },
        }
    }
    proof {
        if stop {
            lemma_undo_n_stuck(ctx.history@, (n - i) as nat, ctx.cursor);
        }
        if m0.restorable() {
            lemma_recorded_states_restore(ctx.history@, 0, arbitrary(), seq![], seq![], arbitrary());
        }
    }
    if moved {
        // Restore the sketch of the position reached.
        if !ctx.restore_current() {
            return Err(string_of(&chars_of("Undo: the history snapshot does not decode")));
        }
    }
    if stop {
        let s = string_of(&chars_of("Nothing to undo"));
        Ok(s)
    } else {
        Ok(counted_message("Undone ", n, " step(s)"))
    }
}

/// Redo `n` groups (the argument; one when it is not a number), moving the
/// cursor state forward with each. Stops when nothing is left to redo. The
/// sketch is restored from the snapshot reached; when that snapshot does
/// not decode, the error says so and the sketch stays as it was.
pub fn cmd_redo<A, C: Copy>(ctx: &mut CommandContext<A, C>, args: &str) -> (r: Result<String, String>)
    requires
        old(ctx).history@.wf(),
    ensures
        final(ctx).history@ == redo_n(old(ctx).history@, step_count(args@)),
        final(ctx).history@.wf(),
        final(ctx).cursor == redo_n_cursor(old(ctx).history@, step_count(args@), old(ctx).cursor),
        final(ctx).names == old(ctx).names,
        r matches Ok(s) ==> s@ == redo_message(old(ctx).history@, step_count(args@)),
        r is Err <==> (final(ctx).history@.cursor > old(ctx).history@.cursor
            && !decodes(final(ctx).history@.current_snapshot())),
        r matches Err(e) ==> e@ == "Redo: the history snapshot does not decode"@,
        r is Err || final(ctx).history@.cursor == old(ctx).history@.cursor ==> final(ctx).sketch == old(ctx).sketch,
        old(ctx).history@.restorable() ==> r is Ok && final(ctx).history@.restorable(),
{
    let n = parse_count(args, 1);
    let ghost m0 = ctx.history@;
    let ghost c0 = ctx.cursor;
    let mut i: usize = 0;
    let mut stop = false;
    let mut moved = false;
    while i < n && !stop
        invariant
            ctx.history@.wf(),
            i <= n,
            ctx.names == old(ctx).names,
            ctx.sketch == old(ctx).sketch,
            redo_n(ctx.history@, (n - i) as nat) == redo_n(m0, n as nat),
            redo_n_cursor(ctx.history@, (n - i) as nat, ctx.cursor) == redo_n_cursor(m0, n as nat, c0),
            redo_all(m0, n as nat) == (!stop && redo_all(ctx.history@, (n - i) as nat)),
            stop ==> !ctx.history@.can_redo(),
            ctx.history@.cursor >= m0.cursor,
            moved <==> ctx.history@.cursor > m0.cursor,
            m0.restorable() ==> ctx.history@.restorable(),
        decreases n - i, (if stop { 0int } else { 1int }),
    {
        let ghost h = ctx.history@;
        proof {
            if h.cursor < h.len() {
                lemma_redo_target(h.groups, h.cursor);
            }
        }
        let step = ctx.history.redo_snapshot();
        proof {
            if m0.restorable() {
                lemma_recorded_states_restore(h, 0, arbitrary(), seq![], seq![], arbitrary());
            }
        }
        match step {
            Some((_snapshot, c)) => {
                ctx.cursor = c;
                moved = true;
                i = i + 1;
            },
            None => {
                proof {
                    lemma_redo_n_stuck(h, (n - i) as nat, ctx.cursor);
                }
                stop = true;
            },
        }
    }
    proof {
        if stop {
            lemma_redo_n_stuck(ctx.history@, (n - i) as nat, ctx.cursor);
        }
        if m0.restorable() {
            lemma_recorded_states_restore(ctx.history@, 0, arbitrary(), seq![], seq![], arbitrary());
        }
    }
    if moved {
        // Restore the sketch of the position reached.
        if !ctx.restore_current() {
            return Err(string_of(&chars_of("Redo: the history snapshot does not decode")));
        }
    }
    if stop {
        let s = string_of(&chars_of("Nothing to redo"));
        Ok(s)
    } else {
        Ok(counted_message("Redone ", n, " step(s)"))
    }
}

// ---------------------------------------------------------------------------
// history
// ---------------------------------------------------------------------------

/// Lines joined with newlines.
pub open spec fn join_lines(lines: Seq<Seq<char>>) -> Seq<char>
    decreases lines.len(),
{
    if lines.len() == 0 {
        Seq::empty()
    } else if lines.len() == 1 {
        lines[0]
    } else {
        join_lines(lines.drop_last()) + "\n"@ + lines.last()
    }
}

/// The listing line of group `i` (0-based): `[i+1] label`, marked ` <--`
/// when the cursor stands right after the group.
pub open spec fn history_line(i: nat, label: Seq<char>, end: nat, cursor: nat) -> Seq<char> {
    "["@ + decimal(i + 1) + "] "@ + label + (if end == cursor {
        " <--"@
    } else {
        Seq::empty()
    })
}

/// The first listing line: the initial state, marked when the cursor is
/// there.
pub open spec fn history_header(cursor: nat) -> Seq<char> {
    if cursor == 0 {
        "[0] (initial state) <--"@
    } else {
        "[0] (initial state)"@
    }
}

/// The lines of the groups from `start` on.
pub open spec fn history_lines(runs: Seq<(u32, nat, Seq<char>)>, start: nat, cursor: nat) -> Seq<Seq<char>> {
    Seq::new(
        (runs.len() - start) as nat,
        |j: int| history_line((start + j) as nat, runs[start + j].2, runs[start + j].1, cursor),
    )
}

/// How many groups `history` lists: the number given, else all.
pub open spec fn history_count(args: Seq<char>) -> nat {
    match parse_usize_spec(trim(args)) {
        Some(n) => n as nat,
        None => usize::MAX as nat,
    }
}

/// The `history` listing of the last `n` groups, after the initial state.
pub open spec fn history_listing<A, C>(m: HistoryModel<A, C>, n: nat) -> Seq<char> {
    let runs = group_runs(m.groups, m.descriptions, 0);
    let start: nat = if n >= runs.len() {
        0
    } else {
        (runs.len() - n) as nat
    };
    join_lines(seq![history_header(m.cursor)] + history_lines(runs, start, m.cursor))
}

/// List the last `n` groups (the argument; all when it is not a number)
/// after the initial state, marking where the cursor stands.
pub fn cmd_history<A, C: Copy>(ctx: &CommandContext<A, C>, args: &str) -> (r: Result<String, String>)
    requires
        ctx.history@.wf(),
    ensures
        r matches Ok(s) && s@ == history_listing(ctx.history@, history_count(args@)),
{
    let n = parse_count(args, usize::MAX);
    let groups = ctx.history.group_list();
    let ghost runs = group_runs(ctx.history@.groups, ctx.history@.descriptions, 0);
    assert(groups@.map_values(|t: (u32, usize, String)| (t.0, t.1 as nat, t.2@)) == runs);
    let total = groups.len();
    let start = if n >= total { 0 } else { total - n };
    let cursor = ctx.history.cursor;
    let mut out: Vec<char> = Vec::new();
    if cursor == 0 {
        push_str(&mut out, "[0] (initial state) <--");
    } else {
        push_str(&mut out, "[0] (initial state)");
    }
    let ghost header = history_header(cursor as nat);
    assert(out@ =~= header);
    let mut i = start;
    while i < total
        invariant
            start <= i <= total == groups@.len() == runs.len(),
            groups@.map_values(|t: (u32, usize, String)| (t.0, t.1 as nat, t.2@)) == runs,
            out@ == join_lines(seq![header] + history_lines(runs, start as nat, cursor as nat).take(
                (i - start) as int,
            )),
        decreases total - i,
    {
        let ghost before = seq![header] + history_lines(runs, start as nat, cursor as nat).take(
            (i - start) as int,
        );
        let ghost line = history_line(i as nat, runs[i as int].2, runs[i as int].1, cursor as nat);
        assert(runs[i as int] == (groups@[i as int].0, groups@[i as int].1 as nat, groups@[i as int].2@));
        push_str(&mut out, "\n");
        push_str(&mut out, "[");
        push_decimal(&mut out, i + 1);
        push_str(&mut out, "] ");
        let label = chars_of(groups[i].2.as_str());
        push_seq(&mut out, &label);
        if groups[i].1 == cursor {
            push_str(&mut out, " <--");
        }
        proof {
            let after = seq![header] + history_lines(runs, start as nat, cursor as nat).take(
                (i + 1 - start) as int,
            );
            assert(after =~= before.push(line));
            assert(after.drop_last() =~= before);
            assert(out@ =~= join_lines(before) + "\n"@ + line);
        }
        i = i + 1;
    }
    assert(history_lines(runs, start as nat, cursor as nat).take((total - start) as int) =~= history_lines(
        runs,
        start as nat,
        cursor as nat,
    ));
    Ok(string_of(&out))
}

// ---------------------------------------------------------------------------
// zoom
// ---------------------------------------------------------------------------

/// What a `zoom` argument asks for. Applying it to the view scale is the
/// caller's: the scale is a float.
#[derive(Debug)]
pub enum ZoomStep {
    /// `+`: zoom in one step.
    In,
    /// `-`: zoom out one step.
    Out,
    /// Anything else: an absolute scale, as typed (trimmed), to be parsed
    /// as a number; the usage message applies when it is not one.
    Absolute(String),
}

/// Read a `zoom` argument: `+`, `-`, or an absolute scale.
pub fn cmd_zoom(args: &str) -> (r: ZoomStep)
    ensures
        trim(args@) == "+"@ ==> r is In,
        trim(args@) == "-"@ ==> r is Out,
        trim(args@) != "+"@ && trim(args@) != "-"@ ==> (r matches ZoomStep::Absolute(s) && s@ == trim(args@)),
{
    let a = chars_of(args);
    let t = trim_chars(&a);
    proof {
        reveal_strlit("+");
        reveal_strlit("-");
        assert("+"@[0] != "-"@[0]);
    }
    if crate::complete::eq_lit(&t, "+") {
        ZoomStep::In
    } else if crate::complete::eq_lit(&t, "-") {
        ZoomStep::Out
    } else {
        ZoomStep::Absolute(string_of(&t))
    }
}

// ---------------------------------------------------------------------------
// Dispatch
// ---------------------------------------------------------------------------

/// The position of the first whitespace character of `s` (its length when
/// there is none).
pub open spec fn first_ws(s: Seq<char>) -> nat
    decreases s.len(),
{
    if s.len() == 0 {
        0
    } else if is_ws(s[0]) {
        0
    } else {
        first_ws(s.drop_first()) + 1
    }
}

/// The command word of a command line.
pub open spec fn verb_of(line: Seq<char>) -> Seq<char> {
    trim(line).take(first_ws(trim(line)) as int)
}

/// The argument text of a command line: what follows the command word.
pub open spec fn args_of(line: Seq<char>) -> Seq<char> {
    trim(line).skip(first_ws(trim(line)) as int)
}

/// The history after a command line: `undo` and `redo` move it by their
/// step count; every other command leaves it.
pub open spec fn run_history<A, C>(before: HistoryModel<A, C>, cmd: Seq<char>) -> HistoryModel<A, C> {
    if verb_of(cmd) == "undo"@ {
        undo_n(before, step_count(args_of(cmd)))
    } else if verb_of(cmd) == "redo"@ {
        redo_n(before, step_count(args_of(cmd)))
    } else {
        before
    }
}

/// The cursor state after a command line.
pub open spec fn run_cursor<A, C>(before: HistoryModel<A, C>, c: C, cmd: Seq<char>) -> C {
    if verb_of(cmd) == "undo"@ {
        undo_n_cursor(before, step_count(args_of(cmd)), c)
    } else if verb_of(cmd) == "redo"@ {
        redo_n_cursor(before, step_count(args_of(cmd)), c)
    } else {
        c
    }
}

/// Whether a command fails, and its output: `undo` and `redo` fail only
/// when they moved the history and the snapshot reached does not decode;
/// `history` never fails; `msg` answers with its text as typed; any other
/// command word is unknown.
pub open spec fn run_reply<A, C>(before: HistoryModel<A, C>, cmd: Seq<char>) -> (bool, Seq<char>) {
    let k = step_count(args_of(cmd));
    if verb_of(cmd) == "undo"@ {
        let after = undo_n(before, k);
        if after.cursor < before.cursor && !decodes(after.current_snapshot()) {
            (true, "Undo: the history snapshot does not decode"@)
        } else {
            (false, undo_message(before, k))
        }
    } else if verb_of(cmd) == "redo"@ {
        let after = redo_n(before, k);
        if after.cursor > before.cursor && !decodes(after.current_snapshot()) {
            (true, "Redo: the history snapshot does not decode"@)
        } else {
            (false, redo_message(before, k))
        }
    } else if verb_of(cmd) == "history"@ {
        (false, history_listing(before, history_count(args_of(cmd))))
    } else if verb_of(cmd) == "msg"@ {
        (false, trim(args_of(cmd)))
    } else {
        (true, "Unknown command: "@ + verb_of(cmd))
    }
}

proof fn lemma_first_ws(s: Seq<char>, i: nat)
    requires
        i <= s.len(),
        forall|j: int| 0 <= j < i ==> !is_ws(#[trigger] s[j]),
        i == s.len() || is_ws(s[i as int]),
    ensures
        first_ws(s) == i,
    decreases i,
{
    if i > 0 {
        lemma_first_ws(s.drop_first(), (i - 1) as nat);
    }
}

/// Split a command into its command word and argument text.
fn split_command(line: &Vec<char>) -> (r: (Vec<char>, Vec<char>))
    ensures
        r.0@ == verb_of(line@),
        r.1@ == args_of(line@),
{
    let t = trim_chars(line);
    let mut i: usize = 0;
    while i < t.len() && !is_whitespace(t[i])
        invariant
            i <= t@.len(),
            forall|j: int| 0 <= j < i ==> !is_ws(#[trigger] t@[j]),
        decreases t@.len() - i,
    {
        i = i + 1;
    }
    proof {
        lemma_first_ws(t@, i as nat);
    }
    let verb = slice_chars(&t, 0, i);
    let rest = slice_chars(&t, i, t.len());
    assert(verb@ =~= t@.take(i as int));
    assert(rest@ =~= t@.skip(i as int));
    (verb, rest)
}

/// A result from a command's `Ok`/`Err`.
fn result_of(r: Result<String, String>) -> (c: CommandResult)
    ensures
        c.is_error == (r is Err),
        r matches Ok(s) ==> c.output == s,
        r matches Err(e) ==> c.output == e,
{
    match r {
        Ok(s) => CommandResult { output: s, is_error: false },
        Err(e) => CommandResult { output: e, is_error: true },
    }
}

/// Run one command: `undo`, `redo` and `history` with the argument text
/// after the command word, `msg` with its text; any other command word is
/// reported as unknown and changes nothing.
pub fn run_command<A, C: Copy>(ctx: &mut CommandContext<A, C>, cmd: &Vec<char>) -> (r: CommandResult)
    requires
        old(ctx).history@.wf(),
    ensures
        final(ctx).history@.wf(),
        final(ctx).names == old(ctx).names,
        final(ctx).history@ == run_history(old(ctx).history@, cmd@),
        final(ctx).cursor == run_cursor(old(ctx).history@, old(ctx).cursor, cmd@),
        (r.is_error, r.output@) == run_reply(old(ctx).history@, cmd@),
        r.is_error || final(ctx).history@.cursor == old(ctx).history@.cursor ==> final(ctx).sketch == old(ctx).sketch,
        old(ctx).history@.restorable() ==> final(ctx).history@.restorable(),
        verb_of(cmd@) != "undo"@ && verb_of(cmd@) != "redo"@ ==> final(ctx).history == old(ctx).history
            && final(ctx).cursor == old(ctx).cursor && final(ctx).sketch == old(ctx).sketch,
{
    let (verb, args) = split_command(cmd);
    let args = string_of(&args);
    proof {
        reveal_strlit("undo");
        reveal_strlit("redo");
        reveal_strlit("history");
        reveal_strlit("msg");
        assert("undo"@[0] != "redo"@[0]);
        assert("undo"@.len() != "history"@.len());
        assert("redo"@.len() != "history"@.len());
        assert("msg"@.len() != "undo"@.len());
        assert("msg"@.len() != "history"@.len());
    }
    if crate::complete::eq_lit(&verb, "undo") {
        result_of(cmd_undo(ctx, args.as_str()))
    } else if crate::complete::eq_lit(&verb, "redo") {
        result_of(cmd_redo(ctx, args.as_str()))
    } else if crate::complete::eq_lit(&verb, "history") {
        result_of(cmd_history(ctx, args.as_str()))
    } else if crate::complete::eq_lit(&verb, "msg") {
        let a = chars_of(args.as_str());
        let text = trim_chars(&a);
        CommandResult { output: string_of(&text), is_error: false }
    } else {
        let mut out = chars_of("Unknown command: ");
        push_seq(&mut out, &verb);
        CommandResult { output: string_of(&out), is_error: true }
    }
}

// ---------------------------------------------------------------------------
// Command lines
// ---------------------------------------------------------------------------

/// The pieces of a command line between `;` separators, in order; an empty
/// piece where two separators meet or at an end.
pub open spec fn split_semis(s: Seq<char>) -> Seq<Seq<char>>
    decreases s.len(),
{
    if s.len() == 0 {
        seq![Seq::empty()]
    } else {
        let p = split_semis(s.drop_last());
        if s.last() == ';' {
            p.push(Seq::empty())
        } else {
            p.update(p.len() - 1, p.last().push(s.last()))
        }
    }
}

proof fn lemma_split_semis_len(s: Seq<char>)
    ensures
        split_semis(s).len() >= 1,
    decreases s.len(),
{
    if s.len() > 0 {
        lemma_split_semis_len(s.drop_last());
    }
}

/// The position of the first `#` of `s` (its length when there is none).
pub open spec fn first_hash(s: Seq<char>) -> nat
    decreases s.len(),
{
    if s.len() == 0 {
        0
    } else if s[0] == '#' {
        0
    } else {
        first_hash(s.drop_first()) + 1
    }
}

proof fn lemma_first_hash(s: Seq<char>, i: nat)
    requires
        i <= s.len(),
        forall|j: int| 0 <= j < i ==> #[trigger] s[j] != '#',
        i == s.len() || s[i as int] == '#',
    ensures
        first_hash(s) == i,
    decreases i,
{
    if i > 0 {
        lemma_first_hash(s.drop_first(), (i - 1) as nat);
    }
}

/// The command a piece of a line holds: a `msg` piece trimmed, as typed;
/// any other with the comment from its first `#` on cut off, trimmed.
/// `None` for a piece with no command in it.
pub open spec fn command_of(piece: Seq<char>) -> Option<Seq<char>> {
    let t = if verb_of(piece) == "msg"@ {
        trim(piece)
    } else {
        trim(piece.take(first_hash(piece) as int))
    };
    if t.len() == 0 {
        None
    } else {
        Some(t)
    }
}

/// The commands of a sequence of pieces, in order, skipping the empty ones.
pub open spec fn commands_in(pieces: Seq<Seq<char>>) -> Seq<Seq<char>>
    decreases pieces.len(),
{
    if pieces.len() == 0 {
        seq![]
    } else {
        let r = commands_in(pieces.drop_last());
        match command_of(pieces.last()) {
            Some(c) => r.push(c),
            None => r,
        }
    }
}

/// The commands of a command line.
pub open spec fn line_commands(line: Seq<char>) -> Seq<Seq<char>> {
    commands_in(split_semis(line))
}

/// Running commands one after another from history `h` and cursor state
/// `c`: the history and cursor state after them, and each command's
/// failure flag and output, in order.
pub open spec fn run_all<A, C>(h: HistoryModel<A, C>, c: C, cmds: Seq<Seq<char>>) -> (
    HistoryModel<A, C>,
    C,
    Seq<(bool, Seq<char>)>,
)
    decreases cmds.len(),
{
    if cmds.len() == 0 {
        (h, c, seq![])
    } else {
        let prev = run_all(h, c, cmds.drop_last());
        let cmd = cmds.last();
        (
            run_history(prev.0, cmd),
            run_cursor(prev.0, prev.1, cmd),
            prev.2.push(run_reply(prev.0, cmd)),
        )
    }
}

proof fn lemma_run_all_len<A, C>(h: HistoryModel<A, C>, c: C, cmds: Seq<Seq<char>>)
    ensures
        run_all(h, c, cmds).2.len() == cmds.len(),
    decreases cmds.len(),
{
    if cmds.len() > 0 {
        lemma_run_all_len(h, c, cmds.drop_last());
    }
}

/// The pieces of a line between `;` separators.
fn split_pieces(line: &str) -> (r: Vec<Vec<char>>)
    ensures
        r@.map_values(|v: Vec<char>| v@) == split_semis(line@),
{
    let s = chars_of(line);
    let mut done: Vec<Vec<char>> = Vec::new();
    let mut cur: Vec<char> = Vec::new();
    let mut i: usize = 0;
    assert(s@.take(0) =~= Seq::<char>::empty());
    assert(done@.map_values(|v: Vec<char>| v@).push(cur@) =~= seq![Seq::<char>::empty()]);
    while i < s.len()
        invariant
            i <= s@.len(),
            done@.map_values(|v: Vec<char>| v@).push(cur@) == split_semis(s@.take(i as int)),
        decreases s@.len() - i,
    {
        let ghost before = done@.map_values(|v: Vec<char>| v@).push(cur@);
        proof {
            assert(s@.take(i + 1).drop_last() =~= s@.take(i as int));
            lemma_split_semis_len(s@.take(i as int));
        }
        if s[i] == ';' {
            let piece = cur;
            done.push(piece);
            cur = Vec::new();
            assert(done@.map_values(|v: Vec<char>| v@).push(cur@) =~= before.push(Seq::empty()));
        } else {
            cur.push(s[i]);
            assert(done@.map_values(|v: Vec<char>| v@).push(cur@) =~= before.update(
                before.len() - 1,
                before.last().push(s@[i as int]),
            ));
        }
        i = i + 1;
    }
    done.push(cur);
    assert(s@.take(s@.len() as int) =~= s@);
    done
}

/// The command a piece holds (see [`command_of`]).
fn command_in(piece: &Vec<char>) -> (r: Option<Vec<char>>)
    ensures
        r matches Some(c) ==> command_of(piece@) == Some(c@),
        r is None ==> command_of(piece@) is None,
{
    let (verb, _args) = split_command(piece);
    let t = if crate::complete::eq_lit(&verb, "msg") {
        trim_chars(piece)
    } else {
        let mut i: usize = 0;
        while i < piece.len() && piece[i] != '#'
            invariant
                i <= piece@.len(),
                forall|j: int| 0 <= j < i ==> #[trigger] piece@[j] != '#',
            decreases piece@.len() - i,
        {
            i = i + 1;
        }
        proof {
            lemma_first_hash(piece@, i as nat);
        }
        let body = slice_chars(piece, 0, i);
        assert(body@ =~= piece@.take(i as int));
        trim_chars(&body)
    };
    if t.len() == 0 {
        None
    } else {
        Some(t)
    }
}

/// Run every command of a line, in order: the pieces between `;`
/// separators, each without its comment (a `msg` keeps its text as typed),
/// skipping the empty ones. One result per command.
pub fn execute<A, C: Copy>(ctx: &mut CommandContext<A, C>, line: &str) -> (rs: Vec<CommandResult>)
    requires
        old(ctx).history@.wf(),
    ensures
        final(ctx).history@.wf(),
        final(ctx).names == old(ctx).names,
        final(ctx).history@ == run_all(old(ctx).history@, old(ctx).cursor, line_commands(line@)).0,
        final(ctx).cursor == run_all(old(ctx).history@, old(ctx).cursor, line_commands(line@)).1,
        rs@.map_values(|r: CommandResult| (r.is_error, r.output@)) == run_all(
            old(ctx).history@,
            old(ctx).cursor,
            line_commands(line@),
        ).2,
        old(ctx).history@.restorable() ==> final(ctx).history@.restorable(),
{
    let pieces = split_pieces(line);
    let ghost ps = split_semis(line@);
    let ghost h0 = ctx.history@;
    let ghost c0 = ctx.cursor;
    let mut rs: Vec<CommandResult> = Vec::new();
    let mut i: usize = 0;
    assert(ps.take(0) =~= Seq::<Seq<char>>::empty());
    assert(rs@.map_values(|r: CommandResult| (r.is_error, r.output@)) =~= Seq::<(bool, Seq<char>)>::empty());
    while i < pieces.len()
        invariant
            ctx.history@.wf(),
            ctx.names == old(ctx).names,
            h0 == old(ctx).history@,
            c0 == old(ctx).cursor,
            pieces@.map_values(|v: Vec<char>| v@) == ps,
            i <= pieces@.len(),
            ctx.history@ == run_all(h0, c0, commands_in(ps.take(i as int))).0,
            ctx.cursor == run_all(h0, c0, commands_in(ps.take(i as int))).1,
            rs@.map_values(|r: CommandResult| (r.is_error, r.output@)) == run_all(
                h0,
                c0,
                commands_in(ps.take(i as int)),
            ).2,
            h0.restorable() ==> ctx.history@.restorable(),
        decreases pieces@.len() - i,
    {
        proof {
            assert(ps.take(i + 1).drop_last() =~= ps.take(i as int));
            assert(ps.take(i + 1).last() == pieces@[i as int]@);
        }
        match command_in(&pieces[i]) {
            Some(c) => {
                let ghost before = rs@.map_values(|r: CommandResult| (r.is_error, r.output@));
                let ghost cmds = commands_in(ps.take(i + 1));
                assert(cmds.drop_last() =~= commands_in(ps.take(i as int)));
                let r = run_command(ctx, &c);
                rs.push(r);
                assert(rs@.map_values(|r: CommandResult| (r.is_error, r.output@)) =~= before.push(
                    (r.is_error, r.output@),
                ));
            },
            None => {},
        }
        i = i + 1;
    }
    assert(ps.take(pieces@.len() as int) =~= ps);
    rs
}

/// Run a command line and give the result of its first command (a line
/// holds at least one).
pub fn run<A, C: Copy>(ctx: &mut CommandContext<A, C>, cmd: &str) -> (r: CommandResult)
    requires
        old(ctx).history@.wf(),
        line_commands(cmd@).len() > 0,
    ensures
        final(ctx).history@.wf(),
        final(ctx).names == old(ctx).names,
        final(ctx).history@ == run_all(old(ctx).history@, old(ctx).cursor, line_commands(cmd@)).0,
        final(ctx).cursor == run_all(old(ctx).history@, old(ctx).cursor, line_commands(cmd@)).1,
        (r.is_error, r.output@) == run_all(old(ctx).history@, old(ctx).cursor, line_commands(cmd@)).2[0],
        old(ctx).history@.restorable() ==> final(ctx).history@.restorable(),
{
    let mut rs = execute(ctx, cmd);
    proof {
        lemma_run_all_len(old(ctx).history@, old(ctx).cursor, line_commands(cmd@));
        assert(rs@.map_values(|r: CommandResult| (r.is_error, r.output@))[0] == (rs@[0].is_error, rs@[0].output@));
    }
    rs.remove(0)
}

/// The output of a line's first command, which succeeds.
pub fn run_ok<A, C: Copy>(ctx: &mut CommandContext<A, C>, cmd: &str) -> (r: String)
    requires
        old(ctx).history@.wf(),
        line_commands(cmd@).len() > 0,
        !run_all(old(ctx).history@, old(ctx).cursor, line_commands(cmd@)).2[0].0,
    ensures
        final(ctx).history@.wf(),
        final(ctx).names == old(ctx).names,
        final(ctx).history@ == run_all(old(ctx).history@, old(ctx).cursor, line_commands(cmd@)).0,
        final(ctx).cursor == run_all(old(ctx).history@, old(ctx).cursor, line_commands(cmd@)).1,
        r@ == run_all(old(ctx).history@, old(ctx).cursor, line_commands(cmd@)).2[0].1,
{
    let res = run(ctx, cmd);
    res.output
}

/// The output of a line's first command, which fails.
pub fn run_err<A, C: Copy>(ctx: &mut CommandContext<A, C>, cmd: &str) -> (r: String)
    requires
        old(ctx).history@.wf(),
        line_commands(cmd@).len() > 0,
        run_all(old(ctx).history@, old(ctx).cursor, line_commands(cmd@)).2[0].0,
    ensures
        final(ctx).history@.wf(),
        final(ctx).names == old(ctx).names,
        final(ctx).history@ == run_all(old(ctx).history@, old(ctx).cursor, line_commands(cmd@)).0,
        final(ctx).cursor == run_all(old(ctx).history@, old(ctx).cursor, line_commands(cmd@)).1,
        r@ == run_all(old(ctx).history@, old(ctx).cursor, line_commands(cmd@)).2[0].1,
{
    let res = run(ctx, cmd);
    res.output
}

// ---------------------------------------------------------------------------
// Completion
// ---------------------------------------------------------------------------

/// The completions of the whole command line `input`.
pub fn completions<A, C>(ctx: &CommandContext<A, C>, input: &str) -> (r: Vec<String>)
    ensures
        views(r@) == crate::complete::completion(ctx.names@, input@),
{
    let n = input.unicode_len();
    let r = complete(&ctx.names, input, n);
    assert(input@.take(n as int) =~= input@);
    r
}

/// Append a name spelled by a literal.
fn add_name(names: &mut Vec<String>, name: &str)
    ensures
        views(final(names)@) == views(old(names)@).push(name@),
{
    names.push(string_of(&chars_of(name)));
    assert(views(names@) =~= views(old(names)@).push(name@));
}

/// The completion fixture: two lines `L0` `L1`, a point `P0`, a circle
/// `A0`, a dimension `d0` and a parameter `width`, as a sketch built by
/// `add_line 0,0 5,0`, `add_line 5,0 5,5`, `add_point 2,3`,
/// `add_circle 3,3 2`, `length L0 5` and `param width 10` names them.
pub fn setup_complete_ctx<A, C: Copy + Default>() -> (ctx: CommandContext<A, C>)
    ensures
        ctx.history@.wf(),
        ctx.names@.lines == seq!["L0"@, "L1"@],
        ctx.names@.points == seq!["P0"@],
        ctx.names@.arcs == seq!["A0"@],
        ctx.names@.dims == seq!["d0"@],
        ctx.names@.params == seq!["width"@],
        ctx.names@.metas.len() == 0,
        ctx.names@.constraints.len() == 0,
        ctx.names@.session.len() == 0,
{
    let mut ctx = CommandContext::new(C::default());
    add_name(&mut ctx.names.lines, "L0");
    add_name(&mut ctx.names.lines, "L1");
    add_name(&mut ctx.names.points, "P0");
    add_name(&mut ctx.names.arcs, "A0");
    add_name(&mut ctx.names.dims, "d0");
    add_name(&mut ctx.names.params, "width");
    assert(ctx.names@.lines =~= seq!["L0"@, "L1"@]);
    assert(ctx.names@.points =~= seq!["P0"@]);
    assert(ctx.names@.arcs =~= seq!["A0"@]);
    assert(ctx.names@.dims =~= seq!["d0"@]);
    assert(ctx.names@.params =~= seq!["width"@]);
    ctx
}

} // verus!
