use arael_sketch_backend::commands::{
    cmd_history, cmd_redo, cmd_undo, cmd_zoom, execute, run, run_err, run_ok, CommandContext, ZoomStep,
};
use arael_sketch_solver::Sketch;

type Ctx = CommandContext<&'static str, u32>;

/// A context with three groups: [a] [b c] [d].
fn ctx3() -> Ctx {
    let mut ctx: Ctx = CommandContext::new(0);
    let s = Sketch::new();
    ctx.history.begin_group();
    ctx.history.push("a", "add_line a".to_string(), &s, 10);
    ctx.history.begin_group();
    ctx.history.push("b", "add_line b".to_string(), &s, 20);
    ctx.history.push("c", "coincident b".to_string(), &s, 21);
    ctx.history.begin_group();
    ctx.history.push("d", "length d".to_string(), &s, 30);
    ctx
}

#[test]
fn undo_one_step() {
    let mut ctx = ctx3();
    assert_eq!(cmd_undo(&mut ctx, ""), Ok("Undone 1 step(s)".to_string()));
    assert_eq!((ctx.history.cursor, ctx.cursor), (3, 30));
}

#[test]
fn undo_counted_steps() {
    let mut ctx = ctx3();
    assert_eq!(cmd_undo(&mut ctx, " 2 "), Ok("Undone 2 step(s)".to_string()));
    assert_eq!((ctx.history.cursor, ctx.cursor), (1, 20));
}

#[test]
fn undo_past_the_start() {
    let mut ctx = ctx3();
    assert_eq!(cmd_undo(&mut ctx, "5"), Ok("Nothing to undo".to_string()));
    assert_eq!((ctx.history.cursor, ctx.cursor), (0, 10));
    assert_eq!(cmd_undo(&mut ctx, ""), Ok("Nothing to undo".to_string()));
}

#[test]
fn undo_non_numeric_argument_is_one_step() {
    let mut ctx = ctx3();
    assert_eq!(cmd_undo(&mut ctx, "x"), Ok("Undone 1 step(s)".to_string()));
    assert_eq!(cmd_undo(&mut ctx, "-1"), Ok("Undone 1 step(s)".to_string()));
    assert_eq!(ctx.history.cursor, 1);
}

#[test]
fn undo_zero_steps() {
    let mut ctx = ctx3();
    assert_eq!(cmd_undo(&mut ctx, "0"), Ok("Undone 0 step(s)".to_string()));
    assert_eq!(ctx.history.cursor, 4);
}

#[test]
fn redo_steps_and_stops() {
    let mut ctx = ctx3();
    cmd_undo(&mut ctx, "3").unwrap();
    assert_eq!(cmd_redo(&mut ctx, "+2"), Ok("Redone 2 step(s)".to_string()));
    assert_eq!((ctx.history.cursor, ctx.cursor), (3, 30));
    assert_eq!(cmd_redo(&mut ctx, "2"), Ok("Nothing to redo".to_string()));
    assert_eq!((ctx.history.cursor, ctx.cursor), (4, 30));
}

#[test]
fn history_lists_groups_and_cursor() {
    let mut ctx = ctx3();
    assert_eq!(
        cmd_history(&ctx, ""),
        Ok("[0] (initial state)\n[1] add_line a\n[2] add_line b (+1)\n[3] length d <--".to_string())
    );
    cmd_undo(&mut ctx, "3").unwrap();
    assert_eq!(
        cmd_history(&ctx, "2"),
        Ok("[0] (initial state) <--\n[2] add_line b (+1)\n[3] length d".to_string())
    );
    assert_eq!(cmd_history(&ctx, "0"), Ok("[0] (initial state) <--".to_string()));
}

#[test]
fn history_of_an_empty_log() {
    let ctx: Ctx = CommandContext::new(0);
    assert_eq!(cmd_history(&ctx, "abc"), Ok("[0] (initial state) <--".to_string()));
}

#[test]
fn zoom_steps() {
    assert!(matches!(cmd_zoom(" + "), ZoomStep::In));
    assert!(matches!(cmd_zoom("-"), ZoomStep::Out));
    match cmd_zoom(" 2.0 ") {
        ZoomStep::Absolute(s) => assert_eq!(s, "2.0"),
        _ => panic!("absolute expected"),
    }
}

#[test]
fn run_dispatches_history_commands() {
    let mut ctx = ctx3();
    let r = run(&mut ctx, "  undo 2");
    assert!(!r.is_error);
    assert_eq!(r.output, "Undone 2 step(s)");
    assert_eq!(run_ok(&mut ctx, "redo"), "Redone 1 step(s)");
    assert_eq!(ctx.history.cursor, 3);
    assert!(run_ok(&mut ctx, "history").contains("(+1) <--\n[3] length d"));
}

#[test]
fn run_reports_unknown_commands() {
    let mut ctx = ctx3();
    assert_eq!(run_err(&mut ctx, "foobar 1 2"), "Unknown command: foobar");
    assert!(!run(&mut ctx, "undo").is_error);
    assert_eq!(ctx.history.cursor, 3);
}

#[test]
fn a_line_runs_every_command_and_answers_with_the_first() {
    let mut ctx = ctx3();
    let r = run(&mut ctx, "undo 2; redo");
    assert!(!r.is_error);
    assert_eq!(r.output, "Undone 2 step(s)");
    // Both ran: two groups back, one forward.
    assert_eq!((ctx.history.cursor, ctx.cursor), (3, 30));
}

#[test]
fn execute_gives_one_result_per_command() {
    let mut ctx = ctx3();
    let rs = execute(&mut ctx, "undo;; redo 5 ;foobar # a comment; # only a comment");
    let got: Vec<(bool, String)> = rs.into_iter().map(|r| (r.is_error, r.output)).collect();
    assert_eq!(
        got,
        vec![
            (false, "Undone 1 step(s)".to_string()),
            (false, "Nothing to redo".to_string()),
            (true, "Unknown command: foobar".to_string()),
        ]
    );
    assert_eq!(ctx.history.cursor, 4);
    assert!(execute(&mut ctx, " ; # nothing here").is_empty());
}

#[test]
fn msg_text_is_verbatim() {
    let mut ctx: Ctx = CommandContext::new(0);
    assert_eq!(run_ok(&mut ctx, "msg use the force # not a comment"), "use the force # not a comment");
    assert_eq!(run_ok(&mut ctx, "msg   spaced out  "), "spaced out");
    assert_eq!(run_ok(&mut ctx, "history # the log"), "[0] (initial state) <--");
}

#[test]
fn undo_and_redo_restore_recorded_states() {
    let mut ctx = ctx3();
    // Every recorded state reads back: moving never fails.
    assert_eq!(run_ok(&mut ctx, "undo 3"), "Undone 3 step(s)");
    assert_eq!(run_ok(&mut ctx, "redo 3"), "Redone 3 step(s)");
    assert_eq!((ctx.history.cursor, ctx.cursor), (4, 30));
}
