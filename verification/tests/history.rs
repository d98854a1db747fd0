use arael_sketch_backend::history::History;
use arael_sketch_solver::Sketch;

fn log() -> History<&'static str, u32> {
    // Three groups: [a] [b c] [d]
    let mut h = History::from_snapshot(vec![0]);
    h.begin_group();
    h.push_snapshot("a", "add a".to_string(), vec![1], 10);
    h.begin_group();
    h.push_snapshot("b", "add b".to_string(), vec![2], 20);
    h.push_snapshot("c", "add c".to_string(), vec![3], 21);
    h.begin_group();
    h.push_snapshot("d", "add d".to_string(), vec![4], 30);
    h
}

#[test]
fn new_history_is_empty() {
    let h: History<&str, u32> = History::new(&Sketch::new());
    assert!(!h.can_undo());
    assert!(!h.can_redo());
    assert_eq!(h.cursor, 0);
    assert_eq!(h.next_group, 1);
    assert_eq!(h.current_group, 0);
    assert!(h.group_list().is_empty());
}

#[test]
fn push_records_and_drops_redo_tail() {
    let mut h = log();
    assert_eq!(h.cursor, 4);
    assert!(h.can_undo());
    assert!(!h.can_redo());
    h.undo_snapshot().unwrap();
    assert!(h.can_redo());
    h.push_snapshot("e", "add e".to_string(), vec![5], 40);
    assert!(!h.can_redo());
    assert_eq!(h.actions, vec!["a", "b", "c", "e"]);
    assert_eq!(h.current_snapshot(), &vec![5]);
}

#[test]
fn undo_steps_over_whole_groups() {
    let mut h = log();
    let (s, c) = h.undo_snapshot().unwrap();
    assert_eq!((s, c, h.cursor), (vec![3], 30, 3));
    // The two-action group goes in one step, restoring the cursor state
    // saved with its first action.
    let (s, c) = h.undo_snapshot().unwrap();
    assert_eq!((s, c, h.cursor), (vec![1], 20, 1));
    let (s, c) = h.undo_snapshot().unwrap();
    assert_eq!((s, c, h.cursor), (vec![0], 10, 0));
    assert!(h.undo_snapshot().is_none());
    assert_eq!(h.cursor, 0);
}

#[test]
fn redo_steps_over_whole_groups() {
    let mut h = log();
    h.goto_snapshot(0).unwrap();
    let (s, c) = h.redo_snapshot().unwrap();
    assert_eq!((s, c, h.cursor), (vec![1], 20, 1));
    let (s, c) = h.redo_snapshot().unwrap();
    assert_eq!((s, c, h.cursor), (vec![3], 30, 3));
    // The newest group: no later entry, so its own saved state.
    let (s, c) = h.redo_snapshot().unwrap();
    assert_eq!((s, c, h.cursor), (vec![4], 30, 4));
    assert!(h.redo_snapshot().is_none());
}

#[test]
fn redo_after_undo_restores_state() {
    let mut h = log();
    h.goto_snapshot(3).unwrap();
    let before = (h.cursor, h.current_snapshot().clone());
    h.undo_snapshot().unwrap();
    assert_ne!(h.cursor, before.0);
    h.redo_snapshot().unwrap();
    assert_eq!((h.cursor, h.current_snapshot().clone()), before);
}

#[test]
fn undo_after_redo_restores_state() {
    let mut h = log();
    h.goto_snapshot(1).unwrap();
    h.redo_snapshot().unwrap();
    assert_eq!(h.cursor, 3);
    h.undo_snapshot().unwrap();
    assert_eq!((h.cursor, h.current_snapshot().clone()), (1, vec![1]));
}

#[test]
fn undo_reverts_a_grouped_push() {
    let mut h = log();
    h.goto_snapshot(3).unwrap();
    let before = h.current_snapshot().clone();
    h.begin_group();
    h.push_snapshot("x", "add x".to_string(), vec![9], 77);
    let (s, c) = h.undo_snapshot().unwrap();
    assert_eq!((h.cursor, s, c), (3, before, 77));
}

#[test]
fn pushes_without_begin_group_share_group_zero() {
    let mut h: History<&str, u32> = History::from_snapshot(vec![0]);
    h.push_snapshot("a", "a".to_string(), vec![1], 1);
    h.push_snapshot("b", "b".to_string(), vec![2], 2);
    assert_eq!(h.groups, vec![0, 0]);
    let (s, c) = h.undo_snapshot().unwrap();
    assert_eq!((h.cursor, s, c), (0, vec![0], 1));
}

#[test]
fn goto_reaches_group_boundaries() {
    let mut h = log();
    assert_eq!(h.goto_snapshot(1).unwrap(), (vec![1], 20));
    assert_eq!(h.cursor, 1);
    assert_eq!(h.goto_snapshot(4).unwrap(), (vec![4], 30));
    assert_eq!(h.cursor, 4);
    assert!(h.goto_snapshot(4).is_none());
    // Inside a group: undo over it, then redo back across it.
    assert_eq!(h.goto_snapshot(2).unwrap(), (vec![3], 30));
    assert_eq!(h.cursor, 3);
    // Past the end: moves to the end and reports nothing.
    h.goto_snapshot(0).unwrap();
    assert!(h.goto_snapshot(9).is_none());
    assert_eq!(h.cursor, 4);
}

#[test]
fn group_list_labels_runs() {
    let h = log();
    let g = h.group_list();
    assert_eq!(
        g,
        vec![
            (1, 1, "add a".to_string()),
            (2, 3, "add b (+1)".to_string()),
            (3, 4, "add d".to_string()),
        ]
    );
}

#[test]
fn group_list_counts_long_runs() {
    let mut h: History<u8, u8> = History::from_snapshot(vec![]);
    for i in 0..12u8 {
        h.push_snapshot(i, format!("step {}", i), vec![i], i);
    }
    assert_eq!(h.group_list(), vec![(0, 12, "step 0 (+11)".to_string())]);
}

#[test]
fn sketch_undo_redo_round_trip() {
    let sketch = Sketch::new();
    let mut h: History<&str, u32> = History::new(&sketch);
    h.begin_group();
    h.push("noop", "noop".to_string(), &sketch, 5);
    let (_s, c) = h.undo().expect("the initial snapshot decodes");
    assert_eq!((c, h.cursor), (5, 0));
    assert!(h.undo().is_none());
    let (_s, c) = h.redo().expect("the pushed snapshot decodes");
    assert_eq!((c, h.cursor), (5, 1));
    assert!(h.redo().is_none());
    assert!(h.goto(0).is_some());
    // The current position is a valid target: its state comes back.
    let (_s, c) = h.goto(0).expect("the current state decodes");
    assert_eq!((c, h.cursor), (5, 0));
    assert!(h.goto(7).is_none());
    assert_eq!(h.cursor, 1);
}

#[test]
fn goto_current_position_of_an_empty_history() {
    let sketch = Sketch::new();
    let mut h: History<&str, u32> = History::new(&sketch);
    let (_s, c) = h.goto(0).expect("the initial snapshot decodes");
    assert_eq!((c, h.cursor), (0, 0));
}

#[test]
fn a_corrupt_snapshot_does_not_restore() {
    let mut h: History<&str, u32> = History::from_snapshot(vec![]);
    h.push_snapshot("a", "a".to_string(), vec![1, 2, 3], 1);
    // The cursor still moves; no sketch comes back.
    assert!(h.undo().is_none());
    assert_eq!(h.cursor, 0);
}

#[test]
fn push_stores_the_given_sketch() {
    let empty = Sketch::new();
    let mut h: History<&str, u32> = History::new(&empty);
    assert_eq!(h.initial_snapshot, bincode::serialize(&empty).unwrap());
    h.begin_group();
    h.push("noop", "noop".to_string(), &empty, 1);
    assert_eq!(h.snapshots[0], bincode::serialize(&empty).unwrap());
    assert_eq!(h.current_snapshot(), &bincode::serialize(&empty).unwrap());
}
