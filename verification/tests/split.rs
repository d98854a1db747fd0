use arael_sketch_backend::split::{
    all_kept, expression_map, first_kept_piece, map_endpoint, piece_at_or_nearest, piece_count,
    post_split_actions, Cutter, EndpointRef, FollowUp, PieceRef, SplitTarget,
};

fn renamed(map: &[(String, String)], from: &str) -> Option<String> {
    map.iter().find(|(a, _)| a == from).map(|(_, b)| b.clone())
}

#[test]
fn piece_count_open_and_closed() {
    assert_eq!(piece_count(false, 1), 2);
    assert_eq!(piece_count(false, 3), 4);
    assert_eq!(piece_count(true, 3), 3);
}

#[test]
fn piece_lookups() {
    let pieces = vec![None, Some(PieceRef::Line(2)), None, None, Some(PieceRef::Line(4))];
    assert_eq!(first_kept_piece(&pieces), Some(PieceRef::Line(2)));
    assert_eq!(piece_at_or_nearest(&pieces, 1), Some(PieceRef::Line(2)));
    // Index 2: distance 1 below wins over nothing above.
    assert_eq!(piece_at_or_nearest(&pieces, 2), Some(PieceRef::Line(2)));
    // Index 3: the upper neighbour at distance 1 is nearer than the lower one.
    assert_eq!(piece_at_or_nearest(&pieces, 3), Some(PieceRef::Line(4)));
    assert!(!all_kept(&pieces));
    assert!(all_kept(&vec![Some(PieceRef::Arc(1)), Some(PieceRef::Arc(2))]));
    assert_eq!(first_kept_piece(&vec![None, None]), None);
    assert_eq!(piece_at_or_nearest(&vec![None, None], 0), None);
}

#[test]
fn map_endpoint_follows_owning_piece() {
    let t = SplitTarget::Line(0);
    let pieces = vec![Some(PieceRef::Line(2)), Some(PieceRef::Line(3))];
    assert_eq!(map_endpoint(EndpointRef::LineP1(0), t, &pieces), Ok(EndpointRef::LineP1(2)));
    assert_eq!(map_endpoint(EndpointRef::LineP2(0), t, &pieces), Ok(EndpointRef::LineP2(3)));
    // Other entities' points are unchanged.
    assert_eq!(map_endpoint(EndpointRef::LineP2(7), t, &pieces), Ok(EndpointRef::LineP2(7)));
    // A trimmed first piece loses the start.
    let trimmed = vec![None, Some(PieceRef::Line(3))];
    assert_eq!(map_endpoint(EndpointRef::LineP1(0), t, &trimmed), Err(()));
    let arc_pieces = vec![None, Some(PieceRef::Arc(5)), Some(PieceRef::Arc(6))];
    assert_eq!(
        map_endpoint(EndpointRef::ArcCenter(1), SplitTarget::Arc(1), &arc_pieces),
        Ok(EndpointRef::ArcCenter(5))
    );
    assert_eq!(map_endpoint(EndpointRef::ArcEnd(1), SplitTarget::Arc(1), &arc_pieces), Ok(EndpointRef::ArcEnd(6)));
}

#[test]
fn post_split_joins_and_pins_line_pieces() {
    let acts = post_split_actions(&vec![Some(Cutter::Line(1))], &vec![Some(PieceRef::Line(2)), Some(PieceRef::Line(3))], true);
    assert_eq!(acts, vec![FollowUp::CoincidentLL21 { a: 2, b: 3 }, FollowUp::LineP2OnLine { a: 2, b: 1 }]);
}

#[test]
fn post_split_nopin_only_joins() {
    let acts = post_split_actions(&vec![Some(Cutter::Line(1))], &vec![Some(PieceRef::Line(2)), Some(PieceRef::Line(3))], false);
    assert_eq!(acts, vec![FollowUp::CoincidentLL21 { a: 2, b: 3 }]);
}

#[test]
fn post_split_trimmed_left_pins_right_start() {
    let acts = post_split_actions(&vec![Some(Cutter::Arc(9))], &vec![None, Some(PieceRef::Line(3))], true);
    assert_eq!(acts, vec![FollowUp::LineP1OnArc { line: 3, arc: 9 }]);
}

#[test]
fn post_split_closed_arc_concentric_once_per_pair() {
    // A closed arc cut twice: two pieces, both cuts join the same pair.
    let pieces = vec![Some(PieceRef::Arc(4)), Some(PieceRef::Arc(5))];
    let acts = post_split_actions(&vec![None, None], &pieces, true);
    assert_eq!(
        acts,
        vec![
            FollowUp::CoincidentArcEndStart { a: 5, b: 4 },
            FollowUp::Concentric { a: 5, b: 4 },
            FollowUp::CoincidentArcEndStart { a: 4, b: 5 },
        ]
    );
}

#[test]
fn split_expression_rewrite_length_sums_pieces() {
    let map = expression_map("L0", true, &vec![Some("L2".to_string()), Some("L3".to_string())]);
    assert_eq!(renamed(&map, "L0.length").as_deref(), Some("(L2.length + L3.length)"));
    assert_eq!(renamed(&map, "L0.p1.x").as_deref(), Some("L2.p1.x"));
    assert_eq!(renamed(&map, "L0.p2.y").as_deref(), Some("L3.p2.y"));
    assert_eq!(renamed(&map, "L0.angle").as_deref(), Some("L2.angle"));
}

#[test]
fn split_expression_trimmed_piece_leaves_length_unmapped() {
    let map = expression_map("L0", true, &vec![Some("L2".to_string()), None]);
    assert_eq!(renamed(&map, "L0.length"), None);
    assert_eq!(renamed(&map, "L0.p2.x"), None);
    assert_eq!(renamed(&map, "L0.p1.x").as_deref(), Some("L2.p1.x"));
}

#[test]
fn split_expression_arc_renames() {
    let map = expression_map("A0", false, &vec![Some("A1".to_string()), Some("A2".to_string())]);
    assert_eq!(renamed(&map, "A0.radius").as_deref(), Some("A1.radius"));
    assert_eq!(renamed(&map, "A0.sweep").as_deref(), Some("(A1.sweep + A2.sweep)"));
    assert_eq!(renamed(&map, "A0.end_angle").as_deref(), Some("A2.end_angle"));
}

use arael_sketch_backend::split::{apply_split_target_names, bracket_cuts};

#[test]
fn predicted_piece_names_follow_counters() {
    assert_eq!(apply_split_target_names(true, false, 2, &vec![true, true]), vec!["L2".to_string(), "L3".to_string()]);
    assert_eq!(apply_split_target_names(false, true, 7, &vec![true, false, true]), vec!["EA7".to_string(), "EA8".to_string()]);
    assert_eq!(apply_split_target_names(false, false, 0, &vec![false, true]), vec!["A0".to_string()]);
}

#[test]
fn bracketing_open_target() {
    // Three cuts, four pieces: the middle piece 2 is bounded by cuts 1 and 2.
    assert_eq!(bracket_cuts(2, 3, false), (vec![1, 2], 1, false));
    assert_eq!(bracket_cuts(0, 3, false), (vec![0], 0, false));
    assert_eq!(bracket_cuts(3, 3, false), (vec![2], 1, false));
}

#[test]
fn bracketing_closed_target() {
    assert_eq!(bracket_cuts(1, 4, true), (vec![1, 2], 0, false));
    // The last span wraps to cut 0, lifted by a full turn.
    assert_eq!(bracket_cuts(3, 4, true), (vec![3, 0], 0, true));
    assert_eq!(bracket_cuts(1, 2, true), (vec![0, 1], 1, false));
}

use arael_sketch_backend::split::{check_split_plan, replicated_flag_names};

#[test]
fn split_plan_checks() {
    assert_eq!(check_split_plan(false, 1, &vec![true, true]), Ok(()));
    assert_eq!(check_split_plan(false, 1, &vec![true]), Err("split: keep mask has 1 entries for 2 pieces".to_string()));
    assert_eq!(check_split_plan(false, 1, &vec![false, false]), Err("split: no piece kept (use delete instead)".to_string()));
    assert_eq!(check_split_plan(true, 1, &vec![true]), Err("split: a closed circle/ellipse needs at least two cuts".to_string()));
    assert_eq!(check_split_plan(false, 0, &vec![true]), Err("split: no cuts".to_string()));
    assert_eq!(check_split_plan(true, 2, &vec![true, false]), Ok(()));
}

#[test]
fn replicated_flags_per_kept_piece() {
    let pieces = vec![Some("L2".to_string()), None, Some("L3".to_string())];
    assert_eq!(replicated_flag_names(&pieces, true, false), vec!["CL2H".to_string(), "CL3H".to_string()]);
    assert_eq!(
        replicated_flag_names(&pieces, true, true),
        vec!["CL2H".to_string(), "CL2V".to_string(), "CL3H".to_string(), "CL3V".to_string()]
    );
    assert!(replicated_flag_names(&pieces, false, false).is_empty());
}
