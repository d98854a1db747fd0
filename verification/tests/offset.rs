use arael_sketch_backend::offset::{
    cap_name, check_caps, distance_dims, dropped_names, joint_count, partition_side, plan_update, round_cap_source, side_relations,
    CapKind, OffsetEnd, OffsetEntity, OffsetKind, OffsetRelation, PlannedSide, SideJoint, SideSeg,
    SideShape,
};

#[test]
fn cap_names() {
    assert_eq!(cap_name(CapKind::NoCap), "no");
    assert_eq!(cap_name(CapKind::Line), "line");
    assert_eq!(cap_name(CapKind::Round), "round");
}

#[test]
fn caps_checks() {
    assert_eq!(check_caps(OffsetKind::OneSide, CapKind::NoCap, true), Ok(()));
    assert_eq!(check_caps(OffsetKind::Symmetric, CapKind::Line, true), Err("caps: a closed sequence has no ends".to_string()));
    assert_eq!(
        check_caps(OffsetKind::OneSide, CapKind::Line, false),
        Err("caps need both sides (symmetric or two distances)".to_string())
    );
    assert_eq!(check_caps(OffsetKind::TwoSides, CapKind::Round, false), Err("round caps need a symmetric offset".to_string()));
    assert_eq!(check_caps(OffsetKind::TwoSides, CapKind::Line, false), Ok(()));
    assert_eq!(check_caps(OffsetKind::Symmetric, CapKind::Round, false), Ok(()));
}

#[test]
fn joint_counts() {
    assert_eq!(joint_count(false, 3), 2);
    assert_eq!(joint_count(true, 3), 3);
    assert_eq!(joint_count(true, 1), 0);
    assert_eq!(joint_count(false, 1), 0);
}

#[test]
fn side_partition_drops_vanished_segments() {
    assert_eq!(partition_side(&vec![false, true, false], false), Some((vec![0, 2], vec![1])));
    assert_eq!(partition_side(&vec![true], false), None);
    // A loop of several segments cannot close on one.
    assert_eq!(partition_side(&vec![true, false, true], true), None);
    assert_eq!(partition_side(&vec![false], true), Some((vec![0], vec![])));
}

#[test]
fn distance_dims_first_of_each_tangent_run() {
    // Open chain, joints: sharp, tangent, sharp.
    assert_eq!(distance_dims(false, 4, &vec![false, true, false]), (vec![true, true, false, true], false));
    // Closed loop of three with one sharp joint (the last, closing one).
    assert_eq!(distance_dims(true, 3, &vec![true, true, false]), (vec![true, false, false], false));
    // A loop of tangent joints: the first result, and the closing joint pinned.
    assert_eq!(distance_dims(true, 3, &vec![true, true, true]), (vec![true, false, false], true));
    // A lone closed entity.
    assert_eq!(distance_dims(true, 1, &vec![]), (vec![true], false));
}

#[test]
fn round_cap_needs_same_end_segment() {
    assert_eq!(round_cap_source(2, 2, true), Ok(2));
    assert_eq!(round_cap_source(2, 1, true), Err(2));
    assert_eq!(round_cap_source(0, 1, false), Err(0));
}

fn line_seg(source: u32, result: u32, dim: bool) -> SideSeg {
    SideSeg { source: OffsetEntity::Line(source), result, ellipse: false, reversed: false, dim }
}

fn end(entity: OffsetEntity, at_end: bool) -> OffsetEnd {
    OffsetEnd { entity, at_end }
}

#[test]
fn side_relations_of_an_open_pinned_chain() {
    let segs = vec![line_seg(0, 10, true), line_seg(1, 11, false)];
    let joints = vec![SideJoint { tangent: false, closure: false, round: None }];
    let r = side_relations(&segs, &joints, false, false, true, false);
    let (l0, l1, l10, l11) = (OffsetEntity::Line(0), OffsetEntity::Line(1), OffsetEntity::Line(10), OffsetEntity::Line(11));
    assert_eq!(
        r,
        vec![
            OffsetRelation::Parallel { source: 0, result: 10 },
            OffsetRelation::Parallel { source: 1, result: 11 },
            OffsetRelation::Coincident(end(l10, true), end(l11, false)),
            OffsetRelation::OnNormal { placed: end(l10, false), reference: end(l0, false) },
            OffsetRelation::OnNormal { placed: end(l11, true), reference: end(l1, true) },
            OffsetRelation::LineDistance { source: 0, result: 10 },
        ]
    );
    // Round caps hold the free ends: no pins there.
    assert_eq!(side_relations(&segs, &joints, false, false, true, true).len(), 4);
}

#[test]
fn side_relations_of_a_rounded_tangent_loop() {
    let arc = SideSeg { source: OffsetEntity::Arc(5), result: 15, ellipse: true, reversed: true, dim: true };
    let segs = vec![line_seg(0, 10, true), arc];
    let joints = vec![
        SideJoint { tangent: false, closure: false, round: Some(20) },
        SideJoint { tangent: true, closure: true, round: None },
    ];
    let r = side_relations(&segs, &joints, true, false, true, false);
    let (a5, a15, a20, l10) = (OffsetEntity::Arc(5), OffsetEntity::Arc(15), OffsetEntity::Arc(20), OffsetEntity::Line(10));
    assert_eq!(
        r,
        vec![
            OffsetRelation::Parallel { source: 0, result: 10 },
            OffsetRelation::Concentric { source: 5, result: 15 },
            OffsetRelation::ArcArcParallel { source: 5, result: 15 },
            OffsetRelation::Coincident(end(a20, false), end(l10, true)),
            OffsetRelation::Coincident(end(a20, true), end(a15, true)),
            OffsetRelation::Tangent { entity: l10, arc: 20 },
            OffsetRelation::Tangent { entity: a15, arc: 20 },
            // The closing tangent joint: both ends pinned, no coincidence.
            OffsetRelation::OnNormal { placed: end(a15, false), reference: end(a5, false) },
            OffsetRelation::OnNormal { placed: end(l10, false), reference: end(OffsetEntity::Line(0), false) },
            OffsetRelation::LineDistance { source: 0, result: 10 },
            OffsetRelation::ConcentricDistance { source: 5, result: 15 },
            OffsetRelation::ArcRadius(20),
        ]
    );
}

fn shape(positive: bool, dropped: Vec<usize>, corners: usize) -> SideShape {
    SideShape { positive, dropped, corners }
}

fn planned(positive: bool, dropped: Vec<usize>, round_joints: usize) -> PlannedSide {
    PlannedSide { positive, dropped, round_joints }
}

#[test]
fn update_keeps_matching_sides_and_deletes_the_rest() {
    let old = vec![shape(true, vec![], 0), shape(false, vec![1], 0)];
    let plan = vec![planned(true, vec![], 0)];
    let u = plan_update(&old, &plan, &vec![true], false, false, false);
    assert_eq!(u.kept, vec![(0, true)]);
    assert_eq!(u.doomed, vec![1]);
    assert!(u.sides_change);
    assert!(u.rebuild_caps);
    assert!(!u.redo_pins);
}

#[test]
fn update_moves_a_flipped_side_across() {
    let old = vec![shape(false, vec![], 0)];
    let plan = vec![planned(true, vec![], 0)];
    let u = plan_update(&old, &plan, &vec![true], false, true, false);
    assert_eq!(u.kept, vec![(0, true)]);
    assert!(u.doomed.is_empty());
    assert!(!u.sides_change);
    assert!(!u.rebuild_caps);
    assert!(u.redo_pins);
    // Round corners sit at other joints across the chain: such a side is
    // rebuilt instead.
    let old = vec![shape(false, vec![], 1)];
    let plan = vec![planned(true, vec![], 1)];
    let u = plan_update(&old, &plan, &vec![true], false, false, false);
    assert!(u.kept.is_empty());
    assert_eq!(u.doomed, vec![0]);
    assert!(u.rebuild_caps);
}

#[test]
fn dropped_segments_are_named_once_in_chain_order() {
    let names: Vec<String> = vec!["L0", "A0", "L1", "A1"].into_iter().map(String::from).collect();
    assert_eq!(dropped_names(&vec![vec![3, 1], vec![1]], &names), vec!["A0".to_string(), "A1".to_string()]);
    assert!(dropped_names(&vec![vec![], vec![]], &names).is_empty());
}
