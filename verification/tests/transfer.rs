use arael_sketch_backend::split::{EndpointRef, PieceRef, SplitTarget};
use arael_sketch_backend::transfer::{
    dim_kind_label, map_dim_kind, plan_constraint_fields, plan_dimension_transfer, whole_arc_copies,
    whole_arc_dim_kind, DimKind, DimOp, DropReason, FieldRole, TargetField,
};

fn two_lines() -> Vec<Option<PieceRef>> {
    vec![Some(PieceRef::Line(2)), Some(PieceRef::Line(3))]
}

#[test]
fn split_length_dim_becomes_distance() {
    let r = map_dim_kind(DimKind::LineLength(0), SplitTarget::Line(0), &two_lines(), 0);
    assert_eq!(r, Ok(DimKind::PointPointDistance(EndpointRef::LineP1(2), EndpointRef::LineP2(3))));
}

#[test]
fn length_dim_with_trimmed_end_drops() {
    let pieces = vec![Some(PieceRef::Line(2)), None];
    let r = map_dim_kind(DimKind::LineLength(0), SplitTarget::Line(0), &pieces, 0);
    assert_eq!(r, Err(DropReason::P2TrimmedAway));
    assert_eq!(DropReason::P2TrimmedAway.label(), "p2 trimmed away");
    let pieces = vec![None, Some(PieceRef::Line(3))];
    assert_eq!(map_dim_kind(DimKind::LineLength(0), SplitTarget::Line(0), &pieces, 1), Err(DropReason::P1TrimmedAway));
}

#[test]
fn arc_sweep_has_no_successor() {
    let pieces = vec![Some(PieceRef::Arc(4)), Some(PieceRef::Arc(5))];
    let r = map_dim_kind(DimKind::ArcSweep(1), SplitTarget::Arc(1), &pieces, 0);
    assert_eq!(r, Err(DropReason::SweepHasNoSuccessor));
    assert_eq!(DropReason::SweepHasNoSuccessor.label(), "sweep of the whole arc has no successor");
    assert_eq!(map_dim_kind(DimKind::ArcRadius(1), SplitTarget::Arc(1), &pieces, 0), Ok(DimKind::ArcRadius(4)));
}

#[test]
fn point_line_distance_follows_host_piece() {
    let pieces = vec![Some(PieceRef::Line(2)), None, Some(PieceRef::Line(4))];
    let k = DimKind::PointLineDistance(EndpointRef::Point(7), 0);
    assert_eq!(map_dim_kind(k, SplitTarget::Line(0), &pieces, 2), Ok(DimKind::PointLineDistance(EndpointRef::Point(7), 4)));
    // The host was trimmed: the lower neighbour is taken.
    assert_eq!(map_dim_kind(k, SplitTarget::Line(0), &pieces, 1), Ok(DimKind::PointLineDistance(EndpointRef::Point(7), 2)));
}

#[test]
fn angle_swaps_target_for_first_kept_piece() {
    let pieces = vec![None, Some(PieceRef::Line(3))];
    let r = map_dim_kind(DimKind::Angle(9, 0, true), SplitTarget::Line(0), &pieces, 1);
    assert_eq!(r, Ok(DimKind::Angle(9, 3, true)));
    let none: Vec<Option<PieceRef>> = vec![None, None];
    assert_eq!(map_dim_kind(DimKind::Angle(9, 0, true), SplitTarget::Line(0), &none, 0), Err(DropReason::NoSurvivingPiece));
}

#[test]
fn references() {
    assert!(DimKind::HDistance(EndpointRef::LineP2(0), EndpointRef::Point(1)).references_line(0));
    assert!(!DimKind::HDistance(EndpointRef::LineP2(0), EndpointRef::Point(1)).references_line(1));
    assert!(DimKind::ConcentricDistance(3, 4).references_arc(4));
    assert!(!DimKind::LineAngle(4).references_arc(4));
}

#[test]
fn plan_dimension_transfer_skips_unrelated() {
    let kinds = vec![
        DimKind::LineLength(5),
        DimKind::LineLength(0),
        DimKind::LineAngle(0),
        DimKind::ArcRadius(0),
    ];
    let ops = plan_dimension_transfer(&kinds, SplitTarget::Line(0), &two_lines(), &vec![0, 0, 0, 0]);
    assert_eq!(
        ops,
        vec![
            DimOp::Retarget {
                index: 1,
                new_kind: DimKind::PointPointDistance(EndpointRef::LineP1(2), EndpointRef::LineP2(3)),
            },
            DimOp::Retarget { index: 2, new_kind: DimKind::LineAngle(2) },
        ]
    );
}

#[test]
fn whole_arc_dims_copy_onto_other_pieces() {
    assert_eq!(whole_arc_dim_kind(DimKind::ArcRadius(1), PieceRef::Arc(6)), Some(DimKind::ArcRadius(6)));
    assert_eq!(whole_arc_dim_kind(DimKind::ArcSweep(1), PieceRef::Arc(6)), None);
    assert_eq!(whole_arc_dim_kind(DimKind::ArcRadius(1), PieceRef::Line(6)), None);
    let pieces = vec![None, Some(PieceRef::Arc(4)), None, Some(PieceRef::Arc(5)), Some(PieceRef::Arc(6))];
    assert_eq!(
        whole_arc_copies(DimKind::ArcRotation(4), &pieces),
        vec![DimKind::ArcRotation(5), DimKind::ArcRotation(6)]
    );
    assert!(whole_arc_copies(DimKind::LineAngle(4), &pieces).is_empty());
}

#[test]
fn dim_labels() {
    assert_eq!(dim_kind_label(DimKind::LineLength(0)), "length");
    assert_eq!(dim_kind_label(DimKind::ArcRadiusB(0)), "radius_b");
    assert_eq!(dim_kind_label(DimKind::LineAngle(0)), "xangle");
    assert_eq!(dim_kind_label(DimKind::VDistance(EndpointRef::Point(0), EndpointRef::Point(1))), "vdistance");
    assert_eq!(dim_kind_label(DimKind::LineLineDistance(0, 1)), "distance");
}

#[test]
fn split_equal_length_dropped() {
    let fields = vec![TargetField { slot: 0, role: FieldRole::Extent }];
    let plan = plan_constraint_fields(&fields, &two_lines(), 0, None);
    assert!(plan.drop);
    assert!(plan.sets.is_empty());
}

#[test]
fn split_tangent_lands_on_touching_piece() {
    let fields = vec![TargetField { slot: 0, role: FieldRole::Contact }];
    let plan = plan_constraint_fields(&fields, &two_lines(), 0, Some(1));
    assert!(!plan.drop);
    assert_eq!(plan.sets, vec![(0, PieceRef::Line(3))]);
}

#[test]
fn perpendicular_replicated_onto_pieces() {
    let fields = vec![TargetField { slot: 1, role: FieldRole::Whole }];
    let plan = plan_constraint_fields(&fields, &two_lines(), 0, None);
    assert!(!plan.drop);
    assert_eq!(plan.sets, vec![(1, PieceRef::Line(2))]);
    assert_eq!(plan.rep_slots, vec![1]);
}

#[test]
fn start_and_end_roles_follow_owning_pieces() {
    let fields = vec![
        TargetField { slot: 0, role: FieldRole::Start },
        TargetField { slot: 1, role: FieldRole::End },
    ];
    let plan = plan_constraint_fields(&fields, &two_lines(), 0, None);
    assert_eq!(plan.sets, vec![(0, PieceRef::Line(2)), (1, PieceRef::Line(3))]);
    let trimmed = vec![Some(PieceRef::Line(2)), None];
    let plan = plan_constraint_fields(&fields, &trimmed, 0, None);
    assert!(plan.drop);
    assert!(plan.sets.is_empty() && plan.rep_slots.is_empty());
}

#[test]
fn untrimmed_split_keeps_every_line_dimension() {
    let pieces = vec![Some(PieceRef::Line(2)), Some(PieceRef::Line(3)), Some(PieceRef::Line(4))];
    let kinds = [
        DimKind::LineLength(0),
        DimKind::LineAngle(0),
        DimKind::Angle(0, 0, false),
        DimKind::PointLineDistance(EndpointRef::LineP2(0), 0),
        DimKind::LineLineDistance(0, 7),
        DimKind::HDistance(EndpointRef::LineP1(0), EndpointRef::LineP2(0)),
    ];
    for k in kinds {
        assert!(map_dim_kind(k, SplitTarget::Line(0), &pieces, 1).is_ok(), "{:?}", k);
    }
}

#[test]
fn untrimmed_split_drops_only_extent_fields() {
    let pieces = two_lines();
    for role in [FieldRole::Start, FieldRole::End, FieldRole::Center, FieldRole::Host, FieldRole::Whole, FieldRole::Contact] {
        let plan = plan_constraint_fields(&vec![TargetField { slot: 0, role }], &pieces, 1, Some(0));
        assert!(!plan.drop);
    }
    let plan = plan_constraint_fields(
        &vec![TargetField { slot: 0, role: FieldRole::Start }, TargetField { slot: 1, role: FieldRole::Extent }],
        &pieces,
        0,
        None,
    );
    assert!(plan.drop);
}
