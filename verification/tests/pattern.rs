use arael_sketch_backend::pattern::{
    axis_indices, constraints_per_copy, copy_steps, tie_plan, ConstraintRefs, CopyStep, TiePlan, Endpoint, Slot, SourceShape, TieSource, IMAGE_CENTER, IMAGE_END,
    IMAGE_P1, IMAGE_P2, IMAGE_RADIUS, IMAGE_RADIUS_B, IMAGE_ROTATION, IMAGE_START,
};

fn line(a: usize, b: usize) -> TieSource {
    TieSource { shape: SourceShape::Line, root_a: a, root_b: b, root_c: 0 }
}

#[test]
fn axis_indices_symmetric_and_forward() {
    assert_eq!(axis_indices(4, false), vec![0, 1, 2, 3]);
    assert_eq!(axis_indices(4, true), vec![-1, 0, 1, 2]);
    assert_eq!(axis_indices(5, true), vec![-2, -1, 0, 1, 2]);
    assert_eq!(axis_indices(1, true), vec![0]);
    // A quantity of zero behaves as one.
    assert_eq!(axis_indices(0, false), vec![0]);
}

#[test]
fn tie_plan_chain_of_lines_ties_shared_corner() {
    // L0 from group 0 to group 1, L1 from group 1 to group 2.
    let plans = tie_plan(&vec![line(0, 1), line(1, 2)]);
    assert_eq!(plans.len(), 2);
    assert_eq!(plans[0].mask, IMAGE_P1 | IMAGE_P2);
    assert!(plans[0].ties.is_empty());
    assert_eq!(plans[1].mask, IMAGE_P2);
    assert_eq!(
        plans[1].ties,
        vec![(Endpoint { source: 1, slot: Slot::LineP1 }, Endpoint { source: 0, slot: Slot::LineP2 })]
    );
}

#[test]
fn tie_plan_closed_triangle_images_no_row_twice() {
    let plans = tie_plan(&vec![line(0, 1), line(1, 2), line(2, 0)]);
    assert_eq!(plans[2].mask, 0);
    assert_eq!(plans[2].ties.len(), 2);
    assert_eq!(plans[2].ties[1].1, Endpoint { source: 0, slot: Slot::LineP1 });
}

#[test]
fn tie_plan_point_on_placed_group_is_tied() {
    let p = TieSource { shape: SourceShape::Point, root_a: 1, root_b: 0, root_c: 0 };
    let plans = tie_plan(&vec![line(0, 1), p]);
    assert_eq!(plans[1].mask, 0);
    assert_eq!(
        plans[1].ties,
        vec![(Endpoint { source: 1, slot: Slot::Point }, Endpoint { source: 0, slot: Slot::LineP2 })]
    );
}

#[test]
fn tie_plan_arc_masks() {
    let free_arc = TieSource { shape: SourceShape::Arc { closed: false, ellipse: false }, root_a: 5, root_b: 6, root_c: 7 };
    let plans = tie_plan(&vec![free_arc]);
    assert_eq!(plans[0].mask, IMAGE_CENTER | IMAGE_RADIUS | IMAGE_START | IMAGE_END);
    // An arc whose start sits on a placed line end images shape and both angles.
    let arc = TieSource { shape: SourceShape::Arc { closed: false, ellipse: false }, root_a: 5, root_b: 1, root_c: 7 };
    let plans = tie_plan(&vec![line(0, 1), arc]);
    assert_eq!(plans[1].mask, IMAGE_RADIUS | IMAGE_START | IMAGE_END);
    assert_eq!(plans[1].ties.len(), 1);
    // A closed ellipse sharing a center images only its shape.
    let p = TieSource { shape: SourceShape::Point, root_a: 9, root_b: 0, root_c: 0 };
    let ell = TieSource { shape: SourceShape::Arc { closed: true, ellipse: true }, root_a: 9, root_b: 0, root_c: 0 };
    let plans = tie_plan(&vec![p, ell]);
    assert_eq!(plans[1].mask, IMAGE_RADIUS | IMAGE_RADIUS_B | IMAGE_ROTATION);
}

use arael_sketch_backend::meta::{Entities, MetaEntity, Named};
use arael_sketch_backend::pattern::{check_pattern, AxisCheck, CenterRef, Distribution, PatternLayout};
use arael_sketch_backend::split::EndpointRef;

fn sketch_entities() -> Entities {
    let n = |h: u32, s: &str| Named { handle: h, name: s.to_string(), helper: false };
    Entities { lines: vec![n(0, "L0"), n(1, "L1")], arcs: vec![], points: vec![n(0, "P0")] }
}

fn circular(distribution: Distribution, quantity: u32, angle_usable: bool) -> PatternLayout {
    PatternLayout::Circular { center: CenterRef::Point(0), distribution, quantity, angle_usable }
}

fn axis(quantity: u32, symmetric: bool) -> AxisCheck {
    AxisCheck { quantity, symmetric, distance_usable: true }
}

#[test]
fn circular_full_pattern_copies() {
    let r = check_pattern(&sketch_entities(), &vec![MetaEntity::Line(0)], &circular(Distribution::Full, 4, false));
    assert_eq!(r, Ok(vec![(1, 0), (2, 0), (3, 0)]));
}

#[test]
fn circular_symmetric_pattern_copies_both_sides() {
    let r = check_pattern(&sketch_entities(), &vec![MetaEntity::Line(0)], &circular(Distribution::Symmetric, 3, true));
    assert_eq!(r, Ok(vec![(-1, 0), (1, 0)]));
}

#[test]
fn rectangular_grid_skips_source() {
    let layout = PatternLayout::Rectangular { frame: None, frame_has_length: false, axis1: axis(2, false), axis2: axis(2, false) };
    let r = check_pattern(&sketch_entities(), &vec![MetaEntity::Line(0)], &layout);
    assert_eq!(r, Ok(vec![(0, 1), (1, 0), (1, 1)]));
}

#[test]
fn pattern_errors() {
    let e = sketch_entities();
    let err = |sources: Vec<MetaEntity>, layout: PatternLayout| check_pattern(&e, &sources, &layout).unwrap_err();
    assert_eq!(err(vec![], circular(Distribution::Full, 4, true)), "nothing to pattern");
    assert_eq!(err(vec![MetaEntity::Arc(3)], circular(Distribution::Full, 4, true)), "a source entity no longer exists");
    assert_eq!(err(vec![MetaEntity::Line(0)], circular(Distribution::Full, 1, true)), "a circular pattern needs a quantity of at least 2");
    assert_eq!(err(vec![MetaEntity::Point(0)], circular(Distribution::Full, 3, true)), "the center point cannot be in the pattern set");
    assert_eq!(err(vec![MetaEntity::Line(0)], circular(Distribution::Partial, 3, false)), "the pattern angle must not be zero");
    let off_center = PatternLayout::Circular {
        center: CenterRef::Endpoint(EndpointRef::ArcCenter(5)),
        distribution: Distribution::Full,
        quantity: 3,
        angle_usable: true,
    };
    assert_eq!(err(vec![MetaEntity::Line(0)], off_center), "the center's entity no longer exists");
    let framed = |a1: AxisCheck, a2: AxisCheck, has_len: bool| PatternLayout::Rectangular {
        frame: Some(1),
        frame_has_length: has_len,
        axis1: a1,
        axis2: a2,
    };
    assert_eq!(err(vec![MetaEntity::Line(1)], framed(axis(2, false), axis(1, false), true)), "the direction line cannot be in the pattern set");
    assert_eq!(
        err(vec![MetaEntity::Line(0)], framed(axis(1, false), axis(1, false), true)),
        "a rectangular pattern needs a quantity of at least 2 on an axis"
    );
    let zero = AxisCheck { quantity: 3, symmetric: false, distance_usable: false };
    assert_eq!(err(vec![MetaEntity::Line(0)], framed(axis(2, false), zero, true)), "the distance on axis 2 must not be zero");
    assert_eq!(err(vec![MetaEntity::Line(0)], framed(axis(2, false), axis(1, false), false)), "the direction line has no length");
}

#[test]
fn grid_of_three_by_two_makes_five_copies() {
    let layout = PatternLayout::Rectangular { frame: None, frame_has_length: false, axis1: axis(3, true), axis2: axis(2, false) };
    let copies = check_pattern(&sketch_entities(), &vec![MetaEntity::Line(0)], &layout).unwrap();
    assert_eq!(copies.len(), 5);
    assert!(!copies.contains(&(0, 0)));
    assert_eq!(copies, vec![(-1, 0), (-1, 1), (0, 1), (1, 0), (1, 1)]);
}

#[test]
fn ties_only_point_back() {
    let sources = vec![line(0, 1), line(1, 2), line(2, 0), line(5, 1)];
    for (i, p) in tie_plan(&sources).iter().enumerate() {
        for (a, b) in &p.ties {
            assert_eq!(a.source, i);
            assert!(b.source <= i);
        }
    }
}

use arael_sketch_backend::pattern::{map_endpoint, same_structure};

#[test]
fn copy_endpoint_follows_source_position() {
    let sources = vec![MetaEntity::Line(0), MetaEntity::Arc(1), MetaEntity::Point(2)];
    let copy = vec![MetaEntity::Line(10), MetaEntity::Arc(11), MetaEntity::Point(12)];
    assert_eq!(map_endpoint(EndpointRef::LineP2(0), &sources, &copy), Some(EndpointRef::LineP2(10)));
    assert_eq!(map_endpoint(EndpointRef::ArcStart(1), &sources, &copy), Some(EndpointRef::ArcStart(11)));
    assert_eq!(map_endpoint(EndpointRef::Point(2), &sources, &copy), Some(EndpointRef::Point(12)));
    // Not a source.
    assert_eq!(map_endpoint(EndpointRef::LineP1(5), &sources, &copy), None);
}

#[test]
fn numbers_only_edits_keep_structure() {
    let a = PatternLayout::Circular { center: CenterRef::Point(0), distribution: Distribution::Partial, quantity: 4, angle_usable: true };
    let b = PatternLayout::Circular { center: CenterRef::Point(0), distribution: Distribution::Partial, quantity: 4, angle_usable: false };
    let c = PatternLayout::Circular { center: CenterRef::Point(0), distribution: Distribution::Partial, quantity: 5, angle_usable: true };
    assert!(same_structure(&a, &b));
    assert!(!same_structure(&a, &c));
    let r1 = PatternLayout::Rectangular { frame: Some(1), frame_has_length: true, axis1: axis(2, false), axis2: axis(3, true) };
    let r2 = PatternLayout::Rectangular { frame: Some(1), frame_has_length: false, axis1: AxisCheck { distance_usable: false, ..axis(2, false) }, axis2: axis(3, true) };
    let r3 = PatternLayout::Rectangular { frame: None, frame_has_length: true, axis1: axis(2, false), axis2: axis(3, true) };
    assert!(same_structure(&r1, &r2));
    assert!(!same_structure(&r1, &r3));
    assert!(!same_structure(&a, &r1));
}

#[test]
fn quantity_past_the_index_range_makes_no_copies() {
    assert!(axis_indices(3_000_000_000, false).is_empty());
    assert!(axis_indices(3_000_000_000, true).is_empty());
    let r = check_pattern(&sketch_entities(), &vec![MetaEntity::Line(0)], &circular(Distribution::Full, 3_000_000_000, true));
    assert_eq!(r, Err("the pattern makes no copies".to_string()));
}

#[test]
fn copy_steps_image_ties_then_flags() {
    let sources = vec![MetaEntity::Line(0), MetaEntity::Line(1), MetaEntity::Point(4)];
    let copy = vec![MetaEntity::Line(10), MetaEntity::Line(11), MetaEntity::Point(14)];
    let plans = vec![
        TiePlan { mask: IMAGE_P1 | IMAGE_P2, ties: vec![] },
        TiePlan {
            mask: IMAGE_P2,
            ties: vec![(
                Endpoint { source: 1, slot: Slot::LineP1 },
                Endpoint { source: 0, slot: Slot::LineP2 },
            )],
        },
        TiePlan { mask: 0, ties: vec![(Endpoint { source: 2, slot: Slot::Point }, Endpoint { source: 1, slot: Slot::ArcEnd })] },
    ];
    let flags = vec![(true, false), (false, true), (true, true)];
    let steps = copy_steps(&plans, &sources, &copy, &flags);
    assert_eq!(
        steps,
        vec![
            CopyStep::Image { source: MetaEntity::Line(0), copy: MetaEntity::Line(10), mask: IMAGE_P1 | IMAGE_P2 },
            CopyStep::Image { source: MetaEntity::Line(1), copy: MetaEntity::Line(11), mask: IMAGE_P2 },
            CopyStep::Coincident(EndpointRef::LineP1(11), EndpointRef::LineP2(10)),
            // A line has no arc end: that tie is skipped.
            CopyStep::Construction(MetaEntity::Line(10)),
            CopyStep::Style(MetaEntity::Line(11)),
        ]
    );
}

#[test]
fn new_constraints_go_to_the_copy_they_refer_to() {
    let copies = vec![vec![MetaEntity::Line(10)], vec![MetaEntity::Line(11), MetaEntity::Point(20)]];
    let cs = vec![
        ConstraintRefs { nid: 9, refs: vec![MetaEntity::Line(11)] },
        ConstraintRefs { nid: 14, refs: vec![MetaEntity::Line(11)] },
        ConstraintRefs { nid: 12, refs: vec![MetaEntity::Line(10)] },
        // The last entity a copy holds decides: the point, in copy 1.
        ConstraintRefs { nid: 13, refs: vec![MetaEntity::Line(10), MetaEntity::Line(3), MetaEntity::Point(20)] },
        ConstraintRefs { nid: 11, refs: vec![MetaEntity::Line(11)] },
        ConstraintRefs { nid: 15, refs: vec![MetaEntity::Line(3)] },
    ];
    assert_eq!(constraints_per_copy(&copies, &cs, 10), vec![vec![12], vec![11, 13, 14]]);
}
