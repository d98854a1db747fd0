use arael_sketch_backend::corner_ops::{
    chamfer_relations, corner_value, fillet_relations, primary_after, find_ll_coincident_partner, resolve_corner_spec,
    CornerOutcome, CornerRefs, CornerRelation, CornerValue, CornerSpec, LLCoincidence, LineCoincidences,
};
use arael_sketch_backend::split::EndpointRef;
use arael_sketch_backend::ids::{ConstraintId, LineFlags};

fn lines() -> Vec<LineFlags> {
    ["L0", "L1", "L2"]
        .iter()
        .enumerate()
        .map(|(i, n)| LineFlags { handle: i as u32, name: n.to_string(), horizontal: false, vertical: false })
        .collect()
}

/// L0.p2 = L1.p1 (C7), L1.p2 = L2.p2 (C8).
fn coincidences() -> LineCoincidences {
    LineCoincidences {
        ll11: vec![],
        ll12: vec![],
        ll21: vec![LLCoincidence { a: 0, b: 1, nid: 7 }],
        ll22: vec![LLCoincidence { a: 1, b: 2, nid: 8 }],
    }
}

#[test]
fn partner_of_shared_corner() {
    let c = coincidences();
    assert_eq!(find_ll_coincident_partner(&c, 0, false), Some((1, true, ConstraintId::Numbered(7))));
    assert_eq!(find_ll_coincident_partner(&c, 1, true), Some((0, false, ConstraintId::Numbered(7))));
    assert_eq!(find_ll_coincident_partner(&c, 2, false), Some((1, false, ConstraintId::Numbered(8))));
    assert_eq!(find_ll_coincident_partner(&c, 0, true), None);
}

#[test]
fn resolve_endpoint_corner() {
    let r = resolve_corner_spec(&lines(), &coincidences(), &CornerSpec::Endpoint { line: 0, is_p1: false });
    assert_eq!(
        r,
        Ok(CornerRefs { line_a: 0, is_p1_a: false, line_b: 1, is_p1_b: true, coincident_id: ConstraintId::Numbered(7) })
    );
    let r = resolve_corner_spec(&lines(), &coincidences(), &CornerSpec::Endpoint { line: 0, is_p1: true });
    assert_eq!(r, Err("L0.p1 isn't coincident with another line endpoint".to_string()));
    let r = resolve_corner_spec(&lines(), &coincidences(), &CornerSpec::Endpoint { line: 9, is_p1: true });
    assert_eq!(r, Err("corner line no longer exists".to_string()));
}

#[test]
fn resolve_two_line_corner() {
    let r = resolve_corner_spec(&lines(), &coincidences(), &CornerSpec::Lines(1, 2));
    assert_eq!(
        r,
        Ok(CornerRefs { line_a: 1, is_p1_a: false, line_b: 2, is_p1_b: false, coincident_id: ConstraintId::Numbered(8) })
    );
    let r = resolve_corner_spec(&lines(), &coincidences(), &CornerSpec::Lines(0, 2));
    assert_eq!(r, Err("L0 and L2 are not connected at an endpoint".to_string()));
    let r = resolve_corner_spec(&lines(), &coincidences(), &CornerSpec::Lines(1, 1));
    assert_eq!(r, Err("two-line corner needs two different lines".to_string()));
    let r = resolve_corner_spec(&lines(), &coincidences(), &CornerSpec::Lines(1, 5));
    assert_eq!(r, Err("corner line no longer exists".to_string()));
}

#[test]
fn failed_outcome_carries_only_the_error() {
    let o = CornerOutcome::failed("boom".to_string());
    assert_eq!(o.error.as_deref(), Some("boom"));
    assert!(o.entity_name.is_empty() && o.added.is_empty() && o.primary_dim.is_none());
}

fn refs(is_p1_a: bool, is_p1_b: bool) -> CornerRefs {
    CornerRefs {
        line_a: 0,
        is_p1_a,
        line_b: 1,
        is_p1_b,
        coincident_id: ConstraintId::Numbered(3),
    }
}

#[test]
fn fillet_joins_each_line_to_its_arc_end() {
    assert_eq!(
        fillet_relations(&refs(false, true), 7, true, false, false),
        vec![
            CornerRelation::Coincident(EndpointRef::LineP2(0), EndpointRef::ArcStart(7)),
            CornerRelation::Coincident(EndpointRef::LineP1(1), EndpointRef::ArcEnd(7)),
            CornerRelation::TangentLineArc { line: 0, arc: 7 },
            CornerRelation::TangentLineArc { line: 1, arc: 7 },
            CornerRelation::ArcRadius(7),
        ]
    );
    assert_eq!(
        fillet_relations(&refs(true, true), 7, false, true, true),
        vec![
            CornerRelation::Coincident(EndpointRef::LineP1(0), EndpointRef::ArcEnd(7)),
            CornerRelation::Coincident(EndpointRef::LineP1(1), EndpointRef::ArcStart(7)),
        ]
    );
}

#[test]
fn chamfer_spans_a_bevel_and_dims_both_legs() {
    assert_eq!(
        chamfer_relations(&refs(true, false), 4, 9),
        vec![
            CornerRelation::Coincident(EndpointRef::LineP1(0), EndpointRef::LineP1(9)),
            CornerRelation::Coincident(EndpointRef::LineP2(1), EndpointRef::LineP2(9)),
            CornerRelation::PointOnLine { point: 4, line: 0 },
            CornerRelation::PointOnLine { point: 4, line: 1 },
            CornerRelation::LegDistance(EndpointRef::LineP1(0)),
            CornerRelation::LegDistance(EndpointRef::LineP2(1)),
        ]
    );
}

#[test]
fn later_corners_follow_the_first_corners_dimension() {
    let none: Option<String> = None;
    assert_eq!(corner_value(0, &none), CornerValue::Configured);
    let p = primary_after(0, none.clone(), Some("d3".to_string()));
    assert_eq!(p.as_deref(), Some("d3"));
    assert_eq!(corner_value(1, &p), CornerValue::FollowPrimary);
    // A later corner's dimension does not replace the first's.
    let p = primary_after(1, p, Some("d4".to_string()));
    assert_eq!(p.as_deref(), Some("d3"));
    // When the first corner made no dimension, later ones use the
    // configured value without an expression.
    let p = primary_after(0, None, None);
    assert_eq!(corner_value(2, &p), CornerValue::ConfiguredPlain);
}
