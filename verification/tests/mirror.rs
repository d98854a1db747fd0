use arael_sketch_backend::meta::{Entities, MetaEntity, Named};
use arael_sketch_backend::mirror::{check_mirror, mirror_constraint_steps, mirror_structure, MirrorConstraint};
use arael_sketch_backend::split::EndpointRef;
use arael_sketch_backend::pattern::{Endpoint, Slot, SourceShape, TieSource};

fn src(shape: SourceShape, a: usize, b: usize, c: usize) -> TieSource {
    TieSource { shape, root_a: a, root_b: b, root_c: c }
}

fn ep(source: usize, slot: Slot) -> Endpoint {
    Endpoint { source, slot }
}

fn ents() -> Entities {
    let n = |h: u32, s: &str| Named { handle: h, name: s.to_string(), helper: false };
    Entities { lines: vec![n(0, "L0"), n(1, "L1"), n(2, "L2")], arcs: vec![n(0, "A0")], points: vec![n(0, "P0")] }
}

#[test]
fn corner_gets_one_symmetry_and_one_tie() {
    let s = mirror_structure(&vec![src(SourceShape::Line, 0, 1, 0), src(SourceShape::Line, 1, 2, 0)], false);
    assert_eq!(s.syms, vec![ep(0, Slot::LineP1), ep(0, Slot::LineP2), ep(1, Slot::LineP2)]);
    assert_eq!(s.ties, vec![(ep(1, Slot::LineP1), ep(0, Slot::LineP2))]);
    assert!(s.sym_aa.is_empty() && s.eq_radius.is_empty());
}

#[test]
fn circles_take_arc_symmetry_or_equal_radius() {
    let circle = SourceShape::Arc { closed: true, ellipse: false };
    let s = mirror_structure(&vec![src(circle, 5, 0, 0)], false);
    assert_eq!(s.sym_aa, vec![0]);
    assert!(s.syms.is_empty() && s.ties.is_empty());
    // A circle centred on an already placed point keeps the coincidence.
    let s = mirror_structure(&vec![src(SourceShape::Point, 5, 0, 0), src(circle, 5, 0, 0)], false);
    assert_eq!(s.ties, vec![(ep(1, Slot::ArcCenter), ep(0, Slot::Point))]);
    assert_eq!(s.eq_radius, vec![1]);
    // A closed ellipse: a center symmetry and an equal radius.
    let ellipse = SourceShape::Arc { closed: true, ellipse: true };
    let s = mirror_structure(&vec![src(ellipse, 7, 0, 0)], false);
    assert_eq!(s.syms, vec![ep(0, Slot::ArcCenter)]);
    assert_eq!(s.eq_radius, vec![0]);
}

#[test]
fn noconstraint_plans_nothing() {
    let s = mirror_structure(&vec![src(SourceShape::Line, 0, 1, 0)], true);
    assert!(s.syms.is_empty() && s.ties.is_empty() && s.sym_aa.is_empty() && s.eq_radius.is_empty());
}

#[test]
fn mirror_sources_drop_the_axis() {
    let r = check_mirror(&ents(), &vec![MetaEntity::Line(0), MetaEntity::Line(1), MetaEntity::Point(0)], 0);
    assert_eq!(r, Ok(vec![MetaEntity::Line(1), MetaEntity::Point(0)]));
}

#[test]
fn mirror_errors() {
    let e = ents();
    assert_eq!(check_mirror(&e, &vec![MetaEntity::Line(1)], 9), Err("mirror axis line does not exist".to_string()));
    assert_eq!(check_mirror(&e, &vec![MetaEntity::Line(0)], 0), Err("No lines, arcs, or points to mirror".to_string()));
    assert_eq!(check_mirror(&e, &vec![MetaEntity::Arc(4)], 0), Err("mirror source arc does not exist".to_string()));
    assert_eq!(check_mirror(&e, &vec![MetaEntity::Point(3)], 0), Err("mirror source point does not exist".to_string()));
}

fn nm(handle: u32, name: &str) -> Named {
    Named { handle, name: name.to_string(), helper: false }
}

fn step_ents() -> Entities {
    Entities {
        lines: vec![nm(0, "L0"), nm(1, "L1"), nm(5, "L2")],
        arcs: vec![nm(0, "A0"), nm(1, "A1"), nm(7, "A2"), nm(8, "A3")],
        points: vec![],
    }
}

#[test]
fn mirror_steps_tie_then_symmetry() {
    let r = mirror_constraint_steps(
        &step_ents(),
        &vec![(EndpointRef::LineP1(0), EndpointRef::LineP2(0))],
        &vec![true],
        &vec![EndpointRef::LineP1(0)],
        &vec![],
        &vec![],
        &vec![MetaEntity::Line(0)],
        &vec![MetaEntity::Line(5)],
        1,
    )
    .unwrap();
    assert_eq!(
        r,
        vec![
            (MirrorConstraint::Coincident(EndpointRef::LineP1(5), EndpointRef::LineP2(5)), "coincident L2.p1=L2.p2".to_string()),
            (
                MirrorConstraint::SymmetryPoints { point: EndpointRef::LineP1(0), axis: 1, image: EndpointRef::LineP1(5) },
                "symmetry L0.p1 L1 L2.p1".to_string()
            ),
        ]
    );
}

#[test]
fn mirror_steps_concentric_centers_and_radii() {
    let sources = vec![MetaEntity::Arc(0), MetaEntity::Arc(1)];
    let copies = vec![MetaEntity::Arc(7), MetaEntity::Arc(8)];
    let r = mirror_constraint_steps(
        &step_ents(),
        &vec![(EndpointRef::ArcCenter(0), EndpointRef::ArcCenter(1))],
        &vec![false],
        &vec![],
        &vec![0],
        &vec![1],
        &sources,
        &copies,
        1,
    )
    .unwrap();
    assert_eq!(
        r,
        vec![
            (MirrorConstraint::Concentric(7, 8), "coincident A2.center A3.center".to_string()),
            (MirrorConstraint::SymmetryArcs { arc: 0, axis: 1, image_arc: 7 }, "symmetry A0 L1 A2".to_string()),
            (MirrorConstraint::EqualRadius(1, 8), "equal radius A1 A3".to_string()),
        ]
    );
}

#[test]
fn mirror_steps_fail_at_the_first_bad_step() {
    let e = mirror_constraint_steps(
        &step_ents(),
        &vec![(EndpointRef::LineP1(0), EndpointRef::LineP1(9))],
        &vec![true],
        &vec![],
        &vec![],
        &vec![0],
        &vec![MetaEntity::Line(0)],
        &vec![MetaEntity::Line(5)],
        1,
    );
    assert_eq!(e, Err("Internal: mirror tie outside the source set".to_string()));
    let e = mirror_constraint_steps(
        &step_ents(),
        &vec![],
        &vec![],
        &vec![],
        &vec![],
        &vec![0],
        &vec![MetaEntity::Line(0)],
        &vec![MetaEntity::Line(5)],
        1,
    );
    assert_eq!(e, Err("Internal: equal-radius entry on a non-arc".to_string()));
    let e = mirror_constraint_steps(
        &step_ents(),
        &vec![(EndpointRef::LineP1(0), EndpointRef::LineP2(0))],
        &vec![false],
        &vec![],
        &vec![],
        &vec![],
        &vec![MetaEntity::Line(0)],
        &vec![MetaEntity::Line(5)],
        1,
    );
    assert_eq!(e, Err("Internal: no coincident action for a mirror tie".to_string()));
}
