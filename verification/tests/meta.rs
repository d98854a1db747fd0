use arael_sketch_backend::meta::{
    broken_reason, delete_with_result_plan, deletion_of, endpoint_name, entity_exists, record_for_mid, entity_name, owner_of, reconcile, reconcile_drops, resolve,
    DimState, Entities, MetaEntity, MetaRecord, Named, OwnedDim,
};

fn named(handle: u32, name: &str, helper: bool) -> Named {
    Named { handle, name: name.to_string(), helper }
}

fn ents() -> Entities {
    Entities {
        lines: vec![named(0, "L0", false), named(1, "L1", false)],
        arcs: vec![named(0, "A0", false)],
        points: vec![named(0, "P0", false), named(1, "P1", true)],
    }
}

fn record(mid: u32, name: &str) -> MetaRecord {
    MetaRecord {
        mid,
        kind_name: "offset".to_string(),
        name: name.to_string(),
        sources: vec![MetaEntity::Line(0)],
        owned: vec![MetaEntity::Line(1), MetaEntity::Point(1)],
        owned_constraints: vec![3],
        owned_dims: vec![],
    }
}

#[test]
fn existence_and_names() {
    let e = ents();
    assert!(entity_exists(&e, MetaEntity::Line(1)));
    assert!(!entity_exists(&e, MetaEntity::Line(2)));
    assert!(entity_exists(&e, MetaEntity::Arc(0)));
    assert_eq!(entity_name(&e, MetaEntity::Arc(0)), "A0");
    assert_eq!(entity_name(&e, MetaEntity::Point(0)), "P0");
}

#[test]
fn intact_record_holds() {
    assert_eq!(broken_reason(&ents(), &vec![3], &record(1, "M1")), None);
}

#[test]
fn broken_reasons_in_order() {
    let e = ents();
    let mut m = record(1, "M1");
    m.sources.push(MetaEntity::Arc(7));
    assert_eq!(broken_reason(&e, &vec![3], &m).as_deref(), Some("a source entity was deleted"));
    let mut m = record(1, "M1");
    m.owned.push(MetaEntity::Point(9));
    assert_eq!(broken_reason(&e, &vec![3], &m).as_deref(), Some("a result entity was deleted"));
    let m = record(1, "M1");
    assert_eq!(broken_reason(&e, &vec![4], &m).as_deref(), Some("C3 was deleted"));
}

#[test]
fn owned_dimension_checks() {
    let e = ents();
    let mut m = record(1, "M1");
    m.owned_dims = vec![OwnedDim { expect_expr: None, current: None }];
    assert_eq!(broken_reason(&e, &vec![3], &m).as_deref(), Some("a dimension was deleted"));
    m.owned_dims = vec![OwnedDim {
        expect_expr: None,
        current: Some(DimState { name: "d2".to_string(), derived: true, expr: None, value_close: true }),
    }];
    assert_eq!(broken_reason(&e, &vec![3], &m).as_deref(), Some("d2 was made derived"));
    m.owned_dims = vec![OwnedDim {
        expect_expr: Some("w".to_string()),
        current: Some(DimState { name: "d2".to_string(), derived: false, expr: Some("w * 2".to_string()), value_close: true }),
    }];
    assert_eq!(broken_reason(&e, &vec![3], &m).as_deref(), Some("d2 was edited"));
    m.owned_dims = vec![OwnedDim {
        expect_expr: None,
        current: Some(DimState { name: "d2".to_string(), derived: false, expr: None, value_close: false }),
    }];
    assert_eq!(broken_reason(&e, &vec![3], &m).as_deref(), Some("d2 was edited"));
    m.owned_dims = vec![OwnedDim {
        expect_expr: Some("w".to_string()),
        current: Some(DimState { name: "d2".to_string(), derived: false, expr: Some("w".to_string()), value_close: false }),
    }];
    assert_eq!(broken_reason(&e, &vec![3], &m), None);
}

#[test]
fn reconcile_reports_each_dropped_record() {
    let metas = vec![record(1, "M1"), record(2, "M2")];
    let drops = reconcile_drops(&ents(), &vec![], &metas);
    assert_eq!(
        drops,
        vec![(1, "offset M1 dropped: C3 was deleted".to_string()), (2, "offset M2 dropped: C3 was deleted".to_string())]
    );
    assert!(reconcile_drops(&ents(), &vec![3], &metas).is_empty());
}

#[test]
fn resolve_and_owner() {
    let metas = vec![record(1, "M1"), record(2, "M2")];
    assert_eq!(resolve(&metas, "M2"), Ok(1));
    assert_eq!(resolve(&metas, "M9"), Err("Unknown meta-constraint: M9".to_string()));
    assert_eq!(owner_of(&metas, MetaEntity::Line(1)), Some(0));
    assert_eq!(owner_of(&metas, MetaEntity::Line(0)), None);
}

#[test]
fn deleting_result_skips_helper_names_and_missing_entities() {
    let owned = vec![MetaEntity::Line(1), MetaEntity::Point(1), MetaEntity::Arc(5)];
    let (names, dels) = deletion_of(&ents(), &owned);
    assert_eq!(names, vec!["L1".to_string()]);
    assert_eq!(dels, vec![MetaEntity::Line(1), MetaEntity::Point(1)]);
}

use arael_sketch_backend::meta::{has_helper_points, meta_count};

#[test]
fn helper_points_and_meta_count() {
    assert!(has_helper_points(&ents()));
    let mut e = ents();
    e.points.retain(|p| !p.helper);
    assert!(!has_helper_points(&e));
    assert_eq!(meta_count(&vec![record(1, "M1"), record(2, "M2")]), 2);
}

#[test]
fn reconcile_drops_broken_records_in_place() {
    let mut intact = record(2, "M2");
    intact.owned_constraints = vec![4];
    let mut metas = vec![record(1, "M1"), intact, record(3, "M3")];
    let mut notices = vec!["earlier".to_string()];
    reconcile(&ents(), &vec![4], &mut metas, &mut notices);
    let names: Vec<&str> = metas.iter().map(|m| m.name.as_str()).collect();
    assert_eq!(names, vec!["M2"]);
    assert_eq!(
        notices,
        vec![
            "earlier".to_string(),
            "offset M1 dropped: C3 was deleted".to_string(),
            "offset M3 dropped: C3 was deleted".to_string(),
        ]
    );
    // A second pass drops nothing.
    reconcile(&ents(), &vec![4], &mut metas, &mut notices);
    assert_eq!(metas.len(), 1);
    assert_eq!(notices.len(), 3);
}

#[test]
fn records_are_found_by_mid() {
    let metas = vec![record(1, "M1"), record(4, "M4")];
    assert_eq!(record_for_mid(&metas, 4), Ok(1));
    assert_eq!(record_for_mid(&metas, 12), Err("no meta-constraint M12".to_string()));
}

#[test]
fn deleting_with_result_names_the_visible_entities() {
    let metas = vec![record(1, "M1")];
    // L1 and the helper point P1 exist: both go, only L1 is named.
    let (i, names, dels) = delete_with_result_plan(&ents(), &metas, 1).unwrap();
    assert_eq!(i, 0);
    assert_eq!(names, vec!["L1".to_string()]);
    assert_eq!(dels, vec![MetaEntity::Line(1), MetaEntity::Point(1)]);
    assert_eq!(delete_with_result_plan(&ents(), &metas, 2).unwrap_err(), "no meta-constraint M2");
}

#[test]
fn endpoints_are_named_as_the_user_writes_them() {
    let e = ents();
    assert_eq!(endpoint_name(&e, arael_sketch_backend::split::EndpointRef::LineP2(1)), "L1.p2");
    assert_eq!(endpoint_name(&e, arael_sketch_backend::split::EndpointRef::ArcCenter(0)), "A0.center");
    assert_eq!(endpoint_name(&e, arael_sketch_backend::split::EndpointRef::Point(0)), "P0");
    assert_eq!(endpoint_name(&e, arael_sketch_backend::split::EndpointRef::ArcEnd(5)), ".end");
}
