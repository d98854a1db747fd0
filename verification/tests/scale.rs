use arael_sketch_backend::scale::{classify_scale_dims, BoundValue, RangeBound, ScaleDim};
use arael_sketch_backend::split::EndpointRef;
use arael_sketch_backend::transfer::DimKind;

fn dim(did: u32, name: &str, kind: DimKind) -> ScaleDim {
    ScaleDim { did, name: name.to_string(), kind, derived: false, has_expr: false, range: None }
}

#[test]
fn inside_driving_dims_scale_others_are_reported() {
    let dims = vec![
        dim(1, "d1", DimKind::LineLength(0)),
        dim(2, "d2", DimKind::PointPointDistance(EndpointRef::LineP1(0), EndpointRef::Point(9))),
        dim(3, "d3", DimKind::Angle(0, 1, false)),
        dim(4, "d4", DimKind::LineLength(7)),
        ScaleDim { has_expr: true, ..dim(5, "d5", DimKind::LineLength(0)) },
        ScaleDim { range: Some(RangeBound::Between(BoundValue::Literal, BoundValue::Live)), ..dim(6, "d6", DimKind::LineLength(0)) },
        ScaleDim { derived: true, ..dim(7, "d7", DimKind::LineLength(0)) },
        ScaleDim { range: Some(RangeBound::Min(BoundValue::Literal)), ..dim(8, "d8", DimKind::ArcRadius(2)) },
    ];
    let (dids, report) = classify_scale_dims(&dims, &vec![0], &vec![2], &vec![]);
    assert_eq!(dids, vec![1, 8]);
    assert_eq!(report.scaled, vec!["d1".to_string(), "d8".to_string()]);
    assert_eq!(
        report.left,
        vec![
            ("d2".to_string(), "spans unscaled geometry"),
            ("d5".to_string(), "expression"),
            ("d6".to_string(), "live range bound"),
        ]
    );
}

#[test]
fn points_in_the_set_count() {
    let dims = vec![dim(1, "d1", DimKind::HDistance(EndpointRef::Point(3), EndpointRef::Point(4)))];
    let (dids, report) = classify_scale_dims(&dims, &vec![], &vec![], &vec![3, 4]);
    assert_eq!(dids, vec![1]);
    assert!(report.left.is_empty());
    let (dids, report) = classify_scale_dims(&dims, &vec![], &vec![], &vec![3]);
    assert!(dids.is_empty());
    assert_eq!(report.left, vec![("d1".to_string(), "spans unscaled geometry")]);
}
