use arael_sketch_backend::ids::{
    constraint_id_name, find_constraint_by_name, format_flag_name, parse_flag_name, ConstraintId,
    LineFlags, NidInfo,
};

fn lines() -> Vec<LineFlags> {
    vec![
        LineFlags { handle: 0, name: "L0".to_string(), horizontal: true, vertical: false },
        LineFlags { handle: 1, name: "L1".to_string(), horizontal: false, vertical: true },
    ]
}

fn constraints() -> Vec<NidInfo> {
    vec![
        NidInfo { nid: 3, dimension_backed: false, bridge: false },
        NidInfo { nid: 4, dimension_backed: true, bridge: false },
        NidInfo { nid: 5, dimension_backed: false, bridge: true },
    ]
}

#[test]
fn flag_names() {
    assert_eq!(format_flag_name("L0", 'H'), "CL0H");
    assert_eq!(parse_flag_name("CL3V"), Some(("L3".to_string(), 'V')));
    assert_eq!(parse_flag_name("CL3X"), None);
    assert_eq!(parse_flag_name("CH"), None);
    assert_eq!(parse_flag_name("XL3H"), None);
}

#[test]
fn find_numbered_constraint() {
    assert_eq!(find_constraint_by_name(&lines(), &constraints(), "C3"), Some(ConstraintId::Numbered(3)));
    // Dimension-backed and bridge constraints are not addressable.
    assert_eq!(find_constraint_by_name(&lines(), &constraints(), "C4"), None);
    assert_eq!(find_constraint_by_name(&lines(), &constraints(), "C5"), None);
    // Unknown and zero nids.
    assert_eq!(find_constraint_by_name(&lines(), &constraints(), "C9"), None);
    assert_eq!(find_constraint_by_name(&lines(), &constraints(), "C0"), None);
}

#[test]
fn find_flag_constraint() {
    assert_eq!(find_constraint_by_name(&lines(), &constraints(), "CL0H"), Some(ConstraintId::Horizontal(0)));
    assert_eq!(find_constraint_by_name(&lines(), &constraints(), "CL1V"), Some(ConstraintId::Vertical(1)));
    // The flag is not set.
    assert_eq!(find_constraint_by_name(&lines(), &constraints(), "CL0V"), None);
    assert_eq!(find_constraint_by_name(&lines(), &constraints(), "CL7H"), None);
    assert_eq!(find_constraint_by_name(&lines(), &constraints(), "nonsense"), None);
}

#[test]
fn constraint_names() {
    let nids = vec![3, 4];
    assert_eq!(constraint_id_name(&lines(), &nids, ConstraintId::Horizontal(0)).as_deref(), Some("CL0H"));
    assert_eq!(constraint_id_name(&lines(), &nids, ConstraintId::Vertical(1)).as_deref(), Some("CL1V"));
    assert_eq!(constraint_id_name(&lines(), &nids, ConstraintId::Numbered(42)), None);
    assert_eq!(constraint_id_name(&lines(), &vec![42], ConstraintId::Numbered(42)).as_deref(), Some("C42"));
    assert_eq!(constraint_id_name(&lines(), &nids, ConstraintId::HelperBridge(3)), None);
    assert_eq!(constraint_id_name(&lines(), &nids, ConstraintId::Horizontal(9)), None);
}

#[test]
fn shown_name_resolves_back() {
    let nids = vec![3];
    for id in [ConstraintId::Numbered(3), ConstraintId::Horizontal(0), ConstraintId::Vertical(1)] {
        let name = constraint_id_name(&lines(), &nids, id).unwrap();
        assert_eq!(find_constraint_by_name(&lines(), &constraints(), &name), Some(id));
    }
}
