use arael_sketch_backend::complete::{complete, is_arc_name, NameIndex};
use arael_sketch_backend::pattern::axis_indices;
use arael_sketch_backend::text::{chars_of, parse_usize, push_decimal, trim_chars};

fn s(v: &[char]) -> String { v.iter().collect() }

#[test]
fn trim_drops_unicode_whitespace() {
    assert_eq!(s(&trim_chars(&chars_of(" \t undo 2 \n"))), "undo 2");
    assert_eq!(s(&trim_chars(&chars_of("\u{3000}x\u{a0}"))), "x");
    assert_eq!(s(&trim_chars(&chars_of("   "))), "");
}

#[test]
fn parse_usize_follows_std() {
    for t in ["0", "7", "+12", "0042", "18446744073709551615", "", "+", "-1", "1_0", " 1", "99999999999999999999", "1a"] {
        assert_eq!(parse_usize(&chars_of(t)), t.parse::<usize>().ok(), "{:?}", t);
    }
}

#[test]
fn decimal_matches_to_string() {
    for n in [0usize, 9, 10, 99, 100, 12345, usize::MAX] {
        let mut v = Vec::new();
        push_decimal(&mut v, n);
        assert_eq!(s(&v), n.to_string());
    }
}

#[test]
fn arc_names() {
    assert!(is_arc_name("A0"));
    assert!(is_arc_name("EA12"));
    assert!(!is_arc_name("A"));
    assert!(!is_arc_name("L0"));
    assert!(!is_arc_name("A1x"));
    assert!(!is_arc_name("EA"));
}

#[test]
fn complete_respects_cursor_position() {
    let mut n = NameIndex::new();
    n.lines.push("L0".to_string());
    n.arcs.push("A0".to_string());
    // Only the text before the cursor counts.
    assert_eq!(complete(&n, "horizontal L0", 11), vec!["L0".to_string()]);
    assert_eq!(complete(&n, "concentric A0", 99), vec!["A0".to_string()]);
    assert!(complete(&n, "horizontal L0", 0).is_empty());
}

#[test]
fn complete_offers_session_names_as_entities() {
    let mut n = NameIndex::new();
    n.session.push("a".to_string());
    n.points.push("P3".to_string());
    assert_eq!(complete(&n, "select ", 7), vec!["P3".to_string(), "a".to_string()]);
    assert_eq!(complete(&n, "add_line ", 9), vec!["cursor".to_string(), "P3".to_string()]);
}

#[test]
fn axis_indices_layout() {
    assert_eq!(axis_indices(3, false), vec![0, 1, 2]);
    assert_eq!(axis_indices(3, true), vec![-1, 0, 1]);
    assert_eq!(axis_indices(4, true), vec![-1, 0, 1, 2]);
    assert_eq!(axis_indices(0, false), vec![0]);
    assert_eq!(axis_indices(1, true), vec![0]);
}
