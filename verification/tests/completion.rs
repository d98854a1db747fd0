use arael_sketch_backend::commands::{completions, setup_complete_ctx, CommandContext};
use arael_sketch_backend::complete::is_arc_name;

/// The context type the completion fixture is built with.
type Ctx = CommandContext<String, ()>;


#[test]
fn test_complete_empty_input() {
    let ctx: Ctx = setup_complete_ctx();
    assert!(completions(&ctx, "").is_empty());
}

#[test]
fn test_complete_first_token_commands() {
    let ctx: Ctx = setup_complete_ctx();
    let c = completions(&ctx, "add_");
    assert!(c.contains(&"add_line".to_string()));
    assert!(c.contains(&"add_point".to_string()));
    assert!(c.contains(&"add_circle".to_string()));
    // Should NOT contain entity names
    assert!(!c.iter().any(|s| s.starts_with('L')));
}

#[test]
fn test_complete_list_filters_not_entities() {
    let ctx: Ctx = setup_complete_ctx();
    let c = completions(&ctx, "list l");
    assert!(c.contains(&"lines".to_string()));
    assert!(!c.iter().any(|s| s.starts_with('L')), "list should not offer entity names: {:?}", c);
}

#[test]
fn test_complete_cursor_keywords() {
    let ctx: Ctx = setup_complete_ctx();
    let c = completions(&ctx, "cursor o");
    assert!(c.contains(&"on".to_string()));
    assert!(c.contains(&"off".to_string()));
}

#[test]
fn test_complete_add_line_cursor() {
    let ctx: Ctx = setup_complete_ctx();
    let c = completions(&ctx, "add_line curs");
    assert!(c.contains(&"cursor".to_string()));
}

#[test]
fn test_complete_horizontal_lines_only() {
    let ctx: Ctx = setup_complete_ctx();
    let c = completions(&ctx, "horizontal L");
    assert!(c.contains(&"L0".to_string()));
    assert!(c.contains(&"L1".to_string()));
    assert!(!c.iter().any(|s| is_arc_name(s)), "horizontal should not offer arcs");
    assert!(!c.iter().any(|s| s.starts_with('P')), "horizontal should not offer points");
}

#[test]
fn test_complete_concentric_arcs_only() {
    let ctx: Ctx = setup_complete_ctx();
    let c = completions(&ctx, "concentric A");
    assert!(c.contains(&"A0".to_string()));
    assert!(!c.iter().any(|s| s.starts_with('L')), "concentric should not offer lines");
}

#[test]
fn test_complete_style_values() {
    let ctx: Ctx = setup_complete_ctx();
    let c = completions(&ctx, "style L0 d");
    assert!(c.contains(&"dashed".to_string()));
    assert!(c.contains(&"dashdot".to_string()));
    assert!(!c.iter().any(|s| s.starts_with("d0")), "style arg2 should not offer dimensions");
}

#[test]
fn test_complete_delete_dim() {
    let ctx: Ctx = setup_complete_ctx();
    let c = completions(&ctx, "delete d");
    assert!(c.contains(&"d0".to_string()));
}

#[test]
fn test_complete_length_arg2_derived() {
    let ctx: Ctx = setup_complete_ctx();
    let c = completions(&ctx, "length L0 d");
    assert!(c.contains(&"derived".to_string()));
    // Should offer dimension refs in expression context
    assert!(c.contains(&"d0".to_string()));
    // Should NOT offer lines
    assert!(!c.contains(&"L0".to_string()), "length arg2 should not offer L0");
}

#[test]
fn test_complete_equal_type_matching() {
    let ctx: Ctx = setup_complete_ctx();
    // After "equal L0", should only offer lines
    let c = completions(&ctx, "equal L0 L");
    assert!(c.contains(&"L1".to_string()));
    assert!(!c.iter().any(|s| is_arc_name(s)), "equal with L0 should not offer arcs");
}

#[test]
fn test_complete_dim_pos() {
    let ctx: Ctx = setup_complete_ctx();
    let c = completions(&ctx, "dim_pos d0 o");
    assert!(c.contains(&"offset".to_string()));
    let c = completions(&ctx, "dim_pos d0 a");
    assert!(c.contains(&"along".to_string()));
}

#[test]
fn test_complete_no_arg_commands() {
    let ctx: Ctx = setup_complete_ctx();
    assert!(completions(&ctx, "dof x").is_empty());
    assert!(completions(&ctx, "cost x").is_empty());
}

#[test]
fn test_complete_del_param() {
    let ctx: Ctx = setup_complete_ctx();
    let c = completions(&ctx, "del_param w");
    assert!(c.contains(&"width".to_string()));
}

#[test]
fn test_complete_delete_constraint_types() {
    let ctx: Ctx = setup_complete_ctx();
    let c = completions(&ctx, "delete L0 h");
    assert!(c.contains(&"horizontal".to_string()));
}

#[test]
fn test_complete_dot_line() {
    let ctx: Ctx = setup_complete_ctx();
    let c = completions(&ctx, "info L0.");
    assert!(c.contains(&"L0.p1".to_string()));
    assert!(c.contains(&"L0.p2".to_string()));
}

#[test]
fn test_complete_dot_arc() {
    let ctx: Ctx = setup_complete_ctx();
    let c = completions(&ctx, "info A0.");
    assert!(c.contains(&"A0.center".to_string()));
    assert!(c.contains(&"A0.start".to_string()));
    assert!(c.contains(&"A0.end".to_string()));
}

#[test]
fn test_complete_midpoint_arg2_lines_only() {
    let ctx: Ctx = setup_complete_ctx();
    let c = completions(&ctx, "midpoint P0 L");
    assert!(c.contains(&"L0".to_string()));
    assert!(!c.iter().any(|s| is_arc_name(s)), "midpoint arg2 should not offer arcs");
}

#[test]
fn test_complete_offset_line_arg1() {
    let ctx: Ctx = setup_complete_ctx();
    let c = completions(&ctx, "offset L");
    assert!(c.contains(&"L0".to_string()));
    assert!(!c.iter().any(|s| is_arc_name(s)));
}

#[test]
fn test_complete_list_space_shows_options() {
    let ctx: Ctx = setup_complete_ctx();
    let c = completions(&ctx, "list ");
    assert!(c.contains(&"lines".to_string()));
    assert!(c.contains(&"constraints".to_string()));
}

#[test]
fn test_complete_horizontal_space_shows_lines() {
    let ctx: Ctx = setup_complete_ctx();
    let c = completions(&ctx, "horizontal ");
    assert!(c.contains(&"L0".to_string()));
    assert!(c.contains(&"L1".to_string()));
    assert!(!c.iter().any(|s| is_arc_name(s)));
}

#[test]
fn test_complete_cursor_space_shows_keywords() {
    let ctx: Ctx = setup_complete_ctx();
    let c = completions(&ctx, "cursor ");
    assert!(c.contains(&"on".to_string()));
    assert!(c.contains(&"off".to_string()));
}

#[test]
fn test_complete_style_space_shows_entities() {
    let ctx: Ctx = setup_complete_ctx();
    let c = completions(&ctx, "style ");
    assert!(c.contains(&"L0".to_string()));
}

#[test]
fn test_complete_style_entity_space_shows_values() {
    let ctx: Ctx = setup_complete_ctx();
    let c = completions(&ctx, "style L0 ");
    assert!(c.contains(&"solid".to_string()));
    assert!(c.contains(&"dashed".to_string()));
}

#[test]
fn test_complete_empty_first_token_no_suggestions() {
    let ctx: Ctx = setup_complete_ctx();
    // Just a space or empty — no suggestions
    assert!(completions(&ctx, "").is_empty());
}

#[test]
fn test_complete_add_line_after_coords_only_flags() {
    let ctx: Ctx = setup_complete_ctx();
    let c = completions(&ctx, "add_line 0,0 5,0 ");
    assert!(c.contains(&"noconnect".to_string()));
    assert!(c.contains(&"nocursor".to_string()));
    assert!(!c.iter().any(|s| s.starts_with('L')), "Should not offer entities after coords: {:?}", c);
}

#[test]
fn test_complete_add_line_flag_excludes_typed() {
    let ctx: Ctx = setup_complete_ctx();
    let c = completions(&ctx, "add_line 0,0 5,0 nocursor ");
    assert!(c.contains(&"noconnect".to_string()));
    assert!(!c.contains(&"nocursor".to_string()), "Should not re-offer nocursor");
}

#[test]
fn test_complete_add_line_first_coord() {
    let ctx: Ctx = setup_complete_ctx();
    let c = completions(&ctx, "add_line curs");
    assert!(c.contains(&"cursor".to_string()));
}

#[test]
fn test_complete_add_point_after_coord() {
    let ctx: Ctx = setup_complete_ctx();
    let c = completions(&ctx, "add_point 0,0 ");
    assert!(c.contains(&"nocursor".to_string()));
    assert!(!c.iter().any(|s| s.starts_with('L')), "Should not offer entities: {:?}", c);
}

#[test]
fn test_complete_add_circle_radius_position() {
    let ctx: Ctx = setup_complete_ctx();
    // After center coord, radius is expression context
    let c = completions(&ctx, "add_circle 0,0 w");
    assert!(c.contains(&"width".to_string()));
    assert!(!c.contains(&"cursor".to_string()));
}

#[test]
fn test_complete_add_arc_after_3_coords() {
    let ctx: Ctx = setup_complete_ctx();
    let c = completions(&ctx, "add_arc 0,0 5,0 2,3 ");
    assert!(c.contains(&"noconnect".to_string()));
    assert!(!c.iter().any(|s| s.starts_with('L')));
}

#[test]
fn test_complete_help_full() {
    let ctx: Ctx = setup_complete_ctx();
    let c = completions(&ctx, "help f");
    assert!(c.contains(&"full".to_string()));
}

#[test]
fn test_complete_list_all_keyword() {
    let ctx: Ctx = setup_complete_ctx();
    let c = completions(&ctx, "list a");
    assert!(c.contains(&"all".to_string()));
    assert!(c.contains(&"arcs".to_string()));
}

#[test]
fn test_complete_list_no_second_arg() {
    let ctx: Ctx = setup_complete_ctx();
    assert!(completions(&ctx, "list lines ").is_empty());
}

#[test]
fn test_complete_horizontal_excludes_typed() {
    let ctx: Ctx = setup_complete_ctx();
    let c = completions(&ctx, "horizontal L0 L");
    assert!(c.contains(&"L1".to_string()));
    assert!(!c.contains(&"L0".to_string()), "Should exclude already-typed L0");
}

#[test]
fn test_complete_select_excludes_typed() {
    let ctx: Ctx = setup_complete_ctx();
    let c = completions(&ctx, "select L0 P0 L");
    assert!(c.contains(&"L1".to_string()));
    assert!(!c.contains(&"L0".to_string()), "Should exclude already-typed L0");
}

#[test]
fn test_complete_cursor_no_second_arg() {
    let ctx: Ctx = setup_complete_ctx();
    assert!(completions(&ctx, "cursor on ").is_empty());
}

#[test]
fn test_complete_parallel_no_third_arg() {
    let ctx: Ctx = setup_complete_ctx();
    assert!(completions(&ctx, "parallel L0 L1 ").is_empty());
}

#[test]
fn completions_continue_the_typed_word_and_skip_given_args() {
    let ctx: Ctx = setup_complete_ctx();
    for input in ["co", "parallel L", "equal L0 L", "length L0 ", "add_"] {
        let partial = input.rsplit(' ').next().unwrap();
        let given: Vec<&str> = input.split_whitespace().skip(1).collect();
        let given: Vec<&str> = if input.ends_with(' ') { given } else { given[..given.len().saturating_sub(1)].to_vec() };
        for c in completions(&ctx, input) {
            assert!(c.starts_with(partial), "{:?} from {:?}", c, input);
            assert!(!given.contains(&c.as_str()), "{:?} repeats an argument of {:?}", c, input);
        }
    }
    assert!(!completions(&ctx, "equal L0 L").contains(&"L0".to_string()));
}
