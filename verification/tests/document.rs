//! The document helpers: source positions and the top-level node filters.
use aml::{parse, Node, Span};

#[test]
fn span_line_col_counts_lines_and_columns() {
    let source = "ab\ncd\nef";
    assert_eq!(Span::new(0, 1).line_col(source), (1, 1));
    assert_eq!(Span::new(1, 2).line_col(source), (1, 2));
    assert_eq!(Span::new(3, 4).line_col(source), (2, 1));
    assert_eq!(Span::new(4, 5).line_col(source), (2, 2));
    assert_eq!(Span::new(7, 8).line_col(source), (3, 2));
}

#[test]
fn span_line_col_counts_characters_not_bytes() {
    // 'é' takes two bytes: the character after it starts at byte 3, column 3.
    let source = "aéb";
    assert_eq!(Span::new(3, 4).line_col(source), (1, 3));
}

#[test]
fn span_line_col_past_the_end_is_after_the_last_character() {
    assert_eq!(Span::new(100, 100).line_col("a\nbc"), (2, 3));
}

#[test]
fn skill_nodes_keeps_top_level_skills_in_order() {
    let doc = parse(
        r#"a<skill interface="x">1</skill><tool name="bash"><skill interface="y">2</skill></tool><skill impl="z">3</skill>"#,
    )
    .unwrap();
    let skills = doc.skill_nodes();
    assert_eq!(skills.len(), 2);
    match skills[0] {
        Node::Skill { children, .. } => assert_eq!(children[0], Node::Text("1".to_string())),
        other => panic!("expected a skill, got {:?}", other),
    }
    match skills[1] {
        Node::Skill { children, .. } => assert_eq!(children[0], Node::Text("3".to_string())),
        other => panic!("expected a skill, got {:?}", other),
    }
}
