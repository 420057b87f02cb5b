//! Parser behaviour: tags, directives, the root wrapper and definition bodies.
use aml::{parse, AgentMode, DirectiveKind, Node, NodeKind};


#[test]
fn test_simple_invocation() {
    let input = r#"<skill interface="code-review">Review this.</skill>"#;
    let doc = parse(input).unwrap();
    assert_eq!(doc.nodes.len(), 1);
    match &doc.nodes[0] {
        Node::Skill { kind, children, .. } => {
            assert!(
                matches!(kind, NodeKind::Invocation { interface: Some(i), .. } if i == "code-review")
            );
            assert_eq!(children.len(), 1);
            assert!(matches!(&children[0], Node::Text(t) if t == "Review this."));
        }
        _ => panic!("expected Skill node"),
    }
}

#[test]
fn test_self_closing() {
    let input = r#"<skill interface="health-check" />"#;
    let doc = parse(input).unwrap();
    assert_eq!(doc.nodes.len(), 1);
    match &doc.nodes[0] {
        Node::Skill { kind, children, .. } => {
            assert!(
                matches!(kind, NodeKind::Invocation { interface: Some(i), .. } if i == "health-check")
            );
            assert!(children.is_empty());
        }
        _ => panic!("expected Skill node"),
    }
}

#[test]
fn test_interface_definition() {
    let input = r#"<skill define="interface" name="testing">A test interface.</skill>"#;
    let doc = parse(input).unwrap();
    assert_eq!(doc.nodes.len(), 1);
    match &doc.nodes[0] {
        Node::Skill { kind, .. } => {
            assert!(
                matches!(kind, NodeKind::InterfaceDefinition { name, .. } if name == "testing")
            );
        }
        _ => panic!("expected Skill node"),
    }
}

#[test]
fn test_mixed_content() {
    let input = "Hello <skill interface=\"greet\">world</skill> end.";
    let doc = parse(input).unwrap();
    assert_eq!(doc.nodes.len(), 3);
    assert!(matches!(&doc.nodes[0], Node::Text(t) if t == "Hello "));
    assert!(matches!(&doc.nodes[1], Node::Skill { .. }));
    assert!(matches!(&doc.nodes[2], Node::Text(t) if t == " end."));
}

#[test]
fn test_nested_skills() {
    let input = r#"<skill interface="outer"><skill interface="inner">content</skill></skill>"#;
    let doc = parse(input).unwrap();
    assert_eq!(doc.nodes.len(), 1);
    match &doc.nodes[0] {
        Node::Skill { children, .. } => {
            assert_eq!(children.len(), 1);
            assert!(
                matches!(&children[0], Node::Skill { kind: NodeKind::Invocation { interface: Some(i), .. }, .. } if i == "inner")
            );
        }
        _ => panic!("expected Skill node"),
    }
}

#[test]
fn test_params() {
    let input =
        r#"<skill interface="review"><param name="focus">security</param>Code here.</skill>"#;
    let doc = parse(input).unwrap();
    match &doc.nodes[0] {
        Node::Skill { params, .. } => {
            assert_eq!(params.len(), 1);
            assert_eq!(params[0].name, "focus");
            assert_eq!(params[0].value, "security");
        }
        _ => panic!("expected Skill node"),
    }
}

#[test]
fn test_escape_sequences() {
    let input = r#"<skill interface="test">x &lt; y &amp; z</skill>"#;
    let doc = parse(input).unwrap();
    match &doc.nodes[0] {
        Node::Skill { children, .. } => {
            assert!(matches!(&children[0], Node::Text(t) if t == "x < y & z"));
        }
        _ => panic!("expected Skill node"),
    }
}

#[test]
fn test_unclosed_tag_error() {
    let input = r#"<skill interface="broken">no close"#;
    let result = parse(input);
    assert!(result.is_err());
    assert!(result.unwrap_err().message.contains("unclosed"));
}

#[test]
fn test_missing_resolution_target() {
    let input = r#"<skill retries="2">content</skill>"#;
    let result = parse(input);
    assert!(result.is_err());
    assert!(result
        .unwrap_err()
        .message
        .contains("at least one of: interface, impl, or name"));
}

// --- Directive tag tests ---

#[test]
fn test_tool_with_name() {
    let input = r#"<tool name="bash">run tests</tool>"#;
    let doc = parse(input).unwrap();
    assert_eq!(doc.nodes.len(), 1);
    match &doc.nodes[0] {
        Node::Directive { kind, children, .. } => {
            match kind {
                DirectiveKind::Tool(t) => {
                    assert_eq!(t.name.as_deref(), Some("bash"));
                    assert!(t.allow.is_none());
                    assert!(t.deny.is_none());
                }
                _ => panic!("expected Tool directive"),
            }
            assert_eq!(children.len(), 1);
            assert!(matches!(&children[0], Node::Text(t) if t == "run tests"));
        }
        _ => panic!("expected Directive node"),
    }
}

#[test]
fn test_tool_with_allow() {
    let input = r#"<tool allow="bash,grep">content</tool>"#;
    let doc = parse(input).unwrap();
    match &doc.nodes[0] {
        Node::Directive {
            kind: DirectiveKind::Tool(t),
            ..
        } => {
            assert!(t.name.is_none());
            assert_eq!(t.allow.as_deref(), Some("bash,grep"));
        }
        _ => panic!("expected Tool directive"),
    }
}

#[test]
fn test_tool_with_deny() {
    let input = r#"<tool deny="exec">content</tool>"#;
    let doc = parse(input).unwrap();
    match &doc.nodes[0] {
        Node::Directive {
            kind: DirectiveKind::Tool(t),
            ..
        } => {
            assert_eq!(t.deny.as_deref(), Some("exec"));
        }
        _ => panic!("expected Tool directive"),
    }
}

#[test]
fn test_tool_missing_attrs() {
    let input = r#"<tool>content</tool>"#;
    let result = parse(input);
    assert!(result.is_err());
    assert!(result
        .unwrap_err()
        .message
        .contains("at least one of: name, allow, or deny"));
}

#[test]
fn test_session_basic() {
    let input = r#"<session name="backend">work here</session>"#;
    let doc = parse(input).unwrap();
    assert_eq!(doc.nodes.len(), 1);
    match &doc.nodes[0] {
        Node::Directive {
            kind: DirectiveKind::Session(s),
            children,
            ..
        } => {
            assert_eq!(s.name.as_deref(), Some("backend"));
            assert!(s.isolated.is_none());
            assert_eq!(children.len(), 1);
        }
        _ => panic!("expected Session directive"),
    }
}

#[test]
fn test_session_with_isolated() {
    let input = r#"<session isolated="false">shared work</session>"#;
    let doc = parse(input).unwrap();
    match &doc.nodes[0] {
        Node::Directive {
            kind: DirectiveKind::Session(s),
            ..
        } => {
            assert_eq!(s.isolated, Some(false));
        }
        _ => panic!("expected Session directive"),
    }
}

#[test]
fn test_session_no_attrs() {
    let input = r#"<session>anonymous session</session>"#;
    let doc = parse(input).unwrap();
    match &doc.nodes[0] {
        Node::Directive {
            kind: DirectiveKind::Session(s),
            ..
        } => {
            assert!(s.name.is_none());
            assert!(s.isolated.is_none());
        }
        _ => panic!("expected Session directive"),
    }
}

#[test]
fn test_agent_basic() {
    let input = r#"<agent name="inspector">review code</agent>"#;
    let doc = parse(input).unwrap();
    assert_eq!(doc.nodes.len(), 1);
    match &doc.nodes[0] {
        Node::Directive {
            kind: DirectiveKind::Agent(a),
            children,
            ..
        } => {
            assert_eq!(a.name, "inspector");
            assert!(a.model.is_none());
            assert!(a.mode.is_none());
            assert_eq!(children.len(), 1);
        }
        _ => panic!("expected Agent directive"),
    }
}

#[test]
fn test_agent_with_model_and_mode() {
    let input = r#"<agent name="helper" model="gpt-4" mode="background">do work</agent>"#;
    let doc = parse(input).unwrap();
    match &doc.nodes[0] {
        Node::Directive {
            kind: DirectiveKind::Agent(a),
            ..
        } => {
            assert_eq!(a.name, "helper");
            assert_eq!(a.model.as_deref(), Some("gpt-4"));
            assert_eq!(a.mode, Some(AgentMode::Background));
        }
        _ => panic!("expected Agent directive"),
    }
}

#[test]
fn test_agent_missing_name() {
    let input = r#"<agent model="gpt-4">work</agent>"#;
    let result = parse(input);
    assert!(result.is_err());
    assert!(result.unwrap_err().message.contains("requires 'name'"));
}

#[test]
fn test_agent_invalid_mode() {
    let input = r#"<agent name="x" mode="parallel">work</agent>"#;
    let result = parse(input);
    assert!(result.is_err());
    assert!(result.unwrap_err().message.contains("invalid mode value"));
}

#[test]
fn test_self_closing_tool() {
    let input = r#"<tool name="bash" />"#;
    let doc = parse(input).unwrap();
    match &doc.nodes[0] {
        Node::Directive { children, .. } => {
            assert!(children.is_empty());
        }
        _ => panic!("expected Directive node"),
    }
}

#[test]
fn test_nested_skill_in_agent() {
    let input = r#"<agent name="dev"><skill interface="lint">code</skill></agent>"#;
    let doc = parse(input).unwrap();
    assert_eq!(doc.nodes.len(), 1);
    match &doc.nodes[0] {
        Node::Directive { children, .. } => {
            assert_eq!(children.len(), 1);
            assert!(matches!(&children[0], Node::Skill { .. }));
        }
        _ => panic!("expected Directive node"),
    }
}

#[test]
fn test_nested_agent_in_tool_in_session() {
    let input = r#"<session name="s1"><tool name="bash"><agent name="runner">go</agent></tool></session>"#;
    let doc = parse(input).unwrap();
    assert_eq!(doc.nodes.len(), 1);
    match &doc.nodes[0] {
        Node::Directive {
            kind: DirectiveKind::Session(_),
            children,
            ..
        } => {
            assert_eq!(children.len(), 1);
            match &children[0] {
                Node::Directive {
                    kind: DirectiveKind::Tool(_),
                    children: inner,
                    ..
                } => {
                    assert_eq!(inner.len(), 1);
                    assert!(matches!(
                        &inner[0],
                        Node::Directive {
                            kind: DirectiveKind::Agent(_),
                            ..
                        }
                    ));
                }
                _ => panic!("expected Tool directive"),
            }
        }
        _ => panic!("expected Session directive"),
    }
}

#[test]
fn test_mixed_text_and_directives() {
    let input = r#"before <tool name="bash">middle</tool> after"#;
    let doc = parse(input).unwrap();
    assert_eq!(doc.nodes.len(), 3);
    assert!(matches!(&doc.nodes[0], Node::Text(t) if t == "before "));
    assert!(matches!(&doc.nodes[1], Node::Directive { .. }));
    assert!(matches!(&doc.nodes[2], Node::Text(t) if t == " after"));
}

#[test]
fn test_unclosed_directive_error() {
    let input = r#"<agent name="x">no close"#;
    let result = parse(input);
    assert!(result.is_err());
    assert!(result.unwrap_err().message.contains("unclosed"));
}

// ── <aml> root wrapper tests ──

#[test]
fn test_aml_root_with_version() {
    let doc = parse(r#"<aml version="0.1"><skill name="x">body</skill></aml>"#).unwrap();
    assert_eq!(doc.version.as_deref(), Some("0.1"));
    assert_eq!(doc.nodes.len(), 1);
    assert!(matches!(&doc.nodes[0], Node::Skill { .. }));
}

#[test]
fn test_aml_root_with_whitespace_around() {
    let doc =
        parse("  \n<aml version=\"0.1\">\n  <skill name=\"x\">y</skill>\n</aml>\n  ").unwrap();
    assert_eq!(doc.version.as_deref(), Some("0.1"));
}

#[test]
fn test_aml_root_with_comments_around() {
    let doc = parse("<!-- header -->\n<aml version=\"0.1\"><skill name=\"x\">y</skill></aml>\n<!-- footer -->").unwrap();
    assert_eq!(doc.version.as_deref(), Some("0.1"));
}

#[test]
fn test_fragment_mode_no_aml() {
    let doc = parse(r#"<skill name="x">body</skill>"#).unwrap();
    assert!(doc.version.is_none());
    assert_eq!(doc.nodes.len(), 1);
}

#[test]
fn test_aml_missing_version() {
    let err = parse("<aml><skill name=\"x\">y</skill></aml>").unwrap_err();
    assert!(
        err.message.contains("version"),
        "should require version: {}",
        err.message
    );
}

#[test]
fn test_aml_unknown_attribute() {
    let err = parse(r#"<aml version="0.1" encoding="utf-8"><skill name="x">y</skill></aml>"#)
        .unwrap_err();
    assert!(
        err.message.contains("encoding"),
        "should reject unknown attr: {}",
        err.message
    );
}

#[test]
fn test_aml_text_before_error() {
    let err =
        parse(r#"some text <aml version="0.1"><skill name="x">y</skill></aml>"#).unwrap_err();
    assert!(
        err.message.contains("non-whitespace content before"),
        "{}",
        err.message
    );
}

#[test]
fn test_aml_text_after_error() {
    let err = parse(r#"<aml version="0.1"><skill name="x">y</skill></aml> trailing text"#)
        .unwrap_err();
    assert!(
        err.message.contains("non-whitespace content after"),
        "{}",
        err.message
    );
}

#[test]
fn test_aml_nested_error() {
    let err =
        parse(r#"<aml version="0.1"><aml version="0.2"><skill name="x">y</skill></aml></aml>"#)
            .unwrap_err();
    assert!(err.message.contains("nested"), "{}", err.message);
}

#[test]
fn test_aml_nested_in_skill_error() {
    let err =
        parse(r#"<aml version="0.1"><skill name="x"><aml version="0.2">y</aml></skill></aml>"#)
            .unwrap_err();
    assert!(err.message.contains("nested"), "{}", err.message);
}

#[test]
fn test_aml_self_closing() {
    let doc = parse(r#"<aml version="0.1"/>"#).unwrap();
    assert_eq!(doc.version.as_deref(), Some("0.1"));
    assert!(doc.nodes.is_empty());
}

#[test]
fn test_aml_unclosed_error() {
    let err = parse(r#"<aml version="0.1"><skill name="x">y</skill>"#).unwrap_err();
    assert!(
        err.message.contains("unclosed") || err.message.contains("missing </aml>"),
        "{}",
        err.message
    );
}

#[test]
fn test_aml_preserves_children() {
    let doc = parse(
        r#"<aml version="0.1">
        <tool name="grep">
            <skill name="search">find things</skill>
        </tool>
        <agent name="worker">do work</agent>
    </aml>"#,
    )
    .unwrap();
    assert_eq!(doc.version.as_deref(), Some("0.1"));
    // Should have text + tool + text + agent + text nodes
    let non_text: Vec<_> = doc
        .nodes
        .iter()
        .filter(|n| !matches!(n, Node::Text(_)))
        .collect();
    assert_eq!(
        non_text.len(),
        2,
        "should have tool + agent: {:?}",
        non_text
    );
}

// ── Typed interface declaration tests ─────────────────────────────────

#[test]
fn test_interface_with_typed_params() {
    let doc = parse(
        r#"<skill define="interface" name="brain-query">
  <param name="question" type="string" required="true">The question to answer</param>
  <param name="format" type="enum" values="markdown|table" default="markdown">Output format</param>
</skill>"#,
    )
    .unwrap();

    if let Node::Skill {
        kind: NodeKind::InterfaceDefinition { params, .. },
        ..
    } = &doc.nodes[0]
    {
        assert_eq!(params.len(), 2);
        assert_eq!(params[0].name, "question");
        assert_eq!(params[0].param_type.as_deref(), Some("string"));
        assert_eq!(params[0].required, Some(true));
        assert_eq!(
            params[0].description.as_deref(),
            Some("The question to answer")
        );
        assert_eq!(params[1].name, "format");
        assert_eq!(params[1].param_type.as_deref(), Some("enum"));
        assert_eq!(params[1].values.as_deref(), Some("markdown|table"));
        assert_eq!(params[1].default.as_deref(), Some("markdown"));
    } else {
        panic!("expected InterfaceDefinition");
    }
}

#[test]
fn test_interface_with_returns() {
    let doc = parse(
        r#"<skill define="interface" name="brain-query">
  <returns name="answer" type="string">Citation-backed answer</returns>
  <returns name="quality" type="enum" values="answered|partial|unanswered" />
</skill>"#,
    )
    .unwrap();

    if let Node::Skill {
        kind: NodeKind::InterfaceDefinition { return_decls, .. },
        ..
    } = &doc.nodes[0]
    {
        assert_eq!(return_decls.len(), 2);
        assert_eq!(return_decls[0].name, "answer");
        assert_eq!(
            return_decls[0].description.as_deref(),
            Some("Citation-backed answer")
        );
        assert_eq!(return_decls[1].name, "quality");
        assert_eq!(return_decls[1].return_type.as_deref(), Some("enum"));
        assert_eq!(
            return_decls[1].values.as_deref(),
            Some("answered|partial|unanswered")
        );
        assert!(return_decls[1].description.is_none());
    } else {
        panic!("expected InterfaceDefinition");
    }
}

#[test]
fn test_interface_with_reads_writes() {
    let doc = parse(
        r#"<skill define="interface" name="brain-query">
  <reads>wiki/index.md, wiki/**/*.md</reads>
  <writes>raw/brain-questions.md</writes>
</skill>"#,
    )
    .unwrap();

    if let Node::Skill {
        kind: NodeKind::InterfaceDefinition { reads, writes, .. },
        ..
    } = &doc.nodes[0]
    {
        let r = reads.as_ref().unwrap();
        assert_eq!(r.patterns, vec!["wiki/index.md", "wiki/**/*.md"]);
        let w = writes.as_ref().unwrap();
        assert_eq!(w.patterns, vec!["raw/brain-questions.md"]);
    } else {
        panic!("expected InterfaceDefinition");
    }
}

#[test]
fn test_interface_text_only_body_backward_compat() {
    let doc = parse(
        r#"<skill define="interface" name="unit-testing">
  Execute automated tests and report results.
</skill>"#,
    )
    .unwrap();

    if let Node::Skill {
        kind:
            NodeKind::InterfaceDefinition {
                params,
                return_decls,
                reads,
                writes,
                ..
            },
        children,
        ..
    } = &doc.nodes[0]
    {
        assert!(params.is_empty());
        assert!(return_decls.is_empty());
        assert!(reads.is_none());
        assert!(writes.is_none());
        // Text body should be preserved as children
        assert!(!children.is_empty());
        if let Node::Text(t) = &children[0] {
            assert!(t.contains("Execute automated tests"));
        }
    } else {
        panic!("expected InterfaceDefinition");
    }
}

#[test]
fn test_interface_self_closing_params() {
    let doc = parse(
        r#"<skill define="interface" name="test">
  <param name="x" type="number" />
  <param name="y" type="boolean" default="false" />
</skill>"#,
    )
    .unwrap();

    if let Node::Skill {
        kind: NodeKind::InterfaceDefinition { params, .. },
        ..
    } = &doc.nodes[0]
    {
        assert_eq!(params.len(), 2);
        assert_eq!(params[0].name, "x");
        assert!(params[0].description.is_none());
        assert_eq!(params[1].default.as_deref(), Some("false"));
    } else {
        panic!("expected InterfaceDefinition");
    }
}

#[test]
fn test_interface_mixed_text_and_declarations() {
    let doc = parse(
        r#"<skill define="interface" name="test">
  A capability that answers questions.
  <param name="question" type="string" required="true">The question</param>
  <returns name="answer" type="string" />
</skill>"#,
    )
    .unwrap();

    if let Node::Skill {
        kind: NodeKind::InterfaceDefinition {
            params, return_decls, ..
        },
        children,
        ..
    } = &doc.nodes[0]
    {
        assert_eq!(params.len(), 1);
        assert_eq!(return_decls.len(), 1);
        // Text body should still be present
        let text: String = children
            .iter()
            .filter_map(|n| match n {
                Node::Text(t) => Some(t.as_str()),
                _ => None,
            })
            .collect();
        assert!(text.contains("A capability that answers questions"));
    } else {
        panic!("expected InterfaceDefinition");
    }
}

#[test]
fn test_invocation_params_unchanged() {
    // Invocation params should still work the old way (name + value, no type metadata)
    let doc = parse(
        r#"<skill interface="testing" language="python">
  <param name="target">src/auth.py</param>
  Run tests for this module.
</skill>"#,
    )
    .unwrap();

    if let Node::Skill {
        kind: NodeKind::Invocation { .. },
        params,
        ..
    } = &doc.nodes[0]
    {
        assert_eq!(params.len(), 1);
        assert_eq!(params[0].name, "target");
        assert_eq!(params[0].value, "src/auth.py");
    } else {
        panic!("expected Invocation");
    }
}

#[test]
fn test_full_brain_query_interface() {
    let doc = parse(r#"<skill define="interface" name="brain-query">
  <param name="question" type="string" required="true">The question to answer</param>
  <param name="format" type="enum" values="markdown|comparison-table|slide-deck|chart" default="markdown">Output format</param>
  <param name="caller_session_id" type="string" required="false">Set by brain-responder</param>
  <returns name="answer" type="string">Citation-backed answer</returns>
  <returns name="quality" type="enum" values="answered|partial|unanswered" />
  <reads>wiki/index.md, wiki/**/*.md</reads>
  <writes>raw/brain-questions.md</writes>
</skill>"#).unwrap();

    if let Node::Skill {
        kind:
            NodeKind::InterfaceDefinition {
                name,
                params,
                return_decls,
                reads,
                writes,
                ..
            },
        ..
    } = &doc.nodes[0]
    {
        assert_eq!(name, "brain-query");
        assert_eq!(params.len(), 3);
        assert_eq!(return_decls.len(), 2);
        assert!(reads.is_some());
        assert!(writes.is_some());
        assert_eq!(
            reads.as_ref().unwrap().patterns,
            vec!["wiki/index.md", "wiki/**/*.md"]
        );
        assert_eq!(
            writes.as_ref().unwrap().patterns,
            vec!["raw/brain-questions.md"]
        );
    } else {
        panic!("expected InterfaceDefinition");
    }
}

#[test]
fn test_parse_interface_with_skill_refs_and_tool_constraints() {
    let doc = parse(
        r#"<skill define="interface" name="brain-query">
  <param name="question" type="string" required="true">The question</param>
  <skill ref="dde" role="enforcement" />
  <tool allow="rename_session,view,edit" />
</skill>"#,
    )
    .unwrap();

    if let Node::Skill {
        kind:
            NodeKind::InterfaceDefinition {
                name,
                skill_refs,
                tool_constraints,
                params,
                ..
            },
        ..
    } = &doc.nodes[0]
    {
        assert_eq!(name, "brain-query");
        assert_eq!(params.len(), 1);
        assert_eq!(skill_refs.len(), 1);
        assert_eq!(skill_refs[0].ref_name, "dde");
        assert_eq!(skill_refs[0].role, Some("enforcement".to_string()));
        assert_eq!(tool_constraints.len(), 1);
        assert_eq!(
            tool_constraints[0].allow,
            vec!["rename_session", "view", "edit"]
        );
        assert!(tool_constraints[0].deny.is_empty());
    } else {
        panic!("expected InterfaceDefinition");
    }
}

#[test]
fn test_parse_interface_tool_deny() {
    let doc = parse(
        r#"<skill define="interface" name="locked">
  <tool deny="bash,exec" />
</skill>"#,
    )
    .unwrap();

    if let Node::Skill {
        kind: NodeKind::InterfaceDefinition {
            tool_constraints, ..
        },
        ..
    } = &doc.nodes[0]
    {
        assert_eq!(tool_constraints.len(), 1);
        assert!(tool_constraints[0].allow.is_empty());
        assert_eq!(tool_constraints[0].deny, vec!["bash", "exec"]);
    } else {
        panic!("expected InterfaceDefinition");
    }
}

#[test]
fn test_parse_implementation_with_nodes() {
    let doc = parse(
        r#"<skill define="implementation" name="brain-impl" implements="brain-query">
  <node name="Rename" type="tool">
<tool use="rename_session" />
Rename this session
  </node>
  <node name="Synthesise" type="prompt">
Drill into pages and synthesise answer
  </node>
</skill>"#,
    )
    .unwrap();

    if let Node::Skill {
        kind: NodeKind::ImplementationDefinition { name, nodes, .. },
        ..
    } = &doc.nodes[0]
    {
        assert_eq!(name, "brain-impl");
        assert_eq!(nodes.len(), 2);
        assert_eq!(nodes[0].name, "Rename");
        assert_eq!(nodes[0].node_type, aml::NodeType::Tool);
        assert_eq!(nodes[0].tool_use, Some("rename_session".to_string()));
        assert!(nodes[0].description.is_some());
        assert_eq!(nodes[1].name, "Synthesise");
        assert_eq!(nodes[1].node_type, aml::NodeType::Prompt);
        assert!(nodes[1].tool_use.is_none());
    } else {
        panic!("expected ImplementationDefinition");
    }
}

#[test]
fn test_parse_implementation_no_nodes() {
    let doc = parse(
        r#"<skill define="implementation" name="simple-impl" implements="test-skill">
  Just a text implementation body with no structured nodes.
</skill>"#,
    )
    .unwrap();

    if let Node::Skill {
        kind: NodeKind::ImplementationDefinition { name, nodes, .. },
        ..
    } = &doc.nodes[0]
    {
        assert_eq!(name, "simple-impl");
        assert!(nodes.is_empty());
    } else {
        panic!("expected ImplementationDefinition");
    }
}

#[test]
fn test_parse_wrapping_skill_ref_extracts_nodes() {
    let doc = parse(
        r#"<skill define="implementation" name="brain-handler" implements="brain-query">
  <skill ref="dde" role="enforcement">
```mermaid
flowchart LR
    A[Rename] --> B[Synthesise]
```

<node name="Rename" type="tool">
  <tool use="rename_session" />
  Rename this session
</node>

<node name="Synthesise" type="prompt">
  Drill into candidate pages
</node>
  </skill>
</skill>"#,
    )
    .unwrap();

    if let Node::Skill {
        kind:
            NodeKind::ImplementationDefinition {
                name,
                nodes,
                skill_refs,
                ..
            },
        ..
    } = &doc.nodes[0]
    {
        assert_eq!(name, "brain-handler");
        assert_eq!(skill_refs.len(), 1);
        assert_eq!(skill_refs[0].ref_name, "dde");
        assert_eq!(skill_refs[0].role, Some("enforcement".to_string()));
        // Nodes should be extracted from inside the wrapping <skill ref>
        assert_eq!(
            nodes.len(),
            2,
            "expected 2 nodes extracted from wrapping skill ref, got {}",
            nodes.len()
        );
        assert_eq!(nodes[0].name, "Rename");
        assert_eq!(nodes[0].node_type, aml::NodeType::Tool);
        assert_eq!(nodes[0].tool_use, Some("rename_session".to_string()));
        assert_eq!(nodes[1].name, "Synthesise");
        assert_eq!(nodes[1].node_type, aml::NodeType::Prompt);
    } else {
        panic!("expected ImplementationDefinition");
    }
}

#[test]
fn test_parse_self_closing_skill_ref_in_implementation() {
    let doc = parse(
        r#"<skill define="implementation" name="impl1" implements="test">
  <skill ref="dde" />
  <node name="Step1" type="prompt">Do something</node>
</skill>"#,
    )
    .unwrap();

    if let Node::Skill {
        kind:
            NodeKind::ImplementationDefinition {
                skill_refs, nodes, ..
            },
        ..
    } = &doc.nodes[0]
    {
        assert_eq!(skill_refs.len(), 1);
        assert_eq!(skill_refs[0].ref_name, "dde");
        assert_eq!(nodes.len(), 1);
        assert_eq!(nodes[0].name, "Step1");
    } else {
        panic!("expected ImplementationDefinition");
    }
}

#[test]
fn root_wrapper_errors_report_message_and_span() {
    let cases: Vec<(&str, &str, usize, usize)> = vec![
        (r#"x<aml version="1">a</aml>"#, "non-whitespace content before <aml> root wrapper is not allowed", 0, 1),
        (r#"<aml>a</aml>"#, "<aml> requires 'version' attribute", 0, 5),
        (
            r#"<aml version="1" encoding="utf-8">a</aml>"#,
            "<aml> does not support 'encoding' attribute (only 'version' is allowed)",
            0,
            34,
        ),
        (r#"<aml version="1">a"#, "unclosed <aml> tag \u{2014} missing </aml>", 0, 18),
        (r#"<aml version="1">a</aml>b"#, "non-whitespace content after </aml> is not allowed", 24, 25),
        (r#"<aml version="1"/>b"#, "non-whitespace content after <aml/> root wrapper is not allowed", 18, 19),
        (r#"<aml version="1">a</aml><!-- <aml version="2"> -->"#, "multiple <aml> root wrappers are not allowed", 29, 49),
        (
            r#"<amlx> <aml version="1">"#,
            "<aml> cannot appear nested inside other content; it is only valid as a root wrapper",
            7,
            27,
        ),
        (
            r#"<aml version="1">a<aml version="2">b</aml>"#,
            "<aml> cannot appear nested inside other content; it is only valid as a root wrapper",
            18,
            38,
        ),
    ];
    for (input, message, start, end) in cases {
        let err = parse(input).unwrap_err();
        assert_eq!(err.message, message, "{input}");
        assert_eq!((err.span.start, err.span.end), (start, end), "{input}");
    }
}

#[test]
fn content_errors_report_message_and_span() {
    let err = parse(r#"<skill interface="x">abc"#).unwrap_err();
    assert_eq!(err.message, "unclosed <skill> tag \u{2014} no matching </skill>");
    assert_eq!((err.span.start, err.span.end), (21, 24));
    let err = parse(r#"<skill define="interface" name="i"><param>d</param></skill>"#).unwrap_err();
    assert_eq!(err.message, "<param> declaration missing 'name' attribute");
    assert_eq!((err.span.start, err.span.end), (35, 42));
}
