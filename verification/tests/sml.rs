//! The registry and the validator of the first skill markup.
use aml::sml::ast::{Node, NodeKind};
use aml::sml::registry::{RegistryError, SkillRegistry};
use aml::sml::validator::{validate, ValidationError};
use aml::Span;

fn invocation(interface: &str, start: usize, end: usize, children: Vec<Node>) -> Node {
    Node::Skill {
        kind: NodeKind::Invocation {
            interface: Some(interface.to_string()),
            impl_name: None,
            name: None,
            language: None,
            framework: None,
        },
        params: Vec::new(),
        children,
        span: Span::new(start, end),
    }
}

fn interface_definition(name: &str, start: usize, end: usize, children: Vec<Node>) -> Node {
    Node::Skill {
        kind: NodeKind::InterfaceDefinition { name: name.to_string(), description: None },
        params: Vec::new(),
        children,
        span: Span::new(start, end),
    }
}

#[test]
fn sml_registry_test_register_and_lookup() {
    let mut reg = SkillRegistry::new();
    reg.register_interface("testing".into(), Some("Run tests".into())).unwrap();
    reg.register_implementation(
        "pytest-impl".into(),
        "testing".into(),
        Some("python".into()),
        Some("pytest".into()),
        None,
        0,
    )
    .unwrap();

    assert!(reg.get_interface("testing").is_some());
    assert!(reg.get_implementation("pytest-impl").is_some());
    assert_eq!(reg.implementations_for("testing").len(), 1);
}

#[test]
fn sml_registry_test_duplicate_interface() {
    let mut reg = SkillRegistry::new();
    reg.register_interface("testing".into(), None).unwrap();
    let err = reg.register_interface("testing".into(), None).unwrap_err();
    assert_eq!(err, RegistryError::DuplicateInterface("testing".into()));
}

#[test]
fn sml_registry_test_validate_unknown_interface() {
    let mut reg = SkillRegistry::new();
    reg.register_implementation("orphan-impl".into(), "nonexistent".into(), None, None, None, 0).unwrap();
    let errors = reg.validate();
    assert_eq!(errors.len(), 1);
}

#[test]
fn sml_validator_test_valid_invocation() {
    // <skill interface="testing">content</skill>
    let nodes = vec![invocation("testing", 0, 42, vec![Node::Text("content".into())])];
    let errors = validate(&nodes);
    assert!(errors.is_empty());
}

#[test]
fn sml_validator_test_valid_definition() {
    // <skill define="interface" name="testing">desc</skill>
    let nodes = vec![interface_definition("testing", 0, 52, vec![Node::Text("desc".into())])];
    let errors = validate(&nodes);
    assert!(errors.is_empty());
}

#[test]
fn sml_validator_test_definition_with_nested_invocation() {
    // <skill define="interface" name="outer"><skill interface="inner">x</skill></skill>
    let inner = invocation("inner", 39, 73, vec![Node::Text("x".into())]);
    let nodes = vec![interface_definition("outer", 0, 81, vec![inner])];
    let errors = validate(&nodes);
    assert_eq!(errors.len(), 1);
    assert!(errors[0].message.contains("must not contain invocations"));
    assert_eq!(errors[0].span, Some(Span::new(39, 73)));
}

// ── Further cases ───────────────────────────────────────────────────

#[test]
fn sml_registry_duplicate_implementation_and_lookup_misses() {
    let mut reg = SkillRegistry::new();
    reg.register_implementation("a".into(), "i".into(), None, None, None, 3).unwrap();
    let err = reg.register_implementation("a".into(), "j".into(), None, None, None, 0).unwrap_err();
    assert_eq!(err, RegistryError::DuplicateImplementation("a".into()));
    assert_eq!(reg.get_implementation("a").unwrap().implements, "i");
    assert_eq!(reg.get_implementation("a").unwrap().priority, 3);
    assert!(reg.get_implementation("b").is_none());
    assert!(reg.get_interface("i").is_none());
}

#[test]
fn sml_registry_implementations_in_registration_order() {
    let mut reg = SkillRegistry::new();
    reg.register_interface("t".into(), None).unwrap();
    reg.register_implementation("z".into(), "t".into(), None, None, None, 0).unwrap();
    reg.register_implementation("other".into(), "u".into(), None, None, None, 0).unwrap();
    reg.register_implementation("a".into(), "t".into(), None, None, None, 0).unwrap();
    let names: Vec<&str> = reg.implementations_for("t").iter().map(|e| e.name.as_str()).collect();
    assert_eq!(names, vec!["z", "a"]);
    let errors = reg.validate();
    assert_eq!(
        errors,
        vec![RegistryError::ImplementsUnknownInterface { implementation: "other".into(), interface: "u".into() }]
    );
    assert_eq!(errors[0].to_string(), "implementation 'other' references unknown interface 'u'");
}

#[test]
fn sml_registry_from_node_kinds() {
    let mut reg = SkillRegistry::new();
    let iface = NodeKind::InterfaceDefinition { name: "t".into(), description: Some("d".into()) };
    let imp = NodeKind::ImplementationDefinition {
        name: "ti".into(),
        implements: "t".into(),
        language: Some("rust".into()),
        framework: None,
        description: None,
    };
    let inv = NodeKind::Invocation { interface: Some("t".into()), impl_name: None, name: None, language: None, framework: None };
    reg.register_from_node_kind(&iface).unwrap();
    reg.register_from_node_kind(&imp).unwrap();
    reg.register_from_node_kind(&inv).unwrap();
    assert_eq!(reg.get_interface("t").unwrap().description.as_deref(), Some("d"));
    assert_eq!(reg.get_implementation("ti").unwrap().priority, 0);
    assert_eq!(reg.register_from_node_kind(&iface), Err(RegistryError::DuplicateInterface("t".into())));
    assert!(reg.validate().is_empty());
}

#[test]
fn sml_validator_reports_each_attribute_problem() {
    let empty_invocation = Node::Skill {
        kind: NodeKind::Invocation { interface: None, impl_name: None, name: None, language: None, framework: None },
        params: Vec::new(),
        children: Vec::new(),
        span: Span::new(0, 10),
    };
    let empty_implementation = Node::Skill {
        kind: NodeKind::ImplementationDefinition {
            name: String::new(),
            implements: String::new(),
            language: None,
            framework: None,
            description: None,
        },
        params: Vec::new(),
        children: vec![Node::Text("t".into()), empty_invocation],
        span: Span::new(0, 40),
    };
    let errors = validate(&[empty_implementation]);
    let messages: Vec<&str> = errors.iter().map(|e| e.message.as_str()).collect();
    assert_eq!(
        messages,
        vec![
            "implementation definition must have a non-empty name",
            "implementation definition must have a non-empty implements field",
            "definition nodes must not contain invocations",
            "invocation must have at least one of: interface, impl, or name",
        ]
    );
    let e = ValidationError { message: "m".into(), span: Some(Span::new(3, 9)) };
    assert_eq!(e.to_string(), "[3..9] m");
    assert_eq!(ValidationError { message: "m".into(), span: None }.to_string(), "m");
}
