//! Registry lookups, duplicate detection and consistency checks.
use aml::{RegistryError, SkillRegistry};


#[test]
fn registry_test_register_and_lookup() {
    let mut reg = SkillRegistry::new();
    reg.register_interface(
        "testing".into(),
        None,
        Some("Run tests".into()),
        Vec::new(),
        Vec::new(),
        None,
        None,
        Vec::new(),
        Vec::new(),
    )
    .unwrap();
    reg.register_implementation(
        "pytest-impl".into(),
        "testing".into(),
        Some("python".into()),
        Some("pytest".into()),
        None,
        0,
        Vec::new(),
    )
    .unwrap();

    assert!(reg.get_interface("testing").is_some());
    assert!(reg.get_implementation("pytest-impl").is_some());
    assert_eq!(reg.implementations_for("testing").len(), 1);
}

#[test]
fn registry_test_duplicate_interface() {
    let mut reg = SkillRegistry::new();
    reg.register_interface(
        "testing".into(),
        None,
        None,
        Vec::new(),
        Vec::new(),
        None,
        None,
        Vec::new(),
        Vec::new(),
    )
    .unwrap();
    let err = reg
        .register_interface(
            "testing".into(),
            None,
            None,
            Vec::new(),
            Vec::new(),
            None,
            None,
            Vec::new(),
            Vec::new(),
        )
        .unwrap_err();
    assert_eq!(err, RegistryError::DuplicateInterface("testing".into()));
}

#[test]
fn registry_test_validate_unknown_interface() {
    let mut reg = SkillRegistry::new();
    reg.register_implementation(
        "orphan-impl".into(),
        "nonexistent".into(),
        None,
        None,
        None,
        0,
        Vec::new(),
    )
    .unwrap();
    let errors = reg.validate();
    assert_eq!(errors.len(), 1);
}

#[test]
fn test_extends_unknown_parent_is_error() {
    let mut reg = SkillRegistry::new();
    reg.register_interface(
        "child".into(),
        Some("nonexistent-parent".into()),
        None,
        Vec::new(),
        Vec::new(),
        None,
        None,
        Vec::new(),
        Vec::new(),
    )
    .unwrap();
    let errors = reg.validate();
    assert!(
        errors
            .iter()
            .any(|e| matches!(e, RegistryError::ExtendsUnknownInterface { child, .. } if child == "child")),
        "expected ExtendsUnknownInterface; got: {errors:?}"
    );
}

#[test]
fn test_extends_self_cycle_is_error() {
    let mut reg = SkillRegistry::new();
    reg.register_interface(
        "self-loop".into(),
        Some("self-loop".into()),
        None,
        Vec::new(),
        Vec::new(),
        None,
        None,
        Vec::new(),
        Vec::new(),
    )
    .unwrap();
    let errors = reg.validate();
    assert!(
        errors
            .iter()
            .any(|e| matches!(e, RegistryError::ExtendsInterfaceCycle { .. })),
        "expected cycle error for self-extension; got: {errors:?}"
    );
}

#[test]
fn test_extends_two_node_cycle_is_error() {
    let mut reg = SkillRegistry::new();
    reg.register_interface(
        "a".into(),
        Some("b".into()),
        None,
        Vec::new(),
        Vec::new(),
        None,
        None,
        Vec::new(),
        Vec::new(),
    )
    .unwrap();
    reg.register_interface(
        "b".into(),
        Some("a".into()),
        None,
        Vec::new(),
        Vec::new(),
        None,
        None,
        Vec::new(),
        Vec::new(),
    )
    .unwrap();
    let errors = reg.validate();
    assert!(
        errors
            .iter()
            .any(|e| matches!(e, RegistryError::ExtendsInterfaceCycle { .. })),
        "expected cycle error for A→B→A; got: {errors:?}"
    );
}

#[test]
fn test_valid_extends_hierarchy_no_errors() {
    let mut reg = SkillRegistry::new();
    // root
    reg.register_interface(
        "root".into(),
        None,
        None,
        Vec::new(),
        Vec::new(),
        None,
        None,
        Vec::new(),
        Vec::new(),
    )
    .unwrap();
    // child extends root
    reg.register_interface(
        "child".into(),
        Some("root".into()),
        None,
        Vec::new(),
        Vec::new(),
        None,
        None,
        Vec::new(),
        Vec::new(),
    )
    .unwrap();
    // grandchild extends child
    reg.register_interface(
        "grandchild".into(),
        Some("child".into()),
        None,
        Vec::new(),
        Vec::new(),
        None,
        None,
        Vec::new(),
        Vec::new(),
    )
    .unwrap();
    let errors = reg.validate();
    assert!(errors.is_empty(), "unexpected errors: {errors:?}");
}

fn iface_extending(reg: &mut SkillRegistry, name: &str, parent: &str) {
    reg.register_interface(name.into(), Some(parent.into()), None, Vec::new(), Vec::new(), None, None, Vec::new(), Vec::new())
        .unwrap();
}

#[test]
fn registry_cycle_is_reported_from_where_the_first_walk_enters_it() {
    let mut reg = SkillRegistry::new();
    iface_extending(&mut reg, "a", "c");
    iface_extending(&mut reg, "c", "b");
    iface_extending(&mut reg, "b", "c");
    assert_eq!(reg.validate(), vec![RegistryError::ExtendsInterfaceCycle { cycle: "c -> b -> c".into() }]);
}

#[test]
fn registry_cycle_is_reported_again_by_a_later_walk_into_it() {
    let mut reg = SkillRegistry::new();
    iface_extending(&mut reg, "b", "c");
    iface_extending(&mut reg, "c", "b");
    iface_extending(&mut reg, "d", "b");
    let cycle = RegistryError::ExtendsInterfaceCycle { cycle: "b -> c -> b".into() };
    assert_eq!(reg.validate(), vec![cycle.clone(), cycle]);
}
