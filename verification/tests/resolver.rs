//! Resolution of invocations to implementations.
use aml::resolver::{resolve, ResolutionHints, ResolveError};
use aml::SkillRegistry;


fn make_registry() -> SkillRegistry {
    let mut reg = SkillRegistry::new();
    reg.register_interface(
        "testing".into(),
        None,
        None,
        Vec::new(),
        Vec::new(),
        None,
        None,
        Vec::new(),
        Vec::new(),
    )
    .unwrap();
    reg.register_implementation(
        "pytest-impl".into(),
        "testing".into(),
        Some("python".into()),
        Some("pytest".into()),
        None,
        0,
        Vec::new(),
    )
    .unwrap();
    reg.register_implementation(
        "jest-impl".into(),
        "testing".into(),
        Some("javascript".into()),
        Some("jest".into()),
        None,
        0,
        Vec::new(),
    )
    .unwrap();
    reg
}

#[test]
fn test_resolve_by_impl() {
    let reg = make_registry();
    let result = resolve(
        &reg,
        None,
        Some("pytest-impl"),
        None,
        &ResolutionHints::default(),
    );
    assert_eq!(result.unwrap().name, "pytest-impl");
}

#[test]
fn test_resolve_by_interface_with_language_hint() {
    let reg = make_registry();
    let hints = ResolutionHints {
        language: Some("python".into()),
        framework: None,
    };
    let result = resolve(&reg, Some("testing"), None, None, &hints);
    assert_eq!(result.unwrap().name, "pytest-impl");
}

#[test]
fn test_resolve_ambiguous() {
    let reg = make_registry();
    let result = resolve(
        &reg,
        Some("testing"),
        None,
        None,
        &ResolutionHints::default(),
    );
    assert!(matches!(result, Err(ResolveError::Ambiguous { .. })));
}

#[test]
fn test_resolve_impl_mismatch() {
    let reg = make_registry();
    let result = resolve(
        &reg,
        Some("nonexistent-iface"),
        Some("pytest-impl"),
        None,
        &ResolutionHints::default(),
    );
    assert!(matches!(result, Err(ResolveError::ImplMismatch { .. })));
}

#[test]
fn test_resolve_no_target() {
    let reg = make_registry();
    let result = resolve(&reg, None, None, None, &ResolutionHints::default());
    assert_eq!(result.unwrap_err(), ResolveError::NoTarget);
}

#[test]
fn resolve_hint_matching_no_candidate_is_no_implementation() {
    let reg = make_registry();
    let hints = ResolutionHints { language: Some("go".into()), framework: None };
    let result = resolve(&reg, Some("testing"), None, None, &hints);
    assert_eq!(result.unwrap_err(), ResolveError::NoImplementation { interface: "testing".to_string() });
}

#[test]
fn resolve_framework_hint_after_language_hint_filters_strictly() {
    let reg = make_registry();
    let hints = ResolutionHints { language: Some("python".into()), framework: Some("jest".into()) };
    let result = resolve(&reg, Some("testing"), None, None, &hints);
    assert_eq!(result.unwrap_err(), ResolveError::NoImplementation { interface: "testing".to_string() });
}

#[test]
fn resolve_name_falls_back_to_the_interface() {
    let mut reg = make_registry();
    reg.register_interface("single".into(), None, None, Vec::new(), Vec::new(), None, None, Vec::new(), Vec::new())
        .unwrap();
    reg.register_implementation("only-impl".into(), "single".into(), None, None, None, 0, Vec::new()).unwrap();
    let result = resolve(&reg, None, None, Some("single"), &ResolutionHints::default());
    assert_eq!(result.unwrap().name, "only-impl");
    let by_impl_name = resolve(&reg, None, None, Some("jest-impl"), &ResolutionHints::default());
    assert_eq!(by_impl_name.unwrap().name, "jest-impl");
    let ambiguous = resolve(&reg, None, None, Some("testing"), &ResolutionHints::default());
    assert!(matches!(ambiguous, Err(ResolveError::Ambiguous { .. })));
    let missing = resolve(&reg, None, None, Some("nothing"), &ResolutionHints::default());
    assert_eq!(missing.unwrap_err(), ResolveError::ImplNotFound { name: "nothing".to_string() });
}
