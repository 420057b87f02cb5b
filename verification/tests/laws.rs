//! Concrete instances of the properties the library proves of all inputs.
use aml::constraints::ToolConstraints;
use aml::executor::{ExecutionContext, SkillHandler, SkillResult, SkillStatus};
use aml::resolver::{resolve, ResolutionHints, ResolveError};
use aml::{parse, RegistryError, SkillRegistry, ToolDirective};

struct Upper;

impl SkillHandler for Upper {
    fn handle(&self, _impl_name: &str, _params: &Vec<(String, String)>, scope: &str) -> Result<SkillResult, String> {
        Ok(SkillResult { text: scope.to_uppercase(), metadata: Vec::new(), status: SkillStatus::Success })
    }
}

fn iface(reg: &mut SkillRegistry, name: &str) -> Result<(), RegistryError> {
    reg.register_interface(name.into(), None, None, Vec::new(), Vec::new(), None, None, Vec::new(), Vec::new())
}

fn imp(reg: &mut SkillRegistry, name: &str, of: &str, lang: Option<&str>, priority: i32) -> Result<(), RegistryError> {
    reg.register_implementation(name.into(), of.into(), lang.map(|l| l.to_string()), None, None, priority, Vec::new())
}

#[test]
fn law_scenario_register_then_find() {
    let mut reg = SkillRegistry::new();
    iface(&mut reg, "a").unwrap();
    imp(&mut reg, "x", "a", None, 2).unwrap();
    let before = reg.get_implementation("x").unwrap().priority;
    iface(&mut reg, "b").unwrap();
    assert_eq!(reg.get_interface("b").unwrap().name, "b");
    assert_eq!(reg.get_interface("a").unwrap().name, "a");
    assert_eq!(reg.get_implementation("x").unwrap().priority, before);
    assert_eq!(iface(&mut reg, "a"), Err(RegistryError::DuplicateInterface("a".into())));
}

#[test]
fn law_scenario_implementations_for_exactly_implementers() {
    let mut reg = SkillRegistry::new();
    imp(&mut reg, "p", "t", None, 0).unwrap();
    imp(&mut reg, "q", "u", None, 0).unwrap();
    imp(&mut reg, "r", "t", None, 0).unwrap();
    let names: Vec<&str> = reg.implementations_for("t").iter().map(|e| e.name.as_str()).collect();
    assert_eq!(names, vec!["p", "r"]);
    assert!(reg.implementations_for("v").is_empty());
}

#[test]
fn law_scenario_validate_reports_exactly_unknown() {
    let mut reg = SkillRegistry::new();
    iface(&mut reg, "t").unwrap();
    imp(&mut reg, "p", "t", None, 0).unwrap();
    imp(&mut reg, "q", "gone", None, 0).unwrap();
    assert_eq!(
        reg.validate(),
        vec![RegistryError::ImplementsUnknownInterface { implementation: "q".into(), interface: "gone".into() }]
    );
}

#[test]
fn law_scenario_resolution_picks_highest_priority() {
    let mut reg = SkillRegistry::new();
    iface(&mut reg, "t").unwrap();
    imp(&mut reg, "low", "t", Some("rust"), 1).unwrap();
    imp(&mut reg, "high", "t", Some("go"), 5).unwrap();
    imp(&mut reg, "mid", "t", Some("rust"), 3).unwrap();
    let none = ResolutionHints::default();
    assert_eq!(resolve(&reg, Some("t"), None, None, &none).unwrap().name, "high");
    let rust = ResolutionHints { language: Some("rust".into()), framework: None };
    assert_eq!(resolve(&reg, Some("t"), None, None, &rust).unwrap().name, "mid");
    let unknown_lang = ResolutionHints { language: Some("cobol".into()), framework: None };
    assert_eq!(
        resolve(&reg, Some("t"), None, None, &unknown_lang).unwrap_err(),
        aml::resolver::ResolveError::NoImplementation { interface: "t".to_string() }
    );
}

#[test]
fn law_scenario_explicit_impl_resolves_to_it() {
    let mut reg = SkillRegistry::new();
    iface(&mut reg, "t").unwrap();
    iface(&mut reg, "u").unwrap();
    imp(&mut reg, "low", "t", None, 0).unwrap();
    imp(&mut reg, "high", "t", None, 9).unwrap();
    let none = ResolutionHints::default();
    assert_eq!(resolve(&reg, Some("t"), Some("low"), None, &none).unwrap().name, "low");
    match resolve(&reg, Some("u"), Some("low"), None, &none) {
        Err(ResolveError::ImplMismatch { impl_name, expected_interface, actual_interface }) => {
            assert_eq!((impl_name.as_str(), expected_interface.as_str(), actual_interface.as_str()), ("low", "u", "t"));
        },
        other => panic!("expected a mismatch, got {:?}", other),
    }
}

#[test]
fn law_scenario_handler_free_output_is_pass_through() {
    let mut reg = SkillRegistry::new();
    iface(&mut reg, "t").unwrap();
    imp(&mut reg, "ti", "t", None, 0).unwrap();
    let ctx: ExecutionContext<Upper> = ExecutionContext::new(reg);
    let doc = parse(
        r#"a<skill define="interface" name="z">gone</skill>b<agent name="w">c<tool allow="x">d</tool></agent><skill interface="t">e<skill interface="t">f</skill></skill>"#,
    )
    .unwrap();
    assert_eq!(ctx.execute(&doc).unwrap(), "abcdef");
}

#[test]
fn law_scenario_handler_runs_where_registered() {
    let mut reg = SkillRegistry::new();
    iface(&mut reg, "t").unwrap();
    imp(&mut reg, "ti", "t", None, 0).unwrap();
    let mut ctx = ExecutionContext::new(reg);
    ctx.register_handler("ti".to_string(), Upper);
    let doc = parse(r#"a<skill interface="t">e</skill>"#).unwrap();
    assert_eq!(ctx.execute(&doc).unwrap(), "aE");
}

#[test]
fn law_scenario_constraints_only_narrow() {
    let root = ToolConstraints::default();
    let outer = ToolDirective { name: None, allow: Some("grep,view,bash".into()), deny: Some("web".into()) };
    let (c1, _) = root.apply(&outer);
    let inner = ToolDirective { name: None, allow: Some("grep,web,sql".into()), deny: Some("view".into()) };
    let (c2, warnings) = c1.apply(&inner);
    let allowed = c2.allowed.clone().unwrap();
    assert_eq!(allowed, vec!["grep".to_string()]);
    for t in &allowed {
        assert!(c1.allowed.as_ref().unwrap().contains(t));
        assert!(!c2.denied.contains(t));
    }
    for d in &c1.denied {
        assert!(c2.denied.contains(d));
    }
    assert_eq!(warnings.len(), 2);
}

#[test]
fn law_scenario_text_without_tags_is_one_text_node() {
    let doc = parse("plain &lt;text&gt; &amp; more").unwrap();
    assert_eq!(doc.version, None);
    assert_eq!(doc.nodes, vec![aml::Node::Text("plain <text> & more".to_string())]);
}

#[test]
fn law_scenario_each_repeated_param_reported_once() {
    let doc = parse(
        r#"<skill define="interface" name="t"><param name="a" type="string">x</param><param name="b" type="string">y</param><param name="a" type="string">z</param><param name="a" type="string">w</param></skill>"#,
    )
    .unwrap();
    let errors = aml::validator::validate(&doc.nodes);
    let dups: Vec<_> = errors.iter().filter(|e| e.message.starts_with("duplicate param name")).collect();
    assert_eq!(dups.len(), 2);
    assert!(dups.iter().all(|e| e.message == "duplicate param name 'a' in interface definition"));
    assert!(dups[0].span.unwrap().start < dups[1].span.unwrap().start);
    let first_a = r#"<skill define="interface" name="t">"#.len();
    assert!(dups.iter().all(|e| e.span.unwrap().start != first_a));
}

#[test]
fn law_scenario_resolution_by_priority() {
    let mut reg = SkillRegistry::new();
    iface(&mut reg, "t").unwrap();
    imp(&mut reg, "low", "t", None, 1).unwrap();
    imp(&mut reg, "high", "t", None, 5).unwrap();
    let r = resolve(&reg, Some("t"), None, None, &ResolutionHints::default());
    assert_eq!(r.unwrap().name, "high");
    imp(&mut reg, "also-high", "t", None, 5).unwrap();
    let r = resolve(&reg, Some("t"), None, None, &ResolutionHints::default());
    assert!(matches!(
        r,
        Err(ResolveError::Ambiguous { ref interface, ref candidates })
            if interface == "t" && candidates == &vec!["high".to_string(), "also-high".to_string(), "low".to_string()]
    ));
}

#[test]
fn law_scenario_unknown_parent_reported_once() {
    let mut reg = SkillRegistry::new();
    reg.register_interface("c".into(), Some("p".into()), None, Vec::new(), Vec::new(), None, None, Vec::new(), Vec::new())
        .unwrap();
    reg.register_interface("d".into(), Some("c".into()), None, Vec::new(), Vec::new(), None, None, Vec::new(), Vec::new())
        .unwrap();
    let errors = reg.validate();
    assert_eq!(
        errors,
        vec![RegistryError::ExtendsUnknownInterface { child: "c".into(), parent: "p".into() }]
    );
}

struct Skipping {
    calls: std::rc::Rc<std::cell::RefCell<usize>>,
}

impl SkillHandler for Skipping {
    fn handle(&self, _impl_name: &str, _params: &Vec<(String, String)>, _scope: &str) -> Result<SkillResult, String> {
        *self.calls.borrow_mut() += 1;
        Ok(SkillResult { text: "ignored".into(), metadata: Vec::new(), status: SkillStatus::Skipped })
    }
}

#[test]
fn law_scenario_skipped_answer_is_not_retried() {
    let mut reg = SkillRegistry::new();
    iface(&mut reg, "t").unwrap();
    imp(&mut reg, "ti", "t", None, 0).unwrap();
    let calls = std::rc::Rc::new(std::cell::RefCell::new(0usize));
    let mut ctx = ExecutionContext::new(reg);
    ctx.register_handler("ti".to_string(), Skipping { calls: calls.clone() });
    let doc = parse(r#"a<skill interface="t" retries="3">e</skill>b"#).unwrap();
    assert_eq!(ctx.execute(&doc).unwrap(), "ab");
    assert_eq!(*calls.borrow(), 1);
}

struct Refusing {
    calls: std::rc::Rc<std::cell::RefCell<usize>>,
}

impl SkillHandler for Refusing {
    fn handle(&self, _impl_name: &str, _params: &Vec<(String, String)>, _scope: &str) -> Result<SkillResult, String> {
        *self.calls.borrow_mut() += 1;
        Err(format!("no {}", self.calls.borrow()))
    }
}

#[test]
fn law_scenario_failing_handler_is_asked_once_per_attempt() {
    for (mode, expected) in [("skip", Ok("ab".to_string())), ("partial", Ok("a[FAILED: ti: no 3]b".to_string()))] {
        let mut reg = SkillRegistry::new();
        iface(&mut reg, "t").unwrap();
        imp(&mut reg, "ti", "t", None, 0).unwrap();
        let calls = std::rc::Rc::new(std::cell::RefCell::new(0usize));
        let mut ctx = ExecutionContext::new(reg);
        ctx.register_handler("ti".to_string(), Refusing { calls: calls.clone() });
        let doc = parse(&format!(r#"a<skill interface="t" retries="2" on-failure="{mode}">e</skill>b"#)).unwrap();
        let out = ctx.execute(&doc).map_err(|_| ());
        assert_eq!(out, expected.map_err(|_: ()| ()));
        assert_eq!(*calls.borrow(), 3);
    }
}

#[test]
fn law_scenario_unresolved_invocation_under_skip() {
    let reg = SkillRegistry::new();
    let calls = std::rc::Rc::new(std::cell::RefCell::new(0usize));
    let mut ctx = ExecutionContext::new(reg);
    ctx.register_handler("ti".to_string(), Refusing { calls: calls.clone() });
    let doc = parse(r#"a<skill interface="missing" on-failure="skip">e</skill>b"#).unwrap();
    assert_eq!(ctx.execute(&doc).unwrap(), "ab");
    assert_eq!(*calls.borrow(), 0);
}

#[test]
fn law_scenario_definitions_run_nothing() {
    let mut reg = SkillRegistry::new();
    iface(&mut reg, "t").unwrap();
    imp(&mut reg, "ti", "t", None, 0).unwrap();
    let calls = std::rc::Rc::new(std::cell::RefCell::new(0usize));
    let mut ctx = ExecutionContext::new(reg);
    ctx.register_handler("ti".to_string(), Refusing { calls: calls.clone() });
    let doc = parse(
        r#"a<skill define="implementation" name="z" implements="t"><skill interface="t">e</skill></skill>b"#,
    )
    .unwrap();
    assert_eq!(ctx.execute(&doc).unwrap(), "ab");
    assert_eq!(*calls.borrow(), 0);
}

#[test]
fn law_scenario_directive_joins_children() {
    let mut reg = SkillRegistry::new();
    iface(&mut reg, "t").unwrap();
    imp(&mut reg, "ti", "t", None, 0).unwrap();
    let calls = std::rc::Rc::new(std::cell::RefCell::new(0usize));
    let mut ctx = ExecutionContext::new(reg);
    ctx.register_handler("ti".to_string(), Refusing { calls: calls.clone() });
    let doc = parse(r#"<session on-failure="partial">x<skill interface="t">e</skill>y</session>"#).unwrap();
    let out = ctx.execute(&doc).unwrap();
    assert!(out.starts_with("x[DIRECTIVE FAILED: "), "{out}");
    assert!(out.ends_with("]y"), "{out}");
    let doc = parse(r#"<session on-failure="skip">x<skill interface="t">e</skill>y</session>"#).unwrap();
    assert_eq!(ctx.execute(&doc).unwrap(), "xy");
}

#[test]
fn law_scenario_plain_text_is_kept_verbatim() {
    let doc = parse("just some words, no tags").unwrap();
    assert_eq!(doc.version, None);
    assert_eq!(doc.nodes, vec![aml::Node::Text("just some words, no tags".to_string())]);
}

#[test]
fn law_scenario_node_kind_cases() {
    let attrs = |pairs: &[(&str, &str)]| pairs.iter().map(|(a, b)| (a.to_string(), b.to_string())).collect::<Vec<_>>();
    assert!(aml::kinds::build_node_kind(&attrs(&[("define", "implementation"), ("name", "x")]), 0).is_err());
    assert!(aml::kinds::build_node_kind(&attrs(&[("define", "implementation"), ("name", "x"), ("implements", "t")]), 0).is_ok());
    assert!(aml::kinds::build_node_kind(&attrs(&[("define", "other"), ("name", "x")]), 0).is_err());
    assert!(aml::kinds::build_node_kind(&attrs(&[("retries", "2")]), 0).is_err());
    assert!(aml::kinds::build_node_kind(&attrs(&[("name", "x"), ("retries", "2")]), 0).is_ok());
}

#[test]
fn law_scenario_skill_tag_ends_in_its_closing_text() {
    let input = r#"<skill name="x">hi</skill>tail"#;
    let doc = parse(input).unwrap();
    match &doc.nodes[0] {
        aml::Node::Skill { span, .. } => assert_eq!(&input[span.start..span.end], r#"<skill name="x">hi</skill>"#),
        other => panic!("expected a skill, got {other:?}"),
    }
}
