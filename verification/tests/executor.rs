//! Execution of parsed documents against a registry and handlers.
use aml::executor::{ExecutionContext, ExecutionError, SkillHandler, SkillResult, SkillStatus};
use aml::parse;
use aml::SkillRegistry;

/// A handler that formats its scope as `[tested: scope]`.
struct Tested;

impl SkillHandler for Tested {
    fn handle(&self, _impl_name: &str, _params: &Vec<(String, String)>, scope: &str) -> Result<SkillResult, String> {
        Ok(SkillResult { text: format!("[tested: {scope}]"), metadata: Vec::new(), status: SkillStatus::Success })
    }
}

/// A handler that always fails with a fixed message.
struct Failing(&'static str);

impl SkillHandler for Failing {
    fn handle(&self, _impl_name: &str, _params: &Vec<(String, String)>, _scope: &str) -> Result<SkillResult, String> {
        Err(self.0.to_string())
    }
}

fn setup_context() -> ExecutionContext<Tested> {
    let mut registry = SkillRegistry::new();
    registry
        .register_interface(
            "testing".into(),
            None,
            None,
            Vec::new(),
            Vec::new(),
            None,
            None,
            Vec::new(),
            Vec::new(),
        )
        .unwrap();
    registry
        .register_implementation("pytest-impl".into(), "testing".into(), Some("python".into()), None, None, 0, Vec::new())
        .unwrap();
    let mut ctx = ExecutionContext::new(registry);
    ctx.register_handler("pytest-impl".to_string(), Tested);
    ctx
}

fn failing_context(message: &'static str) -> ExecutionContext<Failing> {
    let mut registry = SkillRegistry::new();
    registry
        .register_interface(
            "failing".into(),
            None,
            None,
            Vec::new(),
            Vec::new(),
            None,
            None,
            Vec::new(),
            Vec::new(),
        )
        .unwrap();
    registry
        .register_implementation("fail-impl".into(), "failing".into(), None, None, None, 0, Vec::new())
        .unwrap();
    let mut ctx = ExecutionContext::new(registry);
    ctx.register_handler("fail-impl".to_string(), Failing(message));
    ctx
}

#[test]
fn test_simple_execution() {
    let ctx = setup_context();
    let doc = parse(r#"<skill interface="testing" language="python">my code</skill>"#).unwrap();
    let result = ctx.execute(&doc).unwrap();
    assert_eq!(result, "[tested: my code]");
}

#[test]
fn test_text_passthrough() {
    let ctx = setup_context();
    let doc = parse("just plain text").unwrap();
    let result = ctx.execute(&doc).unwrap();
    assert_eq!(result, "just plain text");
}

#[test]
fn test_definition_produces_no_output() {
    let ctx = setup_context();
    let doc = parse(r#"<skill define="interface" name="foo">description</skill>"#).unwrap();
    let result = ctx.execute(&doc).unwrap();
    assert_eq!(result, "");
}

#[test]
fn test_skip_on_failure() {
    let ctx = failing_context("always fails");
    let doc = parse(r#"before <skill interface="failing" on-failure="skip">content</skill> after"#).unwrap();
    let result = ctx.execute(&doc).unwrap();
    assert_eq!(result, "before  after");
}

#[test]
fn test_halt_on_failure() {
    let ctx = failing_context("always fails");
    let doc = parse(r#"<skill interface="failing">content</skill>"#).unwrap();
    let result = ctx.execute(&doc);
    assert!(result.is_err());
}

#[test]
fn test_directive_passthrough() {
    let ctx = setup_context();
    let doc = parse(r#"<tool name="bash">plain text</tool>"#).unwrap();
    let result = ctx.execute(&doc).unwrap();
    assert_eq!(result, "plain text");
}

#[test]
fn test_directive_with_nested_skill() {
    let ctx = setup_context();
    let doc = parse(r#"<agent name="dev"><skill interface="testing" language="python">my code</skill></agent>"#).unwrap();
    let result = ctx.execute(&doc).unwrap();
    assert_eq!(result, "[tested: my code]");
}

#[test]
fn test_nested_directives() {
    let ctx = setup_context();
    let doc = parse(r#"<session name="s1"><tool name="bash">hello</tool></session>"#).unwrap();
    let result = ctx.execute(&doc).unwrap();
    assert_eq!(result, "hello");
}

#[test]
fn test_agent_on_failure_skip() {
    let ctx = failing_context("always fails");
    let doc = parse(r#"before <agent name="worker" on-failure="skip"><skill interface="failing">x</skill></agent> after"#)
        .unwrap();
    let result = ctx.execute(&doc).unwrap();
    assert_eq!(result, "before  after");
}

#[test]
fn test_session_on_failure_partial() {
    let ctx = failing_context("broken");
    let doc = parse(r#"<session name="s1" on-failure="partial"><skill interface="failing">x</skill></session>"#).unwrap();
    let result = ctx.execute(&doc).unwrap();
    assert!(result.contains("DIRECTIVE FAILED"), "partial mode should include failure text: {result}");
}

#[test]
fn test_agent_on_failure_halt() {
    let ctx = failing_context("always fails");
    let doc = parse(r#"<agent name="worker" on-failure="halt"><skill interface="failing">x</skill></agent>"#).unwrap();
    let result = ctx.execute(&doc);
    assert!(result.is_err(), "halt mode should propagate error");
}

// ── Further cases ───────────────────────────────────────────────────

#[test]
fn executor_partial_invocation_reports_last_error() {
    let ctx = failing_context("broken");
    let doc = parse(r#"<skill interface="failing" on-failure="partial" retries="2">x</skill>"#).unwrap();
    let result = ctx.execute(&doc).unwrap();
    assert_eq!(result, "[FAILED: fail-impl: broken]");
}

#[test]
fn executor_halt_counts_every_attempt() {
    let ctx = failing_context("always fails");
    let doc = parse(r#"<skill interface="failing" retries="3">x</skill>"#).unwrap();
    match ctx.execute(&doc) {
        Err(ExecutionError::RetriesExhausted { skill, attempts }) => {
            assert_eq!(skill, "fail-impl");
            assert_eq!(attempts, 4);
        },
        other => panic!("expected exhausted retries, got {:?}", other),
    }
}

#[test]
fn executor_unknown_interface_fails_resolution() {
    let ctx = setup_context();
    let doc = parse(r#"<skill interface="missing">x</skill>"#).unwrap();
    match ctx.execute(&doc) {
        Err(ExecutionError::ResolutionFailed(_)) => {},
        other => panic!("expected a resolution failure, got {:?}", other),
    }
}

#[test]
fn executor_without_handler_passes_scope_through() {
    let mut registry = SkillRegistry::new();
    registry
        .register_interface("echo".into(), None, None, Vec::new(), Vec::new(), None, None, Vec::new(), Vec::new())
        .unwrap();
    registry
        .register_implementation("echo-impl".into(), "echo".into(), None, None, None, 0, Vec::new())
        .unwrap();
    let ctx: ExecutionContext<Tested> = ExecutionContext::new(registry);
    let doc = parse(r#"a<skill interface="echo">inner</skill>b"#).unwrap();
    assert_eq!(ctx.execute(&doc).unwrap(), "ainnerb");
}

#[test]
fn executor_wrapper_policy_hands_children_as_text() {
    let ctx = setup_context();
    let doc = parse(
        r#"<skill interface="testing" language="python" policy="wrapper">x<skill interface="testing">y</skill></skill>"#,
    )
    .unwrap();
    assert_eq!(ctx.execute(&doc).unwrap(), "[tested: x[nested-skill]]");
}

#[test]
fn executor_child_failure_in_partial_invocation() {
    let mut registry = SkillRegistry::new();
    registry
        .register_interface("failing".into(), None, None, Vec::new(), Vec::new(), None, None, Vec::new(), Vec::new())
        .unwrap();
    registry
        .register_implementation("fail-impl".into(), "failing".into(), None, None, None, 0, Vec::new())
        .unwrap();
    registry
        .register_interface("outer".into(), None, None, Vec::new(), Vec::new(), None, None, Vec::new(), Vec::new())
        .unwrap();
    registry
        .register_implementation("outer-impl".into(), "outer".into(), None, None, None, 0, Vec::new())
        .unwrap();
    let mut ctx = ExecutionContext::new(registry);
    ctx.register_handler("fail-impl".to_string(), Failing("bad"));
    let doc = parse(r#"<skill interface="outer" on-failure="partial"><skill interface="failing">x</skill></skill>"#)
        .unwrap();
    let result = ctx.execute(&doc).unwrap();
    assert_eq!(result, "[CHILD FAILED: skill 'fail-impl' failed after 1 attempts]");
}

/// A handler that fails until its third call, and keeps what each call was handed.
struct Flaky {
    calls: std::rc::Rc<std::cell::RefCell<Vec<(String, Vec<(String, String)>, String)>>>,
}

impl SkillHandler for Flaky {
    fn handle(&self, impl_name: &str, params: &Vec<(String, String)>, scope: &str) -> Result<SkillResult, String> {
        let mut sorted = params.clone();
        sorted.sort();
        self.calls.borrow_mut().push((impl_name.to_string(), sorted, scope.to_string()));
        if self.calls.borrow().len() < 3 {
            Err("not yet".to_string())
        } else {
            Ok(SkillResult { text: format!("<{scope}>"), metadata: Vec::new(), status: SkillStatus::Success })
        }
    }
}

fn flaky_context() -> ExecutionContext<Flaky> {
    let mut registry = SkillRegistry::new();
    registry
        .register_interface("flaky".into(), None, None, Vec::new(), Vec::new(), None, None, Vec::new(), Vec::new())
        .unwrap();
    registry
        .register_implementation("flaky-impl".into(), "flaky".into(), None, None, None, 0, Vec::new())
        .unwrap();
    let mut ctx = ExecutionContext::new(registry);
    ctx.register_handler("flaky-impl".to_string(), Flaky { calls: std::rc::Rc::new(std::cell::RefCell::new(Vec::new())) });
    ctx
}

#[test]
fn executor_handler_is_asked_until_it_succeeds() {
    let ctx = flaky_context();
    let doc = parse(
        r#"<skill interface="flaky" retries="5"><param name="a">1</param><param name="b">2</param><param name="a">3</param>body</skill>"#,
    )
    .unwrap();
    assert_eq!(ctx.execute(&doc).unwrap(), "<body>");
}

#[test]
fn executor_handler_is_handed_last_parameter_values_and_scope() {
    let mut registry = SkillRegistry::new();
    registry
        .register_interface("flaky".into(), None, None, Vec::new(), Vec::new(), None, None, Vec::new(), Vec::new())
        .unwrap();
    registry
        .register_implementation("flaky-impl".into(), "flaky".into(), None, None, None, 0, Vec::new())
        .unwrap();
    let calls = std::rc::Rc::new(std::cell::RefCell::new(Vec::new()));
    let handler = Flaky { calls: calls.clone() };
    let mut ctx = ExecutionContext::new(registry);
    ctx.register_handler("flaky-impl".to_string(), handler);
    let doc = parse(
        r#"<skill interface="flaky" retries="1"><param name="a">1</param><param name="b">2</param><param name="a">3</param>body</skill>"#,
    )
    .unwrap();
    match ctx.execute(&doc) {
        Err(ExecutionError::RetriesExhausted { skill, attempts }) => {
            assert_eq!(skill, "flaky-impl");
            assert_eq!(attempts, 2);
        },
        other => panic!("expected exhausted retries, got {:?}", other),
    }
    let seen = calls.borrow();
    assert_eq!(seen.len(), 2);
    for call in seen.iter() {
        assert_eq!(call.0, "flaky-impl");
        assert_eq!(call.1, vec![("a".to_string(), "3".to_string()), ("b".to_string(), "2".to_string())]);
        assert_eq!(call.2, "body");
    }
}

#[test]
fn executor_resolution_failure_follows_the_failure_mode() {
    let ctx = setup_context();
    let skip = parse(r#"a<skill interface="missing" on-failure="skip">x</skill>b"#).unwrap();
    assert_eq!(ctx.execute(&skip).unwrap(), "ab");
    let partial = parse(r#"a<skill interface="missing" on-failure="partial">x</skill>b"#).unwrap();
    assert_eq!(
        ctx.execute(&partial).unwrap(),
        "a[FAILED: no implementation found for interface 'missing']b"
    );
    let halt = parse(r#"a<skill interface="missing">x</skill>b"#).unwrap();
    assert!(matches!(ctx.execute(&halt), Err(ExecutionError::ResolutionFailed(_))));
}
