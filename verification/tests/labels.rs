//! Labels of a document's definitions, invocations and directives, and the retry bound.
use aml::executor::nodes_retries_bounded;
use aml::labels::{contract_definitions, definition_labels, directive_labels, find_contract, invocation_targets};
use aml::parse;

#[test]
fn labels_of_definitions() {
    let doc = parse(
        r#"<skill define="interface" name="a">x</skill> text <skill define="implementation" name="b" implements="a">y</skill><skill interface="a">z</skill>"#,
    )
    .unwrap();
    assert_eq!(definition_labels(&doc), vec!["interface:a".to_string(), "impl:b".to_string()]);
}

#[test]
fn labels_of_invocation_targets() {
    let doc = parse(r#"<skill interface="i">a</skill><skill impl="m">b</skill><skill name="n">c</skill> tail"#).unwrap();
    assert_eq!(invocation_targets(&doc), vec!["i".to_string(), "m".to_string(), "n".to_string()]);
}

#[test]
fn labels_of_directives() {
    let doc = parse(
        r#"<tool allow="grep,view">a</tool><tool deny="bash">b</tool><session>c</session><session name="s">d</session><agent name="w">e</agent>"#,
    )
    .unwrap();
    assert_eq!(
        directive_labels(&doc),
        vec![
            "tool:grep,view".to_string(),
            "tool:bash".to_string(),
            "session:anonymous".to_string(),
            "session:s".to_string(),
            "agent:w".to_string(),
        ]
    );
}

#[test]
fn labels_of_plain_text_are_empty() {
    let doc = parse("nothing here").unwrap();
    assert!(definition_labels(&doc).is_empty());
    assert!(invocation_targets(&doc).is_empty());
    assert!(directive_labels(&doc).is_empty());
}

#[test]
fn retry_bound_checks_nested_invocations() {
    let ok = parse(r#"<tool name="x"><skill interface="a" retries="4294967294">q</skill></tool>"#).unwrap();
    assert!(nodes_retries_bounded(&ok.nodes));
    let too_many = parse(r#"<tool name="x"><skill interface="a" retries="4294967295">q</skill></tool>"#).unwrap();
    assert!(!nodes_retries_bounded(&too_many.nodes));
}

#[test]
fn labels_of_definitions_include_contracts() {
    let doc = parse(
        r#"<skill define="contract" name="c" version="1"><field name="f" type="string"/></skill><skill define="interface" name="a">x</skill>"#,
    )
    .unwrap();
    assert_eq!(definition_labels(&doc), vec!["contract:c".to_string(), "interface:a".to_string()]);
}

#[test]
fn contract_lookup_finds_the_first_of_a_name() {
    let doc = parse(
        r#"<skill define="contract" name="c" version="1"><field name="f" type="string"/></skill>text<skill define="contract" name="d"><field name="g" type="number"/></skill><skill define="contract" name="c" version="2"><field name="h" type="string"/></skill>"#,
    )
    .unwrap();
    assert_eq!(contract_definitions(&doc).len(), 3);
    match find_contract(&doc, "c") {
        Some(aml::Node::Skill { kind: aml::NodeKind::ContractDefinition { version, .. }, .. }) => {
            assert_eq!(version.as_deref(), Some("1"));
        },
        other => panic!("expected the first contract c, got {:?}", other),
    }
    assert!(find_contract(&doc, "missing").is_none());
}
