//! Short descriptions of a document's top-level nodes: the definitions it holds, the
//! targets it invokes and the directives it opens; and its contract definitions.
use vstd::prelude::*;

use crate::ast::{DirectiveKind, Document, Node, NodeKind, SpecDirectiveKind, SpecNode, SpecNodeKind, Str};
use crate::text::{join3, strings_view};

verus! {

/// `interface:NAME`, `impl:NAME` or `contract:NAME` for a definition.
pub open spec fn definition_label_of(n: SpecNode) -> Option<Str> {
    match n {
        SpecNode::Skill { kind, .. } => match kind {
            SpecNodeKind::InterfaceDefinition { name, .. } => Some("interface:"@ + name + ""@),
            SpecNodeKind::ImplementationDefinition { name, .. } => Some("impl:"@ + name + ""@),
            SpecNodeKind::ContractDefinition { name, .. } => Some("contract:"@ + name + ""@),
            _ => None,
        },
        _ => None,
    }
}

/// What an invocation names first: its interface, else its `impl`, else its name, else
/// `unknown`.
pub open spec fn invocation_target_of(n: SpecNode) -> Option<Str> {
    match n {
        SpecNode::Skill { kind: SpecNodeKind::Invocation { interface, impl_name, name, .. }, .. } => Some(
            match interface {
                Some(i) => i,
                None => match impl_name {
                    Some(i) => i,
                    None => match name {
                        Some(x) => x,
                        None => "unknown"@,
                    },
                },
            },
        ),
        _ => None,
    }
}

/// `tool:TARGET` (its name, else its allow list, else its deny list, else `unknown`),
/// `session:NAME` (`anonymous` without one) or `agent:NAME` for a directive.
pub open spec fn directive_label_of(n: SpecNode) -> Option<Str> {
    match n {
        SpecNode::Directive { kind, .. } => Some(
            match kind {
                SpecDirectiveKind::Tool(t) => "tool:"@ + match t.name {
                    Some(x) => x,
                    None => match t.allow {
                        Some(x) => x,
                        None => match t.deny {
                            Some(x) => x,
                            None => "unknown"@,
                        },
                    },
                } + ""@,
                SpecDirectiveKind::Session(s) => "session:"@ + match s.name {
                    Some(x) => x,
                    None => "anonymous"@,
                } + ""@,
                SpecDirectiveKind::Agent(a) => "agent:"@ + a.name + ""@,
            },
        ),
        _ => None,
    }
}

/// The label of a node for the list `which` selects: 0 for definitions (interfaces,
/// implementations and contracts), 1 for invocations, 2 for directives.
pub open spec fn listed_label(which: u8, n: SpecNode) -> Option<Str> {
    if which == 0 {
        definition_label_of(n)
    } else if which == 1 {
        invocation_target_of(n)
    } else {
        directive_label_of(n)
    }
}

/// The labels of the nodes that list `which` selects, in order.
pub open spec fn labels_of(which: u8, ns: Seq<SpecNode>) -> Seq<Str>
    decreases ns.len(),
{
    if ns.len() == 0 {
        Seq::empty()
    } else {
        match listed_label(which, ns.last()) {
            Some(l) => labels_of(which, ns.drop_last()).push(l),
            None => labels_of(which, ns.drop_last()),
        }
    }
}

fn first_or<'a>(a: &'a Option<String>, b: &'a Option<String>, c: &'a Option<String>, fallback: &'a str) -> (r: &'a str)
    ensures
        r@ == match a {
            Some(x) => x@,
            None => match b {
                Some(x) => x@,
                None => match c {
                    Some(x) => x@,
                    None => fallback@,
                },
            },
        },
{
    match a {
        Some(x) => x.as_str(),
        None => match b {
            Some(x) => x.as_str(),
            None => match c {
                Some(x) => x.as_str(),
                None => fallback,
            },
        },
    }
}

/// The label of one node for the list `which` selects.
fn label(which: u8, n: &Node) -> (r: Option<String>)
    ensures
        crate::ast::opt_view(r) == listed_label(which, n@),
{
    if which == 0 {
        match n {
            Node::Skill { kind: NodeKind::InterfaceDefinition { name, .. }, .. } => Some(join3("interface:", name.as_str(), "")),
            Node::Skill { kind: NodeKind::ImplementationDefinition { name, .. }, .. } => Some(join3("impl:", name.as_str(), "")),
            Node::Skill { kind: NodeKind::ContractDefinition { name, .. }, .. } => Some(join3("contract:", name.as_str(), "")),
            _ => None,
        }
    } else if which == 1 {
        match n {
            Node::Skill { kind: NodeKind::Invocation { interface, impl_name, name, .. }, .. } => Some(
                first_or(interface, impl_name, name, "unknown").to_string(),
            ),
            _ => None,
        }
    } else {
        match n {
            Node::Directive { kind, .. } => Some(
                match kind {
                    DirectiveKind::Tool(t) => join3("tool:", first_or(&t.name, &t.allow, &t.deny, "unknown"), ""),
                    DirectiveKind::Session(s) => join3("session:", first_or(&s.name, &None, &None, "anonymous"), ""),
                    DirectiveKind::Agent(a) => join3("agent:", a.name.as_str(), ""),
                },
            ),
            _ => None,
        }
    }
}

fn labels(which: u8, doc: &Document) -> (r: Vec<String>)
    ensures
        strings_view(r@) == labels_of(which, Node::models(doc.nodes@)),
{
    let ghost ns = Node::models(doc.nodes@);
    let mut r: Vec<String> = Vec::new();
    let mut i: usize = 0;
    assert(ns.take(0) =~= Seq::<SpecNode>::empty());
    assert(strings_view(r@) =~= labels_of(which, ns.take(0)));
    while i < doc.nodes.len()
        invariant
            0 <= i <= doc.nodes@.len(),
            ns == Node::models(doc.nodes@),
            strings_view(r@) == labels_of(which, ns.take(i as int)),
        decreases doc.nodes@.len() - i,
    {
        assert(ns.take(i + 1).drop_last() =~= ns.take(i as int));
        assert(ns.take(i + 1).last() == doc.nodes@[i as int]@);
        let ghost before = strings_view(r@);
        match label(which, &doc.nodes[i]) {
            Some(l) => {
                r.push(l);
                assert(strings_view(r@) =~= before.push(r@.last()@));
            },
            None => {},
        }
        i = i + 1;
    }
    assert(ns.take(doc.nodes@.len() as int) =~= ns);
    r
}

/// `interface:NAME`, `impl:NAME` or `contract:NAME` for each top-level definition, in order.
pub fn definition_labels(doc: &Document) -> (r: Vec<String>)
    ensures
        strings_view(r@) == labels_of(0, Node::models(doc.nodes@)),
{
    labels(0, doc)
}

/// The target of each top-level invocation, in order.
pub fn invocation_targets(doc: &Document) -> (r: Vec<String>)
    ensures
        strings_view(r@) == labels_of(1, Node::models(doc.nodes@)),
{
    labels(1, doc)
}

/// `tool:...`, `session:...` or `agent:...` for each top-level directive, in order.
pub fn directive_labels(doc: &Document) -> (r: Vec<String>)
    ensures
        strings_view(r@) == labels_of(2, Node::models(doc.nodes@)),
{
    labels(2, doc)
}

/// The name of a contract definition.
pub open spec fn contract_name_of(n: SpecNode) -> Option<Str> {
    match n {
        SpecNode::Skill { kind: SpecNodeKind::ContractDefinition { name, .. }, .. } => Some(name),
        _ => None,
    }
}

/// The top-level contract definitions, in order.
pub fn contract_definitions(doc: &Document) -> (r: Vec<&Node>)
    ensures
        r@.map_values(|n: &Node| *n) == doc.nodes@.filter(|n: Node| contract_name_of(n@) is Some),
{
    let ghost pred = |n: Node| contract_name_of(n@) is Some;
    let mut r: Vec<&Node> = Vec::new();
    let mut i: usize = 0;
    while i < doc.nodes.len()
        invariant
            0 <= i <= doc.nodes@.len(),
            pred == (|n: Node| contract_name_of(n@) is Some),
            r@.map_values(|n: &Node| *n) == doc.nodes@.take(i as int).filter(pred),
        decreases doc.nodes@.len() - i,
    {
        let ghost old = r@.map_values(|n: &Node| *n);
        proof {
            reveal_with_fuel(Seq::filter, 1);
            assert(doc.nodes@.take(i + 1).drop_last() =~= doc.nodes@.take(i as int));
        }
        let n = &doc.nodes[i];
        match n {
            Node::Skill { kind: NodeKind::ContractDefinition { .. }, .. } => {
                r.push(n);
                assert(r@.map_values(|n: &Node| *n) =~= old.push(*n));
            },
            _ => {},
        }
        i = i + 1;
    }
    assert(doc.nodes@.take(doc.nodes@.len() as int) =~= doc.nodes@);
    r
}

/// The first top-level contract definition named `name`.
pub fn find_contract<'a>(doc: &'a Document, name: &str) -> (r: Option<&'a Node>)
    ensures
        match r {
            Some(n) => exists|i: int|
                0 <= i < doc.nodes@.len() && doc.nodes@[i] == *n && contract_name_of(doc.nodes@[i]@) == Some(name@)
                    && forall|j: int| 0 <= j < i ==> contract_name_of(#[trigger] doc.nodes@[j]@) != Some(name@),
            None => forall|i: int| 0 <= i < doc.nodes@.len() ==> contract_name_of(#[trigger] doc.nodes@[i]@) != Some(name@),
        },
{
    let mut i: usize = 0;
    while i < doc.nodes.len()
        invariant
            0 <= i <= doc.nodes@.len(),
            forall|j: int| 0 <= j < i ==> contract_name_of(#[trigger] doc.nodes@[j]@) != Some(name@),
        decreases doc.nodes@.len() - i,
    {
        match &doc.nodes[i] {
            Node::Skill { kind: NodeKind::ContractDefinition { name: contract, .. }, .. } => {
                if crate::text::str_eq(contract.as_str(), name) {
                    return Some(&doc.nodes[i]);
                }
            },
            _ => {},
        }
        i = i + 1;
    }
    None
}

} // verus!
