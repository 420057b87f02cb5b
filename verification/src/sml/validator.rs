//! Semantic checks of the first skill markup: every finding, in document order.
use vstd::prelude::*;

use crate::ast::{Span, Str};
use crate::sml::ast::{Node, NodeKind, SpecNode, SpecNodeKind};

verus! {

/// Validation error with source span.
#[derive(Debug, Clone, PartialEq, Eq)]
pub struct ValidationError {
    pub message: String,
    pub span: Option<Span>,
}

pub struct SpecValidationError {
    pub message: Str,
    pub span: Option<Span>,
}

impl View for ValidationError {
    type V = SpecValidationError;

    open spec fn view(&self) -> SpecValidationError {
        SpecValidationError { message: self.message@, span: self.span }
    }
}

pub open spec fn errs_view(v: Seq<ValidationError>) -> Seq<SpecValidationError> {
    v.map_values(|e: ValidationError| e@)
}

pub open spec fn err(message: Str, span: Option<Span>) -> SpecValidationError {
    SpecValidationError { message, span }
}

/// The findings about one skill tag's own attributes.
pub open spec fn kind_errors(k: SpecNodeKind, sp: Span) -> Seq<SpecValidationError> {
    match k {
        SpecNodeKind::Invocation { interface, impl_name, name, .. } => if interface is None
            && impl_name is None && name is None {
            seq![err("invocation must have at least one of: interface, impl, or name"@, Some(sp))]
        } else {
            Seq::empty()
        },
        SpecNodeKind::InterfaceDefinition { name, .. } => if name.len() == 0 {
            seq![err("interface definition must have a non-empty name"@, Some(sp))]
        } else {
            Seq::empty()
        },
        SpecNodeKind::ImplementationDefinition { name, implements, .. } => (if name.len() == 0 {
            seq![err("implementation definition must have a non-empty name"@, Some(sp))]
        } else {
            Seq::empty()
        }) + (if implements.len() == 0 {
            seq![err("implementation definition must have a non-empty implements field"@, Some(sp))]
        } else {
            Seq::empty()
        }),
    }
}

/// One finding for each invocation among the direct children of a definition.
pub open spec fn invocation_errors(children: Seq<SpecNode>) -> Seq<SpecValidationError>
    decreases children.len(),
{
    if children.len() == 0 {
        Seq::empty()
    } else {
        invocation_errors(children.drop_last()) + if children.last().is_invocation() {
            seq![err("definition nodes must not contain invocations"@, children.last().span())]
        } else {
            Seq::empty()
        }
    }
}

/// The findings for one node: its own, those about invocations inside a definition, then
/// those of its children.
pub open spec fn node_errors(n: SpecNode) -> Seq<SpecValidationError>
    decreases n, 1nat,
{
    match n {
        SpecNode::Text(_) => Seq::empty(),
        SpecNode::Skill { kind, children, span, .. } => kind_errors(kind, span) + (if kind is Invocation {
            Seq::empty()
        } else {
            invocation_errors(children)
        }) + nodes_errors(children),
    }
}

/// The findings for a list of nodes, in order.
pub open spec fn nodes_errors(ns: Seq<SpecNode>) -> Seq<SpecValidationError>
    decreases ns, 0nat,
{
    if ns.len() == 0 {
        Seq::empty()
    } else {
        nodes_errors(ns.drop_last()) + node_errors(ns.last())
    }
}

fn push_err(errors: &mut Vec<ValidationError>, message: String, span: Option<Span>)
    ensures
        errs_view(final(errors)@) == errs_view(old(errors)@).push(SpecValidationError { message: message@, span }),
{
    let ghost m = message@;
    errors.push(ValidationError { message, span });
    assert(errs_view(errors@) =~= errs_view(old(errors)@).push(SpecValidationError { message: m, span }));
}

fn validate_kind(kind: &NodeKind, span: Span, errors: &mut Vec<ValidationError>)
    ensures
        errs_view(final(errors)@) == errs_view(old(errors)@) + kind_errors(kind@, span),
{
    let ghost e0 = errs_view(errors@);
    match kind {
        NodeKind::Invocation { interface, impl_name, name, .. } => {
            if interface.is_none() && impl_name.is_none() && name.is_none() {
                push_err(
                    errors,
                    String::from_str("invocation must have at least one of: interface, impl, or name"),
                    Some(span),
                );
            }
        },
        NodeKind::InterfaceDefinition { name, .. } => {
            if name.unicode_len() == 0 {
                push_err(errors, String::from_str("interface definition must have a non-empty name"), Some(span));
            }
        },
        NodeKind::ImplementationDefinition { name, implements, .. } => {
            if name.unicode_len() == 0 {
                push_err(errors, String::from_str("implementation definition must have a non-empty name"), Some(span));
            }
            if implements.unicode_len() == 0 {
                push_err(
                    errors,
                    String::from_str("implementation definition must have a non-empty implements field"),
                    Some(span),
                );
            }
        },
    }
    assert(errs_view(errors@) =~= e0 + kind_errors(kind@, span));
}

fn check_nested(children: &Vec<Node>, errors: &mut Vec<ValidationError>)
    ensures
        errs_view(final(errors)@) == errs_view(old(errors)@) + invocation_errors(Node::models(children@)),
{
    let ghost e0 = errs_view(errors@);
    let ghost cs = Node::models(children@);
    let mut i: usize = 0;
    assert(cs.take(0) =~= Seq::<SpecNode>::empty());
    assert(errs_view(errors@) =~= e0 + invocation_errors(cs.take(0)));
    while i < children.len()
        invariant
            0 <= i <= children@.len(),
            cs == Node::models(children@),
            errs_view(errors@) == e0 + invocation_errors(cs.take(i as int)),
        decreases children@.len() - i,
    {
        assert(cs.take(i + 1).drop_last() =~= cs.take(i as int));
        assert(cs.take(i + 1).last() == children@[i as int]@);
        let child = &children[i];
        if child.is_invocation() {
            push_err(errors, String::from_str("definition nodes must not contain invocations"), child.span());
        }
        assert(errs_view(errors@) =~= e0 + invocation_errors(cs.take(i + 1)));
        i = i + 1;
    }
    assert(cs.take(children@.len() as int) =~= cs);
}

fn validate_node(node: &Node, errors: &mut Vec<ValidationError>)
    ensures
        errs_view(final(errors)@) == errs_view(old(errors)@) + node_errors(node@),
    decreases node, 1nat,
{
    let ghost e0 = errs_view(errors@);
    match node {
        Node::Text(_) => {
            assert(errs_view(errors@) =~= e0 + node_errors(node@));
        },
        Node::Skill { kind, children, span, .. } => {
            validate_kind(kind, *span, errors);
            let is_def = match kind {
                NodeKind::Invocation { .. } => false,
                _ => true,
            };
            if is_def {
                check_nested(children, errors);
            }
            validate_nodes_in(children, errors);
            assert(errs_view(errors@) =~= e0 + node_errors(node@));
        },
    }
}

fn validate_nodes_in(nodes: &Vec<Node>, errors: &mut Vec<ValidationError>)
    ensures
        errs_view(final(errors)@) == errs_view(old(errors)@) + nodes_errors(Node::models(nodes@)),
    decreases nodes, 0nat,
{
    let ghost e0 = errs_view(errors@);
    let ghost ns = Node::models(nodes@);
    let mut i: usize = 0;
    assert(ns.take(0) =~= Seq::<SpecNode>::empty());
    assert(errs_view(errors@) =~= e0 + nodes_errors(ns.take(0)));
    while i < nodes.len()
        invariant
            0 <= i <= nodes@.len(),
            ns == Node::models(nodes@),
            errs_view(errors@) == e0 + nodes_errors(ns.take(i as int)),
        decreases nodes@.len() - i,
    {
        assert(ns.take(i + 1).drop_last() =~= ns.take(i as int));
        assert(ns.take(i + 1).last() == nodes@[i as int]@);
        validate_node(&nodes[i], errors);
        assert(errs_view(errors@) =~= e0 + nodes_errors(ns.take(i + 1)));
        i = i + 1;
    }
    assert(ns.take(nodes@.len() as int) =~= ns);
}

/// Validate a node list for semantic correctness: every finding, in document order.
pub fn validate(nodes: &[Node]) -> (errors: Vec<ValidationError>)
    ensures
        errs_view(errors@) == nodes_errors(Node::models(nodes@)),
{
    let mut errors: Vec<ValidationError> = Vec::new();
    let ghost ns = Node::models(nodes@);
    let mut i: usize = 0;
    assert(ns.take(0) =~= Seq::<SpecNode>::empty());
    assert(errs_view(errors@) =~= nodes_errors(ns.take(0)));
    while i < nodes.len()
        invariant
            0 <= i <= nodes@.len(),
            ns == Node::models(nodes@),
            errs_view(errors@) == nodes_errors(ns.take(i as int)),
        decreases nodes@.len() - i,
    {
        assert(ns.take(i + 1).drop_last() =~= ns.take(i as int));
        assert(ns.take(i + 1).last() == nodes@[i as int]@);
        validate_node(&nodes[i], &mut errors);
        assert(errs_view(errors@) =~= nodes_errors(ns.take(i + 1)));
        i = i + 1;
    }
    assert(ns.take(nodes@.len() as int) =~= ns);
    errors
}

impl ValidationError {
    /// `[start..end] message`, or the message alone when there is no span.
    pub fn to_string(&self) -> (s: String)
        ensures
            s@ == match self.span {
                Some(sp) => "["@ + crate::text::decimal(sp.start as nat) + ".."@ + crate::text::decimal(
                    sp.end as nat,
                ) + "] "@ + self.message@,
                None => self.message@,
            },
    {
        match self.span {
            Some(sp) => {
                let mut s = String::from_str("[");
                s.append(crate::text::usize_to_string(sp.start).as_str());
                s.append("..");
                s.append(crate::text::usize_to_string(sp.end).as_str());
                s.append("] ");
                s.append(self.message.as_str());
                s
            },
            None => self.message.clone(),
        }
    }
}

/// The findings of a skill node, whatever its kind, end with all the findings of its
/// children, in order.
pub proof fn law_skill_findings_end_with_its_childrens(n: SpecNode)
    requires
        n is Skill,
    ensures
        node_errors(n).len() >= nodes_errors(n->children).len(),
        node_errors(n).skip(node_errors(n).len() - nodes_errors(n->children).len()) == nodes_errors(n->children),
{
    if let SpecNode::Skill { kind, children, span, .. } = n {
        let own = kind_errors(kind, span) + (if kind is Invocation {
            Seq::<SpecValidationError>::empty()
        } else {
            invocation_errors(children)
        });
        assert(node_errors(n) == own + nodes_errors(children));
        assert((own + nodes_errors(children)).skip(own.len() as int) =~= nodes_errors(children));
    }
}

/// The findings of a list of nodes are those of any split of it, one part after the other.
pub proof fn law_findings_of_a_list_split(x: Seq<SpecNode>, y: Seq<SpecNode>)
    ensures
        nodes_errors(x + y) == nodes_errors(x) + nodes_errors(y),
    decreases y.len(),
{
    if y.len() == 0 {
        assert(x + y =~= x);
        assert(nodes_errors(x) + nodes_errors(y) =~= nodes_errors(x));
    } else {
        law_findings_of_a_list_split(x, y.drop_last());
        assert((x + y).drop_last() =~= x + y.drop_last());
        assert((x + y).last() == y.last());
        assert(nodes_errors(x) + (nodes_errors(y.drop_last()) + node_errors(y.last())) =~= nodes_errors(x) + nodes_errors(
            y.drop_last(),
        ) + node_errors(y.last()));
    }
}

} // verus!
