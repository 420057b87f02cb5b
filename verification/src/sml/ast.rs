//! Nodes of the first skill markup: text and skill tags, where a skill tag is an
//! invocation or the definition of an interface or an implementation.
use vstd::prelude::*;

use crate::ast::{opt_view, Param, SpecParam, Span, Str};

verus! {

/// The type of a skill node, determined by its attributes.
#[derive(Debug, PartialEq, Eq)]
pub enum NodeKind {
    /// An invocation: resolved and executed at runtime.
    Invocation {
        interface: Option<String>,
        impl_name: Option<String>,
        name: Option<String>,
        language: Option<String>,
        framework: Option<String>,
    },
    /// An interface definition: registered, not executed.
    InterfaceDefinition { name: String, description: Option<String> },
    /// An implementation definition: registered, not executed.
    ImplementationDefinition {
        name: String,
        implements: String,
        language: Option<String>,
        framework: Option<String>,
        description: Option<String>,
    },
}

/// A node of the markup.
#[derive(Debug, PartialEq, Eq)]
pub enum Node {
    /// A skill tag.
    Skill { kind: NodeKind, params: Vec<Param>, children: Vec<Node>, span: Span },
    /// Literal text.
    Text(String),
}

pub enum SpecNodeKind {
    Invocation {
        interface: Option<Str>,
        impl_name: Option<Str>,
        name: Option<Str>,
        language: Option<Str>,
        framework: Option<Str>,
    },
    InterfaceDefinition { name: Str, description: Option<Str> },
    ImplementationDefinition {
        name: Str,
        implements: Str,
        language: Option<Str>,
        framework: Option<Str>,
        description: Option<Str>,
    },
}

pub enum SpecNode {
    Skill { kind: SpecNodeKind, params: Seq<SpecParam>, children: Seq<SpecNode>, span: Span },
    Text(Str),
}

impl View for NodeKind {
    type V = SpecNodeKind;

    open spec fn view(&self) -> SpecNodeKind {
        match self {
            NodeKind::Invocation { interface, impl_name, name, language, framework } =>
                SpecNodeKind::Invocation {
                interface: opt_view(*interface),
                impl_name: opt_view(*impl_name),
                name: opt_view(*name),
                language: opt_view(*language),
                framework: opt_view(*framework),
            },
            NodeKind::InterfaceDefinition { name, description } => SpecNodeKind::InterfaceDefinition {
                name: name@,
                description: opt_view(*description),
            },
            NodeKind::ImplementationDefinition { name, implements, language, framework, description } =>
                SpecNodeKind::ImplementationDefinition {
                name: name@,
                implements: implements@,
                language: opt_view(*language),
                framework: opt_view(*framework),
                description: opt_view(*description),
            },
        }
    }
}

impl Node {
    pub open spec fn model(self) -> SpecNode
        decreases self,
    {
        match self {
            Node::Skill { kind, params, children, span } => SpecNode::Skill {
                kind: kind@,
                params: params.deep_view(),
                children: Node::models(children@),
                span,
            },
            Node::Text(t) => SpecNode::Text(t@),
        }
    }

    pub open spec fn models(s: Seq<Node>) -> Seq<SpecNode>
        decreases s,
    {
        Seq::new(
            s.len(),
            |i: int|
                if 0 <= i < s.len() {
                    s[i].model()
                } else {
                    arbitrary()
                },
        )
    }
}

impl View for Node {
    type V = SpecNode;

    open spec fn view(&self) -> SpecNode {
        self.model()
    }
}

impl SpecNode {
    pub open spec fn span(self) -> Option<Span> {
        match self {
            SpecNode::Skill { span, .. } => Some(span),
            SpecNode::Text(_) => None,
        }
    }

    pub open spec fn is_invocation(self) -> bool {
        self matches SpecNode::Skill { kind: SpecNodeKind::Invocation { .. }, .. }
    }
}

impl Node {
    /// The span of a skill node; text has none.
    pub fn span(&self) -> (r: Option<Span>)
        ensures
            r == self@.span(),
    {
        match self {
            Node::Skill { span, .. } => Some(*span),
            Node::Text(_) => None,
        }
    }

    /// Whether this is a skill invocation.
    pub fn is_invocation(&self) -> (b: bool)
        ensures
            b == self@.is_invocation(),
    {
        match self {
            Node::Skill { kind: NodeKind::Invocation { .. }, .. } => true,
            _ => false,
        }
    }
}

} // verus!
