use vstd::prelude::*;

pub mod ast;
pub mod text;
pub mod constraints;
pub mod registry;
pub mod scan;
pub mod source;
pub mod parser;
pub mod grammar;
pub mod attrs;
pub mod kinds;
pub mod decls;
pub mod resolver;
pub mod numbers;
pub mod validator;
pub mod executor;
pub mod sml;
pub mod labels;

pub use ast::{
    AgentDirective, AgentMode, DirectiveKind, Document, ExecutionPolicy, FailureMode, FieldDecl,
    IoDecl, Node, NodeDecl, NodeKind, NodeType, Param, ParamDecl, ReturnDecl, SessionDirective,
    SkillRef, Span, ToolConstraint, ToolDirective,
};
pub use parser::{parse, ParseError};
pub use registry::{ImplementationEntry, InterfaceEntry, RegistryError, SkillRegistry};

verus! {

} // verus!
