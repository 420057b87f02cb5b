//! The skill markup in its first form: skill nodes only (no directives or contracts),
//! with its own registry of interfaces and implementations and its own validator.
pub mod ast;
pub mod registry;
pub mod validator;
