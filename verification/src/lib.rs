//! A structured reader for Test Anything Protocol (TAP) version 14 streams.
//!
//! The crate turns a complete TAP14 text into a typed document tree: a
//! preamble, a plan, and a body of statements, where a statement may be a
//! test point, a bail-out, a pragma, a nested subtest, or uninterpreted
//! diagnostic text.  Every step — recognizing each line form, grouping
//! indented regions and YAML diagnostic blocks, and resolving the order
//! ambiguities TAP14 permits between a plan and the body around it — is
//! specified and verified.

pub mod ast;
pub mod builders;
pub mod laws;
pub mod node;
pub mod scan;
pub mod syntax;
pub mod text;

pub use ast::{
    BailOut, Body, Directive, Document, Key, Plan, PlanField, Pragma, Preamble, Statement, Subtest,
    TapError, Test,
};
pub use node::{Node, Rule};
pub use syntax::TAPParser;
