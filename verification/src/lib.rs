//! Static type checking for a small expression language.
//!
//! Programs arrive already parsed as expression trees. Given a tree and a
//! typing environment (a mapping from identifiers to types), the checker
//! decides whether the expression is well typed, computes its result type,
//! and otherwise reports every type error found, each tagged with the exact
//! structural location inside the tree where it occurred.

pub mod ast;
pub mod ident;
pub mod path;
pub mod typecheck;
pub mod types;
