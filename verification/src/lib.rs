//! Intermediate representation and control-scheduling model for a
//! hardware-description compiler.
//!
//! Two representations compose a pipeline: a surface abstract syntax tree
//! ([`ast`]) produced by an external parser, and a graph-shaped IR
//! ([`structure`]) built from it by [`lower`].  The [`schedule`] module gives
//! the control tree a small-step semantics: what a scheduling step does to a
//! control program, which groups it holds active, and when it is done.
//! [`naming`] proves the canonical names of synthesized constant cells
//! injective, so constants deduplicate by name equality alone.

pub mod ast;
pub mod lower;
pub mod naming;
pub mod schedule;
pub mod structure;
