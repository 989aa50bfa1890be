//! When/then rule groups over a caller-supplied context.
//!
//! A [`Case`] is an ordered group of named condition/action pairs, built with
//! a fluent declaration interface and evaluated once against a mutable
//! context: each condition is checked in declaration order, a matching
//! condition runs its attached action (a plain mutation or a nested group),
//! and the first error aborts the walk. Evaluation reports whether anything
//! fired at any depth of nesting.

pub mod case;
pub mod laws;
pub mod then;
pub mod when;

pub use case::Case;
