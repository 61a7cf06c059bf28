//! Equality saturation, one step at a time.
//!
//! A program of a small language with parentheses is brought into a store of
//! equivalence classes. Rewrite rules are applied to it in single steps: one
//! rule, or every rule, fires once on all its matches, and the step reports
//! which rules changed the store. A smallest term can be extracted from a
//! class at any time between two steps.
//!
//! The store is the e-graph of the `egg` crate. The module `egraph` states
//! what the library relies on of it; everything else is proved.

pub mod egraph;
pub mod error;
pub mod extract;
pub mod label;
pub mod lispylang;
pub mod runtime;
pub mod scheduler;
pub mod store;
pub mod text;
