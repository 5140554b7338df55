//! # Access grant store
//!
//! Library for querying a store of named, tagged access grants kept in a
//! plain-text file. Callers select a subset of the stored grants by composing
//! boolean predicates over record fields (name, project, tags, description,
//! notes, permissions, metadata) with regular-expression matching and AND/OR
//! logic, with optional grouping.
//!
//! The heart of the crate is the predicate filter engine in [`store::filter`]:
//! an immutable expression tree ([`store::filter::Filter`]) and an incremental
//! [`store::filter::Builder`] that grafts one predicate at a time onto the
//! tree through a fluent, left-to-right API.

pub mod error;
pub mod parser;
pub mod pattern;
pub mod store;
