//! A package-registry snapshot materialized as a dependency graph.
//!
//! The library ingests package records (every package, every published
//! version, and each version's declared dependency ranges) and builds a
//! directed graph with one node per (package, version) pair and one edge
//! from a dependent version to every published dependency version that
//! satisfies the declared range.

pub mod records;
pub mod ranges;
pub mod index;
pub mod model;
pub mod builder;
pub mod laws;
pub mod graph;
