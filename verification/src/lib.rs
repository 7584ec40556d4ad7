//! Verified core of a property-graph backend.
//!
//! The library turns flat query results coming back from a graph database —
//! a list of node rows and a list of relationship rows — into a consistent
//! in-memory graph: each node carries its own deduplicated, totally ordered
//! set of incident relationships together with a derived neighbor count.
//! It also holds the resolver-level decision logic: which query text to run,
//! how fresh node URIs are minted, and how pulled rows become results or
//! typed errors. All database I/O lives outside this crate; callers hand in
//! plain row values and get plain graph values back.

pub mod assembly;
pub mod laws;
pub mod model;
pub mod order;
pub mod resolver;
