//! Graph construction for a ranking engine over embedded items.
//!
//! The engine ranks nodes by damped propagation of rank along weighted edges.
//! This library holds what that computation stands on: the plan of a run, the
//! side tables that are read while edges are weighed, and the two graphs that
//! are walked: the neighbour graph built from similarity queries and the
//! interaction graph built from an explicit edge list. Weights are values of
//! the caller's own type; the library stores them and hands them back.

pub mod graph;
pub mod plan;
pub mod tables;
pub mod temporal;
