//! Sizing of one similarity-graph run: whether there is anything to rank, how
//! the neighbour index is allocated and how wide each neighbour query is.

use vstd::prelude::*;

verus! {

/// Largest neighbour count per node that the neighbour index can be built with.
///
/// The limit is that of the index the engine is run with, `hnsw_rs`, which
/// gives up on a larger count. It has to follow that crate if its limit moves.
pub const MAX_NEIGHBOURS: usize = 256;

/// Number of layers the neighbour index is built with.
pub const INDEX_LAYERS: usize = 16;

/// Candidate-list width used while the neighbour index is built.
pub const BUILD_WIDTH: usize = 200;

/// How the neighbour index of a run is built and queried.
#[derive(Clone, Copy, Debug, PartialEq, Eq, Structural)]
pub struct IndexPlan {
    /// Links kept per node in the index, and neighbours asked for per query.
    pub neighbours: usize,
    /// Number of vectors the index is sized for: one per node.
    pub capacity: usize,
    /// Number of layers of the index.
    pub layers: usize,
    /// Candidate-list width while the index is built.
    pub build_width: usize,
    /// Candidate-list width of a query: twice the neighbours asked for, so that
    /// the approximate search has room to recover near neighbours.
    pub query_width: usize,
}

/// What a run has to do.
#[derive(Clone, Copy, Debug, PartialEq, Eq, Structural)]
pub enum RunPlan {
    /// There are no nodes: the result is empty and no index is built.
    Empty,
    /// Build the index as described, query it once per node and rank.
    Ranked(IndexPlan),
}

/// Why a run cannot be planned.
#[derive(Clone, Copy, Debug, PartialEq, Eq, Structural)]
pub enum PlanError {
    /// More neighbours per node were asked for than the index can keep.
    TooManyNeighbours,
}

/// The plan for `nodes` nodes with `neighbours` neighbours each.
///
/// An empty node set needs no index, whatever the neighbour count. Otherwise
/// the neighbour count must not exceed `MAX_NEIGHBOURS`.
pub open spec fn plan_of(nodes: usize, neighbours: usize) -> Result<RunPlan, PlanError> {
    if nodes == 0 {
        Ok(RunPlan::Empty)
    } else if neighbours > MAX_NEIGHBOURS {
        Err(PlanError::TooManyNeighbours)
    } else {
        Ok(
            RunPlan::Ranked(
                IndexPlan {
                    neighbours,
                    capacity: nodes,
                    layers: INDEX_LAYERS,
                    build_width: BUILD_WIDTH,
                    query_width: (2 * neighbours) as usize,
                },
            ),
        )
    }
}

/// Plans a run over `nodes` nodes with `neighbours` neighbours each.
pub fn plan_run(nodes: usize, neighbours: usize) -> (plan: Result<RunPlan, PlanError>)
    ensures
        plan == plan_of(nodes, neighbours),
{
    if nodes == 0 {
        Ok(RunPlan::Empty)
    } else if neighbours > MAX_NEIGHBOURS {
        Err(PlanError::TooManyNeighbours)
    } else {
        Ok(
            RunPlan::Ranked(
                IndexPlan {
                    neighbours,
                    capacity: nodes,
                    layers: INDEX_LAYERS,
                    build_width: BUILD_WIDTH,
                    query_width: 2 * neighbours,
                },
            ),
        )
    }
}

} // verus!
