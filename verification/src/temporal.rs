//! The interaction graph of the temporal-decay mode: an adjacency structure
//! built from an explicit list of (source, target) pairs.
//!
//! A pair that names a node outside the graph is dropped without a report.
//! Everything else is kept as it came: a pair that occurs twice gives two
//! entries, and a pair from a node to itself is an entry like any other.

use vstd::prelude::*;

verus! {

/// Whether both ends of `edge` are nodes of a graph with `nodes` nodes.
pub open spec fn in_range(nodes: int, edge: (usize, usize)) -> bool {
    edge.0 < nodes && edge.1 < nodes
}

/// The neighbours of `source` that `edges` gives in a graph of `nodes` nodes:
/// the targets of the pairs that start at `source` and end inside the graph, in
/// the order of the list.
pub open spec fn targets_from(source: int, nodes: int, edges: Seq<(usize, usize)>) -> Seq<usize>
    decreases edges.len(),
{
    if edges.len() == 0 {
        Seq::empty()
    } else {
        let earlier = targets_from(source, nodes, edges.drop_last());
        if edges.last().0 == source && edges.last().1 < nodes {
            earlier.push(edges.last().1)
        } else {
            earlier
        }
    }
}

/// Number of pairs of `edges` with both ends inside a graph of `nodes` nodes.
pub open spec fn in_range_count(nodes: int, edges: Seq<(usize, usize)>) -> nat
    decreases edges.len(),
{
    if edges.len() == 0 {
        0
    } else if in_range(nodes, edges.last()) {
        in_range_count(nodes, edges.drop_last()) + 1
    } else {
        in_range_count(nodes, edges.drop_last())
    }
}

/// Total number of entries in `rows`.
pub open spec fn degree_sum(rows: Seq<Seq<usize>>) -> nat
    decreases rows.len(),
{
    if rows.len() == 0 {
        0
    } else {
        degree_sum(rows.drop_last()) + rows.last().len()
    }
}

/// Every neighbour that `targets_from` gives is a node of the graph.
pub proof fn lemma_targets_from_in_range(source: int, nodes: int, edges: Seq<(usize, usize)>)
    ensures
        targets_from(source, nodes, edges).len() <= edges.len(),
        forall|k: int|
            0 <= k < targets_from(source, nodes, edges).len() ==> (#[trigger] targets_from(
                source,
                nodes,
                edges,
            )[k]) < nodes,
    decreases edges.len(),
{
    if edges.len() > 0 {
        lemma_targets_from_in_range(source, nodes, edges.drop_last());
    }
}

/// What one more pair at the end of the list does to the neighbours of
/// `source`: it appends its target where it starts at `source` and ends inside
/// the graph, and changes nothing otherwise.
pub proof fn lemma_targets_from_push(
    source: int,
    nodes: int,
    edges: Seq<(usize, usize)>,
    next: (usize, usize),
)
    ensures
        targets_from(source, nodes, edges.push(next)) == if next.0 == source && next.1 < nodes {
            targets_from(source, nodes, edges).push(next.1)
        } else {
            targets_from(source, nodes, edges)
        },
{
    assert(edges.push(next).drop_last() =~= edges);
}

/// The neighbour lists of all `nodes` nodes that `edges` gives.
pub open spec fn rows_from(nodes: nat, edges: Seq<(usize, usize)>) -> Seq<Seq<usize>> {
    Seq::new(nodes, |u: int| targets_from(u, nodes as int, edges))
}

/// Rows that are all empty hold no entry.
proof fn lemma_degree_sum_empty(rows: Seq<Seq<usize>>)
    requires
        forall|i: int| 0 <= i < rows.len() ==> (#[trigger] rows[i]).len() == 0,
    ensures
        degree_sum(rows) == 0,
    decreases rows.len(),
{
    if rows.len() > 0 {
        lemma_degree_sum_empty(rows.drop_last());
    }
}

/// One more entry in one row is one more entry in all.
proof fn lemma_degree_sum_push(rows: Seq<Seq<usize>>, row: int, target: usize)
    requires
        0 <= row < rows.len(),
    ensures
        degree_sum(rows.update(row, rows[row].push(target))) == degree_sum(rows) + 1,
    decreases rows.len(),
{
    let grown = rows.update(row, rows[row].push(target));
    if row == rows.len() - 1 {
        assert(grown.drop_last() =~= rows.drop_last());
    } else {
        lemma_degree_sum_push(rows.drop_last(), row, target);
        assert(grown.drop_last() =~= rows.drop_last().update(
            row,
            rows.drop_last()[row].push(target),
        ));
    }
}

/// Every pair with both ends inside the graph is kept exactly once, and no
/// other pair is kept: the neighbour lists hold as many entries as the edge
/// list has pairs in range.
pub proof fn lemma_in_range_edges_kept_once(nodes: nat, edges: Seq<(usize, usize)>)
    ensures
        degree_sum(rows_from(nodes, edges)) == in_range_count(nodes as int, edges),
    decreases edges.len(),
{
    let rows = rows_from(nodes, edges);
    if edges.len() == 0 {
        lemma_degree_sum_empty(rows);
    } else {
        let earlier = rows_from(nodes, edges.drop_last());
        let next = edges.last();
        lemma_in_range_edges_kept_once(nodes, edges.drop_last());
        if in_range(nodes as int, next) {
            assert(rows =~= earlier.update(next.0 as int, earlier[next.0 as int].push(next.1)));
            lemma_degree_sum_push(earlier, next.0 as int, next.1);
        } else {
            assert(rows =~= earlier);
        }
    }
}

/// Adjacency lists over `n` nodes, every entry a node of the graph.
pub struct InteractionGraph {
    rows: Vec<Vec<usize>>,
}

impl View for InteractionGraph {
    type V = Seq<Seq<usize>>;

    /// The neighbour lists, by source node.
    closed spec fn view(&self) -> Seq<Seq<usize>> {
        Seq::new(self.rows@.len(), |i: int| self.rows@[i]@)
    }
}

impl InteractionGraph {
    #[verifier::type_invariant]
    spec fn well_formed(&self) -> bool {
        forall|i: int, k: int|
            0 <= i < self@.len() && 0 <= k < self@[i].len() ==> (#[trigger] self@[i][k])
                < self@.len()
    }

    /// Builds the graph over `nodes` nodes from `edges`. A pair with an end at
    /// or above `nodes` is dropped; the others are kept in order, each target
    /// appended to the list of its source.
    pub fn from_edges(nodes: usize, edges: &Vec<(usize, usize)>) -> (graph: InteractionGraph)
        ensures
            graph@ == rows_from(nodes as nat, edges@),
            degree_sum(graph@) == in_range_count(nodes as int, edges@),
    {
        let mut rows: Vec<Vec<usize>> = Vec::new();
        let mut u: usize = 0;
        while u < nodes
            invariant
                u <= nodes,
                rows@.len() == u,
                forall|j: int| 0 <= j < u ==> (#[trigger] rows@[j])@ == Seq::<usize>::empty(),
            decreases nodes - u,
        {
            rows.push(Vec::new());
            u += 1;
        }
        let mut k: usize = 0;
        while k < edges.len()
            invariant
                k <= edges.len(),
                rows@.len() == nodes,
                forall|j: int|
                    0 <= j < nodes ==> (#[trigger] rows@[j])@ == targets_from(
                        j,
                        nodes as int,
                        edges@.take(k as int),
                    ),
            decreases edges.len() - k,
        {
            let (from, to) = edges[k];
            proof {
                assert(edges@.take(k as int + 1) =~= edges@.take(k as int).push((from, to)));
                assert forall|j: int| 0 <= j < nodes implies targets_from(
                    j,
                    nodes as int,
                    edges@.take(k as int + 1),
                ) == if from == j && to < nodes {
                    targets_from(j, nodes as int, edges@.take(k as int)).push(to)
                } else {
                    targets_from(j, nodes as int, edges@.take(k as int))
                } by {
                    lemma_targets_from_push(j, nodes as int, edges@.take(k as int), (from, to));
                }
            }
            if from < nodes && to < nodes {
                rows[from].push(to);
            }
            k += 1;
        }
        proof {
            assert(edges@.take(k as int) =~= edges@);
            let built = Seq::new(rows@.len(), |i: int| rows@[i]@);
            assert forall|i: int, k: int| 0 <= i < built.len() && 0 <= k < built[i].len() implies (
            #[trigger] built[i][k]) < built.len() by {
                lemma_targets_from_in_range(i, nodes as int, edges@);
            }
            assert(built =~= rows_from(nodes as nat, edges@));
            lemma_in_range_edges_kept_once(nodes as nat, edges@);
        }
        InteractionGraph { rows }
    }

    /// Number of nodes.
    pub fn node_count(&self) -> (n: usize)
        ensures
            n == self@.len(),
    {
        self.rows.len()
    }

    /// The neighbours of `node`, in the order of the edge list. Each is a node
    /// of the graph.
    pub fn neighbours(&self, node: usize) -> (targets: &Vec<usize>)
        requires
            node < self@.len(),
        ensures
            targets@ == self@[node as int],
            forall|k: int| 0 <= k < targets@.len() ==> (#[trigger] targets@[k]) < self@.len(),
    {
        proof {
            use_type_invariant(self);
            assert forall|k: int| 0 <= k < self@[node as int].len() implies (
            #[trigger] self@[node as int][k]) < self@.len() by {}
        }
        &self.rows[node]
    }

    /// Number of neighbours of `node`, duplicates counted: the number of parts
    /// into which the node's outgoing share is split.
    pub fn out_degree(&self, node: usize) -> (degree: usize)
        requires
            node < self@.len(),
        ensures
            degree == self@[node as int].len(),
    {
        self.rows[node].len()
    }
}

} // verus!
