//! The weighted neighbour graph that the ranker walks.
//!
//! A graph over `n` nodes is `n` rows of outgoing edges. The library never
//! interprets a weight: it carries it from the candidate that produced it to the
//! edge that was kept. What the library decides is which candidates become
//! edges, and it guarantees that every edge of a graph points at a node of that
//! graph and that no edge points back at its own source.

use vstd::prelude::*;

verus! {

/// A directed link to `target`, carrying a weight of the caller's choosing.
///
/// The same shape serves for a candidate returned by a neighbour query and for
/// an edge that was kept.
#[derive(Clone, Copy, Debug, PartialEq)]
pub struct Edge<W> {
    /// Index of the node the link points at.
    pub target: usize,
    /// Weight attached to the link.
    pub weight: W,
}

/// The candidates of `source` that become edges: all of them except those that
/// point back at `source`, in the order in which they came. Candidates that
/// name the same target twice stay two edges.
pub open spec fn without_self<W>(source: int, candidates: Seq<Edge<W>>) -> Seq<Edge<W>>
    decreases candidates.len(),
{
    if candidates.len() == 0 {
        Seq::empty()
    } else {
        let kept = without_self(source, candidates.drop_last());
        if candidates.last().target == source {
            kept
        } else {
            kept.push(candidates.last())
        }
    }
}

/// Every edge of every row points at a row of `rows`, and none at its own row.
pub open spec fn rows_well_formed<W>(rows: Seq<Seq<Edge<W>>>) -> bool {
    forall|i: int, k: int|
        0 <= i < rows.len() && 0 <= k < rows[i].len() ==> {
            &&& (#[trigger] rows[i][k]).target < rows.len()
            &&& rows[i][k].target != i
        }
}

/// Keeping a candidate list's non-self entries after one more candidate was
/// appended: the new candidate is appended to the kept edges unless it is a
/// self-loop.
pub proof fn lemma_without_self_push<W>(source: int, candidates: Seq<Edge<W>>, next: Edge<W>)
    ensures
        without_self(source, candidates.push(next)) == if next.target != source {
            without_self(source, candidates).push(next)
        } else {
            without_self(source, candidates)
        },
{
    assert(candidates.push(next).drop_last() =~= candidates);
}

/// No kept edge is a self-loop, every kept edge was a candidate, and every
/// candidate that is not a self-loop is kept.
pub proof fn lemma_without_self_members<W>(source: int, candidates: Seq<Edge<W>>)
    ensures
        without_self(source, candidates).len() <= candidates.len(),
        forall|k: int|
            0 <= k < without_self(source, candidates).len() ==> {
                &&& (#[trigger] without_self(source, candidates)[k]).target != source
                &&& candidates.contains(without_self(source, candidates)[k])
            },
        forall|k: int|
            0 <= k < candidates.len() && (#[trigger] candidates[k]).target != source
                ==> without_self(source, candidates).contains(candidates[k]),
    decreases candidates.len(),
{
    if candidates.len() > 0 {
        let front = candidates.drop_last();
        let kept = without_self(source, front);
        let all = without_self(source, candidates);
        lemma_without_self_members(source, front);
        assert forall|k: int| 0 <= k < all.len() implies {
            &&& (#[trigger] all[k]).target != source
            &&& candidates.contains(all[k])
        } by {
            if k < kept.len() {
                assert(all[k] == kept[k]);
                let j = choose|j: int| 0 <= j < front.len() && front[j] == kept[k];
                assert(candidates[j] == all[k]);
            } else {
                assert(candidates[candidates.len() - 1] == all[k]);
            }
        }
        assert forall|k: int|
            0 <= k < candidates.len() && (#[trigger] candidates[k]).target
                != source implies all.contains(candidates[k]) by {
            if k < front.len() {
                assert(front[k] == candidates[k]);
                let j = choose|j: int| 0 <= j < kept.len() && kept[j] == front[k];
                assert(all[j] == candidates[k]);
            } else {
                assert(all[all.len() - 1] == candidates[k]);
            }
        }
    }
}

/// A candidate list that holds no self-loop is kept whole.
pub proof fn lemma_without_self_keeps_all<W>(source: int, candidates: Seq<Edge<W>>)
    requires
        forall|k: int| 0 <= k < candidates.len() ==> (#[trigger] candidates[k]).target != source,
    ensures
        without_self(source, candidates) == candidates,
    decreases candidates.len(),
{
    if candidates.len() > 0 {
        lemma_without_self_keeps_all(source, candidates.drop_last());
        assert(candidates.drop_last().push(candidates.last()) =~= candidates);
    }
}

/// Dropping the self-loops of a list whose self-loops were dropped already
/// changes nothing: edges that were kept once can be handed in again.
pub proof fn lemma_without_self_idempotent<W>(source: int, candidates: Seq<Edge<W>>)
    ensures
        without_self(source, without_self(source, candidates)) == without_self(
            source,
            candidates,
        ),
{
    lemma_without_self_members(source, candidates);
    lemma_without_self_keeps_all(source, without_self(source, candidates));
}

/// The outgoing edges of `source` from the candidates of one neighbour query.
///
/// Self-loops are dropped without condition; everything else is kept as it
/// came, duplicates included. What comes out can be handed in again, to this
/// function or to `Graph::materialize`, and is then kept whole.
pub fn outgoing_edges<W: Copy>(source: usize, candidates: &Vec<Edge<W>>) -> (edges: Vec<Edge<W>>)
    ensures
        edges@ == without_self(source as int, candidates@),
        forall|k: int| 0 <= k < edges@.len() ==> (#[trigger] edges@[k]).target != source,
        without_self(source as int, edges@) == edges@,
{
    let mut edges: Vec<Edge<W>> = Vec::with_capacity(candidates.len());
    let mut k: usize = 0;
    while k < candidates.len()
        invariant
            k <= candidates.len(),
            edges@ == without_self(source as int, candidates@.take(k as int)),
        decreases candidates.len() - k,
    {
        let candidate = candidates[k];
        proof {
            assert(candidates@.take(k as int + 1) =~= candidates@.take(k as int).push(candidate));
            lemma_without_self_push(source as int, candidates@.take(k as int), candidate);
        }
        if candidate.target != source {
            edges.push(candidate);
        }
        k += 1;
    }
    proof {
        assert(candidates@.take(k as int) =~= candidates@);
        lemma_without_self_members(source as int, candidates@);
        lemma_without_self_idempotent(source as int, candidates@);
    }
    edges
}

/// A weighted directed graph: one row of outgoing edges per node.
///
/// Every value of this type is well formed: each edge points at a node of the
/// graph, and no edge is a self-loop.
pub struct Graph<W> {
    rows: Vec<Vec<Edge<W>>>,
}

impl<W> View for Graph<W> {
    type V = Seq<Seq<Edge<W>>>;

    /// The rows of outgoing edges, by source node.
    closed spec fn view(&self) -> Seq<Seq<Edge<W>>> {
        Seq::new(self.rows@.len(), |i: int| self.rows@[i]@)
    }
}

impl<W> Graph<W> {
    #[verifier::type_invariant]
    spec fn well_formed(&self) -> bool {
        rows_well_formed(self@)
    }
}

impl<W: Copy> Graph<W> {
    /// Builds the graph from the candidates of every node, row `i` holding the
    /// candidates of node `i`: each row keeps its candidates except the
    /// self-loops, in order and with duplicates.
    ///
    /// Every candidate has to name a node of the graph, that is an index below
    /// the number of rows.
    pub fn materialize(candidates: &Vec<Vec<Edge<W>>>) -> (graph: Graph<W>)
        requires
            forall|i: int, k: int|
                0 <= i < candidates@.len() && 0 <= k < candidates@[i]@.len() ==> (
                #[trigger] candidates@[i]@[k]).target < candidates@.len(),
        ensures
            graph@.len() == candidates@.len(),
            forall|i: int|
                0 <= i < candidates@.len() ==> #[trigger] graph@[i] == without_self(
                    i,
                    candidates@[i]@,
                ),
            rows_well_formed(graph@),
    {
        let n = candidates.len();
        let mut rows: Vec<Vec<Edge<W>>> = Vec::with_capacity(n);
        let mut i: usize = 0;
        while i < n
            invariant
                i <= n,
                n == candidates@.len(),
                rows@.len() == i,
                forall|j: int|
                    0 <= j < i ==> (#[trigger] rows@[j])@ == without_self(j, candidates@[j]@),
            decreases n - i,
        {
            let row = outgoing_edges(i, &candidates[i]);
            rows.push(row);
            i += 1;
        }
        proof {
            let built = Seq::new(rows@.len(), |i: int| rows@[i]@);
            assert forall|r: int, k: int| 0 <= r < built.len() && 0 <= k < built[r].len() implies {
                &&& (#[trigger] built[r][k]).target < built.len()
                &&& built[r][k].target != r
            } by {
                lemma_without_self_members(r, candidates@[r]@);
                let e = built[r][k];
                let c = choose|c: int| 0 <= c < candidates@[r]@.len() && candidates@[r]@[c] == e;
                assert(candidates@[r]@[c].target < candidates@.len());
            }
        }
        Graph { rows }
    }

    /// Number of nodes.
    pub fn node_count(&self) -> (n: usize)
        ensures
            n == self@.len(),
    {
        self.rows.len()
    }

    /// The outgoing edges of `node`, in the order in which they were kept. Each
    /// of them points at a node of the graph other than `node`.
    pub fn out_edges(&self, node: usize) -> (edges: &Vec<Edge<W>>)
        requires
            node < self@.len(),
        ensures
            edges@ == self@[node as int],
            forall|k: int|
                0 <= k < edges@.len() ==> (#[trigger] edges@[k]).target < self@.len()
                    && edges@[k].target != node,
    {
        proof {
            use_type_invariant(self);
            assert forall|k: int| 0 <= k < self@[node as int].len() implies (
            #[trigger] self@[node as int][k]).target < self@.len() && self@[node as int][k].target
                != node by {}
        }
        &self.rows[node]
    }

    /// Number of outgoing edges of `node`, duplicates counted.
    pub fn out_degree(&self, node: usize) -> (degree: usize)
        requires
            node < self@.len(),
        ensures
            degree == self@[node as int].len(),
    {
        self.rows[node].len()
    }

    /// Whether `node` has no outgoing edge at all.
    pub fn is_sink(&self, node: usize) -> (sink: bool)
        requires
            node < self@.len(),
        ensures
            sink == (self@[node as int].len() == 0),
    {
        self.rows[node].len() == 0
    }

    /// Whether `node` is dangling: it has no outgoing edge, or its outgoing
    /// edges weigh nothing in total. A dangling node passes nothing along its
    /// edges; its rank is set aside and spread over all nodes.
    ///
    /// The library does not add weights up: the caller says whether the total
    /// weight of the node's edges is exactly zero.
    pub fn is_dangling(&self, node: usize, total_weight_is_zero: bool) -> (dangling: bool)
        requires
            node < self@.len(),
        ensures
            dangling == (self@[node as int].len() == 0 || total_weight_is_zero),
    {
        self.is_sink(node) || total_weight_is_zero
    }
}

} // verus!
