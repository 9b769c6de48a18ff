use visual_rank_engine::graph::{outgoing_edges, Edge, Graph};

fn edge(target: usize, weight: f64) -> Edge<f64> {
    Edge { target, weight }
}

#[test]
fn outgoing_edges_drop_the_self_loop() {
    let candidates = vec![edge(0, 1.0), edge(1, 0.75), edge(2, 0.5)];
    let edges = outgoing_edges(0, &candidates);
    assert_eq!(edges, vec![edge(1, 0.75), edge(2, 0.5)]);
}

#[test]
fn outgoing_edges_drop_every_self_loop_wherever_it_stands() {
    let candidates = vec![edge(3, 0.1), edge(1, 0.2), edge(3, 0.3), edge(0, 0.4), edge(3, 0.5)];
    let edges = outgoing_edges(3, &candidates);
    assert_eq!(edges, vec![edge(1, 0.2), edge(0, 0.4)]);
}

#[test]
fn outgoing_edges_keep_duplicates_as_separate_edges() {
    let candidates = vec![edge(2, 0.25), edge(2, 0.25), edge(1, 0.5), edge(2, 0.125)];
    let edges = outgoing_edges(0, &candidates);
    assert_eq!(edges, candidates);
}

#[test]
fn outgoing_edges_keep_the_order_of_the_candidates() {
    let candidates = vec![edge(4, 0.1), edge(2, 0.9), edge(3, 0.5)];
    let edges = outgoing_edges(1, &candidates);
    let targets: Vec<usize> = edges.iter().map(|e| e.target).collect();
    assert_eq!(targets, vec![4, 2, 3]);
}

#[test]
fn outgoing_edges_of_no_candidates_are_none() {
    let candidates: Vec<Edge<f64>> = Vec::new();
    assert!(outgoing_edges(0, &candidates).is_empty());
}

#[test]
fn outgoing_edges_of_only_self_loops_are_none() {
    let candidates = vec![edge(5, 1.0), edge(5, 0.0)];
    assert!(outgoing_edges(5, &candidates).is_empty());
}

#[test]
fn outgoing_edges_carry_the_weight_unchanged() {
    let candidates = vec![Edge { target: 1, weight: 7u32 }, Edge { target: 0, weight: 9u32 }];
    let edges = outgoing_edges(0, &candidates);
    assert_eq!(edges.len(), 1);
    assert_eq!(edges[0].target, 1);
    assert_eq!(edges[0].weight, 7);
}

#[test]
fn materialize_filters_each_row_against_its_own_index() {
    let candidates = vec![
        vec![edge(0, 1.0), edge(1, 0.5)],
        vec![edge(0, 0.5), edge(1, 1.0), edge(2, 0.25)],
        vec![edge(2, 1.0)],
    ];
    let graph = Graph::materialize(&candidates);
    assert_eq!(graph.node_count(), 3);
    assert_eq!(graph.out_edges(0), &vec![edge(1, 0.5)]);
    assert_eq!(graph.out_edges(1), &vec![edge(0, 0.5), edge(2, 0.25)]);
    assert!(graph.out_edges(2).is_empty());
}

#[test]
fn materialized_graph_has_no_self_loop_even_if_every_node_is_its_own_neighbour() {
    let n = 6;
    let candidates: Vec<Vec<Edge<f64>>> = (0..n)
        .map(|i| vec![edge(i, 1.0), edge((i + 1) % n, 0.5), edge(i, 0.25), edge((i + 2) % n, 0.125)])
        .collect();
    let graph = Graph::materialize(&candidates);
    for i in 0..graph.node_count() {
        assert_eq!(graph.out_degree(i), 2);
        for e in graph.out_edges(i) {
            assert_ne!(e.target, i);
            assert!(e.target < graph.node_count());
        }
    }
}

#[test]
fn materialize_of_no_rows_is_the_empty_graph() {
    let candidates: Vec<Vec<Edge<f64>>> = Vec::new();
    let graph = Graph::materialize(&candidates);
    assert_eq!(graph.node_count(), 0);
}

#[test]
fn out_degree_counts_duplicates() {
    let candidates = vec![vec![edge(1, 0.5), edge(1, 0.5), edge(1, 0.25)], vec![]];
    let graph = Graph::materialize(&candidates);
    assert_eq!(graph.out_degree(0), 3);
    assert_eq!(graph.out_degree(1), 0);
}

#[test]
fn is_sink_tells_rows_without_edges() {
    let candidates = vec![vec![edge(1, 0.5)], vec![edge(1, 1.0)], vec![]];
    let graph = Graph::materialize(&candidates);
    assert!(!graph.is_sink(0));
    assert!(graph.is_sink(1));
    assert!(graph.is_sink(2));
}

#[test]
fn a_zero_weight_edge_is_still_an_edge() {
    let candidates = vec![vec![edge(1, 0.0)], vec![]];
    let graph = Graph::materialize(&candidates);
    assert!(!graph.is_sink(0));
    assert_eq!(graph.out_edges(0), &vec![edge(1, 0.0)]);
}

#[test]
fn kept_edges_handed_in_again_are_kept_whole() {
    let candidates = vec![edge(2, 0.5), edge(0, 1.0), edge(1, 0.25), edge(2, 0.5)];
    let once = outgoing_edges(2, &candidates);
    let twice = outgoing_edges(2, &once);
    assert_eq!(once, vec![edge(0, 1.0), edge(1, 0.25)]);
    assert_eq!(twice, once);
}

#[test]
fn materialize_keeps_rows_that_were_filtered_before() {
    let raw = vec![
        vec![edge(0, 1.0), edge(1, 0.5), edge(2, 0.125)],
        vec![edge(1, 1.0), edge(0, 0.5)],
        vec![edge(2, 1.0), edge(2, 1.0)],
    ];
    let filtered: Vec<Vec<Edge<f64>>> =
        raw.iter().enumerate().map(|(i, row)| outgoing_edges(i, row)).collect();
    let from_raw = Graph::materialize(&raw);
    let from_filtered = Graph::materialize(&filtered);
    for i in 0..3 {
        assert_eq!(from_raw.out_edges(i), from_filtered.out_edges(i));
        assert_eq!(from_filtered.out_edges(i), &filtered[i]);
    }
}

#[test]
fn a_node_without_edges_is_dangling_whatever_its_total() {
    let candidates = vec![vec![edge(1, 0.5)], vec![edge(1, 1.0)]];
    let graph = Graph::materialize(&candidates);
    assert!(graph.is_dangling(1, true));
    assert!(graph.is_dangling(1, false));
}

#[test]
fn a_node_whose_edges_weigh_nothing_is_dangling() {
    let candidates = vec![vec![edge(1, 0.0), edge(2, 0.0)], vec![], vec![]];
    let graph = Graph::materialize(&candidates);
    let total: f64 = graph.out_edges(0).iter().map(|e| e.weight).sum();
    assert!(!graph.is_sink(0));
    assert!(graph.is_dangling(0, total == 0.0));
}

#[test]
fn a_node_with_a_weighing_edge_is_not_dangling() {
    let candidates = vec![vec![edge(1, 0.0), edge(2, 0.25)], vec![], vec![]];
    let graph = Graph::materialize(&candidates);
    let total: f64 = graph.out_edges(0).iter().map(|e| e.weight).sum();
    assert!(!graph.is_dangling(0, total == 0.0));
}
