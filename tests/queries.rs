use handlegraph::handle::{Edge, Handle};
use handlegraph::mutablehandlegraph::AdditiveHandleGraph;
use handlegraph::packedgraph::PackedGraph;
use handlegraph::pathhandlegraph::{MutableGraphPaths, PathId};

use pangraph_queries::dedup::{remove_duplicates, PathInfo};
use pangraph_queries::queries::{
    nodes_high_path_count, path_info, path_lengths, path_name, paths_through_node,
    steps_io_degrees, walk_path, QueryError, StepRecord,
};
use pangraph_queries::ranking::rank_by_occupancy;
use pangraph_queries::timing::latency_report;

fn fwd(id: u64) -> Handle {
    Handle::pack(id, false)
}

fn add_path(g: &mut PackedGraph, name: &[u8], nodes: &[u64]) -> PathId {
    let p = g.create_path(name, false).unwrap();
    for &n in nodes {
        g.path_append_step(p, fwd(n));
    }
    p
}

/// Two nodes joined by one edge, and one path "p1" over both.
fn two_node_graph() -> PackedGraph {
    let mut g = PackedGraph::new();
    g.create_handle(b"ACGT", 1u64);
    g.create_handle(b"GG", 2u64);
    g.create_edge(Edge(fwd(1), fwd(2)));
    add_path(&mut g, b"p1", &[1, 2]);
    g
}

/// Four nodes in a chain with a loop back from 3 to 2; path "a" revisits
/// node 2, path "b" is short, node 4 lies on no path.
fn looped_graph() -> (PackedGraph, PathId, PathId) {
    let mut g = PackedGraph::new();
    for id in 1..=4u64 {
        g.create_handle(b"A", id);
    }
    g.create_edge(Edge(fwd(1), fwd(2)));
    g.create_edge(Edge(fwd(2), fwd(3)));
    g.create_edge(Edge(fwd(3), fwd(2)));
    g.create_edge(Edge(fwd(3), fwd(4)));
    let a = add_path(&mut g, b"a", &[1, 2, 3, 2, 3]);
    let b = add_path(&mut g, b"b", &[2, 3]);
    (g, a, b)
}

fn info(name: &str, length: usize) -> PathInfo {
    PathInfo { name: name.to_string(), length }
}

fn as_pairs(v: &[PathInfo]) -> Vec<(String, usize)> {
    v.iter().map(|p| (p.name.clone(), p.length)).collect()
}

fn as_tuples(v: &[StepRecord]) -> Vec<(String, usize, usize, usize)> {
    v.iter()
        .map(|r| (r.path_name.clone(), r.position, r.in_degree, r.out_degree))
        .collect()
}

#[test]
fn two_nodes_path_lengths() {
    let g = two_node_graph();
    let r = path_lengths(&g).unwrap();
    assert_eq!(as_pairs(&r), vec![("p1".to_string(), 2)]);
}

#[test]
fn two_nodes_step_walk() {
    let g = two_node_graph();
    let r = steps_io_degrees(&g).unwrap();
    assert_eq!(r.len(), 1);
    assert_eq!(
        as_tuples(&r[0]),
        vec![("p1".to_string(), 1, 0, 1), ("p1".to_string(), 2, 1, 0)]
    );
}

#[test]
fn two_nodes_occupancy() {
    let g = two_node_graph();
    assert_eq!(nodes_high_path_count(&g), vec![(1, 1), (2, 1)]);
}

#[test]
fn two_nodes_through_node_one() {
    let g = two_node_graph();
    let r = paths_through_node(&g, 1).unwrap();
    assert_eq!(as_pairs(&r), vec![("p1".to_string(), 2)]);
}

#[test]
fn through_node_off_every_path_fails() {
    let (g, _, _) = looped_graph();
    assert_eq!(paths_through_node(&g, 4).unwrap_err(), QueryError::PreconditionViolated);
}

#[test]
fn through_node_absent_from_graph_fails() {
    let g = two_node_graph();
    assert_eq!(paths_through_node(&g, 9).unwrap_err(), QueryError::PreconditionViolated);
}

#[test]
fn through_node_deduplicates_revisits() {
    let (g, _, _) = looped_graph();
    let mut r = as_pairs(&paths_through_node(&g, 2).unwrap());
    r.sort();
    assert_eq!(r, vec![("a".to_string(), 5), ("b".to_string(), 2)]);
    let only_a = as_pairs(&paths_through_node(&g, 1).unwrap());
    assert_eq!(only_a, vec![("a".to_string(), 5)]);
}

#[test]
fn occupancy_sums_to_step_count() {
    let (g, _, _) = looped_graph();
    let r = nodes_high_path_count(&g);
    let total: usize = r.iter().map(|p| p.1).sum();
    assert_eq!(total, 7);
    assert_eq!(r, vec![(4, 0), (1, 1), (2, 3), (3, 3)]);
}

#[test]
fn occupancy_ranking_non_decreasing() {
    let (g, _, _) = looped_graph();
    let r = nodes_high_path_count(&g);
    for w in r.windows(2) {
        assert!(w[0].1 <= w[1].1);
    }
}

#[test]
fn path_length_matches_walk() {
    let (g, _, _) = looped_graph();
    let lengths = path_lengths(&g).unwrap();
    let walks = steps_io_degrees(&g).unwrap();
    for l in &lengths {
        let walk = walks
            .iter()
            .find(|w| !w.is_empty() && w[0].path_name == l.name)
            .unwrap();
        assert_eq!(walk.len(), l.length);
    }
}

#[test]
fn walk_positions_are_contiguous() {
    let (g, a, b) = looped_graph();
    let ra = walk_path(&g, a.0).unwrap();
    let positions: Vec<usize> = ra.iter().map(|r| r.position).collect();
    assert_eq!(positions, vec![1, 2, 3, 4, 5]);
    assert_eq!(
        as_tuples(&walk_path(&g, b.0).unwrap()),
        vec![("b".to_string(), 1, 2, 1), ("b".to_string(), 2, 1, 2)]
    );
}

#[test]
fn walk_of_empty_path_is_empty() {
    let mut g = two_node_graph();
    let p = g.create_path(b"empty", false).unwrap();
    assert!(walk_path(&g, p.0).unwrap().is_empty());
}

#[test]
fn undecodable_name_is_a_decoding_error() {
    let mut g = two_node_graph();
    let p = add_path(&mut g, &[0xff, 0xfe], &[1]);
    assert_eq!(path_name(&g, p.0).unwrap_err(), QueryError::Decoding);
    assert_eq!(path_info(&g, p.0).unwrap_err(), QueryError::Decoding);
    assert_eq!(walk_path(&g, p.0).unwrap_err(), QueryError::Decoding);
    assert_eq!(paths_through_node(&g, 1).unwrap_err(), QueryError::Decoding);
}

#[test]
fn unknown_path_id_is_a_precondition_error() {
    let g = two_node_graph();
    assert_eq!(path_name(&g, 42).unwrap_err(), QueryError::PreconditionViolated);
}

#[test]
fn path_name_resolves_text() {
    let g = two_node_graph();
    assert_eq!(path_name(&g, 0).unwrap(), "p1");
    assert_eq!(as_pairs(&[path_info(&g, 0).unwrap()]), vec![("p1".to_string(), 2)]);
}

#[test]
fn ranking_is_stable_and_ascending() {
    let r = rank_by_occupancy(vec![(7, 3), (1, 0), (5, 3), (2, 1), (9, 0)]);
    assert_eq!(r, vec![(1, 0), (9, 0), (2, 1), (7, 3), (5, 3)]);
}

#[test]
fn ranking_of_nothing_is_empty() {
    assert!(rank_by_occupancy(vec![]).is_empty());
}

#[test]
fn dedup_keeps_first_occurrences() {
    let r = remove_duplicates(vec![info("x", 2), info("y", 1), info("x", 2), info("x", 3)]);
    assert_eq!(
        as_pairs(&r),
        vec![("x".to_string(), 2), ("y".to_string(), 1), ("x".to_string(), 3)]
    );
}

#[test]
fn dedup_twice_is_dedup_once() {
    let once = remove_duplicates(vec![info("a", 1), info("a", 1), info("b", 4), info("a", 1)]);
    let once_pairs = as_pairs(&once);
    let twice = remove_duplicates(once);
    assert_eq!(as_pairs(&twice), once_pairs);
}

#[test]
fn dedup_of_nothing_is_empty() {
    assert!(remove_duplicates(vec![]).is_empty());
}

#[test]
fn latency_adds_load_time() {
    let r = latency_report(12, 30);
    assert_eq!(r.query_ms, 12);
    assert_eq!(r.total_ms, 42);
}

#[test]
fn ranking_keeps_ties_in_order_across_halves() {
    let input = vec![(1, 2), (2, 1), (3, 2), (4, 0), (5, 1), (6, 2), (7, 0), (8, 1), (9, 2)];
    let r = rank_by_occupancy(input);
    assert_eq!(
        r,
        vec![(4, 0), (7, 0), (2, 1), (5, 1), (8, 1), (1, 2), (3, 2), (6, 2), (9, 2)]
    );
}

#[test]
fn path_lengths_lists_every_path_once() {
    let (g, _, _) = looped_graph();
    let mut names: Vec<String> = path_lengths(&g).unwrap().iter().map(|p| p.name.clone()).collect();
    names.sort();
    assert_eq!(names, vec!["a".to_string(), "b".to_string()]);
}
