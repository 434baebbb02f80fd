use aster_db::optimizer::{merge_partition_results, MergeStrategy, PartitionResult};
use aster_db::types::VertexId;

fn v(i: u64) -> VertexId {
    VertexId::from_u64(i)
}

fn part(vs: &[u64], conns: &[(u64, &[u64])], edges: usize) -> PartitionResult {
    PartitionResult {
        vertices_in_range: vs.iter().map(|&i| v(i)).collect(),
        neighbor_connections: conns.iter().map(|(s, ns)| (v(*s), ns.iter().map(|&i| v(i)).collect())).collect(),
        total_edges_in_range: edges,
    }
}

fn sample() -> Vec<PartitionResult> {
    vec![
        part(&[3, 1, 2], &[(1, &[2, 3, 2]), (3, &[1])], 4),
        part(&[2, 2, 5], &[(1, &[5]), (5, &[2])], 3),
    ]
}

fn ids(vs: &[VertexId]) -> Vec<u64> {
    vs.iter().map(|x| x.as_u64()).collect()
}

fn conns(cs: &[(VertexId, Vec<VertexId>)]) -> Vec<(u64, Vec<u64>)> {
    cs.iter().map(|(s, ns)| (s.as_u64(), ids(ns))).collect()
}

#[test]
fn ordered_merge_sorts_and_dedups() {
    let r = merge_partition_results(sample(), &MergeStrategy::OrderedMerge);
    assert_eq!(ids(&r.vertices_in_range), vec![1, 2, 3, 5]);
    assert_eq!(conns(&r.neighbor_connections), vec![(1, vec![2, 3, 5]), (3, vec![1]), (5, vec![2])]);
    assert_eq!(r.total_edges_in_range, 7);
    assert_eq!(r.possible_edges, 12);
}

#[test]
fn unordered_union_collapses_runs_only() {
    let r = merge_partition_results(sample(), &MergeStrategy::UnorderedUnion);
    assert_eq!(ids(&r.vertices_in_range), vec![3, 1, 2, 5]);
    assert_eq!(conns(&r.neighbor_connections), vec![(1, vec![2, 3, 5]), (3, vec![1]), (5, vec![2])]);
    let r2 = merge_partition_results(vec![part(&[1, 2, 1, 1], &[], 0)], &MergeStrategy::UnorderedUnion);
    assert_eq!(ids(&r2.vertices_in_range), vec![1, 2, 1]);
}

#[test]
fn set_union_holds_each_vertex_once() {
    let r = merge_partition_results(sample(), &MergeStrategy::SetUnion);
    let mut got = ids(&r.vertices_in_range);
    got.sort();
    assert_eq!(got, vec![1, 2, 3, 5]);
    assert_eq!(r.possible_edges, 12);
}

#[test]
fn set_intersection_keeps_common_vertices_and_their_links() {
    let r = merge_partition_results(sample(), &MergeStrategy::SetIntersection);
    assert_eq!(ids(&r.vertices_in_range), vec![2]);
    assert!(r.neighbor_connections.is_empty());
    assert_eq!(r.possible_edges, 0);
    assert_eq!(r.total_edges_in_range, 7);

    let parts = vec![
        part(&[1, 2], &[(1, &[2, 9])], 1),
        part(&[2, 1], &[(2, &[1]), (1, &[])], 2),
    ];
    let r2 = merge_partition_results(parts, &MergeStrategy::SetIntersection);
    let mut vs = ids(&r2.vertices_in_range);
    vs.sort();
    assert_eq!(vs, vec![1, 2]);
    assert_eq!(conns(&r2.neighbor_connections), vec![(1, vec![2]), (2, vec![1])]);
    assert_eq!(r2.possible_edges, 2);
}

#[test]
fn merging_nothing_gives_nothing() {
    for s in [MergeStrategy::OrderedMerge, MergeStrategy::UnorderedUnion, MergeStrategy::SetUnion, MergeStrategy::SetIntersection] {
        let r = merge_partition_results(vec![], &s);
        assert!(r.vertices_in_range.is_empty());
        assert!(r.neighbor_connections.is_empty());
        assert_eq!(r.total_edges_in_range, 0);
        assert_eq!(r.possible_edges, 0);
    }
}
