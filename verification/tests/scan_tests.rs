use aster_db::graph::GraphStore;
use aster_db::optimizer::MergeStrategy;
use aster_db::scan::{
    create_range_partitions, execute_optimized_range_query, index_guided_scan, partitioned_scan, select_hybrid_strategy,
    sequential_scan, PartitionStrategy, RangePartition, ScanPredicate, ScanStats, ScanStrategy,
};
use aster_db::types::{PropertyValue, VertexId};

fn v(i: u64) -> VertexId {
    VertexId::from_u64(i)
}

fn ids(vs: &[VertexId]) -> Vec<u64> {
    vs.iter().map(|x| x.as_u64()).collect()
}

/// Vertices 99..=102 and 200; edges 99->100, 101->102, 101->300, 102->101.
fn sample_store() -> GraphStore {
    let mut store = GraphStore::new();
    for i in [99, 100, 101, 102, 200] {
        store.add_vertex(v(i));
    }
    store.add_edge(v(99), v(100));
    store.add_edge(v(101), v(102));
    store.add_edge(v(101), v(300));
    store.add_edge(v(102), v(101));
    store
}

fn one_partition(start: u64, end: u64) -> Vec<RangePartition> {
    create_range_partitions(v(start), v(end), 10, &ScanStrategy::SequentialScan { batch_size: 1000, use_bloom_filter: true }, 1000)
}

fn bounds(parts: &[RangePartition]) -> Vec<(u64, u64)> {
    parts.iter().map(|p| (p.start_vertex.as_u64(), p.end_vertex.as_u64())).collect()
}

#[test]
fn test_range_partitioning() {
    let strategy = ScanStrategy::ParallelPartitionedScan { partition_count: 4, merge_strategy: MergeStrategy::OrderedMerge };
    let partitions = create_range_partitions(v(1), v(1000), 1000, &strategy, 1000);
    assert_eq!(partitions.len(), 4);
    assert_eq!(partitions[0].start_vertex.as_u64(), 1);
    assert_eq!(partitions[3].end_vertex.as_u64(), 1000);
}

#[test]
fn partitions_tile_the_range() {
    let strategy = ScanStrategy::ParallelPartitionedScan { partition_count: 4, merge_strategy: MergeStrategy::SetUnion };
    let partitions = create_range_partitions(v(1), v(1000), 1000, &strategy, 500);
    assert_eq!(bounds(&partitions), vec![(1, 250), (251, 500), (501, 750), (751, 1000)]);
    for (i, p) in partitions.iter().enumerate() {
        assert_eq!(p.partition_id, i);
        assert_eq!(p.priority, i as u32);
        assert_eq!(p.estimated_size, 250);
        assert_eq!(p.assigned_strategy, PartitionStrategy::SequentialScan { batch_size: 500, use_bloom_filter: true });
    }
    let strategy = ScanStrategy::ParallelPartitionedScan { partition_count: 3, merge_strategy: MergeStrategy::SetUnion };
    let partitions = create_range_partitions(v(1), v(10), 7, &strategy, 500);
    assert_eq!(bounds(&partitions), vec![(1, 3), (4, 6), (7, 10)]);
    assert_eq!(partitions[2].estimated_size, 2);
}

#[test]
fn other_strategies_keep_the_range_whole() {
    let parts = one_partition(5, 9);
    assert_eq!(parts.len(), 1);
    assert_eq!(bounds(&parts), vec![(5, 9)]);
    assert_eq!(parts[0].estimated_size, 10);
    assert_eq!(parts[0].assigned_strategy, PartitionStrategy::SequentialScan { batch_size: 1000, use_bloom_filter: true });
    let hybrid = ScanStrategy::HybridStrategy { strategies: vec![], threshold_conditions: vec![] };
    let parts = create_range_partitions(v(5), v(9), 10, &hybrid, 1000);
    assert_eq!(parts[0].assigned_strategy, PartitionStrategy::Other);
}

#[test]
fn sequential_scan_skips_bloom_ids_and_counts_batches() {
    let store = sample_store();
    let parts = one_partition(99, 150);
    let mut stats = ScanStats::new();
    let r = sequential_scan(&store, &parts, &vec![], 2, true, &mut stats);
    assert_eq!(ids(&r.vertices_in_range), vec![99, 101, 102]);
    let conns: Vec<(u64, Vec<u64>)> = r.neighbor_connections.iter().map(|(s, ns)| (s.as_u64(), ids(ns))).collect();
    assert_eq!(conns, vec![(99, vec![100]), (101, vec![102]), (102, vec![101])]);
    assert_eq!(r.total_edges_in_range, 4);
    assert_eq!(r.density_numerator, 3);
    assert_eq!(r.possible_edges, 6);
    assert_eq!(stats.vertices_visited, 2);
    assert_eq!(stats.vertices_scanned, 1);
    assert_eq!(stats.results_returned, 3);
    let mut stats = ScanStats::new();
    let r = sequential_scan(&store, &parts, &vec![], 2, false, &mut stats);
    assert_eq!(ids(&r.vertices_in_range), vec![99, 100, 101, 102]);
}

#[test]
fn sequential_scan_applies_pushed_filters() {
    let store = sample_store();
    let parts = one_partition(99, 150);
    let mut stats = ScanStats::new();
    let pushed = vec![ScanPredicate::PropertyEquals("age".to_string(), PropertyValue::Int(1))];
    let r = sequential_scan(&store, &parts, &pushed, 1, true, &mut stats);
    assert_eq!(ids(&r.vertices_in_range), vec![101]);
    assert_eq!(stats.vertices_visited, 1);
    assert_eq!(stats.edges_traversed, 1);
    let pushed = vec![ScanPredicate::PropertyRange("age".to_string(), Some(PropertyValue::Int(100)), None)];
    let r = sequential_scan(&store, &parts, &pushed, 10, false, &mut ScanStats::new());
    assert_eq!(ids(&r.vertices_in_range), vec![100, 101, 102]);
    let pushed = vec![ScanPredicate::PropertyEquals("name".to_string(), PropertyValue::String("am".to_string()))];
    let r = sequential_scan(&store, &parts, &pushed, 10, true, &mut ScanStats::new());
    assert_eq!(ids(&r.vertices_in_range), vec![99, 101, 102]);
    let pushed = vec![ScanPredicate::HasProperty(String::new())];
    let r = sequential_scan(&store, &parts, &pushed, 10, true, &mut ScanStats::new());
    assert!(r.vertices_in_range.is_empty());
    assert_eq!(r.possible_edges, 0);
    // The degree of a sequential scan is the id modulo 50: 99 -> 49, 101 -> 1, 102 -> 2.
    let pushed = vec![ScanPredicate::DegreeRange(1, 2)];
    let r = sequential_scan(&store, &parts, &pushed, 10, true, &mut ScanStats::new());
    assert_eq!(ids(&r.vertices_in_range), vec![101, 102]);
}

#[test]
fn index_guided_scan_keeps_the_first_candidates() {
    let store = sample_store();
    let parts = one_partition(99, 150);
    let mut stats = ScanStats::new();
    let pushed = vec![ScanPredicate::DegreeRange(1, 1)];
    let candidates = vec![v(101), v(5000), v(99), v(102)];
    let r = index_guided_scan(&store, &parts, &pushed, 2, &candidates, 3, &mut stats);
    assert_eq!(ids(&r.vertices_in_range), vec![99]);
    assert_eq!(r.total_edges_in_range, 1);
    assert_eq!(stats.vertices_scanned, 3);
    assert_eq!(stats.predicates_applied, 3);
    assert_eq!(stats.index_lookups, 3);
    assert_eq!(stats.results_returned, 1);
    let r = index_guided_scan(&store, &parts, &vec![], 0, &candidates, 100, &mut ScanStats::new());
    assert_eq!(ids(&r.vertices_in_range), vec![101, 99, 102]);
}

#[test]
fn partitioned_scan_merges_the_partitions() {
    let store = sample_store();
    let strategy = ScanStrategy::ParallelPartitionedScan { partition_count: 2, merge_strategy: MergeStrategy::OrderedMerge };
    let parts = create_range_partitions(v(99), v(102), 4, &strategy, 1000);
    assert_eq!(bounds(&parts), vec![(99, 100), (101, 102)]);
    let mut stats = ScanStats::new();
    stats.vertices_visited = 7;
    let r = partitioned_scan(&store, &parts, &vec![], &MergeStrategy::OrderedMerge, &mut stats);
    assert_eq!(ids(&r.vertices_in_range), vec![99, 101, 102]);
    assert_eq!(r.total_edges_in_range, 4);
    assert_eq!(stats.vertices_visited, 0);
    assert_eq!(stats.vertices_scanned, 3);
    assert_eq!(stats.results_returned, 3);
    let r2 = execute_optimized_range_query(&store, &strategy, &parts, &vec![], &vec![], 0, false, false, &mut ScanStats::new());
    assert_eq!(ids(&r2.vertices_in_range), vec![99, 101, 102]);
}

#[test]
fn hybrid_plans_pick_by_their_conditions() {
    let strategies = vec![
        ScanStrategy::SequentialScan { batch_size: 10, use_bloom_filter: false },
        ScanStrategy::ParallelPartitionedScan { partition_count: 2, merge_strategy: MergeStrategy::SetUnion },
        ScanStrategy::IndexGuidedScan { primary_index: "age_hash_index".to_string(), secondary_indices: vec![] },
    ];
    let conditions = vec!["use_index_if_available".to_string(), "parallel_for_large_ranges".to_string()];
    let small = one_partition(99, 150);
    let large = create_range_partitions(v(1), v(100), 20000, &ScanStrategy::SequentialScan { batch_size: 1, use_bloom_filter: true }, 1);
    assert_eq!(select_hybrid_strategy(&strategies, &conditions, &small, true, true), Some(2));
    assert_eq!(select_hybrid_strategy(&strategies, &conditions, &large, true, false), Some(1));
    assert_eq!(select_hybrid_strategy(&strategies, &conditions, &small, true, false), Some(0));
    assert_eq!(select_hybrid_strategy(&vec![], &conditions, &small, true, true), None);
    let store = sample_store();
    let hybrid = ScanStrategy::HybridStrategy { strategies, threshold_conditions: conditions };
    let r = execute_optimized_range_query(&store, &hybrid, &small, &vec![], &vec![], 0, false, false, &mut ScanStats::new());
    assert_eq!(ids(&r.vertices_in_range), vec![99, 100, 101, 102]);
    let empty = ScanStrategy::HybridStrategy { strategies: vec![], threshold_conditions: vec![] };
    let r = execute_optimized_range_query(&store, &empty, &small, &vec![], &vec![], 0, false, false, &mut ScanStats::new());
    assert_eq!(ids(&r.vertices_in_range), vec![99, 101, 102]);
}
