use aster_db::graph::{Graph, GraphStore};
use aster_db::query::{AggregationFunction, QueryContext, QueryPredicate, QueryProjection};
use aster_db::query_engine::{QueryCache, QueryEngine};
use aster_db::error::ErrorKind;
use aster_db::types::{PropertyValue, VertexId};

fn v(i: u64) -> VertexId {
    VertexId::from_u64(i)
}

fn engine_with(edges: &[(u64, u64)], vertices: &[u64]) -> QueryEngine {
    let mut store = GraphStore::new();
    for &i in vertices {
        store.add_vertex(v(i));
    }
    let mut graph = Graph::new(store);
    for &(a, b) in edges {
        graph.add_edge(v(a), v(b), None);
    }
    QueryEngine::new(graph)
}

fn ids(vs: &[VertexId]) -> Vec<u64> {
    vs.iter().map(|x| x.as_u64()).collect()
}

#[test]
fn test_bfs_traversal() {
    let qe = engine_with(&[(1, 2), (2, 3)], &[]);
    let context = QueryContext::default_context();
    let (result, stats) = qe.bfs(v(1), &context).unwrap();
    assert!(!result.is_empty());
    assert!(result.contains(&v(1)));
    assert!(stats.vertices_visited > 0);
}

#[test]
fn bfs_order_and_stats() {
    let qe = engine_with(&[(1, 2), (1, 3), (2, 4), (3, 4), (4, 1)], &[]);
    let context = QueryContext::default_context();
    let (result, stats) = qe.bfs(v(1), &context).unwrap();
    assert_eq!(ids(&result), vec![1, 2, 3, 4]);
    assert_eq!(stats.vertices_visited, 4);
    assert_eq!(stats.edges_traversed, 5);
    let shallow = QueryContext { max_depth: Some(1), timeout_ms: None, use_cache: false };
    let (r1, s1) = qe.bfs(v(1), &shallow).unwrap();
    assert_eq!(ids(&r1), vec![1, 2, 3]);
    assert_eq!(s1.edges_traversed, 2);
}

#[test]
fn test_dfs_traversal() {
    let qe = engine_with(&[(1, 2), (2, 3)], &[]);
    let context = QueryContext::default_context();
    let (result, stats) = qe.dfs(v(1), &context).unwrap();
    assert!(!result.is_empty());
    assert!(result.contains(&v(1)));
    assert!(stats.vertices_visited > 0);
}

#[test]
fn dfs_goes_deep_first_in_stored_order() {
    let qe = engine_with(&[(1, 2), (1, 5), (2, 3), (3, 4), (5, 6)], &[]);
    let context = QueryContext::default_context();
    let (result, stats) = qe.dfs(v(1), &context).unwrap();
    assert_eq!(ids(&result), vec![1, 2, 3, 4, 5, 6]);
    assert_eq!(stats.vertices_visited, 6);
    assert_eq!(stats.edges_traversed, 5);
    let shallow = QueryContext { max_depth: Some(1), timeout_ms: None, use_cache: false };
    let (r1, _) = qe.dfs(v(1), &shallow).unwrap();
    assert_eq!(ids(&r1), vec![1, 2, 5]);
}

#[test]
fn test_k_hop_neighbors() {
    let qe = engine_with(&[(1, 2), (2, 3)], &[]);
    let context = QueryContext::default_context();
    let (result, _stats) = qe.k_hop_neighbors(v(1), 2, &context).unwrap();
    assert!(result.iter().any(|(h, _)| *h == 0));
}

#[test]
fn k_hop_levels_and_early_stop() {
    let qe = engine_with(&[(1, 2), (1, 3), (2, 4), (3, 4)], &[]);
    let context = QueryContext::default_context();
    let (levels, stats) = qe.k_hop_neighbors(v(1), 5, &context).unwrap();
    let shape: Vec<(usize, Vec<u64>)> = levels.iter().map(|(h, vs)| (*h, ids(vs))).collect();
    assert_eq!(shape, vec![(0, vec![1]), (1, vec![2, 3]), (2, vec![4]), (3, vec![])]);
    assert_eq!(stats.vertices_visited, 3);
    assert_eq!(stats.edges_traversed, 4);
    let (none, _) = qe.k_hop_neighbors(v(1), 0, &context).unwrap();
    assert_eq!(none.len(), 1);
}

#[test]
fn test_range_bfs() {
    let qe = engine_with(&[(1, 2), (2, 3), (3, 4), (4, 5)], &[1, 2, 3, 4, 5]);
    let context = QueryContext::default_context();
    let (result, stats) = qe.range_bfs(v(1), v(2), v(4), &context).unwrap();
    assert!(!result.is_empty());
    assert!(result.contains(&v(1)));
    assert!(stats.vertices_visited > 0);
}

#[test]
fn range_bfs_prefers_the_range() {
    let qe = engine_with(&[(1, 9), (1, 3), (1, 8), (1, 2)], &[]);
    let context = QueryContext::default_context();
    let (result, _) = qe.range_bfs(v(1), v(2), v(4), &context).unwrap();
    assert_eq!(ids(&result), vec![1, 3, 2, 9, 8]);
    let (plain, _) = qe.bfs(v(1), &context).unwrap();
    assert_eq!(ids(&plain), vec![1, 9, 3, 8, 2]);
}

#[test]
fn test_filter_vertices() {
    let qe = engine_with(&[(2, 3), (2, 4), (2, 5)], &[1, 2, 3, 4, 5]);
    let vertices: Vec<VertexId> = (1..=5).map(v).collect();
    let context = QueryContext::default_context();
    let filtered = qe.filter_vertices(vertices.clone(), &QueryPredicate::DegreeGreaterThan(1), &context);
    assert!(!filtered.is_empty());
    assert!(filtered.contains(&vertices[1]));
    assert_eq!(filtered, vec![v(2)]);
}

#[test]
fn predicates_combine() {
    let qe = engine_with(&[(2, 3), (2, 4), (3, 4)], &[]);
    let vs: Vec<VertexId> = (1..=4).map(v).collect();
    let c = QueryContext::default_context();
    let p = QueryPredicate::Or(vec![
        QueryPredicate::DegreeGreaterThan(1),
        QueryPredicate::VertexIdIn(vec![v(4)]),
    ]);
    assert_eq!(ids(&qe.filter_vertices(vs.clone(), &p, &c)), vec![2, 4]);
    let q = QueryPredicate::And(vec![QueryPredicate::DegreeLessThan(2), QueryPredicate::Not(Box::new(QueryPredicate::VertexIdIn(vec![v(1)])))]);
    assert_eq!(ids(&qe.filter_vertices(vs.clone(), &q, &c)), vec![3, 4]);
    assert_eq!(qe.filter_vertices(vs.clone(), &QueryPredicate::PropertyNotEquals("a".to_string(), PropertyValue::Int(1)), &c).len(), 0);
    assert_eq!(qe.filter_vertices(vs.clone(), &QueryPredicate::PropertyExists("a".to_string()), &c).len(), 4);
    assert!(qe.evaluate_predicate(v(9), &QueryPredicate::And(vec![]), &c));
    assert!(!qe.evaluate_predicate(v(9), &QueryPredicate::Or(vec![]), &c));
}

#[test]
fn test_project_vertices() {
    let qe = engine_with(&[], &[1, 2, 3]);
    let vertices: Vec<VertexId> = (1..=3).map(v).collect();
    let context = QueryContext::default_context();
    let projections = vec![QueryProjection::VertexId, QueryProjection::VertexDegree, QueryProjection::NeighborCount];
    let result = qe.project_vertices(vertices.clone(), &projections, &context);
    assert_eq!(result.len(), 3);
    assert_eq!(result.total_vertices, 3);
    for row in &result.rows {
        assert!(row.contains_key("vertex_id"));
        assert!(row.contains_key("degree"));
        assert!(row.contains_key("neighbor_count"));
    }
}

#[test]
fn projected_values() {
    let qe = engine_with(&[(7, 8), (7, 9)], &[]);
    let c = QueryContext::default_context();
    let projections = vec![
        QueryProjection::VertexId,
        QueryProjection::VertexDegree,
        QueryProjection::VertexProperty("name".to_string()),
        QueryProjection::EdgeProperty("w".to_string()),
        QueryProjection::Computed("score".to_string()),
    ];
    let result = qe.project_vertices(vec![v(7)], &projections, &c);
    let row = &result.rows[0];
    assert_eq!(row.len(), 4);
    assert!(matches!(row.get("vertex_id"), Some(PropertyValue::String(s)) if s == "7"));
    assert!(matches!(row.get("degree"), Some(PropertyValue::Int(2))));
    assert!(matches!(row.get("name"), Some(PropertyValue::String(s)) if s == "not_implemented"));
    assert!(matches!(row.get("score"), Some(PropertyValue::String(s)) if s == "computed"));
    assert!(row.get("w").is_none());
}

#[test]
fn test_aggregate_vertices() {
    let qe = engine_with(&[], &[1, 2, 3, 4, 5]);
    let vertices: Vec<VertexId> = (1..=5).map(v).collect();
    let context = QueryContext::default_context();
    let aggregations = vec![AggregationFunction::Count, AggregationFunction::Sum("degree".to_string())];
    let result = qe.aggregate(vertices.clone(), &aggregations, &context);
    assert!(result.contains_key("count"));
    assert!(result.contains_key("sum_degree"));
    if let Some(PropertyValue::Int(count)) = result.get("count") {
        assert_eq!(*count, 5);
    } else {
        panic!("Count aggregation failed");
    }
    assert!(matches!(result.get("sum_degree"), Some(PropertyValue::Float(f)) if f.bits == 0 && f.text == "0"));
}

#[test]
fn test_execute_query() {
    let qe = engine_with(&[], &[1, 2, 3, 4, 5]);
    let vertices: Vec<VertexId> = (1..=5).map(v).collect();
    let context = QueryContext::default_context();
    let projections = vec![QueryProjection::VertexId, QueryProjection::VertexDegree];
    let result = qe.execute_query(vertices.clone(), None, Some(&projections), None, &context);
    assert_eq!(result.len(), 5);
    assert_eq!(result.total_vertices, 5);
    let aggregations = vec![AggregationFunction::Count];
    let result = qe.execute_query(vertices.clone(), None, None, Some(&aggregations), &context);
    assert_eq!(result.len(), 1);
    assert_eq!(result.total_vertices, 5);
}

#[test]
fn execute_query_filters_then_lists_ids() {
    let qe = engine_with(&[(1, 2)], &[1, 2, 3]);
    let c = QueryContext::default_context();
    let p = QueryPredicate::DegreeGreaterThan(0);
    let r = qe.execute_query(vec![v(1), v(2), v(3)], Some(&p), None, None, &c);
    assert_eq!(r.total_vertices, 1);
    assert_eq!(r.len(), 1);
    assert!(matches!(r.rows[0].get("vertex_id"), Some(PropertyValue::String(s)) if s == "1"));
}

#[test]
fn timeouts_need_a_timeout() {
    let qe = engine_with(&[(1, 2)], &[]);
    let c = QueryContext { max_depth: None, timeout_ms: Some(u64::MAX), use_cache: false };
    assert!(qe.bfs(v(1), &c).is_ok());
    assert!(qe.dfs(v(1), &c).is_ok());
    let _ = ErrorKind::Timeout;
}

fn stat(stats: &[(String, u64)], name: &str) -> Option<u64> {
    stats.iter().find(|(k, _)| k == name).map(|(_, n)| *n)
}

#[test]
fn test_cache_functionality() {
    let mut query_engine = engine_with(&[], &[]);
    let result = vec![v(1), v(2)];
    query_engine.cache_result("test_key".to_string(), result.clone());

    let cached = query_engine.get_cached_result("test_key");
    assert!(cached.is_some());

    let stats = query_engine.get_cache_stats();
    assert!(stat(&stats, "total_entries").is_some());
    assert_eq!(stat(&stats, "total_entries"), Some(1));

    query_engine.clear_cache();
    let cleared_stats = query_engine.get_cache_stats();
    assert_eq!(stat(&cleared_stats, "total_entries"), Some(0));
}

#[test]
fn cache_counts_reads_and_skips_empty_keys() {
    let mut qe = engine_with(&[], &[]);
    qe.cache_result(String::new(), vec![v(1)]);
    assert_eq!(stat(&qe.get_cache_stats(), "total_entries"), Some(0));
    qe.cache_result("a".to_string(), vec![v(1), v(2)]);
    assert_eq!(qe.get_cached_result("a").map(|r| ids(&r)), Some(vec![1, 2]));
    assert_eq!(qe.get_cached_result("a").map(|r| ids(&r)), Some(vec![1, 2]));
    assert!(qe.get_cached_result("b").is_none());
    let stats = qe.get_cache_stats();
    assert_eq!(stat(&stats, "total_accesses"), Some(2));
    assert_eq!(stat(&stats, "max_size"), Some(10000));
    // Caching under the same key replaces the entry.
    qe.cache_result("a".to_string(), vec![v(3)]);
    assert_eq!(qe.get_cached_result("a").map(|r| ids(&r)), Some(vec![3]));
    assert_eq!(stat(&qe.get_cache_stats(), "total_entries"), Some(1));
}

fn chain_engine(n: u64) -> QueryEngine {
    let vertices: Vec<u64> = (1..=n).collect();
    let edges: Vec<(u64, u64)> = (1..n).map(|i| (i, i + 1)).collect();
    engine_with(&edges, &vertices)
}

#[test]
fn test_range_query() {
    let mut query_engine = chain_engine(10);
    let context = QueryContext::default_context();
    let (result, stats) = query_engine.range_query(v(3), v(7), &context).unwrap();

    assert!(!result.vertices_in_range.is_empty());
    assert!(stats.vertices_visited > 0);
    let density = if result.possible_edges > 0 {
        result.density_numerator as f64 / result.possible_edges as f64
    } else {
        0.0
    };
    assert!(density >= 0.0);
}

#[test]
fn range_query_exact_values() {
    let mut qe = chain_engine(10);
    let context = QueryContext::default_context();
    let (result, stats) = qe.range_query(v(3), v(7), &context).unwrap();
    assert_eq!(ids(&result.vertices_in_range), vec![3, 4, 5, 6, 7]);
    // 3->4, 4->5, 5->6, 6->7 stay in the range; 7->8 leaves it.
    assert_eq!(result.total_edges_in_range, 4);
    assert_eq!(result.density_numerator, 4);
    assert_eq!(result.possible_edges, 20);
    assert_eq!(result.neighbor_connections.len(), 5);
    assert_eq!(ids(&result.neighbor_connections[4].1), Vec::<u64>::new());
    assert_eq!(stats.vertices_visited, 5);
    assert_eq!(stats.edges_traversed, 5);
    assert_eq!(stats.cache_hits, 0);
    assert_eq!(stats.cache_misses, 1);
    // The range is now cached under its key, and a second query hits it.
    assert_eq!(qe.get_cached_result("range_3_7").map(|r| ids(&r)), Some(vec![3, 4, 5, 6, 7]));
    let (_, again) = qe.range_query(v(3), v(7), &context).unwrap();
    assert_eq!(again.cache_hits, 1);
    // Without the cache nothing is read or stored.
    let plain = QueryContext { max_depth: None, timeout_ms: None, use_cache: false };
    let (_, s3) = qe.range_query(v(1), v(2), &plain).unwrap();
    assert_eq!((s3.cache_hits, s3.cache_misses), (0, 0));
    assert!(qe.get_cached_result("range_1_2").is_none());
}

#[test]
fn test_multi_range_query() {
    let ranges = vec![(v(1), v(3)), (v(10), v(12))];
    let mut vertices = Vec::new();
    let mut edges = Vec::new();
    for (s, e) in &ranges {
        for i in s.as_u64()..=e.as_u64() {
            vertices.push(i);
            if i < e.as_u64() {
                edges.push((i, i + 1));
            }
        }
    }
    let mut query_engine = engine_with(&edges, &vertices);
    let context = QueryContext::default_context();
    let (results, stats) = query_engine.multi_range_query(ranges, &context).unwrap();
    assert_eq!(results.len(), 2);
    assert!(stats.vertices_visited > 0);
}

#[test]
fn multi_range_query_sorts_and_adds_up() {
    let mut qe = chain_engine(12);
    let context = QueryContext { max_depth: None, timeout_ms: None, use_cache: false };
    let (results, stats) = qe.multi_range_query(vec![(v(10), v(12)), (v(1), v(3)), (v(1), v(1))], &context).unwrap();
    let got: Vec<Vec<u64>> = results.iter().map(|r| ids(&r.vertices_in_range)).collect();
    assert_eq!(got, vec![vec![1, 2, 3], vec![1], vec![10, 11, 12]]);
    assert_eq!(stats.vertices_visited, 7);
    assert_eq!(stats.edges_traversed, 3 + 1 + 2);
    assert_eq!(stats.cache_misses, 0);
    let (none, s0) = qe.multi_range_query(Vec::new(), &context).unwrap();
    assert!(none.is_empty());
    assert_eq!(s0.vertices_visited, 0);
}

fn normalized(comps: &[Vec<VertexId>]) -> Vec<Vec<u64>> {
    let mut out: Vec<Vec<u64>> = comps
        .iter()
        .map(|c| {
            let mut ids = ids(c);
            ids.sort();
            ids
        })
        .collect();
    out.sort();
    out
}

#[test]
fn connected_components_groups_linked_vertices() {
    // 1 -> 2 <- 3, 4 alone, 5 -> 6 with 6 not listed.
    let qe = engine_with(&[(1, 2), (3, 2), (5, 6)], &[1, 2, 3, 4, 5, 6]);
    let context = QueryContext::default_context();
    let listed = vec![v(1), v(2), v(3), v(4), v(5), v(1)];
    let (comps, stats) = qe.connected_components(listed, &context).unwrap();
    assert_eq!(normalized(&comps), vec![vec![1, 2, 3], vec![4], vec![5]]);
    assert_eq!(stats.vertices_visited, 6);
    // 1 is listed twice and looked up twice: 1 + 0 + 1 + 0 + 1 + 1.
    assert_eq!(stats.edges_traversed, 4);
    assert_eq!((stats.cache_hits, stats.cache_misses), (0, 0));
}

#[test]
fn connected_components_follows_chains_both_ways() {
    // 1 -> 2, 3 -> 2, 3 -> 4, 6 -> 5: {1,2,3,4} and {5,6}.
    let qe = engine_with(&[(1, 2), (3, 2), (3, 4), (6, 5)], &[1, 2, 3, 4, 5, 6]);
    let context = QueryContext { max_depth: None, timeout_ms: None, use_cache: false };
    let (comps, _) = qe.connected_components(vec![v(4), v(5), v(1), v(6), v(2), v(3)], &context).unwrap();
    assert_eq!(normalized(&comps), vec![vec![1, 2, 3, 4], vec![5, 6]]);
    let (none, stats) = qe.connected_components(Vec::new(), &context).unwrap();
    assert!(none.is_empty());
    assert_eq!(stats.vertices_visited, 0);
}

#[test]
fn cache_evicts_the_oldest_when_full() {
    let mut cache = QueryCache::new(2);
    cache.put("a".to_string(), vec![v(1)], 10);
    cache.put("b".to_string(), vec![v(2)], 5);
    cache.put("c".to_string(), vec![v(3)], 7);
    assert_eq!(cache.len(), 2);
    assert!(cache.get("b").is_none());
    assert_eq!(cache.get("a").map(|r| ids(&r)), Some(vec![1]));
    assert_eq!(cache.get("c").map(|r| ids(&r)), Some(vec![3]));
    assert_eq!(cache.total_reads(), 2);
    cache.clear();
    assert_eq!(cache.len(), 0);
}

#[test]
fn test_shortest_path() {
    let qe = engine_with(&[(1, 2), (2, 3)], &[]);
    let context = QueryContext::default_context();
    let (path, stats) = qe.shortest_path(v(1), v(3), &context).unwrap();
    if let Some(path) = path {
        assert!(path.contains(&v(1)));
        assert!(path.contains(&v(3)));
    }
    assert!(stats.vertices_visited > 0);
}

#[test]
fn shortest_path_picks_fewest_edges() {
    // 1 -> 6 -> 7 -> 5 and 1 -> 2 -> 4 -> 5, 1 -> 3 -> 4.
    let qe = engine_with(&[(1, 6), (6, 7), (7, 5), (1, 2), (1, 3), (2, 4), (3, 4), (4, 5)], &[]);
    let context = QueryContext { max_depth: None, timeout_ms: None, use_cache: false };
    let (path, stats) = qe.shortest_path(v(1), v(5), &context).unwrap();
    let path = path.unwrap();
    assert_eq!(path.len(), 4);
    assert_eq!(path[0], v(1));
    assert_eq!(path[3], v(5));
    assert!(stats.vertices_visited >= 1);
    // From a vertex to itself: the route of one vertex.
    let (same, s1) = qe.shortest_path(v(4), v(4), &context).unwrap();
    assert_eq!(ids(&same.unwrap()), vec![4]);
    assert_eq!((s1.vertices_visited, s1.edges_traversed), (1, 0));
    // Edges count one way only: 5 reaches nothing.
    let (none, s2) = qe.shortest_path(v(5), v(1), &context).unwrap();
    assert!(none.is_none());
    assert_eq!(s2.vertices_visited, 1);
}

#[test]
fn single_source_routes_are_shortest() {
    let qe = engine_with(&[(1, 2), (2, 3), (1, 3), (3, 4), (5, 1)], &[]);
    let context = QueryContext { max_depth: None, timeout_ms: None, use_cache: false };
    let (paths, stats) = qe.single_source_shortest_paths(v(1), &context).unwrap();
    let mut got: Vec<(u64, usize)> = paths.iter().map(|(t, p)| (t.as_u64(), p.len())).collect();
    got.sort();
    assert_eq!(got, vec![(1, 1), (2, 2), (3, 2), (4, 3)]);
    for (t, p) in &paths {
        assert_eq!(p[0], v(1));
        assert_eq!(p[p.len() - 1], *t);
    }
    assert_eq!(stats.vertices_visited, 4);
    assert_eq!(stats.edges_traversed, 4);
}

#[test]
fn pagerank_links_count_in_and_out_edges() {
    let qe = engine_with(&[(1, 2), (1, 3), (2, 3), (3, 1), (3, 9)], &[1, 2, 3, 4]);
    let listed = vec![v(1), v(2), v(3), v(4)];
    let (links, edges) = qe.pagerank_links(&listed);
    assert_eq!(links.out_degrees, vec![2, 1, 2, 1]);
    let incoming: Vec<Vec<u64>> = links.incoming.iter().map(|l| ids(l)).collect();
    assert_eq!(incoming, vec![vec![3], vec![1], vec![1, 2], vec![]]);
    assert_eq!(edges, 5);
}

#[test]
fn searches_follow_the_clock_they_are_given() {
    let qe = engine_with(&[(1, 2), (2, 3)], &[1, 2, 3]);
    let limited = QueryContext { max_depth: None, timeout_ms: Some(30_000), use_cache: false };
    let unlimited = QueryContext { max_depth: None, timeout_ms: None, use_cache: false };
    let early = || 0u128;
    let late = || 30_001u128;
    let (out, _) = qe.bfs_with_clock(v(1), &limited, &early).unwrap();
    assert_eq!(ids(&out), vec![1, 2, 3]);
    let err = qe.bfs_with_clock(v(1), &limited, &late).unwrap_err();
    assert_eq!(err.kind(), ErrorKind::Timeout);
    assert!(qe.bfs_with_clock(v(1), &unlimited, &late).is_ok());
    assert!(qe.dfs_with_clock(v(1), &limited, &late).is_err());
    assert!(qe.dfs_with_clock(v(1), &limited, &early).is_ok());
    assert!(qe.k_hop_neighbors_with_clock(v(1), 2, &limited, &late).is_err());
    assert!(qe.shortest_path_with_clock(v(1), v(3), &limited, &late).is_err());
    let (p, _) = qe.shortest_path_with_clock(v(1), v(3), &limited, &early).unwrap();
    assert_eq!(ids(&p.unwrap()), vec![1, 2, 3]);
    assert!(qe.single_source_shortest_paths_with_clock(v(1), &limited, &late).is_err());
    assert!(qe.connected_components_with_clock(vec![v(1), v(2)], &limited, &late).is_err());
    assert!(qe.connected_components_with_clock(vec![v(1), v(2)], &limited, &early).is_ok());
    let mut qe2 = engine_with(&[(1, 2), (2, 3)], &[1, 2, 3]);
    assert!(qe2.range_query_with_clock(v(1), v(3), &limited, &late).is_err());
    assert!(qe2.range_query_with_clock(v(1), v(3), &limited, &early).is_ok());
    assert!(qe2.multi_range_query_with_clock(vec![(v(1), v(2))], &limited, &late).is_err());
}

#[test]
fn search_stops_at_the_first_late_reading() {
    let qe = engine_with(&[(1, 2), (2, 3)], &[1, 2, 3]);
    let limited = QueryContext { max_depth: None, timeout_ms: Some(30_000), use_cache: false };
    // The search of 1 -> 2 -> 3 reads the clock once before each of its three lookups.
    let reads = std::cell::Cell::new(0u32);
    let late_from_fourth = || {
        reads.set(reads.get() + 1);
        if reads.get() >= 4 { 30_001u128 } else { 0u128 }
    };
    let (out, _) = qe.bfs_with_clock(v(1), &limited, &late_from_fourth).unwrap();
    assert_eq!(ids(&out), vec![1, 2, 3]);
    let reads = std::cell::Cell::new(0u32);
    let late_from_third = || {
        reads.set(reads.get() + 1);
        if reads.get() >= 3 { 30_001u128 } else { 0u128 }
    };
    let err = qe.bfs_with_clock(v(1), &limited, &late_from_third).unwrap_err();
    assert_eq!(err.to_string(), "Timeout: BFS query timeout");
    assert_eq!(reads.get(), 3);
}

#[test]
fn searches_without_lookups_never_time_out() {
    let qe = engine_with(&[(1, 2), (2, 3)], &[1, 2, 3]);
    let shallow = QueryContext { max_depth: Some(0), timeout_ms: Some(30_000), use_cache: false };
    let late = || 30_001u128;
    let (out, _) = qe.dfs_with_clock(v(1), &shallow, &late).unwrap();
    assert_eq!(ids(&out), vec![1]);
    let (out, _) = qe.bfs_with_clock(v(1), &shallow, &late).unwrap();
    assert_eq!(ids(&out), vec![1]);
    let (p, _) = qe.shortest_path_with_clock(v(1), v(1), &shallow, &late).unwrap();
    assert_eq!(ids(&p.unwrap()), vec![1]);
    assert!(qe.connected_components_with_clock(vec![], &shallow, &late).is_ok());
}
