use aster_db::clock::{check_deadline, past_limit};
use aster_db::recovery::replay_past_limit;
use aster_db::metrics::{prune_alerts, Alert, AlertSeverity};
use aster_db::benchmarks::{BenchmarkConfig, BenchmarkReporter, OutputFormat, WorkloadType};
use aster_db::error::{AsterError, ErrorKind, ErrorResponse, IntoAsterError};
use aster_db::optimizer::{MergeStrategy, OptimizationStats};
use aster_db::query::{QueryContext, QueryStats};
use aster_db::server::{base64_encode, HealthResponse, QueryStatsResponse};
use aster_db::traversal::BfsTraversal;
use aster_db::types::VertexId;

#[test]
fn base64_known_values() {
    assert_eq!(base64_encode(b""), "");
    assert_eq!(base64_encode(b"f"), "Zg==");
    assert_eq!(base64_encode(b"fo"), "Zm8=");
    assert_eq!(base64_encode(b"foo"), "Zm9v");
    assert_eq!(base64_encode(b"foobar"), "Zm9vYmFy");
    assert_eq!(base64_encode(&[0xff, 0xfe, 0xfd, 0x00]), "//79AA==");
}

#[test]
fn workload_descriptions_and_names() {
    assert_eq!(WorkloadType::WriteHeavy.description(), "80% edge additions/updates, 20% neighbor lookups");
    assert_eq!(WorkloadType::BulkLoad.description(), "Large batch operations and bulk data loading");
    assert_eq!(WorkloadType::HighContention.label(), "High-Contention");
    assert_eq!(WorkloadType::all().len(), 6);
    assert_eq!(
        WorkloadType::performance_workloads(),
        vec![WorkloadType::WriteHeavy, WorkloadType::ReadHeavy, WorkloadType::Mixed, WorkloadType::HighContention]
    );
    assert_eq!(
        WorkloadType::functionality_workloads(),
        vec![WorkloadType::Mixed, WorkloadType::Traversal, WorkloadType::BulkLoad]
    );
}

#[test]
fn reporter_builders_set_one_flag_each() {
    let r = BenchmarkReporter::new(OutputFormat::Csv);
    assert!(r.include_detailed_stats && r.include_adaptive_analysis);
    assert!(r.include_lock_free_analysis && r.include_memory_analysis);
    let r2 = r.with_detailed_stats(false).with_memory_analysis(false);
    assert_eq!(r2.format, OutputFormat::Csv);
    assert!(!r2.include_detailed_stats);
    assert!(r2.include_adaptive_analysis);
    assert!(r2.include_lock_free_analysis);
    assert!(!r2.include_memory_analysis);
    let r3 = r2.with_adaptive_analysis(false).with_lock_free_analysis(false).with_detailed_stats(true);
    assert!(r3.include_detailed_stats && !r3.include_adaptive_analysis && !r3.include_lock_free_analysis);
}

#[test]
fn default_benchmark_config() {
    let c = BenchmarkConfig::default_config();
    assert_eq!(c.vertex_count, 100_000);
    assert_eq!(c.avg_degree, 10);
    assert_eq!(c.iterations, 1000);
    assert_eq!(c.concurrency, 16);
    assert_eq!(c.workloads, WorkloadType::performance_workloads());
    assert_eq!(c.duration_seconds, 60);
    assert!(c.test_adaptive_strategies && c.test_concurrency_models && c.measure_memory);
}

#[test]
fn error_texts_and_types() {
    let e = AsterError::invalid_operation("bad step");
    assert_eq!(e.kind(), ErrorKind::InvalidOperation);
    assert_eq!(e.to_string(), "Invalid operation: bad step");
    let r = ErrorResponse::from_error(&e);
    assert_eq!(r.error, "Invalid operation: bad step");
    assert_eq!(r.error_type, "InvalidOperationError");
    assert!(r.details.is_none());
    assert_eq!(AsterError::timeout("t").to_string(), "Timeout: t");
    assert_eq!(AsterError::corruption("c").kind(), ErrorKind::Corruption);
}

#[test]
fn into_aster_error_keeps_ok_and_errors() {
    let ok: Result<u32, AsterError> = Ok(5);
    assert_eq!(ok.into_aster_error().unwrap(), 5);
    let bad: Result<u32, AsterError> = Err(AsterError::storage("disk"));
    let e = bad.into_aster_error().unwrap_err();
    assert_eq!(e.kind(), ErrorKind::Storage);
    assert_eq!(e.to_string(), "Storage error: disk");
}

#[test]
fn optimizer_stats_start_at_zero() {
    let s = OptimizationStats::new();
    assert_eq!(s.predicates_pushed_down, 0);
    assert_eq!(s.optimization_time_ms, 0);
    assert_ne!(MergeStrategy::SetUnion, MergeStrategy::SetIntersection);
}

#[test]
fn server_bodies() {
    let h = HealthResponse::healthy();
    assert_eq!(h.status, "healthy");
    assert_eq!(h.database_status, "active");
    assert_eq!(h.uptime_seconds, 0);
    assert_eq!(h.active_connections, 1);
    let mut stats = QueryStats::new();
    stats.vertices_visited = 3;
    stats.edges_traversed = 2;
    stats.cache_hits = 1;
    let r = QueryStatsResponse::from_stats(&stats);
    assert_eq!((r.vertices_visited, r.edges_traversed, r.cache_hits, r.cache_misses), (3, 2, 1, 0));
}

#[test]
fn default_query_context() {
    let c = QueryContext::default_context();
    assert_eq!(c.max_depth, Some(10));
    assert_eq!(c.timeout_ms, Some(30000));
    assert!(c.use_cache);
}

fn ring(v: VertexId) -> Result<Vec<VertexId>, AsterError> {
    let n = v.as_u64();
    Ok(vec![VertexId::from_u64((n + 1) % 6), VertexId::from_u64((n + 5) % 6)])
}

#[test]
fn bfs_visits_by_level_each_once() {
    let bfs = BfsTraversal::new();
    let r = bfs.traverse(VertexId::from_u64(0), 10, ring).unwrap();
    let ids: Vec<u64> = r.iter().map(|v| v.as_u64()).collect();
    assert_eq!(ids, vec![0, 1, 5, 2, 4, 3]);
}

#[test]
fn bfs_stops_at_depth() {
    let bfs = BfsTraversal::new();
    let r = bfs.traverse(VertexId::from_u64(0), 1, ring).unwrap();
    let ids: Vec<u64> = r.iter().map(|v| v.as_u64()).collect();
    assert_eq!(ids, vec![0, 1, 5]);
    let r0 = bfs.traverse(VertexId::from_u64(3), 0, ring).unwrap();
    assert_eq!(r0, vec![VertexId::from_u64(3)]);
}

#[test]
fn bfs_reports_lookup_errors() {
    let bfs = BfsTraversal::new();
    let failing = |v: VertexId| -> Result<Vec<VertexId>, AsterError> {
        if v.as_u64() == 1 {
            Err(AsterError::storage("lost"))
        } else {
            Ok(vec![VertexId::from_u64(v.as_u64() + 1)])
        }
    };
    let e = bfs.traverse(VertexId::from_u64(0), 5, failing).unwrap_err();
    assert_eq!(e.to_string(), "Storage error: lost");
}

fn alert(id: &str, timestamp: u64, acknowledged: bool) -> Alert {
    Alert {
        id: id.to_string(),
        severity: AlertSeverity::Warning,
        message: String::new(),
        component: "system".to_string(),
        timestamp,
        acknowledged,
    }
}

#[test]
fn acknowledged_alerts_older_than_an_hour_are_dropped() {
    let alerts = vec![
        alert("a", 1000, true),
        alert("b", 1000, false),
        alert("c", 6401, true),
        alert("d", 6400, true),
    ];
    let kept: Vec<String> = prune_alerts(alerts, 10000).into_iter().map(|a| a.id).collect();
    assert_eq!(kept, vec!["b".to_string(), "c".to_string()]);
    // Before the first hour has passed, every acknowledged alert newer than 0 stays.
    let early: Vec<String> = prune_alerts(vec![alert("x", 0, true), alert("y", 5, true)], 100).into_iter().map(|a| a.id).collect();
    assert_eq!(early, vec!["y".to_string()]);
}

#[test]
fn limits_compare_the_reading() {
    assert!(!past_limit(1_000_000, None));
    assert!(!past_limit(30_000, Some(30_000)));
    assert!(past_limit(30_001, Some(30_000)));
    assert!(!replay_past_limit(5_000_000_000, 5));
    assert!(replay_past_limit(5_000_000_001, 5));
}

#[test]
fn check_deadline_stops_only_past_the_limit() {
    assert!(check_deadline(30_000, Some(30_000), "late").is_ok());
    let err = check_deadline(30_001, Some(30_000), "late").unwrap_err();
    assert_eq!(err.kind(), ErrorKind::Timeout);
    assert_eq!(err.to_string(), "Timeout: late");
    assert!(check_deadline(u128::MAX, None, "late").is_ok());
}
