//! Benchmark workloads, report settings and run configuration.
use vstd::prelude::*;

verus! {

/// The kinds of benchmark workload.
#[derive(Debug, Clone, Copy, PartialEq, Eq, Structural)]
pub enum WorkloadType {
    /// Mostly writes (80% writes, 20% reads).
    WriteHeavy,
    /// Mostly reads (20% writes, 80% reads).
    ReadHeavy,
    /// Half writes, half reads.
    Mixed,
    /// Many operations on few vertices.
    HighContention,
    /// Graph traversals and path queries.
    Traversal,
    /// Large batch operations.
    BulkLoad,
}

/// The display name of a workload.
pub open spec fn workload_label(w: WorkloadType) -> Seq<char> {
    match w {
        WorkloadType::WriteHeavy => "Write-Heavy"@,
        WorkloadType::ReadHeavy => "Read-Heavy"@,
        WorkloadType::Mixed => "Mixed"@,
        WorkloadType::HighContention => "High-Contention"@,
        WorkloadType::Traversal => "Traversal"@,
        WorkloadType::BulkLoad => "Bulk-Load"@,
    }
}

/// What a workload does.
pub open spec fn workload_description(w: WorkloadType) -> Seq<char> {
    match w {
        WorkloadType::WriteHeavy => "80% edge additions/updates, 20% neighbor lookups"@,
        WorkloadType::ReadHeavy => "20% edge additions/updates, 80% neighbor lookups"@,
        WorkloadType::Mixed => "50% edge additions/updates, 50% neighbor lookups"@,
        WorkloadType::HighContention => "Concurrent operations on small vertex set"@,
        WorkloadType::Traversal => "Multi-hop graph traversals and path queries"@,
        WorkloadType::BulkLoad => "Large batch operations and bulk data loading"@,
    }
}

impl WorkloadType {
    /// The display name.
    pub fn label(&self) -> (r: &'static str)
        ensures
            r@ == workload_label(*self),
    {
        match self {
            WorkloadType::WriteHeavy => "Write-Heavy",
            WorkloadType::ReadHeavy => "Read-Heavy",
            WorkloadType::Mixed => "Mixed",
            WorkloadType::HighContention => "High-Contention",
            WorkloadType::Traversal => "Traversal",
            WorkloadType::BulkLoad => "Bulk-Load",
        }
    }

    /// What the workload does.
    pub fn description(&self) -> (r: &'static str)
        ensures
            r@ == workload_description(*self),
    {
        match self {
            WorkloadType::WriteHeavy => "80% edge additions/updates, 20% neighbor lookups",
            WorkloadType::ReadHeavy => "20% edge additions/updates, 80% neighbor lookups",
            WorkloadType::Mixed => "50% edge additions/updates, 50% neighbor lookups",
            WorkloadType::HighContention => "Concurrent operations on small vertex set",
            WorkloadType::Traversal => "Multi-hop graph traversals and path queries",
            WorkloadType::BulkLoad => "Large batch operations and bulk data loading",
        }
    }

    /// Every workload, in declaration order.
    pub fn all() -> (r: Vec<WorkloadType>)
        ensures
            r@ == seq![
                WorkloadType::WriteHeavy,
                WorkloadType::ReadHeavy,
                WorkloadType::Mixed,
                WorkloadType::HighContention,
                WorkloadType::Traversal,
                WorkloadType::BulkLoad,
            ],
    {
        vec![
            WorkloadType::WriteHeavy,
            WorkloadType::ReadHeavy,
            WorkloadType::Mixed,
            WorkloadType::HighContention,
            WorkloadType::Traversal,
            WorkloadType::BulkLoad,
        ]
    }

    /// The workloads for performance testing.
    pub fn performance_workloads() -> (r: Vec<WorkloadType>)
        ensures
            r@ == seq![
                WorkloadType::WriteHeavy,
                WorkloadType::ReadHeavy,
                WorkloadType::Mixed,
                WorkloadType::HighContention,
            ],
    {
        vec![WorkloadType::WriteHeavy, WorkloadType::ReadHeavy, WorkloadType::Mixed, WorkloadType::HighContention]
    }

    /// The workloads for functionality testing.
    pub fn functionality_workloads() -> (r: Vec<WorkloadType>)
        ensures
            r@ == seq![WorkloadType::Mixed, WorkloadType::Traversal, WorkloadType::BulkLoad],
    {
        vec![WorkloadType::Mixed, WorkloadType::Traversal, WorkloadType::BulkLoad]
    }
}

/// The formats a benchmark report can be written in.
#[derive(Debug, Clone, Copy, PartialEq, Eq, Structural)]
pub enum OutputFormat {
    Console,
    Json,
    Csv,
    Html,
    Prometheus,
}

/// The settings of a benchmark report: its format and which analyses it
/// includes.
#[derive(Debug, Clone, Copy, PartialEq, Eq, Structural)]
pub struct BenchmarkReporter {
    pub format: OutputFormat,
    pub include_detailed_stats: bool,
    pub include_adaptive_analysis: bool,
    pub include_lock_free_analysis: bool,
    pub include_memory_analysis: bool,
}

impl BenchmarkReporter {
    /// A reporter in the given format that includes every analysis.
    pub fn new(format: OutputFormat) -> (r: BenchmarkReporter)
        ensures
            r == (BenchmarkReporter {
                format,
                include_detailed_stats: true,
                include_adaptive_analysis: true,
                include_lock_free_analysis: true,
                include_memory_analysis: true,
            }),
    {
        BenchmarkReporter {
            format,
            include_detailed_stats: true,
            include_adaptive_analysis: true,
            include_lock_free_analysis: true,
            include_memory_analysis: true,
        }
    }

    /// The same reporter, with detailed statistics included or not.
    pub fn with_detailed_stats(self, on: bool) -> (r: BenchmarkReporter)
        ensures
            r == (BenchmarkReporter { include_detailed_stats: on, ..self }),
    {
        let mut r = self;
        r.include_detailed_stats = on;
        r
    }

    /// The same reporter, with the adaptive-strategy analysis included or not.
    pub fn with_adaptive_analysis(self, on: bool) -> (r: BenchmarkReporter)
        ensures
            r == (BenchmarkReporter { include_adaptive_analysis: on, ..self }),
    {
        let mut r = self;
        r.include_adaptive_analysis = on;
        r
    }

    /// The same reporter, with the lock-free analysis included or not.
    pub fn with_lock_free_analysis(self, on: bool) -> (r: BenchmarkReporter)
        ensures
            r == (BenchmarkReporter { include_lock_free_analysis: on, ..self }),
    {
        let mut r = self;
        r.include_lock_free_analysis = on;
        r
    }

    /// The same reporter, with the memory analysis included or not.
    pub fn with_memory_analysis(self, on: bool) -> (r: BenchmarkReporter)
        ensures
            r == (BenchmarkReporter { include_memory_analysis: on, ..self }),
    {
        let mut r = self;
        r.include_memory_analysis = on;
        r
    }
}

/// The settings of a benchmark run.
#[derive(Debug, Clone)]
pub struct BenchmarkConfig {
    /// Vertices to create.
    pub vertex_count: usize,
    /// Average degree of a vertex.
    pub avg_degree: u32,
    /// Iterations per benchmark.
    pub iterations: usize,
    /// Concurrency of parallel benchmarks.
    pub concurrency: usize,
    /// Workloads to run.
    pub workloads: Vec<WorkloadType>,
    /// Length of sustained-load tests.
    pub duration_seconds: u64,
    /// Whether adaptive strategies are compared.
    pub test_adaptive_strategies: bool,
    /// Whether lock-free and mutex concurrency are compared.
    pub test_concurrency_models: bool,
    /// Whether memory use is measured.
    pub measure_memory: bool,
}

impl BenchmarkConfig {
    /// The defaults: 100 000 vertices of average degree 10, 1000 iterations,
    /// concurrency 16, the performance workloads, 60-second sustained tests,
    /// and every comparison and measurement on.
    pub fn default_config() -> (r: BenchmarkConfig)
        ensures
            r.vertex_count == 100_000,
            r.avg_degree == 10,
            r.iterations == 1000,
            r.concurrency == 16,
            r.workloads@ == seq![
                WorkloadType::WriteHeavy,
                WorkloadType::ReadHeavy,
                WorkloadType::Mixed,
                WorkloadType::HighContention,
            ],
            r.duration_seconds == 60,
            r.test_adaptive_strategies,
            r.test_concurrency_models,
            r.measure_memory,
    {
        BenchmarkConfig {
            vertex_count: 100_000,
            avg_degree: 10,
            iterations: 1000,
            concurrency: 16,
            workloads: WorkloadType::performance_workloads(),
            duration_seconds: 60,
            test_adaptive_strategies: true,
            test_concurrency_models: true,
            measure_memory: true,
        }
    }
}

} // verus!
