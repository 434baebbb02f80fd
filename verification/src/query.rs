//! Query execution settings, statistics and tabular result sets.
use crate::types::{PropValue, Properties, PropertyValue, VertexId};
use vstd::prelude::*;

verus! {

/// Counters gathered while a query runs.
#[derive(Debug, Clone, Copy, PartialEq, Eq, Structural, Default)]
pub struct QueryStats {
    pub vertices_visited: usize,
    pub edges_traversed: usize,
    pub cache_hits: usize,
    pub cache_misses: usize,
    pub execution_time_ms: u64,
}

impl QueryStats {
    /// All counters zero.
    pub fn new() -> (r: QueryStats)
        ensures
            r == (QueryStats {
                vertices_visited: 0,
                edges_traversed: 0,
                cache_hits: 0,
                cache_misses: 0,
                execution_time_ms: 0,
            }),
    {
        QueryStats {
            vertices_visited: 0,
            edges_traversed: 0,
            cache_hits: 0,
            cache_misses: 0,
            execution_time_ms: 0,
        }
    }
}

/// Limits and switches for a query: the traversal depth, a timeout in
/// milliseconds, and whether cached results may be used.
#[derive(Debug, Clone, Copy, PartialEq, Eq, Structural)]
pub struct QueryContext {
    pub max_depth: Option<usize>,
    pub timeout_ms: Option<u64>,
    pub use_cache: bool,
}

impl QueryContext {
    /// Depth 10, a timeout of 30 seconds, and caching on.
    pub fn default_context() -> (r: QueryContext)
        ensures
            r == (QueryContext { max_depth: Some(10), timeout_ms: Some(30000), use_cache: true }),
    {
        QueryContext { max_depth: Some(10), timeout_ms: Some(30000), use_cache: true }
    }
}

/// Rows of named values, with totals and statistics.
pub struct QueryResultSet {
    pub rows: Vec<Properties>,
    pub total_vertices: usize,
    pub total_edges: usize,
    pub stats: QueryStats,
}

impl QueryResultSet {
    /// The row maps, in order.
    pub open spec fn rows_view(&self) -> Seq<Map<Seq<char>, PropValue>> {
        self.rows@.map_values(|r: Properties| r@)
    }

    /// No rows, zero totals and zero statistics.
    pub fn new() -> (r: QueryResultSet)
        ensures
            r.rows@.len() == 0,
            r.total_vertices == 0,
            r.total_edges == 0,
            r.stats == QueryStats::new_spec(),
    {
        QueryResultSet { rows: Vec::new(), total_vertices: 0, total_edges: 0, stats: QueryStats::new() }
    }

    /// Appends a row.
    pub fn add_row(&mut self, row: Properties)
        ensures
            final(self).rows_view() == old(self).rows_view().push(row@),
            final(self).total_vertices == old(self).total_vertices,
            final(self).total_edges == old(self).total_edges,
            final(self).stats == old(self).stats,
    {
        let ghost before = self.rows@;
        let ghost rv = row@;
        self.rows.push(row);
        assert(self.rows_view() =~= old(self).rows_view().push(rv));
    }

    /// The number of rows.
    pub fn len(&self) -> (r: usize)
        ensures
            r == self.rows@.len(),
    {
        self.rows.len()
    }

    /// Whether there are no rows.
    pub fn is_empty(&self) -> (r: bool)
        ensures
            r == (self.rows@.len() == 0),
    {
        self.rows.len() == 0
    }
}

impl QueryStats {
    pub open spec fn new_spec() -> QueryStats {
        QueryStats {
            vertices_visited: 0,
            edges_traversed: 0,
            cache_hits: 0,
            cache_misses: 0,
            execution_time_ms: 0,
        }
    }
}


/// A filter on vertices.
#[derive(Debug)]
pub enum QueryPredicate {
    /// The property equals the value.
    PropertyEquals(String, PropertyValue),
    /// The property differs from the value.
    PropertyNotEquals(String, PropertyValue),
    /// The property is greater than the value.
    PropertyGreaterThan(String, PropertyValue),
    /// The property is less than the value.
    PropertyLessThan(String, PropertyValue),
    /// The property is set.
    PropertyExists(String),
    /// The vertex is one of these (each listed once).
    VertexIdIn(Vec<VertexId>),
    /// The vertex has more than this many neighbors.
    DegreeGreaterThan(usize),
    /// The vertex has fewer than this many neighbors.
    DegreeLessThan(usize),
    /// All of the filters hold.
    And(Vec<QueryPredicate>),
    /// One of the filters holds.
    Or(Vec<QueryPredicate>),
    /// The filter does not hold.
    Not(Box<QueryPredicate>),
}

/// A value selected for each matched vertex.
#[derive(Debug, Clone)]
pub enum QueryProjection {
    VertexId,
    VertexProperty(String),
    EdgeProperty(String),
    VertexDegree,
    NeighborCount,
    /// A computed value, by name.
    Computed(String),
}

/// An aggregate over matched vertices.
#[derive(Debug, Clone)]
pub enum AggregationFunction {
    Count,
    /// Sum of a property's values.
    Sum(String),
    /// Average of a property's values.
    Avg(String),
    /// Least of a property's values.
    Min(String),
    /// Greatest of a property's values.
    Max(String),
    /// Number of distinct values of a property.
    Distinct(String),
}

/// A subgraph pattern: named vertices with their filters, edges between
/// named vertices with an optional filter, and the bounds on the number of
/// matches.
#[derive(Debug)]
pub struct GraphPattern {
    pub vertices: Vec<(String, QueryPredicate)>,
    pub edges: Vec<(String, String, Option<QueryPredicate>)>,
    pub min_matches: usize,
    pub max_matches: Option<usize>,
}

} // verus!
