//! Executing optimized range scans over the adjacency store: a range cut
//! into partitions, the sequential scan and the index-guided scan with the
//! filters pushed down to them, partitions scanned one by one and their
//! results merged, and the choice among the strategies of a hybrid plan.
use crate::graph::{id_range, GraphStore};
use crate::gremlin::engine::bump_exec;
use crate::gremlin::semantics::bump;
use crate::optimizer::{
    conn_view, merge_partition_results, merged_conns_ok, merged_vertices_ok, pair_count, sum_edges, vertex_pairs, MergeStrategy,
    PartitionResult, RangeQueryResult,
};
use crate::text::{chars_of, contains_run, str_eq, vec_contains_run};
use crate::types::{PropertyValue, VertexId};
use vstd::prelude::*;

verus! {

/// The strategy a partition is scanned with when a plan scans its partitions
/// one by one: a sequential scan with its batch size and bloom-filter
/// setting, or another strategy, which such a scan runs as the default
/// sequential scan.
#[derive(Debug, Clone, Copy, PartialEq, Eq, Structural)]
pub enum PartitionStrategy {
    SequentialScan { batch_size: usize, use_bloom_filter: bool },
    Other,
}

/// A part of a range, scanned on its own: its number, its ids
/// `start_vertex..=end_vertex`, its share of the estimated size, its
/// strategy and its priority.
#[derive(Debug, Clone, Copy, PartialEq, Eq, Structural)]
pub struct RangePartition {
    pub partition_id: usize,
    pub start_vertex: VertexId,
    pub end_vertex: VertexId,
    pub estimated_size: usize,
    pub assigned_strategy: PartitionStrategy,
    pub priority: u32,
}

/// How a range query is executed. The selectivity of an index-guided scan is
/// a fraction; the caller turns it into the number of candidates kept.
#[derive(Debug)]
pub enum ScanStrategy {
    /// A scan through the range in batches, skipping the ids a bloom filter
    /// rules out where it is on.
    SequentialScan { batch_size: usize, use_bloom_filter: bool },
    /// A scan of the candidates that indices give.
    IndexGuidedScan { primary_index: String, secondary_indices: Vec<String> },
    /// The range cut into partitions, each scanned on its own, the results
    /// merged.
    ParallelPartitionedScan { partition_count: usize, merge_strategy: MergeStrategy },
    /// One of several strategies, chosen by named conditions.
    HybridStrategy { strategies: Vec<ScanStrategy>, threshold_conditions: Vec<String> },
}

/// The strategy a partition made for `strategy` is given on its own.
pub open spec fn inherited(strategy: ScanStrategy) -> PartitionStrategy {
    match strategy {
        ScanStrategy::SequentialScan { batch_size, use_bloom_filter } => PartitionStrategy::SequentialScan {
            batch_size,
            use_bloom_filter,
        },
        _ => PartitionStrategy::Other,
    }
}

/// The `i`-th of `n` partitions of `start..=end`: each `(end - start + 1) / n`
/// ids long, the last reaching `end`; each scanned sequentially in batches of
/// `batch_size` with the bloom filter on, and given an `n`-th of the
/// estimated size.
pub open spec fn partition_at(start: VertexId, end: VertexId, estimated_size: usize, n: nat, batch_size: usize, i: int) -> RangePartition {
    let size = (end.id - start.id + 1) as int / (n as int);
    RangePartition {
        partition_id: i as usize,
        start_vertex: VertexId { id: (start.id + i * size) as u64 },
        end_vertex: VertexId { id: if i == n - 1 { end.id } else { (start.id + (i + 1) * size - 1) as u64 } },
        estimated_size: (estimated_size as int / (n as int)) as usize,
        assigned_strategy: PartitionStrategy::SequentialScan { batch_size, use_bloom_filter: true },
        priority: i as u32,
    }
}

/// The partitions of `start..=end` for `strategy`: for a partitioned scan
/// into `partition_count` parts, the parts `partition_at` gives; for any other
/// strategy the whole range as one partition with that strategy.
pub open spec fn partitions_for(
    start: VertexId,
    end: VertexId,
    estimated_size: usize,
    strategy: ScanStrategy,
    batch_size: usize,
) -> Seq<RangePartition> {
    match strategy {
        ScanStrategy::ParallelPartitionedScan { partition_count, .. } => Seq::new(
            partition_count as nat,
            |i: int| partition_at(start, end, estimated_size, partition_count as nat, batch_size, i),
        ),
        _ => seq![
            RangePartition {
                partition_id: 0,
                start_vertex: start,
                end_vertex: end,
                estimated_size,
                assigned_strategy: inherited(strategy),
                priority: 0,
            },
        ],
    }
}

/// The `n` partitions of `start..=end` tile the range: the first starts at
/// `start`, the last ends at `end`, each starts right after the one before
/// ends, and none is empty.
pub proof fn lemma_partitions_tile(start: VertexId, end: VertexId, estimated_size: usize, n: nat, batch_size: usize)
    requires
        n > 0,
        start.id <= end.id,
        end.id - start.id + 1 <= u64::MAX,
        n <= end.id - start.id + 1,
    ensures
        partition_at(start, end, estimated_size, n, batch_size, 0).start_vertex == start,
        partition_at(start, end, estimated_size, n, batch_size, n - 1).end_vertex == end,
        forall|i: int|
            0 <= i < n - 1 ==> (#[trigger] partition_at(start, end, estimated_size, n, batch_size, i)).end_vertex.id + 1 == partition_at(
                start,
                end,
                estimated_size,
                n,
                batch_size,
                i + 1,
            ).start_vertex.id,
        forall|i: int|
            0 <= i < n ==> (#[trigger] partition_at(start, end, estimated_size, n, batch_size, i)).start_vertex.id <= partition_at(
                start,
                end,
                estimated_size,
                n,
                batch_size,
                i,
            ).end_vertex.id,
{
    let range = end.id - start.id + 1;
    let size = range / (n as int);
    assert(size >= 1) by (nonlinear_arith)
        requires
            size == range / (n as int),
            n <= range,
            n > 0,
    ;
    assert((n as int) * size <= range) by (nonlinear_arith)
        requires
            size == range / (n as int),
            n > 0,
            range >= 0,
    ;
    assert(0 * size == 0);
    assert forall|i: int| 0 <= i < n - 1 implies (#[trigger] partition_at(start, end, estimated_size, n, batch_size, i)).end_vertex.id + 1
        == partition_at(start, end, estimated_size, n, batch_size, i + 1).start_vertex.id by {
        lemma_slot(start.id as int, end.id as int, n as int, size, i);
        lemma_slot(start.id as int, end.id as int, n as int, size, i + 1);
    }
    assert forall|i: int| 0 <= i < n implies (#[trigger] partition_at(start, end, estimated_size, n, batch_size, i)).start_vertex.id
        <= partition_at(start, end, estimated_size, n, batch_size, i).end_vertex.id by {
        lemma_slot(start.id as int, end.id as int, n as int, size, i);
    }
}

proof fn lemma_slot(start: int, end: int, n: int, size: int, i: int)
    requires
        0 <= i < n,
        size >= 1,
        n * size <= end - start + 1,
    ensures
        start + (i + 1) * size - 1 <= end,
        (i + 1) * size == i * size + size,
        i * size >= 0,
{
    assert((i + 1) * size <= n * size) by (nonlinear_arith)
        requires
            0 <= i < n,
            size >= 1,
    ;
    assert((i + 1) * size == i * size + size) by (nonlinear_arith);
    assert(i * size >= 0) by (nonlinear_arith)
        requires
            i >= 0,
            size >= 1,
    ;
}

/// The partitions of the range `start_vertex..=end_vertex` for `strategy`
/// (see [`partitions_for`]); a partitioned scan's parts are scanned
/// sequentially in batches of `default_batch_size`. A partitioned scan needs
/// at least one part, and no more parts than ids in the range, which must
/// not be the whole id space.
pub fn create_range_partitions(
    start_vertex: VertexId,
    end_vertex: VertexId,
    estimated_size: usize,
    strategy: &ScanStrategy,
    default_batch_size: usize,
) -> (r: Vec<RangePartition>)
    requires
        strategy matches ScanStrategy::ParallelPartitionedScan { partition_count, .. } ==> {
            &&& partition_count > 0
            &&& start_vertex.id <= end_vertex.id
            &&& end_vertex.id - start_vertex.id + 1 <= u64::MAX
            &&& partition_count <= end_vertex.id - start_vertex.id + 1
        },
    ensures
        r@ == partitions_for(start_vertex, end_vertex, estimated_size, *strategy, default_batch_size),
{
    match strategy {
        ScanStrategy::ParallelPartitionedScan { partition_count, .. } => {
            let n = *partition_count;
            let range_size: u64 = end_vertex.id - start_vertex.id + 1;
            let size: u64 = range_size / (n as u64);
            proof {
                assert(size >= 1) by (nonlinear_arith)
                    requires
                        size == range_size / (n as u64),
                        n as u64 <= range_size,
                        n > 0,
                ;
                assert((n as int) * size <= range_size) by (nonlinear_arith)
                    requires
                        size == range_size / (n as u64),
                        n > 0,
                ;
            }
            let mut parts: Vec<RangePartition> = Vec::new();
            let mut i: usize = 0;
            while i < n
                invariant
                    i <= n,
                    n > 0,
                    size >= 1,
                    (n as int) * size <= range_size,
                    range_size == end_vertex.id - start_vertex.id + 1,
                    size == range_size as int / (n as int),
                    forall|j: int|
                        0 <= j < i ==> #[trigger] parts@[j] == partition_at(
                            start_vertex,
                            end_vertex,
                            estimated_size,
                            n as nat,
                            default_batch_size,
                            j,
                        ),
                    parts@.len() == i,
                decreases n - i,
            {
                proof {
                    assert((i as int) * size + size <= (n as int) * size) by (nonlinear_arith)
                        requires
                            i < n,
                            size >= 0,
                    ;
                    assert((i as int) * size <= range_size - size);
                    assert(start_vertex.id + (i as int) * size + size - 1 <= end_vertex.id);
                }
                let offset: u64 = (i as u64) * size;
                let pstart: u64 = start_vertex.id + offset;
                let pend: u64 = if i == n - 1 {
                    end_vertex.id
                } else {
                    pstart + (size - 1)
                };
                let part = RangePartition {
                    partition_id: i,
                    start_vertex: VertexId { id: pstart },
                    end_vertex: VertexId { id: pend },
                    estimated_size: estimated_size / n,
                    assigned_strategy: PartitionStrategy::SequentialScan { batch_size: default_batch_size, use_bloom_filter: true },
                    priority: #[verifier::truncate] (i as u32),
                };
                proof {
                    assert((i as int + 1) * size == (i as int) * size + size) by (nonlinear_arith);
                    assert(part == partition_at(start_vertex, end_vertex, estimated_size, n as nat, default_batch_size, i as int));
                }
                parts.push(part);
                i = i + 1;
            }
            proof {
                assert(parts@ =~= partitions_for(start_vertex, end_vertex, estimated_size, *strategy, default_batch_size));
            }
            parts
        },
        _ => {
            let assigned = match strategy {
                ScanStrategy::SequentialScan { batch_size, use_bloom_filter } => PartitionStrategy::SequentialScan {
                    batch_size: *batch_size,
                    use_bloom_filter: *use_bloom_filter,
                },
                _ => PartitionStrategy::Other,
            };
            let mut parts: Vec<RangePartition> = Vec::new();
            parts.push(
                RangePartition {
                    partition_id: 0,
                    start_vertex,
                    end_vertex,
                    estimated_size,
                    assigned_strategy: assigned,
                    priority: 0,
                },
            );
            proof {
                assert(parts@ =~= partitions_for(start_vertex, end_vertex, estimated_size, *strategy, default_batch_size));
            }
            parts
        },
    }
}

// ---------------------------------------------------------------------------
// Filters pushed down to a scan.

/// A filter pushed down to a range scan. The store keeps no decoded
/// properties at scan time, so a scan judges a filter by the vertex id (and
/// an index-guided scan judges a degree range by the stored degree); the
/// filters that no rule covers pass every vertex.
#[derive(Debug)]
pub enum ScanPredicate {
    /// An integer value is matched on the id's last two decimal digits; a
    /// text value passes where the property name contains it.
    PropertyEquals(String, PropertyValue),
    PropertyNotEquals(String, PropertyValue),
    PropertyGreaterThan(String, PropertyValue),
    PropertyLessThan(String, PropertyValue),
    /// The id modulo 1000 within the integer bounds (0 and `u64::MAX` where a
    /// bound is missing or not an integer).
    PropertyRange(String, Option<PropertyValue>, Option<PropertyValue>),
    PropertyExists(String),
    /// The property name is not empty.
    HasProperty(String),
    VertexIdIn(Vec<VertexId>),
    /// The degree within `min..=max`; a sequential scan takes the id modulo
    /// 50 for the degree.
    DegreeRange(usize, usize),
}

/// An integer bound as an unsigned number (two's complement), else `d`.
pub open spec fn bound_or(b: Option<PropertyValue>, d: u64) -> u64 {
    match b {
        Some(PropertyValue::Int(i)) => i as u64,
        _ => d,
    }
}

/// Whether `p` passes the vertex `v` whose degree is taken to be `degree`.
pub open spec fn passes(p: ScanPredicate, v: VertexId, degree: nat) -> bool {
    match p {
        ScanPredicate::PropertyEquals(key, value) => match value {
            PropertyValue::Int(e) => v.id % 100 == (e as u64) % 100,
            PropertyValue::String(e) => contains_run(key@, e@),
            _ => true,
        },
        ScanPredicate::PropertyRange(_, lo, hi) => bound_or(lo, 0) <= v.id % 1000 <= bound_or(hi, u64::MAX),
        ScanPredicate::DegreeRange(lo, hi) => lo <= degree <= hi,
        ScanPredicate::HasProperty(key) => key@.len() > 0,
        _ => true,
    }
}

/// Every one of `ps` passes `v` with degree `degree`.
pub open spec fn all_pass(ps: Seq<ScanPredicate>, v: VertexId, degree: nat) -> bool {
    forall|i: int| 0 <= i < ps.len() ==> #[trigger] passes(ps[i], v, degree)
}

fn bound_exec(b: &Option<PropertyValue>, d: u64) -> (r: u64)
    ensures
        r == bound_or(*b, d),
{
    match b {
        Some(PropertyValue::Int(i)) => #[verifier::truncate] (*i as u64),
        _ => d,
    }
}

/// Whether `p` passes `v` with degree `degree`.
pub fn predicate_passes(p: &ScanPredicate, v: VertexId, degree: usize) -> (r: bool)
    ensures
        r == passes(*p, v, degree as nat),
{
    match p {
        ScanPredicate::PropertyEquals(key, value) => match value {
            PropertyValue::Int(e) => v.id % 100 == (#[verifier::truncate] (*e as u64)) % 100,
            PropertyValue::String(e) => vec_contains_run(&chars_of(key.as_str()), &chars_of(e.as_str())),
            _ => true,
        },
        ScanPredicate::PropertyRange(_, lo, hi) => {
            let x = v.id % 1000;
            bound_exec(lo, 0) <= x && x <= bound_exec(hi, u64::MAX)
        },
        ScanPredicate::DegreeRange(lo, hi) => *lo <= degree && degree <= *hi,
        ScanPredicate::HasProperty(key) => !key.as_str().is_empty(),
        _ => true,
    }
}

/// Whether every one of `ps` passes `v` with degree `degree`; stops at the
/// first that does not.
pub fn all_predicates_pass(ps: &Vec<ScanPredicate>, v: VertexId, degree: usize) -> (r: bool)
    ensures
        r == all_pass(ps@, v, degree as nat),
{
    let mut i: usize = 0;
    while i < ps.len()
        invariant
            i <= ps@.len(),
            forall|j: int| 0 <= j < i ==> #[trigger] passes(ps@[j], v, degree as nat),
        decreases ps@.len() - i,
    {
        if !predicate_passes(&ps[i], v, degree) {
            return false;
        }
        i = i + 1;
    }
    true
}

// ---------------------------------------------------------------------------
// Connections kept by a scan: a source and its neighbours inside the range,
// a later entry for a source replacing the earlier one.

/// Where the first entry for `v` stands.
pub open spec fn conn_index(c: Seq<(VertexId, Seq<VertexId>)>, v: VertexId) -> Option<int>
    decreases c.len(),
{
    if c.len() == 0 {
        None
    } else if c[0].0 == v {
        Some(0)
    } else {
        match conn_index(c.drop_first(), v) {
            Some(i) => Some(i + 1),
            None => None,
        }
    }
}

/// `c` with `v`'s neighbours set to `ns`: replaced in place, or appended.
pub open spec fn conn_put(c: Seq<(VertexId, Seq<VertexId>)>, v: VertexId, ns: Seq<VertexId>) -> Seq<(VertexId, Seq<VertexId>)> {
    match conn_index(c, v) {
        Some(i) => c.update(i, (v, ns)),
        None => c.push((v, ns)),
    }
}

/// The neighbours listed in `c`, counted together (wrapping around).
pub open spec fn conn_total(c: Seq<(VertexId, Seq<VertexId>)>) -> usize
    decreases c.len(),
{
    if c.len() == 0 {
        0
    } else {
        bump(conn_total(c.drop_last()), c.last().1.len())
    }
}

proof fn lemma_conn_index(c: Seq<(VertexId, Seq<VertexId>)>, v: VertexId, i: int)
    requires
        0 <= i <= c.len(),
        forall|j: int| 0 <= j < i ==> c[j].0 != v,
    ensures
        i < c.len() && c[i].0 == v ==> conn_index(c, v) == Some(i),
        i == c.len() ==> conn_index(c, v) is None,
    decreases i,
{
    if i > 0 {
        lemma_conn_index(c.drop_first(), v, i - 1);
    } else if c.len() > 0 {
    }
}

/// Sets `v`'s neighbours in `conns` to `ns`.
fn put_conn(conns: &mut Vec<(VertexId, Vec<VertexId>)>, v: VertexId, ns: Vec<VertexId>)
    ensures
        conn_view(final(conns)@) == conn_put(conn_view(old(conns)@), v, ns@),
{
    let ghost c0 = conn_view(conns@);
    let mut i: usize = 0;
    while i < conns.len()
        invariant
            i <= conns@.len(),
            c0 == conn_view(conns@),
            c0 == conn_view(old(conns)@),
            forall|j: int| 0 <= j < i ==> #[trigger] conns@[j].0 != v,
        decreases conns@.len() - i,
    {
        if conns[i].0 == v {
            proof {
                assert(c0[i as int].0 == v);
                assert forall|j: int| 0 <= j < i implies c0[j].0 != v by {
                    assert(conns@[j].0 != v);
                }
                lemma_conn_index(c0, v, i as int);
            }
            conns.set(i, (v, ns));
            proof {
                assert(conn_view(conns@) =~= c0.update(i as int, (v, ns@)));
            }
            return;
        }
        i = i + 1;
    }
    proof {
        lemma_conn_index(c0, v, i as int);
    }
    conns.push((v, ns));
    proof {
        assert(conn_view(conns@) =~= c0.push((v, ns@)));
    }
}

/// The neighbours listed in `conns`, counted together (wrapping around).
fn conn_count(conns: &Vec<(VertexId, Vec<VertexId>)>) -> (r: usize)
    ensures
        r == conn_total(conn_view(conns@)),
{
    let ghost c = conn_view(conns@);
    let mut total: usize = 0;
    let mut i: usize = 0;
    while i < conns.len()
        invariant
            i <= conns@.len(),
            c == conn_view(conns@),
            total == conn_total(c.take(i as int)),
        decreases conns@.len() - i,
    {
        proof {
            assert(c.take(i + 1).drop_last() =~= c.take(i as int));
        }
        total = bump_exec(total, conns[i].1.len());
        i = i + 1;
    }
    proof {
        assert(c.take(c.len() as int) =~= c);
    }
    total
}

/// The ids of `ns` that lie in `lo..=hi`, in order.
fn ids_within(ns: &Vec<VertexId>, lo: VertexId, hi: VertexId) -> (r: Vec<VertexId>)
    ensures
        r@ == ns@.filter(id_range(lo, hi)),
{
    let ghost f = id_range(lo, hi);
    let mut r: Vec<VertexId> = Vec::new();
    let mut i: usize = 0;
    while i < ns.len()
        invariant
            i <= ns@.len(),
            f == id_range(lo, hi),
            r@ == ns@.take(i as int).filter(f),
        decreases ns@.len() - i,
    {
        let x = ns[i];
        proof {
            let t = ns@.take(i + 1);
            assert(t.drop_last() =~= ns@.take(i as int));
            assert(t.last() == x);
            reveal_with_fuel(Seq::filter, 1);
        }
        if lo.id <= x.id && x.id <= hi.id {
            r.push(x);
        }
        i = i + 1;
    }
    proof {
        assert(ns@.take(ns@.len() as int) =~= ns@);
    }
    r
}

// ---------------------------------------------------------------------------
// The sequential scan.

/// The counters of a scan.
#[derive(Debug, Clone, Copy, PartialEq, Eq, Structural)]
pub struct ScanStats {
    pub vertices_scanned: usize,
    pub vertices_visited: usize,
    pub edges_traversed: usize,
    pub predicates_applied: usize,
    pub index_lookups: usize,
    pub results_returned: usize,
}

impl ScanStats {
    /// All counters zero.
    pub fn new() -> (r: ScanStats)
        ensures
            r == (ScanStats {
                vertices_scanned: 0,
                vertices_visited: 0,
                edges_traversed: 0,
                predicates_applied: 0,
                index_lookups: 0,
                results_returned: 0,
            }),
    {
        ScanStats {
            vertices_scanned: 0,
            vertices_visited: 0,
            edges_traversed: 0,
            predicates_applied: 0,
            index_lookups: 0,
            results_returned: 0,
        }
    }
}

/// `a * b` wrapping around as a counter does.
pub open spec fn times_wrapping(a: nat, b: nat) -> usize {
    ((a * b) % (usize::MAX as nat + 1)) as usize
}

fn times_wrapping_exec(a: usize, b: usize) -> (r: usize)
    ensures
        r == times_wrapping(a as nat, b as nat),
{
    proof {
        let x = a as int;
        let y = b as int;
        assert(x * y <= 0xFFFF_FFFF_FFFF_FFFFint * 0xFFFF_FFFF_FFFF_FFFFint) by (nonlinear_arith)
            requires
                0 <= x <= 0xFFFF_FFFF_FFFF_FFFFint,
                0 <= y <= 0xFFFF_FFFF_FFFF_FFFFint,
        ;
        assert(0 <= x * y) by (nonlinear_arith)
            requires
                0 <= x,
                0 <= y,
        ;
    }
    let p: u128 = (a as u128) * (b as u128);
    (p % (usize::MAX as u128 + 1)) as usize
}

/// What a scan has gathered: the vertices kept, in order; the connections
/// (a source and its neighbours inside the range); the neighbours counted
/// (wrapping around); the counters; and the vertices in the open batch.
pub type ScanProgress = (Seq<VertexId>, Seq<(VertexId, Seq<VertexId>)>, usize, ScanStats, nat);

/// A sequential scan of partition `p` meeting vertex `v`: where the bloom
/// filter is on and the id is a multiple of 100, or a filter fails (the
/// degree taken to be the id modulo 50), the vertex is skipped. Otherwise it
/// is kept, its neighbours counted, those inside the partition recorded as
/// its connections where there are any, and it joins the batch; a full
/// batch (`batch_size` vertices) is closed, counting `batch_size` vertices
/// visited and one filter application per filter and vertex.
pub open spec fn seq_step(
    st: ScanProgress,
    g: GraphStore,
    p: RangePartition,
    pushed: Seq<ScanPredicate>,
    batch_size: usize,
    bloom: bool,
    v: VertexId,
) -> ScanProgress {
    if bloom && v.id % 100 == 0 {
        st
    } else if !all_pass(pushed, v, (v.id % 50) as nat) {
        st
    } else {
        let ns = g.spec_neighbors(v);
        let inside = ns.filter(id_range(p.start_vertex, p.end_vertex));
        let conns = if inside.len() > 0 {
            conn_put(st.1, v, inside)
        } else {
            st.1
        };
        let b = st.4 + 1;
        let s = st.3;
        if b >= batch_size {
            (
                st.0.push(v),
                conns,
                bump(st.2, ns.len()),
                ScanStats {
                    vertices_visited: bump(s.vertices_visited, batch_size as nat),
                    edges_traversed: bump(s.edges_traversed, times_wrapping(pushed.len(), batch_size as nat) as nat),
                    ..s
                },
                0,
            )
        } else {
            (st.0.push(v), conns, bump(st.2, ns.len()), s, b)
        }
    }
}

/// The sequential scan of partition `p` meeting the vertices `vs` in order.
pub open spec fn seq_steps(
    st: ScanProgress,
    g: GraphStore,
    p: RangePartition,
    pushed: Seq<ScanPredicate>,
    batch_size: usize,
    bloom: bool,
    vs: Seq<VertexId>,
) -> ScanProgress
    decreases vs.len(),
{
    if vs.len() == 0 {
        st
    } else {
        seq_step(seq_steps(st, g, p, pushed, batch_size, bloom, vs.drop_last()), g, p, pushed, batch_size, bloom, vs.last())
    }
}

/// The sequential scan of partition `p`: a new batch, the partition's
/// vertices in stored order, then the vertices of the last, unclosed batch
/// counted as scanned.
pub open spec fn seq_partition(
    st: ScanProgress,
    g: GraphStore,
    p: RangePartition,
    pushed: Seq<ScanPredicate>,
    batch_size: usize,
    bloom: bool,
) -> ScanProgress {
    let e = seq_steps(
        (st.0, st.1, st.2, st.3, 0),
        g,
        p,
        pushed,
        batch_size,
        bloom,
        g.spec_vertices().filter(id_range(p.start_vertex, p.end_vertex)),
    );
    (e.0, e.1, e.2, ScanStats { vertices_scanned: bump(e.3.vertices_scanned, e.4), ..e.3 }, 0)
}

/// The sequential scan of the partitions, one after another.
pub open spec fn seq_partitions(
    st: ScanProgress,
    g: GraphStore,
    parts: Seq<RangePartition>,
    pushed: Seq<ScanPredicate>,
    batch_size: usize,
    bloom: bool,
) -> ScanProgress
    decreases parts.len(),
{
    if parts.len() == 0 {
        st
    } else {
        seq_partition(seq_partitions(st, g, parts.drop_last(), pushed, batch_size, bloom), g, parts.last(), pushed, batch_size, bloom)
    }
}

/// A scan that starts from the counters `stats`.
pub open spec fn fresh(stats: ScanStats) -> ScanProgress {
    (Seq::empty(), Seq::empty(), 0, stats, 0)
}

/// `r` and the counters `stats` are what the gathered `st` gives: its
/// vertices, connections and neighbour count; the density as the number of
/// connections over the ordered vertex pairs; and the counters with the
/// number of vertices returned.
pub open spec fn scan_result(st: ScanProgress, r: RangeQueryResult, stats: ScanStats) -> bool {
    &&& r.vertices_in_range@ == st.0
    &&& conn_view(r.neighbor_connections@) == st.1
    &&& r.total_edges_in_range == st.2
    &&& r.density_numerator == conn_total(st.1)
    &&& r.possible_edges == vertex_pairs(st.0.len())
    &&& stats == (ScanStats { results_returned: st.0.len() as usize, ..st.3 })
}

/// The result of gathering `out`, `conns` and `edges`.
fn finish(out: Vec<VertexId>, conns: Vec<(VertexId, Vec<VertexId>)>, edges: usize) -> (r: RangeQueryResult)
    ensures
        r.vertices_in_range@ == out@,
        conn_view(r.neighbor_connections@) == conn_view(conns@),
        r.total_edges_in_range == edges,
        r.density_numerator == conn_total(conn_view(conns@)),
        r.possible_edges == vertex_pairs(out@.len()),
{
    let total = conn_count(&conns);
    let possible = pair_count(out.len());
    RangeQueryResult {
        vertices_in_range: out,
        neighbor_connections: conns,
        total_edges_in_range: edges,
        density_numerator: total,
        possible_edges: possible,
    }
}

/// The sequential scan of `partitions` over `store` with the filters
/// `pushed`: see [`seq_partitions`]. The counters go on from `stats`, and
/// end with the number of vertices returned.
pub fn sequential_scan(
    store: &GraphStore,
    partitions: &Vec<RangePartition>,
    pushed: &Vec<ScanPredicate>,
    batch_size: usize,
    use_bloom_filter: bool,
    stats: &mut ScanStats,
) -> (r: RangeQueryResult)
    ensures
        scan_result(
            seq_partitions(fresh(*old(stats)), *store, partitions@, pushed@, batch_size, use_bloom_filter),
            r,
            *final(stats),
        ),
{
    let ghost g = *store;
    let mut out: Vec<VertexId> = Vec::new();
    let mut conns: Vec<(VertexId, Vec<VertexId>)> = Vec::new();
    let mut edges: usize = 0;
    let mut s: ScanStats = *stats;
    let mut k: usize = 0;
    while k < partitions.len()
        invariant
            k <= partitions@.len(),
            g == *store,
            (out@, conn_view(conns@), edges, s, 0nat) == seq_partitions(
                fresh(*old(stats)),
                g,
                partitions@.take(k as int),
                pushed@,
                batch_size,
                use_bloom_filter,
            ),
        decreases partitions@.len() - k,
    {
        let p = partitions[k];
        let vs = store.range(p.start_vertex, p.end_vertex);
        let ghost st0: ScanProgress = (out@, conn_view(conns@), edges, s, 0nat);
        let mut batch: usize = 0;
        let mut j: usize = 0;
        while j < vs.len()
            invariant
                j <= vs@.len(),
                g == *store,
                batch < batch_size || batch == 0,
                (out@, conn_view(conns@), edges, s, batch as nat) == seq_steps(
                    st0,
                    g,
                    p,
                    pushed@,
                    batch_size,
                    use_bloom_filter,
                    vs@.take(j as int),
                ),
            decreases vs@.len() - j,
        {
            let v = vs[j];
            proof {
                assert(vs@.take(j + 1).drop_last() =~= vs@.take(j as int));
            }
            if !(use_bloom_filter && v.id % 100 == 0) {
                if all_predicates_pass(pushed, v, (v.id % 50) as usize) {
                    let ns = store.get_neighbors(v);
                    edges = bump_exec(edges, ns.len());
                    let inside = ids_within(&ns, p.start_vertex, p.end_vertex);
                    if inside.len() > 0 {
                        put_conn(&mut conns, v, inside);
                    }
                    out.push(v);
                    batch = batch + 1;
                    if batch >= batch_size {
                        s.vertices_visited = bump_exec(s.vertices_visited, batch_size);
                        s.edges_traversed = bump_exec(s.edges_traversed, times_wrapping_exec(pushed.len(), batch_size));
                        batch = 0;
                    }
                }
            }
            j = j + 1;
        }
        s.vertices_scanned = bump_exec(s.vertices_scanned, batch);
        proof {
            assert(vs@.take(vs@.len() as int) =~= vs@);
            assert(partitions@.take(k + 1).drop_last() =~= partitions@.take(k as int));
        }
        k = k + 1;
    }
    proof {
        assert(partitions@.take(partitions@.len() as int) =~= partitions@);
    }
    let n = out.len();
    let r = finish(out, conns, edges);
    s.results_returned = n;
    *stats = s;
    r
}

// ---------------------------------------------------------------------------
// The index-guided scan.

/// `x` lies in one of the partitions.
pub open spec fn in_parts(parts: Seq<RangePartition>, x: VertexId) -> bool {
    exists|i: int| 0 <= i < parts.len() && #[trigger] parts[i].start_vertex.id <= x.id && x.id <= parts[i].end_vertex.id
}

/// Whether `x` lies in one of the partitions.
fn in_partitions(parts: &Vec<RangePartition>, x: VertexId) -> (r: bool)
    ensures
        r == in_parts(parts@, x),
{
    let mut i: usize = 0;
    while i < parts.len()
        invariant
            i <= parts@.len(),
            forall|j: int| 0 <= j < i ==> !(#[trigger] parts@[j].start_vertex.id <= x.id && x.id <= parts@[j].end_vertex.id),
        decreases parts@.len() - i,
    {
        if parts[i].start_vertex.id <= x.id && x.id <= parts[i].end_vertex.id {
            return true;
        }
        i = i + 1;
    }
    false
}

/// The ids of `ns` that lie in one of the partitions, in order.
fn ids_in_partitions(ns: &Vec<VertexId>, parts: &Vec<RangePartition>) -> (r: Vec<VertexId>)
    ensures
        r@ == ns@.filter(|x: VertexId| in_parts(parts@, x)),
{
    let ghost f = |x: VertexId| in_parts(parts@, x);
    let mut r: Vec<VertexId> = Vec::new();
    let mut i: usize = 0;
    while i < ns.len()
        invariant
            i <= ns@.len(),
            f == (|x: VertexId| in_parts(parts@, x)),
            r@ == ns@.take(i as int).filter(f),
        decreases ns@.len() - i,
    {
        let x = ns[i];
        proof {
            let t = ns@.take(i + 1);
            assert(t.drop_last() =~= ns@.take(i as int));
            assert(t.last() == x);
            reveal_with_fuel(Seq::filter, 1);
        }
        if in_partitions(parts, x) {
            r.push(x);
        }
        i = i + 1;
    }
    proof {
        assert(ns@.take(ns@.len() as int) =~= ns@);
    }
    r
}

/// An index-guided scan meeting the candidate `v`: it counts as scanned,
/// with one filter application per filter; where it lies in one of the
/// partitions and passes every filter (its degree the stored one), it is
/// kept, its neighbours counted and those inside the partitions recorded as
/// its connections where there are any.
pub open spec fn index_step(
    st: ScanProgress,
    g: GraphStore,
    parts: Seq<RangePartition>,
    pushed: Seq<ScanPredicate>,
    v: VertexId,
) -> ScanProgress {
    let s = st.3;
    let counted = ScanStats {
        vertices_scanned: bump(s.vertices_scanned, 1),
        predicates_applied: bump(s.predicates_applied, pushed.len()),
        ..s
    };
    let ns = g.spec_neighbors(v);
    if in_parts(parts, v) && all_pass(pushed, v, ns.len()) {
        let inside = ns.filter(|x: VertexId| in_parts(parts, x));
        let conns = if inside.len() > 0 {
            conn_put(st.1, v, inside)
        } else {
            st.1
        };
        (st.0.push(v), conns, bump(st.2, ns.len()), counted, 0)
    } else {
        (st.0, st.1, st.2, counted, 0)
    }
}

/// The index-guided scan meeting the candidates `vs` in order.
pub open spec fn index_steps(
    st: ScanProgress,
    g: GraphStore,
    parts: Seq<RangePartition>,
    pushed: Seq<ScanPredicate>,
    vs: Seq<VertexId>,
) -> ScanProgress
    decreases vs.len(),
{
    if vs.len() == 0 {
        st
    } else {
        index_step(index_steps(st, g, parts, pushed, vs.drop_last()), g, parts, pushed, vs.last())
    }
}

/// The counters `stats` after the index lookups: one per filter for the
/// primary index and for each of the `secondary` secondary indices.
pub open spec fn after_lookups(stats: ScanStats, filters: nat, secondary: nat) -> ScanStats {
    ScanStats {
        index_lookups: bump(bump(stats.index_lookups, filters), times_wrapping(secondary, filters) as nat),
        ..stats
    }
}

/// The first `count` candidates, or all of them where there are fewer.
pub open spec fn kept_candidates(candidates: Seq<VertexId>, count: usize) -> Seq<VertexId> {
    if count < candidates.len() {
        candidates.take(count as int)
    } else {
        candidates
    }
}

/// The index-guided scan of `partitions` over `store` with the filters
/// `pushed`, on the candidates that the primary and `secondary_indices`
/// secondary indices gave, in the order given, of which the first
/// `filtered_count` are kept: see [`index_steps`]. The counters go on from
/// `stats` with the index lookups made, and end with the number of vertices
/// returned.
pub fn index_guided_scan(
    store: &GraphStore,
    partitions: &Vec<RangePartition>,
    pushed: &Vec<ScanPredicate>,
    secondary_indices: usize,
    candidates: &Vec<VertexId>,
    filtered_count: usize,
    stats: &mut ScanStats,
) -> (r: RangeQueryResult)
    ensures
        scan_result(
            index_steps(
                fresh(after_lookups(*old(stats), pushed@.len(), secondary_indices as nat)),
                *store,
                partitions@,
                pushed@,
                kept_candidates(candidates@, filtered_count),
            ),
            r,
            *final(stats),
        ),
{
    let ghost g = *store;
    let mut s: ScanStats = *stats;
    s.index_lookups = bump_exec(bump_exec(s.index_lookups, pushed.len()), times_wrapping_exec(secondary_indices, pushed.len()));
    let ghost kept = kept_candidates(candidates@, filtered_count);
    let count: usize = if filtered_count < candidates.len() {
        filtered_count
    } else {
        candidates.len()
    };
    proof {
        assert(kept =~= candidates@.take(count as int));
    }
    let ghost st0: ScanProgress = fresh(s);
    let mut out: Vec<VertexId> = Vec::new();
    let mut conns: Vec<(VertexId, Vec<VertexId>)> = Vec::new();
    let mut edges: usize = 0;
    let mut j: usize = 0;
    while j < count
        invariant
            j <= count,
            count <= candidates@.len(),
            kept == candidates@.take(count as int),
            g == *store,
            (out@, conn_view(conns@), edges, s, 0nat) == index_steps(st0, g, partitions@, pushed@, kept.take(j as int)),
        decreases count - j,
    {
        let v = candidates[j];
        proof {
            assert(kept.take(j + 1).drop_last() =~= kept.take(j as int));
            assert(kept.take(j + 1).last() == v);
        }
        s.vertices_scanned = bump_exec(s.vertices_scanned, 1);
        s.predicates_applied = bump_exec(s.predicates_applied, pushed.len());
        if in_partitions(partitions, v) {
            let ns = store.get_neighbors(v);
            if all_predicates_pass(pushed, v, ns.len()) {
                edges = bump_exec(edges, ns.len());
                let inside = ids_in_partitions(&ns, partitions);
                if inside.len() > 0 {
                    put_conn(&mut conns, v, inside);
                }
                out.push(v);
            }
        }
        j = j + 1;
    }
    proof {
        assert(kept.take(count as int) =~= kept);
    }
    let n = out.len();
    let r = finish(out, conns, edges);
    s.results_returned = n;
    *stats = s;
    r
}

// ---------------------------------------------------------------------------
// Partitions scanned one by one, their results merged.

/// The batch size and bloom-filter setting partition `p` is scanned with on
/// its own: those of its sequential strategy, else batches of 1000 with the
/// bloom filter on.
pub open spec fn own_settings(p: RangePartition) -> (usize, bool) {
    match p.assigned_strategy {
        PartitionStrategy::SequentialScan { batch_size, use_bloom_filter } => (batch_size, use_bloom_filter),
        PartitionStrategy::Other => (1000, true),
    }
}

/// The counters all zero.
pub open spec fn zero_stats() -> ScanStats {
    ScanStats {
        vertices_scanned: 0,
        vertices_visited: 0,
        edges_traversed: 0,
        predicates_applied: 0,
        index_lookups: 0,
        results_returned: 0,
    }
}

/// The sequential scan of partition `p` on its own, from zero counters.
pub open spec fn own_scan(g: GraphStore, p: RangePartition, pushed: Seq<ScanPredicate>) -> ScanProgress {
    seq_partitions(fresh(zero_stats()), g, seq![p], pushed, own_settings(p).0, own_settings(p).1)
}

/// `res` is what the scan of `p` on its own found.
pub open spec fn found_by(res: PartitionResult, g: GraphStore, p: RangePartition, pushed: Seq<ScanPredicate>) -> bool {
    let st = own_scan(g, p, pushed);
    &&& res.vertices_in_range@ == st.0
    &&& conn_view(res.neighbor_connections@) == st.1
    &&& res.total_edges_in_range == st.2
}

/// The neighbours counted by the partitions' own scans, added up.
pub open spec fn own_edges(g: GraphStore, parts: Seq<RangePartition>, pushed: Seq<ScanPredicate>) -> nat
    decreases parts.len(),
{
    if parts.len() == 0 {
        0
    } else {
        own_edges(g, parts.drop_last(), pushed) + own_scan(g, parts.last(), pushed).2 as nat
    }
}

/// The counters of the partitions' own scans added up (each wrapping
/// around): vertices scanned, filter applications and index lookups.
pub open spec fn own_counts(g: GraphStore, parts: Seq<RangePartition>, pushed: Seq<ScanPredicate>) -> (usize, usize, usize)
    decreases parts.len(),
{
    if parts.len() == 0 {
        (0, 0, 0)
    } else {
        let c = own_counts(g, parts.drop_last(), pushed);
        let s = own_scan(g, parts.last(), pushed).3;
        (
            bump(c.0, s.vertices_scanned as nat),
            bump(c.1, s.predicates_applied as nat),
            bump(c.2, s.index_lookups as nat),
        )
    }
}

/// What scanning `parts` one by one and merging by `merge` gives: the
/// partitions' own results merged, and counters that add up the partitions'
/// vertices scanned, filter applications and index lookups, with the number
/// of merged vertices returned.
pub open spec fn partitioned_ok(
    g: GraphStore,
    parts: Seq<RangePartition>,
    pushed: Seq<ScanPredicate>,
    merge: MergeStrategy,
    r: RangeQueryResult,
    stats: ScanStats,
) -> bool {
    &&& exists|results: Seq<PartitionResult>|
        {
            &&& results.len() == parts.len()
            &&& forall|i: int| 0 <= i < parts.len() ==> #[trigger] found_by(results[i], g, parts[i], pushed)
            &&& merged_vertices_ok(merge, results, r.vertices_in_range@)
            &&& merged_conns_ok(merge, results, r.vertices_in_range@, conn_view(r.neighbor_connections@))
            &&& r.total_edges_in_range == sum_edges(results)
        }
    &&& r.density_numerator == r.neighbor_connections@.len()
    &&& r.possible_edges == vertex_pairs(r.vertices_in_range@.len())
    &&& stats == (ScanStats {
        vertices_scanned: own_counts(g, parts, pushed).0,
        predicates_applied: own_counts(g, parts, pushed).1,
        index_lookups: own_counts(g, parts, pushed).2,
        results_returned: r.vertices_in_range@.len() as usize,
        ..zero_stats()
    })
}

/// The edges of partition results found by the partitions' own scans add up
/// to the partitions' own count.
proof fn lemma_sum_found(g: GraphStore, parts: Seq<RangePartition>, pushed: Seq<ScanPredicate>, results: Seq<PartitionResult>)
    requires
        results.len() == parts.len(),
        forall|i: int| 0 <= i < parts.len() ==> #[trigger] found_by(results[i], g, parts[i], pushed),
    ensures
        sum_edges(results) == own_edges(g, parts, pushed),
    decreases parts.len(),
{
    if parts.len() > 0 {
        let n = parts.len() - 1;
        assert(found_by(results[n], g, parts[n], pushed));
        lemma_sum_found(g, parts.drop_last(), pushed, results.drop_last());
    }
}

/// Scans each partition on its own (see [`own_scan`]) and merges their
/// results by `merge_strategy` (see [`merge_partition_results`]); the
/// counters are replaced by the partitions' counts added up. The merge adds
/// up the partitions' neighbour counts, which must fit in a `usize`.
pub fn partitioned_scan(
    store: &GraphStore,
    partitions: &Vec<RangePartition>,
    pushed: &Vec<ScanPredicate>,
    merge_strategy: &MergeStrategy,
    stats: &mut ScanStats,
) -> (r: RangeQueryResult)
    requires
        own_edges(*store, partitions@, pushed@) <= usize::MAX,
    ensures
        partitioned_ok(*store, partitions@, pushed@, *merge_strategy, r, *final(stats)),
{
    let ghost g = *store;
    let mut results: Vec<PartitionResult> = Vec::new();
    let mut scanned: usize = 0;
    let mut applied: usize = 0;
    let mut lookups: usize = 0;
    let mut k: usize = 0;
    while k < partitions.len()
        invariant
            k <= partitions@.len(),
            g == *store,
            results@.len() == k,
            forall|i: int| 0 <= i < k ==> #[trigger] found_by(results@[i], g, partitions@[i], pushed@),
            (scanned, applied, lookups) == own_counts(g, partitions@.take(k as int), pushed@),
        decreases partitions@.len() - k,
    {
        let p = partitions[k];
        let (b, u) = match p.assigned_strategy {
            PartitionStrategy::SequentialScan { batch_size, use_bloom_filter } => (batch_size, use_bloom_filter),
            PartitionStrategy::Other => (1000, true),
        };
        let mut one: Vec<RangePartition> = Vec::new();
        one.push(p);
        proof {
            assert(one@ =~= seq![p]);
        }
        let mut ps = ScanStats::new();
        let res = sequential_scan(store, &one, pushed, b, u, &mut ps);
        scanned = bump_exec(scanned, ps.vertices_scanned);
        applied = bump_exec(applied, ps.predicates_applied);
        lookups = bump_exec(lookups, ps.index_lookups);
        results.push(
            PartitionResult {
                vertices_in_range: res.vertices_in_range,
                neighbor_connections: res.neighbor_connections,
                total_edges_in_range: res.total_edges_in_range,
            },
        );
        proof {
            assert(found_by(results@[k as int], g, partitions@[k as int], pushed@));
            assert(partitions@.take(k + 1).drop_last() =~= partitions@.take(k as int));
        }
        k = k + 1;
    }
    proof {
        assert(partitions@.take(partitions@.len() as int) =~= partitions@);
        lemma_sum_found(g, partitions@, pushed@, results@);
    }
    let ghost rs = results@;
    let merged = merge_partition_results(results, merge_strategy);
    let mut s = ScanStats::new();
    s.vertices_scanned = scanned;
    s.predicates_applied = applied;
    s.index_lookups = lookups;
    s.results_returned = merged.vertices_in_range.len();
    *stats = s;
    merged
}

// ---------------------------------------------------------------------------
// Choosing among the strategies of a hybrid plan, and running a plan.

/// `s` is an index-guided scan (`index`) or a partitioned scan (else).
pub open spec fn of_kind(s: ScanStrategy, index: bool) -> bool {
    if index {
        s is IndexGuidedScan
    } else {
        s is ParallelPartitionedScan
    }
}

/// Where the first strategy of the kind stands.
pub open spec fn first_of_kind(ss: Seq<ScanStrategy>, index: bool) -> Option<int>
    decreases ss.len(),
{
    if ss.len() == 0 {
        None
    } else if of_kind(ss[0], index) {
        Some(0)
    } else {
        match first_of_kind(ss.drop_first(), index) {
            Some(i) => Some(i + 1),
            None => None,
        }
    }
}

proof fn lemma_first_of_kind(ss: Seq<ScanStrategy>, index: bool, i: int)
    requires
        0 <= i <= ss.len(),
        forall|j: int| 0 <= j < i ==> !of_kind(ss[j], index),
    ensures
        i < ss.len() && of_kind(ss[i], index) ==> first_of_kind(ss, index) == Some(i),
        i == ss.len() ==> first_of_kind(ss, index) is None,
    decreases i,
{
    if i > 0 {
        lemma_first_of_kind(ss.drop_first(), index, i - 1);
    }
}

/// Where the first strategy of the kind stands in `ss`.
fn find_kind(ss: &Vec<ScanStrategy>, index: bool) -> (r: Option<usize>)
    ensures
        r matches Some(i) ==> first_of_kind(ss@, index) == Some(i as int),
        r is None ==> first_of_kind(ss@, index) is None,
{
    let mut i: usize = 0;
    while i < ss.len()
        invariant
            i <= ss@.len(),
            forall|j: int| 0 <= j < i ==> !of_kind(#[trigger] ss@[j], index),
        decreases ss@.len() - i,
    {
        let hit = match &ss[i] {
            ScanStrategy::IndexGuidedScan { .. } => index,
            ScanStrategy::ParallelPartitionedScan { .. } => !index,
            _ => false,
        };
        if hit {
            proof {
                lemma_first_of_kind(ss@, index, i as int);
            }
            return Some(i);
        }
        i = i + 1;
    }
    proof {
        lemma_first_of_kind(ss@, index, i as int);
    }
    None
}

proof fn lemma_first_of_kind_bounds(ss: Seq<ScanStrategy>, index: bool)
    ensures
        first_of_kind(ss, index) matches Some(i) ==> 0 <= i < ss.len(),
    decreases ss.len(),
{
    if ss.len() > 0 {
        lemma_first_of_kind_bounds(ss.drop_first(), index);
    }
}

/// A hybrid choice is one of the strategies.
proof fn lemma_choice_bounds(ss: Seq<ScanStrategy>, conds: Seq<String>, size: nat, index_available: bool, high_selectivity: bool)
    ensures
        hybrid_choice(ss, conds, size, index_available, high_selectivity) matches Some(i) ==> 0 <= i < ss.len(),
    decreases conds.len(),
{
    lemma_first_of_kind_bounds(ss, true);
    lemma_first_of_kind_bounds(ss, false);
    if conds.len() > 0 {
        lemma_choice_bounds(ss, conds.drop_first(), size, index_available, high_selectivity);
    }
}

/// The estimated sizes of the partitions added up.
pub open spec fn size_total(parts: Seq<RangePartition>) -> nat
    decreases parts.len(),
{
    if parts.len() == 0 {
        0
    } else {
        size_total(parts.drop_last()) + parts.last().estimated_size as nat
    }
}

/// The strategy a hybrid plan picks, by its conditions in order: under
/// `use_index_if_available`, the first index-guided scan where an index is
/// available and is highly selective; under `parallel_for_large_ranges`, the
/// first partitioned scan where the estimated size exceeds 10000; a
/// condition that picks nothing, or that is unknown, passes to the next.
/// Where none picks, the first strategy; with no strategies, none (the plan
/// then runs the default sequential scan).
pub open spec fn hybrid_choice(
    ss: Seq<ScanStrategy>,
    conds: Seq<String>,
    size: nat,
    index_available: bool,
    high_selectivity: bool,
) -> Option<int>
    decreases conds.len(),
{
    if conds.len() == 0 {
        if ss.len() > 0 {
            Some(0)
        } else {
            None
        }
    } else if conds[0]@ == "use_index_if_available"@ && index_available && high_selectivity && first_of_kind(ss, true) is Some {
        first_of_kind(ss, true)
    } else if conds[0]@ == "parallel_for_large_ranges"@ && size > 10000 && first_of_kind(ss, false) is Some {
        first_of_kind(ss, false)
    } else {
        hybrid_choice(ss, conds.drop_first(), size, index_available, high_selectivity)
    }
}

/// Which of `strategies` a hybrid plan over `partitions` picks (see
/// [`hybrid_choice`]), the estimated size being that of the partitions
/// together; whether an index is available and whether one is highly
/// selective are the caller's findings. The sizes must add up within a
/// `usize`.
pub fn select_hybrid_strategy(
    strategies: &Vec<ScanStrategy>,
    threshold_conditions: &Vec<String>,
    partitions: &Vec<RangePartition>,
    index_available: bool,
    high_selectivity: bool,
) -> (r: Option<usize>)
    requires
        size_total(partitions@) <= usize::MAX,
    ensures
        r matches Some(i) ==> hybrid_choice(strategies@, threshold_conditions@, size_total(partitions@), index_available, high_selectivity)
            == Some(i as int),
        r is None ==> hybrid_choice(strategies@, threshold_conditions@, size_total(partitions@), index_available, high_selectivity) is None,
{
    let mut size: usize = 0;
    let mut k: usize = 0;
    while k < partitions.len()
        invariant
            k <= partitions@.len(),
            size_total(partitions@) <= usize::MAX,
            size == size_total(partitions@.take(k as int)),
        decreases partitions@.len() - k,
    {
        proof {
            assert(partitions@.take(k + 1).drop_last() =~= partitions@.take(k as int));
            lemma_size_prefix(partitions@, k + 1);
        }
        size = size + partitions[k].estimated_size;
        k = k + 1;
    }
    proof {
        assert(partitions@.take(partitions@.len() as int) =~= partitions@);
    }
    let ghost n = size_total(partitions@);
    let ghost whole = hybrid_choice(strategies@, threshold_conditions@, n, index_available, high_selectivity);
    proof {
        assert(threshold_conditions@.skip(0) =~= threshold_conditions@);
    }
    let mut i: usize = 0;
    while i < threshold_conditions.len()
        invariant
            i <= threshold_conditions@.len(),
            size == n,
            n == size_total(partitions@),
            whole == hybrid_choice(strategies@, threshold_conditions@, n, index_available, high_selectivity),
            whole == hybrid_choice(strategies@, threshold_conditions@.skip(i as int), n, index_available, high_selectivity),
        decreases threshold_conditions@.len() - i,
    {
        let c = threshold_conditions[i].as_str();
        let ghost rest = threshold_conditions@.skip(i as int);
        proof {
            assert(rest[0] == threshold_conditions@[i as int]);
            assert(rest.drop_first() =~= threshold_conditions@.skip(i + 1));
            assert(c@ == rest[0]@);
        }
        if index_available && high_selectivity && str_eq(c, "use_index_if_available") {
            match find_kind(strategies, true) {
                Some(j) => {
                    proof {
                        assert(rest.len() > 0);
                        assert(hybrid_choice(strategies@, rest, n, index_available, high_selectivity) == Some(j as int));
                    }
                    return Some(j);
                },
                None => {},
            }
        } else if size > 10000 && str_eq(c, "parallel_for_large_ranges") {

            match find_kind(strategies, false) {
                Some(j) => {
                    proof {
                        assert(rest.len() > 0);
                        assert(hybrid_choice(strategies@, rest, n, index_available, high_selectivity) == Some(j as int));
                    }
                    return Some(j);
                },
                None => {},
            }
        }
        proof {
            reveal_strlit("use_index_if_available");
            reveal_strlit("parallel_for_large_ranges");
            assert("use_index_if_available"@ != "parallel_for_large_ranges"@) by {
                assert("use_index_if_available"@.len() != "parallel_for_large_ranges"@.len());
            }
            assert(hybrid_choice(strategies@, rest, n, index_available, high_selectivity) == hybrid_choice(
                strategies@,
                rest.drop_first(),
                n,
                index_available,
                high_selectivity,
            ));
        }
        i = i + 1;
    }
    if strategies.len() > 0 {
        Some(0)
    } else {
        None
    }
}

proof fn lemma_size_prefix(parts: Seq<RangePartition>, k: int)
    requires
        0 <= k <= parts.len(),
    ensures
        size_total(parts.take(k)) <= size_total(parts),
    decreases parts.len() - k,
{
    if k < parts.len() {
        lemma_size_prefix(parts, k + 1);
        assert(parts.take(k + 1).drop_last() =~= parts.take(k));
    } else {
        assert(parts.take(k) =~= parts);
    }
}

/// What running `s` on its own gives: a sequential scan with its settings;
/// an index-guided scan of the candidates, the first `filtered_count` kept;
/// the partitions scanned one by one and merged; or, for a hybrid strategy
/// met here, the default sequential scan (batches of 1000, bloom filter on).
pub open spec fn strategy_ok(
    s: ScanStrategy,
    g: GraphStore,
    parts: Seq<RangePartition>,
    pushed: Seq<ScanPredicate>,
    candidates: Seq<VertexId>,
    filtered_count: usize,
    before: ScanStats,
    r: RangeQueryResult,
    after: ScanStats,
) -> bool {
    match s {
        ScanStrategy::SequentialScan { batch_size, use_bloom_filter } => scan_result(
            seq_partitions(fresh(before), g, parts, pushed, batch_size, use_bloom_filter),
            r,
            after,
        ),
        ScanStrategy::IndexGuidedScan { secondary_indices, .. } => scan_result(
            index_steps(
                fresh(after_lookups(before, pushed.len(), secondary_indices@.len())),
                g,
                parts,
                pushed,
                kept_candidates(candidates, filtered_count),
            ),
            r,
            after,
        ),
        ScanStrategy::ParallelPartitionedScan { merge_strategy, .. } => partitioned_ok(g, parts, pushed, merge_strategy, r, after),
        ScanStrategy::HybridStrategy { .. } => scan_result(seq_partitions(fresh(before), g, parts, pushed, 1000, true), r, after),
    }
}

/// What running the plan strategy `s` gives: for a hybrid strategy, the
/// strategy it picks (see [`hybrid_choice`]) run on its own, or the default
/// sequential scan where it picks none; for any other, `s` run on its own.
pub open spec fn plan_ok(
    s: ScanStrategy,
    g: GraphStore,
    parts: Seq<RangePartition>,
    pushed: Seq<ScanPredicate>,
    candidates: Seq<VertexId>,
    filtered_count: usize,
    index_available: bool,
    high_selectivity: bool,
    before: ScanStats,
    r: RangeQueryResult,
    after: ScanStats,
) -> bool {
    match s {
        ScanStrategy::HybridStrategy { strategies, threshold_conditions } => match hybrid_choice(
            strategies@,
            threshold_conditions@,
            size_total(parts),
            index_available,
            high_selectivity,
        ) {
            Some(i) => strategy_ok(strategies@[i], g, parts, pushed, candidates, filtered_count, before, r, after),
            None => scan_result(seq_partitions(fresh(before), g, parts, pushed, 1000, true), r, after),
        },
        _ => strategy_ok(s, g, parts, pushed, candidates, filtered_count, before, r, after),
    }
}

/// What a plan strategy needs to run: the partitions' sizes adding up within
/// a `usize` for a hybrid choice, and the partitions' neighbour counts
/// adding up within one where partitions are merged.
pub open spec fn plan_can_run(s: ScanStrategy, g: GraphStore, parts: Seq<RangePartition>, pushed: Seq<ScanPredicate>, index_available: bool, high_selectivity: bool) -> bool {
    match s {
        ScanStrategy::ParallelPartitionedScan { .. } => own_edges(g, parts, pushed) <= usize::MAX,
        ScanStrategy::HybridStrategy { strategies, threshold_conditions } => {
            &&& size_total(parts) <= usize::MAX
            &&& match hybrid_choice(strategies@, threshold_conditions@, size_total(parts), index_available, high_selectivity) {
                Some(i) => strategies@[i] is ParallelPartitionedScan ==> own_edges(g, parts, pushed) <= usize::MAX,
                None => true,
            }
        },
        _ => true,
    }
}

/// Runs `s` on its own (see [`strategy_ok`]).
fn run_strategy(
    store: &GraphStore,
    s: &ScanStrategy,
    partitions: &Vec<RangePartition>,
    pushed: &Vec<ScanPredicate>,
    candidates: &Vec<VertexId>,
    filtered_count: usize,
    stats: &mut ScanStats,
) -> (r: RangeQueryResult)
    requires
        *s is ParallelPartitionedScan ==> own_edges(*store, partitions@, pushed@) <= usize::MAX,
    ensures
        strategy_ok(*s, *store, partitions@, pushed@, candidates@, filtered_count, *old(stats), r, *final(stats)),
{
    match s {
        ScanStrategy::SequentialScan { batch_size, use_bloom_filter } => sequential_scan(
            store,
            partitions,
            pushed,
            *batch_size,
            *use_bloom_filter,
            stats,
        ),
        ScanStrategy::IndexGuidedScan { secondary_indices, .. } => index_guided_scan(
            store,
            partitions,
            pushed,
            secondary_indices.len(),
            candidates,
            filtered_count,
            stats,
        ),
        ScanStrategy::ParallelPartitionedScan { merge_strategy, .. } => partitioned_scan(store, partitions, pushed, merge_strategy, stats),
        ScanStrategy::HybridStrategy { .. } => sequential_scan(store, partitions, pushed, 1000, true, stats),
    }
}

/// Executes a range query by the plan strategy `strategy` over `partitions`
/// of the range, with the filters `pushed` (see [`plan_ok`]). For an
/// index-guided scan the caller gives the candidates its indices found, in
/// the order met, and how many of them the index's selectivity keeps; for a
/// hybrid plan, whether an index is available and whether one is highly
/// selective. The counters go on from `stats` (a partitioned scan replaces
/// them).
pub fn execute_optimized_range_query(
    store: &GraphStore,
    strategy: &ScanStrategy,
    partitions: &Vec<RangePartition>,
    pushed: &Vec<ScanPredicate>,
    candidates: &Vec<VertexId>,
    filtered_count: usize,
    index_available: bool,
    high_selectivity: bool,
    stats: &mut ScanStats,
) -> (r: RangeQueryResult)
    requires
        plan_can_run(*strategy, *store, partitions@, pushed@, index_available, high_selectivity),
    ensures
        plan_ok(
            *strategy,
            *store,
            partitions@,
            pushed@,
            candidates@,
            filtered_count,
            index_available,
            high_selectivity,
            *old(stats),
            r,
            *final(stats),
        ),
{
    match strategy {
        ScanStrategy::HybridStrategy { strategies, threshold_conditions } => {
            match select_hybrid_strategy(strategies, threshold_conditions, partitions, index_available, high_selectivity) {
                Some(i) => {
                    proof {
                        lemma_choice_bounds(strategies@, threshold_conditions@, size_total(partitions@), index_available, high_selectivity);
                    }
                    run_strategy(store, &strategies[i], partitions, pushed, candidates, filtered_count, stats)
                },
                None => sequential_scan(store, partitions, pushed, 1000, true, stats),
            }
        },
        _ => run_strategy(store, strategy, partitions, pushed, candidates, filtered_count, stats),
    }
}

} // verus!
