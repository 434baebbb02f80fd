//! Range-scan optimization: its statistics, index kinds and the ways the
//! results of range partitions are merged.
use crate::graph::copy_ids;
use crate::types::VertexId;
use vstd::prelude::*;

verus! {

/// Counters of the optimizer's work.
#[derive(Debug, Clone, Copy, PartialEq, Eq, Structural)]
pub struct OptimizationStats {
    pub predicates_pushed_down: usize,
    pub index_hits: usize,
    pub range_partitions_created: usize,
    pub early_terminations: usize,
    pub batch_operations: usize,
    pub cost_estimation_time_ms: u64,
    pub optimization_time_ms: u64,
}

impl OptimizationStats {
    /// All counters zero.
    pub fn new() -> (r: OptimizationStats)
        ensures
            r == (OptimizationStats {
                predicates_pushed_down: 0,
                index_hits: 0,
                range_partitions_created: 0,
                early_terminations: 0,
                batch_operations: 0,
                cost_estimation_time_ms: 0,
                optimization_time_ms: 0,
            }),
    {
        OptimizationStats {
            predicates_pushed_down: 0,
            index_hits: 0,
            range_partitions_created: 0,
            early_terminations: 0,
            batch_operations: 0,
            cost_estimation_time_ms: 0,
            optimization_time_ms: 0,
        }
    }
}

/// How the results of parallel range partitions are merged.
#[derive(Debug, Clone, Copy, PartialEq, Eq, Structural)]
pub enum MergeStrategy {
    /// Vertices sorted by id, each once.
    OrderedMerge,
    /// Vertices concatenated, runs of repeats collapsed.
    UnorderedUnion,
    /// The vertices every partition found, each once.
    SetIntersection,
    /// The vertices some partition found, each once.
    SetUnion,
}

/// The kinds of index the optimizer can use.
#[derive(Debug, Clone)]
pub enum IndexType {
    /// A B-tree, for range queries.
    BTreeIndex,
    /// A hash index, for equality queries.
    HashIndex,
    /// A Bloom filter, for existence checks.
    BloomFilter,
    /// An index over several properties.
    CompositeIndex { properties: Vec<String> },
    /// An index of the graph's topology.
    TopologyIndex,
}


// ---------------------------------------------------------------------------
// Sorted id lists.

/// Ids strictly increasing: sorted, each once.
pub open spec fn strictly_sorted(s: Seq<VertexId>) -> bool {
    forall|i: int, j: int| 0 <= i < j < s.len() ==> (#[trigger] s[i]).id < (#[trigger] s[j]).id
}

/// Each id at most once.
pub open spec fn distinct_ids(s: Seq<VertexId>) -> bool {
    forall|i: int, j: int| 0 <= i < j < s.len() ==> #[trigger] s[i] != #[trigger] s[j]
}

/// Whether `v` holds `x`.
fn holds(v: &Vec<VertexId>, x: VertexId) -> (r: bool)
    ensures
        r == v@.contains(x),
{
    let mut i: usize = 0;
    while i < v.len()
        invariant
            i <= v@.len(),
            forall|j: int| 0 <= j < i ==> v@[j] != x,
        decreases v@.len() - i,
    {
        if v[i] == x {
            return true;
        }
        i = i + 1;
    }
    false
}

/// Adds `x` to a strictly sorted list, where it is not already.
fn sorted_insert(v: &mut Vec<VertexId>, x: VertexId)
    requires
        strictly_sorted(old(v)@),
    ensures
        strictly_sorted(final(v)@),
        forall|y: VertexId| final(v)@.contains(y) <==> (old(v)@.contains(y) || y == x),
{
    let mut i: usize = 0;
    while i < v.len() && v[i].id < x.id
        invariant
            i <= v@.len(),
            strictly_sorted(v@),
            v@ == old(v)@,
            forall|j: int| 0 <= j < i ==> (#[trigger] v@[j]).id < x.id,
        decreases v@.len() - i,
    {
        i = i + 1;
    }
    if i < v.len() && v[i].id == x.id {
        proof {
            assert(v@[i as int] == x);
            assert(old(v)@.contains(x));
        }
        return;
    }
    let ghost before = v@;
    assert(before == old(v)@);
    v.insert(i, x);
    proof {
        assert forall|a: int, b: int| 0 <= a < b < v@.len() implies (#[trigger] v@[a]).id < (#[trigger] v@[b]).id by {
            if b < i {
            } else if b == i {
            } else if a < i {
                assert(v@[b] == before[b - 1]);
                assert(before[i as int].id > x.id);
                if b - 1 > i {
                    assert(before[i as int].id < before[b - 1].id);
                }
            } else if a == i {
                assert(v@[b] == before[b - 1]);
                if b - 1 > i {
                    assert(before[i as int].id < before[b - 1].id);
                }
            } else {
                assert(v@[a] == before[a - 1]);
                assert(v@[b] == before[b - 1]);
            }
        }
        assert forall|y: VertexId| v@.contains(y) <==> (before.contains(y) || y == x) by {
            if v@.contains(y) {
                let k = choose|k: int| 0 <= k < v@.len() && v@[k] == y;
                if k < i {
                    assert(before[k] == y);
                } else if k > i {
                    assert(before[k - 1] == y);
                }
            }
            if before.contains(y) {
                let k = choose|k: int| 0 <= k < before.len() && before[k] == y;
                if k < i {
                    assert(v@[k] == y);
                } else {
                    assert(v@[k + 1] == y);
                }
            }
            if y == x {
                assert(v@[i as int] == x);
            }
        }
        assert(forall|y: VertexId| v@.contains(y) <==> (old(v)@.contains(y) || y == x));
    }
}


// ---------------------------------------------------------------------------
// Connection lists: (source, its neighbours) with sources strictly increasing
// and each neighbour list strictly increasing.

/// The connections with their neighbour lists as sequences.
pub open spec fn conn_view(c: Seq<(VertexId, Vec<VertexId>)>) -> Seq<(VertexId, Seq<VertexId>)> {
    c.map_values(|p: (VertexId, Vec<VertexId>)| (p.0, p.1@))
}

/// Sources strictly increasing, each list strictly increasing.
pub open spec fn conns_wf(c: Seq<(VertexId, Seq<VertexId>)>) -> bool {
    &&& forall|i: int, j: int| 0 <= i < j < c.len() ==> (#[trigger] c[i]).0.id < (#[trigger] c[j]).0.id
    &&& forall|i: int| 0 <= i < c.len() ==> strictly_sorted(#[trigger] c[i].1)
}

/// `s` is a source of the connections.
pub open spec fn src_in(c: Seq<(VertexId, Seq<VertexId>)>, s: VertexId) -> bool {
    exists|i: int| 0 <= i < c.len() && (#[trigger] c[i]).0 == s
}

/// Some connection from `s` lists `t`.
pub open spec fn link_in(c: Seq<(VertexId, Seq<VertexId>)>, s: VertexId, t: VertexId) -> bool {
    exists|i: int| 0 <= i < c.len() && (#[trigger] c[i]).0 == s && c[i].1.contains(t)
}

/// The ids of `ns` that `keep` holds, in order.
fn kept_ids(ns: &Vec<VertexId>, keep: &Vec<VertexId>) -> (r: Vec<VertexId>)
    ensures
        forall|t: VertexId| r@.contains(t) <==> (ns@.contains(t) && keep@.contains(t)),
{
    let mut r: Vec<VertexId> = Vec::new();
    let mut i: usize = 0;
    while i < ns.len()
        invariant
            i <= ns@.len(),
            forall|t: VertexId| r@.contains(t) <==> (ns@.take(i as int).contains(t) && keep@.contains(t)),
        decreases ns@.len() - i,
    {
        let n = ns[i];
        let ghost before = r@;
        if holds(keep, n) {
            r.push(n);
        }
        proof {
            assert(ns@.take(i + 1) =~= ns@.take(i as int).push(n));
            assert forall|t: VertexId| r@.contains(t) <==> (ns@.take(i + 1).contains(t) && keep@.contains(t)) by {
                if r@.contains(t) && t != n {
                    let k = choose|k: int| 0 <= k < r@.len() && r@[k] == t;
                    assert(before[k] == t);
                }
                let t1 = ns@.take(i + 1);
                let t0 = ns@.take(i as int);
                if t1.contains(t) && t != n {
                    let k = choose|k: int| 0 <= k < t1.len() && t1[k] == t;
                    assert(t0[k] == t);
                }
                if before.contains(t) {
                    let k = choose|k: int| 0 <= k < before.len() && before[k] == t;
                    assert(r@[k] == t);
                }
                if t0.contains(t) {
                    let k = choose|k: int| 0 <= k < t0.len() && t0[k] == t;
                    assert(t1[k] == t);
                }
                if t == n && keep@.contains(n) {
                    assert(r@[r@.len() - 1] == n);
                }
                assert(ns@.take(i + 1)[i as int] == n);
            }
        }
        i = i + 1;
    }
    proof {
        assert(ns@.take(ns@.len() as int) =~= ns@);
    }
    r
}

/// Adds the ids of `ns` to a strictly sorted list.
fn insert_all(list: &mut Vec<VertexId>, ns: &Vec<VertexId>)
    requires
        strictly_sorted(old(list)@),
    ensures
        strictly_sorted(final(list)@),
        forall|t: VertexId|
            #![trigger final(list)@.contains(t)]
            #![trigger old(list)@.contains(t)]
            final(list)@.contains(t) <==> (old(list)@.contains(t) || ns@.contains(t)),
{
    let mut i: usize = 0;
    while i < ns.len()
        invariant
            i <= ns@.len(),
            strictly_sorted(list@),
            forall|t: VertexId| list@.contains(t) <==> (old(list)@.contains(t) || ns@.take(i as int).contains(t)),
        decreases ns@.len() - i,
    {
        let n = ns[i];
        sorted_insert(list, n);
        proof {
            assert(ns@.take(i + 1) =~= ns@.take(i as int).push(n));
            assert forall|t: VertexId| ns@.take(i + 1).contains(t) <==> (ns@.take(i as int).contains(t) || t == n) by {
                let t1 = ns@.take(i + 1);
                let t0 = ns@.take(i as int);
                if t1.contains(t) && t != n {
                    let k = choose|k: int| 0 <= k < t1.len() && t1[k] == t;
                    assert(t0[k] == t);
                }
                if t0.contains(t) {
                    let k = choose|k: int| 0 <= k < t0.len() && t0[k] == t;
                    assert(t1[k] == t);
                }
                assert(ns@.take(i + 1)[i as int] == n);
            }
        }
        i = i + 1;
    }
    proof {
        assert(ns@.take(ns@.len() as int) =~= ns@);
    }
}

/// Records the connections from `src` to the ids of `ns`: the entry of `src`
/// gets them added, or a new entry for `src` is made in its place.
fn add_connection(c: &mut Vec<(VertexId, Vec<VertexId>)>, src: VertexId, ns: &Vec<VertexId>)
    requires
        conns_wf(conn_view(old(c)@)),
    ensures
        conns_wf(conn_view(final(c)@)),
        forall|s: VertexId| src_in(conn_view(final(c)@), s) <==> (src_in(conn_view(old(c)@), s) || s == src),
        forall|s: VertexId, t: VertexId|
            link_in(conn_view(final(c)@), s, t) <==> (link_in(conn_view(old(c)@), s, t) || (s == src && ns@.contains(t))),
{
    let ghost old_v = conn_view(c@);
    let mut p: usize = 0;
    while p < c.len() && c[p].0.id < src.id
        invariant
            p <= c@.len(),
            conn_view(c@) == old_v,
            conns_wf(old_v),
            forall|j: int| 0 <= j < p ==> (#[trigger] c@[j]).0.id < src.id,
        decreases c@.len() - p,
    {
        p = p + 1;
    }
    assert(forall|j: int| 0 <= j < old_v.len() ==> (#[trigger] old_v[j]) == (c@[j].0, c@[j].1@));
    if p < c.len() && c[p].0.id == src.id {
        let mut list = copy_ids(&c[p].1);
        proof {
            assert(old_v[p as int] == (c@[p as int].0, c@[p as int].1@));
            assert(strictly_sorted(old_v[p as int].1));
        }
        let ghost list0 = list@;
        insert_all(&mut list, ns);
        let ghost lv = list@;
        assert(list0 == old_v[p as int].1);
        assert forall|t: VertexId| lv.contains(t) <==> (old_v[p as int].1.contains(t) || ns@.contains(t)) by {
            assert(lv.contains(t) <==> (list0.contains(t) || ns@.contains(t)));
        }
        c.set(p, (src, list));
        proof {
            let nv = conn_view(c@);
            assert(old_v[p as int].0 == src);
            assert(nv =~= old_v.update(p as int, (src, lv)));
            assert forall|s: VertexId| src_in(nv, s) <==> (src_in(old_v, s) || s == src) by {
                if src_in(nv, s) {
                    let k = choose|k: int| 0 <= k < nv.len() && (#[trigger] nv[k]).0 == s;
                    assert(old_v[k].0 == s);
                }
                if src_in(old_v, s) {
                    let k = choose|k: int| 0 <= k < old_v.len() && (#[trigger] old_v[k]).0 == s;
                    assert(nv[k].0 == s);
                }
                if s == src {
                    assert(nv[p as int].0 == s);
                }
            }
            assert forall|s: VertexId, t: VertexId| link_in(nv, s, t) <==> (link_in(old_v, s, t) || (s == src && ns@.contains(t))) by {
                if link_in(nv, s, t) {
                    let k = choose|k: int| 0 <= k < nv.len() && (#[trigger] nv[k]).0 == s && nv[k].1.contains(t);
                    if k != p {
                        assert(old_v[k] == nv[k]);
                    } else {
                        assert(old_v[k].0 == s);
                    }
                }
                if link_in(old_v, s, t) {
                    let k = choose|k: int| 0 <= k < old_v.len() && (#[trigger] old_v[k]).0 == s && old_v[k].1.contains(t);
                    if k != p {
                        assert(nv[k] == old_v[k]);
                    } else {
                        assert(lv.contains(t));
                        assert(nv[k].0 == s && nv[k].1.contains(t));
                    }
                }
                if s == src && ns@.contains(t) {
                    assert(nv[p as int].0 == s && nv[p as int].1.contains(t));
                }
            }
            assert forall|i: int, j: int| 0 <= i < j < nv.len() implies (#[trigger] nv[i]).0.id < (#[trigger] nv[j]).0.id by {
                assert(old_v[i].0.id < old_v[j].0.id);
            }
        }
    } else {
        let mut list: Vec<VertexId> = Vec::new();
        insert_all(&mut list, ns);
        let ghost lv = list@;
        c.insert(p, (src, list));
        proof {
            let nv = conn_view(c@);
            assert(nv =~= old_v.insert(p as int, (src, lv)));
            assert forall|k: int| 0 <= k < p implies nv[k] == old_v[k] by {}
            assert forall|k: int| p < k < nv.len() implies nv[k] == old_v[k - 1] by {}
            assert(nv[p as int] == (src, lv));
            assert forall|s: VertexId| src_in(nv, s) <==> (src_in(old_v, s) || s == src) by {
                if src_in(nv, s) {
                    let k = choose|k: int| 0 <= k < nv.len() && (#[trigger] nv[k]).0 == s;
                    if k < p {
                        assert(old_v[k].0 == s);
                    } else if k > p {
                        assert(old_v[k - 1].0 == s);
                    }
                }
                if src_in(old_v, s) {
                    let k = choose|k: int| 0 <= k < old_v.len() && (#[trigger] old_v[k]).0 == s;
                    if k < p {
                        assert(nv[k].0 == s);
                    } else {
                        assert(nv[k + 1].0 == s);
                    }
                }
            }
            assert forall|s: VertexId, t: VertexId| link_in(nv, s, t) <==> (link_in(old_v, s, t) || (s == src && ns@.contains(t))) by {
                if link_in(nv, s, t) {
                    let k = choose|k: int| 0 <= k < nv.len() && (#[trigger] nv[k]).0 == s && nv[k].1.contains(t);
                    if k < p {
                        assert(old_v[k].0 == s && old_v[k].1.contains(t));
                    } else if k > p {
                        assert(old_v[k - 1].0 == s && old_v[k - 1].1.contains(t));
                    }
                }
                if link_in(old_v, s, t) {
                    let k = choose|k: int| 0 <= k < old_v.len() && (#[trigger] old_v[k]).0 == s && old_v[k].1.contains(t);
                    if k < p {
                        assert(nv[k].0 == s && nv[k].1.contains(t));
                    } else {
                        assert(nv[k + 1].0 == s && nv[k + 1].1.contains(t));
                    }
                }
                if s == src && ns@.contains(t) {
                    assert(nv[p as int].0 == s && nv[p as int].1.contains(t));
                }
            }
            assert forall|i: int, j: int| 0 <= i < j < nv.len() implies (#[trigger] nv[i]).0.id < (#[trigger] nv[j]).0.id by {
                if j < p {
                } else if j == p {
                } else if i < p {
                    if j - 1 > p {
                        assert(old_v[p as int].0.id < old_v[j - 1].0.id);
                    }
                } else if i == p {
                    if j - 1 > p {
                        assert(old_v[p as int].0.id < old_v[j - 1].0.id);
                    }
                } else {
                    assert(old_v[i - 1].0.id < old_v[j - 1].0.id);
                }
            }
            assert forall|i: int| 0 <= i < nv.len() implies strictly_sorted(#[trigger] nv[i].1) by {
                if i < p {
                    assert(nv[i] == old_v[i]);
                } else if i > p {
                    assert(nv[i] == old_v[i - 1]);
                }
            }
        }
    }
}


// ---------------------------------------------------------------------------
// Merging the results of range partitions.

/// What one range partition found: its vertices, the connections from them
/// (a source and its neighbours), and the number of edges it traversed.
#[derive(Debug, Clone)]
pub struct PartitionResult {
    pub vertices_in_range: Vec<VertexId>,
    pub neighbor_connections: Vec<(VertexId, Vec<VertexId>)>,
    pub total_edges_in_range: usize,
}

/// The result of a range query: its vertices, the connections from them (a
/// source and its neighbours), the edges counted, and the subgraph density as
/// the fraction `density_numerator / possible_edges` (0 where
/// `possible_edges` is 0), `possible_edges` being the number of ordered
/// vertex pairs, `n * (n - 1)` for `n > 1` vertices.
#[derive(Debug, Clone)]
pub struct RangeQueryResult {
    pub vertices_in_range: Vec<VertexId>,
    pub neighbor_connections: Vec<(VertexId, Vec<VertexId>)>,
    pub total_edges_in_range: usize,
    pub density_numerator: usize,
    pub possible_edges: u128,
}

/// The number of ordered pairs of `n` vertices: `n * (n - 1)` for `n > 1`,
/// else 0.
pub open spec fn vertex_pairs(n: nat) -> int {
    if n > 1 {
        n * (n - 1)
    } else {
        0
    }
}

/// The number of ordered pairs of `n` vertices.
pub fn pair_count(n: usize) -> (r: u128)
    ensures
        r == vertex_pairs(n as nat),
{
    if n > 1 {
        proof {
            let a = n as int;
            let b = (n - 1) as int;
            assert(a * b <= 0xFFFF_FFFF_FFFF_FFFFint * 0xFFFF_FFFF_FFFF_FFFFint) by (nonlinear_arith)
                requires
                    0 <= a <= 0xFFFF_FFFF_FFFF_FFFFint,
                    0 <= b <= 0xFFFF_FFFF_FFFF_FFFFint;
            assert(0xFFFF_FFFF_FFFF_FFFFint * 0xFFFF_FFFF_FFFF_FFFFint <= u128::MAX);
        }
        (n as u128) * ((n - 1) as u128)
    } else {
        0
    }
}

/// The vertices of all partitions, in order.
pub open spec fn all_vertices(parts: Seq<PartitionResult>) -> Seq<VertexId>
    decreases parts.len(),
{
    if parts.len() == 0 {
        Seq::empty()
    } else {
        all_vertices(parts.drop_last()) + parts.last().vertices_in_range@
    }
}

/// The connections of all partitions, in order.
pub open spec fn all_conns(parts: Seq<PartitionResult>) -> Seq<(VertexId, Seq<VertexId>)>
    decreases parts.len(),
{
    if parts.len() == 0 {
        Seq::empty()
    } else {
        all_conns(parts.drop_last()) + conn_view(parts.last().neighbor_connections@)
    }
}

/// The edges traversed by all partitions.
pub open spec fn sum_edges(parts: Seq<PartitionResult>) -> nat
    decreases parts.len(),
{
    if parts.len() == 0 {
        0
    } else {
        sum_edges(parts.drop_last()) + parts.last().total_edges_in_range as nat
    }
}

/// The ids with each run of repeats collapsed to one.
pub open spec fn dedup_runs(s: Seq<VertexId>) -> Seq<VertexId>
    decreases s.len(),
{
    if s.len() == 0 {
        Seq::empty()
    } else if s.len() > 1 && s[s.len() - 2] == s.last() {
        dedup_runs(s.drop_last())
    } else {
        dedup_runs(s.drop_last()).push(s.last())
    }
}

/// Every partition found `v`.
pub open spec fn found_in_all(parts: Seq<PartitionResult>, v: VertexId) -> bool {
    forall|k: int| 0 <= k < parts.len() ==> (#[trigger] parts[k]).vertices_in_range@.contains(v)
}

/// The merged vertices, by strategy: sorted by id, each once; concatenated
/// with runs of repeats collapsed; each vertex some partition found, once;
/// each vertex every partition found, once (none where there are no
/// partitions).
pub open spec fn merged_vertices_ok(strategy: MergeStrategy, parts: Seq<PartitionResult>, r: Seq<VertexId>) -> bool {
    match strategy {
        MergeStrategy::OrderedMerge => strictly_sorted(r) && forall|v: VertexId|
            #[trigger] r.contains(v) <==> all_vertices(parts).contains(v),
        MergeStrategy::UnorderedUnion => r == dedup_runs(all_vertices(parts)),
        MergeStrategy::SetUnion => distinct_ids(r) && forall|v: VertexId|
            #[trigger] r.contains(v) <==> all_vertices(parts).contains(v),
        MergeStrategy::SetIntersection => distinct_ids(r) && forall|v: VertexId|
            #[trigger] r.contains(v) <==> (parts.len() > 0 && found_in_all(parts, v)),
    }
}

/// The merged connections, sorted by source and each neighbour list sorted
/// and without repeats: for set intersection, from each merged vertex to the
/// merged vertices some partition connects it to (a source only where it has
/// one); otherwise from each source to every neighbour any partition lists.
pub open spec fn merged_conns_ok(strategy: MergeStrategy, parts: Seq<PartitionResult>, vs: Seq<VertexId>, c: Seq<(VertexId, Seq<VertexId>)>) -> bool {
    let f = all_conns(parts);
    &&& conns_wf(c)
    &&& if strategy == MergeStrategy::SetIntersection {
        &&& forall|s: VertexId| #[trigger] src_in(c, s) <==> (vs.contains(s) && exists|t: VertexId| vs.contains(t) && link_in(f, s, t))
        &&& forall|s: VertexId, t: VertexId| #[trigger] link_in(c, s, t) <==> (vs.contains(s) && vs.contains(t) && link_in(f, s, t))
    } else {
        &&& forall|s: VertexId| #[trigger] src_in(c, s) <==> src_in(f, s)
        &&& forall|s: VertexId, t: VertexId| #[trigger] link_in(c, s, t) <==> link_in(f, s, t)
    }
}

proof fn lemma_sum_edges_prefix(parts: Seq<PartitionResult>, i: int)
    requires
        0 <= i <= parts.len(),
    ensures
        sum_edges(parts.take(i)) <= sum_edges(parts),
    decreases parts.len() - i,
{
    if i < parts.len() {
        lemma_sum_edges_prefix(parts, i + 1);
        assert(parts.take(i + 1).drop_last() =~= parts.take(i));
    } else {
        assert(parts.take(i) =~= parts);
    }
}

/// The vertices and the connections of all partitions, flattened.
fn flatten(parts: &Vec<PartitionResult>) -> (r: (Vec<VertexId>, Vec<(VertexId, Vec<VertexId>)>))
    ensures
        r.0@ == all_vertices(parts@),
        conn_view(r.1@) == all_conns(parts@),
{
    let mut vs: Vec<VertexId> = Vec::new();
    let mut cs: Vec<(VertexId, Vec<VertexId>)> = Vec::new();
    let mut k: usize = 0;
    while k < parts.len()
        invariant
            k <= parts@.len(),
            vs@ == all_vertices(parts@.take(k as int)),
            conn_view(cs@) == all_conns(parts@.take(k as int)),
        decreases parts@.len() - k,
    {
        let part = &parts[k];
        let ghost vs0 = vs@;
        let ghost cs0 = conn_view(cs@);
        let mut j: usize = 0;
        while j < part.vertices_in_range.len()
            invariant
                j <= part.vertices_in_range@.len(),
                vs@ == vs0 + part.vertices_in_range@.take(j as int),
            decreases part.vertices_in_range@.len() - j,
        {
            vs.push(part.vertices_in_range[j]);
            j = j + 1;
            assert(vs@ =~= vs0 + part.vertices_in_range@.take(j as int));
        }
        let mut j: usize = 0;
        while j < part.neighbor_connections.len()
            invariant
                j <= part.neighbor_connections@.len(),
                conn_view(cs@) == cs0 + conn_view(part.neighbor_connections@).take(j as int),
            decreases part.neighbor_connections@.len() - j,
        {
            let src = part.neighbor_connections[j].0;
            let ns = copy_ids(&part.neighbor_connections[j].1);
            let ghost before = cs@;
            cs.push((src, ns));
            j = j + 1;
            proof {
                assert(conn_view(cs@) =~= conn_view(before).push((src, ns@)));
                assert(conn_view(part.neighbor_connections@).take(j as int) =~= conn_view(part.neighbor_connections@).take(j - 1).push((src, ns@)));
                assert(conn_view(cs@) =~= cs0 + conn_view(part.neighbor_connections@).take(j as int));
            }
        }
        proof {
            let t = parts@.take(k + 1);
            assert(t.drop_last() =~= parts@.take(k as int));
            assert(t.last() == parts@[k as int]);
            assert(part.vertices_in_range@.take(part.vertices_in_range@.len() as int) =~= part.vertices_in_range@);
            assert(conn_view(part.neighbor_connections@).take(part.neighbor_connections@.len() as int) =~= conn_view(part.neighbor_connections@));
        }
        k = k + 1;
    }
    proof {
        assert(parts@.take(parts@.len() as int) =~= parts@);
    }
    (vs, cs)
}


/// The ids sorted, each once.
fn sorted_distinct(fv: &Vec<VertexId>) -> (r: Vec<VertexId>)
    ensures
        strictly_sorted(r@),
        forall|v: VertexId| #[trigger] r@.contains(v) <==> fv@.contains(v),
{
    let mut r: Vec<VertexId> = Vec::new();
    let mut i: usize = 0;
    while i < fv.len()
        invariant
            i <= fv@.len(),
            strictly_sorted(r@),
            forall|v: VertexId| #[trigger] r@.contains(v) <==> fv@.take(i as int).contains(v),
        decreases fv@.len() - i,
    {
        let x = fv[i];
        sorted_insert(&mut r, x);
        proof {
            lemma_take_push(fv@, i as int);
        }
        i = i + 1;
    }
    proof {
        assert(fv@.take(fv@.len() as int) =~= fv@);
    }
    r
}

/// `s.take(i + 1)` holds what `s.take(i)` holds and `s[i]`.
proof fn lemma_take_push(s: Seq<VertexId>, i: int)
    requires
        0 <= i < s.len(),
    ensures
        forall|v: VertexId| #[trigger] s.take(i + 1).contains(v) <==> (s.take(i).contains(v) || v == s[i]),
{
    let t1 = s.take(i + 1);
    let t0 = s.take(i);
    assert forall|v: VertexId| #[trigger] t1.contains(v) <==> (t0.contains(v) || v == s[i]) by {
        if t1.contains(v) {
            let k = choose|k: int| 0 <= k < t1.len() && t1[k] == v;
            if k < i {
                assert(t0[k] == v);
            }
        }
        if t0.contains(v) {
            let k = choose|k: int| 0 <= k < t0.len() && t0[k] == v;
            assert(t1[k] == v);
        }
        if v == s[i] {
            assert(t1[i] == v);
        }
    }
}

/// The ids with runs of repeats collapsed.
fn collapse_runs(fv: &Vec<VertexId>) -> (r: Vec<VertexId>)
    ensures
        r@ == dedup_runs(fv@),
{
    let mut r: Vec<VertexId> = Vec::new();
    let mut i: usize = 0;
    while i < fv.len()
        invariant
            i <= fv@.len(),
            r@ == dedup_runs(fv@.take(i as int)),
        decreases fv@.len() - i,
    {
        let x = fv[i];
        proof {
            let t = fv@.take(i + 1);
            assert(t.drop_last() =~= fv@.take(i as int));
            assert(t.last() == x);
            if i > 0 {
                assert(t[t.len() - 2] == fv@[i - 1]);
            }
        }
        if i == 0 || fv[i - 1] != x {
            r.push(x);
        }
        i = i + 1;
    }
    proof {
        assert(fv@.take(fv@.len() as int) =~= fv@);
    }
    r
}

/// The ids, each once, in the order they first occur.
fn first_occurrences(fv: &Vec<VertexId>) -> (r: Vec<VertexId>)
    ensures
        distinct_ids(r@),
        forall|v: VertexId| #[trigger] r@.contains(v) <==> fv@.contains(v),
{
    let mut r: Vec<VertexId> = Vec::new();
    let mut i: usize = 0;
    while i < fv.len()
        invariant
            i <= fv@.len(),
            distinct_ids(r@),
            forall|v: VertexId| #[trigger] r@.contains(v) <==> fv@.take(i as int).contains(v),
        decreases fv@.len() - i,
    {
        let x = fv[i];
        let ghost before = r@;
        if !holds(&r, x) {
            r.push(x);
            proof {
                assert forall|a: int, b: int| 0 <= a < b < r@.len() implies #[trigger] r@[a] != #[trigger] r@[b] by {
                    if b == r@.len() - 1 {
                        assert(before[a] == r@[a]);
                        assert(before.contains(r@[a]));
                    }
                }
                assert forall|v: VertexId| #[trigger] r@.contains(v) <==> (before.contains(v) || v == x) by {
                    if r@.contains(v) {
                        let k = choose|k: int| 0 <= k < r@.len() && r@[k] == v;
                        if k < before.len() {
                            assert(before[k] == v);
                        }
                    }
                    if before.contains(v) {
                        let k = choose|k: int| 0 <= k < before.len() && before[k] == v;
                        assert(r@[k] == v);
                    }
                    if v == x {
                        assert(r@[r@.len() - 1] == v);
                    }
                }
            }
        }
        proof {
            lemma_take_push(fv@, i as int);
        }
        i = i + 1;
    }
    proof {
        assert(fv@.take(fv@.len() as int) =~= fv@);
    }
    r
}

/// Whether every partition found `v`.
fn in_every_part(parts: &Vec<PartitionResult>, v: VertexId) -> (r: bool)
    ensures
        r == found_in_all(parts@, v),
{
    let mut k: usize = 0;
    while k < parts.len()
        invariant
            k <= parts@.len(),
            forall|j: int| 0 <= j < k ==> (#[trigger] parts@[j]).vertices_in_range@.contains(v),
        decreases parts@.len() - k,
    {
        if !holds(&parts[k].vertices_in_range, v) {
            return false;
        }
        k = k + 1;
    }
    true
}

/// The vertices every partition found, each once.
fn common_vertices(parts: &Vec<PartitionResult>) -> (r: Vec<VertexId>)
    ensures
        distinct_ids(r@),
        forall|v: VertexId| #[trigger] r@.contains(v) <==> (parts@.len() > 0 && found_in_all(parts@, v)),
{
    if parts.len() == 0 {
        return Vec::new();
    }
    let first = &parts[0].vertices_in_range;
    let mut r: Vec<VertexId> = Vec::new();
    let mut i: usize = 0;
    while i < first.len()
        invariant
            parts@.len() > 0,
            *first == parts@[0].vertices_in_range,
            i <= first@.len(),
            distinct_ids(r@),
            forall|v: VertexId| #[trigger] r@.contains(v) <==> (first@.take(i as int).contains(v) && found_in_all(parts@, v)),
        decreases first@.len() - i,
    {
        let x = first[i];
        let ghost before = r@;
        let present = holds(&r, x);
        let every = in_every_part(parts, x);
        if !present && every {
            r.push(x);
            proof {
                assert forall|a: int, b: int| 0 <= a < b < r@.len() implies #[trigger] r@[a] != #[trigger] r@[b] by {
                    if b == r@.len() - 1 {
                        assert(before[a] == r@[a]);
                        assert(before.contains(r@[a]));
                    }
                }
            }
        }
        proof {
            lemma_take_push(first@, i as int);
            assert forall|v: VertexId| #[trigger] r@.contains(v) <==> (first@.take(i + 1).contains(v) && found_in_all(parts@, v)) by {
                if r@.contains(v) {
                    let k = choose|k: int| 0 <= k < r@.len() && r@[k] == v;
                    if k < before.len() {
                        assert(before[k] == v);
                    }
                }
                if before.contains(v) {
                    let k = choose|k: int| 0 <= k < before.len() && before[k] == v;
                    assert(r@[k] == v);
                }
                if v == x && found_in_all(parts@, v) {
                    if !present {
                        assert(r@[r@.len() - 1] == v);
                    }
                }
                if r@.contains(v) && !before.contains(v) {
                    assert(v == x);
                }
            }
        }
        i = i + 1;
    }
    proof {
        assert(first@.take(first@.len() as int) =~= first@);
        assert forall|v: VertexId| found_in_all(parts@, v) implies first@.contains(v) by {
            assert(parts@[0].vertices_in_range@.contains(v));
        }
    }
    r
}


/// The connections of a prefix: those of `f.take(i)`, and the one at `i`.
proof fn lemma_conn_prefix(f: Seq<(VertexId, Seq<VertexId>)>, i: int)
    requires
        0 <= i < f.len(),
    ensures
        forall|s: VertexId| #[trigger] src_in(f.take(i + 1), s) <==> (src_in(f.take(i), s) || s == f[i].0),
        forall|s: VertexId, t: VertexId|
            #[trigger] link_in(f.take(i + 1), s, t) <==> (link_in(f.take(i), s, t) || (s == f[i].0 && f[i].1.contains(t))),
{
    let t1 = f.take(i + 1);
    let t0 = f.take(i);
    assert forall|s: VertexId| #[trigger] src_in(t1, s) <==> (src_in(t0, s) || s == f[i].0) by {
        if src_in(t1, s) {
            let k = choose|k: int| 0 <= k < t1.len() && (#[trigger] t1[k]).0 == s;
            if k < i {
                assert(t0[k].0 == s);
            }
        }
        if src_in(t0, s) {
            let k = choose|k: int| 0 <= k < t0.len() && (#[trigger] t0[k]).0 == s;
            assert(t1[k].0 == s);
        }
        if s == f[i].0 {
            assert(t1[i].0 == s);
        }
    }
    assert forall|s: VertexId, t: VertexId|
        #[trigger] link_in(t1, s, t) <==> (link_in(t0, s, t) || (s == f[i].0 && f[i].1.contains(t))) by {
        if link_in(t1, s, t) {
            let k = choose|k: int| 0 <= k < t1.len() && (#[trigger] t1[k]).0 == s && t1[k].1.contains(t);
            if k < i {
                assert(t0[k].0 == s && t0[k].1.contains(t));
            }
        }
        if link_in(t0, s, t) {
            let k = choose|k: int| 0 <= k < t0.len() && (#[trigger] t0[k]).0 == s && t0[k].1.contains(t);
            assert(t1[k].0 == s && t1[k].1.contains(t));
        }
        if s == f[i].0 && f[i].1.contains(t) {
            assert(t1[i].0 == s && t1[i].1.contains(t));
        }
    }
}

/// All connections merged: one entry per source, listing every neighbour any
/// connection from it lists.
fn merge_connections(fc: &Vec<(VertexId, Vec<VertexId>)>) -> (r: Vec<(VertexId, Vec<VertexId>)>)
    ensures
        conns_wf(conn_view(r@)),
        forall|s: VertexId| #[trigger] src_in(conn_view(r@), s) <==> src_in(conn_view(fc@), s),
        forall|s: VertexId, t: VertexId| #[trigger] link_in(conn_view(r@), s, t) <==> link_in(conn_view(fc@), s, t),
{
    let ghost f = conn_view(fc@);
    let mut r: Vec<(VertexId, Vec<VertexId>)> = Vec::new();
    let mut i: usize = 0;
    proof {
        assert(conn_view(r@) =~= Seq::<(VertexId, Seq<VertexId>)>::empty());
    }
    while i < fc.len()
        invariant
            i <= fc@.len(),
            f == conn_view(fc@),
            conns_wf(conn_view(r@)),
            forall|s: VertexId| #[trigger] src_in(conn_view(r@), s) <==> src_in(f.take(i as int), s),
            forall|s: VertexId, t: VertexId| #[trigger] link_in(conn_view(r@), s, t) <==> link_in(f.take(i as int), s, t),
        decreases fc@.len() - i,
    {
        let src = fc[i].0;
        add_connection(&mut r, src, &fc[i].1);
        proof {
            assert(f[i as int] == (fc@[i as int].0, fc@[i as int].1@));
            lemma_conn_prefix(f, i as int);
        }
        i = i + 1;
    }
    proof {
        assert(f.take(fc@.len() as int) =~= f);
    }
    r
}

/// The connections between the vertices of `vs`: one entry per source in
/// `vs` that some connection links to a vertex of `vs`, listing those
/// vertices.
fn merge_connections_within(fc: &Vec<(VertexId, Vec<VertexId>)>, vs: &Vec<VertexId>) -> (r: Vec<(VertexId, Vec<VertexId>)>)
    ensures
        conns_wf(conn_view(r@)),
        forall|s: VertexId| #[trigger] src_in(conn_view(r@), s) <==> (vs@.contains(s) && exists|t: VertexId| vs@.contains(t) && link_in(conn_view(fc@), s, t)),
        forall|s: VertexId, t: VertexId|
            #[trigger] link_in(conn_view(r@), s, t) <==> (vs@.contains(s) && vs@.contains(t) && link_in(conn_view(fc@), s, t)),
{
    let ghost f = conn_view(fc@);
    let mut r: Vec<(VertexId, Vec<VertexId>)> = Vec::new();
    let mut i: usize = 0;
    proof {
        assert(conn_view(r@) =~= Seq::<(VertexId, Seq<VertexId>)>::empty());
    }
    while i < fc.len()
        invariant
            i <= fc@.len(),
            f == conn_view(fc@),
            conns_wf(conn_view(r@)),
            forall|s: VertexId| #[trigger] src_in(conn_view(r@), s) <==> (vs@.contains(s) && exists|t: VertexId| vs@.contains(t) && link_in(f.take(i as int), s, t)),
            forall|s: VertexId, t: VertexId|
                #[trigger] link_in(conn_view(r@), s, t) <==> (vs@.contains(s) && vs@.contains(t) && link_in(f.take(i as int), s, t)),
        decreases fc@.len() - i,
    {
        let src = fc[i].0;
        let ghost r0 = conn_view(r@);
        proof {
            assert(f[i as int] == (fc@[i as int].0, fc@[i as int].1@));
            lemma_conn_prefix(f, i as int);
        }
        if holds(vs, src) {
            let kept = kept_ids(&fc[i].1, vs);
            if kept.len() > 0 {
                add_connection(&mut r, src, &kept);
                proof {
                    let t0 = kept@[0];
                    assert(kept@.contains(t0));
                    assert(link_in(f.take(i + 1), src, t0));
                }
            } else {
                proof {
                    assert forall|t: VertexId| !(vs@.contains(t) && f[i as int].1.contains(t)) by {
                        if vs@.contains(t) && f[i as int].1.contains(t) {
                            assert(kept@.contains(t));
                        }
                    }
                }
            }
        }
        proof {
            let nv = conn_view(r@);
            assert forall|s: VertexId| #[trigger] src_in(nv, s) <==> (vs@.contains(s) && exists|t: VertexId| vs@.contains(t) && link_in(f.take(i + 1), s, t)) by {
                if vs@.contains(s) && exists|t: VertexId| vs@.contains(t) && link_in(f.take(i + 1), s, t) {
                    let t = choose|t: VertexId| vs@.contains(t) && link_in(f.take(i + 1), s, t);
                    if !link_in(f.take(i as int), s, t) {
                        assert(s == src && f[i as int].1.contains(t));
                    } else {
                        assert(src_in(r0, s));
                    }
                }
                if src_in(nv, s) && !src_in(r0, s) {
                    assert(s == src);
                }
                if src_in(r0, s) {
                    let t = choose|t: VertexId| vs@.contains(t) && link_in(f.take(i as int), s, t);
                    assert(link_in(f.take(i + 1), s, t));
                }
            }
        }
        i = i + 1;
    }
    proof {
        assert(f.take(fc@.len() as int) =~= f);
    }
    r
}

/// Merges the results of range partitions by `merge_strategy`: the vertices
/// as [`merged_vertices_ok`] says, the connections as [`merged_conns_ok`]
/// says, the edges traversed summed, and the subgraph density as the number
/// of merged connections over the number of ordered pairs of merged
/// vertices.
pub fn merge_partition_results(partition_results: Vec<PartitionResult>, merge_strategy: &MergeStrategy) -> (r: RangeQueryResult)
    requires
        sum_edges(partition_results@) <= usize::MAX,
    ensures
        merged_vertices_ok(*merge_strategy, partition_results@, r.vertices_in_range@),
        merged_conns_ok(*merge_strategy, partition_results@, r.vertices_in_range@, conn_view(r.neighbor_connections@)),
        r.total_edges_in_range == sum_edges(partition_results@),
        r.density_numerator == r.neighbor_connections@.len(),
        r.possible_edges == vertex_pairs(r.vertices_in_range@.len()),
{
    let parts = &partition_results;
    let (fv, fc) = flatten(parts);
    let mut total: usize = 0;
    let mut k: usize = 0;
    while k < parts.len()
        invariant
            k <= parts@.len(),
            sum_edges(parts@) <= usize::MAX,
            total == sum_edges(parts@.take(k as int)),
        decreases parts@.len() - k,
    {
        proof {
            let t = parts@.take(k + 1);
            assert(t.drop_last() =~= parts@.take(k as int));
            assert(t.last() == parts@[k as int]);
            lemma_sum_edges_prefix(parts@, k + 1);
        }
        total = total + parts[k].total_edges_in_range;
        k = k + 1;
    }
    proof {
        assert(parts@.take(parts@.len() as int) =~= parts@);
    }
    let vertices = match merge_strategy {
        MergeStrategy::OrderedMerge => sorted_distinct(&fv),
        MergeStrategy::UnorderedUnion => collapse_runs(&fv),
        MergeStrategy::SetUnion => first_occurrences(&fv),
        MergeStrategy::SetIntersection => common_vertices(parts),
    };
    let connections = match merge_strategy {
        MergeStrategy::SetIntersection => merge_connections_within(&fc, &vertices),
        _ => merge_connections(&fc),
    };
    let possible_edges = pair_count(vertices.len());
    let density_numerator = connections.len();
    RangeQueryResult {
        vertices_in_range: vertices,
        neighbor_connections: connections,
        total_edges_in_range: total,
        density_numerator,
        possible_edges,
    }
}

} // verus!
