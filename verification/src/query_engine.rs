//! Graph queries over the adjacency store: breadth-first search, with and
//! without a preferred id range, depth-first search, the vertices within k
//! hops, and range queries.
use crate::clock::{
    check_deadline, elapsed_millis, instant_now, lemma_within_concat, lemma_within_push, over_limit, ran_within, stopped, stopped_before, within_readings,
};
use crate::components::{
    comp_views, covered, distinct_vertices, group_by_label, is_components, join, lemma_groups_are_components,
    lemma_labels_reach, lemma_labels_start, number_in, own_labels, pair_ok, reachable, search_state,
};
use crate::error::{AsterError, ErrorKind};
use crate::graph::{id_range, Graph};
use crate::gremlin::engine::bump_exec;
use crate::gremlin::semantics::bump;
use crate::query::{AggregationFunction, QueryContext, QueryPredicate, QueryProjection, QueryResultSet, QueryStats};
use crate::traversal::{answer_view, answer_views, bfs_core, bfs_core_ok, bfs_run};
use crate::text::{chars_of, concat_vec, decimal, string_from_chars, u64_to_chars};
use crate::optimizer::{conn_view, pair_count, vertex_pairs, RangeQueryResult};
use crate::paths::{
    expanded, found_within, is_route, is_shortest, lemma_expanded_grow, lemma_found_reached, lemma_route_found, reaches, route_back,
    search_tree,
};
use crate::sorting::{key_insert_pos, lemma_key_insert_pos_bounds, stable_sort};
use crate::types::{FloatValue, PropValue, Properties, PropertyValue, VertexId};
use std::collections::HashSet;
use vstd::prelude::*;

verus! {

/// The answers a graph gives to the lookups of `asked`: each vertex's
/// neighbours as `nb` lists them.
pub open spec fn graph_answers(nb: spec_fn(VertexId) -> Seq<VertexId>, asked: Seq<VertexId>) -> Seq<
    Result<Seq<VertexId>, (ErrorKind, Seq<char>)>,
> {
    asked.map_values(|v: VertexId| Ok::<Seq<VertexId>, (ErrorKind, Seq<char>)>(nb(v)))
}

/// The neighbours of each vertex of a graph, in stored order.
pub open spec fn graph_nb(g: Graph) -> spec_fn(VertexId) -> Seq<VertexId> {
    |v: VertexId| g.spec_storage().spec_neighbors(v)
}

/// The neighbours in the order a search queues them: stored order, or with
/// those in the range first.
pub open spec fn search_nb(g: Graph, range: Option<(VertexId, VertexId)>) -> spec_fn(VertexId) -> Seq<VertexId> {
    match range {
        Some(lh) => |v: VertexId| range_first(g.spec_storage().spec_neighbors(v), lh.0, lh.1),
        None => graph_nb(g),
    }
}

/// What a search gives: on success, the outcome of breadth-first search
/// where each lookup answered the neighbours in search order, with
/// statistics counting the vertices output and the neighbours looked up; on
/// failure, a timeout with the given text, which needs a timeout.
pub open spec fn search_outcome(
    g: Graph,
    start: VertexId,
    context: QueryContext,
    range: Option<(VertexId, VertexId)>,
    msg: Seq<char>,
    r: Result<(Vec<VertexId>, QueryStats), AsterError>,
) -> bool {
    match r {
        Ok((out, stats)) => exists|asked: Seq<VertexId>|
            {
                &&& bfs_run(
                    seq![(start, 0nat)],
                    set![start.id],
                    Seq::empty(),
                    depth_limit(context),
                    graph_answers(search_nb(g, range), asked),
                ) == Some::<(Result<Seq<VertexId>, (ErrorKind, Seq<char>)>, Seq<VertexId>)>((Ok(out@), asked))
                &&& stats.vertices_visited == out@.len()
                &&& stats.edges_traversed == degree_total(graph_nb(g), asked)
                &&& stats.cache_hits == 0
                &&& stats.cache_misses == 0
            },
        Err(e) => e.spec_kind() == ErrorKind::Timeout && e.spec_text() == msg,
    }
}

/// The answers of the lookups of `asked` where the clock read `rs[i]` just
/// before lookup `i`: a reading past the limit gives the timeout with text
/// `msg`, any other the vertex's neighbours as `nb` lists them.
pub open spec fn timed_answers(
    nb: spec_fn(VertexId) -> Seq<VertexId>,
    asked: Seq<VertexId>,
    rs: Seq<u128>,
    limit_ms: Option<u64>,
    msg: Seq<char>,
) -> Seq<Result<Seq<VertexId>, (ErrorKind, Seq<char>)>> {
    Seq::new(
        asked.len(),
        |i: int|
            if over_limit(rs[i], limit_ms) {
                Err::<Seq<VertexId>, (ErrorKind, Seq<char>)>((ErrorKind::Timeout, msg))
            } else {
                Ok::<Seq<VertexId>, (ErrorKind, Seq<char>)>(nb(asked[i]))
            },
    )
}

/// A search's outcome as the vertices found or the error's kind and text.
pub open spec fn search_view(r: Result<(Vec<VertexId>, QueryStats), AsterError>) -> Result<Seq<VertexId>, (ErrorKind, Seq<char>)> {
    match r {
        Ok((out, _)) => Ok(out@),
        Err(e) => Err((e.spec_kind(), e.spec_text())),
    }
}

/// How a search went where each reading of its clock is one that
/// `readable` admits: it read the clock just before each lookup, and its
/// outcome is that of breadth-first search where each lookup answered as its
/// reading gives (`timed_answers`), so that it went through when every
/// reading was within the context's limit and stopped at the first reading
/// past it.
pub open spec fn search_timed(
    g: Graph,
    start: VertexId,
    context: QueryContext,
    range: Option<(VertexId, VertexId)>,
    msg: Seq<char>,
    readable: spec_fn(u128) -> bool,
    r: Result<(Vec<VertexId>, QueryStats), AsterError>,
) -> bool {
    exists|asked: Seq<VertexId>, rs: Seq<u128>|
        #![trigger timed_answers(search_nb(g, range), asked, rs, context.timeout_ms, msg)]
        {
            &&& rs.len() == asked.len()
            &&& forall|i: int| 0 <= i < rs.len() ==> #[trigger] readable(rs[i])
            &&& bfs_run(
                seq![(start, 0nat)],
                set![start.id],
                Seq::empty(),
                depth_limit(context),
                timed_answers(search_nb(g, range), asked, rs, context.timeout_ms, msg),
            ) == Some::<(Result<Seq<VertexId>, (ErrorKind, Seq<char>)>, Seq<VertexId>)>((search_view(r), asked))
        }
}

/// A timed search that failed took a reading past the limit, so there is a
/// limit.
proof fn lemma_timed_failure_is_late(
    g: Graph,
    start: VertexId,
    context: QueryContext,
    range: Option<(VertexId, VertexId)>,
    msg: Seq<char>,
    r: Result<(Vec<VertexId>, QueryStats), AsterError>,
)
    requires
        search_timed(g, start, context, range, msg, |t: u128| true, r),
        r is Err,
    ensures
        exists|t: u128| #[trigger] over_limit(t, context.timeout_ms),
{
    let (asked, rs) = choose|asked: Seq<VertexId>, rs: Seq<u128>|
        #![trigger timed_answers(search_nb(g, range), asked, rs, context.timeout_ms, msg)]
        {
            &&& rs.len() == asked.len()
            &&& forall|i: int| 0 <= i < rs.len() ==> (|t: u128| true)(#[trigger] rs[i])
            &&& bfs_run(
                seq![(start, 0nat)],
                set![start.id],
                Seq::empty(),
                depth_limit(context),
                timed_answers(search_nb(g, range), asked, rs, context.timeout_ms, msg),
            ) == Some::<(Result<Seq<VertexId>, (ErrorKind, Seq<char>)>, Seq<VertexId>)>((search_view(r), asked))
        };
    let ta = timed_answers(search_nb(g, range), asked, rs, context.timeout_ms, msg);
    lemma_err_run_from_answer(seq![(start, 0nat)], set![start.id], Seq::empty(), depth_limit(context), ta);
    let n = ta.len() - 1;
    assert(ta[n] is Err);
    assert(over_limit(rs[n], context.timeout_ms));
}

/// The neighbours of the vertices looked up, counted together (wrapping
/// around as the statistics counters do).
pub open spec fn degree_total(nb: spec_fn(VertexId) -> Seq<VertexId>, asked: Seq<VertexId>) -> usize
    decreases asked.len(),
{
    if asked.len() == 0 {
        0
    } else {
        bump(degree_total(nb, asked.drop_last()), nb(asked.last()).len())
    }
}

/// The depth limit of a context; without one the search goes as deep as a
/// `usize` counts.
pub open spec fn depth_limit(context: QueryContext) -> nat {
    match context.max_depth {
        Some(d) => d as nat,
        None => usize::MAX as nat,
    }
}

/// `v` lies in the id range `lo..=hi`.
pub open spec fn in_range(v: VertexId, lo: VertexId, hi: VertexId) -> bool {
    lo.id <= v.id <= hi.id
}

/// The neighbours in the range `lo..=hi` first, then the others, each part
/// in stored order.
pub open spec fn range_first(ns: Seq<VertexId>, lo: VertexId, hi: VertexId) -> Seq<VertexId> {
    ns.filter(|v: VertexId| in_range(v, lo, hi)) + ns.filter(|v: VertexId| !in_range(v, lo, hi))
}

/// A search whose outcome is a success looked up nothing that failed.
proof fn lemma_ok_run_answers_ok(
    queue: Seq<(VertexId, nat)>,
    seen: Set<u64>,
    out: Seq<VertexId>,
    max_depth: nat,
    answers: Seq<Result<Seq<VertexId>, (ErrorKind, Seq<char>)>>,
)
    requires
        bfs_run(queue, seen, out, max_depth, answers) matches Some(ra) && ra.0 is Ok,
    ensures
        forall|i: int| 0 <= i < answers.len() ==> (#[trigger] answers[i]) is Ok,
    decreases answers.len(), queue.len(),
{
    if queue.len() > 0 {
        let v = queue[0].0;
        let d = queue[0].1;
        if d < max_depth {
            match answers[0] {
                Ok(ns) => {
                    let qs = crate::traversal::enqueue(queue.drop_first(), seen, ns, d + 1);
                    lemma_ok_run_answers_ok(qs.0, qs.1, out.push(v), max_depth, answers.drop_first());
                    assert forall|i: int| 0 <= i < answers.len() implies (#[trigger] answers[i]) is Ok by {
                        if i > 0 {
                            assert(answers[i] == answers.drop_first()[i - 1]);
                        }
                    }
                },
                Err(_) => {},
            }
        } else {
            lemma_ok_run_answers_ok(queue.drop_first(), seen, out.push(v), max_depth, answers);
        }
    }
}

/// The outcome of a finished search.
pub open spec fn run_result(o: Option<(Result<Seq<VertexId>, (ErrorKind, Seq<char>)>, Seq<VertexId>)>) -> Result<
    Seq<VertexId>,
    (ErrorKind, Seq<char>),
> {
    o.unwrap().0
}

/// A search that fails, fails with the error of one of the lookups.
proof fn lemma_err_run_from_answer(
    queue: Seq<(VertexId, nat)>,
    seen: Set<u64>,
    out: Seq<VertexId>,
    max_depth: nat,
    answers: Seq<Result<Seq<VertexId>, (ErrorKind, Seq<char>)>>,
)
    requires
        bfs_run(queue, seen, out, max_depth, answers) matches Some(ra) && ra.0 is Err,
    ensures
        answers.len() > 0,
        answers.last() == run_result(bfs_run(queue, seen, out, max_depth, answers)),
        forall|i: int| 0 <= i < answers.len() - 1 ==> (#[trigger] answers[i]) is Ok,
    decreases answers.len(), queue.len(),
{
    let ra = bfs_run(queue, seen, out, max_depth, answers).unwrap();
    if queue.len() > 0 {
        let v = queue[0].0;
        let d = queue[0].1;
        if d < max_depth {
            match answers[0] {
                Ok(ns) => {
                    let qs = crate::traversal::enqueue(queue.drop_first(), seen, ns, d + 1);
                    lemma_err_run_from_answer(qs.0, qs.1, out.push(v), max_depth, answers.drop_first());
                    let rest = answers.drop_first();
                    assert(answers.last() == rest.last());
                    assert forall|i: int| 0 <= i < answers.len() - 1 implies (#[trigger] answers[i]) is Ok by {
                        if i > 0 {
                            assert(answers[i] == rest[i - 1]);
                        }
                    }
                },
                Err(_) => {
                    assert(answers[0] == ra.0);
                },
            }
        } else {
            lemma_err_run_from_answer(queue.drop_first(), seen, out.push(v), max_depth, answers);
        }
    }
}

/// The number of neighbours of the vertices of `asked`, counted together.
fn count_degrees(graph: &Graph, asked: &Vec<VertexId>) -> (r: usize)
    ensures
        r == degree_total(graph_nb(*graph), asked@),
{
    let ghost nb = graph_nb(*graph);
    let mut total: usize = 0;
    let mut i: usize = 0;
    while i < asked.len()
        invariant
            i <= asked@.len(),
            nb == graph_nb(*graph),
            total == degree_total(nb, asked@.take(i as int)),
        decreases asked@.len() - i,
    {
        let d = graph.get_degree(asked[i]);
        proof {
            let t = asked@.take(i + 1);
            assert(t.drop_last() =~= asked@.take(i as int));
            assert(t.last() == asked@[i as int]);
        }
        total = bump_exec(total, d);
        i = i + 1;
    }
    proof {
        assert(asked@.take(asked@.len() as int) =~= asked@);
    }
    total
}

/// The neighbours of `v` in the range `lo..=hi` first, then the others.
fn neighbors_range_first(graph: &Graph, v: VertexId, lo: VertexId, hi: VertexId) -> (r: Vec<VertexId>)
    ensures
        r@ == range_first(graph.spec_storage().spec_neighbors(v), lo, hi),
{
    let ns = graph.get_neighbors(v);
    let ghost p = |x: VertexId| in_range(x, lo, hi);
    let ghost q = |x: VertexId| !in_range(x, lo, hi);
    let mut inside: Vec<VertexId> = Vec::new();
    let mut outside: Vec<VertexId> = Vec::new();
    let mut i: usize = 0;
    while i < ns.len()
        invariant
            i <= ns@.len(),
            p == (|x: VertexId| in_range(x, lo, hi)),
            q == (|x: VertexId| !in_range(x, lo, hi)),
            inside@ == ns@.take(i as int).filter(p),
            outside@ == ns@.take(i as int).filter(q),
        decreases ns@.len() - i,
    {
        let x = ns[i];
        proof {
            let t = ns@.take(i + 1);
            assert(t.drop_last() =~= ns@.take(i as int));
            assert(t.last() == x);
            reveal_with_fuel(Seq::filter, 1);
        }
        if lo.id <= x.id && x.id <= hi.id {
            inside.push(x);
        } else {
            outside.push(x);
        }
        i = i + 1;
    }
    proof {
        assert(ns@.take(ns@.len() as int) =~= ns@);
    }
    let mut r = inside;
    let mut j: usize = 0;
    let ghost r0 = r@;
    while j < outside.len()
        invariant
            j <= outside@.len(),
            r@ == r0 + outside@.take(j as int),
        decreases outside@.len() - j,
    {
        r.push(outside[j]);
        j = j + 1;
        assert(r@ =~= r0 + outside@.take(j as int));
    }
    proof {
        assert(outside@.take(outside@.len() as int) =~= outside@);
    }
    r
}

/// The stack entries a vertex at depth `d - 1` pushes: its neighbours not
/// yet visited, last neighbour first, each at depth `d`.
pub open spec fn dfs_pushes(ns: Seq<VertexId>, visited: Set<u64>, d: nat) -> Seq<(VertexId, nat)>
    decreases ns.len(),
{
    if ns.len() == 0 {
        Seq::empty()
    } else {
        let rest = dfs_pushes(ns.drop_first(), visited, d);
        if visited.contains(ns[0].id) {
            rest
        } else {
            rest.push((ns[0], d))
        }
    }
}

/// Depth-first search from a state (the stack of vertices with their depth,
/// the ids visited, the output so far), where the lookups of neighbours
/// answer `answers` in turn. The top of the stack is popped; a visited vertex
/// is skipped; otherwise it is visited and output, and where its depth is
/// below `max_depth` its unvisited neighbours are pushed, last first, one
/// level deeper. Gives the output and the vertices looked up, in order;
/// `None` where the run does not consume exactly `answers`.
pub open spec fn dfs_run(
    stack: Seq<(VertexId, nat)>,
    visited: Set<u64>,
    out: Seq<VertexId>,
    max_depth: nat,
    answers: Seq<Seq<VertexId>>,
) -> Option<(Seq<VertexId>, Seq<VertexId>)>
    decreases answers.len(), stack.len(),
{
    if stack.len() == 0 {
        if answers.len() == 0 {
            Some((out, Seq::empty()))
        } else {
            None
        }
    } else {
        let v = stack.last().0;
        let d = stack.last().1;
        let rest = stack.drop_last();
        if visited.contains(v.id) {
            dfs_run(rest, visited, out, max_depth, answers)
        } else if d >= max_depth {
            dfs_run(rest, visited.insert(v.id), out.push(v), max_depth, answers)
        } else if answers.len() == 0 {
            None
        } else {
            let vis = visited.insert(v.id);
            match dfs_run(rest + dfs_pushes(answers[0], vis, d + 1), vis, out.push(v), max_depth, answers.drop_first()) {
                Some(ra) => Some((ra.0, seq![v] + ra.1)),
                None => None,
            }
        }
    }
}

/// A run's outcome with `asked` put in front of the vertices it looked up.
pub open spec fn dfs_after(asked: Seq<VertexId>, o: Option<(Seq<VertexId>, Seq<VertexId>)>) -> Option<(Seq<VertexId>, Seq<VertexId>)> {
    match o {
        Some(ra) => Some((ra.0, asked + ra.1)),
        None => None,
    }
}

/// The stack's entries with depths as numbers.
pub open spec fn stack_view(s: Seq<(VertexId, usize)>) -> Seq<(VertexId, nat)> {
    s.map_values(|p: (VertexId, usize)| (p.0, p.1 as nat))
}

/// The neighbours of the vertices, one list after another.
pub open spec fn concat_nbrs(nb: spec_fn(VertexId) -> Seq<VertexId>, vs: Seq<VertexId>) -> Seq<VertexId>
    decreases vs.len(),
{
    if vs.len() == 0 {
        Seq::empty()
    } else {
        concat_nbrs(nb, vs.drop_last()) + nb(vs.last())
    }
}

/// Each vertex once, where it first occurs.
pub open spec fn first_occurrence(s: Seq<VertexId>) -> Seq<VertexId>
    decreases s.len(),
{
    if s.len() == 0 {
        Seq::empty()
    } else if s.drop_last().contains(s.last()) {
        first_occurrence(s.drop_last())
    } else {
        first_occurrence(s.drop_last()).push(s.last())
    }
}

/// The hop levels up to hop `k`: level 0 is the start; each next level is
/// the neighbours of the one before, each once; after an empty level no
/// further level is formed.
pub open spec fn hop_levels(nb: spec_fn(VertexId) -> Seq<VertexId>, start: VertexId, k: nat) -> Seq<Seq<VertexId>>
    decreases k,
{
    if k == 0 {
        seq![seq![start]]
    } else {
        let prev = hop_levels(nb, start, (k - 1) as nat);
        if prev.last().len() == 0 {
            prev
        } else {
            prev.push(first_occurrence(concat_nbrs(nb, prev.last())))
        }
    }
}

/// The lookups made to form the hop levels up to hop `k`: one for each
/// vertex of each level before it.
pub open spec fn hop_lookups(nb: spec_fn(VertexId) -> Seq<VertexId>, start: VertexId, k: nat) -> nat
    decreases k,
{
    if k == 0 {
        0
    } else {
        hop_lookups(nb, start, (k - 1) as nat) + hop_levels(nb, start, (k - 1) as nat).last().len()
    }
}

/// The lookups up to a hop are no more than those up to a later hop.
proof fn lemma_hop_lookups_grow(nb: spec_fn(VertexId) -> Seq<VertexId>, start: VertexId, a: nat, b: nat)
    requires
        a <= b,
    ensures
        hop_lookups(nb, start, a) <= hop_lookups(nb, start, b),
    decreases b - a,
{
    if a < b {
        lemma_hop_lookups_grow(nb, start, a, (b - 1) as nat);
    }
}

/// The statistics of the hop levels up to hop `k`: the vertices of the
/// levels after the first, and the neighbours looked up to form them.
pub open spec fn hop_stats(nb: spec_fn(VertexId) -> Seq<VertexId>, start: VertexId, k: nat) -> (usize, usize)
    decreases k,
{
    if k == 0 {
        (0, 0)
    } else {
        let prev = hop_levels(nb, start, (k - 1) as nat);
        let st = hop_stats(nb, start, (k - 1) as nat);
        if prev.last().len() == 0 {
            st
        } else {
            let next = first_occurrence(concat_nbrs(nb, prev.last()));
            (bump(st.0, next.len()), add_degrees(st.1, nb, prev.last()))
        }
    }
}

/// `c` with the neighbours of the vertices added.
pub open spec fn add_degrees(c: usize, nb: spec_fn(VertexId) -> Seq<VertexId>, vs: Seq<VertexId>) -> usize
    decreases vs.len(),
{
    if vs.len() == 0 {
        c
    } else {
        bump(add_degrees(c, nb, vs.drop_last()), nb(vs.last()).len())
    }
}

proof fn lemma_hop_levels_nonempty(nb: spec_fn(VertexId) -> Seq<VertexId>, start: VertexId, k: nat)
    ensures
        hop_levels(nb, start, k).len() >= 1,
        hop_levels(nb, start, k).len() <= k + 1,
    decreases k,
{
    if k > 0 {
        lemma_hop_levels_nonempty(nb, start, (k - 1) as nat);
    }
}

/// After an empty hop the levels and statistics stay as they are.
proof fn lemma_hop_levels_stable(nb: spec_fn(VertexId) -> Seq<VertexId>, start: VertexId, h: nat, k: nat)
    requires
        h <= k,
        hop_levels(nb, start, h).last().len() == 0,
    ensures
        hop_levels(nb, start, k) == hop_levels(nb, start, h),
        hop_stats(nb, start, k) == hop_stats(nb, start, h),
        hop_lookups(nb, start, k) == hop_lookups(nb, start, h),
    decreases k - h,
{
    if h < k {
        lemma_hop_levels_stable(nb, start, h, (k - 1) as nat);
    }
}

/// The ids of `s`, each once, where it first occurs.
fn first_occurrence_exec(s: &Vec<VertexId>) -> (r: Vec<VertexId>)
    ensures
        r@ == first_occurrence(s@),
{
    let mut r: Vec<VertexId> = Vec::new();
    let mut i: usize = 0;
    while i < s.len()
        invariant
            i <= s@.len(),
            r@ == first_occurrence(s@.take(i as int)),
            forall|v: VertexId|
                #![trigger r@.contains(v)]
                #![trigger s@.take(i as int).contains(v)]
                r@.contains(v) <==> s@.take(i as int).contains(v),
        decreases s@.len() - i,
    {
        let x = s[i];
        let ghost before = r@;
        proof {
            let t = s@.take(i + 1);
            assert(t.drop_last() =~= s@.take(i as int));
            assert(t.last() == x);
            assert forall|v: VertexId| t.contains(v) <==> (s@.take(i as int).contains(v) || v == x) by {
                if t.contains(v) {
                    let k = choose|k: int| 0 <= k < t.len() && t[k] == v;
                    if k < i {
                        assert(s@.take(i as int)[k] == v);
                    }
                }
                if s@.take(i as int).contains(v) {
                    let k = choose|k: int| 0 <= k < i && s@.take(i as int)[k] == v;
                    assert(t[k] == v);
                }
                if v == x {
                    assert(t[i as int] == v);
                }
            }
        }
        if !contains_id(&r, x) {
            r.push(x);
            proof {
                assert forall|v: VertexId| r@.contains(v) <==> (before.contains(v) || v == x) by {
                    if r@.contains(v) {
                        let k = choose|k: int| 0 <= k < r@.len() && r@[k] == v;
                        if k < before.len() {
                            assert(before[k] == v);
                        }
                    }
                    if before.contains(v) {
                        let k = choose|k: int| 0 <= k < before.len() && before[k] == v;
                        assert(r@[k] == v);
                    }
                    if v == x {
                        assert(r@[r@.len() - 1] == v);
                    }
                }
            }
        }
        proof {
            let t = s@.take(i + 1);
            assert forall|v: VertexId| r@.contains(v) <==> t.contains(v) by {
                assert(t.contains(v) <==> (s@.take(i as int).contains(v) || v == x));
                assert(before.contains(v) <==> s@.take(i as int).contains(v));
            }
        }
        i = i + 1;
    }
    proof {
        assert(s@.take(s@.len() as int) =~= s@);
    }
    r
}

/// Whether `v` holds `x`.
fn contains_id(v: &Vec<VertexId>, x: VertexId) -> (r: bool)
    ensures
        r == v@.contains(x),
{
    let mut i: usize = 0;
    while i < v.len()
        invariant
            i <= v@.len(),
            forall|j: int| 0 <= j < i ==> v@[j] != x,
        decreases v@.len() - i,
    {
        if v[i] == x {
            return true;
        }
        i = i + 1;
    }
    false
}

/// The hop levels with their hop numbers.
pub open spec fn levels_view(v: Seq<(usize, Vec<VertexId>)>) -> Seq<Seq<VertexId>> {
    v.map_values(|p: (usize, Vec<VertexId>)| p.1@)
}

/// Whether a filter holds of vertex `v`. The property tests are not
/// evaluated: equality and existence hold, the other comparisons do not.
pub open spec fn q_holds(nb: spec_fn(VertexId) -> Seq<VertexId>, v: VertexId, p: QueryPredicate) -> bool
    decreases p,
{
    match p {
        QueryPredicate::PropertyEquals(_, _) => true,
        QueryPredicate::PropertyNotEquals(_, _) => false,
        QueryPredicate::PropertyGreaterThan(_, _) => false,
        QueryPredicate::PropertyLessThan(_, _) => false,
        QueryPredicate::PropertyExists(_) => true,
        QueryPredicate::VertexIdIn(ids) => ids@.contains(v),
        QueryPredicate::DegreeGreaterThan(t) => nb(v).len() > t,
        QueryPredicate::DegreeLessThan(t) => nb(v).len() < t,
        QueryPredicate::And(ps) => q_all(nb, v, ps@),
        QueryPredicate::Or(ps) => q_any(nb, v, ps@),
        QueryPredicate::Not(q) => !q_holds(nb, v, *q),
    }
}

/// Whether every filter of `ps` holds of `v`.
pub open spec fn q_all(nb: spec_fn(VertexId) -> Seq<VertexId>, v: VertexId, ps: Seq<QueryPredicate>) -> bool
    decreases ps,
{
    if ps.len() == 0 {
        true
    } else {
        q_all(nb, v, ps.subrange(0, ps.len() - 1)) && q_holds(nb, v, ps[ps.len() - 1])
    }
}

/// Whether some filter of `ps` holds of `v`.
pub open spec fn q_any(nb: spec_fn(VertexId) -> Seq<VertexId>, v: VertexId, ps: Seq<QueryPredicate>) -> bool
    decreases ps,
{
    if ps.len() == 0 {
        false
    } else {
        q_any(nb, v, ps.subrange(0, ps.len() - 1)) || q_holds(nb, v, ps[ps.len() - 1])
    }
}

/// The text of a vertex id.
pub open spec fn id_text(v: VertexId) -> Seq<char> {
    decimal(v.id as nat)
}

/// The row of one vertex: each projection in turn sets its column (the id as
/// text, the degree, the neighbour count, a placeholder for a property or a
/// computed value; edge properties are skipped).
pub open spec fn project_row(nb: spec_fn(VertexId) -> Seq<VertexId>, v: VertexId, projs: Seq<QueryProjection>) -> Map<
    Seq<char>,
    PropValue,
>
    decreases projs.len(),
{
    if projs.len() == 0 {
        Map::empty()
    } else {
        let m = project_row(nb, v, projs.drop_last());
        match projs.last() {
            QueryProjection::VertexId => m.insert("vertex_id"@, PropValue::Text(id_text(v))),
            QueryProjection::VertexDegree => m.insert("degree"@, PropValue::Int(nb(v).len() as i64)),
            QueryProjection::NeighborCount => m.insert("neighbor_count"@, PropValue::Int(nb(v).len() as i64)),
            QueryProjection::VertexProperty(name) => m.insert(name@, PropValue::Text("not_implemented"@)),
            QueryProjection::EdgeProperty(_) => m,
            QueryProjection::Computed(name) => m.insert(name@, PropValue::Text("computed"@)),
        }
    }
}

/// The aggregates of `n` vertices: the count, and placeholders (a zero
/// double for sums and averages, a zero integer for the others), each under
/// its name.
pub open spec fn aggregate_row(n: nat, aggs: Seq<AggregationFunction>) -> Map<Seq<char>, PropValue>
    decreases aggs.len(),
{
    if aggs.len() == 0 {
        Map::empty()
    } else {
        let m = aggregate_row(n, aggs.drop_last());
        match aggs.last() {
            AggregationFunction::Count => m.insert("count"@, PropValue::Int(n as i64)),
            AggregationFunction::Sum(p) => m.insert("sum_"@ + p@, PropValue::Float(0, "0"@)),
            AggregationFunction::Avg(p) => m.insert("avg_"@ + p@, PropValue::Float(0, "0"@)),
            AggregationFunction::Min(p) => m.insert("min_"@ + p@, PropValue::Int(0)),
            AggregationFunction::Max(p) => m.insert("max_"@ + p@, PropValue::Int(0)),
            AggregationFunction::Distinct(p) => m.insert("distinct_"@ + p@, PropValue::Int(0)),
        }
    }
}

/// A zero double: bits 0, text `0`.
fn zero_float() -> (r: FloatValue)
    ensures
        r.bits == 0,
        r.text@ == "0"@,
{
    FloatValue { bits: 0, text: string_from_chars(&chars_of("0")) }
}

proof fn lemma_q_all_prefix(nb: spec_fn(VertexId) -> Seq<VertexId>, v: VertexId, ps: Seq<QueryPredicate>, i: int)
    requires
        0 <= i < ps.len(),
        !q_holds(nb, v, ps[i]),
    ensures
        !q_all(nb, v, ps),
    decreases ps.len(),
{
    if i < ps.len() - 1 {
        let pre = ps.subrange(0, ps.len() - 1);
        assert(pre[i] == ps[i]);
        lemma_q_all_prefix(nb, v, pre, i);
    }
}

proof fn lemma_q_any_prefix(nb: spec_fn(VertexId) -> Seq<VertexId>, v: VertexId, ps: Seq<QueryPredicate>, i: int)
    requires
        0 <= i < ps.len(),
        q_holds(nb, v, ps[i]),
    ensures
        q_any(nb, v, ps),
    decreases ps.len(),
{
    if i < ps.len() - 1 {
        let pre = ps.subrange(0, ps.len() - 1);
        assert(pre[i] == ps[i]);
        lemma_q_any_prefix(nb, v, pre, i);
    }
}

/// A string of the characters of `a` then those of `b`.
fn joined(a: &str, b: &String) -> (r: String)
    ensures
        r@ == a@ + b@,
{
    let x = concat_vec(&chars_of(a), &chars_of(b.as_str()));
    string_from_chars(&x)
}

// ---------------------------------------------------------------------------
// The result cache.

/// A cached result: the vertices, when they were cached (seconds since the
/// Unix epoch), and how often they were read.
pub struct CacheEntry {
    pub result: Vec<VertexId>,
    pub timestamp: u64,
    pub access_count: usize,
}

/// The model of a cache entry: key, result, time, reads.
pub type EntryModel = (Seq<char>, Seq<VertexId>, u64, usize);

/// The position of key `k`, if it is cached.
pub open spec fn cache_index(m: Seq<EntryModel>, k: Seq<char>) -> Option<int> {
    if exists|i: int| 0 <= i < m.len() && (#[trigger] m[i]).0 == k {
        Some(choose|i: int| 0 <= i < m.len() && (#[trigger] m[i]).0 == k)
    } else {
        None
    }
}

/// The cache after a read of key `k`: its read count goes up by one.
pub open spec fn cache_touched(m: Seq<EntryModel>, k: Seq<char>) -> Seq<EntryModel> {
    match cache_index(m, k) {
        Some(i) => m.update(i, (m[i].0, m[i].1, m[i].2, bump(m[i].3, 1))),
        None => m,
    }
}

/// The first entry with the earliest time.
pub open spec fn oldest(m: Seq<EntryModel>) -> int
    decreases m.len(),
{
    if m.len() <= 1 {
        0
    } else {
        let j = oldest(m.drop_last());
        if m.last().2 < m[j].2 {
            m.len() - 1
        } else {
            j
        }
    }
}

/// The cache after `k` is stored with result `r` at time `t`: where the
/// cache holds `max` or more entries, the oldest is evicted first; then the
/// entry of `k` is replaced in place, or a new one goes last, unread.
pub open spec fn cache_put(m: Seq<EntryModel>, max: usize, k: Seq<char>, r: Seq<VertexId>, t: u64) -> Seq<EntryModel> {
    let m1 = if m.len() >= max && m.len() > 0 {
        m.remove(oldest(m))
    } else {
        m
    };
    match cache_index(m1, k) {
        Some(i) => m1.update(i, (k, r, t, 0)),
        None => m1.push((k, r, t, 0)),
    }
}

/// The reads of all entries, counted together (wrapping around).
pub open spec fn total_reads(m: Seq<EntryModel>) -> usize
    decreases m.len(),
{
    if m.len() == 0 {
        0
    } else {
        bump(total_reads(m.drop_last()), m.last().3 as nat)
    }
}

/// No key is cached twice.
pub open spec fn keys_unique(m: Seq<EntryModel>) -> bool {
    forall|i: int, j: int| 0 <= i < j < m.len() ==> (#[trigger] m[i]).0 != (#[trigger] m[j]).0
}

/// Storing a result leaves no key twice, and the stored result is read back
/// under its key, unread so far.
pub proof fn lemma_cache_put_read_back(m: Seq<EntryModel>, max: usize, k: Seq<char>, r: Seq<VertexId>, t: u64)
    requires
        keys_unique(m),
    ensures
        keys_unique(cache_put(m, max, k, r, t)),
        cache_index(cache_put(m, max, k, r, t), k) matches Some(i) && cache_put(m, max, k, r, t)[i] == (k, r, t, 0usize),
{
    let m1 = if m.len() >= max && m.len() > 0 {
        m.remove(oldest(m))
    } else {
        m
    };
    assert(keys_unique(m1)) by {
        if m.len() >= max && m.len() > 0 {
            let o = oldest(m);
            lemma_oldest_in_range(m);
            assert forall|i: int, j: int| 0 <= i < j < m1.len() implies (#[trigger] m1[i]).0 != (#[trigger] m1[j]).0 by {
                let i2 = if i < o { i } else { i + 1 };
                let j2 = if j < o { j } else { j + 1 };
                assert(m1[i] == m[i2] && m1[j] == m[j2]);
            }
        }
    }
    let m2 = cache_put(m, max, k, r, t);
    match cache_index(m1, k) {
        Some(i) => {
            assert(m2 == m1.update(i, (k, r, t, 0usize)));
            assert forall|a: int, b: int| 0 <= a < b < m2.len() implies (#[trigger] m2[a]).0 != (#[trigger] m2[b]).0 by {
                assert(m1[a].0 == m2[a].0 && m1[b].0 == m2[b].0);
            }
            assert(m2[i].0 == k);
            let j = choose|j: int| 0 <= j < m2.len() && (#[trigger] m2[j]).0 == k;
            assert(j == i);
        },
        None => {
            assert(m2 == m1.push((k, r, t, 0usize)));
            assert forall|a: int, b: int| 0 <= a < b < m2.len() implies (#[trigger] m2[a]).0 != (#[trigger] m2[b]).0 by {
                if b == m1.len() {
                    assert(m2[a] == m1[a]);
                    assert(m1[a].0 != k);
                } else {
                    assert(m2[a] == m1[a] && m2[b] == m1[b]);
                }
            }
            let n = m1.len() as int;
            assert(m2[n].0 == k);
            let j = choose|j: int| 0 <= j < m2.len() && (#[trigger] m2[j]).0 == k;
            if j < n {
                assert(m2[j] == m1[j]);
            }
            assert(j == n);
        },
    }
}

/// A cache of at most `max` entries stays within `max` after a store (for a
/// limit of at least one).
pub proof fn lemma_cache_put_bounded(m: Seq<EntryModel>, max: usize, k: Seq<char>, r: Seq<VertexId>, t: u64)
    requires
        m.len() <= max,
        max > 0,
    ensures
        cache_put(m, max, k, r, t).len() <= max,
{
    if m.len() >= max && m.len() > 0 {
        lemma_oldest_in_range(m);
    }
}

proof fn lemma_oldest_in_range(m: Seq<EntryModel>)
    requires
        m.len() > 0,
    ensures
        0 <= oldest(m) < m.len(),
    decreases m.len(),
{
    if m.len() > 1 {
        lemma_oldest_in_range(m.drop_last());
    }
}

/// The models of cache entries.
pub open spec fn entries_model(es: Seq<(String, CacheEntry)>) -> Seq<EntryModel> {
    es.map_values(|e: (String, CacheEntry)| (e.0@, e.1.result@, e.1.timestamp, e.1.access_count))
}

/// The position of key `key` among the entries.
fn find_key(es: &Vec<(String, CacheEntry)>, key: &str) -> (r: Option<usize>)
    requires
        keys_unique(entries_model(es@)),
    ensures
        match r {
            Some(i) => cache_index(entries_model(es@), key@) == Some(i as int) && i < es@.len(),
            None => cache_index(entries_model(es@), key@) is None,
        },
{
    let ghost m = entries_model(es@);
    let mut i: usize = 0;
    while i < es.len()
        invariant
            i <= es@.len(),
            m == entries_model(es@),
            m.len() == es@.len(),
            keys_unique(m),
            forall|j: int| 0 <= j < i ==> (#[trigger] m[j]).0 != key@,
        decreases es@.len() - i,
    {
        proof {
            assert(m[i as int].0 == es@[i as int].0@);
        }
        if crate::text::str_eq(es[i].0.as_str(), key) {
            proof {
                assert(m[i as int].0 == key@);
                let c = choose|j: int| 0 <= j < m.len() && (#[trigger] m[j]).0 == key@;
                if c != i {
                    assert(m[i as int].0 != m[c].0);
                }
            }
            return Some(i);
        }
        i = i + 1;
    }
    None
}

/// The first entry with the earliest time.
fn oldest_index(es: &Vec<(String, CacheEntry)>) -> (r: usize)
    requires
        es@.len() > 0,
    ensures
        r == oldest(entries_model(es@)),
        r < es@.len(),
{
    let ghost m = entries_model(es@);
    let mut best: usize = 0;
    let mut i: usize = 1;
    proof {
        assert(m.take(1).len() == 1);
    }
    while i < es.len()
        invariant
            1 <= i <= es@.len(),
            m == entries_model(es@),
            best < i,
            best == oldest(m.take(i as int)),
            m.take(i as int)[best as int] == m[best as int],
        decreases es@.len() - i,
    {
        proof {
            let t = m.take(i + 1);
            assert(t.drop_last() =~= m.take(i as int));
            assert(t.last() == m[i as int]);
            assert(m[i as int].2 == es@[i as int].1.timestamp);
            assert(m[best as int].2 == es@[best as int].1.timestamp);
        }
        if es[i].1.timestamp < es[best].1.timestamp {
            best = i;
        }
        i = i + 1;
    }
    proof {
        assert(m.take(es@.len() as int) =~= m);
    }
    best
}

/// A bounded cache of query results, by key.
pub struct QueryCache {
    entries: Vec<(String, CacheEntry)>,
    max_size: usize,
}

impl QueryCache {
    pub closed spec fn model(&self) -> Seq<EntryModel> {
        entries_model(self.entries@)
    }

    pub closed spec fn spec_max_size(&self) -> usize {
        self.max_size
    }

    #[verifier::type_invariant]
    spec fn inv(self) -> bool {
        keys_unique(self.model())
    }

    /// An empty cache holding at most about `max_size` entries.
    pub fn new(max_size: usize) -> (r: QueryCache)
        ensures
            r.model().len() == 0,
            r.spec_max_size() == max_size,
    {
        let r = QueryCache { entries: Vec::new(), max_size };
        assert(r.model() =~= Seq::<EntryModel>::empty());
        r
    }

    /// The number of entries.
    pub fn len(&self) -> (r: usize)
        ensures
            r == self.model().len(),
    {
        self.entries.len()
    }

    /// The bound on the number of entries.
    pub fn max_size(&self) -> (r: usize)
        ensures
            r == self.spec_max_size(),
    {
        self.max_size
    }

    /// Stores `result` under `key` at time `now`; see [`cache_put`].
    pub fn put(&mut self, key: String, result: Vec<VertexId>, now: u64)
        ensures
            final(self).model() == cache_put(old(self).model(), old(self).spec_max_size(), key@, result@, now),
            final(self).spec_max_size() == old(self).spec_max_size(),
    {
        proof {
            use_type_invariant(&*self);
        }
        let ghost m = self.model();
        let ghost kv = key@;
        let ghost rv = result@;
        let mut es: Vec<(String, CacheEntry)> = Vec::new();
        std::mem::swap(&mut es, &mut self.entries);
        assert(entries_model(es@) == m);
        if es.len() >= self.max_size && es.len() > 0 {
            let o = oldest_index(&es);
            let _ = es.remove(o);
            proof {
                assert(entries_model(es@) =~= m.remove(o as int));
                let em = entries_model(es@);
                assert forall|a: int, b: int| 0 <= a < b < em.len() implies (#[trigger] em[a]).0 != (#[trigger] em[b]).0 by {
                    let a0 = if a < o { a } else { a + 1 };
                    let b0 = if b < o { b } else { b + 1 };
                    assert(em[a] == m[a0] && em[b] == m[b0]);
                }
            }
        }
        let ghost m1 = entries_model(es@);
        match find_key(&es, key.as_str()) {
            Some(i) => {
                es.set(i, (key, CacheEntry { result, timestamp: now, access_count: 0 }));
                proof {
                    let em = entries_model(es@);
                    assert(em =~= m1.update(i as int, (kv, rv, now, 0usize)));
                    assert(m1[i as int].0 == kv);
                    assert forall|a: int, b: int| 0 <= a < b < em.len() implies (#[trigger] em[a]).0 != (#[trigger] em[b]).0 by {
                        assert(em[a].0 == m1[a].0 && em[b].0 == m1[b].0);
                    }
                }
            },
            None => {
                es.push((key, CacheEntry { result, timestamp: now, access_count: 0 }));
                proof {
                    let em = entries_model(es@);
                    assert(em =~= m1.push((kv, rv, now, 0usize)));
                    assert forall|a: int, b: int| 0 <= a < b < em.len() implies (#[trigger] em[a]).0 != (#[trigger] em[b]).0 by {
                        if b == m1.len() {
                            assert(em[a] == m1[a]);
                            if m1[a].0 == kv {
                                assert(cache_index(m1, kv) is Some);
                            }
                        } else {
                            assert(em[a] == m1[a] && em[b] == m1[b]);
                        }
                    }
                }
            },
        }
        self.entries = es;
    }

    /// The reads of all entries, counted together.
    pub fn total_reads(&self) -> (r: usize)
        ensures
            r == total_reads(self.model()),
    {
        let ghost m = self.model();
        let mut total: usize = 0;
        let mut i: usize = 0;
        while i < self.entries.len()
            invariant
                i <= self.entries@.len(),
                m == self.model(),
                m.len() == self.entries@.len(),
                total == total_reads(m.take(i as int)),
            decreases self.entries@.len() - i,
        {
            proof {
                let t = m.take(i + 1);
                assert(t.drop_last() =~= m.take(i as int));
                assert(t.last() == m[i as int]);
            }
            total = bump_exec(total, self.entries[i].1.access_count);
            i = i + 1;
        }
        proof {
            assert(m.take(m.len() as int) =~= m);
        }
        total
    }

    /// Empties the cache.
    pub fn clear(&mut self)
        ensures
            final(self).model().len() == 0,
            final(self).spec_max_size() == old(self).spec_max_size(),
    {
        self.entries = Vec::new();
        assert(self.model() =~= Seq::<EntryModel>::empty());
    }

    /// Reads key `key`: a copy of its result, its read count going up by
    /// one; `None` where it is not cached.
    pub fn get(&mut self, key: &str) -> (r: Option<Vec<VertexId>>)
        ensures
            final(self).model() == cache_touched(old(self).model(), key@),
            final(self).spec_max_size() == old(self).spec_max_size(),
            match cache_index(old(self).model(), key@) {
                Some(i) => r matches Some(v) && v@ == old(self).model()[i].1,
                None => r is None,
            },
    {
        proof {
            use_type_invariant(&*self);
        }
        match find_key(&self.entries, key) {
            Some(i) => {
                let ghost m = self.model();
                let result = crate::graph::copy_ids(&self.entries[i].1.result);
                proof {
                    use_type_invariant(&*self);
                }
                let mut es: Vec<(String, CacheEntry)> = Vec::new();
                std::mem::swap(&mut es, &mut self.entries);
                let (k, e) = es.remove(i);
                let n = bump_exec(e.access_count, 1);
                es.insert(i, (k, CacheEntry { result: e.result, timestamp: e.timestamp, access_count: n }));
                proof {
                    let em = es@.map_values(|e: (String, CacheEntry)| (e.0@, e.1.result@, e.1.timestamp, e.1.access_count));
                    assert(em =~= cache_touched(m, key@));
                    assert(keys_unique(em)) by {
                        assert forall|a: int, b: int| 0 <= a < b < em.len() implies (#[trigger] em[a]).0 != (#[trigger] em[b]).0 by {
                            assert(em[a].0 == m[a].0 && em[b].0 == m[b].0);
                        }
                    }
                }
                self.entries = es;
                Some(result)
            },
            None => None,
        }
    }
}

/// The cache key of a range query.
pub open spec fn range_key_text(s: VertexId, e: VertexId) -> Seq<char> {
    "range_"@ + decimal(s.id as nat) + "_"@ + decimal(e.id as nat)
}

/// Each vertex with its neighbours in the range `lo..=hi`.
pub open spec fn range_conns(nb: spec_fn(VertexId) -> Seq<VertexId>, vs: Seq<VertexId>, lo: VertexId, hi: VertexId) -> Seq<
    (VertexId, Seq<VertexId>),
> {
    vs.map_values(|v: VertexId| (v, nb(v).filter(|x: VertexId| in_range(x, lo, hi))))
}

/// The neighbours in the range `lo..=hi` of the vertices, counted together
/// (wrapping around).
pub open spec fn in_range_total(nb: spec_fn(VertexId) -> Seq<VertexId>, vs: Seq<VertexId>, lo: VertexId, hi: VertexId) -> usize
    decreases vs.len(),
{
    if vs.len() == 0 {
        0
    } else {
        bump(in_range_total(nb, vs.drop_last(), lo, hi), nb(vs.last()).filter(|x: VertexId| in_range(x, lo, hi)).len())
    }
}

/// What a range query gives and does to the cache.
pub open spec fn range_query_ok(
    g: Graph,
    cache: QueryCache,
    s: VertexId,
    e: VertexId,
    context: QueryContext,
    r: Result<(RangeQueryResult, QueryStats), AsterError>,
    cache_after: QueryCache,
) -> bool {
    let nb = graph_nb(g);
    let key = range_key_text(s, e);
    match r {
        Ok((res, stats)) => {
            let vs = res.vertices_in_range@;
            &&& vs == g.spec_storage().spec_vertices().filter(id_range(s, e))
            &&& conn_view(res.neighbor_connections@) == range_conns(nb, vs, s, e)
            &&& res.total_edges_in_range == in_range_total(nb, vs, s, e)
            &&& res.density_numerator == res.total_edges_in_range
            &&& res.possible_edges == vertex_pairs(vs.len())
            &&& stats.vertices_visited == vs.len()
            &&& stats.edges_traversed == degree_total(nb, vs)
            &&& stats.cache_hits == (if context.use_cache && cache_index(cache.model(), key) is Some { 1usize } else { 0usize })
            &&& stats.cache_misses == (if context.use_cache { 1usize } else { 0usize })
            &&& if context.use_cache {
                exists|t: u64|
                    cache_after.model() == cache_put(cache_touched(cache.model(), key), cache.spec_max_size(), key, vs, t)
            } else {
                cache_after.model() == cache.model()
            }
        },
        Err(err) => {
            &&& err.spec_kind() == ErrorKind::Timeout
            &&& err.spec_text() == "Range query timeout"@
            &&& cache_after.model() == (if context.use_cache {
                cache_touched(cache.model(), key)
            } else {
                cache.model()
            })
        },
    }
}

/// How many vertices of `g` lie in the id range `s..=e`: the steps of a range
/// query, each taken after a reading of the clock.
pub open spec fn range_size(g: Graph, s: VertexId, e: VertexId) -> nat {
    g.spec_storage().spec_vertices().filter(id_range(s, e)).len()
}

/// The steps of several range queries, one after another: for each range a
/// step before it is queried, then the steps of its query.
pub open spec fn multi_checks(g: Graph, ranges: Seq<(VertexId, VertexId)>) -> nat
    decreases ranges.len(),
{
    if ranges.len() == 0 {
        0
    } else {
        multi_checks(g, ranges.drop_last()) + 1 + range_size(g, ranges.last().0, ranges.last().1)
    }
}

/// The steps of the first ranges are no more than those of more of them.
proof fn lemma_multi_checks_grow(g: Graph, rs: Seq<(VertexId, VertexId)>, a: int, b: int)
    requires
        0 <= a <= b <= rs.len(),
    ensures
        multi_checks(g, rs.take(a)) <= multi_checks(g, rs.take(b)),
    decreases b - a,
{
    if a < b {
        lemma_multi_checks_grow(g, rs, a, b - 1);
        assert(rs.take(b).drop_last() =~= rs.take(b - 1));
    }
}

/// A range's start id, the key that ranges are sorted by.
pub open spec fn by_range_start() -> spec_fn((VertexId, VertexId)) -> u64 {
    |r: (VertexId, VertexId)| r.0.id
}

/// The per-range counters added up (each wrapping around): vertices visited,
/// edges traversed, cache hits and cache misses.
pub open spec fn stats_totals(per: Seq<QueryStats>) -> (usize, usize, usize, usize)
    decreases per.len(),
{
    if per.len() == 0 {
        (0, 0, 0, 0)
    } else {
        let t = stats_totals(per.drop_last());
        let s = per.last();
        (
            bump(t.0, s.vertices_visited as nat),
            bump(t.1, s.edges_traversed as nat),
            bump(t.2, s.cache_hits as nat),
            bump(t.3, s.cache_misses as nat),
        )
    }
}

/// Range queries run one after another from `caches[0]`: the `i`th of
/// `ranges` gave `results[i]` with statistics `per[i]`, taking the cache from
/// `caches[i]` to `caches[i + 1]`.
#[verifier::opaque]
pub open spec fn range_chain(
    g: Graph,
    caches: Seq<QueryCache>,
    ranges: Seq<(VertexId, VertexId)>,
    context: QueryContext,
    results: Seq<RangeQueryResult>,
    per: Seq<QueryStats>,
) -> bool {
    &&& caches.len() == results.len() + 1
    &&& per.len() == results.len()
    &&& results.len() <= ranges.len()
    &&& forall|i: int|
        0 <= i < results.len() ==> range_query_ok(
            g,
            #[trigger] caches[i],
            ranges[i].0,
            ranges[i].1,
            context,
            Ok((results[i], per[i])),
            caches[i + 1],
        )
}

/// No range queried yet: the chain is the starting cache alone.
proof fn lemma_range_chain_empty(g: Graph, cache: QueryCache, ranges: Seq<(VertexId, VertexId)>, context: QueryContext)
    ensures
        range_chain(g, seq![cache], ranges, context, Seq::empty(), Seq::empty()),
{
    reveal(range_chain);
}

/// A chain extended by the next range's query.
proof fn lemma_range_chain_push(
    g: Graph,
    caches: Seq<QueryCache>,
    ranges: Seq<(VertexId, VertexId)>,
    context: QueryContext,
    results: Seq<RangeQueryResult>,
    per: Seq<QueryStats>,
    next: QueryCache,
    res: RangeQueryResult,
    st: QueryStats,
)
    requires
        range_chain(g, caches, ranges, context, results, per),
        results.len() < ranges.len(),
        range_query_ok(
            g,
            caches[results.len() as int],
            ranges[results.len() as int].0,
            ranges[results.len() as int].1,
            context,
            Ok((res, st)),
            next,
        ),
    ensures
        range_chain(g, caches.push(next), ranges, context, results.push(res), per.push(st)),
        caches.len() == results.len() + 1,
{
    reveal(range_chain);
    let c2 = caches.push(next);
    let r2 = results.push(res);
    let p2 = per.push(st);
    assert forall|i: int| 0 <= i < r2.len() implies range_query_ok(
        g,
        #[trigger] c2[i],
        ranges[i].0,
        ranges[i].1,
        context,
        Ok((r2[i], p2[i])),
        c2[i + 1],
    ) by {
        if i < results.len() {
            assert(c2[i] == caches[i]);
            assert(c2[i + 1] == caches[i + 1]);
            assert(r2[i] == results[i]);
            assert(p2[i] == per[i]);
            assert(range_query_ok(g, caches[i], ranges[i].0, ranges[i].1, context, Ok((results[i], per[i])), caches[i + 1]));
        }
    }
}

/// What a query over several ranges gives and does to the cache: the ranges,
/// sorted by start id (ranges with equal starts in their order), are queried
/// one after another; the statistics add up theirs. Where the time runs out
/// before a range, or a range query times out, a timeout error.
pub open spec fn multi_range_ok(
    g: Graph,
    cache: QueryCache,
    ranges: Seq<(VertexId, VertexId)>,
    context: QueryContext,
    r: Result<(Vec<RangeQueryResult>, QueryStats), AsterError>,
    cache_after: QueryCache,
) -> bool {
    let sorted = stable_sort(ranges, by_range_start());
    match r {
        Ok((results, stats)) => exists|caches: Seq<QueryCache>, per: Seq<QueryStats>|
            #![trigger range_chain(g, caches, sorted, context, results@, per)]
            {
                &&& range_chain(g, caches, sorted, context, results@, per)
                &&& results@.len() == sorted.len()
                &&& caches[0] == cache
                &&& caches.last() == cache_after
                &&& stats_totals(per) == (
                    stats.vertices_visited,
                    stats.edges_traversed,
                    stats.cache_hits,
                    stats.cache_misses,
                )
            },
        Err(err) => {
            &&& err.spec_kind() == ErrorKind::Timeout
            &&& exists|caches: Seq<QueryCache>, done: Seq<RangeQueryResult>, per: Seq<QueryStats>|
                #![trigger range_chain(g, caches, sorted, context, done, per)]
                {
                    &&& range_chain(g, caches, sorted, context, done, per)
                    &&& done.len() < sorted.len()
                    &&& caches[0] == cache
                    &&& {
                        ||| err.spec_text() == "Multi-range query timeout"@ && cache_after == caches.last()
                        ||| range_query_ok(
                            g,
                            caches.last(),
                            sorted[done.len() as int].0,
                            sorted[done.len() as int].1,
                            context,
                            Err(err),
                            cache_after,
                        )
                    }
                }
        },
    }
}

/// A chain over all the sorted ranges makes a finished multi-range query.
proof fn lemma_multi_range_done(
    g: Graph,
    cache: QueryCache,
    ranges: Seq<(VertexId, VertexId)>,
    context: QueryContext,
    results: Vec<RangeQueryResult>,
    stats: QueryStats,
    caches: Seq<QueryCache>,
    per: Seq<QueryStats>,
    cache_after: QueryCache,
)
    requires
        range_chain(g, caches, stable_sort(ranges, by_range_start()), context, results@, per),
        results@.len() == stable_sort(ranges, by_range_start()).len(),
        caches[0] == cache,
        caches.last() == cache_after,
        stats_totals(per) == (stats.vertices_visited, stats.edges_traversed, stats.cache_hits, stats.cache_misses),
    ensures
        multi_range_ok(g, cache, ranges, context, Ok((results, stats)), cache_after),
{
    let sorted = stable_sort(ranges, by_range_start());
    let r: Result<(Vec<RangeQueryResult>, QueryStats), AsterError> = Ok((results, stats));
    assert(r matches Ok((rs, st)) && rs@ == results@ && st == stats);
    assert(exists|c: Seq<QueryCache>, p: Seq<QueryStats>|
        #![trigger range_chain(g, c, sorted, context, results@, p)]
        {
            &&& range_chain(g, c, sorted, context, results@, p)
            &&& results@.len() == sorted.len()
            &&& c[0] == cache
            &&& c.last() == cache_after
            &&& stats_totals(p) == (stats.vertices_visited, stats.edges_traversed, stats.cache_hits, stats.cache_misses)
        });
}

/// The place for a range starting at `k` in `v`: the first range whose
/// start is greater than `k`, or the end.
fn range_insert_pos(v: &Vec<(VertexId, VertexId)>, k: u64) -> (r: usize)
    ensures
        r == key_insert_pos(v@, by_range_start(), k),
{
    let mut i: usize = 0;
    assert(v@.skip(0) =~= v@);
    while i < v.len()
        invariant
            i <= v@.len(),
            key_insert_pos(v@, by_range_start(), k) == i + key_insert_pos(v@.skip(i as int), by_range_start(), k),
        decreases v@.len() - i,
    {
        proof {
            assert(v@.skip(i as int)[0] == v@[i as int]);
            assert(v@.skip(i as int).drop_first() =~= v@.skip(i + 1));
        }
        if v[i].0.id > k {
            return i;
        }
        i = i + 1;
    }
    proof {
        assert(v@.skip(i as int) =~= Seq::<(VertexId, VertexId)>::empty());
    }
    i
}

/// The ranges sorted by start id, ranges with equal starts in their order.
fn sort_ranges(ranges: &Vec<(VertexId, VertexId)>) -> (r: Vec<(VertexId, VertexId)>)
    ensures
        r@ == stable_sort(ranges@, by_range_start()),
{
    let mut out: Vec<(VertexId, VertexId)> = Vec::new();
    let mut i: usize = 0;
    proof {
        assert(ranges@.take(0) =~= Seq::<(VertexId, VertexId)>::empty());
    }
    while i < ranges.len()
        invariant
            i <= ranges@.len(),
            out@ == stable_sort(ranges@.take(i as int), by_range_start()),
        decreases ranges@.len() - i,
    {
        let x = ranges[i];
        let p = range_insert_pos(&out, x.0.id);
        proof {
            lemma_key_insert_pos_bounds(out@, by_range_start(), x.0.id);
            let t = ranges@.take(i + 1);
            assert(t.drop_last() =~= ranges@.take(i as int));
            assert(t.last() == x);
        }
        out.insert(p, x);
        i = i + 1;
    }
    proof {
        assert(ranges@.take(ranges@.len() as int) =~= ranges@);
    }
    out
}

/// What a connected-components query gives: the components of the listed
/// vertices under the graph's edges between them, taken either way, with
/// the vertices looked up counted; or, where the time runs out before a
/// lookup, a timeout error.
pub open spec fn components_ok(
    g: Graph,
    vs: Seq<VertexId>,
    context: QueryContext,
    r: Result<(Vec<Vec<VertexId>>, QueryStats), AsterError>,
) -> bool {
    match r {
        Ok((comps, stats)) => {
            &&& is_components(graph_nb(g), vs, comp_views(comps@))
            &&& stats.vertices_visited == vs.len()
            &&& stats.edges_traversed == degree_total(graph_nb(g), vs)
            &&& stats.cache_hits == 0
            &&& stats.cache_misses == 0
        },
        Err(err) => {
            &&& err.spec_kind() == ErrorKind::Timeout
            &&& err.spec_text() == "Connected components query timeout"@
        },
    }
}

/// The vertices a search took from its queue, in order: each once, the
/// first the start, each reachable from it.
pub open spec fn popped_ok(nb: spec_fn(VertexId) -> Seq<VertexId>, s: VertexId, popped: Seq<VertexId>) -> bool {
    &&& popped.len() >= 1
    &&& popped[0] == s
    &&& popped.no_duplicates()
    &&& forall|k: int| 0 <= k < popped.len() ==> reaches(nb, s, #[trigger] popped[k])
}

/// What a shortest-route query gives: a shortest route where the target is
/// reachable, `None` where it is not; the statistics count the vertices
/// taken from the queue and the neighbours of those expanded. Where the
/// time runs out before a lookup, a timeout error with `msg`.
pub open spec fn shortest_ok(
    g: Graph,
    start: VertexId,
    target: VertexId,
    context: QueryContext,
    msg: Seq<char>,
    r: Result<(Option<Vec<VertexId>>, QueryStats), AsterError>,
) -> bool {
    let nb = graph_nb(g);
    match r {
        Ok((found, stats)) => {
            &&& stats.cache_hits == 0
            &&& stats.cache_misses == 0
            &&& match found {
                Some(p) => {
                    &&& is_shortest(nb, p@, start, target)
                    &&& exists|popped: Seq<VertexId>|
                        #![trigger popped_ok(nb, start, popped)]
                        {
                            &&& popped_ok(nb, start, popped)
                            &&& popped.last() == target
                            &&& stats.vertices_visited == popped.len()
                            &&& stats.edges_traversed == degree_total(nb, popped.drop_last())
                        }
                },
                None => {
                    &&& !reaches(nb, start, target)
                    &&& exists|popped: Seq<VertexId>|
                        #![trigger popped_ok(nb, start, popped)]
                        {
                            &&& popped_ok(nb, start, popped)
                            &&& forall|v: VertexId| reaches(nb, start, v) ==> #[trigger] popped.contains(v)
                            &&& stats.vertices_visited == popped.len()
                            &&& stats.edges_traversed == degree_total(nb, popped)
                        }
                },
            }
        },
        Err(err) => {
            &&& err.spec_kind() == ErrorKind::Timeout
            &&& err.spec_text() == msg
        },
    }
}

/// The vertices that routes lead to.
pub open spec fn route_keys(paths: Seq<(VertexId, Vec<VertexId>)>) -> Seq<VertexId> {
    paths.map_values(|p: (VertexId, Vec<VertexId>)| p.0)
}

/// What a single-source shortest-routes query gives: for each vertex
/// reachable from the start, once, a shortest route to it, in the order
/// found; the statistics count them and their neighbours. Where the time
/// runs out before a lookup, a timeout error.
pub open spec fn all_shortest_ok(
    g: Graph,
    start: VertexId,
    context: QueryContext,
    r: Result<(Vec<(VertexId, Vec<VertexId>)>, QueryStats), AsterError>,
) -> bool {
    let nb = graph_nb(g);
    match r {
        Ok((paths, stats)) => {
            &&& forall|i: int| 0 <= i < paths@.len() ==> is_shortest(nb, (#[trigger] paths@[i]).1@, start, paths@[i].0)
            &&& route_keys(paths@).no_duplicates()
            &&& forall|v: VertexId| reaches(nb, start, v) <==> #[trigger] route_keys(paths@).contains(v)
            &&& stats.vertices_visited == paths@.len()
            &&& stats.edges_traversed == degree_total(nb, route_keys(paths@))
            &&& stats.cache_hits == 0
            &&& stats.cache_misses == 0
        },
        Err(err) => {
            &&& err.spec_kind() == ErrorKind::Timeout
            &&& err.spec_text() == "Single-source shortest paths timeout"@
        },
    }
}

/// How often `x` occurs in `s`.
pub open spec fn occurrences(s: Seq<VertexId>, x: VertexId) -> nat
    decreases s.len(),
{
    if s.len() == 0 {
        0
    } else {
        occurrences(s.drop_last(), x) + (if s.last() == x { 1nat } else { 0nat })
    }
}

/// The listed vertices with an edge to `x`, in list order, each as often as
/// it is listed and as its edge to `x` is stored.
pub open spec fn incoming_of(nb: spec_fn(VertexId) -> Seq<VertexId>, vs: Seq<VertexId>, x: VertexId) -> Seq<VertexId>
    decreases vs.len(),
{
    if vs.len() == 0 {
        Seq::empty()
    } else {
        let u = vs.last();
        incoming_of(nb, vs.drop_last(), x) + Seq::new(occurrences(nb(u), x), |i: int| u)
    }
}

/// The links PageRank runs on, for each place in the list of vertices: the
/// vertex's out-degree (at least one), and the listed vertices with an edge
/// to it.
pub struct RankLinks {
    pub out_degrees: Vec<usize>,
    pub incoming: Vec<Vec<VertexId>>,
}

/// `links` describe the listed vertices under the graph's edges.
pub open spec fn rank_links_ok(nb: spec_fn(VertexId) -> Seq<VertexId>, vs: Seq<VertexId>, links: RankLinks) -> bool {
    &&& links.out_degrees@.len() == vs.len()
    &&& links.incoming@.len() == vs.len()
    &&& forall|k: int| 0 <= k < vs.len() ==> #[trigger] links.out_degrees@[k] == (if nb(vs[k]).len() == 0 { 1 } else { nb(vs[k]).len() })
    &&& forall|k: int| 0 <= k < vs.len() ==> (#[trigger] links.incoming@[k])@ == incoming_of(nb, vs, vs[k])
}

/// How often `x` occurs in `s`.
fn count_of(s: &Vec<VertexId>, x: VertexId) -> (r: usize)
    ensures
        r == occurrences(s@, x),
{
    let mut r: usize = 0;
    let mut i: usize = 0;
    while i < s.len()
        invariant
            i <= s@.len(),
            r == occurrences(s@.take(i as int), x),
            r <= i,
        decreases s@.len() - i,
    {
        proof {
            let t = s@.take(i + 1);
            assert(t.drop_last() =~= s@.take(i as int));
            assert(t.last() == s@[i as int]);
        }
        if s[i] == x {
            r = r + 1;
        }
        i = i + 1;
    }
    proof {
        assert(s@.take(s@.len() as int) =~= s@);
    }
    r
}

/// The ids of `ns` in the range `lo..=hi`, in order.
fn in_range_ids(ns: &Vec<VertexId>, lo: VertexId, hi: VertexId) -> (r: Vec<VertexId>)
    ensures
        r@ == ns@.filter(|x: VertexId| in_range(x, lo, hi)),
{
    let ghost p = |x: VertexId| in_range(x, lo, hi);
    let mut r: Vec<VertexId> = Vec::new();
    let mut i: usize = 0;
    while i < ns.len()
        invariant
            i <= ns@.len(),
            p == (|x: VertexId| in_range(x, lo, hi)),
            r@ == ns@.take(i as int).filter(p),
        decreases ns@.len() - i,
    {
        let x = ns[i];
        proof {
            let t = ns@.take(i + 1);
            assert(t.drop_last() =~= ns@.take(i as int));
            assert(t.last() == x);
            reveal_with_fuel(Seq::filter, 1);
        }
        if lo.id <= x.id && x.id <= hi.id {
            r.push(x);
        }
        i = i + 1;
    }
    proof {
        assert(ns@.take(ns@.len() as int) =~= ns@);
    }
    r
}

/// Seconds since the Unix epoch by the system clock (0 before it).
fn now_secs() -> (r: u64) {
    let ns = crate::clock::unix_nanos();
    #[verifier::truncate] ((ns / 1_000_000_000) as u64)
}

/// Graph queries over a graph.
pub struct QueryEngine {
    pub graph: Graph,
    pub cache: QueryCache,
}

impl QueryEngine {
    /// An engine over `graph` with an empty cache of at most 10 000 results.
    pub fn new(graph: Graph) -> (r: QueryEngine)
        ensures
            r.graph == graph,
            r.cache.model().len() == 0,
            r.cache.spec_max_size() == 10000,
    {
        QueryEngine { graph, cache: QueryCache::new(10000) }
    }

    /// Caches `result` under `key` at the current time; an empty key is not
    /// cached.
    pub fn cache_result(&mut self, key: String, result: Vec<VertexId>)
        ensures
            final(self).graph == old(self).graph,
            final(self).cache.spec_max_size() == old(self).cache.spec_max_size(),
            key@.len() == 0 ==> final(self).cache.model() == old(self).cache.model(),
            key@.len() > 0 ==> exists|t: u64|
                final(self).cache.model() == cache_put(old(self).cache.model(), old(self).cache.spec_max_size(), key@, result@, t),
    {
        if chars_of(key.as_str()).len() > 0 {
            let now = now_secs();
            self.cache.put(key, result, now);
        }
    }

    /// The cached result under `key`, if any; reading it counts.
    pub fn get_cached_result(&mut self, key: &str) -> (r: Option<Vec<VertexId>>)
        ensures
            final(self).graph == old(self).graph,
            final(self).cache.spec_max_size() == old(self).cache.spec_max_size(),
            final(self).cache.model() == cache_touched(old(self).cache.model(), key@),
            match cache_index(old(self).cache.model(), key@) {
                Some(i) => r matches Some(v) && v@ == old(self).cache.model()[i].1,
                None => r is None,
            },
    {
        self.cache.get(key)
    }

    /// The cache's statistics: `total_entries`, `max_size` and
    /// `total_accesses`, in that order.
    pub fn get_cache_stats(&self) -> (r: Vec<(String, u64)>)
        ensures
            r@.len() == 3,
            r@[0].0@ == "total_entries"@ && r@[0].1 == self.cache.model().len(),
            r@[1].0@ == "max_size"@ && r@[1].1 == self.cache.spec_max_size(),
            r@[2].0@ == "total_accesses"@ && r@[2].1 == total_reads(self.cache.model()),
    {
        let mut r: Vec<(String, u64)> = Vec::new();
        r.push((String::from_str("total_entries"), self.cache.len() as u64));
        r.push((String::from_str("max_size"), self.cache.max_size() as u64));
        r.push((String::from_str("total_accesses"), self.cache.total_reads() as u64));
        r
    }

    /// Empties the cache.
    pub fn clear_cache(&mut self)
        ensures
            final(self).graph == old(self).graph,
            final(self).cache.model().len() == 0,
            final(self).cache.spec_max_size() == old(self).cache.spec_max_size(),
    {
        self.cache.clear();
    }

    /// The cache key of a range query: `range_<start>_<end>`.
    fn range_key(start_vertex: VertexId, end_vertex: VertexId) -> (r: String)
        ensures
            r@ == range_key_text(start_vertex, end_vertex),
    {
        let a = concat_vec(&chars_of("range_"), &u64_to_chars(start_vertex.id));
        let b = concat_vec(&a, &chars_of("_"));
        let c = concat_vec(&b, &u64_to_chars(end_vertex.id));
        string_from_chars(&c)
    }

    /// The vertices with ids in `start_vertex..=end_vertex`, in stored order,
    /// each with its neighbours in the range. Where the context allows the
    /// cache, the query's key is read from it first (a hit counts, and a miss
    /// is counted either way) and the vertices are stored under it at the end.
    /// Where the time runs out before a lookup, a timeout error.
    pub fn range_query(&mut self, start_vertex: VertexId, end_vertex: VertexId, context: &QueryContext) -> (r: Result<
        (RangeQueryResult, QueryStats),
        AsterError,
    >)
        ensures
            final(self).graph == old(self).graph,
            final(self).cache.spec_max_size() == old(self).cache.spec_max_size(),
            range_query_ok(old(self).graph, old(self).cache, start_vertex, end_vertex, *context, r, final(self).cache),
            r is Err ==> exists|t: u128| #[trigger] over_limit(t, context.timeout_ms),
    {
        let start_time = instant_now();
        let clock = || -> (t: u128) { elapsed_millis(&start_time) };
        self.range_query_with_clock(start_vertex, end_vertex, context, &clock)
    }

    /// As [`QueryEngine::range_query`], with the elapsed milliseconds read from
    /// `now_ms` before each step: the work goes through when every reading is
    /// within the context's limit, and stops at the first reading past it.
    pub fn range_query_with_clock<C: Fn() -> u128>(&mut self, start_vertex: VertexId, end_vertex: VertexId, context: &QueryContext, now_ms: &C) -> (r: Result<
        (RangeQueryResult, QueryStats),
        AsterError,
    >)
        requires
            call_requires(*now_ms, ()),
        ensures
            final(self).graph == old(self).graph,
            final(self).cache.spec_max_size() == old(self).cache.spec_max_size(),
            range_query_ok(old(self).graph, old(self).cache, start_vertex, end_vertex, *context, r, final(self).cache),
            r is Ok ==> ran_within(*now_ms, range_size(old(self).graph, start_vertex, end_vertex), context.timeout_ms),
            r is Err ==> stopped_before(*now_ms, range_size(old(self).graph, start_vertex, end_vertex), context.timeout_ms),
    {
        let ghost g = self.graph;
        let ghost nb = graph_nb(self.graph);
        let ghost key_m = range_key_text(start_vertex, end_vertex);
        let mut hits: usize = 0;
        let mut misses: usize = 0;
        let key = if context.use_cache {
            let k = Self::range_key(start_vertex, end_vertex);
            match self.get_cached_result(k.as_str()) {
                Some(_) => {
                    hits = 1;
                },
                None => {},
            }
            misses = 1;
            Some(k)
        } else {
            None
        };
        let ghost touched = self.cache;
        let vertices = self.graph.storage().range(start_vertex, end_vertex);
        let ghost vs = vertices@;
        let ghost mut rs: Seq<u128> = Seq::empty();
        proof {
            assert(vs.len() == range_size(g, start_vertex, end_vertex));
        }
        let mut connections: Vec<(VertexId, Vec<VertexId>)> = Vec::new();
        let mut total: usize = 0;
        let mut edges: usize = 0;
        let mut i: usize = 0;
        while i < vertices.len()
            invariant
                call_requires(*now_ms, ()),
                i <= vertices@.len(),
                vs == vertices@,
                self.graph == g,
                g == old(self).graph,
                key_m == range_key_text(start_vertex, end_vertex),
                self.cache == touched,
                touched.spec_max_size() == old(self).cache.spec_max_size(),
                touched.model() == (if context.use_cache {
                    cache_touched(old(self).cache.model(), key_m)
                } else {
                    old(self).cache.model()
                }),
                nb == graph_nb(g),
                conn_view(connections@) == range_conns(nb, vs.take(i as int), start_vertex, end_vertex),
                total == in_range_total(nb, vs.take(i as int), start_vertex, end_vertex),
                edges == degree_total(nb, vs.take(i as int)),
                rs.len() == i,
                within_readings(*now_ms, rs, context.timeout_ms),
                vs.len() == range_size(g, start_vertex, end_vertex),
            decreases vertices@.len() - i,
        {
            let t = now_ms();
            match check_deadline(t, context.timeout_ms, "Range query timeout") {
                Err(err) => {
                    proof {
                        assert(context.timeout_ms is Some);
                        assert(self.cache.model() == (if context.use_cache {
                            cache_touched(old(self).cache.model(), range_key_text(start_vertex, end_vertex))
                        } else {
                            old(self).cache.model()
                        }));
                        assert(vs.len() == range_size(g, start_vertex, end_vertex));
                        assert(stopped_before(*now_ms, range_size(g, start_vertex, end_vertex), context.timeout_ms)) by {
                            assert(within_readings(*now_ms, rs, context.timeout_ms));
                            assert(call_ensures(*now_ms, (), t));
                        }
                    }
                    return Err(err);
                },
                Ok(()) => {},
            }
            proof {
                lemma_within_push(*now_ms, rs, t, context.timeout_ms);
                rs = rs.push(t);
            }
            let v = vertices[i];
            let ns = self.graph.get_neighbors(v);
            edges = bump_exec(edges, ns.len());
            let inside = in_range_ids(&ns, start_vertex, end_vertex);
            total = bump_exec(total, inside.len());
            let ghost before = conn_view(connections@);
            let ghost iv = inside@;
            connections.push((v, inside));
            proof {
                let t = vs.take(i + 1);
                assert(t.drop_last() =~= vs.take(i as int));
                assert(t.last() == v);
                assert(conn_view(connections@) =~= before.push((v, iv)));
            }
            i = i + 1;
        }
        proof {
            assert(vs.take(vs.len() as int) =~= vs);
            assert(vs.len() == range_size(g, start_vertex, end_vertex));
            assert(ran_within(*now_ms, range_size(g, start_vertex, end_vertex), context.timeout_ms)) by {
                assert(within_readings(*now_ms, rs, context.timeout_ms));
            }
        }
        let n = vertices.len();
        let possible_edges = pair_count(n);
        let stats = QueryStats {
            vertices_visited: n,
            edges_traversed: edges,
            cache_hits: hits,
            cache_misses: misses,
            execution_time_ms: #[verifier::truncate] (now_ms() as u64),
        };
        let cached = crate::graph::copy_ids(&vertices);
        let result = RangeQueryResult {
            vertices_in_range: vertices,
            neighbor_connections: connections,
            total_edges_in_range: total,
            density_numerator: total,
            possible_edges,
        };
        proof {
            assert(key_m.len() > 0) by {
                assert(key_m[0] == 'r') by {
                    reveal_strlit("range_");
                }
            }
        }
        match key {
            Some(k) => {
                self.cache_result(k, cached);
            },
            None => {},
        }
        proof {
            assert(cached@ == vs);
            assert(result.vertices_in_range@ == vs);
            assert(conn_view(result.neighbor_connections@) == range_conns(nb, vs, start_vertex, end_vertex));
            assert(result.total_edges_in_range == in_range_total(nb, vs, start_vertex, end_vertex));
            assert(result.possible_edges == vertex_pairs(vs.len()));
            assert(stats.edges_traversed == degree_total(nb, vs));
            assert(stats.cache_hits == (if context.use_cache && cache_index(old(self).cache.model(), key_m) is Some { 1usize } else { 0usize }));
            assert(stats.cache_misses == (if context.use_cache { 1usize } else { 0usize }));
            if context.use_cache {
                assert(exists|t: u64| self.cache.model() == cache_put(touched.model(), old(self).cache.spec_max_size(), key_m, vs, t));
                let t = choose|t: u64| self.cache.model() == cache_put(touched.model(), old(self).cache.spec_max_size(), key_m, vs, t);
                assert(self.cache.model() == cache_put(cache_touched(old(self).cache.model(), key_m), old(self).cache.spec_max_size(), key_m, vs, t));
            } else {
                assert(self.cache.model() == old(self).cache.model());
            }
            assert(vs == g.spec_storage().spec_vertices().filter(id_range(start_vertex, end_vertex)));
            assert(stats.vertices_visited == vs.len());
            assert(result.density_numerator == result.total_edges_in_range);
        }
        let out = Ok((result, stats));
        out
    }

    /// Range queries over several ranges, sorted by start id (ranges with
    /// equal starts in their order), one after another, with their
    /// statistics added up. Where the time runs out before a range, a
    /// timeout error; a range query's error is passed on.
    pub fn multi_range_query(&mut self, ranges: Vec<(VertexId, VertexId)>, context: &QueryContext) -> (r: Result<
        (Vec<RangeQueryResult>, QueryStats),
        AsterError,
    >)
        ensures
            final(self).graph == old(self).graph,
            final(self).cache.spec_max_size() == old(self).cache.spec_max_size(),
            multi_range_ok(old(self).graph, old(self).cache, ranges@, *context, r, final(self).cache),
            r is Err ==> exists|t: u128| #[trigger] over_limit(t, context.timeout_ms),
    {
        let start_time = instant_now();
        let clock = || -> (t: u128) { elapsed_millis(&start_time) };
        self.multi_range_query_with_clock(ranges, context, &clock)
    }

    /// As [`QueryEngine::multi_range_query`], with the elapsed milliseconds read from
    /// `now_ms` before each step: the work goes through when every reading is
    /// within the context's limit, and stops at the first reading past it.
    pub fn multi_range_query_with_clock<C: Fn() -> u128>(&mut self, ranges: Vec<(VertexId, VertexId)>, context: &QueryContext, now_ms: &C) -> (r: Result<
        (Vec<RangeQueryResult>, QueryStats),
        AsterError,
    >)
        requires
            call_requires(*now_ms, ()),
        ensures
            final(self).graph == old(self).graph,
            final(self).cache.spec_max_size() == old(self).cache.spec_max_size(),
            multi_range_ok(old(self).graph, old(self).cache, ranges@, *context, r, final(self).cache),
            r is Ok ==> ran_within(*now_ms, multi_checks(old(self).graph, stable_sort(ranges@, by_range_start())), context.timeout_ms),
            r is Err ==> stopped_before(*now_ms, multi_checks(old(self).graph, stable_sort(ranges@, by_range_start())), context.timeout_ms),
    {
        let sorted = sort_ranges(&ranges);
        let ghost sv = sorted@;
        let ghost caches: Seq<QueryCache> = seq![self.cache];
        let ghost per: Seq<QueryStats> = Seq::empty();
        let mut results: Vec<RangeQueryResult> = Vec::new();
        let mut visited: usize = 0;
        let mut edges: usize = 0;
        let mut hits: usize = 0;
        let mut misses: usize = 0;
        let mut i: usize = 0;
        let ghost mut rs: Seq<u128> = Seq::empty();
        proof {
            lemma_range_chain_empty(old(self).graph, self.cache, sv, *context);
            assert(sv.take(0) =~= Seq::<(VertexId, VertexId)>::empty());
        }
        while i < sorted.len()
            invariant
                call_requires(*now_ms, ()),
                i <= sorted@.len(),
                sv == sorted@,
                sv == stable_sort(ranges@, by_range_start()),
                self.graph == old(self).graph,
                self.cache.spec_max_size() == old(self).cache.spec_max_size(),
                range_chain(old(self).graph, caches, sv, *context, results@, per),
                results@.len() == i,
                caches.len() == i + 1,
                caches[0] == old(self).cache,
                caches[i as int] == self.cache,
                stats_totals(per) == (visited, edges, hits, misses),
                rs.len() == multi_checks(old(self).graph, sv.take(i as int)),
                within_readings(*now_ms, rs, context.timeout_ms),
            decreases sorted@.len() - i,
        {
            let reading = now_ms();
            match check_deadline(reading, context.timeout_ms, "Multi-range query timeout") {
                Err(err) => {
                    proof {
                        assert(caches.last() == self.cache);
                        assert(call_ensures(*now_ms, (), reading));
                        assert(within_readings(*now_ms, rs, context.timeout_ms));
                        assert(sv.take(i + 1).drop_last() =~= sv.take(i as int));
                        lemma_multi_checks_grow(old(self).graph, sv, i + 1, sv.len() as int);
                        assert(sv.take(sv.len() as int) =~= sv);
                    }
                    return Err(err);
                },
                Ok(()) => {},
            }
            proof {
                lemma_within_push(*now_ms, rs, reading, context.timeout_ms);
                rs = rs.push(reading);
            }
            let (s, e) = sorted[i];
            proof {
                let tk = sv.take(i + 1);
                assert(tk.drop_last() =~= sv.take(i as int));
                assert(tk.last() == (s, e));
            }
            match self.range_query_with_clock(s, e, context, now_ms) {
                Ok((res, st)) => {
                    proof {
                        let more = choose|more: Seq<u128>|
                            more.len() == range_size(old(self).graph, s, e) && #[trigger] within_readings(*now_ms, more, context.timeout_ms);
                        lemma_within_concat(*now_ms, rs, more, context.timeout_ms);
                        rs = rs + more;
                    }
                    visited = bump_exec(visited, st.vertices_visited);
                    edges = bump_exec(edges, st.edges_traversed);
                    hits = bump_exec(hits, st.cache_hits);
                    misses = bump_exec(misses, st.cache_misses);
                    let ghost old_per = per;
                    proof {
                        lemma_range_chain_push(old(self).graph, caches, sv, *context, results@, per, self.cache, res, st);
                        caches = caches.push(self.cache);
                        per = per.push(st);
                        assert(per.drop_last() =~= old_per);
                    }
                    results.push(res);
                },
                Err(err) => {
                    proof {
                        assert(caches.last() == caches[i as int]);
                        let (more, t) = choose|more: Seq<u128>, t: u128|
                            #![trigger within_readings(*now_ms, more, context.timeout_ms), call_ensures(*now_ms, (), t)]
                            {
                                &&& more.len() < range_size(old(self).graph, s, e)
                                &&& within_readings(*now_ms, more, context.timeout_ms)
                                &&& call_ensures(*now_ms, (), t)
                                &&& over_limit(t, context.timeout_ms)
                            };
                        lemma_within_concat(*now_ms, rs, more, context.timeout_ms);
                        assert(within_readings(*now_ms, rs + more, context.timeout_ms));
                        assert(call_ensures(*now_ms, (), t));
                        lemma_multi_checks_grow(old(self).graph, sv, i + 1, sv.len() as int);
                        assert(sv.take(sv.len() as int) =~= sv);
                    }
                    return Err(err);
                },
            }
            i = i + 1;
        }
        let stats = QueryStats {
            vertices_visited: visited,
            edges_traversed: edges,
            cache_hits: hits,
            cache_misses: misses,
            execution_time_ms: #[verifier::truncate] (now_ms() as u64),
        };
        proof {
            assert(caches.last() == self.cache);
            assert(sv.take(sv.len() as int) =~= sv);
            assert(within_readings(*now_ms, rs, context.timeout_ms));
            lemma_multi_range_done(old(self).graph, old(self).cache, ranges@, *context, results, stats, caches, per, self.cache);
        }
        let out = Ok((results, stats));
        out
    }

    /// The connected components of `vertices`: two listed vertices are in
    /// one component when a path of edges between listed vertices, each
    /// taken in either direction, joins them. Each listed vertex is looked
    /// up once for every time it is listed; where the time runs out before a
    /// lookup, a timeout error.
    pub fn connected_components(&self, vertices: Vec<VertexId>, context: &QueryContext) -> (r: Result<
        (Vec<Vec<VertexId>>, QueryStats),
        AsterError,
    >)
        ensures
            components_ok(self.graph, vertices@, *context, r),
            r is Err ==> exists|t: u128| #[trigger] over_limit(t, context.timeout_ms),
    {
        let start_time = instant_now();
        let clock = || -> (t: u128) { elapsed_millis(&start_time) };
        self.connected_components_with_clock(vertices, context, &clock)
    }

    /// As [`QueryEngine::connected_components`], with the elapsed milliseconds read from
    /// `now_ms` before each step: the work goes through when every reading is
    /// within the context's limit, and stops at the first reading past it.
    pub fn connected_components_with_clock<C: Fn() -> u128>(&self, vertices: Vec<VertexId>, context: &QueryContext, now_ms: &C) -> (r: Result<
        (Vec<Vec<VertexId>>, QueryStats),
        AsterError,
    >)
        requires
            call_requires(*now_ms, ()),
        ensures
            components_ok(self.graph, vertices@, *context, r),
            r is Ok ==> ran_within(*now_ms, vertices@.len(), context.timeout_ms),
            r is Err ==> stopped_before(*now_ms, vertices@.len(), context.timeout_ms),
    {
        let ghost nb = graph_nb(self.graph);
        let ghost vs = vertices@;
        let ds = distinct_vertices(&vertices);
        let mut lab = own_labels(ds.len());
        let ghost mut e: Seq<(int, int)> = Seq::empty();
        proof {
            lemma_labels_start(lab@);
            assert(vs.take(0) =~= Seq::<VertexId>::empty());
        }
        let mut edges: usize = 0;
        let mut t: usize = 0;
        let ghost mut rs: Seq<u128> = Seq::empty();
        while t < vertices.len()
            invariant
                call_requires(*now_ms, ()),
                t <= vs.len(),
                vs == vertices@,
                nb == graph_nb(self.graph),
                search_state(nb, vs, ds@, lab@, e),
                edges == degree_total(nb, vs.take(t as int)),
                forall|a: VertexId, b: VertexId|
                    vs.take(t as int).contains(a) && vs.contains(b) && #[trigger] nb(a).contains(b) ==> covered(e, ds@, a, b),
                rs.len() == t,
                within_readings(*now_ms, rs, context.timeout_ms),
            decreases vs.len() - t,
        {
            let reading = now_ms();
            match check_deadline(reading, context.timeout_ms, "Connected components query timeout") {
                Err(err) => {
                    proof {
                        assert(call_ensures(*now_ms, (), reading));
                        assert(within_readings(*now_ms, rs, context.timeout_ms));
                    }
                    return Err(err);
                },
                Ok(()) => {},
            }
            proof {
                lemma_within_push(*now_ms, rs, reading, context.timeout_ms);
                rs = rs.push(reading);
            }
            let v = vertices[t];
            let ns = self.graph.get_neighbors(v);
            proof {
                let tk = vs.take(t + 1);
                assert(tk.drop_last() =~= vs.take(t as int));
                assert(tk.last() == v);
                assert(vs.contains(v));
            }
            edges = bump_exec(edges, ns.len());
            let a = number_in(&ds, v);
            let mut j: usize = 0;
            while j < ns.len()
                invariant
                    call_requires(*now_ms, ()),
                    j <= ns@.len(),
                    t < vs.len(),
                    vs == vertices@,
                    ns@ == nb(v),
                    v == vs[t as int],
                    a < ds@.len(),
                    ds@[a as int] == v,
                    search_state(nb, vs, ds@, lab@, e),
                    forall|a2: VertexId, b: VertexId|
                        vs.take(t as int).contains(a2) && vs.contains(b) && #[trigger] nb(a2).contains(b) ==> covered(e, ds@, a2, b),
                    forall|b: VertexId| vs.contains(b) && #[trigger] ns@.take(j as int).contains(b) ==> covered(e, ds@, v, b),
                decreases ns@.len() - j,
            {
                let n = ns[j];
                let ghost tj = ns@.take(j + 1);
                let ghost e_top = e;
                proof {
                    assert(tj.drop_last() =~= ns@.take(j as int));
                }
                if contains_id(&vertices, n) {
                    let b = number_in(&ds, n);
                    let ghost e0 = e;
                    proof {
                        assert(ns@.contains(n)) by {
                            assert(ns@[j as int] == n);
                        }
                        assert(vs.contains(v));
                        assert(pair_ok(nb, vs, ds@, (a as int, b as int)));
                    }
                    join(&mut lab, a, b, Ghost(nb), Ghost(vs), Ghost(ds@), Ghost(e));
                    proof {
                        e = e.push((a as int, b as int));
                        assert forall|x: VertexId, y: VertexId| covered(e0, ds@, x, y) implies covered(e, ds@, x, y) by {
                            let k = choose|k: int| 0 <= k < e0.len() && #[trigger] ds@[e0[k].0] == x && ds@[e0[k].1] == y;
                            assert(e[k] == e0[k]);
                        }
                        assert(covered(e, ds@, v, n)) by {
                            assert(e[e0.len() as int] == (a as int, b as int));
                        }
                    }
                }
                proof {
                    assert forall|b: VertexId| vs.contains(b) && #[trigger] tj.contains(b) implies covered(e, ds@, v, b) by {
                        let k = choose|k: int| 0 <= k < tj.len() && tj[k] == b;
                        if k < j {
                            assert(ns@.take(j as int)[k] == b);
                            assert(ns@.take(j as int).contains(b));
                            assert(covered(e_top, ds@, v, b));
                            if e != e_top {
                                let i = choose|i: int| 0 <= i < e_top.len() && #[trigger] ds@[e_top[i].0] == v && ds@[e_top[i].1] == b;
                                assert(e[i] == e_top[i]);
                            }
                        } else {
                            assert(b == n);
                        }
                    }
                }
                j = j + 1;
            }
            proof {
                assert(ns@.take(ns@.len() as int) =~= ns@);
                let tk = vs.take(t + 1);
                assert forall|a2: VertexId, b: VertexId|
                    tk.contains(a2) && vs.contains(b) && #[trigger] nb(a2).contains(b) implies covered(e, ds@, a2, b) by {
                    let k = choose|k: int| 0 <= k < tk.len() && tk[k] == a2;
                    if k < t {
                        assert(vs.take(t as int)[k] == a2);
                    } else {
                        assert(a2 == v);
                        assert(ns@.contains(b));
                    }
                }
            }
            t = t + 1;
        }
        proof {
            assert(vs.take(vs.len() as int) =~= vs);
            assert forall|x: int, y: int|
                0 <= x < ds@.len() && 0 <= y < ds@.len() implies (#[trigger] lab@[x] == #[trigger] lab@[y] <==> reachable(nb, vs, ds@[x], ds@[y])) by {
                lemma_labels_reach(nb, vs, ds@, e, lab@, x, y);
            }
        }
        let (groups, reps) = group_by_label(&ds, &lab);
        proof {
            lemma_groups_are_components(nb, vs, ds@, lab@, groups@, reps@);
        }
        let stats = QueryStats {
            vertices_visited: vertices.len(),
            edges_traversed: edges,
            cache_hits: 0,
            cache_misses: 0,
            execution_time_ms: #[verifier::truncate] (now_ms() as u64),
        };
        Ok((groups, stats))
    }

    /// A shortest route from `start` to `target`, every edge counting one,
    /// or `None` where there is none. Vertices are taken from the queue
    /// nearest first; where the time runs out before a lookup, a timeout
    /// error.
    pub fn shortest_path(&self, start: VertexId, target: VertexId, context: &QueryContext) -> (r: Result<
        (Option<Vec<VertexId>>, QueryStats),
        AsterError,
    >)
        ensures
            shortest_ok(self.graph, start, target, *context, "Shortest path query timeout"@, r),
            r is Err ==> target != start && exists|t: u128| #[trigger] over_limit(t, context.timeout_ms),
    {
        let start_time = instant_now();
        let clock = || -> (t: u128) { elapsed_millis(&start_time) };
        self.shortest_path_with_clock(start, target, context, &clock)
    }

    /// As [`QueryEngine::shortest_path`], with the elapsed milliseconds read from
    /// `now_ms` before each step: the work goes through when every reading is
    /// within the context's limit, and stops at the first reading past it.
    pub fn shortest_path_with_clock<C: Fn() -> u128>(&self, start: VertexId, target: VertexId, context: &QueryContext, now_ms: &C) -> (r: Result<
        (Option<Vec<VertexId>>, QueryStats),
        AsterError,
    >)
        requires
            call_requires(*now_ms, ()),
        ensures
            shortest_ok(self.graph, start, target, *context, "Shortest path query timeout"@, r),
            r matches Ok((found, stats)) ==> ran_within(
                *now_ms,
                (if found is Some { stats.vertices_visited - 1 } else { stats.vertices_visited as int }) as nat,
                context.timeout_ms,
            ),
            r is Err ==> stopped(*now_ms, context.timeout_ms) && target != start,
    {
        let ghost nb = graph_nb(self.graph);
        match self.route_search(start, Some(target), context.timeout_ms, now_ms, "Shortest path query timeout") {
            Err(e) => Err(e),
            Ok((w, d, par, h, edges)) => {
                let stats_time = #[verifier::truncate] (now_ms() as u64);
                if h < w.len() {
                    let p = route_back(&w, &par, h, Ghost(nb), Ghost(start), Ghost(d@));
                    let stats = QueryStats {
                        vertices_visited: h + 1,
                        edges_traversed: edges,
                        cache_hits: 0,
                        cache_misses: 0,
                        execution_time_ms: stats_time,
                    };
                    proof {
                        let dh = d@[h as int] as int;
                        assert forall|i: int| 0 <= i < w@.len() && #[trigger] d@[i] < dh implies i < h by {
                            if i >= h {
                                assert(d@[h as int] <= d@[i]);
                            }
                        }
                        assert forall|q: Seq<VertexId>| #[trigger] is_route(nb, q) && q[0] == start && q.last() == target implies p@.len()
                            <= q.len() by {
                            if q.len() < p@.len() {
                                lemma_route_found(nb, start, w@, d@, par@, h as int, dh, q, q.len() - 1);
                                let j = choose|j: int| 0 <= j < w@.len() && w@[j] == q[q.len() - 1] && d@[j] <= q.len() - 1;
                                assert(w@[j] == w@[h as int]);
                                assert(j == h);
                            }
                        }
                        let popped = w@.take(h + 1);
                        assert forall|k: int| 0 <= k < popped.len() implies reaches(nb, start, #[trigger] popped[k]) by {
                            lemma_found_reached(nb, start, w@, d@, par@, k);
                        }
                        assert forall|a: int, b: int| 0 <= a < popped.len() && 0 <= b < popped.len() && a != b implies popped[a]
                            != popped[b] by {
                            assert(popped[a] == w@[a] && popped[b] == w@[b]);
                        }
                        assert(popped.drop_last() =~= w@.take(h as int));
                        assert(popped_ok(nb, start, popped));
                    }
                    Ok((Some(p), stats))
                } else {
                    let stats = QueryStats {
                        vertices_visited: w.len(),
                        edges_traversed: edges,
                        cache_hits: 0,
                        cache_misses: 0,
                        execution_time_ms: stats_time,
                    };
                    proof {
                        assert(w@.take(h as int) =~= w@);
                        assert forall|v: VertexId| reaches(nb, start, v) implies #[trigger] w@.contains(v) by {
                            let q = choose|q: Seq<VertexId>| #[trigger] is_route(nb, q) && q[0] == start && q.last() == v;
                            lemma_route_found(nb, start, w@, d@, par@, h as int, q.len() as int, q, q.len() - 1);
                            let j = choose|j: int| 0 <= j < w@.len() && w@[j] == q[q.len() - 1] && d@[j] <= q.len() - 1;
                            assert(w@[j] == v);
                        }
                        assert forall|k: int| 0 <= k < w@.len() implies reaches(nb, start, #[trigger] w@[k]) by {
                            lemma_found_reached(nb, start, w@, d@, par@, k);
                        }
                        assert(popped_ok(nb, start, w@));
                    }
                    Ok((None, stats))
                }
            },
        }
    }

    /// For every vertex reachable from `start`, a shortest route to it,
    /// every edge counting one, in the order the vertices are found (nearest
    /// first). Where the time runs out before a lookup, a timeout error.
    pub fn single_source_shortest_paths(&self, start: VertexId, context: &QueryContext) -> (r: Result<
        (Vec<(VertexId, Vec<VertexId>)>, QueryStats),
        AsterError,
    >)
        ensures
            all_shortest_ok(self.graph, start, *context, r),
            r is Err ==> exists|t: u128| #[trigger] over_limit(t, context.timeout_ms),
    {
        let start_time = instant_now();
        let clock = || -> (t: u128) { elapsed_millis(&start_time) };
        self.single_source_shortest_paths_with_clock(start, context, &clock)
    }

    /// As [`QueryEngine::single_source_shortest_paths`], with the elapsed milliseconds read from
    /// `now_ms` before each step: the work goes through when every reading is
    /// within the context's limit, and stops at the first reading past it.
    pub fn single_source_shortest_paths_with_clock<C: Fn() -> u128>(&self, start: VertexId, context: &QueryContext, now_ms: &C) -> (r: Result<
        (Vec<(VertexId, Vec<VertexId>)>, QueryStats),
        AsterError,
    >)
        requires
            call_requires(*now_ms, ()),
        ensures
            all_shortest_ok(self.graph, start, *context, r),
            r matches Ok((paths, _)) ==> ran_within(*now_ms, paths@.len(), context.timeout_ms),
            r is Err ==> stopped(*now_ms, context.timeout_ms),
    {
        let ghost nb = graph_nb(self.graph);
        match self.route_search(start, None, context.timeout_ms, now_ms, "Single-source shortest paths timeout") {
            Err(e) => Err(e),
            Ok((w, d, par, h, edges)) => {
                let mut paths: Vec<(VertexId, Vec<VertexId>)> = Vec::new();
                let mut i: usize = 0;
                while i < w.len()
                    invariant
                        call_requires(*now_ms, ()),
                        i <= w@.len(),
                        h == w@.len(),
                        nb == graph_nb(self.graph),
                        search_tree(nb, start, w@, d@, par@),
                        expanded(nb, w@, d@, h as int),
                        route_keys(paths@) == w@.take(i as int),
                        forall|k: int| 0 <= k < paths@.len() ==> is_shortest(nb, (#[trigger] paths@[k]).1@, start, paths@[k].0),
                    decreases w@.len() - i,
                {
                    let p = route_back(&w, &par, i, Ghost(nb), Ghost(start), Ghost(d@));
                    proof {
                        assert forall|q: Seq<VertexId>| #[trigger] is_route(nb, q) && q[0] == start && q.last() == w@[i as int]
                            implies p@.len() <= q.len() by {
                            lemma_route_found(nb, start, w@, d@, par@, h as int, q.len() as int, q, q.len() - 1);
                            let j = choose|j: int| 0 <= j < w@.len() && w@[j] == q[q.len() - 1] && d@[j] <= q.len() - 1;
                            assert(w@[j] == w@[i as int]);
                            assert(j == i);
                        }
                    }
                    let ghost before = paths@;
                    paths.push((w[i], p));
                    proof {
                        assert(route_keys(paths@) =~= w@.take(i + 1)) by {
                            assert(route_keys(paths@) =~= route_keys(before).push(w@[i as int]));
                        }
                        assert forall|k: int| 0 <= k < paths@.len() implies is_shortest(nb, (#[trigger] paths@[k]).1@, start, paths@[k].0) by {
                            if k < before.len() {
                                assert(paths@[k] == before[k]);
                            }
                        }
                    }
                    i = i + 1;
                }
                let stats = QueryStats {
                    vertices_visited: paths.len(),
                    edges_traversed: edges,
                    cache_hits: 0,
                    cache_misses: 0,
                    execution_time_ms: #[verifier::truncate] (now_ms() as u64),
                };
                proof {
                    assert(w@.take(w@.len() as int) =~= w@);
                    assert(route_keys(paths@) == w@);
                    assert forall|v: VertexId| reaches(nb, start, v) implies #[trigger] w@.contains(v) by {
                        let q = choose|q: Seq<VertexId>| #[trigger] is_route(nb, q) && q[0] == start && q.last() == v;
                        lemma_route_found(nb, start, w@, d@, par@, h as int, q.len() as int, q, q.len() - 1);
                        let j = choose|j: int| 0 <= j < w@.len() && w@[j] == q[q.len() - 1] && d@[j] <= q.len() - 1;
                        assert(w@[j] == v);
                    }
                    assert forall|v: VertexId| #[trigger] w@.contains(v) implies reaches(nb, start, v) by {
                        let k = choose|k: int| 0 <= k < w@.len() && w@[k] == v;
                        lemma_found_reached(nb, start, w@, d@, par@, k);
                    }
                }
                Ok((paths, stats))
            },
        }
    }

    /// The links PageRank runs on for `vertices`: each one's out-degree (at
    /// least one, so that no score is divided by zero) and the listed
    /// vertices with an edge to it; with the neighbours looked up, one
    /// lookup for each place in the list.
    pub fn pagerank_links(&self, vertices: &Vec<VertexId>) -> (r: (RankLinks, usize))
        ensures
            rank_links_ok(graph_nb(self.graph), vertices@, r.0),
            r.1 == degree_total(graph_nb(self.graph), vertices@),
    {
        let ghost nb = graph_nb(self.graph);
        let ghost vs = vertices@;
        let mut lists: Vec<Vec<VertexId>> = Vec::new();
        let mut degrees: Vec<usize> = Vec::new();
        let mut k: usize = 0;
        while k < vertices.len()
            invariant
                k <= vs.len(),
                vs == vertices@,
                nb == graph_nb(self.graph),
                lists@.len() == k,
                degrees@.len() == k,
                forall|j: int| 0 <= j < k ==> #[trigger] degrees@[j] == (if nb(vs[j]).len() == 0 { 1 } else { nb(vs[j]).len() }),
                forall|j: int| 0 <= j < k ==> (#[trigger] lists@[j])@ == incoming_of(nb, vs, vs[j]),
            decreases vs.len() - k,
        {
            let x = vertices[k];
            let n = self.graph.get_neighbors(x).len();
            degrees.push(if n == 0 { 1 } else { n });
            let mut into: Vec<VertexId> = Vec::new();
            let mut i: usize = 0;
            proof {
                assert(vs.take(0) =~= Seq::<VertexId>::empty());
            }
            while i < vertices.len()
                invariant
                    i <= vs.len(),
                    vs == vertices@,
                    nb == graph_nb(self.graph),
                    into@ == incoming_of(nb, vs.take(i as int), x),
                decreases vs.len() - i,
            {
                let u = vertices[i];
                let ns = self.graph.get_neighbors(u);
                let c = count_of(&ns, x);
                let ghost before = into@;
                let mut m: usize = 0;
                while m < c
                    invariant
                        m <= c,
                        into@ == before + Seq::new(m as nat, |j: int| u),
                    decreases c - m,
                {
                    into.push(u);
                    proof {
                        assert(into@ =~= before + Seq::new((m + 1) as nat, |j: int| u));
                    }
                    m = m + 1;
                }
                proof {
                    let t = vs.take(i + 1);
                    assert(t.drop_last() =~= vs.take(i as int));
                    assert(t.last() == u);
                    assert(into@ =~= incoming_of(nb, vs.take(i as int), x) + Seq::new(occurrences(nb(u), x), |j: int| u));
                }
                i = i + 1;
            }
            proof {
                assert(vs.take(vs.len() as int) =~= vs);
            }
            let ghost lists0 = lists@;
            let ghost degrees0 = degrees@;
            lists.push(into);
            proof {
                assert forall|j: int| 0 <= j < k + 1 implies (#[trigger] lists@[j])@ == incoming_of(nb, vs, vs[j]) by {
                    if j < k {
                        assert(lists@[j] == lists0[j]);
                    }
                }
            }
            k = k + 1;
        }
        let mut edges: usize = 0;
        let mut i: usize = 0;
        while i < vertices.len()
            invariant
                i <= vs.len(),
                vs == vertices@,
                nb == graph_nb(self.graph),
                edges == degree_total(nb, vs.take(i as int)),
            decreases vs.len() - i,
        {
            proof {
                let t = vs.take(i + 1);
                assert(t.drop_last() =~= vs.take(i as int));
                assert(t.last() == vs[i as int]);
            }
            edges = bump_exec(edges, self.graph.get_neighbors(vertices[i]).len());
            i = i + 1;
        }
        proof {
            assert(vs.take(vs.len() as int) =~= vs);
        }
        (RankLinks { out_degrees: degrees, incoming: lists }, edges)
    }

    /// Breadth-first search from `start` along the edges, each counting one,
    /// until `target` is taken from the queue or the queue runs out: the
    /// vertices found in order with their distances and the numbers they
    /// were found from, how many were taken from the queue before the end,
    /// and their neighbours counted.
    fn route_search<C: Fn() -> u128>(
        &self,
        start: VertexId,
        target: Option<VertexId>,
        timeout_ms: Option<u64>,
        now_ms: &C,
        msg: &str,
    ) -> (r: Result<(Vec<VertexId>, Vec<usize>, Vec<usize>, usize, usize), AsterError>)
        requires
            call_requires(*now_ms, ()),
        ensures
            match r {
                Ok((w, d, par, h, edges)) => {
                    &&& search_tree(graph_nb(self.graph), start, w@, d@, par@)
                    &&& h <= w@.len()
                    &&& expanded(graph_nb(self.graph), w@, d@, h as int)
                    &&& edges == degree_total(graph_nb(self.graph), w@.take(h as int))
                    &&& match target {
                        Some(t) => (h < w@.len() && w@[h as int] == t) || (h == w@.len() && !w@.contains(t)),
                        None => h == w@.len(),
                    }
                    &&& ran_within(*now_ms, h as nat, timeout_ms)
                },
                Err(e) => e.spec_kind() == ErrorKind::Timeout && e.spec_text() == msg@ && stopped(*now_ms, timeout_ms) && target != Some(start),
            },
    {
        let ghost nb = graph_nb(self.graph);
        let mut w: Vec<VertexId> = Vec::new();
        w.push(start);
        let mut d: Vec<usize> = Vec::new();
        d.push(0);
        let mut par: Vec<usize> = Vec::new();
        par.push(0);
        let mut h: usize = 0;
        let mut edges: usize = 0;
        let ghost mut rs: Seq<u128> = Seq::empty();
        proof {
            assert(w@.take(0) =~= Seq::<VertexId>::empty());
        }
        while h < w.len()
            invariant
                call_requires(*now_ms, ()),
                nb == graph_nb(self.graph),
                search_tree(nb, start, w@, d@, par@),
                h <= w@.len(),
                forall|i: int| 0 <= i < w@.len() ==> #[trigger] d@[i] <= i,
                expanded(nb, w@, d@, h as int),
                edges == degree_total(nb, w@.take(h as int)),
                h < w@.len() ==> d@.last() <= d@[h as int] + 1,
                target matches Some(t) ==> forall|i: int| 0 <= i < h ==> #[trigger] w@[i] != t,
                rs.len() == h,
                within_readings(*now_ms, rs, timeout_ms),
            decreases usize::MAX - h,
        {
            let v = w[h];
            match target {
                Some(t) => {
                    if v == t {
                        return Ok((w, d, par, h, edges));
                    }
                },
                None => {},
            }
            let reading = now_ms();
            match check_deadline(reading, timeout_ms, msg) {
                Err(err) => {
                    proof {
                        assert(call_ensures(*now_ms, (), reading));
                        assert(within_readings(*now_ms, rs, timeout_ms));
                    }
                    return Err(err);
                },
                Ok(()) => {},
            }
            proof {
                lemma_within_push(*now_ms, rs, reading, timeout_ms);
                rs = rs.push(reading);
            }
            let ns = self.graph.get_neighbors(v);
            let dv = d[h];
            let ghost w0 = w@;
            let ghost d0 = d@;
            let ghost par0 = par@;
            let mut j: usize = 0;
            proof {
                assert(ns@.take(0) =~= Seq::<VertexId>::empty());
            }
            while j < ns.len()
                invariant
                    j <= ns@.len(),
                    nb == graph_nb(self.graph),
                    ns@ == nb(v),
                    h < w0.len(),
                    w0[h as int] == v,
                    d0[h as int] == dv,
                    dv <= h,
                    dv < usize::MAX,
                    w0.len() <= w@.len(),
                    w@.take(w0.len() as int) == w0,
                    d@.take(w0.len() as int) == d0,
                    search_tree(nb, start, w@, d@, par@),
                    forall|i: int| 0 <= i < w@.len() ==> #[trigger] d@[i] <= i,
                    expanded(nb, w@, d@, h as int),
                    d@.last() <= dv + 1,
                    forall|y: VertexId| #[trigger] ns@.take(j as int).contains(y) ==> found_within(w@, d@, y, dv + 1),
                decreases ns@.len() - j,
            {
                let y = ns[j];
                let ghost tj = ns@.take(j + 1);
                proof {
                    assert(tj.drop_last() =~= ns@.take(j as int));
                    assert(w@[h as int] == v) by {
                        assert(w@.take(w0.len() as int)[h as int] == w0[h as int]);
                    }
                    assert(d@[h as int] == dv) by {
                        assert(d@.take(w0.len() as int)[h as int] == d0[h as int]);
                    }
                }
                if !contains_id(&w, y) {
                    let ghost wb = w@;
                    let ghost db = d@;
                    let ghost pb = par@;
                    w.push(y);
                    d.push(dv + 1);
                    par.push(h);
                    proof {
                        lemma_expanded_grow(nb, wb, db, h as int, y, (dv + 1) as usize);
                        let n = wb.len() as int;
                        assert(ns@.contains(y)) by {
                            assert(ns@[j as int] == y);
                        }
                        assert forall|i: int|
                            1 <= i < w@.len() implies (#[trigger] par@[i]) < i && d@[i] == d@[par@[i] as int] + 1
                            && nb(w@[par@[i] as int]).contains(w@[i]) by {
                            if i < n {
                                assert(par@[i] == pb[i] && d@[i] == db[i] && w@[i] == wb[i]);
                                assert(d@[pb[i] as int] == db[pb[i] as int]);
                                assert(w@[pb[i] as int] == wb[pb[i] as int]);
                            } else {
                                assert(par@[i] == h && d@[i] == dv + 1 && w@[i] == y);
                                assert(d@[h as int] == db[h as int]);
                                assert(w@[h as int] == wb[h as int]);
                            }
                        }
                        assert forall|i: int, k: int| 0 <= i <= k < w@.len() implies #[trigger] d@[i] <= #[trigger] d@[k] by {
                            if k == n {
                                if i < n {
                                    assert(db[i] <= db[n - 1]);
                                    assert(d@[i] == db[i]);
                                }
                            } else {
                                assert(d@[i] == db[i] && d@[k] == db[k]);
                            }
                        }
                        assert forall|a: int, b: int| 0 <= a < w@.len() && 0 <= b < w@.len() && a != b implies w@[a] != w@[b] by {
                            if a < n && b < n {
                                assert(w@[a] == wb[a] && w@[b] == wb[b]);
                            } else if a < n {
                                assert(wb.contains(w@[a]));
                            } else {
                                assert(wb.contains(w@[b]));
                            }
                        }
                        assert forall|i: int| 0 <= i < w@.len() implies #[trigger] d@[i] <= i by {
                            if i < n {
                                assert(d@[i] == db[i]);
                            }
                        }
                        assert(w@.take(w0.len() as int) =~= wb.take(w0.len() as int));
                        assert(d@.take(w0.len() as int) =~= db.take(w0.len() as int));
                        assert(found_within(w@, d@, y, dv + 1)) by {
                            assert(w@[n] == y && d@[n] == dv + 1);
                        }
                        assert forall|z: VertexId| #[trigger] ns@.take(j as int).contains(z) implies found_within(w@, d@, z, dv + 1) by {
                            assert(found_within(wb, db, z, dv + 1));
                            let k = choose|k: int| 0 <= k < wb.len() && wb[k] == z && db[k] <= dv + 1;
                            assert(w@[k] == z && d@[k] == db[k]);
                        }
                    }
                } else {
                    proof {
                        let k = choose|k: int| 0 <= k < w@.len() && w@[k] == y;
                        assert(d@[k] <= d@[w@.len() - 1]);
                        assert(found_within(w@, d@, y, dv + 1));
                    }
                }
                proof {
                    assert forall|z: VertexId| #[trigger] tj.contains(z) implies found_within(w@, d@, z, dv + 1) by {
                        let k = choose|k: int| 0 <= k < tj.len() && tj[k] == z;
                        if k < j {
                            assert(ns@.take(j as int)[k] == z);
                            assert(ns@.take(j as int).contains(z));
                        } else {
                            assert(z == y);
                        }
                    }
                }
                j = j + 1;
            }
            edges = bump_exec(edges, ns.len());
            proof {
                assert(ns@.take(ns@.len() as int) =~= ns@);
                assert(w@[h as int] == v) by {
                    assert(w@.take(w0.len() as int)[h as int] == w0[h as int]);
                }
                assert(d@[h as int] == dv) by {
                    assert(d@.take(w0.len() as int)[h as int] == d0[h as int]);
                }
                assert forall|i: int, z: VertexId| 0 <= i < h + 1 && #[trigger] nb(w@[i]).contains(z) implies exists|k: int|
                    0 <= k < w@.len() && w@[k] == z && d@[k] <= d@[i] + 1 by {
                    if i == h {
                        assert(nb(v).contains(z));
                        assert(ns@.contains(z));
                        assert(ns@.take(j as int) =~= ns@);
                        assert(ns@.take(j as int).contains(z));
                        assert(found_within(w@, d@, z, dv + 1));
                        let k = choose|k: int| 0 <= k < w@.len() && w@[k] == z && d@[k] <= dv + 1;
                        assert(d@[k] <= d@[i] + 1);
                    }
                }
                assert(w@.take(h + 1).drop_last() =~= w@.take(h as int));
                assert(w@.take(h as int) =~= w0.take(h as int)) by {
                    assert forall|i: int| 0 <= i < h implies w@.take(h as int)[i] == w0.take(h as int)[i] by {
                        assert(w@.take(w0.len() as int)[i] == w0[i]);
                    }
                }
                if h + 1 < w@.len() {
                    assert(d@[h as int] <= d@[h + 1]);
                }
                match target {
                    Some(t) => {
                        assert forall|i: int| 0 <= i < h + 1 implies #[trigger] w@[i] != t by {
                            assert(w@.take(w0.len() as int)[i] == w0[i]);
                        }
                    },
                    None => {},
                }
            }
            h = h + 1;
        }
        Ok((w, d, par, h, edges))
    }

    /// Breadth-first search from `start` down to the context's depth limit:
    /// each reachable vertex once, level by level, a vertex's unseen
    /// neighbours in stored order. Where the context has a timeout, the
    /// search fails with a timeout error when the time runs out before a
    /// lookup. The statistics count the vertices output and the neighbours
    /// looked up.
    pub fn bfs(&self, start: VertexId, context: &QueryContext) -> (r: Result<(Vec<VertexId>, QueryStats), AsterError>)
        ensures
            search_outcome(self.graph, start, *context, None, "BFS query timeout"@, r),
            search_timed(self.graph, start, *context, None, "BFS query timeout"@, |t: u128| true, r),
            r is Err ==> exists|t: u128| #[trigger] over_limit(t, context.timeout_ms),
    {
        let start_time = instant_now();
        let clock = || -> (t: u128) { elapsed_millis(&start_time) };
        let r = self.bfs_with_clock(start, context, &clock);
        proof {
            if r is Err {
                lemma_timed_failure_is_late(self.graph, start, *context, None, "BFS query timeout"@, r);
            }
        }
        r
    }

    /// As [`QueryEngine::bfs`], with the elapsed milliseconds read from
    /// `now_ms` before each step: the work goes through when every reading is
    /// within the context's limit, and stops at the first reading past it.
    pub fn bfs_with_clock<C: Fn() -> u128>(&self, start: VertexId, context: &QueryContext, now_ms: &C) -> (r: Result<(Vec<VertexId>, QueryStats), AsterError>)
        requires
            call_requires(*now_ms, ()),
        ensures
            search_outcome(self.graph, start, *context, None, "BFS query timeout"@, r),
            search_timed(self.graph, start, *context, None, "BFS query timeout"@, |t: u128| call_ensures(*now_ms, (), t), r),
    {
        self.search(start, context, now_ms, None, "BFS query timeout")
    }

    /// Breadth-first search that queues a vertex's unseen neighbours in the
    /// id range `range_start..=range_end` before its other unseen neighbours;
    /// otherwise as [`QueryEngine::bfs`].
    pub fn range_bfs(
        &self,
        start: VertexId,
        range_start: VertexId,
        range_end: VertexId,
        context: &QueryContext,
    ) -> (r: Result<(Vec<VertexId>, QueryStats), AsterError>)
        ensures
            search_outcome(self.graph, start, *context, Some((range_start, range_end)), "Range BFS timeout"@, r),
            search_timed(self.graph, start, *context, Some((range_start, range_end)), "Range BFS timeout"@, |t: u128| true, r),
            r is Err ==> exists|t: u128| #[trigger] over_limit(t, context.timeout_ms),
    {
        let start_time = instant_now();
        let clock = || -> (t: u128) { elapsed_millis(&start_time) };
        let r = self.range_bfs_with_clock(start, range_start, range_end, context, &clock);
        proof {
            if r is Err {
                lemma_timed_failure_is_late(self.graph, start, *context, Some((range_start, range_end)), "Range BFS timeout"@, r);
            }
        }
        r
    }

    /// As [`QueryEngine::range_bfs`], with the elapsed milliseconds read from
    /// `now_ms` before each step: the work goes through when every reading is
    /// within the context's limit, and stops at the first reading past it.
    pub fn range_bfs_with_clock<C: Fn() -> u128>(
        &self,
        start: VertexId,
        range_start: VertexId,
        range_end: VertexId,
        context: &QueryContext,
        now_ms: &C,
    ) -> (r: Result<(Vec<VertexId>, QueryStats), AsterError>)
        requires
            call_requires(*now_ms, ()),
        ensures
            search_outcome(self.graph, start, *context, Some((range_start, range_end)), "Range BFS timeout"@, r),
            search_timed(self.graph, start, *context, Some((range_start, range_end)), "Range BFS timeout"@, |t: u128| call_ensures(*now_ms, (), t), r),
    {
        self.search(start, context, now_ms, Some((range_start, range_end)), "Range BFS timeout")
    }

    /// Depth-first search from `start` down to the context's depth limit:
    /// each reachable vertex once, a vertex's neighbours explored in stored
    /// order. Where the context has a timeout, the search fails with a timeout
    /// error when the time runs out before a lookup. The statistics count the
    /// vertices output and the neighbours looked up.
    pub fn dfs(&self, start: VertexId, context: &QueryContext) -> (r: Result<(Vec<VertexId>, QueryStats), AsterError>)
        ensures
            match r {
                Ok((out, stats)) => exists|asked: Seq<VertexId>|
                    {
                        &&& dfs_run(
                            seq![(start, 0nat)],
                            Set::empty(),
                            Seq::empty(),
                            depth_limit(*context),
                            asked.map_values(graph_nb(self.graph)),
                        ) == Some((out@, asked))
                        &&& stats.vertices_visited == out@.len()
                        &&& stats.edges_traversed == degree_total(graph_nb(self.graph), asked)
                        &&& stats.cache_hits == 0
                        &&& stats.cache_misses == 0
                    },
                Err(e) => e.spec_kind() == ErrorKind::Timeout && e.spec_text() == "DFS query timeout"@,
            },
            r is Err ==> depth_limit(*context) > 0 && exists|t: u128| #[trigger] over_limit(t, context.timeout_ms),
    {
        let start_time = instant_now();
        let clock = || -> (t: u128) { elapsed_millis(&start_time) };
        self.dfs_with_clock(start, context, &clock)
    }

    /// As [`QueryEngine::dfs`], with the elapsed milliseconds read from
    /// `now_ms` before each step: the work goes through when every reading is
    /// within the context's limit, and stops at the first reading past it.
    pub fn dfs_with_clock<C: Fn() -> u128>(&self, start: VertexId, context: &QueryContext, now_ms: &C) -> (r: Result<(Vec<VertexId>, QueryStats), AsterError>)
        requires
            call_requires(*now_ms, ()),
        ensures
            match r {
                Ok((out, stats)) => exists|asked: Seq<VertexId>|
                    {
                        &&& dfs_run(
                            seq![(start, 0nat)],
                            Set::empty(),
                            Seq::empty(),
                            depth_limit(*context),
                            asked.map_values(graph_nb(self.graph)),
                        ) == Some((out@, asked))
                        &&& stats.vertices_visited == out@.len()
                        &&& stats.edges_traversed == degree_total(graph_nb(self.graph), asked)
                        &&& stats.cache_hits == 0
                        &&& stats.cache_misses == 0
                        &&& ran_within(*now_ms, asked.len(), context.timeout_ms)
                    },
                Err(e) => e.spec_kind() == ErrorKind::Timeout && e.spec_text() == "DFS query timeout"@,
            },
            r is Err ==> stopped(*now_ms, context.timeout_ms) && depth_limit(*context) > 0,
    {
        let max_depth: usize = match context.max_depth {
            Some(d) => d,
            None => usize::MAX,
        };
        let ghost md = max_depth as nat;
        let ghost nb = graph_nb(self.graph);
        let mut visited: HashSet<u64> = HashSet::new();
        let mut stack: Vec<(VertexId, usize)> = Vec::new();
        stack.push((start, 0));
        let mut result: Vec<VertexId> = Vec::new();
        let mut asked: Vec<VertexId> = Vec::new();
        let mut edges: usize = 0;
        let ghost init = seq![(start, 0nat)];
        let ghost mut ints: Set<int> = Set::empty();
        let ghost mut rs: Seq<u128> = Seq::empty();
        proof {
            assert(stack_view(stack@) =~= init);
            assert(visited@ =~= Set::<u64>::empty());
            assert forall|fut: Seq<Seq<VertexId>>|
                dfs_run(init, Set::empty(), Seq::empty(), md, asked@.map_values(nb) + fut) == dfs_after(
                    asked@,
                    #[trigger] dfs_run(stack_view(stack@), visited@, result@, md, fut),
                ) by {
                assert(asked@.map_values(nb) + fut =~= fut);
                match dfs_run(init, Set::empty(), Seq::empty(), md, fut) {
                    Some(ra) => {
                        assert(asked@ + ra.1 =~= ra.1);
                    },
                    None => {},
                }
            }
        }
        while stack.len() > 0
            invariant
                call_requires(*now_ms, ()),
                md == max_depth as nat,
                md == depth_limit(*context),
                nb == graph_nb(self.graph),
                init == seq![(start, 0nat)],
                forall|i: int| 0 <= i < stack@.len() ==> (#[trigger] stack@[i]).1 <= max_depth,
                forall|fut: Seq<Seq<VertexId>>|
                    dfs_run(init, Set::empty(), Seq::empty(), md, asked@.map_values(nb) + fut) == dfs_after(
                        asked@,
                        #[trigger] dfs_run(stack_view(stack@), visited@, result@, md, fut),
                    ),
                result@.len() <= ints.len(),
                edges == degree_total(nb, asked@),
                ints.finite(),
                forall|x: int| #[trigger] ints.contains(x) ==> 0 <= x < 0x1_0000_0000_0000_0000,
                forall|x: u64| #[trigger] visited@.contains(x) <==> ints.contains(x as int),
                rs.len() == asked@.len(),
                within_readings(*now_ms, rs, context.timeout_ms),
            decreases 0x1_0000_0000_0000_0000 - ints.len(), stack@.len(),
        {
            proof {
                vstd::set_lib::lemma_int_range(0, 0x1_0000_0000_0000_0000);
                vstd::set_lib::lemma_len_subset(ints, vstd::set_lib::set_int_range(0, 0x1_0000_0000_0000_0000));
            }
            let ghost cur_stack = stack_view(stack@);
            let ghost cur_vis = visited@;
            let ghost cur_out = result@;
            let ghost ints0 = ints;
            let (v, d) = stack.pop().unwrap();
            proof {
                assert(cur_stack.last() == (v, d as nat));
                assert(stack_view(stack@) =~= cur_stack.drop_last());
            }
            if visited.contains(&v.id) {
                proof {
                    assert forall|fut: Seq<Seq<VertexId>>|
                        dfs_run(init, Set::empty(), Seq::empty(), md, asked@.map_values(nb) + fut) == dfs_after(
                            asked@,
                            #[trigger] dfs_run(stack_view(stack@), visited@, result@, md, fut),
                        ) by {
                        assert(dfs_run(cur_stack, cur_vis, cur_out, md, fut) == dfs_run(stack_view(stack@), visited@, result@, md, fut));
                    }
                }
                continue;
            }
            visited.insert(v.id);
            result.push(v);
            proof {
                assert(!ints.contains(v.id as int));
                ints = ints.insert(v.id as int);
                assert forall|x: u64| #[trigger] visited@.contains(x) <==> ints.contains(x as int) by {
                    if x != v.id {
                        assert(x as int != v.id as int);
                    }
                }
            }
            if d >= max_depth {
                proof {
                    assert forall|fut: Seq<Seq<VertexId>>|
                        dfs_run(init, Set::empty(), Seq::empty(), md, asked@.map_values(nb) + fut) == dfs_after(
                            asked@,
                            #[trigger] dfs_run(stack_view(stack@), visited@, result@, md, fut),
                        ) by {
                        assert(dfs_run(cur_stack, cur_vis, cur_out, md, fut) == dfs_run(stack_view(stack@), visited@, result@, md, fut));
                    }
                    vstd::set_lib::lemma_len_subset(ints, vstd::set_lib::set_int_range(0, 0x1_0000_0000_0000_0000));
                }
                continue;
            }
            let reading = now_ms();
            match check_deadline(reading, context.timeout_ms, "DFS query timeout") {
                Err(err) => {
                    proof {
                        assert(depth_limit(*context) == max_depth as nat);
                        assert(call_ensures(*now_ms, (), reading));
                        assert(within_readings(*now_ms, rs, context.timeout_ms));
                    }
                    return Err(err);
                },
                Ok(()) => {},
            }
            proof {
                lemma_within_push(*now_ms, rs, reading, context.timeout_ms);
                rs = rs.push(reading);
            }
            let ns = self.graph.get_neighbors(v);
            edges = bump_exec(edges, ns.len());
            let ghost s0 = stack_view(stack@);
            let ghost vis = visited@;
            let mut k: usize = ns.len();
            proof {
                assert(ns@.skip(k as int) =~= Seq::<VertexId>::empty());
                assert(s0 + dfs_pushes(ns@.skip(k as int), vis, d as nat + 1) =~= s0);
            }
            while k > 0
                invariant
                    call_requires(*now_ms, ()),
                    k <= ns@.len(),
                    d < max_depth,
                    visited@ == vis,
                    stack_view(stack@) == s0 + dfs_pushes(ns@.skip(k as int), vis, d as nat + 1),
                    forall|i: int| 0 <= i < stack@.len() ==> (#[trigger] stack@[i]).1 <= max_depth,
                decreases k,
            {
                k = k - 1;
                let n = ns[k];
                let ghost before = stack_view(stack@);
                proof {
                    assert(ns@.skip(k as int).drop_first() =~= ns@.skip(k + 1));
                    assert(ns@.skip(k as int)[0] == n);
                }
                if !visited.contains(&n.id) {
                    stack.push((n, d + 1));
                    proof {
                        assert(stack_view(stack@) =~= before.push((n, d as nat + 1)));
                    }
                }
            }
            proof {
                assert(ns@.skip(0) =~= ns@);
                let new_stack = stack_view(stack@);
                assert(new_stack == cur_stack.drop_last() + dfs_pushes(nb(v), cur_vis.insert(v.id), d as nat + 1));
                assert(visited@ == cur_vis.insert(v.id));
                assert forall|fut: Seq<Seq<VertexId>>|
                    dfs_run(init, Set::empty(), Seq::empty(), md, asked@.push(v).map_values(nb) + fut) == dfs_after(
                        asked@.push(v),
                        #[trigger] dfs_run(new_stack, visited@, result@, md, fut),
                    ) by {
                    let fut1 = seq![nb(v)] + fut;
                    assert(fut1[0] == nb(v));
                    assert(fut1.drop_first() =~= fut);
                    assert(asked@.push(v).map_values(nb) + fut =~= asked@.map_values(nb) + fut1);
                    assert(dfs_run(cur_stack, cur_vis, cur_out, md, fut1) == dfs_after(seq![v], dfs_run(new_stack, visited@, result@, md, fut)));
                    match dfs_run(new_stack, visited@, result@, md, fut) {
                        Some(ra) => {
                            assert(asked@ + (seq![v] + ra.1) =~= asked@.push(v) + ra.1);
                        },
                        None => {},
                    }
                }
                let t = asked@.push(v);
                assert(t.drop_last() =~= asked@);
                assert(ns@.len() == nb(v).len());
            }
            asked.push(v);
            proof {
                vstd::set_lib::lemma_len_subset(ints, vstd::set_lib::set_int_range(0, 0x1_0000_0000_0000_0000));
            }
        }
        proof {
            let fut = Seq::<Seq<VertexId>>::empty();
            assert(stack_view(stack@) =~= Seq::<(VertexId, nat)>::empty());
            assert(dfs_run(stack_view(stack@), visited@, result@, md, fut) == Some((result@, Seq::<VertexId>::empty())));
            assert(asked@.map_values(nb) + fut =~= asked@.map_values(nb));
            assert(asked@ + Seq::<VertexId>::empty() =~= asked@);
            assert(depth_limit(*context) == md);
            assert(within_readings(*now_ms, rs, context.timeout_ms));
        }
        let stats = QueryStats {
            vertices_visited: result.len(),
            edges_traversed: edges,
            cache_hits: 0,
            cache_misses: 0,
            execution_time_ms: #[verifier::truncate] (now_ms() as u64),
        };
        Ok((result, stats))
    }

    /// The vertices at each hop from `start`, up to `k` hops: hop 0 is the
    /// start, each next hop the neighbours of the hop before (each once, where
    /// it first occurs); an empty hop is the last. Where the context has a
    /// timeout, the query fails with a timeout error when the time runs out
    /// before a lookup. The statistics count the vertices of the hops after
    /// the first and the neighbours looked up.
    pub fn k_hop_neighbors(&self, start: VertexId, k: usize, context: &QueryContext) -> (r: Result<
        (Vec<(usize, Vec<VertexId>)>, QueryStats),
        AsterError,
    >)
        ensures
            match r {
                Ok((levels, stats)) => {
                    &&& levels_view(levels@) == hop_levels(graph_nb(self.graph), start, k as nat)
                    &&& forall|i: int| 0 <= i < levels@.len() ==> (#[trigger] levels@[i]).0 == i
                    &&& stats.vertices_visited == hop_stats(graph_nb(self.graph), start, k as nat).0
                    &&& stats.edges_traversed == hop_stats(graph_nb(self.graph), start, k as nat).1
                    &&& stats.cache_hits == 0
                    &&& stats.cache_misses == 0
                },
                Err(e) => e.spec_kind() == ErrorKind::Timeout && e.spec_text() == "K-hop neighbors query timeout"@,
            },
            r is Err ==> exists|t: u128| #[trigger] over_limit(t, context.timeout_ms),
    {
        let start_time = instant_now();
        let clock = || -> (t: u128) { elapsed_millis(&start_time) };
        self.k_hop_neighbors_with_clock(start, k, context, &clock)
    }

    /// As [`QueryEngine::k_hop_neighbors`], with the elapsed milliseconds read from
    /// `now_ms` before each step: the work goes through when every reading is
    /// within the context's limit, and stops at the first reading past it.
    pub fn k_hop_neighbors_with_clock<C: Fn() -> u128>(&self, start: VertexId, k: usize, context: &QueryContext, now_ms: &C) -> (r: Result<
        (Vec<(usize, Vec<VertexId>)>, QueryStats),
        AsterError,
    >)
        requires
            call_requires(*now_ms, ()),
        ensures
            match r {
                Ok((levels, stats)) => {
                    &&& levels_view(levels@) == hop_levels(graph_nb(self.graph), start, k as nat)
                    &&& forall|i: int| 0 <= i < levels@.len() ==> (#[trigger] levels@[i]).0 == i
                    &&& stats.vertices_visited == hop_stats(graph_nb(self.graph), start, k as nat).0
                    &&& stats.edges_traversed == hop_stats(graph_nb(self.graph), start, k as nat).1
                    &&& stats.cache_hits == 0
                    &&& stats.cache_misses == 0
                    &&& ran_within(*now_ms, hop_lookups(graph_nb(self.graph), start, k as nat), context.timeout_ms)
                },
                Err(e) => e.spec_kind() == ErrorKind::Timeout && e.spec_text() == "K-hop neighbors query timeout"@,
            },
            r is Err ==> stopped_before(*now_ms, hop_lookups(graph_nb(self.graph), start, k as nat), context.timeout_ms),
    {
        let ghost nb = graph_nb(self.graph);
        let mut levels: Vec<(usize, Vec<VertexId>)> = Vec::new();
        let mut first: Vec<VertexId> = Vec::new();
        first.push(start);
        let mut current: Vec<VertexId> = Vec::new();
        current.push(start);
        levels.push((0, first));
        let mut visited_count: usize = 0;
        let mut edges: usize = 0;
        let mut hop: usize = 0;
        let ghost mut rs: Seq<u128> = Seq::empty();
        proof {
            assert(levels_view(levels@) =~= hop_levels(nb, start, 0));
        }
        while hop < k
            invariant
                call_requires(*now_ms, ()),
                hop <= k,
                nb == graph_nb(self.graph),
                levels_view(levels@) == hop_levels(nb, start, hop as nat),
                levels@.len() == hop + 1,
                forall|i: int| 0 <= i < levels@.len() ==> (#[trigger] levels@[i]).0 == i,
                current@ == levels_view(levels@).last(),
                current@.len() > 0,
                (visited_count, edges) == hop_stats(nb, start, hop as nat),
                rs.len() == hop_lookups(nb, start, hop as nat),
                within_readings(*now_ms, rs, context.timeout_ms),
            decreases k - hop,
        {
            let mut all: Vec<VertexId> = Vec::new();
            let mut i: usize = 0;
            let ghost e0 = edges;
            while i < current.len()
                invariant
                    call_requires(*now_ms, ()),
                    i <= current@.len(),
                    nb == graph_nb(self.graph),
                    all@ == concat_nbrs(nb, current@.take(i as int)),
                    edges == add_degrees(e0, nb, current@.take(i as int)),
                    rs.len() == hop_lookups(nb, start, hop as nat) + i,
                    within_readings(*now_ms, rs, context.timeout_ms),
                    hop < k,
                    current@ == hop_levels(nb, start, hop as nat).last(),
                decreases current@.len() - i,
            {
                let reading = now_ms();
                match check_deadline(reading, context.timeout_ms, "K-hop neighbors query timeout") {
                    Err(err) => {
                        proof {
                            assert(call_ensures(*now_ms, (), reading));
                            assert(within_readings(*now_ms, rs, context.timeout_ms));
                            assert(rs.len() < hop_lookups(nb, start, hop as nat + 1));
                            lemma_hop_lookups_grow(nb, start, hop as nat + 1, k as nat);
                        }
                        return Err(err);
                    },
                    Ok(()) => {},
                }
                proof {
                    lemma_within_push(*now_ms, rs, reading, context.timeout_ms);
                    rs = rs.push(reading);
                }
                let v = current[i];
                let ns = self.graph.get_neighbors(v);
                edges = bump_exec(edges, ns.len());
                let mut j: usize = 0;
                let ghost a0 = all@;
                while j < ns.len()
                    invariant
                        call_requires(*now_ms, ()),
                        j <= ns@.len(),
                        all@ == a0 + ns@.take(j as int),
                    decreases ns@.len() - j,
                {
                    all.push(ns[j]);
                    j = j + 1;
                    assert(all@ =~= a0 + ns@.take(j as int));
                }
                proof {
                    assert(ns@.take(ns@.len() as int) =~= ns@);
                    let t = current@.take(i + 1);
                    assert(t.drop_last() =~= current@.take(i as int));
                    assert(t.last() == v);
                }
                i = i + 1;
            }
            proof {
                assert(current@.take(current@.len() as int) =~= current@);
                assert(rs.len() == hop_lookups(nb, start, hop as nat + 1));
            }
            let next = first_occurrence_exec(&all);
            let n = next.len();
            visited_count = bump_exec(visited_count, n);
            hop = hop + 1;
            let mut copy: Vec<VertexId> = Vec::new();
            let mut j: usize = 0;
            while j < next.len()
                invariant
                    call_requires(*now_ms, ()),
                    j <= next@.len(),
                    copy@ == next@.take(j as int),
                decreases next@.len() - j,
            {
                copy.push(next[j]);
                j = j + 1;
                assert(copy@ =~= next@.take(j as int));
            }
            proof {
                assert(next@.take(next@.len() as int) =~= next@);
            }
            let ghost lv0 = levels_view(levels@);
            levels.push((hop, copy));
            proof {
                assert(levels_view(levels@) =~= lv0.push(next@));
                assert(hop_levels(nb, start, hop as nat) == lv0.push(next@));
            }
            if n == 0 {
                proof {
                    lemma_hop_levels_stable(nb, start, hop as nat, k as nat);
                }
                let stats = QueryStats {
                    vertices_visited: visited_count,
                    edges_traversed: edges,
                    cache_hits: 0,
                    cache_misses: 0,
                    execution_time_ms: #[verifier::truncate] (now_ms() as u64),
                };
                return Ok((levels, stats));
            }
            current = next;
        }
        let stats = QueryStats {
            vertices_visited: visited_count,
            edges_traversed: edges,
            cache_hits: 0,
            cache_misses: 0,
            execution_time_ms: #[verifier::truncate] (now_ms() as u64),
        };
        Ok((levels, stats))
    }

    /// Whether a filter holds of `vertex`; see [`q_holds`].
    pub fn evaluate_predicate(&self, vertex: VertexId, predicate: &QueryPredicate, context: &QueryContext) -> (r: bool)
        ensures
            r == q_holds(graph_nb(self.graph), vertex, *predicate),
        decreases predicate,
    {
        let ghost nb = graph_nb(self.graph);
        match predicate {
            QueryPredicate::PropertyEquals(_, _) => true,
            QueryPredicate::PropertyNotEquals(_, _) => false,
            QueryPredicate::PropertyGreaterThan(_, _) => false,
            QueryPredicate::PropertyLessThan(_, _) => false,
            QueryPredicate::PropertyExists(_) => true,
            QueryPredicate::VertexIdIn(ids) => contains_id(ids, vertex),
            QueryPredicate::DegreeGreaterThan(t) => self.graph.get_degree(vertex) > *t,
            QueryPredicate::DegreeLessThan(t) => self.graph.get_degree(vertex) < *t,
            QueryPredicate::And(ps) => {
                let mut i: usize = 0;
                while i < ps.len()
                    invariant
                        i <= ps@.len(),
                        nb == graph_nb(self.graph),
                        *predicate == QueryPredicate::And(*ps),
                        q_all(nb, vertex, ps@.subrange(0, i as int)),
                    decreases ps@.len() - i,
                {
                    proof {
                        assert(decreases_to!(*predicate => (*predicate)->And_0));
                        assert(decreases_to!(*ps => ps@));
                        assert(decreases_to!(ps@ => ps@[i as int]));
                        assert(ps@.subrange(0, i + 1).subrange(0, i as int) =~= ps@.subrange(0, i as int));
                    }
                    if !self.evaluate_predicate(vertex, &ps[i], context) {
                        proof {
                            lemma_q_all_prefix(nb, vertex, ps@, i as int);
                        }
                        return false;
                    }
                    i = i + 1;
                }
                proof {
                    assert(ps@.subrange(0, ps@.len() as int) =~= ps@);
                }
                true
            },
            QueryPredicate::Or(ps) => {
                let mut i: usize = 0;
                while i < ps.len()
                    invariant
                        i <= ps@.len(),
                        nb == graph_nb(self.graph),
                        *predicate == QueryPredicate::Or(*ps),
                        !q_any(nb, vertex, ps@.subrange(0, i as int)),
                    decreases ps@.len() - i,
                {
                    proof {
                        assert(decreases_to!(*predicate => (*predicate)->Or_0));
                        assert(decreases_to!(*ps => ps@));
                        assert(decreases_to!(ps@ => ps@[i as int]));
                        assert(ps@.subrange(0, i + 1).subrange(0, i as int) =~= ps@.subrange(0, i as int));
                    }
                    if self.evaluate_predicate(vertex, &ps[i], context) {
                        proof {
                            lemma_q_any_prefix(nb, vertex, ps@, i as int);
                        }
                        return true;
                    }
                    i = i + 1;
                }
                proof {
                    assert(ps@.subrange(0, ps@.len() as int) =~= ps@);
                }
                false
            },
            QueryPredicate::Not(q) => !self.evaluate_predicate(vertex, q, context),
        }
    }

    /// The vertices the filter holds of, in order.
    pub fn filter_vertices(&self, vertices: Vec<VertexId>, predicate: &QueryPredicate, context: &QueryContext) -> (r: Vec<
        VertexId,
    >)
        ensures
            r@ == vertices@.filter(|v: VertexId| q_holds(graph_nb(self.graph), v, *predicate)),
    {
        let ghost p = |v: VertexId| q_holds(graph_nb(self.graph), v, *predicate);
        let mut r: Vec<VertexId> = Vec::new();
        let mut i: usize = 0;
        while i < vertices.len()
            invariant
                i <= vertices@.len(),
                p == (|v: VertexId| q_holds(graph_nb(self.graph), v, *predicate)),
                r@ == vertices@.take(i as int).filter(p),
            decreases vertices@.len() - i,
        {
            let v = vertices[i];
            proof {
                let t = vertices@.take(i + 1);
                assert(t.drop_last() =~= vertices@.take(i as int));
                assert(t.last() == v);
                reveal_with_fuel(Seq::filter, 1);
            }
            if self.evaluate_predicate(v, predicate, context) {
                r.push(v);
            }
            i = i + 1;
        }
        proof {
            assert(vertices@.take(vertices@.len() as int) =~= vertices@);
        }
        r
    }

    /// One row per vertex, in order, as [`project_row`] says; the total is
    /// the number of vertices.
    pub fn project_vertices(&self, vertices: Vec<VertexId>, projections: &[QueryProjection], context: &QueryContext) -> (r:
        QueryResultSet)
        ensures
            r.rows_view() == vertices@.map_values(|v: VertexId| project_row(graph_nb(self.graph), v, projections@)),
            r.total_vertices == vertices@.len(),
            r.total_edges == 0,
            r.stats == QueryStats::new_spec(),
    {
        let mut result = QueryResultSet::new();
        result.total_vertices = vertices.len();
        let mut i: usize = 0;
        while i < vertices.len()
            invariant
                i <= vertices@.len(),
                result.rows_view() == vertices@.take(i as int).map_values(|v: VertexId| project_row(graph_nb(self.graph), v, projections@)),
                result.total_vertices == vertices@.len(),
                result.total_edges == 0,
                result.stats == QueryStats::new_spec(),
            decreases vertices@.len() - i,
        {
            let v = vertices[i];
            let row = self.project_row_exec(v, projections);
            result.add_row(row);
            proof {
                assert(vertices@.take(i + 1).map_values(|v: VertexId| project_row(graph_nb(self.graph), v, projections@)) =~= vertices@.take(i as int).map_values(|v: VertexId| project_row(graph_nb(self.graph), v, projections@)).push(project_row(graph_nb(self.graph), v, projections@)));
            }
            i = i + 1;
        }
        proof {
            assert(vertices@.take(vertices@.len() as int) =~= vertices@);
        }
        result
    }

    fn project_row_exec(&self, v: VertexId, projections: &[QueryProjection]) -> (r: Properties)
        ensures
            r@ == project_row(graph_nb(self.graph), v, projections@),
    {
        let mut row = Properties::new();
        let mut j: usize = 0;
        while j < projections.len()
            invariant
                j <= projections@.len(),
                row@ == project_row(graph_nb(self.graph), v, projections@.take(j as int)),
            decreases projections@.len() - j,
        {
            proof {
                let t = projections@.take(j + 1);
                assert(t.drop_last() =~= projections@.take(j as int));
                assert(t.last() == projections@[j as int]);
            }
            match &projections[j] {
                QueryProjection::VertexId => {
                    row.insert(string_from_chars(&chars_of("vertex_id")), PropertyValue::String(string_from_chars(&u64_to_chars(v.id))));
                },
                QueryProjection::VertexDegree => {
                    let d = self.graph.get_degree(v);
                    row.insert(string_from_chars(&chars_of("degree")), PropertyValue::Int(#[verifier::truncate] (d as i64)));
                },
                QueryProjection::NeighborCount => {
                    let ns = self.graph.get_neighbors(v);
                    row.insert(string_from_chars(&chars_of("neighbor_count")), PropertyValue::Int(#[verifier::truncate] (ns.len() as i64)));
                },
                QueryProjection::VertexProperty(name) => {
                    row.insert(name.clone(), PropertyValue::String(string_from_chars(&chars_of("not_implemented"))));
                },
                QueryProjection::EdgeProperty(_) => {},
                QueryProjection::Computed(name) => {
                    row.insert(name.clone(), PropertyValue::String(string_from_chars(&chars_of("computed"))));
                },
            }
            j = j + 1;
        }
        proof {
            assert(projections@.take(projections@.len() as int) =~= projections@);
        }
        row
    }

    /// The aggregates of the vertices; see [`aggregate_row`].
    pub fn aggregate(&self, vertices: Vec<VertexId>, aggregations: &[AggregationFunction], context: &QueryContext) -> (r:
        Properties)
        ensures
            r@ == aggregate_row(vertices@.len(), aggregations@),
    {
        let mut row = Properties::new();
        let n = vertices.len();
        let mut j: usize = 0;
        while j < aggregations.len()
            invariant
                j <= aggregations@.len(),
                n == vertices@.len(),
                row@ == aggregate_row(n as nat, aggregations@.take(j as int)),
            decreases aggregations@.len() - j,
        {
            proof {
                let t = aggregations@.take(j + 1);
                assert(t.drop_last() =~= aggregations@.take(j as int));
                assert(t.last() == aggregations@[j as int]);
            }
            match &aggregations[j] {
                AggregationFunction::Count => {
                    row.insert(string_from_chars(&chars_of("count")), PropertyValue::Int(#[verifier::truncate] (n as i64)));
                },
                AggregationFunction::Sum(p) => {
                    row.insert(joined("sum_", p), PropertyValue::Float(zero_float()));
                },
                AggregationFunction::Avg(p) => {
                    row.insert(joined("avg_", p), PropertyValue::Float(zero_float()));
                },
                AggregationFunction::Min(p) => {
                    row.insert(joined("min_", p), PropertyValue::Int(0));
                },
                AggregationFunction::Max(p) => {
                    row.insert(joined("max_", p), PropertyValue::Int(0));
                },
                AggregationFunction::Distinct(p) => {
                    row.insert(joined("distinct_", p), PropertyValue::Int(0));
                },
            }
            j = j + 1;
        }
        proof {
            assert(aggregations@.take(aggregations@.len() as int) =~= aggregations@);
        }
        row
    }

    /// The matches of a subgraph pattern: none are looked for, so there are
    /// none.
    pub fn pattern_match(&self, pattern: &crate::query::GraphPattern, context: &QueryContext) -> (r: Vec<Vec<(String, VertexId)>>)
        ensures
            r@.len() == 0,
    {
        Vec::new()
    }

    /// Runs a query: the vertices, filtered where a filter is given; then
    /// projected where projections are given, else aggregated into one row
    /// where aggregations are given, else one row per vertex with its id.
    pub fn execute_query(
        &self,
        start_vertices: Vec<VertexId>,
        filter: Option<&QueryPredicate>,
        projections: Option<&[QueryProjection]>,
        aggregations: Option<&[AggregationFunction]>,
        context: &QueryContext,
    ) -> (r: QueryResultSet)
        ensures
            ({
                let vs = match filter {
                    Some(p) => start_vertices@.filter(|v: VertexId| q_holds(graph_nb(self.graph), v, *p)),
                    None => start_vertices@,
                };
                &&& r.total_vertices == vs.len()
                &&& r.total_edges == 0
                &&& r.stats == QueryStats::new_spec()
                &&& r.rows_view() == match (projections, aggregations) {
                    (Some(projs), _) => vs.map_values(|v: VertexId| project_row(graph_nb(self.graph), v, projs@)),
                    (None, Some(aggs)) => seq![aggregate_row(vs.len(), aggs@)],
                    (None, None) => vs.map_values(|v: VertexId| Map::empty().insert("vertex_id"@, PropValue::Text(id_text(v)))),
                }
            }),
    {
        let vertices = match filter {
            Some(p) => self.filter_vertices(start_vertices, p, context),
            None => start_vertices,
        };
        match projections {
            Some(projs) => {
                return self.project_vertices(vertices, projs, context);
            },
            None => {},
        }
        match aggregations {
            Some(aggs) => {
                let n = vertices.len();
                let row = self.aggregate(vertices, aggs, context);
                let mut result = QueryResultSet::new();
                result.total_vertices = n;
                result.add_row(row);
                proof {
                    assert(result.rows_view() =~= seq![aggregate_row(n as nat, aggs@)]);
                }
                return result;
            },
            None => {},
        }
        let mut result = QueryResultSet::new();
        result.total_vertices = vertices.len();
        let mut i: usize = 0;
        let ghost row_of = |v: VertexId| Map::<Seq<char>, PropValue>::empty().insert("vertex_id"@, PropValue::Text(id_text(v)));
        while i < vertices.len()
            invariant
                i <= vertices@.len(),
                row_of == (|v: VertexId| Map::<Seq<char>, PropValue>::empty().insert("vertex_id"@, PropValue::Text(id_text(v)))),
                result.rows_view() == vertices@.take(i as int).map_values(row_of),
                result.total_vertices == vertices@.len(),
                result.total_edges == 0,
                result.stats == QueryStats::new_spec(),
            decreases vertices@.len() - i,
        {
            let v = vertices[i];
            let mut row = Properties::new();
            row.insert(string_from_chars(&chars_of("vertex_id")), PropertyValue::String(string_from_chars(&u64_to_chars(v.id))));
            result.add_row(row);
            proof {
                assert(vertices@.take(i + 1).map_values(row_of) =~= vertices@.take(i as int).map_values(row_of).push(row_of(v)));
            }
            i = i + 1;
        }
        proof {
            assert(vertices@.take(vertices@.len() as int) =~= vertices@);
        }
        result
    }

    /// Breadth-first search from `start` down to the context's depth limit,
    /// a vertex's unseen neighbours queued in the order `search_nb` gives;
    /// where the time runs out before a lookup, the timeout error with text
    /// `msg`.
    fn search<C: Fn() -> u128>(
        &self,
        start: VertexId,
        context: &QueryContext,
        now_ms: &C,
        range: Option<(VertexId, VertexId)>,
        msg: &str,
    ) -> (r: Result<(Vec<VertexId>, QueryStats), AsterError>)
        requires
            call_requires(*now_ms, ()),
        ensures
            search_outcome(self.graph, start, *context, range, msg@, r),
            search_timed(self.graph, start, *context, range, msg@, |t: u128| call_ensures(*now_ms, (), t), r),
    {
        let timeout = context.timeout_ms;
        let max_depth: usize = match context.max_depth {
            Some(d) => d,
            None => usize::MAX,
        };
        let g = &self.graph;
        let get = |v: VertexId| -> (r: Result<Vec<VertexId>, AsterError>)
            ensures
                match r {
                    Ok(ns) => ns@ == search_nb(*g, range)(v) && exists|t: u128|
                        #[trigger] call_ensures(*now_ms, (), t) && !over_limit(t, timeout),
                    Err(e) => e.spec_kind() == ErrorKind::Timeout && e.spec_text() == msg@ && exists|t: u128|
                        #[trigger] call_ensures(*now_ms, (), t) && over_limit(t, timeout),
                },
            {
                let t = now_ms();
                match check_deadline(t, timeout, msg) {
                    Err(e) => Err(e),
                    Ok(()) => match range {
                        Some((lo, hi)) => Ok(neighbors_range_first(g, v, lo, hi)),
                        None => Ok(g.get_neighbors(v)),
                    },
                }
            };
        let (res, asked) = bfs_core(start, max_depth, get);
        let ghost nb = search_nb(self.graph, range);
        let ghost answers = choose|answers: Seq<Result<Vec<VertexId>, AsterError>>|
            bfs_core_ok(get, start, max_depth as nat, answers, answer_view(res), asked@);
        let ghost rs = Seq::new(
            asked@.len(),
            |i: int| choose|t: u128| call_ensures(*now_ms, (), t) && (over_limit(t, timeout) <==> answers[i] is Err),
        );
        proof {
            assert(bfs_core_ok(get, start, max_depth as nat, answers, answer_view(res), asked@));
            assert(depth_limit(*context) == max_depth as nat);
            if res is Ok {
                lemma_ok_run_answers_ok(seq![(start, 0nat)], set![start.id], Seq::empty(), max_depth as nat, answer_views(answers));
                assert forall|i: int| 0 <= i < answers.len() implies (#[trigger] answers[i]) is Ok by {
                    assert(answer_views(answers)[i] is Ok);
                }
                assert(answer_views(answers) =~= graph_answers(nb, asked@)) by {
                    assert forall|i: int| 0 <= i < answers.len() implies answer_views(answers)[i] == graph_answers(nb, asked@)[i] by {
                        assert(answers[i] is Ok);
                        assert(call_ensures(get, (asked@[i],), answers[i]));
                    }
                }
            } else {
                let views = answer_views(answers);
                lemma_err_run_from_answer(seq![(start, 0nat)], set![start.id], Seq::empty(), max_depth as nat, views);
                let n = answers.len() - 1;
                assert(views[n] == answer_view(answers[n]));
                assert(call_ensures(get, (asked@[n],), answers[n]));
            }
            assert forall|i: int| 0 <= i < rs.len() implies #[trigger] call_ensures(*now_ms, (), rs[i]) && (over_limit(rs[i], timeout)
                <==> answers[i] is Err) by {
                assert(call_ensures(get, (asked@[i],), answers[i]));
            }
            assert(timed_answers(nb, asked@, rs, timeout, msg@) =~= answer_views(answers)) by {
                assert forall|i: int| 0 <= i < answers.len() implies timed_answers(nb, asked@, rs, timeout, msg@)[i] == answer_views(
                    answers,
                )[i] by {
                    assert(call_ensures(get, (asked@[i],), answers[i]));
                    assert(call_ensures(*now_ms, (), rs[i]));
                }
            }
        }
        match res {
            Ok(out) => {
                let edges = count_degrees(&self.graph, &asked);
                let stats = QueryStats {
                    vertices_visited: out.len(),
                    edges_traversed: edges,
                    cache_hits: 0,
                    cache_misses: 0,
                    execution_time_ms: #[verifier::truncate] (now_ms() as u64),
                };
                proof {
                    assert(depth_limit(*context) == max_depth as nat);
                    assert(bfs_run(
                        seq![(start, 0nat)],
                        set![start.id],
                        Seq::empty(),
                        depth_limit(*context),
                        graph_answers(search_nb(self.graph, range), asked@),
                    ) == Some::<(Result<Seq<VertexId>, (ErrorKind, Seq<char>)>, Seq<VertexId>)>((Ok(out@), asked@)));
                    assert(bfs_run(
                        seq![(start, 0nat)],
                        set![start.id],
                        Seq::empty(),
                        depth_limit(*context),
                        timed_answers(nb, asked@, rs, timeout, msg@),
                    ) == Some::<(Result<Seq<VertexId>, (ErrorKind, Seq<char>)>, Seq<VertexId>)>((Ok(out@), asked@)));
                }
                Ok((out, stats))
            },
            Err(e) => {
                proof {
                    assert(answer_view(res) == Err::<Seq<VertexId>, (ErrorKind, Seq<char>)>((e.spec_kind(), e.spec_text())));
                    assert(bfs_run(
                        seq![(start, 0nat)],
                        set![start.id],
                        Seq::empty(),
                        depth_limit(*context),
                        timed_answers(nb, asked@, rs, timeout, msg@),
                    ) == Some::<(Result<Seq<VertexId>, (ErrorKind, Seq<char>)>, Seq<VertexId>)>((answer_view(res), asked@)));
                }
                Err(e)
            },
        }
    }
}

} // verus!
