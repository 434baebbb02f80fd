//! The Gremlin engine: runs traversals over the graph, the property store and
//! the edge registry, as [`crate::gremlin::semantics`] describes.
use crate::error::{AsterError, ErrorKind};
use crate::graph::{Graph, PropertyStore, PropsModel};
use crate::gremlin::context::{named_results_view, side_effects_view, GremlinContext, CreatedEdge, IncompleteEdge};
use crate::gremlin::eval::{evaluate_predicate, store_model, apply_float, compare_property_values, float_arith_ok, float_of, key_of, keys_view, sort_order, stable_order, FloatOp, KeyView, OrderKey};
use crate::gremlin::steps::{opt_string_view, trav_view, GremlinTraversal, step_view, GremlinStep, StepView, opt_order_view, opt_pred_view, opt_value_view, order_view, pred_view, values_view, GremlinOrder, GremlinOrderDirection, GremlinPredicate, OrderView, PredView};
use crate::gremlin::context::{assoc_get, assoc_set, get_named, set_named};
use crate::types::{value_equal, Properties};
use crate::gremlin::results::{result_view, results_view, GremlinResult, ResultView};
use crate::gremlin::semantics::{
    add_v_step, run_initial, run_step, run_steps, run_traversal, complete_all, complete_to, from_all, edges_from,
    clear_incomplete, with_stats, merge_stats, repeat_loop, reading, rest, all_vertices, out_edge_ids, unique_ids,
    as_edge_results, not_initial_error, timeout_error, ErrView, Out,
    plain_step, label_filter, has_filter, has_value_filter, pred_filter, is_edge, is_element, not_among, among,
    values_of, properties_of, property_map_of, project_of,
    add_e_step, property_step, set_property_all,
    ordered_by, sorted_results, prop_keys, order_results, by_results, order_local_results, numeric_of, numerics,
    as_double, sum_of, extreme_of, zero_double, double_result, sum_results, mean_results, extreme_results,
    clamp, dedup_key, dedup_results, group_key, group_counts, select_map, select_results, aggregate_effects,
    has_matches, has_test, has_value_matches, lookup_all, project_map, values_results, properties_results,
    property_map_results, project_results, edge_count,
    concat_map, label_matches, vprops, eprops,
    as_vertex_results, bump, created_out, extend_path, first_label, fresh_edges, in_e_results, in_e_step, label_listed,
    listed_edges, nth_id, out_e_step, out_results, out_step, registry_edges, vertex_count, vertices_of, CtxModel,
    EngineModel, Frame,
};
use crate::gremlin::steps::{opt_strings_view, strings_view};
use crate::query::QueryStats;
use crate::clock::{elapsed_millis, instant_now, unix_nanos};
use crate::registry::{EdgeRegistry, EdgeTable, EntryView, entries_view, filter_view};
use crate::text::{chars_of, string_from_chars, chars_eq, i64_to_chars, str_eq, u64_to_chars};
use crate::types::{prop_lookup, EdgeId, FloatValue, PropValue, PropertyValue, VertexId};
use vstd::prelude::*;

verus! {

/// The model of an execution context.
pub open spec fn ctx_model(c: GremlinContext) -> CtxModel {
    CtxModel {
        query: c.query_context,
        bindings: named_results_view(c.bindings@),
        effects: side_effects_view(c.side_effects@),
        path: results_view(c.current_path@),
        track_path: c.track_path,
        created_vertices: c.created_vertices@,
        incomplete: c.incomplete_edges@.map_values(|e: IncompleteEdge| (e.source, e.label@)),
        created_edges: c.created_edges@.map_values(|e: CreatedEdge| (e.edge_id, e.source, e.target, e.label@)),
    }
}

/// The model of an optional property store.
pub open spec fn opt_store_model(p: Option<PropertyStore>) -> Option<PropsModel> {
    match p {
        Some(s) => Some(s.model()),
        None => None,
    }
}

/// The model of an optional edge registry.
pub open spec fn opt_registry_model(r: Option<EdgeTable>) -> Option<Seq<EntryView>> {
    match r {
        Some(t) => Some(t.table_entries()),
        None => None,
    }
}

/// `s.take(i + 1)` is `s.take(i)` and then `s[i]`.
pub proof fn lemma_take_next<A>(s: Seq<A>, i: int)
    requires
        0 <= i < s.len(),
    ensures
        s.take(i + 1).drop_last() == s.take(i),
        s.take(i + 1).last() == s[i],
        s.take(i + 1).len() == i + 1,
{
    assert(s.take(i + 1).drop_last() =~= s.take(i));
}

/// `s.take(s.len())` is `s`.
pub proof fn lemma_take_all<A>(s: Seq<A>)
    ensures
        s.take(s.len() as int) == s,
{
    assert(s.take(s.len() as int) =~= s);
}

/// Runs Gremlin traversals.
pub struct GremlinEngine {
    pub graph: Graph,
    pub property_store: Option<PropertyStore>,
    pub edge_registry: Option<EdgeTable>,
}

impl GremlinEngine {
    /// The model of what the engine reads and changes.
    pub open spec fn model(&self) -> EngineModel {
        EngineModel {
            graph: self.spec_graph().spec_storage().model(),
            props: opt_store_model(self.spec_property_store()),
            registry: opt_registry_model(self.spec_edge_registry()),
        }
    }

    pub open spec fn spec_graph(&self) -> Graph {
        self.graph
    }

    pub open spec fn spec_property_store(&self) -> Option<PropertyStore> {
        self.property_store
    }

    pub open spec fn spec_edge_registry(&self) -> Option<EdgeTable> {
        self.edge_registry
    }

    /// An engine over a graph and, where given, a property store; it has no
    /// edge registry.
    pub fn new(graph: Graph, property_store: Option<PropertyStore>) -> (r: GremlinEngine)
        ensures
            r.spec_graph() == graph,
            r.spec_property_store() == property_store,
            r.spec_edge_registry() is None,
    {
        GremlinEngine { graph, property_store, edge_registry: None }
    }

    /// Gives the engine an edge registry, which records the edges it creates.
    pub fn set_edge_registry(&mut self, edge_registry: EdgeTable)
        ensures
            final(self).spec_graph() == old(self).spec_graph(),
            final(self).spec_property_store() == old(self).spec_property_store(),
            final(self).spec_edge_registry() == Some(edge_registry),
    {
        self.edge_registry = Some(edge_registry);
    }

    /// The graph.
    pub fn graph(&self) -> (r: &Graph)
        ensures
            *r == self.spec_graph(),
    {
        &self.graph
    }

    /// The property store, where there is one.
    pub fn property_store(&self) -> (r: Option<&PropertyStore>)
        ensures
            match r {
                Some(p) => self.spec_property_store() == Some(*p),
                None => self.spec_property_store() is None,
            },
    {
        self.property_store.as_ref()
    }

    /// The edge registry, where there is one.
    pub fn edge_registry(&self) -> (r: Option<&EdgeTable>)
        ensures
            match r {
                Some(t) => self.spec_edge_registry() == Some(*t),
                None => self.spec_edge_registry() is None,
            },
    {
        self.edge_registry.as_ref()
    }
}

/// Adds `n` to a counter, wrapping around.
pub fn bump_exec(c: usize, n: usize) -> (r: usize)
    ensures
        r == bump(c, n as nat),
{
    if c > usize::MAX - n {
        n - (usize::MAX - c) - 1
    } else {
        c + n
    }
}

/// Whether `l` passes an optional list of labels.
pub fn listed(labels: &Option<Vec<String>>, l: &String) -> (r: bool)
    ensures
        r == label_listed(opt_strings_view(*labels), l@),
{
    match labels {
        None => true,
        Some(ls) => {
            let ghost sv = strings_view(*ls);
            let mut i: usize = 0;
            while i < ls.len()
                invariant
                    i <= ls.len(),
                    sv == strings_view(*ls),
                    *labels == Some(*ls),
                    sv.len() == ls.len(),
                    forall|k: int| 0 <= k < i ==> sv[k] != l@,
                decreases ls.len() - i,
            {
                if str_eq(ls[i].as_str(), l.as_str()) {
                    assert(sv[i as int] == l@);
                    assert(sv.contains(l@));
                    assert(opt_strings_view(*labels) == Some(sv));
                    return true;
                }
                i = i + 1;
            }
            false
        },
    }
}

/// The first label of an optional list.
pub fn first_label_of(labels: &Option<Vec<String>>) -> (r: Option<&str>)
    ensures
        filter_view(r) == first_label(opt_strings_view(*labels)),
{
    match labels {
        Some(ls) => if ls.len() > 0 {
            Some(ls[0].as_str())
        } else {
            None
        },
        None => None,
    }
}

/// The frame of an engine, a context and statistics.
pub open spec fn frame(e: GremlinEngine, c: GremlinContext, s: QueryStats) -> Frame {
    Frame { eng: e.model(), cx: ctx_model(c), stats: s }
}

/// The vertices among the results, in order.
pub fn vertex_ids_in(rs: &Vec<GremlinResult>) -> (r: Vec<VertexId>)
    ensures
        r@ == vertices_of(results_view(rs@)),
{
    let ghost rv = results_view(rs@);
    let mut out: Vec<VertexId> = Vec::new();
    let mut i: usize = 0;
    while i < rs.len()
        invariant
            i <= rs.len(),
            rv == results_view(rs@),
            out@ == vertices_of(rv.take(i as int)),
        decreases rs.len() - i,
    {
        proof {
            lemma_take_next(rv, i as int);
        }
        match rs[i].as_vertex() {
            Some(v) => {
                out.push(v);
            },
            None => {},
        }
        i = i + 1;
    }
    proof {
        lemma_take_all(rv);
    }
    out
}

impl GremlinEngine {
    /// `out`: the neighbours of each vertex.
    fn exec_out(&self, rs: &Vec<GremlinResult>, cx: &mut GremlinContext, stats: &mut QueryStats) -> (r: Vec<GremlinResult>)
        ensures
            (results_view(r@), frame(*self, *final(cx), *final(stats))) == out_step(
                frame(*self, *old(cx), *old(stats)),
                results_view(rs@),
            ),
    {
        let ghost rv = results_view(rs@);
        let ghost g = self.model().graph;
        let ghost cx0 = ctx_model(*cx);
        let mut out: Vec<GremlinResult> = Vec::new();
        let mut i: usize = 0;
        while i < rs.len()
            invariant
                i <= rs.len(),
                rv == results_view(rs@),
                g == self.model().graph,
                results_view(out@) == out_results(g, rv.take(i as int)),
                ctx_model(*cx) == extend_path(cx0, results_view(out@)),
            decreases rs.len() - i,
        {
            proof {
                lemma_take_next(rv, i as int);
            }
            match rs[i].as_vertex() {
                Some(v) => {
                    let ns = self.graph.get_neighbors(v);
                    let ghost base = results_view(out@);
                    let mut j: usize = 0;
                    while j < ns.len()
                        invariant
                            j <= ns.len(),
                            results_view(out@) == base + as_vertex_results(ns@.take(j as int)),
                            ctx_model(*cx) == extend_path(cx0, results_view(out@)),
                        decreases ns.len() - j,
                    {
                        let ghost before = results_view(out@);
                        out.push(GremlinResult::Vertex(ns[j]));
                        cx.add_to_path(GremlinResult::Vertex(ns[j]));
                        proof {
                            assert(results_view(out@) =~= before.push(ResultView::Vertex(ns@[j as int])));
                            assert(as_vertex_results(ns@.take(j + 1)) =~= as_vertex_results(ns@.take(j as int)).push(
                                ResultView::Vertex(ns@[j as int]),
                            ));
                            assert(results_view(out@) =~= base + as_vertex_results(ns@.take(j + 1)));
                            if cx0.track_path {
                                assert(cx0.path + results_view(out@) =~= (cx0.path + before).push(ResultView::Vertex(ns@[j as int])));
                            }
                        }
                        j = j + 1;
                    }
                    proof {
                        lemma_take_all(ns@);
                        assert(ns@ == (g.neighbors)(v));
                    }
                },
                None => {},
            }
            i = i + 1;
        }
        proof {
            lemma_take_all(rv);
        }
        let n = out.len();
        stats.edges_traversed = bump_exec(stats.edges_traversed, n);
        stats.vertices_visited = bump_exec(stats.vertices_visited, n);
        out
    }
}

/// Appends `more` to `out`.
pub fn append_results(out: &mut Vec<GremlinResult>, more: Vec<GremlinResult>)
    ensures
        results_view(final(out)@) == results_view(old(out)@) + results_view(more@),
{
    let mut more = more;
    let ghost a = out@;
    let ghost b = more@;
    out.append(&mut more);
    assert(results_view(a + b) =~= results_view(a) + results_view(b));
}

impl GremlinEngine {
    /// The edges created in the context that leave `v` with a listed label.
    fn created_edges_from(cx: &GremlinContext, v: VertexId, labels: &Option<Vec<String>>) -> (r: Vec<GremlinResult>)
        ensures
            results_view(r@) == created_out(ctx_model(*cx), v, opt_strings_view(*labels)),
    {
        let ghost ce = ctx_model(*cx).created_edges;
        let ghost lv = opt_strings_view(*labels);
        let mut out: Vec<GremlinResult> = Vec::new();
        let mut j: usize = 0;
        while j < cx.created_edges.len()
            invariant
                j <= cx.created_edges.len(),
                ce == ctx_model(*cx).created_edges,
                ce.len() == cx.created_edges@.len(),
                lv == opt_strings_view(*labels),
                results_view(out@) == created_out(CtxModel { created_edges: ce.take(j as int), ..ctx_model(*cx) }, v, lv),
            decreases cx.created_edges.len() - j,
        {
            proof {
                lemma_take_next(ce, j as int);
            }
            let e = &cx.created_edges[j];
            assert(ce[j as int] == (e.edge_id, e.source, e.target, e.label@));
            if e.source == v && listed(labels, &e.label) {
                let ghost before = results_view(out@);
                out.push(GremlinResult::Edge(e.edge_id));
                assert(results_view(out@) =~= before.push(ResultView::Edge(e.edge_id)));
            }
            j = j + 1;
        }
        proof {
            lemma_take_all(ce);
        }
        out
    }

    /// The registry's edges at `v` (leaving it when `outgoing`) with a listed
    /// label.
    fn registry_edges_at(&self, v: VertexId, labels: &Option<Vec<String>>, outgoing: bool) -> (r: Vec<GremlinResult>)
        ensures
            results_view(r@) == registry_edges(self.model(), v, opt_strings_view(*labels), outgoing),
    {
        match &self.edge_registry {
            None => Vec::new(),
            Some(reg) => {
                let first = first_label_of(labels);
                let entries = if outgoing {
                    reg.get_outgoing_edges(v, first)
                } else {
                    reg.get_incoming_edges(v, first)
                };
                let ghost ev = entries_view(entries@);
                let ghost lv = opt_strings_view(*labels);
                let mut out: Vec<GremlinResult> = Vec::new();
                let mut j: usize = 0;
                while j < entries.len()
                    invariant
                        j <= entries.len(),
                        ev == entries_view(entries@),
                        lv == opt_strings_view(*labels),
                        results_view(out@) == listed_edges(ev.take(j as int), lv),
                    decreases entries.len() - j,
                {
                    proof {
                        lemma_take_next(ev, j as int);
                    }
                    let e = &entries[j];
                    assert(ev[j as int] == e.view_of());
                    if listed(labels, &e.label) {
                        let ghost before = results_view(out@);
                        out.push(GremlinResult::Edge(e.edge_id));
                        assert(results_view(out@) =~= before.push(ResultView::Edge(e.edge_id)));
                    }
                    j = j + 1;
                }
                proof {
                    lemma_take_all(ev);
                }
                out
            },
        }
    }

    /// `outE`.
    fn exec_out_e(&mut self, rs: &Vec<GremlinResult>, labels: &Option<Vec<String>>, cx: &GremlinContext, stats: &mut QueryStats) -> (r: Vec<GremlinResult>)
        ensures
            (results_view(r@), frame(*final(self), *cx, *final(stats))) == out_e_step(
                frame(*old(self), *cx, *old(stats)),
                results_view(rs@),
                opt_strings_view(*labels),
            ),
    {
        let ghost rv = results_view(rs@);
        let ghost lv = opt_strings_view(*labels);
        let ghost fr0 = frame(*self, *cx, *stats);
        let mut out: Vec<GremlinResult> = Vec::new();
        let mut i: usize = 0;
        while i < rs.len()
            invariant
                i <= rs.len(),
                rv == results_view(rs@),
                lv == opt_strings_view(*labels),
                (results_view(out@), frame(*self, *cx, *stats)) == out_e_step(fr0, rv.take(i as int), lv),
            decreases rs.len() - i,
        {
            proof {
                lemma_take_next(rv, i as int);
            }
            match rs[i].as_vertex() {
                Some(v) => {
                    let mut found = Self::created_edges_from(cx, v, labels);
                    let more = self.registry_edges_at(v, labels, true);
                    append_results(&mut found, more);
                    if found.len() > 0 {
                        append_results(&mut out, found);
                    } else {
                        let n = self.graph.get_degree(v);
                        let ghost next = self.model().graph.next_edge;
                        let ghost base = results_view(out@);
                        let ghost m0 = self.model();
                        stats.edges_traversed = bump_exec(stats.edges_traversed, n);
                        let mut k: usize = 0;
                        while k < n
                            invariant
                                k <= n,
                                results_view(out@) == base + fresh_edges(next, k as nat),
                                self.model().graph.next_edge == nth_id(next, k as nat),
                                self.model().graph.vertices == m0.graph.vertices,
                                self.model().graph.neighbors == m0.graph.neighbors,
                                self.model().props == m0.props,
                                self.model().registry == m0.registry,
                            decreases n - k,
                        {
                            let ghost before = results_view(out@);
                            let id = self.graph.fresh_edge_id();
                            out.push(GremlinResult::Edge(id));
                            proof {
                                assert(results_view(out@) =~= before.push(ResultView::Edge(id)));
                                assert(fresh_edges(next, (k + 1) as nat) =~= fresh_edges(next, k as nat).push(ResultView::Edge(id)));
                            }
                            k = k + 1;
                        }
                    }
                },
                None => {},
            }
            i = i + 1;
        }
        proof {
            lemma_take_all(rv);
        }
        out
    }

    /// `inE`.
    fn exec_in_e(&self, rs: &Vec<GremlinResult>, labels: &Option<Vec<String>>, stats: &mut QueryStats) -> (r: Vec<GremlinResult>)
        ensures
            results_view(r@) == in_e_results(self.model(), results_view(rs@), opt_strings_view(*labels)),
            final(stats).vertices_visited == bump(old(stats).vertices_visited, vertex_count(results_view(rs@))),
            *final(stats) == (QueryStats { vertices_visited: final(stats).vertices_visited, ..*old(stats) }),
    {
        let ghost rv = results_view(rs@);
        let ghost lv = opt_strings_view(*labels);
        let mut out: Vec<GremlinResult> = Vec::new();
        let mut count: usize = 0;
        let mut i: usize = 0;
        while i < rs.len()
            invariant
                i <= rs.len(),
                rv == results_view(rs@),
                lv == opt_strings_view(*labels),
                results_view(out@) == in_e_results(self.model(), rv.take(i as int), lv),
                count == vertex_count(rv.take(i as int)),
                count <= i,
            decreases rs.len() - i,
        {
            proof {
                lemma_take_next(rv, i as int);
            }
            match rs[i].as_vertex() {
                Some(v) => {
                    let more = self.registry_edges_at(v, labels, false);
                    append_results(&mut out, more);
                    count = count + 1;
                },
                None => {},
            }
            i = i + 1;
        }
        proof {
            lemma_take_all(rv);
        }
        stats.vertices_visited = bump_exec(stats.vertices_visited, count);
        out
    }
}

/// The results that `keep` accepts, in order.
pub(crate) fn filter_results<P: Fn(&GremlinResult) -> bool>(
    rs: &Vec<GremlinResult>,
    keep: &P,
    Ghost(pred): Ghost<spec_fn(ResultView) -> bool>,
) -> (r: Vec<GremlinResult>)
    requires
        forall|x: &GremlinResult| call_requires(*keep, (x,)),
        forall|x: &GremlinResult, b: bool| call_ensures(*keep, (x,), b) ==> b == pred(result_view(*x)),
    ensures
        results_view(r@) == results_view(rs@).filter(pred),
{
    let ghost rv = results_view(rs@);
    let mut out: Vec<GremlinResult> = Vec::new();
    let mut i: usize = 0;
    while i < rs.len()
        invariant
            i <= rs.len(),
            rv == results_view(rs@),
            forall|x: &GremlinResult| call_requires(*keep, (x,)),
            forall|x: &GremlinResult, b: bool| call_ensures(*keep, (x,), b) ==> b == pred(result_view(*x)),
            results_view(out@) == rv.take(i as int).filter(pred),
        decreases rs.len() - i,
    {
        proof {
            lemma_take_next(rv, i as int);
            reveal_with_fuel(Seq::filter, 1);
        }
        let b = keep(&rs[i]);
        if b {
            let ghost before = results_view(out@);
            out.push(rs[i].duplicate());
            assert(results_view(out@) =~= before.push(rv[i as int]));
        }
        i = i + 1;
    }
    proof {
        lemma_take_all(rv);
    }
    out
}

/// The results that `m` gives for each result, in order.
pub(crate) fn concat_results<M: Fn(&GremlinResult) -> Vec<GremlinResult>>(
    rs: &Vec<GremlinResult>,
    m: &M,
    Ghost(g): Ghost<spec_fn(ResultView) -> Seq<ResultView>>,
) -> (r: Vec<GremlinResult>)
    requires
        forall|x: &GremlinResult| call_requires(*m, (x,)),
        forall|x: &GremlinResult, o: Vec<GremlinResult>| call_ensures(*m, (x,), o) ==> results_view(o@) == g(result_view(*x)),
    ensures
        results_view(r@) == concat_map(results_view(rs@), g),
{
    let ghost rv = results_view(rs@);
    let mut out: Vec<GremlinResult> = Vec::new();
    let mut i: usize = 0;
    while i < rs.len()
        invariant
            i <= rs.len(),
            rv == results_view(rs@),
            forall|x: &GremlinResult| call_requires(*m, (x,)),
            forall|x: &GremlinResult, o: Vec<GremlinResult>| call_ensures(*m, (x,), o) ==> results_view(o@) == g(result_view(*x)),
            results_view(out@) == concat_map(rv.take(i as int), g),
        decreases rs.len() - i,
    {
        proof {
            lemma_take_next(rv, i as int);
        }
        let more = m(&rs[i]);
        append_results(&mut out, more);
        i = i + 1;
    }
    proof {
        lemma_take_all(rv);
    }
    out
}

impl GremlinEngine {
    /// The properties stored for vertex `v`, where there are any.
    fn vertex_props_ref(&self, v: VertexId) -> (r: Option<&crate::types::Properties>)
        ensures
            match r {
                Some(p) => p.entries_model() == vprops(self.model(), v),
                None => vprops(self.model(), v) == Seq::<(Seq<char>, PropValue)>::empty(),
            },
    {
        match &self.property_store {
            Some(ps) => ps.vertex_properties_ref(v),
            None => None,
        }
    }

    /// The properties stored for edge `e`, where there are any.
    fn edge_props_ref(&self, e: EdgeId) -> (r: Option<&crate::types::Properties>)
        ensures
            match r {
                Some(p) => p.entries_model() == eprops(self.model(), e),
                None => eprops(self.model(), e) == Seq::<(Seq<char>, PropValue)>::empty(),
            },
    {
        match &self.property_store {
            Some(ps) => ps.edge_properties_ref(e),
            None => None,
        }
    }

    /// Whether `r` passes `hasLabel(label)`.
    fn label_matches_exec(&self, r: &GremlinResult, label: &String) -> (b: bool)
        ensures
            b == label_matches(self.model(), result_view(*r), label@),
    {
        let props = match r {
            GremlinResult::Vertex(v) => self.vertex_props_ref(*v),
            GremlinResult::Edge(e) => self.edge_props_ref(*e),
            _ => {
                return true;
            },
        };
        match props {
            Some(p) => match p.get("label") {
                Some(PropertyValue::String(s)) => {
                    proof {
                        reveal_strlit("label");
                    }
                    str_eq(s.as_str(), label.as_str())
                },
                _ => {
                    proof {
                        reveal_strlit("label");
                    }
                    false
                },
            },
            None => {
                proof {
                    let e = Seq::<(Seq<char>, PropValue)>::empty();
                    assert(!(exists|i: int| 0 <= i < e.len() && (#[trigger] e[i]).0 == "label"@));
                }
                false
            },
        }
    }
}

/// The values found under the given names in a property list (an empty
/// list where there is none).
pub fn lookup_all_exec(p: Option<&Properties>, names: &Vec<String>) -> (r: Vec<GremlinResult>)
    ensures
        results_view(r@) == lookup_all(
            match p {
                Some(p) => p.entries_model(),
                None => Seq::empty(),
            },
            strings_view(*names),
        ),
{
    let ghost ps = match p {
        Some(p) => p.entries_model(),
        None => Seq::<(Seq<char>, PropValue)>::empty(),
    };
    let ghost nv = strings_view(*names);
    let mut out: Vec<GremlinResult> = Vec::new();
    let mut j: usize = 0;
    while j < names.len()
        invariant
            j <= names.len(),
            nv == strings_view(*names),
            nv.len() == names.len(),
            ps == match p {
                Some(p) => p.entries_model(),
                None => Seq::<(Seq<char>, PropValue)>::empty(),
            },
            results_view(out@) == lookup_all(ps, nv.take(j as int)),
        decreases names.len() - j,
    {
        proof {
            lemma_take_next(nv, j as int);
        }
        assert(nv[j as int] == names@[j as int]@);
        let found = match p {
            Some(pp) => pp.get(names[j].as_str()),
            None => {
                proof {
                    let e = Seq::<(Seq<char>, PropValue)>::empty();
                    assert(!(exists|i: int| 0 <= i < e.len() && (#[trigger] e[i]).0 == names@[j as int]@));
                }
                None
            },
        };
        match found {
            Some(v) => {
                let ghost before = results_view(out@);
                out.push(GremlinResult::Value(v.duplicate()));
                assert(results_view(out@) =~= before + seq![ResultView::Value(v@)]);
            },
            None => {
                assert(results_view(out@) =~= results_view(out@) + Seq::<ResultView>::empty());
            },
        }
        j = j + 1;
    }
    proof {
        lemma_take_all(nv);
    }
    out
}

/// All values of a property list, in order (none where there is no list).
pub fn all_values_exec(p: Option<&Properties>) -> (r: Vec<GremlinResult>)
    ensures
        results_view(r@) == match p {
            Some(p) => p.entries_model(),
            None => Seq::<(Seq<char>, PropValue)>::empty(),
        }.map_values(|e: (Seq<char>, PropValue)| ResultView::Value(e.1)),
{
    match p {
        None => {
            let out: Vec<GremlinResult> = Vec::new();
            assert(results_view(out@) =~= Seq::<(Seq<char>, PropValue)>::empty().map_values(|e: (Seq<char>, PropValue)| ResultView::Value(e.1)));
            out
        },
        Some(pp) => {
            let ghost em = pp.entries_model();
            let n = pp.len();
            let mut out: Vec<GremlinResult> = Vec::new();
            let mut j: usize = 0;
            while j < n
                invariant
                    j <= n,
                    n == em.len(),
                    em == pp.entries_model(),
                    results_view(out@) == em.take(j as int).map_values(|e: (Seq<char>, PropValue)| ResultView::Value(e.1)),
                decreases n - j,
            {
                let v = pp.value_at(j);
                let ghost before = results_view(out@);
                out.push(GremlinResult::Value(v.duplicate()));
                assert(results_view(out@) =~= before.push(ResultView::Value(em[j as int].1)));
                assert(em.take(j + 1).map_values(|e: (Seq<char>, PropValue)| ResultView::Value(e.1)) =~= em.take(j as int).map_values(
                    |e: (Seq<char>, PropValue)| ResultView::Value(e.1),
                ).push(ResultView::Value(em[j as int].1)));
                j = j + 1;
            }
            assert(em.take(n as int) =~= em);
            out
        },
    }
}

/// The entries of an optional property list.
pub open spec fn opt_entries(p: Option<&Properties>) -> Seq<(Seq<char>, PropValue)> {
    match p {
        Some(p) => p.entries_model(),
        None => Seq::empty(),
    }
}

/// Whether some value of a property list equals `value`.
pub fn has_value_exec(p: Option<&Properties>, value: &PropertyValue) -> (b: bool)
    ensures
        b == exists|i: int| 0 <= i < opt_entries(p).len() && value_equal(#[trigger] opt_entries(p)[i].1, value@),
{
    match p {
        None => false,
        Some(pp) => {
            let ghost em = pp.entries_model();
            let n = pp.len();
            let mut j: usize = 0;
            while j < n
                invariant
                    j <= n,
                    n == em.len(),
                    em == pp.entries_model(),
                    opt_entries(p) == em,
                    forall|k: int| 0 <= k < j ==> !value_equal(#[trigger] em[k].1, value@),
                decreases n - j,
            {
                if pp.value_at(j).equals(value) {
                    assert(opt_entries(p) == em);
                    assert(value_equal(em[j as int].1, value@));
                    return true;
                }
                j = j + 1;
            }
            false
        },
    }
}

impl GremlinEngine {
    /// Whether a vertex's property value passes the test of a `has` step.
    fn has_test_exec<F: Fn(FloatOp) -> FloatValue>(
        f: &F,
        pv: &PropertyValue,
        value: &Option<PropertyValue>,
        pred: &Option<Box<GremlinPredicate>>,
    ) -> (b: bool)
        requires
            float_arith_ok(*f),
        ensures
            b == has_test(*f, pv@, opt_value_view(*value), opt_pred_view(*pred)),
    {
        match value {
            Some(ev) => pv.equals(ev),
            None => match pred {
                Some(p) => match &**p {
                    GremlinPredicate::Gte(x) => compare_property_values(f, pv, x) >= 0,
                    GremlinPredicate::Lte(x) => compare_property_values(f, pv, x) <= 0,
                    GremlinPredicate::Gt(x) => compare_property_values(f, pv, x) > 0,
                    GremlinPredicate::Lt(x) => compare_property_values(f, pv, x) < 0,
                    _ => false,
                },
                None => true,
            },
        }
    }

    /// Whether `r` passes `has(key, value, pred)`.
    fn has_matches_exec<F: Fn(FloatOp) -> FloatValue>(
        &self,
        f: &F,
        r: &GremlinResult,
        key: &String,
        value: &Option<PropertyValue>,
        pred: &Option<Box<GremlinPredicate>>,
    ) -> (b: bool)
        requires
            float_arith_ok(*f),
        ensures
            b == has_matches(*f, self.model(), result_view(*r), key@, opt_value_view(*value), opt_pred_view(*pred)),
    {
        match r {
            GremlinResult::Vertex(v) => {
                let found = match self.vertex_props_ref(*v) {
                    Some(p) => p.get(key.as_str()),
                    None => {
                        proof {
                            let e = Seq::<(Seq<char>, PropValue)>::empty();
                            assert(!(exists|i: int| 0 <= i < e.len() && (#[trigger] e[i]).0 == key@));
                        }
                        None
                    },
                };
                match found {
                    Some(pv) => Self::has_test_exec(f, pv, value, pred),
                    None => false,
                }
            },
            _ => true,
        }
    }

    /// Whether `r` passes `hasValue(value)`.
    fn has_value_matches_exec(&self, r: &GremlinResult, value: &PropertyValue) -> (b: bool)
        ensures
            b == has_value_matches(self.model(), result_view(*r), value@),
    {
        match r {
            GremlinResult::Vertex(v) => {
                let pr = self.vertex_props_ref(*v);
                let ghost ps = vprops(self.model(), *v);
                assert(opt_entries(pr) == ps);
                let b = has_value_exec(pr, value);
                proof {
                    if b {
                        let i = choose|i: int| 0 <= i < opt_entries(pr).len() && value_equal(#[trigger] opt_entries(pr)[i].1, value@);
                        assert(value_equal(ps[i].1, value@));
                        assert(has_value_matches(self.model(), ResultView::Vertex(*v), value@));
                    } else {
                        assert forall|i: int| 0 <= i < ps.len() implies !value_equal(#[trigger] ps[i].1, value@) by {
                            assert(opt_entries(pr)[i] == ps[i]);
                        }
                        assert(!has_value_matches(self.model(), ResultView::Vertex(*v), value@));
                    }
                }
                b
            },
            _ => true,
        }
    }

    /// The values under `names` of a vertex or an edge.
    fn values_of_exec(&self, r: &GremlinResult, names: &Vec<String>) -> (o: Vec<GremlinResult>)
        ensures
            results_view(o@) == match result_view(*r) {
                ResultView::Vertex(v) => lookup_all(vprops(self.model(), v), strings_view(*names)),
                ResultView::Edge(e) => lookup_all(eprops(self.model(), e), strings_view(*names)),
                _ => Seq::empty(),
            },
    {
        match r {
            GremlinResult::Vertex(v) => lookup_all_exec(self.vertex_props_ref(*v), names),
            GremlinResult::Edge(e) => lookup_all_exec(self.edge_props_ref(*e), names),
            _ => Vec::new(),
        }
    }

    /// The values of a vertex under `keys`, or all of them.
    fn properties_of_exec(&self, r: &GremlinResult, keys: &Option<Vec<String>>) -> (o: Vec<GremlinResult>)
        ensures
            results_view(o@) == match result_view(*r) {
                ResultView::Vertex(v) => match opt_strings_view(*keys) {
                    Some(ks) => lookup_all(vprops(self.model(), v), ks),
                    None => vprops(self.model(), v).map_values(|e: (Seq<char>, PropValue)| ResultView::Value(e.1)),
                },
                _ => Seq::empty(),
            },
    {
        match r {
            GremlinResult::Vertex(v) => match keys {
                Some(ks) => lookup_all_exec(self.vertex_props_ref(*v), ks),
                None => all_values_exec(self.vertex_props_ref(*v)),
            },
            _ => Vec::new(),
        }
    }

    /// The property map of a vertex, limited to `keys` where given.
    fn property_map_of_exec(&self, r: &GremlinResult, keys: &Option<Vec<String>>) -> (o: Vec<GremlinResult>)
        ensures
            results_view(o@) == match result_view(*r) {
                ResultView::Vertex(v) => seq![ResultView::PropertyMap(match opt_strings_view(*keys) {
                    Some(ks) => vprops(self.model(), v).filter(|e: (Seq<char>, PropValue)| ks.contains(e.0)),
                    None => vprops(self.model(), v),
                })],
                _ => Seq::empty(),
            },
    {
        match r {
            GremlinResult::Vertex(v) => {
                let props = match self.vertex_props_ref(*v) {
                    Some(p) => match keys {
                        Some(ks) => p.filtered(ks),
                        None => p.duplicate(),
                    },
                    None => {
                        let e = Properties::new();
                        proof {
                            match opt_strings_view(*keys) {
                                Some(ks) => {
                                    let es = Seq::<(Seq<char>, PropValue)>::empty();
                                    assert(es.filter(|e: (Seq<char>, PropValue)| ks.contains(e.0)) =~= es) by {
                                        reveal_with_fuel(Seq::filter, 1);
                                    }
                                },
                                None => {},
                            }
                            assert(e.entries_model() =~= Seq::<(Seq<char>, PropValue)>::empty());
                        }
                        e
                    },
                };
                let mut out: Vec<GremlinResult> = Vec::new();
                out.push(GremlinResult::PropertyMap(props));
                assert(results_view(out@) =~= seq![result_view(out@[0])]);
                out
            },
            _ => Vec::new(),
        }
    }

    /// The projection of a vertex onto `names`.
    fn project_of_exec(&self, r: &GremlinResult, names: &Vec<String>) -> (o: Vec<GremlinResult>)
        ensures
            results_view(o@) == match result_view(*r) {
                ResultView::Vertex(v) => seq![ResultView::Mapping(project_map(vprops(self.model(), v), v, strings_view(*names)))],
                _ => Seq::empty(),
            },
    {
        match r {
            GremlinResult::Vertex(v) => {
                let p = self.vertex_props_ref(*v);
                let ghost ps = vprops(self.model(), *v);
                let ghost nv = strings_view(*names);
                let mut m: Vec<(String, GremlinResult)> = Vec::new();
                let mut j: usize = 0;
                while j < names.len()
                    invariant
                        j <= names.len(),
                        nv == strings_view(*names),
                        nv.len() == names.len(),
                        ps == vprops(self.model(), *v),
                        match p {
                            Some(pp) => pp.entries_model() == ps,
                            None => ps == Seq::<(Seq<char>, PropValue)>::empty(),
                        },
                        named_results_view(m@) == project_map(ps, *v, nv.take(j as int)),
                    decreases names.len() - j,
                {
                    proof {
                        lemma_take_next(nv, j as int);
                    }
                    assert(nv[j as int] == names@[j as int]@);
                    let found = match p {
                        Some(pp) => pp.get(names[j].as_str()),
                        None => {
                            proof {
                                let e = Seq::<(Seq<char>, PropValue)>::empty();
                                assert(!(exists|i: int| 0 <= i < e.len() && (#[trigger] e[i]).0 == names@[j as int]@));
                            }
                            None
                        },
                    };
                    match found {
                        Some(x) => {
                            set_named(&mut m, names[j].clone(), GremlinResult::Value(x.duplicate()));
                        },
                        None => {
                            proof {
                                reveal_strlit("id");
                            }
                            if str_eq(names[j].as_str(), "id") {
                                set_named(&mut m, names[j].clone(), GremlinResult::Vertex(*v));
                            }
                        },
                    }
                    j = j + 1;
                }
                proof {
                    lemma_take_all(nv);
                }
                let mut out: Vec<GremlinResult> = Vec::new();
                out.push(GremlinResult::Mapping(m));
                assert(results_view(out@) =~= seq![result_view(out@[0])]);
                assert(result_view(out@[0]) == ResultView::Mapping(named_results_view(m@))) by {
                    assert(named_results_view(m@) =~= match result_view(out@[0]) {
                        ResultView::Mapping(x) => x,
                        _ => Seq::empty(),
                    });
                }
                out
            },
            _ => Vec::new(),
        }
    }
}

/// The first `n` results (all where there are fewer).
pub fn take_results(rs: &Vec<GremlinResult>, n: usize) -> (r: Vec<GremlinResult>)
    ensures
        results_view(r@) == results_view(rs@).take(clamp(n as int, rs@.len() as int)),
{
    let ghost rv = results_view(rs@);
    let m = if n < rs.len() { n } else { rs.len() };
    let mut out: Vec<GremlinResult> = Vec::new();
    let mut i: usize = 0;
    while i < m
        invariant
            i <= m,
            m <= rs.len(),
            rv == results_view(rs@),
            results_view(out@) == rv.take(i as int),
        decreases m - i,
    {
        let ghost before = results_view(out@);
        out.push(rs[i].duplicate());
        assert(results_view(out@) =~= before.push(rv[i as int]));
        assert(results_view(out@) =~= rv.take(i + 1));
        i = i + 1;
    }
    out
}

/// The results after the first `n` (none where there are fewer).
pub fn skip_results(rs: &Vec<GremlinResult>, n: usize) -> (r: Vec<GremlinResult>)
    ensures
        results_view(r@) == results_view(rs@).skip(clamp(n as int, rs@.len() as int)),
{
    let ghost rv = results_view(rs@);
    let start = if n < rs.len() { n } else { rs.len() };
    let mut out: Vec<GremlinResult> = Vec::new();
    let mut i: usize = start;
    while i < rs.len()
        invariant
            start <= i <= rs.len(),
            rv == results_view(rs@),
            results_view(out@) == rv.subrange(start as int, i as int),
        decreases rs.len() - i,
    {
        let ghost before = results_view(out@);
        out.push(rs[i].duplicate());
        assert(results_view(out@) =~= before.push(rv[i as int]));
        assert(results_view(out@) =~= rv.subrange(start as int, i + 1));
        i = i + 1;
    }
    assert(rv.subrange(start as int, rv.len() as int) =~= rv.skip(start as int));
    out
}

/// The text by which `dedup` tells a result apart.
pub fn dedup_key_exec(r: &GremlinResult) -> (k: Vec<char>)
    ensures
        k@ == dedup_key(result_view(*r)),
{
    match r {
        GremlinResult::Vertex(v) => {
            let mut k = vec!['v'];
            let mut d = u64_to_chars(v.id);
            k.append(&mut d);
            k
        },
        GremlinResult::Edge(e) => {
            let mut k = vec!['e'];
            let mut d = u64_to_chars(e.id);
            k.append(&mut d);
            k
        },
        GremlinResult::Value(v) => v.text_chars(),
        _ => r.text_chars(),
    }
}

/// The text by which `groupCount` groups a result.
pub fn group_key_exec(r: &GremlinResult) -> (k: Vec<char>)
    ensures
        k@ == group_key(result_view(*r)),
{
    match r {
        GremlinResult::Vertex(v) => u64_to_chars(v.id),
        GremlinResult::Edge(e) => u64_to_chars(e.id),
        GremlinResult::Value(PropertyValue::String(s)) => crate::text::chars_of(s.as_str()),
        GremlinResult::Value(PropertyValue::Int(i)) => i64_to_chars(*i),
        GremlinResult::Value(PropertyValue::Float(x)) => crate::text::chars_of(x.text.as_str()),
        _ => r.text_chars(),
    }
}

/// The results whose `dedup` key no earlier result has.
pub fn dedup_exec(rs: &Vec<GremlinResult>) -> (r: Vec<GremlinResult>)
    ensures
        results_view(r@) == dedup_results(results_view(rs@)),
{
    let ghost rv = results_view(rs@);
    let mut out: Vec<GremlinResult> = Vec::new();
    let mut seen: Vec<Vec<char>> = Vec::new();
    let mut i: usize = 0;
    while i < rs.len()
        invariant
            i <= rs.len(),
            rv == results_view(rs@),
            seen@.len() == i,
            forall|j: int| 0 <= j < i ==> (#[trigger] seen@[j])@ == dedup_key(rv[j]),
            results_view(out@) == dedup_results(rv.take(i as int)),
        decreases rs.len() - i,
    {
        proof {
            lemma_take_next(rv, i as int);
        }
        let k = dedup_key_exec(&rs[i]);
        let mut dup = false;
        let mut j: usize = 0;
        while j < seen.len()
            invariant
                j <= seen@.len(),
                seen@.len() == i,
                i < rv.len(),
                k@ == dedup_key(rv[i as int]),
                forall|q: int| 0 <= q < i ==> (#[trigger] seen@[q])@ == dedup_key(rv[q]),
                dup <==> exists|q: int| 0 <= q < j && dedup_key(rv[q]) == k@,
            decreases seen@.len() - j,
        {
            if chars_eq(&seen[j], &k) {
                dup = true;
            }
            j = j + 1;
        }
        proof {
            let prev = rv.take(i + 1).drop_last();
            assert(prev == rv.take(i as int));
            if dup {
                let q = choose|q: int| 0 <= q < i && dedup_key(rv[q]) == k@;
                assert(dedup_key(prev[q]) == dedup_key(rv.take(i + 1).last()));
            } else {
                assert forall|q: int| 0 <= q < prev.len() implies dedup_key(#[trigger] prev[q]) != dedup_key(rv.take(i + 1).last()) by {
                    assert(prev[q] == rv[q]);
                }
            }
        }
        if !dup {
            let ghost before = results_view(out@);
            out.push(rs[i].duplicate());
            assert(results_view(out@) =~= before.push(rv[i as int]));
        }
        seen.push(k);
        i = i + 1;
    }
    proof {
        lemma_take_all(rv);
    }
    out
}

/// The count of each group key, in the order the keys first occur.
pub fn group_count_exec(rs: &Vec<GremlinResult>) -> (r: Vec<(String, GremlinResult)>)
    ensures
        named_results_view(r@) == group_counts(results_view(rs@)),
{
    let ghost rv = results_view(rs@);
    let mut m: Vec<(String, GremlinResult)> = Vec::new();
    let mut i: usize = 0;
    while i < rs.len()
        invariant
            i <= rs.len(),
            rv == results_view(rs@),
            named_results_view(m@) == group_counts(rv.take(i as int)),
            forall|q: int| 0 <= q < named_results_view(m@).len() ==> match #[trigger] named_results_view(m@)[q].1 {
                ResultView::Count(c) => c <= i,
                _ => false,
            },
        decreases rs.len() - i,
    {
        proof {
            lemma_take_next(rv, i as int);
        }
        let k = crate::text::string_from_chars(&group_key_exec(&rs[i]));
        let ghost before = named_results_view(m@);
        proof {
            crate::gremlin::context::lemma_key_index_bounds(before, k@);
        }
        let c: u64 = match get_named(&m, k.as_str()) {
            Some(GremlinResult::Count(c)) => *c,
            _ => 0,
        };
        proof {
            match crate::gremlin::context::key_index(before, k@) {
                Some(q) => {
                    assert(match before[q].1 {
                        ResultView::Count(cc) => cc <= i,
                        _ => false,
                    });
                },
                None => {},
            }
            assert(c <= i);
            assert(c == match assoc_get(before, k@) {
                Some(ResultView::Count(cc)) => cc,
                _ => 0,
            });
        }
        set_named(&mut m, k, GremlinResult::Count(c + 1));
        proof {
            let mv = named_results_view(m@);
            assert(mv == assoc_set(before, k@, ResultView::Count((c + 1) as u64)));
            assert forall|q: int| 0 <= q < mv.len() implies match #[trigger] mv[q].1 {
                ResultView::Count(cc) => cc <= i + 1,
                _ => false,
            } by {
                match crate::gremlin::context::key_index(before, k@) {
                    Some(p) => {
                        if q != p {
                            assert(mv[q] == before[q]);
                        }
                    },
                    None => {
                        if q < before.len() {
                            assert(mv[q] == before[q]);
                        }
                    },
                }
            }
        }
        i = i + 1;
    }
    proof {
        lemma_take_all(rv);
    }
    m
}
/// The results in the stable order of their keys.
pub fn ordered_exec<F: Fn(FloatOp) -> FloatValue>(
    f: &F,
    rs: &Vec<GremlinResult>,
    keys: &Vec<OrderKey>,
    desc: bool,
) -> (r: Vec<GremlinResult>)
    requires
        float_arith_ok(*f),
        keys@.len() == rs@.len(),
    ensures
        results_view(r@) == ordered_by(*f, results_view(rs@), keys_view(keys@), desc),
{
    let ghost rv = results_view(rs@);
    let perm = sort_order(f, keys, desc);
    let ghost so = stable_order(*f, desc, keys_view(keys@), keys@.len() as nat);
    assert(rv.len() == keys@.len());
    let mut out: Vec<GremlinResult> = Vec::new();
    let mut k: usize = 0;
    while k < perm.len()
        invariant
            k <= perm.len(),
            rv == results_view(rs@),
            perm@.len() == keys@.len(),
            rv.len() == keys@.len(),
            perm@.map_values(|i: usize| i as int) == so,
            forall|q: int| 0 <= q < perm@.len() ==> perm@[q] < keys@.len(),
            results_view(out@) == so.take(k as int).map_values(|i: int| rv[i]),
        decreases perm.len() - k,
    {
        let idx = perm[k];
        let ghost before = results_view(out@);
        out.push(rs[idx].duplicate());
        proof {
            assert(so[k as int] == idx as int);
            assert(results_view(out@) =~= before.push(rv[idx as int]));
            assert(so.take(k + 1).map_values(|i: int| rv[i]) =~= so.take(k as int).map_values(|i: int| rv[i]).push(rv[so[k as int]]));
        }
        k = k + 1;
    }
    assert(so.take(so.len() as int) =~= so);
    out
}

/// The natural ordering keys of the results.
pub fn result_keys(rs: &Vec<GremlinResult>) -> (r: Vec<OrderKey>)
    ensures
        keys_view(r@) == results_view(rs@).map_values(|x: ResultView| key_of(x)),
        r@.len() == rs@.len(),
{
    let ghost rv = results_view(rs@);
    let mut ks: Vec<OrderKey> = Vec::new();
    let mut i: usize = 0;
    while i < rs.len()
        invariant
            i <= rs.len(),
            rv == results_view(rs@),
            ks@.len() == i,
            keys_view(ks@) == rv.take(i as int).map_values(|x: ResultView| key_of(x)),
        decreases rs.len() - i,
    {
        let ghost before = keys_view(ks@);
        ks.push(OrderKey::of_result(&rs[i]));
        assert(keys_view(ks@) =~= before.push(key_of(rv[i as int])));
        assert(rv.take(i + 1).map_values(|x: ResultView| key_of(x)) =~= rv.take(i as int).map_values(|x: ResultView| key_of(x)).push(key_of(rv[i as int])));
        i = i + 1;
    }
    assert(rv.take(rv.len() as int) =~= rv);
    ks
}

/// The results in their natural order (descending where `desc`).
pub fn sorted_exec<F: Fn(FloatOp) -> FloatValue>(f: &F, rs: &Vec<GremlinResult>, desc: bool) -> (r: Vec<GremlinResult>)
    requires
        float_arith_ok(*f),
    ensures
        results_view(r@) == sorted_results(*f, results_view(rs@), desc),
{
    let ks = result_keys(rs);
    ordered_exec(f, rs, &ks, desc)
}

impl GremlinEngine {
    /// The keys of a property-based ordering.
    fn prop_keys_exec(&self, rs: &Vec<GremlinResult>, prop: &String, missing: &PropertyValue) -> (r: Vec<OrderKey>)
        ensures
            keys_view(r@) == prop_keys(self.model(), results_view(rs@), prop@, missing@),
            r@.len() == rs@.len(),
    {
        let ghost rv = results_view(rs@);
        let ghost m = self.model();
        let ghost kf = |r: ResultView| KeyView::Value(match r {
            ResultView::Vertex(v) => match prop_lookup(vprops(m, v), prop@) {
                Some(x) => x,
                None => missing@,
            },
            _ => missing@,
        });
        let mut ks: Vec<OrderKey> = Vec::new();
        let mut i: usize = 0;
        while i < rs.len()
            invariant
                i <= rs.len(),
                rv == results_view(rs@),
                m == self.model(),
                ks@.len() == i,
                kf == (|r: ResultView| KeyView::Value(match r {
                    ResultView::Vertex(v) => match prop_lookup(vprops(m, v), prop@) {
                        Some(x) => x,
                        None => missing@,
                    },
                    _ => missing@,
                })),
                keys_view(ks@) == rv.take(i as int).map_values(kf),
            decreases rs.len() - i,
        {
            let value = match &rs[i] {
                GremlinResult::Vertex(v) => {
                    let found = match self.vertex_props_ref(*v) {
                        Some(p) => p.get(prop.as_str()),
                        None => {
                            proof {
                                let e = Seq::<(Seq<char>, PropValue)>::empty();
                                assert(!(exists|j: int| 0 <= j < e.len() && (#[trigger] e[j]).0 == prop@));
                            }
                            None
                        },
                    };
                    match found {
                        Some(x) => x.duplicate(),
                        None => missing.duplicate(),
                    }
                },
                _ => missing.duplicate(),
            };
            let ghost before = keys_view(ks@);
            ks.push(OrderKey::Value(value));
            assert(keys_view(ks@) =~= before.push(kf(rv[i as int])));
            assert(rv.take(i + 1).map_values(kf) =~= rv.take(i as int).map_values(kf).push(kf(rv[i as int])));
            i = i + 1;
        }
        assert(rv.take(rv.len() as int) =~= rv);
        ks
    }

    /// `order(...)`.
    fn order_exec<F: Fn(FloatOp) -> FloatValue>(&self, f: &F, rs: &Vec<GremlinResult>, order: &Option<GremlinOrder>) -> (r: Vec<GremlinResult>)
        requires
            float_arith_ok(*f),
        ensures
            results_view(r@) == order_results(*f, self.model(), results_view(rs@), opt_order_view(*order)),
    {
        match order {
            Some(GremlinOrder::Desc) => sorted_exec(f, rs, true),
            Some(GremlinOrder::By(prop, dir)) => {
                if self.property_store.is_some() {
                    let missing = PropertyValue::String(String::new());
                    assert(missing@ == PropValue::Text(Seq::empty()));
                    let ks = self.prop_keys_exec(rs, prop, &missing);
                    let desc = match dir {
                        GremlinOrderDirection::Desc => true,
                        GremlinOrderDirection::Asc => false,
                    };
                    ordered_exec(f, rs, &ks, desc)
                } else {
                    GremlinResult::duplicate_all(rs)
                }
            },
            _ => sorted_exec(f, rs, false),
        }
    }

    /// `by(property, order)`.
    fn by_exec<F: Fn(FloatOp) -> FloatValue>(&self, f: &F, rs: &Vec<GremlinResult>, prop: &String, order: &Option<GremlinOrder>) -> (r: Vec<GremlinResult>)
        requires
            float_arith_ok(*f),
        ensures
            results_view(r@) == by_results(*f, self.model(), results_view(rs@), prop@, opt_order_view(*order)),
    {
        if self.property_store.is_some() {
            let missing = PropertyValue::Null;
            let ks = self.prop_keys_exec(rs, prop, &missing);
            let desc = match order {
                Some(GremlinOrder::Desc) => true,
                Some(GremlinOrder::By(_, GremlinOrderDirection::Desc)) => true,
                _ => false,
            };
            ordered_exec(f, rs, &ks, desc)
        } else {
            GremlinResult::duplicate_all(rs)
        }
    }
}

/// `order(local)`.
pub fn order_local_exec<F: Fn(FloatOp) -> FloatValue>(f: &F, rs: &Vec<GremlinResult>, order: &Option<GremlinOrder>) -> (r: Vec<GremlinResult>)
    requires
        float_arith_ok(*f),
    ensures
        results_view(r@) == order_local_results(*f, results_view(rs@), opt_order_view(*order)),
{
    let ghost rv = results_view(rs@);
    let ghost ov = opt_order_view(*order);
    let desc = match order {
        Some(GremlinOrder::Desc) => true,
        _ => false,
    };
    assert(desc == (ov == Some(OrderView::Desc)));
    let ghost g = |r: ResultView| match r {
        ResultView::List(l) => ResultView::List(sorted_results(*f, l, ov == Some(OrderView::Desc))),
        _ => r,
    };
    let mut out: Vec<GremlinResult> = Vec::new();
    let mut i: usize = 0;
    while i < rs.len()
        invariant
            i <= rs.len(),
            rv == results_view(rs@),
            float_arith_ok(*f),
            desc == (ov == Some(OrderView::Desc)),
            ov == opt_order_view(*order),
            g == (|r: ResultView| match r {
                ResultView::List(l) => ResultView::List(sorted_results(*f, l, ov == Some(OrderView::Desc))),
                _ => r,
            }),
            results_view(out@) == rv.take(i as int).map_values(g),
        decreases rs.len() - i,
    {
        let item = match &rs[i] {
            GremlinResult::List(l) => {
                assert(result_view(rs@[i as int]) == ResultView::List(results_view(l@))) by {
                    assert(results_view(l@) =~= match result_view(rs@[i as int]) {
                        ResultView::List(x) => x,
                        _ => Seq::empty(),
                    });
                }
                let sorted = sorted_exec(f, l, desc);
                let x = GremlinResult::List(sorted);
                assert(result_view(x) == ResultView::List(results_view(sorted@))) by {
                    assert(results_view(sorted@) =~= match result_view(x) {
                        ResultView::List(y) => y,
                        _ => Seq::empty(),
                    });
                }
                x
            },
            other => other.duplicate(),
        };
        let ghost before = results_view(out@);
        out.push(item);
        assert(results_view(out@) =~= before.push(g(rv[i as int])));
        assert(rv.take(i + 1).map_values(g) =~= rv.take(i as int).map_values(g).push(g(rv[i as int])));
        i = i + 1;
    }
    assert(rv.take(rv.len() as int) =~= rv);
    out
}

/// The numeric values among the results.
pub fn numerics_exec(rs: &Vec<GremlinResult>) -> (r: Vec<PropertyValue>)
    ensures
        values_view(r) == numerics(results_view(rs@)),
        forall|i: int| 0 <= i < r@.len() ==> (#[trigger] r@[i]@ is Int || r@[i]@ is Float),
{
    let ghost rv = results_view(rs@);
    let mut out: Vec<PropertyValue> = Vec::new();
    let mut i: usize = 0;
    while i < rs.len()
        invariant
            i <= rs.len(),
            rv == results_view(rs@),
            values_view(out) == numerics(rv.take(i as int)),
            forall|q: int| 0 <= q < out@.len() ==> (#[trigger] out@[q]@ is Int || out@[q]@ is Float),
        decreases rs.len() - i,
    {
        proof {
            lemma_take_next(rv, i as int);
        }
        let ghost before = values_view(out);
        match &rs[i] {
            GremlinResult::Value(PropertyValue::Int(x)) => {
                out.push(PropertyValue::Int(*x));
                assert(values_view(out) =~= before + seq![PropValue::Int(*x)]);
            },
            GremlinResult::Value(PropertyValue::Float(x)) => {
                let d = x.duplicate();
                out.push(PropertyValue::Float(d));
                assert(values_view(out) =~= before + seq![PropValue::Float(x.bits, x.text@)]);
            },
            _ => {},
        }
        i = i + 1;
    }
    proof {
        lemma_take_all(rv);
    }
    out
}

/// A numeric value as a double.
pub fn as_double_exec<F: Fn(FloatOp) -> FloatValue>(f: &F, v: &PropertyValue) -> (r: FloatValue)
    requires
        float_arith_ok(*f),
        v@ is Int || v@ is Float,
    ensures
        (r.bits, r.text@) == as_double(*f, v@),
{
    match v {
        PropertyValue::Int(i) => apply_float(f, FloatOp::FromInt(*i)),
        PropertyValue::Float(x) => x.duplicate(),
        _ => {
            proof {
                assert(false);
            }
            FloatValue { bits: 0, text: String::new() }
        },
    }
}

/// The double zero.
pub fn zero_double_exec() -> (r: FloatValue)
    ensures
        (r.bits, r.text@) == zero_double(),
{
    let t = crate::text::string_from_chars(&vec!['0']);
    FloatValue { bits: 0, text: t }
}

/// The sum of the values, added in order to zero.
pub fn sum_exec<F: Fn(FloatOp) -> FloatValue>(f: &F, nums: &Vec<PropertyValue>) -> (r: FloatValue)
    requires
        float_arith_ok(*f),
        forall|i: int| 0 <= i < nums@.len() ==> (#[trigger] nums@[i]@ is Int || nums@[i]@ is Float),
    ensures
        (r.bits, r.text@) == sum_of(*f, values_view(*nums)),
{
    let ghost vv = values_view(*nums);
    let mut acc = zero_double_exec();
    let mut i: usize = 0;
    while i < nums.len()
        invariant
            i <= nums.len(),
            float_arith_ok(*f),
            vv == values_view(*nums),
            forall|q: int| 0 <= q < nums@.len() ==> (#[trigger] nums@[q]@ is Int || nums@[q]@ is Float),
            (acc.bits, acc.text@) == sum_of(*f, vv.take(i as int)),
        decreases nums.len() - i,
    {
        proof {
            lemma_take_next(vv, i as int);
        }
        let x = as_double_exec(f, &nums[i]);
        acc = apply_float(f, FloatOp::Add(acc.bits, x.bits));
        i = i + 1;
    }
    proof {
        lemma_take_all(vv);
    }
    acc
}

/// The largest (`max`) or smallest value.
pub fn extreme_exec<F: Fn(FloatOp) -> FloatValue>(f: &F, nums: &Vec<PropertyValue>, max: bool) -> (r: FloatValue)
    requires
        float_arith_ok(*f),
        nums@.len() > 0,
        forall|i: int| 0 <= i < nums@.len() ==> (#[trigger] nums@[i]@ is Int || nums@[i]@ is Float),
    ensures
        (r.bits, r.text@) == extreme_of(*f, values_view(*nums), max),
{
    let ghost vv = values_view(*nums);
    let mut acc = as_double_exec(f, &nums[0]);
    assert(vv.take(1).len() == 1);
    assert(vv.take(1)[0] == vv[0]);
    let mut i: usize = 1;
    while i < nums.len()
        invariant
            1 <= i <= nums.len(),
            float_arith_ok(*f),
            vv == values_view(*nums),
            forall|q: int| 0 <= q < nums@.len() ==> (#[trigger] nums@[q]@ is Int || nums@[q]@ is Float),
            (acc.bits, acc.text@) == extreme_of(*f, vv.take(i as int), max),
        decreases nums.len() - i,
    {
        proof {
            lemma_take_next(vv, i as int);
        }
        let x = as_double_exec(f, &nums[i]);
        let op = if max { FloatOp::Max(acc.bits, x.bits) } else { FloatOp::Min(acc.bits, x.bits) };
        acc = apply_float(f, op);
        i = i + 1;
    }
    proof {
        lemma_take_all(vv);
    }
    acc
}

/// A double as a single result.
pub fn double_results(d: FloatValue) -> (r: Vec<GremlinResult>)
    ensures
        results_view(r@) == seq![double_result((d.bits, d.text@))],
{
    let mut out: Vec<GremlinResult> = Vec::new();
    out.push(GremlinResult::Value(PropertyValue::Float(d)));
    assert(results_view(out@) =~= seq![double_result((d.bits, d.text@))]);
    out
}

/// `sum`.
pub fn sum_step_exec<F: Fn(FloatOp) -> FloatValue>(f: &F, rs: &Vec<GremlinResult>) -> (r: Vec<GremlinResult>)
    requires
        float_arith_ok(*f),
    ensures
        results_view(r@) == sum_results(*f, results_view(rs@)),
{
    let nums = numerics_exec(rs);
    double_results(sum_exec(f, &nums))
}

/// `mean`.
pub fn mean_step_exec<F: Fn(FloatOp) -> FloatValue>(f: &F, rs: &Vec<GremlinResult>) -> (r: Vec<GremlinResult>)
    requires
        float_arith_ok(*f),
    ensures
        results_view(r@) == mean_results(*f, results_view(rs@)),
{
    let nums = numerics_exec(rs);
    if nums.len() > 0 {
        let total = sum_exec(f, &nums);
        let n = apply_float(f, FloatOp::FromInt(nums.len() as i64));
        double_results(apply_float(f, FloatOp::Div(total.bits, n.bits)))
    } else {
        double_results(zero_double_exec())
    }
}

/// `max` or `min`.
pub fn extreme_step_exec<F: Fn(FloatOp) -> FloatValue>(f: &F, rs: &Vec<GremlinResult>, max: bool) -> (r: Vec<GremlinResult>)
    requires
        float_arith_ok(*f),
    ensures
        results_view(r@) == extreme_results(*f, results_view(rs@), max),
{
    let nums = numerics_exec(rs);
    if nums.len() > 0 {
        double_results(extreme_exec(f, &nums, max))
    } else {
        let mut out: Vec<GremlinResult> = Vec::new();
        out.push(GremlinResult::Null);
        assert(results_view(out@) =~= seq![ResultView::Null]);
        out
    }
}

impl GremlinEngine {
    /// `as(label)`.
    fn as_exec(rs: &Vec<GremlinResult>, label: &String, cx: &mut GremlinContext)
        ensures
            ctx_model(*final(cx)) == (if results_view(rs@).len() == 0 {
                ctx_model(*old(cx))
            } else {
                CtxModel {
                    bindings: assoc_set(
                        ctx_model(*old(cx)).bindings,
                        label@,
                        if results_view(rs@).len() == 1 {
                            results_view(rs@)[0]
                        } else {
                            ResultView::List(results_view(rs@))
                        },
                    ),
                    ..ctx_model(*old(cx))
                }
            }),
    {
        if rs.len() > 0 {
            let bound = if rs.len() == 1 {
                rs[0].duplicate()
            } else {
                let items = GremlinResult::duplicate_all(rs);
                let x = GremlinResult::List(items);
                assert(result_view(x) == ResultView::List(results_view(items@))) by {
                    assert(results_view(items@) =~= match result_view(x) {
                        ResultView::List(y) => y,
                        _ => Seq::empty(),
                    });
                }
                x
            };
            cx.bind(label.clone(), bound);
        }
    }

    /// `select(labels)`.
    fn select_exec(labels: &Vec<String>, cx: &GremlinContext) -> (r: Vec<GremlinResult>)
        ensures
            results_view(r@) == select_results(ctx_model(*cx).bindings, strings_view(*labels)),
    {
        let ghost bv = ctx_model(*cx).bindings;
        let ghost lv = strings_view(*labels);
        let mut out: Vec<GremlinResult> = Vec::new();
        if labels.len() == 1 {
            assert(lv[0] == labels@[0]@);
            match cx.get_binding(labels[0].as_str()) {
                Some(b) => {
                    out.push(b.duplicate());
                    assert(results_view(out@) =~= seq![result_view(*b)]);
                },
                None => {
                    assert(results_view(out@) =~= Seq::<ResultView>::empty());
                },
            }
            out
        } else {
            let mut m: Vec<(String, GremlinResult)> = Vec::new();
            let mut j: usize = 0;
            while j < labels.len()
                invariant
                    j <= labels.len(),
                    bv == ctx_model(*cx).bindings,
                    lv == strings_view(*labels),
                    lv.len() == labels.len(),
                    named_results_view(m@) == select_map(bv, lv.take(j as int)),
                decreases labels.len() - j,
            {
                proof {
                    lemma_take_next(lv, j as int);
                }
                assert(lv[j as int] == labels@[j as int]@);
                match cx.get_binding(labels[j].as_str()) {
                    Some(b) => {
                        set_named(&mut m, labels[j].clone(), b.duplicate());
                    },
                    None => {},
                }
                j = j + 1;
            }
            proof {
                lemma_take_all(lv);
            }
            if m.len() > 0 {
                let x = GremlinResult::Mapping(m);
                proof {
                    assert(named_results_view(m@) =~= match result_view(x) {
                        ResultView::Mapping(y) => y,
                        _ => Seq::empty(),
                    });
                }
                out.push(x);
                assert(results_view(out@) =~= seq![ResultView::Mapping(select_map(bv, lv))]);
            } else {
                assert(results_view(out@) =~= Seq::<ResultView>::empty());
            }
            out
        }
    }

    /// `addE(label)`.
    fn add_e_exec(rs: &Vec<GremlinResult>, label: &String, cx: &mut GremlinContext, stats: &mut QueryStats) -> (r: Vec<GremlinResult>)
        ensures
            (results_view(r@), ctx_model(*final(cx)), *final(stats)) == ({
                let (a, fr) = add_e_step(Frame { eng: arbitrary_engine(), cx: ctx_model(*old(cx)), stats: *old(stats) }, results_view(rs@), label@);
                (a, fr.cx, fr.stats)
            }),
    {
        let vs = vertex_ids_in(rs);
        let ghost inc0 = ctx_model(*cx).incomplete;
        let mut out: Vec<GremlinResult> = Vec::new();
        let mut j: usize = 0;
        while j < vs.len()
            invariant
                j <= vs.len(),
                results_view(out@) == vs@.take(j as int).map_values(|v: VertexId| ResultView::IncompleteEdge(v, label@)),
                ctx_model(*cx) == (CtxModel { incomplete: inc0 + vs@.take(j as int).map_values(|v: VertexId| (v, label@)), ..ctx_model(*old(cx)) }),
            decreases vs.len() - j,
        {
            let v = vs[j];
            let ghost before = results_view(out@);
            let ghost before_inc = ctx_model(*cx).incomplete;
            out.push(GremlinResult::IncompleteEdge(v, label.clone()));
            cx.incomplete_edges.push(IncompleteEdge { source: v, label: label.clone() });
            proof {
                assert(ctx_model(*cx).incomplete =~= before_inc.push((v, label@)));
                assert(results_view(out@) =~= before.push(ResultView::IncompleteEdge(v, label@)));
                assert(vs@.take(j + 1).map_values(|v: VertexId| ResultView::IncompleteEdge(v, label@)) =~= vs@.take(j as int).map_values(
                    |v: VertexId| ResultView::IncompleteEdge(v, label@),
                ).push(ResultView::IncompleteEdge(v, label@)));
                assert(vs@.take(j + 1).map_values(|v: VertexId| (v, label@)) =~= vs@.take(j as int).map_values(|v: VertexId| (v, label@)).push((v, label@)));
                assert(ctx_model(*cx).incomplete =~= inc0 + vs@.take(j + 1).map_values(|v: VertexId| (v, label@)));
            }
            j = j + 1;
        }
        assert(vs@.take(vs@.len() as int) =~= vs@);
        stats.edges_traversed = bump_exec(stats.edges_traversed, out.len());
        out
    }

    /// `property(key, value)`.
    fn property_exec(&mut self, rs: &Vec<GremlinResult>, key: &String, value: &PropertyValue, stats: &mut QueryStats)
        ensures
            final(self).model() == (EngineModel {
                props: match old(self).model().props {
                    Some(p) => Some(set_property_all(p, results_view(rs@), key@, value@)),
                    None => None,
                },
                ..old(self).model()
            }),
            *final(stats) == (QueryStats { vertices_visited: bump(old(stats).vertices_visited, rs@.len()), ..*old(stats) }),
    {
        let ghost rv = results_view(rs@);
        match &mut self.property_store {
            None => {},
            Some(ps) => {
                let ghost p0 = ps.model();
                let mut i: usize = 0;
                while i < rs.len()
                    invariant
                        i <= rs.len(),
                        rv == results_view(rs@),
                        ps.model() == set_property_all(p0, rv.take(i as int), key@, value@),
                    decreases rs.len() - i,
                {
                    proof {
                        lemma_take_next(rv, i as int);
                    }
                    match &rs[i] {
                        GremlinResult::Vertex(v) => {
                            let mut p = ps.get_vertex_properties(*v);
                            p.insert(key.clone(), value.duplicate());
                            ps.set_vertex_properties(*v, p);
                        },
                        GremlinResult::Edge(e) => {
                            let mut p = ps.get_edge_properties(*e);
                            p.insert(key.clone(), value.duplicate());
                            ps.set_edge_properties(*e, p);
                        },
                        _ => {},
                    }
                    i = i + 1;
                }
                proof {
                    lemma_take_all(rv);
                }
            },
        }
        stats.vertices_visited = bump_exec(stats.vertices_visited, rs.len());
    }

    /// `aggregate(label)`.
    fn aggregate_exec(rs: &Vec<GremlinResult>, label: &String, cx: &mut GremlinContext)
        ensures
            ctx_model(*final(cx)) == (CtxModel {
                effects: aggregate_effects(ctx_model(*old(cx)).effects, label@, results_view(rs@)),
                ..ctx_model(*old(cx))
            }),
    {
        let ghost rv = results_view(rs@);
        let ghost c0 = ctx_model(*cx);
        let mut i: usize = 0;
        while i < rs.len()
            invariant
                i <= rs.len(),
                rv == results_view(rs@),
                ctx_model(*cx) == (CtxModel { effects: aggregate_effects(c0.effects, label@, rv.take(i as int)), ..c0 }),
            decreases rs.len() - i,
        {
            proof {
                lemma_take_next(rv, i as int);
            }
            cx.store_side_effect(label.clone(), rs[i].duplicate());
            i = i + 1;
        }
        proof {
            lemma_take_all(rv);
        }
    }
}

/// An engine model with nothing in it, for steps that do not read one.
pub open spec fn arbitrary_engine() -> EngineModel {
    EngineModel { graph: crate::graph::GraphModel { vertices: Seq::empty(), neighbors: |v: VertexId| Seq::empty(), next_edge: 0 }, props: None, registry: None }
}

/// Whether a vertex id occurs in a list.
pub fn contains_vertex_id(vs: &Vec<VertexId>, v: VertexId) -> (r: bool)
    ensures
        r == vs@.contains(v),
{
    let mut i: usize = 0;
    while i < vs.len()
        invariant
            i <= vs.len(),
            forall|k: int| 0 <= k < i ==> vs@[k] != v,
        decreases vs.len() - i,
    {
        if vs[i] == v {
            assert(vs@[i as int] == v);
            return true;
        }
        i = i + 1;
    }
    false
}

/// Whether a step needs neither the clock nor a nested traversal.
pub open spec fn is_plain(step: StepView) -> bool {
    !(step is Repeat || step is AddV || step is To || step is From || step is WithinTraversal || step is Neq)
}

impl GremlinEngine {
    /// Runs a step that needs neither the clock nor a nested traversal.
    #[verifier::rlimit(60)]
    pub(crate) fn exec_plain_step<F: Fn(FloatOp) -> FloatValue>(
        &mut self,
        f: &F,
        step: &GremlinStep,
        rs: &Vec<GremlinResult>,
        cx: &mut GremlinContext,
        stats: &mut QueryStats,
    ) -> (r: Vec<GremlinResult>)
        requires
            float_arith_ok(*f),
            is_plain(step_view(*step)),
        ensures
            (results_view(r@), frame(*final(self), *final(cx), *final(stats))) == plain_step(
                *f,
                step_view(*step),
                results_view(rs@),
                frame(*old(self), *old(cx), *old(stats)),
            ),
    {
        reveal(plain_step);
        let ghost rv = results_view(rs@);
        let gm: Ghost<EngineModel> = Ghost(self.model());
        let ghost m = gm@;
        match step {
            GremlinStep::Out(_) | GremlinStep::Both(_) => self.exec_out(rs, cx, stats),
            GremlinStep::In(_) => Vec::new(),
            GremlinStep::OutE(labels) => self.exec_out_e(rs, labels, cx, stats),
            GremlinStep::InE(labels) => self.exec_in_e(rs, labels, stats),
            GremlinStep::BothE(labels) => {
                let mut a = self.exec_out_e(rs, labels, cx, stats);
                let b = self.exec_in_e(rs, labels, stats);
                append_results(&mut a, b);
                a
            },
            GremlinStep::HasLabel(label) => {
                if self.property_store.is_some() {
                    let this = &*self;
                    let keep = |r: &GremlinResult| -> (b: bool)
                        ensures
                            b == label_filter(gm@, label@)(result_view(*r)),
                        { this.label_matches_exec(r, label) };
                    let out = filter_results(rs, &keep, Ghost(label_filter(m, label@)));
                    let vc = vertex_ids_in(rs).len();
                    let is_e = |r: &GremlinResult| -> (b: bool)
                        ensures
                            b == is_edge()(result_view(*r)),
                        {
                            match r {
                                GremlinResult::Edge(_) => true,
                                _ => false,
                            }
                        };
                    let ec = filter_results(rs, &is_e, Ghost(is_edge())).len();
                    stats.vertices_visited = bump_exec(stats.vertices_visited, vc);
                    stats.edges_traversed = bump_exec(stats.edges_traversed, ec);
                    out
                } else {
                    GremlinResult::duplicate_all(rs)
                }
            },
            GremlinStep::Has(key, value, pred) => {
                if self.property_store.is_some() {
                    let out = self.has_filter_exec(f, rs, key, value, pred);
                    let vc = vertex_ids_in(rs).len();
                    stats.vertices_visited = bump_exec(stats.vertices_visited, vc);
                    out
                } else {
                    GremlinResult::duplicate_all(rs)
                }
            },
            GremlinStep::HasKey(key) => {
                if self.property_store.is_some() {
                    let none_value: Option<PropertyValue> = None;
                    let none_pred: Option<Box<GremlinPredicate>> = None;
                    let out = self.has_filter_exec(f, rs, key, &none_value, &none_pred);
                    let vc = vertex_ids_in(rs).len();
                    stats.vertices_visited = bump_exec(stats.vertices_visited, vc);
                    out
                } else {
                    GremlinResult::duplicate_all(rs)
                }
            },
            GremlinStep::HasValue(value) => {
                if self.property_store.is_some() {
                    let this = &*self;
                    let keep = |r: &GremlinResult| -> (b: bool)
                        ensures
                            b == has_value_filter(gm@, value@)(result_view(*r)),
                        { this.has_value_matches_exec(r, value) };
                    let out = filter_results(rs, &keep, Ghost(has_value_filter(m, value@)));
                    let vc = vertex_ids_in(rs).len();
                    stats.vertices_visited = bump_exec(stats.vertices_visited, vc);
                    out
                } else {
                    GremlinResult::duplicate_all(rs)
                }
            },
            GremlinStep::Values(names) => {
                if self.property_store.is_some() {
                    let this = &*self;
                    let g = |r: &GremlinResult| -> (o: Vec<GremlinResult>)
                        ensures
                            results_view(o@) == values_of(gm@, strings_view(*names))(result_view(*r)),
                        { this.values_of_exec(r, names) };
                    let out = concat_results(rs, &g, Ghost(values_of(m, strings_view(*names))));
                    let vc = vertex_ids_in(rs).len();
                    stats.vertices_visited = bump_exec(stats.vertices_visited, vc);
                    out
                } else {
                    Vec::new()
                }
            },
            GremlinStep::Properties(keys) => {
                if self.property_store.is_some() {
                    let this = &*self;
                    let g = |r: &GremlinResult| -> (o: Vec<GremlinResult>)
                        ensures
                            results_view(o@) == properties_of(gm@, opt_strings_view(*keys))(result_view(*r)),
                        { this.properties_of_exec(r, keys) };
                    let out = concat_results(rs, &g, Ghost(properties_of(m, opt_strings_view(*keys))));
                    let vc = vertex_ids_in(rs).len();
                    stats.vertices_visited = bump_exec(stats.vertices_visited, vc);
                    out
                } else {
                    Vec::new()
                }
            },
            GremlinStep::PropertyMap(keys) => {
                if self.property_store.is_some() {
                    let this = &*self;
                    let g = |r: &GremlinResult| -> (o: Vec<GremlinResult>)
                        ensures
                            results_view(o@) == property_map_of(gm@, opt_strings_view(*keys))(result_view(*r)),
                        { this.property_map_of_exec(r, keys) };
                    let out = concat_results(rs, &g, Ghost(property_map_of(m, opt_strings_view(*keys))));
                    let vc = vertex_ids_in(rs).len();
                    stats.vertices_visited = bump_exec(stats.vertices_visited, vc);
                    out
                } else {
                    Vec::new()
                }
            },
            GremlinStep::Project(names) => {
                if self.property_store.is_some() {
                    let this = &*self;
                    let g = |r: &GremlinResult| -> (o: Vec<GremlinResult>)
                        ensures
                            results_view(o@) == project_of(gm@, strings_view(*names))(result_view(*r)),
                        { this.project_of_exec(r, names) };
                    concat_results(rs, &g, Ghost(project_of(m, strings_view(*names))))
                } else {
                    Vec::new()
                }
            },
            GremlinStep::As(label) => {
                Self::as_exec(rs, label, cx);
                GremlinResult::duplicate_all(rs)
            },
            GremlinStep::Select(labels) => Self::select_exec(labels, cx),
            GremlinStep::Dedup => dedup_exec(rs),
            GremlinStep::Limit(n) => take_results(rs, *n),
            GremlinStep::Skip(n) => skip_results(rs, *n),
            GremlinStep::Range(a, b) => {
                let tail = skip_results(rs, *a);
                take_results(&tail, b.wrapping_sub(*a))
            },
            GremlinStep::Count => {
                let mut out: Vec<GremlinResult> = Vec::new();
                out.push(GremlinResult::Count(rs.len() as u64));
                assert(results_view(out@) =~= seq![ResultView::Count(rv.len() as u64)]);
                out
            },
            GremlinStep::Where(p) | GremlinStep::WhereFilter(p) => self.where_exec(f, rs, p),
            GremlinStep::Order(order) => self.order_exec(f, rs, order),
            GremlinStep::By(prop, order) => self.by_exec(f, rs, prop, order),
            GremlinStep::OrderLocal(order) => order_local_exec(f, rs, order),
            GremlinStep::Sum => sum_step_exec(f, rs),
            GremlinStep::Mean => mean_step_exec(f, rs),
            GremlinStep::Max => extreme_step_exec(f, rs, true),
            GremlinStep::Min => extreme_step_exec(f, rs, false),
            GremlinStep::Fold => {
                let items = GremlinResult::duplicate_all(rs);
                let x = GremlinResult::List(items);
                assert(results_view(items@) =~= match result_view(x) {
                    ResultView::List(y) => y,
                    _ => Seq::empty(),
                });
                let mut out: Vec<GremlinResult> = Vec::new();
                out.push(x);
                assert(results_view(out@) =~= seq![ResultView::List(rv)]);
                out
            },
            GremlinStep::Path => {
                let items = GremlinResult::duplicate_all(&cx.current_path);
                let x = GremlinResult::Path(items);
                assert(results_view(items@) =~= match result_view(x) {
                    ResultView::Path(y) => y,
                    _ => Seq::empty(),
                });
                let mut out: Vec<GremlinResult> = Vec::new();
                out.push(x);
                assert(results_view(out@) =~= seq![ResultView::Path(ctx_model(*cx).path)]);
                out
            },
            GremlinStep::AddE(label) => Self::add_e_exec(rs, label, cx, stats),
            GremlinStep::Property(key, value) => {
                self.property_exec(rs, key, value, stats);
                GremlinResult::duplicate_all(rs)
            },
            GremlinStep::Id => {
                let is_el = |r: &GremlinResult| -> (b: bool)
                    ensures
                        b == is_element()(result_view(*r)),
                    {
                        match r {
                            GremlinResult::Vertex(_) | GremlinResult::Edge(_) => true,
                            _ => false,
                        }
                    };
                let out = filter_results(rs, &is_el, Ghost(is_element()));
                stats.vertices_visited = bump_exec(stats.vertices_visited, out.len());
                out
            },
            GremlinStep::Aggregate(label) => {
                Self::aggregate_exec(rs, label, cx);
                GremlinResult::duplicate_all(rs)
            },
            GremlinStep::Without(label) => {
                let ids = match cx.get_side_effect(label.as_str()) {
                    Some(items) => vertex_ids_in(items),
                    None => Vec::new(),
                };
                let gidv: Ghost<Seq<VertexId>> = Ghost(ids@);
                let ghost idv = gidv@;
                let keep = |r: &GremlinResult| -> (b: bool)
                    ensures
                        b == not_among(gidv@)(result_view(*r)),
                    {
                        match r {
                            GremlinResult::Vertex(v) => !contains_vertex_id(&ids, *v),
                            _ => true,
                        }
                    };
                filter_results(rs, &keep, Ghost(not_among(idv)))
            },
            GremlinStep::GroupCount => {
                let counts = group_count_exec(rs);
                let x = GremlinResult::Mapping(counts);
                assert(named_results_view(counts@) =~= match result_view(x) {
                    ResultView::Mapping(y) => y,
                    _ => Seq::empty(),
                });
                let mut out: Vec<GremlinResult> = Vec::new();
                out.push(x);
                assert(results_view(out@) =~= seq![result_view(x)]);
                out
            },
            _ => GremlinResult::duplicate_all(rs),
        }
    }
}

impl GremlinEngine {
    /// The results that pass `has(key, value, pred)`.
    fn has_filter_exec<F: Fn(FloatOp) -> FloatValue>(
        &self,
        f: &F,
        rs: &Vec<GremlinResult>,
        key: &String,
        value: &Option<PropertyValue>,
        pred: &Option<Box<GremlinPredicate>>,
    ) -> (r: Vec<GremlinResult>)
        requires
            float_arith_ok(*f),
        ensures
            results_view(r@) == results_view(rs@).filter(has_filter(*f, self.model(), key@, opt_value_view(*value), opt_pred_view(*pred))),
    {
        let ghost rv = results_view(rs@);
        let ghost pr = has_filter(*f, self.model(), key@, opt_value_view(*value), opt_pred_view(*pred));
        let mut out: Vec<GremlinResult> = Vec::new();
        let mut i: usize = 0;
        while i < rs.len()
            invariant
                i <= rs.len(),
                rv == results_view(rs@),
                float_arith_ok(*f),
                pr == has_filter(*f, self.model(), key@, opt_value_view(*value), opt_pred_view(*pred)),
                results_view(out@) == rv.take(i as int).filter(pr),
            decreases rs.len() - i,
        {
            proof {
                lemma_take_next(rv, i as int);
                reveal_with_fuel(Seq::filter, 1);
            }
            if self.has_matches_exec(f, &rs[i], key, value, pred) {
                let ghost before = results_view(out@);
                out.push(rs[i].duplicate());
                assert(results_view(out@) =~= before.push(rv[i as int]));
            }
            i = i + 1;
        }
        proof {
            lemma_take_all(rv);
        }
        out
    }

    /// The results that satisfy predicate `p`.
    fn where_exec<F: Fn(FloatOp) -> FloatValue>(&self, f: &F, rs: &Vec<GremlinResult>, p: &GremlinPredicate) -> (r: Vec<GremlinResult>)
        requires
            float_arith_ok(*f),
        ensures
            results_view(r@) == results_view(rs@).filter(pred_filter(*f, self.model().props, pred_view(*p))),
    {
        let ghost rv = results_view(rs@);
        let ghost pr = pred_filter(*f, self.model().props, pred_view(*p));
        let store = self.property_store.as_ref();
        assert(store_model(store) == self.model().props);
        let mut out: Vec<GremlinResult> = Vec::new();
        let mut i: usize = 0;
        while i < rs.len()
            invariant
                i <= rs.len(),
                rv == results_view(rs@),
                float_arith_ok(*f),
                store_model(store) == self.model().props,
                pr == pred_filter(*f, self.model().props, pred_view(*p)),
                results_view(out@) == rv.take(i as int).filter(pr),
            decreases rs.len() - i,
        {
            proof {
                lemma_take_next(rv, i as int);
                reveal_with_fuel(Seq::filter, 1);
            }
            if evaluate_predicate(f, store, &rs[i], p) {
                let ghost before = results_view(out@);
                out.push(rs[i].duplicate());
                assert(results_view(out@) =~= before.push(rv[i as int]));
            }
            i = i + 1;
        }
        proof {
            lemma_take_all(rv);
        }
        out
    }
}

} // verus!
