//! What running a traversal does: the results of each step, and what it
//! changes in the graph, the property store, the edge registry, the
//! execution context and the statistics.
//!
//! Two things come from outside the engine: double-precision arithmetic
//! (an argument, see [`crate::gremlin::eval::FloatOp`]) and readings of the
//! clock. The clock is read for the id of a vertex that `addV` creates (the
//! system time in nanoseconds), after each step when a timeout is set (the
//! milliseconds elapsed), and at the end of a run (the milliseconds elapsed,
//! kept in the statistics). The readings are a sequence that the steps
//! consume in order.
use crate::error::ErrorKind;
use crate::graph::{GraphModel, PropsModel};
use crate::gremlin::eval::{
    float_of, key_of, pred_holds, stable_order, FloatOp, KeyView, prop_order, value_of,
};
use crate::gremlin::results::{result_text, ResultView};
use crate::gremlin::steps::{OrderView, PredView, StepView, GremlinOrderDirection};
use crate::gremlin::context::{assoc_get, assoc_set};
use crate::query::{QueryContext, QueryStats};
use crate::registry::{outgoing_of, incoming_of, registered, EntryView};
use crate::text::{decimal, signed_decimal};
use crate::types::{entry_set, prop_lookup, value_equal, value_text, EdgeId, FloatValue, PropValue, VertexId};
use vstd::prelude::*;

verus! {

/// The model of an execution context.
pub struct CtxModel {
    pub query: QueryContext,
    pub bindings: Seq<(Seq<char>, ResultView)>,
    pub effects: Seq<(Seq<char>, Seq<ResultView>)>,
    pub path: Seq<ResultView>,
    pub track_path: bool,
    pub created_vertices: Seq<VertexId>,
    pub incomplete: Seq<(VertexId, Seq<char>)>,
    pub created_edges: Seq<(EdgeId, VertexId, VertexId, Seq<char>)>,
}

/// The model of what an engine reads and changes: the graph, the property
/// store where there is one, and the edge registry where there is one.
pub struct EngineModel {
    pub graph: GraphModel,
    pub props: Option<PropsModel>,
    pub registry: Option<Seq<EntryView>>,
}

/// Everything a step can change.
pub struct Frame {
    pub eng: EngineModel,
    pub cx: CtxModel,
    pub stats: QueryStats,
}

/// An error: its kind and message.
pub type ErrView = (ErrorKind, Seq<char>);

/// The outcome of a step or a run: results or an error, the state after it,
/// and the clock readings left over.
pub struct Out {
    pub res: Result<Seq<ResultView>, ErrView>,
    pub fr: Frame,
    pub clock: Seq<u128>,
}

/// The error for a first step that cannot start a traversal.
pub open spec fn not_initial_error() -> ErrView {
    (ErrorKind::InvalidOperation, "Step is not a valid initial step"@)
}

/// The error for a run that took longer than its timeout.
pub open spec fn timeout_error() -> ErrView {
    (ErrorKind::Timeout, "Gremlin query timeout"@)
}

/// The first clock reading (0 where none is left).
pub open spec fn reading(clock: Seq<u128>) -> u128 {
    if clock.len() > 0 {
        clock[0]
    } else {
        0
    }
}

/// The readings after the first.
pub open spec fn rest(clock: Seq<u128>) -> Seq<u128> {
    if clock.len() > 0 {
        clock.drop_first()
    } else {
        clock
    }
}

// ---------------------------------------------------------------------------
// Small helpers over results.

/// The results that `g` gives for each result, in order.
pub open spec fn concat_map(rs: Seq<ResultView>, g: spec_fn(ResultView) -> Seq<ResultView>) -> Seq<ResultView>
    decreases rs.len(),
{
    if rs.len() == 0 {
        Seq::empty()
    } else {
        concat_map(rs.drop_last(), g) + g(rs.last())
    }
}

/// The vertices among the results, in order.
pub open spec fn vertices_of(rs: Seq<ResultView>) -> Seq<VertexId> {
    rs.filter_map(|r: ResultView| match r {
        ResultView::Vertex(v) => Some(v),
        _ => None,
    })
}

/// How many of the results are vertices.
pub open spec fn vertex_count(rs: Seq<ResultView>) -> nat {
    vertices_of(rs).len()
}

/// How many of the results are edges.
pub open spec fn edge_count(rs: Seq<ResultView>) -> nat {
    rs.filter(is_edge()).len()
}

/// Whether a result is an edge.
pub open spec fn is_edge() -> spec_fn(ResultView) -> bool {
    |r: ResultView| r is Edge
}

/// Whether a result is a vertex or an edge.
pub open spec fn is_element() -> spec_fn(ResultView) -> bool {
    |r: ResultView| r is Vertex || r is Edge
}

/// Whether a result passes `hasLabel(label)`.
pub open spec fn label_filter(eng: EngineModel, label: Seq<char>) -> spec_fn(ResultView) -> bool {
    |r: ResultView| label_matches(eng, r, label)
}

/// Whether a result passes `has(key, value, pred)`.
pub open spec fn has_filter<F: Fn(FloatOp) -> FloatValue>(
    f: F,
    eng: EngineModel,
    key: Seq<char>,
    value: Option<PropValue>,
    pred: Option<PredView>,
) -> spec_fn(ResultView) -> bool {
    |r: ResultView| has_matches(f, eng, r, key, value, pred)
}

/// Whether a result passes `hasValue(value)`.
pub open spec fn has_value_filter(eng: EngineModel, value: PropValue) -> spec_fn(ResultView) -> bool {
    |r: ResultView| has_value_matches(eng, r, value)
}

/// Whether a result satisfies a predicate.
pub open spec fn pred_filter<F: Fn(FloatOp) -> FloatValue>(f: F, props: Option<PropsModel>, p: PredView) -> spec_fn(ResultView) -> bool {
    |r: ResultView| pred_holds(f, props, r, p)
}

/// Whether a result is anything but one of the given vertices.
pub open spec fn not_among(ids: Seq<VertexId>) -> spec_fn(ResultView) -> bool {
    |r: ResultView| match r {
        ResultView::Vertex(v) => !ids.contains(v),
        _ => true,
    }
}

/// Whether a result is one of the given vertices.
pub open spec fn among(ids: Seq<VertexId>) -> spec_fn(ResultView) -> bool {
    |r: ResultView| match r {
        ResultView::Vertex(v) => ids.contains(v),
        _ => false,
    }
}

/// Vertices as results.
pub open spec fn as_vertex_results(vs: Seq<VertexId>) -> Seq<ResultView> {
    vs.map_values(|v: VertexId| ResultView::Vertex(v))
}

/// Edges as results.
pub open spec fn as_edge_results(es: Seq<EdgeId>) -> Seq<ResultView> {
    es.map_values(|e: EdgeId| ResultView::Edge(e))
}

/// `n` added to a counter, wrapping around.
pub open spec fn bump(c: usize, n: nat) -> usize {
    if c + n > usize::MAX {
        (c + n - (usize::MAX + 1)) as usize
    } else {
        (c + n) as usize
    }
}

/// The path after `items` were visited: extended where the path is tracked.
pub open spec fn extend_path(cx: CtxModel, items: Seq<ResultView>) -> CtxModel {
    if cx.track_path {
        CtxModel { path: cx.path + items, ..cx }
    } else {
        cx
    }
}

/// The properties stored for vertex `v` (empty without a store).
pub open spec fn vprops(eng: EngineModel, v: VertexId) -> Seq<(Seq<char>, PropValue)> {
    match eng.props {
        Some(p) => (p.vertex_props)(v),
        None => Seq::empty(),
    }
}

/// The properties stored for edge `e` (empty without a store).
pub open spec fn eprops(eng: EngineModel, e: EdgeId) -> Seq<(Seq<char>, PropValue)> {
    match eng.props {
        Some(p) => (p.edge_props)(e),
        None => Seq::empty(),
    }
}

/// Whether a label passes an optional list of labels.
pub open spec fn label_listed(labels: Option<Seq<Seq<char>>>, l: Seq<char>) -> bool {
    match labels {
        Some(ls) => ls.contains(l),
        None => true,
    }
}

/// The first label of an optional list, used to pre-filter the registry.
pub open spec fn first_label(labels: Option<Seq<Seq<char>>>) -> Option<Seq<char>> {
    match labels {
        Some(ls) => if ls.len() > 0 {
            Some(ls[0])
        } else {
            None
        },
        None => None,
    }
}

/// The `n`-th id handed out from a counter at `next`.
pub open spec fn nth_id(next: u64, n: nat) -> u64
    decreases n,
{
    if n == 0 {
        next
    } else {
        nth_id(next, (n - 1) as nat).wrapping_add(1)
    }
}

/// The `n` ids handed out from a counter at `next`, as edge results.
pub open spec fn fresh_edges(next: u64, n: nat) -> Seq<ResultView> {
    Seq::new(n, |i: int| ResultView::Edge(EdgeId { id: nth_id(next, i as nat) }))
}

// ---------------------------------------------------------------------------
// Steps that move through the graph.

/// `out`: the outgoing neighbours of each vertex, in order.
pub open spec fn out_results(g: GraphModel, rs: Seq<ResultView>) -> Seq<ResultView>
    decreases rs.len(),
{
    if rs.len() == 0 {
        Seq::empty()
    } else {
        out_results(g, rs.drop_last()) + match rs.last() {
            ResultView::Vertex(v) => as_vertex_results((g.neighbors)(v)),
            _ => Seq::empty(),
        }
    }
}

/// The `out` step: the neighbours, each counted as an edge traversed and a
/// vertex visited, and added to the path.
pub open spec fn out_step(fr: Frame, rs: Seq<ResultView>) -> (Seq<ResultView>, Frame) {
    let out = out_results(fr.eng.graph, rs);
    (out, Frame {
        cx: extend_path(fr.cx, out),
        stats: QueryStats {
            edges_traversed: bump(fr.stats.edges_traversed, out.len()),
            vertices_visited: bump(fr.stats.vertices_visited, out.len()),
            ..fr.stats
        },
        ..fr
    })
}

/// The edges created in this context that leave `v` with a listed label.
pub open spec fn created_out(cx: CtxModel, v: VertexId, labels: Option<Seq<Seq<char>>>) -> Seq<ResultView> {
    cx.created_edges.filter_map(|e: (EdgeId, VertexId, VertexId, Seq<char>)| if e.1 == v && label_listed(labels, e.3) {
        Some(ResultView::Edge(e.0))
    } else {
        None
    })
}

/// The edges of a list of registry entries whose label is listed.
pub open spec fn listed_edges(found: Seq<EntryView>, labels: Option<Seq<Seq<char>>>) -> Seq<ResultView> {
    found.filter_map(|e: EntryView| if label_listed(labels, e.3) {
        Some(ResultView::Edge(e.0))
    } else {
        None
    })
}

/// The registry's edges at `v` (leaving it when `outgoing`) with a listed
/// label.
pub open spec fn registry_edges(eng: EngineModel, v: VertexId, labels: Option<Seq<Seq<char>>>, outgoing: bool) -> Seq<ResultView> {
    match eng.registry {
        Some(es) => {
            let found = if outgoing {
                outgoing_of(es, v, first_label(labels))
            } else {
                incoming_of(es, v, first_label(labels))
            };
            listed_edges(found, labels)
        },
        None => Seq::empty(),
    }
}

/// `outE`: for each vertex, the edges created in this context and the
/// registry's edges that leave it with a listed label; where there are none,
/// a fresh edge id for each of its neighbours, which count as edges traversed.
pub open spec fn out_e_step(fr: Frame, rs: Seq<ResultView>, labels: Option<Seq<Seq<char>>>) -> (Seq<ResultView>, Frame)
    decreases rs.len(),
{
    if rs.len() == 0 {
        (Seq::empty(), fr)
    } else {
        let (prev, fr1) = out_e_step(fr, rs.drop_last(), labels);
        match rs.last() {
            ResultView::Vertex(v) => {
                let found = created_out(fr1.cx, v, labels) + registry_edges(fr1.eng, v, labels, true);
                if found.len() > 0 {
                    (prev + found, fr1)
                } else {
                    let n = (fr1.eng.graph.neighbors)(v).len();
                    let next = fr1.eng.graph.next_edge;
                    (prev + fresh_edges(next, n), Frame {
                        eng: EngineModel {
                            graph: GraphModel { next_edge: nth_id(next, n), ..fr1.eng.graph },
                            ..fr1.eng
                        },
                        stats: QueryStats { edges_traversed: bump(fr1.stats.edges_traversed, n), ..fr1.stats },
                        ..fr1
                    })
                }
            },
            _ => (prev, fr1),
        }
    }
}

/// `inE`: for each vertex, the registry's edges that reach it with a listed
/// label; each vertex counts as visited.
pub open spec fn in_e_results(eng: EngineModel, rs: Seq<ResultView>, labels: Option<Seq<Seq<char>>>) -> Seq<ResultView>
    decreases rs.len(),
{
    if rs.len() == 0 {
        Seq::empty()
    } else {
        in_e_results(eng, rs.drop_last(), labels) + match rs.last() {
            ResultView::Vertex(v) => registry_edges(eng, v, labels, false),
            _ => Seq::empty(),
        }
    }
}

pub open spec fn in_e_step(fr: Frame, rs: Seq<ResultView>, labels: Option<Seq<Seq<char>>>) -> (Seq<ResultView>, Frame) {
    (in_e_results(fr.eng, rs, labels), Frame {
        stats: QueryStats { vertices_visited: bump(fr.stats.vertices_visited, vertex_count(rs)), ..fr.stats },
        ..fr
    })
}

// ---------------------------------------------------------------------------
// Steps that read properties.

/// Whether a result passes `hasLabel(label)`: a vertex or edge whose stored
/// `label` is that text; anything else passes.
pub open spec fn label_matches(eng: EngineModel, r: ResultView, label: Seq<char>) -> bool {
    match r {
        ResultView::Vertex(v) => prop_lookup(vprops(eng, v), "label"@) == Some(PropValue::Text(label)),
        ResultView::Edge(e) => prop_lookup(eprops(eng, e), "label"@) == Some(PropValue::Text(label)),
        _ => true,
    }
}

/// Whether a vertex's property value passes the test of a `has` step: equal
/// to the given value, or satisfying an order predicate, or just present.
pub open spec fn has_test<F: Fn(FloatOp) -> FloatValue>(
    f: F,
    pv: PropValue,
    value: Option<PropValue>,
    pred: Option<PredView>,
) -> bool {
    match value {
        Some(ev) => value_equal(pv, ev),
        None => match pred {
            Some(PredView::Gte(x)) => prop_order(f, pv, x) >= 0,
            Some(PredView::Lte(x)) => prop_order(f, pv, x) <= 0,
            Some(PredView::Gt(x)) => prop_order(f, pv, x) > 0,
            Some(PredView::Lt(x)) => prop_order(f, pv, x) < 0,
            Some(_) => false,
            None => true,
        },
    }
}

/// Whether a result passes `has(key, ...)`: a vertex with the property and a
/// passing value; anything else passes.
pub open spec fn has_matches<F: Fn(FloatOp) -> FloatValue>(
    f: F,
    eng: EngineModel,
    r: ResultView,
    key: Seq<char>,
    value: Option<PropValue>,
    pred: Option<PredView>,
) -> bool {
    match r {
        ResultView::Vertex(v) => match prop_lookup(vprops(eng, v), key) {
            Some(pv) => has_test(f, pv, value, pred),
            None => false,
        },
        _ => true,
    }
}

/// Whether a result passes `hasValue(value)`: a vertex with some property of
/// that value; anything else passes.
pub open spec fn has_value_matches(eng: EngineModel, r: ResultView, value: PropValue) -> bool {
    match r {
        ResultView::Vertex(v) => exists|i: int| 0 <= i < vprops(eng, v).len() && value_equal(#[trigger] vprops(eng, v)[i].1, value),
        _ => true,
    }
}

/// The values found under the given names in a property list.
pub open spec fn lookup_all(ps: Seq<(Seq<char>, PropValue)>, names: Seq<Seq<char>>) -> Seq<ResultView>
    decreases names.len(),
{
    if names.len() == 0 {
        Seq::empty()
    } else {
        lookup_all(ps, names.drop_last()) + match prop_lookup(ps, names.last()) {
            Some(v) => seq![ResultView::Value(v)],
            None => Seq::empty(),
        }
    }
}

/// `values(names)`: the named property values of each vertex and edge.
pub open spec fn values_results(eng: EngineModel, rs: Seq<ResultView>, names: Seq<Seq<char>>) -> Seq<ResultView> {
    concat_map(rs, values_of(eng, names))
}

/// The named property values of a vertex or an edge.
pub open spec fn values_of(eng: EngineModel, names: Seq<Seq<char>>) -> spec_fn(ResultView) -> Seq<ResultView> {
    |r: ResultView| match r {
        ResultView::Vertex(v) => lookup_all(vprops(eng, v), names),
        ResultView::Edge(e) => lookup_all(eprops(eng, e), names),
        _ => Seq::empty(),
    }
}

/// `properties(keys)`: the named property values of each vertex, or all of
/// them without names.
pub open spec fn properties_results(eng: EngineModel, rs: Seq<ResultView>, keys: Option<Seq<Seq<char>>>) -> Seq<ResultView> {
    concat_map(rs, properties_of(eng, keys))
}

/// The named (or all) property values of a vertex.
pub open spec fn properties_of(eng: EngineModel, keys: Option<Seq<Seq<char>>>) -> spec_fn(ResultView) -> Seq<ResultView> {
    |r: ResultView| match r {
        ResultView::Vertex(v) => match keys {
            Some(ks) => lookup_all(vprops(eng, v), ks),
            None => vprops(eng, v).map_values(|e: (Seq<char>, PropValue)| ResultView::Value(e.1)),
        },
        _ => Seq::empty(),
    }
}

/// `propertyMap(keys)`: for each vertex, its properties (only the named
/// ones where names are given).
pub open spec fn property_map_results(eng: EngineModel, rs: Seq<ResultView>, keys: Option<Seq<Seq<char>>>) -> Seq<ResultView> {
    concat_map(rs, property_map_of(eng, keys))
}

/// The property map of a vertex, limited to the named keys where given.
pub open spec fn property_map_of(eng: EngineModel, keys: Option<Seq<Seq<char>>>) -> spec_fn(ResultView) -> Seq<ResultView> {
    |r: ResultView| match r {
        ResultView::Vertex(v) => seq![ResultView::PropertyMap(match keys {
            Some(ks) => vprops(eng, v).filter(|e: (Seq<char>, PropValue)| ks.contains(e.0)),
            None => vprops(eng, v),
        })],
        _ => Seq::empty(),
    }
}

/// The projection of one vertex: each named property as a value, and `id`
/// as the vertex itself where it has no property of that name.
pub open spec fn project_map(ps: Seq<(Seq<char>, PropValue)>, v: VertexId, names: Seq<Seq<char>>) -> Seq<(Seq<char>, ResultView)>
    decreases names.len(),
{
    if names.len() == 0 {
        Seq::empty()
    } else {
        let m = project_map(ps, v, names.drop_last());
        let n = names.last();
        match prop_lookup(ps, n) {
            Some(x) => assoc_set(m, n, ResultView::Value(x)),
            None => if n == "id"@ {
                assoc_set(m, n, ResultView::Vertex(v))
            } else {
                m
            },
        }
    }
}

/// `project(names)`: a map for each vertex.
pub open spec fn project_results(eng: EngineModel, rs: Seq<ResultView>, names: Seq<Seq<char>>) -> Seq<ResultView> {
    concat_map(rs, project_of(eng, names))
}

/// The projection of a vertex onto the names.
pub open spec fn project_of(eng: EngineModel, names: Seq<Seq<char>>) -> spec_fn(ResultView) -> Seq<ResultView> {
    |r: ResultView| match r {
        ResultView::Vertex(v) => seq![ResultView::Mapping(project_map(vprops(eng, v), v, names))],
        _ => Seq::empty(),
    }
}

// ---------------------------------------------------------------------------
// Steps on the result list.

/// The text by which `dedup` tells results apart.
pub open spec fn dedup_key(r: ResultView) -> Seq<char> {
    match r {
        ResultView::Vertex(v) => seq!['v'] + decimal(v.id as nat),
        ResultView::Edge(e) => seq!['e'] + decimal(e.id as nat),
        ResultView::Value(v) => value_text(v),
        _ => result_text(r),
    }
}

/// The results whose key no earlier result has, in order.
pub open spec fn dedup_results(rs: Seq<ResultView>) -> Seq<ResultView>
    decreases rs.len(),
{
    if rs.len() == 0 {
        Seq::empty()
    } else {
        let prev = rs.drop_last();
        if exists|j: int| 0 <= j < prev.len() && dedup_key(#[trigger] prev[j]) == dedup_key(rs.last()) {
            dedup_results(prev)
        } else {
            dedup_results(prev).push(rs.last())
        }
    }
}

/// `n` if it is at most `len`, else `len`.
pub open spec fn clamp(n: int, len: int) -> int {
    if n < len {
        n
    } else {
        len
    }
}

/// The text by which `groupCount` groups results.
pub open spec fn group_key(r: ResultView) -> Seq<char> {
    match r {
        ResultView::Vertex(v) => decimal(v.id as nat),
        ResultView::Edge(e) => decimal(e.id as nat),
        ResultView::Value(PropValue::Text(s)) => s,
        ResultView::Value(PropValue::Int(i)) => signed_decimal(i as int),
        ResultView::Value(PropValue::Float(_, t)) => t,
        _ => result_text(r),
    }
}

/// The count of each group key, in the order the keys first occur.
pub open spec fn group_counts(rs: Seq<ResultView>) -> Seq<(Seq<char>, ResultView)>
    decreases rs.len(),
{
    if rs.len() == 0 {
        Seq::empty()
    } else {
        let m = group_counts(rs.drop_last());
        let k = group_key(rs.last());
        let c = match assoc_get(m, k) {
            Some(ResultView::Count(c)) => c,
            _ => 0,
        };
        assoc_set(m, k, ResultView::Count((c + 1) as u64))
    }
}

/// The side effects after each result is added to the collection `label`.
pub open spec fn aggregate_effects(effects: Seq<(Seq<char>, Seq<ResultView>)>, label: Seq<char>, rs: Seq<ResultView>) -> Seq<(Seq<char>, Seq<ResultView>)>
    decreases rs.len(),
{
    if rs.len() == 0 {
        effects
    } else {
        let e = aggregate_effects(effects, label, rs.drop_last());
        assoc_set(
            e,
            label,
            match assoc_get(e, label) {
                Some(items) => items.push(rs.last()),
                None => seq![rs.last()],
            },
        )
    }
}

/// `select(labels)`: one label gives its binding; several give a map of
/// those that are bound, where any is.
pub open spec fn select_map(bindings: Seq<(Seq<char>, ResultView)>, labels: Seq<Seq<char>>) -> Seq<(Seq<char>, ResultView)>
    decreases labels.len(),
{
    if labels.len() == 0 {
        Seq::empty()
    } else {
        let m = select_map(bindings, labels.drop_last());
        match assoc_get(bindings, labels.last()) {
            Some(b) => assoc_set(m, labels.last(), b),
            None => m,
        }
    }
}

pub open spec fn select_results(bindings: Seq<(Seq<char>, ResultView)>, labels: Seq<Seq<char>>) -> Seq<ResultView> {
    if labels.len() == 1 {
        match assoc_get(bindings, labels[0]) {
            Some(b) => seq![b],
            None => Seq::empty(),
        }
    } else {
        let m = select_map(bindings, labels);
        if m.len() > 0 {
            seq![ResultView::Mapping(m)]
        } else {
            Seq::empty()
        }
    }
}

// ---------------------------------------------------------------------------
// Ordering.

/// The results in the stable order of their keys.
pub open spec fn ordered_by<F: Fn(FloatOp) -> FloatValue>(
    f: F,
    rs: Seq<ResultView>,
    keys: Seq<KeyView>,
    desc: bool,
) -> Seq<ResultView> {
    stable_order(f, desc, keys, rs.len()).map_values(|i: int| rs[i])
}

/// The results in their natural order.
pub open spec fn sorted_results<F: Fn(FloatOp) -> FloatValue>(f: F, rs: Seq<ResultView>, desc: bool) -> Seq<ResultView> {
    ordered_by(f, rs, rs.map_values(|r: ResultView| key_of(r)), desc)
}

/// The keys of a property-based ordering: each vertex's value of the property
/// (`missing` where it has none); `missing` for anything else.
pub open spec fn prop_keys(eng: EngineModel, rs: Seq<ResultView>, prop: Seq<char>, missing: PropValue) -> Seq<KeyView> {
    rs.map_values(|r: ResultView| KeyView::Value(match r {
        ResultView::Vertex(v) => match prop_lookup(vprops(eng, v), prop) {
            Some(x) => x,
            None => missing,
        },
        _ => missing,
    }))
}

/// `order(...)`.
pub open spec fn order_results<F: Fn(FloatOp) -> FloatValue>(
    f: F,
    eng: EngineModel,
    rs: Seq<ResultView>,
    order: Option<OrderView>,
) -> Seq<ResultView> {
    match order {
        Some(OrderView::Desc) => sorted_results(f, rs, true),
        Some(OrderView::By(prop, dir)) => if eng.props is Some {
            ordered_by(f, rs, prop_keys(eng, rs, prop, PropValue::Text(Seq::empty())), dir == GremlinOrderDirection::Desc)
        } else {
            rs
        },
        _ => sorted_results(f, rs, false),
    }
}

/// `by(property, order)`.
pub open spec fn by_results<F: Fn(FloatOp) -> FloatValue>(
    f: F,
    eng: EngineModel,
    rs: Seq<ResultView>,
    prop: Seq<char>,
    order: Option<OrderView>,
) -> Seq<ResultView> {
    if eng.props is Some {
        let desc = match order {
            Some(OrderView::Desc) => true,
            Some(OrderView::By(_, d)) => d == GremlinOrderDirection::Desc,
            _ => false,
        };
        ordered_by(f, rs, prop_keys(eng, rs, prop, PropValue::Null), desc)
    } else {
        rs
    }
}

/// `order(local)`: each list in its natural order; anything else as it is.
pub open spec fn order_local_results<F: Fn(FloatOp) -> FloatValue>(
    f: F,
    rs: Seq<ResultView>,
    order: Option<OrderView>,
) -> Seq<ResultView> {
    rs.map_values(|r: ResultView| match r {
        ResultView::List(l) => ResultView::List(sorted_results(f, l, order == Some(OrderView::Desc))),
        _ => r,
    })
}

// ---------------------------------------------------------------------------
// Aggregates.

/// A numeric value: an integer or a double.
pub open spec fn numeric_of(r: ResultView) -> Option<PropValue> {
    match r {
        ResultView::Value(PropValue::Int(i)) => Some(PropValue::Int(i)),
        ResultView::Value(PropValue::Float(b, t)) => Some(PropValue::Float(b, t)),
        _ => None,
    }
}

/// The numeric values among the results.
pub open spec fn numerics(rs: Seq<ResultView>) -> Seq<PropValue> {
    rs.filter_map(|r: ResultView| numeric_of(r))
}

/// A numeric value as a double: bits and text.
pub open spec fn as_double<F: Fn(FloatOp) -> FloatValue>(f: F, v: PropValue) -> (u64, Seq<char>) {
    match v {
        PropValue::Int(i) => float_of(f, FloatOp::FromInt(i)),
        PropValue::Float(b, t) => (b, t),
        _ => (0, Seq::empty()),
    }
}

/// The double zero.
pub open spec fn zero_double() -> (u64, Seq<char>) {
    (0, seq!['0'])
}

/// The sum of the values, added in order to zero.
pub open spec fn sum_of<F: Fn(FloatOp) -> FloatValue>(f: F, vs: Seq<PropValue>) -> (u64, Seq<char>)
    decreases vs.len(),
{
    if vs.len() == 0 {
        zero_double()
    } else {
        float_of(f, FloatOp::Add(sum_of(f, vs.drop_last()).0, as_double(f, vs.last()).0))
    }
}

/// The largest (`max`) or smallest value, folding from the first.
pub open spec fn extreme_of<F: Fn(FloatOp) -> FloatValue>(f: F, vs: Seq<PropValue>, max: bool) -> (u64, Seq<char>)
    decreases vs.len(),
{
    if vs.len() <= 1 {
        as_double(f, vs[0])
    } else {
        let a = extreme_of(f, vs.drop_last(), max).0;
        let b = as_double(f, vs.last()).0;
        float_of(f, if max { FloatOp::Max(a, b) } else { FloatOp::Min(a, b) })
    }
}

pub open spec fn double_result(d: (u64, Seq<char>)) -> ResultView {
    ResultView::Value(PropValue::Float(d.0, d.1))
}

/// `sum`.
pub open spec fn sum_results<F: Fn(FloatOp) -> FloatValue>(f: F, rs: Seq<ResultView>) -> Seq<ResultView> {
    seq![double_result(sum_of(f, numerics(rs)))]
}

/// `mean`: the sum divided by the count, or zero without numbers.
pub open spec fn mean_results<F: Fn(FloatOp) -> FloatValue>(f: F, rs: Seq<ResultView>) -> Seq<ResultView> {
    let vs = numerics(rs);
    if vs.len() > 0 {
        let n = float_of(f, FloatOp::FromInt(vs.len() as i64)).0;
        seq![double_result(float_of(f, FloatOp::Div(sum_of(f, vs).0, n)))]
    } else {
        seq![double_result(zero_double())]
    }
}

/// `max` or `min`: the extreme value, or null without numbers.
pub open spec fn extreme_results<F: Fn(FloatOp) -> FloatValue>(f: F, rs: Seq<ResultView>, max: bool) -> Seq<ResultView> {
    let vs = numerics(rs);
    if vs.len() > 0 {
        seq![double_result(extreme_of(f, vs, max))]
    } else {
        seq![ResultView::Null]
    }
}

// ---------------------------------------------------------------------------
// Steps that change the graph or the context.

/// `addE(label)`: an incomplete edge from each vertex, kept in the context.
pub open spec fn add_e_step(fr: Frame, rs: Seq<ResultView>, label: Seq<char>) -> (Seq<ResultView>, Frame) {
    let vs = vertices_of(rs);
    let out = vs.map_values(|v: VertexId| ResultView::IncompleteEdge(v, label));
    (out, Frame {
        cx: CtxModel { incomplete: fr.cx.incomplete + vs.map_values(|v: VertexId| (v, label)), ..fr.cx },
        stats: QueryStats { edges_traversed: bump(fr.stats.edges_traversed, out.len()), ..fr.stats },
        ..fr
    })
}

/// The property store after `key` is set to `value` on each vertex and edge.
pub open spec fn set_property_all(p: PropsModel, rs: Seq<ResultView>, key: Seq<char>, value: PropValue) -> PropsModel
    decreases rs.len(),
{
    if rs.len() == 0 {
        p
    } else {
        let q = set_property_all(p, rs.drop_last(), key, value);
        match rs.last() {
            ResultView::Vertex(v) => q.with_vertex_props(v, entry_set((q.vertex_props)(v), key, value)),
            ResultView::Edge(e) => q.with_edge_props(e, entry_set((q.edge_props)(e), key, value)),
            _ => q,
        }
    }
}

/// `property(key, value)`.
pub open spec fn property_step(fr: Frame, rs: Seq<ResultView>, key: Seq<char>, value: PropValue) -> (Seq<ResultView>, Frame) {
    (rs, Frame {
        eng: EngineModel {
            props: match fr.eng.props {
                Some(p) => Some(set_property_all(p, rs, key, value)),
                None => None,
            },
            ..fr.eng
        },
        stats: QueryStats { vertices_visited: bump(fr.stats.vertices_visited, rs.len()), ..fr.stats },
        ..fr
    })
}

/// `addV(label)`: a vertex whose id is the clock reading in nanoseconds
/// (its low 64 bits), labelled where there is a store and a label.
pub open spec fn add_v_step(fr: Frame, label: Option<Seq<char>>, clock: Seq<u128>) -> Out {
    let vid = VertexId { id: reading(clock) as u64 };
    let props = match (label, fr.eng.props) {
        (Some(l), Some(p)) => Some(p.with_vertex_props(vid, seq![("label"@, PropValue::Text(l))])),
        _ => fr.eng.props,
    };
    Out {
        res: Ok(seq![ResultView::Vertex(vid)]),
        fr: Frame {
            eng: EngineModel { props, ..fr.eng },
            cx: CtxModel { created_vertices: fr.cx.created_vertices.push(vid), ..fr.cx },
            stats: QueryStats { vertices_visited: bump(fr.stats.vertices_visited, 1), ..fr.stats },
        },
        clock: rest(clock),
    }
}

/// Completes the incomplete edge `ie` to each target in turn: the edge is
/// added with a fresh id, labelled where there is a store, recorded in the
/// context and in the registry where there is one.
pub open spec fn complete_to(fr: Frame, ie: (VertexId, Seq<char>), targets: Seq<VertexId>) -> (Seq<ResultView>, Frame)
    decreases targets.len(),
{
    if targets.len() == 0 {
        (Seq::empty(), fr)
    } else {
        let (prev, f1) = complete_to(fr, ie, targets.drop_last());
        let t = targets.last();
        let id = EdgeId { id: f1.eng.graph.next_edge };
        let g = f1.eng.graph.with_edge(ie.0, t).with_fresh_edge_id();
        let props = match f1.eng.props {
            Some(p) => Some(p.with_edge_props(id, seq![("label"@, PropValue::Text(ie.1))])),
            None => None,
        };
        let registry = match f1.eng.registry {
            Some(es) => Some(registered(es, (id, ie.0, t, ie.1))),
            None => None,
        };
        (prev.push(ResultView::Edge(id)), Frame {
            eng: EngineModel { graph: g, props, registry },
            cx: CtxModel { created_edges: f1.cx.created_edges.push((id, ie.0, t, ie.1)), ..f1.cx },
            stats: QueryStats { edges_traversed: bump(f1.stats.edges_traversed, 1), ..f1.stats },
        })
    }
}

/// Completes each incomplete edge in turn.
pub open spec fn complete_all(fr: Frame, ies: Seq<(VertexId, Seq<char>)>, targets: Seq<VertexId>) -> (Seq<ResultView>, Frame)
    decreases ies.len(),
{
    if ies.len() == 0 {
        (Seq::empty(), fr)
    } else {
        let (prev, f1) = complete_all(fr, ies.drop_last(), targets);
        let (more, f2) = complete_to(f1, ies.last(), targets);
        (prev + more, f2)
    }
}

/// Adds an edge from each source to `t`: each gets a fresh id, and adding
/// it hands out one more.
pub open spec fn edges_from(fr: Frame, sources: Seq<VertexId>, t: VertexId) -> (Seq<ResultView>, Frame)
    decreases sources.len(),
{
    if sources.len() == 0 {
        (Seq::empty(), fr)
    } else {
        let (prev, f1) = edges_from(fr, sources.drop_last(), t);
        let id = EdgeId { id: f1.eng.graph.next_edge };
        let g = f1.eng.graph.with_fresh_edge_id().with_edge(sources.last(), t).with_fresh_edge_id();
        (prev.push(ResultView::Edge(id)), Frame {
            eng: EngineModel { graph: g, ..f1.eng },
            stats: QueryStats { edges_traversed: bump(f1.stats.edges_traversed, 1), ..f1.stats },
            ..f1
        })
    }
}

/// `from(...)`, once its sources are known: edges from every source to every
/// vertex among the results.
pub open spec fn from_all(fr: Frame, rs: Seq<ResultView>, sources: Seq<VertexId>) -> (Seq<ResultView>, Frame)
    decreases rs.len(),
{
    if rs.len() == 0 {
        (Seq::empty(), fr)
    } else {
        let (prev, f1) = from_all(fr, rs.drop_last(), sources);
        match rs.last() {
            ResultView::Vertex(t) => {
                let (more, f2) = edges_from(f1, sources, t);
                (prev + more, f2)
            },
            _ => (prev, f1),
        }
    }
}

/// The frame with no incomplete edges left.
pub open spec fn clear_incomplete(fr: Frame) -> Frame {
    Frame { cx: CtxModel { incomplete: Seq::empty(), ..fr.cx }, ..fr }
}

// ---------------------------------------------------------------------------
// The steps that need no clock and run no nested traversal.

/// The result of such a step, and the frame after it.
#[verifier::opaque]
pub open spec fn plain_step<F: Fn(FloatOp) -> FloatValue>(
    f: F,
    step: StepView,
    rs: Seq<ResultView>,
    fr: Frame,
) -> (Seq<ResultView>, Frame) {
    let eng = fr.eng;
    let st = fr.stats;
    match step {
        StepView::Out(_) => out_step(fr, rs),
        StepView::In(_) => (Seq::empty(), fr),
        StepView::Both(_) => out_step(fr, rs),
        StepView::OutE(labels) => out_e_step(fr, rs, labels),
        StepView::InE(labels) => in_e_step(fr, rs, labels),
        StepView::BothE(labels) => {
            let (a, f1) = out_e_step(fr, rs, labels);
            let (b, f2) = in_e_step(f1, rs, labels);
            (a + b, f2)
        },
        StepView::HasLabel(label) => if eng.props is Some {
            (rs.filter(label_filter(eng, label)), Frame {
                stats: QueryStats {
                    vertices_visited: bump(st.vertices_visited, vertex_count(rs)),
                    edges_traversed: bump(st.edges_traversed, edge_count(rs)),
                    ..st
                },
                ..fr
            })
        } else {
            (rs, fr)
        },
        StepView::Has(key, value, pred) => if eng.props is Some {
            (rs.filter(has_filter(f, eng, key, value, pred)), Frame {
                stats: QueryStats { vertices_visited: bump(st.vertices_visited, vertex_count(rs)), ..st },
                ..fr
            })
        } else {
            (rs, fr)
        },
        StepView::HasKey(key) => if eng.props is Some {
            (rs.filter(has_filter(f, eng, key, None, None)), Frame {
                stats: QueryStats { vertices_visited: bump(st.vertices_visited, vertex_count(rs)), ..st },
                ..fr
            })
        } else {
            (rs, fr)
        },
        StepView::HasValue(value) => if eng.props is Some {
            (rs.filter(has_value_filter(eng, value)), Frame {
                stats: QueryStats { vertices_visited: bump(st.vertices_visited, vertex_count(rs)), ..st },
                ..fr
            })
        } else {
            (rs, fr)
        },
        StepView::Values(names) => if eng.props is Some {
            (values_results(eng, rs, names), Frame {
                stats: QueryStats { vertices_visited: bump(st.vertices_visited, vertex_count(rs)), ..st },
                ..fr
            })
        } else {
            (Seq::empty(), fr)
        },
        StepView::Properties(keys) => if eng.props is Some {
            (properties_results(eng, rs, keys), Frame {
                stats: QueryStats { vertices_visited: bump(st.vertices_visited, vertex_count(rs)), ..st },
                ..fr
            })
        } else {
            (Seq::empty(), fr)
        },
        StepView::PropertyMap(keys) => if eng.props is Some {
            (property_map_results(eng, rs, keys), Frame {
                stats: QueryStats { vertices_visited: bump(st.vertices_visited, vertex_count(rs)), ..st },
                ..fr
            })
        } else {
            (Seq::empty(), fr)
        },
        StepView::Project(names) => if eng.props is Some {
            (project_results(eng, rs, names), fr)
        } else {
            (Seq::empty(), fr)
        },
        StepView::As(label) => if rs.len() == 0 {
            (rs, fr)
        } else {
            let bound = if rs.len() == 1 {
                rs[0]
            } else {
                ResultView::List(rs)
            };
            (rs, Frame { cx: CtxModel { bindings: assoc_set(fr.cx.bindings, label, bound), ..fr.cx }, ..fr })
        },
        StepView::Select(labels) => (select_results(fr.cx.bindings, labels), fr),
        StepView::Dedup => (dedup_results(rs), fr),
        StepView::Limit(n) => (rs.take(clamp(n as int, rs.len() as int)), fr),
        StepView::Skip(n) => (rs.skip(clamp(n as int, rs.len() as int)), fr),
        StepView::Range(a, b) => {
            let s = rs.skip(clamp(a as int, rs.len() as int));
            (s.take(clamp(b.wrapping_sub(a) as int, s.len() as int)), fr)
        },
        StepView::Count => (seq![ResultView::Count(rs.len() as u64)], fr),
        StepView::Where(p) => (rs.filter(pred_filter(f, eng.props, p)), fr),
        StepView::WhereFilter(p) => (rs.filter(pred_filter(f, eng.props, p)), fr),
        StepView::Order(order) => (order_results(f, eng, rs, order), fr),
        StepView::By(prop, order) => (by_results(f, eng, rs, prop, order), fr),
        StepView::OrderLocal(order) => (order_local_results(f, rs, order), fr),
        StepView::Sum => (sum_results(f, rs), fr),
        StepView::Mean => (mean_results(f, rs), fr),
        StepView::Max => (extreme_results(f, rs, true), fr),
        StepView::Min => (extreme_results(f, rs, false), fr),
        StepView::Fold => (seq![ResultView::List(rs)], fr),
        StepView::Path => (seq![ResultView::Path(fr.cx.path)], fr),
        StepView::AddE(label) => add_e_step(fr, rs, label),
        StepView::Property(key, value) => property_step(fr, rs, key, value),
        StepView::Id => {
            let out = rs.filter(is_element());
            (out, Frame { stats: QueryStats { vertices_visited: bump(st.vertices_visited, out.len()), ..st }, ..fr })
        },
        StepView::Aggregate(label) => (rs, Frame {
            cx: CtxModel { effects: aggregate_effects(fr.cx.effects, label, rs), ..fr.cx },
            ..fr
        }),
        StepView::Without(label) => {
            let agg = match assoc_get(fr.cx.effects, label) {
                Some(items) => items,
                None => Seq::empty(),
            };
            (rs.filter(not_among(vertices_of(agg))), fr)
        },
        StepView::GroupCount => (seq![ResultView::Mapping(group_counts(rs))], fr),
        _ => (rs, fr),
    }
}

// ---------------------------------------------------------------------------
// First steps.

/// All vertices: those with stored properties where there is a store, else
/// those of the graph.
pub open spec fn all_vertices(eng: EngineModel) -> Seq<VertexId> {
    match eng.props {
        Some(p) => p.vertex_order,
        None => eng.graph.vertices,
    }
}

/// The ids of the registry's edges leaving each vertex, in turn.
pub open spec fn out_edge_ids(es: Seq<EntryView>, vs: Seq<VertexId>) -> Seq<EdgeId>
    decreases vs.len(),
{
    if vs.len() == 0 {
        Seq::empty()
    } else {
        out_edge_ids(es, vs.drop_last()) + outgoing_of(es, vs.last(), None).map_values(|e: EntryView| e.0)
    }
}

/// The ids, each kept at its first occurrence.
pub open spec fn unique_ids(s: Seq<EdgeId>) -> Seq<EdgeId>
    decreases s.len(),
{
    if s.len() == 0 {
        Seq::empty()
    } else if s.drop_last().contains(s.last()) {
        unique_ids(s.drop_last())
    } else {
        unique_ids(s.drop_last()).push(s.last())
    }
}

/// A traversal's first step: `V`, `E` or `addV`.
pub open spec fn run_initial(step: StepView, fr: Frame, clock: Seq<u128>) -> Out {
    match step {
        StepView::V(Some(ids)) => Out {
            res: Ok(as_vertex_results(ids)),
            fr: Frame { stats: QueryStats { vertices_visited: ids.len() as usize, ..fr.stats }, ..fr },
            clock,
        },
        StepView::V(None) => {
            let vs = all_vertices(fr.eng);
            Out {
                res: Ok(as_vertex_results(vs)),
                fr: Frame { stats: QueryStats { vertices_visited: vs.len() as usize, ..fr.stats }, ..fr },
                clock,
            }
        },
        StepView::E(Some(ids)) => Out { res: Ok(as_edge_results(ids)), fr, clock },
        StepView::E(None) => Out {
            res: Ok(match fr.eng.registry {
                Some(es) => as_edge_results(unique_ids(out_edge_ids(es, all_vertices(fr.eng)))),
                None => Seq::empty(),
            }),
            fr,
            clock,
        },
        StepView::AddV(label) => add_v_step(fr, label, clock),
        _ => Out { res: Err(not_initial_error()), fr, clock },
    }
}

// ---------------------------------------------------------------------------
// Runs.

/// The statistics of a nested run added to those of the step that ran it.
pub open spec fn merge_stats(a: QueryStats, b: QueryStats) -> QueryStats {
    QueryStats {
        vertices_visited: bump(a.vertices_visited, b.vertices_visited as nat),
        edges_traversed: bump(a.edges_traversed, b.edges_traversed as nat),
        cache_hits: bump(a.cache_hits, b.cache_hits as nat),
        cache_misses: bump(a.cache_misses, b.cache_misses as nat),
        ..a
    }
}

/// A frame with other statistics.
pub open spec fn with_stats(fr: Frame, stats: QueryStats) -> Frame {
    Frame { stats, ..fr }
}

/// A run of a traversal: its steps from fresh statistics; a successful run
/// records the elapsed time read from the clock in its statistics.
pub open spec fn run_traversal<F: Fn(FloatOp) -> FloatValue>(
    f: F,
    steps: Seq<StepView>,
    fr: Frame,
    clock: Seq<u128>,
) -> Out
    decreases steps, 2int, 0int,
{
    let o = run_steps(f, steps, 0, Seq::empty(), with_stats(fr, QueryStats::new_spec()), clock);
    match o.res {
        Ok(rs) => Out {
            res: Ok(rs),
            fr: with_stats(o.fr, QueryStats { execution_time_ms: reading(o.clock) as u64, ..o.fr.stats }),
            clock: rest(o.clock),
        },
        Err(e) => o,
    }
}

/// The steps from the `i`-th on, applied to `rs`; after each step, where a
/// timeout is set, a clock reading above it ends the run with a timeout.
pub open spec fn run_steps<F: Fn(FloatOp) -> FloatValue>(
    f: F,
    steps: Seq<StepView>,
    i: int,
    rs: Seq<ResultView>,
    fr: Frame,
    clock: Seq<u128>,
) -> Out
    decreases steps, 1int, steps.len() - i,
{
    if i < 0 || i >= steps.len() {
        Out { res: Ok(rs), fr, clock }
    } else {
        let o = if i == 0 {
            run_initial(steps[0], fr, clock)
        } else {
            run_step(f, steps[i], rs, fr, clock)
        };
        match o.res {
            Err(e) => o,
            Ok(rs2) => match o.fr.cx.query.timeout_ms {
                Some(t) => if reading(o.clock) > t as u128 {
                    Out { res: Err(timeout_error()), fr: o.fr, clock: rest(o.clock) }
                } else {
                    run_steps(f, steps, i + 1, rs2, o.fr, rest(o.clock))
                },
                None => run_steps(f, steps, i + 1, rs2, o.fr, o.clock),
            },
        }
    }
}

/// A step after the first.
pub open spec fn run_step<F: Fn(FloatOp) -> FloatValue>(
    f: F,
    step: StepView,
    rs: Seq<ResultView>,
    fr: Frame,
    clock: Seq<u128>,
) -> Out
    decreases step, 0int, 0int,
{
    match step {
        StepView::Repeat(inner, times) => repeat_loop(
            f,
            inner,
            match times {
                Some(n) => n as int,
                None => 100,
            },
            rs,
            fr,
            clock,
        ),
        StepView::AddV(label) => add_v_step(fr, label, clock),
        StepView::To(inner) => {
            let o = run_traversal(f, inner, fr, clock);
            let f1 = with_stats(o.fr, fr.stats);
            match o.res {
                Err(e) => Out { res: Err(e), fr: f1, clock: o.clock },
                Ok(ts) => {
                    let (out, f2) = complete_all(f1, f1.cx.incomplete, vertices_of(ts));
                    Out { res: Ok(out), fr: clear_incomplete(f2), clock: o.clock }
                },
            }
        },
        StepView::From(inner) => {
            let o = run_traversal(f, inner, fr, clock);
            let f1 = with_stats(o.fr, fr.stats);
            match o.res {
                Err(e) => Out { res: Err(e), fr: f1, clock: o.clock },
                Ok(ss) => {
                    let (out, f2) = from_all(f1, rs, vertices_of(ss));
                    Out { res: Ok(out), fr: clear_incomplete(f2), clock: o.clock }
                },
            }
        },
        StepView::WithinTraversal(inner) => {
            let o = run_traversal(f, inner, fr, clock);
            let f1 = with_stats(o.fr, fr.stats);
            match o.res {
                Err(e) => Out { res: Err(e), fr: f1, clock: o.clock },
                Ok(ws) => {
                    Out {
                        res: Ok(rs.filter(among(vertices_of(ws)))),
                        fr: f1,
                        clock: o.clock,
                    }
                },
            }
        },
        StepView::Neq(inner) => {
            let o = run_traversal(f, inner, fr, clock);
            let f1 = with_stats(o.fr, fr.stats);
            match o.res {
                Err(e) => Out { res: Err(e), fr: f1, clock: o.clock },
                Ok(xs) => {
                    Out {
                        res: Ok(rs.filter(not_among(vertices_of(xs)))),
                        fr: f1,
                        clock: o.clock,
                    }
                },
            }
        },
        _ => {
            let (out, f2) = plain_step(f, step, rs, fr);
            Out { res: Ok(out), fr: f2, clock }
        },
    }
}

/// `repeat`: runs the inner traversal up to `k` more times; each run's
/// statistics are added, and a run with results replaces the results, while
/// one without ends the loop.
pub open spec fn repeat_loop<F: Fn(FloatOp) -> FloatValue>(
    f: F,
    inner: Seq<StepView>,
    k: int,
    rs: Seq<ResultView>,
    fr: Frame,
    clock: Seq<u128>,
) -> Out
    decreases inner, 3int, k,
{
    if k <= 0 {
        Out { res: Ok(rs), fr, clock }
    } else {
        let o = run_traversal(f, inner, fr, clock);
        match o.res {
            Err(e) => Out { res: Err(e), fr: with_stats(o.fr, fr.stats), clock: o.clock },
            Ok(new) => {
                let f2 = with_stats(o.fr, merge_stats(fr.stats, o.fr.stats));
                if new.len() == 0 {
                    Out { res: Ok(rs), fr: f2, clock: o.clock }
                } else {
                    repeat_loop(f, inner, k - 1, new, f2, o.clock)
                }
            },
        }
    }
}

} // verus!
