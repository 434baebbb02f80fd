//! Running traversals: the first step, the steps that read the clock or run
//! a nested traversal, and whole runs.
use crate::clock::{elapsed_millis, instant_now, unix_nanos};
use crate::error::AsterError;
use crate::gremlin::context::{CreatedEdge, GremlinContext};
use crate::gremlin::engine::{
    bump_exec, contains_vertex_id, ctx_model, filter_results, frame, is_plain, lemma_take_all,
    lemma_take_next, vertex_ids_in, GremlinEngine,
};
use crate::gremlin::eval::{float_arith_ok, FloatOp};
use crate::gremlin::results::{result_view, results_view, GremlinResult, ResultView};
use crate::gremlin::semantics::{
    add_v_step, all_vertices, among, as_edge_results, as_vertex_results, complete_all, complete_to, edges_from,
    from_all, merge_stats, not_among, out_edge_ids, reading, repeat_loop, rest, run_initial, run_step, run_steps,
    run_traversal, unique_ids, with_stats, ErrView, Frame, Out,
};
use crate::gremlin::steps::{opt_string_view, step_view, trav_view, GremlinStep, GremlinTraversal, StepView};
use crate::query::QueryStats;
use crate::registry::{entries_view, filter_view, EdgeRegistry, EdgeTable, EntryView};
use crate::text::{chars_of, string_from_chars};
use crate::types::{EdgeId, FloatValue, PropValue, Properties, PropertyValue, VertexId};
use vstd::prelude::*;

verus! {

/// The model of an error.
pub open spec fn err_view(e: AsterError) -> ErrView {
    (e.spec_kind(), e.spec_text())
}

/// The model of a step's outcome.
pub open spec fn res_view(r: Result<Vec<GremlinResult>, AsterError>) -> Result<Seq<ResultView>, ErrView> {
    match r {
        Ok(v) => Ok(results_view(v@)),
        Err(e) => Err(err_view(e)),
    }
}

/// The text `label`.
pub fn label_key() -> (r: String)
    ensures
        r@ == "label"@,
{
    string_from_chars(&chars_of("label"))
}

/// Properties holding only a `label`.
pub fn label_properties(label: &String) -> (r: Properties)
    ensures
        r.entries_model() == seq![("label"@, PropValue::Text(label@))],
{
    let mut p = Properties::new();
    let k = label_key();
    let ghost e0 = p.entries_model();
    p.insert(k, PropertyValue::String(label.clone()));
    proof {
        assert(!(exists|i: int| 0 <= i < e0.len() && (#[trigger] e0[i]).0 == "label"@));
        assert(p.entries_model() =~= seq![("label"@, PropValue::Text(label@))]);
    }
    p
}

/// A reading of `x` followed by later readings.
pub proof fn lemma_reading(x: u128, later: Seq<u128>)
    ensures
        reading(seq![x] + later) == x,
        rest(seq![x] + later) == later,
{
    assert((seq![x] + later).drop_first() =~= later);
}

impl GremlinEngine {
    /// `addV(label)`.
    pub(crate) fn exec_add_v(&mut self, label: &Option<String>, cx: &mut GremlinContext, stats: &mut QueryStats) -> (r: (Vec<GremlinResult>, Ghost<Seq<u128>>))
        ensures
            forall|later: Seq<u128>|
                #[trigger] add_v_step(frame(*old(self), *old(cx), *old(stats)), opt_string_view(*label), r.1@ + later) == (Out {
                    res: Ok(results_view(r.0@)),
                    fr: frame(*final(self), *final(cx), *final(stats)),
                    clock: later,
                }),
    {
        let nanos = unix_nanos();
        let vid = VertexId::from_u64(nanos as u64);
        self.graph.add_vertex(vid, None);
        match (label, &mut self.property_store) {
            (Some(l), Some(ps)) => {
                let p = label_properties(l);
                ps.set_vertex_properties(vid, p);
            },
            _ => {},
        }
        stats.vertices_visited = bump_exec(stats.vertices_visited, 1);
        cx.created_vertices.push(vid);
        let mut out: Vec<GremlinResult> = Vec::new();
        out.push(GremlinResult::Vertex(vid));
        assert(results_view(out@) =~= seq![ResultView::Vertex(vid)]);
        let obs: Ghost<Seq<u128>> = Ghost(Seq::empty().push(nanos));
        assert forall|later: Seq<u128>|
            #[trigger] add_v_step(frame(*old(self), *old(cx), *old(stats)), opt_string_view(*label), obs@ + later) == (Out {
                res: Ok(results_view(out@)),
                fr: frame(*self, *cx, *stats),
                clock: later,
            }) by {
            lemma_reading(nanos, later);
            assert(obs@ == seq![nanos]);
            assert(ctx_model(*cx).created_vertices =~= ctx_model(*old(cx)).created_vertices.push(vid));
        }
        (out, obs)
    }

    /// All vertices: those with stored properties where there is a store,
    /// else those of the graph.
    fn all_vertices_exec(&self) -> (r: Vec<VertexId>)
        ensures
            r@ == all_vertices(self.model()),
    {
        match &self.property_store {
            Some(ps) => ps.get_all_vertex_ids(),
            None => self.graph.vertex_ids(),
        }
    }

    /// The ids of the registry's edges leaving the vertices, each kept once.
    fn all_edge_ids(&self, reg: &EdgeTable, vs: &Vec<VertexId>) -> (r: Vec<EdgeId>)
        ensures
            r@ == unique_ids(out_edge_ids(reg.table_entries(), vs@)),
    {
        let ghost es = reg.table_entries();
        let mut raw: Vec<EdgeId> = Vec::new();
        let mut i: usize = 0;
        while i < vs.len()
            invariant
                i <= vs.len(),
                es == reg.table_entries(),
                raw@ == out_edge_ids(es, vs@.take(i as int)),
            decreases vs.len() - i,
        {
            proof {
                lemma_take_next(vs@, i as int);
            }
            let entries = reg.get_outgoing_edges(vs[i], None);
            let ghost ev = entries_view(entries@);
            let ghost base = raw@;
            let mut j: usize = 0;
            while j < entries.len()
                invariant
                    j <= entries.len(),
                    ev == entries_view(entries@),
                    raw@ == base + ev.take(j as int).map_values(|e: EntryView| e.0),
                decreases entries.len() - j,
            {
                raw.push(entries[j].edge_id);
                assert(ev[j as int] == entries@[j as int].view_of());
                assert(ev.take(j + 1).map_values(|e: EntryView| e.0) =~= ev.take(j as int).map_values(|e: EntryView| e.0).push(ev[j as int].0));
                j = j + 1;
            }
            assert(ev.take(ev.len() as int) =~= ev);
            assert(filter_view(None) == None::<Seq<char>>);
            i = i + 1;
        }
        proof {
            lemma_take_all(vs@);
        }
        let ghost rv = raw@;
        let mut out: Vec<EdgeId> = Vec::new();
        let mut k: usize = 0;
        while k < raw.len()
            invariant
                k <= raw.len(),
                rv == raw@,
                out@ == unique_ids(rv.take(k as int)),
            decreases raw.len() - k,
        {
            proof {
                lemma_take_next(rv, k as int);
            }
            let id = raw[k];
            let mut seen = false;
            let mut q: usize = 0;
            while q < k
                invariant
                    q <= k,
                    k < raw.len(),
                    rv == raw@,
                    id == rv[k as int],
                    seen <==> exists|x: int| 0 <= x < q && rv[x] == id,
                decreases k - q,
            {
                if raw[q] == id {
                    seen = true;
                }
                q = q + 1;
            }
            proof {
                let prev = rv.take(k + 1).drop_last();
                if seen {
                    let x = choose|x: int| 0 <= x < k && rv[x] == id;
                    assert(prev[x] == id);
                } else {
                    assert forall|x: int| 0 <= x < prev.len() implies prev[x] != id by {
                        assert(prev[x] == rv[x]);
                    }
                }
            }
            if !seen {
                out.push(id);
            }
            k = k + 1;
        }
        proof {
            lemma_take_all(rv);
        }
        out
    }

    /// A traversal's first step.
    pub(crate) fn exec_initial(&mut self, step: &GremlinStep, cx: &mut GremlinContext, stats: &mut QueryStats) -> (r: (Result<Vec<GremlinResult>, AsterError>, Ghost<Seq<u128>>))
        ensures
            forall|later: Seq<u128>|
                #[trigger] run_initial(step_view(*step), frame(*old(self), *old(cx), *old(stats)), r.1@ + later) == (Out {
                    res: res_view(r.0),
                    fr: frame(*final(self), *final(cx), *final(stats)),
                    clock: later,
                }),
    {
        let none: Ghost<Seq<u128>> = Ghost(Seq::empty());
        assert forall|later: Seq<u128>| #[trigger] (none@ + later) == later by {
            assert(none@ + later =~= later);
        }
        match step {
            GremlinStep::V(Some(ids)) => {
                let mut out: Vec<GremlinResult> = Vec::new();
                let mut i: usize = 0;
                while i < ids.len()
                    invariant
                        i <= ids.len(),
                        results_view(out@) == as_vertex_results(ids@.take(i as int)),
                    decreases ids.len() - i,
                {
                    let ghost before = results_view(out@);
                    out.push(GremlinResult::Vertex(ids[i]));
                    assert(results_view(out@) =~= before.push(ResultView::Vertex(ids@[i as int])));
                    assert(as_vertex_results(ids@.take(i + 1)) =~= as_vertex_results(ids@.take(i as int)).push(ResultView::Vertex(ids@[i as int])));
                    i = i + 1;
                }
                assert(ids@.take(ids@.len() as int) =~= ids@);
                stats.vertices_visited = ids.len();
                (Ok(out), none)
            },
            GremlinStep::V(None) => {
                let vs = self.all_vertices_exec();
                let mut out: Vec<GremlinResult> = Vec::new();
                let mut i: usize = 0;
                while i < vs.len()
                    invariant
                        i <= vs.len(),
                        results_view(out@) == as_vertex_results(vs@.take(i as int)),
                    decreases vs.len() - i,
                {
                    let ghost before = results_view(out@);
                    out.push(GremlinResult::Vertex(vs[i]));
                    assert(results_view(out@) =~= before.push(ResultView::Vertex(vs@[i as int])));
                    assert(as_vertex_results(vs@.take(i + 1)) =~= as_vertex_results(vs@.take(i as int)).push(ResultView::Vertex(vs@[i as int])));
                    i = i + 1;
                }
                assert(vs@.take(vs@.len() as int) =~= vs@);
                stats.vertices_visited = vs.len();
                (Ok(out), none)
            },
            GremlinStep::E(Some(ids)) => {
                let mut out: Vec<GremlinResult> = Vec::new();
                let mut i: usize = 0;
                while i < ids.len()
                    invariant
                        i <= ids.len(),
                        results_view(out@) == as_edge_results(ids@.take(i as int)),
                    decreases ids.len() - i,
                {
                    let ghost before = results_view(out@);
                    out.push(GremlinResult::Edge(ids[i]));
                    assert(results_view(out@) =~= before.push(ResultView::Edge(ids@[i as int])));
                    assert(as_edge_results(ids@.take(i + 1)) =~= as_edge_results(ids@.take(i as int)).push(ResultView::Edge(ids@[i as int])));
                    i = i + 1;
                }
                assert(ids@.take(ids@.len() as int) =~= ids@);
                (Ok(out), none)
            },
            GremlinStep::E(None) => {
                match &self.edge_registry {
                    Some(reg) => {
                        let vs = self.all_vertices_exec();
                        let ids = self.all_edge_ids(reg, &vs);
                        let mut out: Vec<GremlinResult> = Vec::new();
                        let mut i: usize = 0;
                        while i < ids.len()
                            invariant
                                i <= ids.len(),
                                results_view(out@) == as_edge_results(ids@.take(i as int)),
                            decreases ids.len() - i,
                        {
                            let ghost before = results_view(out@);
                            out.push(GremlinResult::Edge(ids[i]));
                            assert(results_view(out@) =~= before.push(ResultView::Edge(ids@[i as int])));
                            assert(as_edge_results(ids@.take(i + 1)) =~= as_edge_results(ids@.take(i as int)).push(ResultView::Edge(ids@[i as int])));
                            i = i + 1;
                        }
                        assert(ids@.take(ids@.len() as int) =~= ids@);
                        (Ok(out), none)
                    },
                    None => {
                        let out: Vec<GremlinResult> = Vec::new();
                        assert(results_view(out@) =~= Seq::<ResultView>::empty());
                        (Ok(out), none)
                    },
                }
            },
            GremlinStep::AddV(label) => {
                let (out, obs) = self.exec_add_v(label, cx, stats);
                (Ok(out), obs)
            },
            _ => (Err(AsterError::invalid_operation("Step is not a valid initial step")), none),
        }
    }
}

impl GremlinEngine {
    /// Completes each incomplete edge of the context to each target.
    pub(crate) fn complete_all_exec(&mut self, cx: &mut GremlinContext, targets: &Vec<VertexId>, stats: &mut QueryStats) -> (r: Vec<GremlinResult>)
        ensures
            (results_view(r@), frame(*final(self), *final(cx), *final(stats))) == complete_all(
                frame(*old(self), *old(cx), *old(stats)),
                ctx_model(*old(cx)).incomplete,
                targets@,
            ),
    {
        let ghost fr0 = frame(*self, *cx, *stats);
        let ghost iev = ctx_model(*cx).incomplete;
        let mut ies: Vec<(VertexId, String)> = Vec::new();
        let mut q: usize = 0;
        while q < cx.incomplete_edges.len()
            invariant
                q <= cx.incomplete_edges@.len(),
                iev == ctx_model(*cx).incomplete,
                iev.len() == cx.incomplete_edges@.len(),
                ies@.len() == q,
                forall|x: int| 0 <= x < q ==> (#[trigger] ies@[x]).0 == iev[x].0 && ies@[x].1@ == iev[x].1,
            decreases cx.incomplete_edges@.len() - q,
        {
            let e = &cx.incomplete_edges[q];
            ies.push((e.source, e.label.clone()));
            q = q + 1;
        }
        let mut out: Vec<GremlinResult> = Vec::new();
        let mut k: usize = 0;
        while k < ies.len()
            invariant
                k <= ies@.len(),
                ies@.len() == iev.len(),
                forall|x: int| 0 <= x < ies@.len() ==> (#[trigger] ies@[x]).0 == iev[x].0 && ies@[x].1@ == iev[x].1,
                (results_view(out@), frame(*self, *cx, *stats)) == complete_all(fr0, iev.take(k as int), targets@),
            decreases ies@.len() - k,
        {
            proof {
                lemma_take_next(iev, k as int);
            }
            let src = ies[k].0;
            let lbl = &ies[k].1;
            let ghost ie = iev[k as int];
            assert(ie == (src, lbl@));
            let ghost prev = results_view(out@);
            let ghost f1 = frame(*self, *cx, *stats);
            let mut j: usize = 0;
            while j < targets.len()
                invariant
                    j <= targets@.len(),
                    ie == (src, lbl@),
                    ({
                        let (more, f2) = complete_to(f1, ie, targets@.take(j as int));
                        results_view(out@) == prev + more && frame(*self, *cx, *stats) == f2
                    }),
                decreases targets@.len() - j,
            {
                proof {
                    lemma_take_next(targets@, j as int);
                }
                let t = targets[j];
                let ghost fb = frame(*self, *cx, *stats);
                let ghost ob = results_view(out@);
                let e = self.graph.add_edge(src, t, None);
                let id = e.id();
                match &mut self.property_store {
                    Some(ps) => {
                        let p = label_properties(lbl);
                        ps.set_edge_properties(id, p);
                    },
                    None => {},
                }
                let ghost ce_before = ctx_model(*cx).created_edges;
                cx.created_edges.push(CreatedEdge { edge_id: id, source: src, target: t, label: lbl.clone() });
                match &mut self.edge_registry {
                    Some(reg) => {
                        reg.register_edge(id, src, t, lbl.clone());
                    },
                    None => {},
                }
                out.push(GremlinResult::Edge(id));
                stats.edges_traversed = bump_exec(stats.edges_traversed, 1);
                proof {
                    assert(ctx_model(*cx).created_edges =~= ce_before.push((id, src, t, lbl@)));
                    assert(results_view(out@) =~= ob.push(ResultView::Edge(id)));
                    let (more, f2) = complete_to(f1, ie, targets@.take(j + 1));
                    assert(frame(*self, *cx, *stats).eng == f2.eng);
                    assert(frame(*self, *cx, *stats).cx == f2.cx);
                    assert(results_view(out@) =~= prev + more);
                }
                j = j + 1;
            }
            proof {
                lemma_take_all(targets@);
            }
            k = k + 1;
        }
        proof {
            lemma_take_all(iev);
        }
        out
    }

    /// Adds edges from each source to each vertex among the results.
    pub(crate) fn from_all_exec(&mut self, rs: &Vec<GremlinResult>, sources: &Vec<VertexId>, cx: &GremlinContext, stats: &mut QueryStats) -> (r: Vec<GremlinResult>)
        ensures
            (results_view(r@), frame(*final(self), *cx, *final(stats))) == from_all(
                frame(*old(self), *cx, *old(stats)),
                results_view(rs@),
                sources@,
            ),
    {
        let ghost fr0 = frame(*self, *cx, *stats);
        let ghost rv = results_view(rs@);
        let mut out: Vec<GremlinResult> = Vec::new();
        let mut i: usize = 0;
        while i < rs.len()
            invariant
                i <= rs.len(),
                rv == results_view(rs@),
                (results_view(out@), frame(*self, *cx, *stats)) == from_all(fr0, rv.take(i as int), sources@),
            decreases rs.len() - i,
        {
            proof {
                lemma_take_next(rv, i as int);
            }
            match rs[i].as_vertex() {
                Some(t) => {
                    let ghost prev = results_view(out@);
                    let ghost f1 = frame(*self, *cx, *stats);
                    let mut j: usize = 0;
                    while j < sources.len()
                        invariant
                            j <= sources@.len(),
                            ({
                                let (more, f2) = edges_from(f1, sources@.take(j as int), t);
                                results_view(out@) == prev + more && frame(*self, *cx, *stats) == f2
                            }),
                        decreases sources@.len() - j,
                    {
                        proof {
                            lemma_take_next(sources@, j as int);
                        }
                        let ghost ob = results_view(out@);
                        let id = self.graph.fresh_edge_id();
                        let _e = self.graph.add_edge(sources[j], t, None);
                        out.push(GremlinResult::Edge(id));
                        stats.edges_traversed = bump_exec(stats.edges_traversed, 1);
                        proof {
                            assert(results_view(out@) =~= ob.push(ResultView::Edge(id)));
                            let (more, f2) = edges_from(f1, sources@.take(j + 1), t);
                            assert(results_view(out@) =~= prev + more);
                        }
                        j = j + 1;
                    }
                    proof {
                        lemma_take_all(sources@);
                    }
                },
                None => {},
            }
            i = i + 1;
        }
        proof {
            lemma_take_all(rv);
        }
        out
    }
}

} // verus!
