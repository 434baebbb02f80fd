//! The steps that run nested traversals: `repeat`, `to`, `from`, `within`
//! and `neq`.
use crate::clock::{elapsed_millis, instant_now};
use crate::error::AsterError;
use crate::gremlin::context::GremlinContext;
use crate::gremlin::engine::{
    bump_exec, contains_vertex_id, ctx_model, filter_results, frame, is_plain, vertex_ids_in, GremlinEngine,
};
use crate::gremlin::eval::{float_arith_ok, FloatOp};
use crate::gremlin::results::{result_view, results_view, GremlinResult, ResultView};
use crate::gremlin::runner::{lemma_reading, res_view};
use crate::gremlin::run::{lemma_assoc, lemma_run_fresh_stats, merge_stats_exec};
use crate::gremlin::semantics::{
    among, clear_incomplete, complete_all, from_all, merge_stats, not_among, vertices_of, reading, repeat_loop, rest, run_step, run_steps, run_traversal, with_stats, Frame, Out,
};
use crate::gremlin::steps::{step_view, trav_view, GremlinStep, GremlinTraversal, StepView};
use crate::query::QueryStats;
use crate::types::{FloatValue, VertexId};
use vstd::prelude::*;

verus! {

impl GremlinEngine {
    /// `repeat`: runs `inner` up to `n` times.
    pub(crate) fn repeat_exec<F: Fn(FloatOp) -> FloatValue>(
        &mut self,
        f: &F,
        inner: &GremlinTraversal,
        n: usize,
        rs: &Vec<GremlinResult>,
        cx: &mut GremlinContext,
        stats: &mut QueryStats,
    ) -> (r: (Result<Vec<GremlinResult>, AsterError>, Ghost<Seq<u128>>))
        requires
            float_arith_ok(*f),
        ensures
            forall|later: Seq<u128>|
                #[trigger] repeat_loop(*f, trav_view(*inner), n as int, results_view(rs@), frame(*old(self), *old(cx), *old(stats)), r.1@ + later) == (Out {
                    res: res_view(r.0),
                    fr: frame(*final(self), *final(cx), *final(stats)),
                    clock: later,
                }),
        decreases trav_view(*inner), 4int,
    {
        let ghost iv = trav_view(*inner);
        let ghost fr0 = frame(*self, *cx, *stats);
        let ghost rv = results_view(rs@);
        let mut current = GremlinResult::duplicate_all(rs);
        let mut obs: Ghost<Seq<u128>> = Ghost(Seq::empty());
        let mut k: usize = 0;
        assert forall|later: Seq<u128>|
            #[trigger] repeat_loop(*f, iv, n as int, rv, fr0, obs@ + later) == repeat_loop(
                *f,
                iv,
                (n - k) as int,
                results_view(current@),
                frame(*self, *cx, *stats),
                later,
            ) by {
            assert(obs@ + later =~= later);
        }
        while k < n
            invariant
                k <= n,
                float_arith_ok(*f),
                iv == trav_view(*inner),
                fr0 == frame(*old(self), *old(cx), *old(stats)),
                rv == results_view(rs@),
                forall|later: Seq<u128>|
                    #[trigger] repeat_loop(*f, iv, n as int, rv, fr0, obs@ + later) == repeat_loop(
                        *f,
                        iv,
                        (n - k) as int,
                        results_view(current@),
                        frame(*self, *cx, *stats),
                        later,
                    ),
            decreases n - k,
        {
            let ghost fk = frame(*self, *cx, *stats);
            let ghost ck = results_view(current@);
            let ghost ok = obs@;
            let ghost fk_fresh = frame(*self, *cx, QueryStats::new_spec());
            assert(fk_fresh == with_stats(fk, QueryStats::new_spec()));
            let (res, sub, o) = self.run_traversal_exec(f, inner, cx);
            match res {
                Err(e) => {
                    let ghost all = ok + o@;
                    proof {
                        assert forall|later: Seq<u128>|
                            #[trigger] repeat_loop(*f, iv, n as int, rv, fr0, all + later) == (Out {
                                res: res_view(Err(e)),
                                fr: frame(*self, *cx, *stats),
                                clock: later,
                            }) by {
                            lemma_assoc(ok, o@, later);
                            lemma_run_fresh_stats(*f, iv, fk, QueryStats::new_spec(), o@ + later);
                            let t = run_traversal(*f, iv, fk_fresh, o@ + later);
                            assert(t == (Out { res: res_view(Err(e)), fr: frame(*self, *cx, sub), clock: later }));
                            assert(with_stats(t.fr, fk.stats) == frame(*self, *cx, *stats));
                        }
                    }
                    return (Err(e), Ghost(all));
                },
                Ok(new) => {
                    let ghost sub_fr = frame(*self, *cx, sub);
                    *stats = merge_stats_exec(*stats, sub);
                    let ghost all = ok + o@;
                    proof {
                        assert(with_stats(sub_fr, merge_stats(fk.stats, sub_fr.stats)) == frame(*self, *cx, *stats));
                    }
                    if new.len() == 0 {
                        proof {
                            assert forall|later: Seq<u128>|
                                #[trigger] repeat_loop(*f, iv, n as int, rv, fr0, all + later) == (Out {
                                    res: res_view(Ok(current)),
                                    fr: frame(*self, *cx, *stats),
                                    clock: later,
                                }) by {
                                lemma_assoc(ok, o@, later);
                                lemma_run_fresh_stats(*f, iv, fk, QueryStats::new_spec(), o@ + later);
                                let t = run_traversal(*f, iv, fk_fresh, o@ + later);
                                assert(t == (Out { res: res_view(Ok(new)), fr: sub_fr, clock: later }));
                                assert(results_view(new@).len() == 0);
                            }
                        }
                        return (Ok(current), Ghost(all));
                    }
                    proof {
                        assert forall|later: Seq<u128>|
                            #[trigger] repeat_loop(*f, iv, n as int, rv, fr0, all + later) == repeat_loop(
                                *f,
                                iv,
                                (n - (k + 1)) as int,
                                results_view(new@),
                                frame(*self, *cx, *stats),
                                later,
                            ) by {
                            lemma_assoc(ok, o@, later);
                            lemma_run_fresh_stats(*f, iv, fk, QueryStats::new_spec(), o@ + later);
                            let t = run_traversal(*f, iv, fk_fresh, o@ + later);
                            assert(t == (Out { res: res_view(Ok(new)), fr: sub_fr, clock: later }));
                            assert(results_view(new@).len() != 0);
                        }
                    }
                    current = new;
                    obs = Ghost(all);
                },
            }
            k = k + 1;
        }
        (Ok(current), obs)
    }

    /// `to`, `from`, `within` and `neq` over a nested traversal.
    pub(crate) fn nested_exec<F: Fn(FloatOp) -> FloatValue>(
        &mut self,
        f: &F,
        step: &GremlinStep,
        inner: &GremlinTraversal,
        rs: &Vec<GremlinResult>,
        cx: &mut GremlinContext,
        stats: &mut QueryStats,
    ) -> (r: (Result<Vec<GremlinResult>, AsterError>, Ghost<Seq<u128>>))
        requires
            float_arith_ok(*f),
            step_view(*step) == StepView::To(trav_view(*inner)) || step_view(*step) == StepView::From(trav_view(*inner))
                || step_view(*step) == StepView::WithinTraversal(trav_view(*inner)) || step_view(*step)
                == StepView::Neq(trav_view(*inner)),
        ensures
            forall|later: Seq<u128>|
                #[trigger] run_step(*f, step_view(*step), results_view(rs@), frame(*old(self), *old(cx), *old(stats)), r.1@ + later) == (Out {
                    res: res_view(r.0),
                    fr: frame(*final(self), *final(cx), *final(stats)),
                    clock: later,
                }),
        decreases step_view(*step), 0int,
    {
        let ghost iv = trav_view(*inner);
        let ghost fr0 = frame(*self, *cx, *stats);
        let ghost fr_fresh = frame(*self, *cx, QueryStats::new_spec());
        let ghost rv = results_view(rs@);
        let ghost sv = step_view(*step);
        assert(fr_fresh == with_stats(fr0, QueryStats::new_spec()));
        proof {
            match sv {
                StepView::To(x) => assert(decreases_to!(sv => x)),
                StepView::From(x) => assert(decreases_to!(sv => x)),
                StepView::WithinTraversal(x) => assert(decreases_to!(sv => x)),
                StepView::Neq(x) => assert(decreases_to!(sv => x)),
                _ => {},
            }
        }
        let (res, sub, o) = self.run_traversal_exec(f, inner, cx);
        let ghost after = frame(*self, *cx, *stats);
        proof {
            assert forall|later: Seq<u128>| #[trigger] run_traversal(*f, iv, fr0, o@ + later) == (Out {
                res: res_view(res),
                fr: frame(*self, *cx, sub),
                clock: later,
            }) by {
                lemma_run_fresh_stats(*f, iv, fr0, QueryStats::new_spec(), o@ + later);
            }
            assert(with_stats(frame(*self, *cx, sub), fr0.stats) == after);
        }
        match res {
            Err(e) => {
                proof {
                    assert forall|later: Seq<u128>| #[trigger] run_step(*f, sv, rv, fr0, o@ + later) == (Out {
                        res: res_view(Err(e)),
                        fr: after,
                        clock: later,
                    }) by {
                        let t = run_traversal(*f, iv, fr0, o@ + later);
                        assert(t.res == res_view(Err(e)));
                    }
                    assert(fr0 == frame(*old(self), *old(cx), *old(stats)));
                    assert(sv == step_view(*step));
                    assert(rv == results_view(rs@));
                    assert(after == frame(*self, *cx, *stats));
                }
                let result = (Err(e), o);
                assert(forall|later: Seq<u128>| #[trigger] run_step(*f, step_view(*step), results_view(rs@), frame(*old(self), *old(cx), *old(stats)), result.1@ + later) == (Out {
                    res: res_view(result.0),
                    fr: frame(*self, *cx, *stats),
                    clock: later,
                }));
                result
            },
            Ok(found) => {
                let ids = vertex_ids_in(&found);
                let out = match step {
                    GremlinStep::To(_) => {
                        let out = self.complete_all_exec(cx, &ids, stats);
                        cx.incomplete_edges.clear();
                        out
                    },
                    GremlinStep::From(_) => {
                        let out = self.from_all_exec(rs, &ids, cx, stats);
                        cx.incomplete_edges.clear();
                        out
                    },
                    GremlinStep::WithinTraversal(_) => {
                        let gidv: Ghost<Seq<VertexId>> = Ghost(ids@);
                        let keep = |r: &GremlinResult| -> (b: bool)
                            ensures
                                b == among(gidv@)(result_view(*r)),
                            {
                                match r {
                                    GremlinResult::Vertex(v) => contains_vertex_id(&ids, *v),
                                    _ => false,
                                }
                            };
                        filter_results(rs, &keep, Ghost(among(gidv@)))
                    },
                    _ => {
                        let gidv: Ghost<Seq<VertexId>> = Ghost(ids@);
                        let keep = |r: &GremlinResult| -> (b: bool)
                            ensures
                                b == not_among(gidv@)(result_view(*r)),
                            {
                                match r {
                                    GremlinResult::Vertex(v) => !contains_vertex_id(&ids, *v),
                                    _ => true,
                                }
                            };
                        filter_results(rs, &keep, Ghost(not_among(gidv@)))
                    },
                };
                proof {
                    let ts = results_view(found@);
                    assert(ids@ == vertices_of(ts));
                    if sv is To {
                        let (a, f2) = complete_all(after, after.cx.incomplete, vertices_of(ts));
                        assert(ctx_model(*cx).incomplete =~= Seq::<(crate::types::VertexId, Seq<char>)>::empty());
                        assert(results_view(out@) == a);
                        assert(frame(*self, *cx, *stats) == clear_incomplete(f2));
                    } else if sv is From {
                        let (a, f2) = from_all(after, rv, vertices_of(ts));
                        assert(ctx_model(*cx).incomplete =~= Seq::<(crate::types::VertexId, Seq<char>)>::empty());
                        assert(results_view(out@) == a);
                        assert(frame(*self, *cx, *stats) == clear_incomplete(f2));
                    } else if sv is WithinTraversal {
                        assert(results_view(out@) == rv.filter(among(vertices_of(ts))));
                        assert(frame(*self, *cx, *stats) == after);
                    } else {
                        assert(results_view(out@) == rv.filter(not_among(vertices_of(ts))));
                        assert(frame(*self, *cx, *stats) == after);
                    }
                    assert forall|later: Seq<u128>| #[trigger] run_step(*f, sv, rv, fr0, o@ + later) == (Out {
                        res: res_view(Ok(out)),
                        fr: frame(*self, *cx, *stats),
                        clock: later,
                    }) by {
                        let t = run_traversal(*f, iv, fr0, o@ + later);
                        assert(t.res == res_view(Ok(found)));
                    }
                }
                (Ok(out), o)
            },
        }
    }
}

} // verus!
