//! Whole runs of traversals, with the steps that run nested traversals.
use crate::clock::{elapsed_millis, instant_now};
use crate::error::AsterError;
use crate::gremlin::context::GremlinContext;
use crate::gremlin::engine::{
    bump_exec, contains_vertex_id, lemma_take_all, lemma_take_next, ctx_model, filter_results, frame, is_plain, vertex_ids_in, GremlinEngine,
};
use crate::gremlin::eval::{float_arith_ok, value_of, FloatOp};
use crate::gremlin::parser::{float_oracle, float_parser_ok, query_outcome_matches, spec_parse_query};
use crate::gremlin::results::{result_text, result_view, results_view, GremlinResult, ResultView};
use crate::gremlin::runner::{err_view, lemma_reading, res_view};
use crate::gremlin::semantics::{
    vertices_of,
    ErrView,
    run_initial,
    among, merge_stats, not_among, reading, repeat_loop, rest, run_step, run_steps, run_traversal, with_stats, Frame, Out,
};
use crate::gremlin::steps::{values_view, step_view, trav_view, GremlinStep, GremlinTraversal, StepView};
use crate::query::QueryStats;
use crate::types::{FloatValue, VertexId};
use vstd::prelude::*;

verus! {

/// A run of a traversal ignores the statistics it starts from.
pub proof fn lemma_run_fresh_stats<F: Fn(FloatOp) -> FloatValue>(
    f: F,
    steps: Seq<StepView>,
    fr: Frame,
    s: QueryStats,
    clock: Seq<u128>,
)
    ensures
        run_traversal(f, steps, with_stats(fr, s), clock) == run_traversal(f, steps, fr, clock),
{
    assert(with_stats(with_stats(fr, s), QueryStats::new_spec()) == with_stats(fr, QueryStats::new_spec()));
}

/// Adds the counters of a nested run.
pub fn merge_stats_exec(a: QueryStats, b: QueryStats) -> (r: QueryStats)
    ensures
        r == merge_stats(a, b),
{
    QueryStats {
        vertices_visited: bump_exec(a.vertices_visited, b.vertices_visited),
        edges_traversed: bump_exec(a.edges_traversed, b.edges_traversed),
        cache_hits: bump_exec(a.cache_hits, b.cache_hits),
        cache_misses: bump_exec(a.cache_misses, b.cache_misses),
        execution_time_ms: a.execution_time_ms,
    }
}

/// The readings `a`, then `b`, then `c`, grouped either way.
pub proof fn lemma_assoc(a: Seq<u128>, b: Seq<u128>, c: Seq<u128>)
    ensures
        (a + b) + c == a + (b + c),
{
    assert((a + b) + c =~= a + (b + c));
}

impl GremlinEngine {
    /// A step after the first.
    pub(crate) fn run_step_exec<F: Fn(FloatOp) -> FloatValue>(
        &mut self,
        f: &F,
        step: &GremlinStep,
        rs: &Vec<GremlinResult>,
        cx: &mut GremlinContext,
        stats: &mut QueryStats,
    ) -> (r: (Result<Vec<GremlinResult>, AsterError>, Ghost<Seq<u128>>))
        requires
            float_arith_ok(*f),
        ensures
            forall|later: Seq<u128>|
                #[trigger] run_step(*f, step_view(*step), results_view(rs@), frame(*old(self), *old(cx), *old(stats)), r.1@ + later) == (Out {
                    res: res_view(r.0),
                    fr: frame(*final(self), *final(cx), *final(stats)),
                    clock: later,
                }),
        decreases step_view(*step), 1int,
    {
        let ghost fr0 = frame(*self, *cx, *stats);
        let ghost rv = results_view(rs@);
        let ghost sv = step_view(*step);
        match step {
            GremlinStep::Repeat(inner, times) => {
                let n: usize = match times {
                    Some(n) => *n,
                    None => 100,
                };
                assert(sv == StepView::Repeat(trav_view(**inner), *times));
                let (res, o) = self.repeat_exec(f, inner, n, rs, cx, stats);
                proof {
                    assert forall|later: Seq<u128>| #[trigger] run_step(*f, sv, rv, fr0, o@ + later) == repeat_loop(*f, trav_view(**inner), n as int, rv, fr0, o@ + later) by {}
                }
                (res, o)
            },
            GremlinStep::AddV(label) => {
                let (out, o) = self.exec_add_v(label, cx, stats);
                (Ok(out), o)
            },
            GremlinStep::To(inner) | GremlinStep::From(inner) | GremlinStep::WithinTraversal(inner) | GremlinStep::Neq(inner) => {
                self.nested_exec(f, step, inner, rs, cx, stats)
            },
            _ => {
                assert(is_plain(sv));
                let out = self.exec_plain_step(f, step, rs, cx, stats);
                let none: Ghost<Seq<u128>> = Ghost(Seq::empty());
                assert forall|later: Seq<u128>| #[trigger] run_step(*f, sv, rv, fr0, none@ + later) == (Out {
                    res: res_view(Ok(out)),
                    fr: frame(*self, *cx, *stats),
                    clock: later,
                }) by {
                    assert(none@ + later =~= later);
                }
                (Ok(out), none)
            },
        }
    }

    /// A run of a traversal from fresh statistics.
    #[verifier::rlimit(80)]
    pub(crate) fn run_traversal_exec<F: Fn(FloatOp) -> FloatValue>(
        &mut self,
        f: &F,
        t: &GremlinTraversal,
        cx: &mut GremlinContext,
    ) -> (r: (Result<Vec<GremlinResult>, AsterError>, QueryStats, Ghost<Seq<u128>>))
        requires
            float_arith_ok(*f),
        ensures
            forall|later: Seq<u128>|
                #[trigger] run_traversal(*f, trav_view(*t), frame(*old(self), *old(cx), QueryStats::new_spec()), r.2@ + later) == (Out {
                    res: res_view(r.0),
                    fr: frame(*final(self), *final(cx), r.1),
                    clock: later,
                }),
        decreases trav_view(*t), 3int,
    {
        let ghost sv = trav_view(*t);
        let start = instant_now();
        let mut stats = QueryStats::new();
        let ghost fr0 = frame(*self, *cx, stats);
        assert(with_stats(fr0, QueryStats::new_spec()) == fr0);
        let mut results: Vec<GremlinResult> = Vec::new();
        let mut obs: Ghost<Seq<u128>> = Ghost(Seq::empty());
        assert(sv.len() == t.steps@.len());
        assert forall|later: Seq<u128>|
            #[trigger] run_steps(*f, sv, 0, Seq::empty(), fr0, obs@ + later) == run_steps(
                *f,
                sv,
                0,
                results_view(results@),
                frame(*self, *cx, stats),
                later,
            ) by {
            assert(obs@ + later =~= later);
            assert(results_view(results@) =~= Seq::<ResultView>::empty());
        }
        let mut i: usize = 0;
        while i < t.steps.len()
            invariant
                i <= t.steps@.len(),
                float_arith_ok(*f),
                sv == trav_view(*t),
                fr0 == frame(*old(self), *old(cx), QueryStats::new_spec()),
                with_stats(fr0, QueryStats::new_spec()) == fr0,
                sv.len() == t.steps@.len(),
                forall|later: Seq<u128>|
                    #[trigger] run_steps(*f, sv, 0, Seq::empty(), fr0, obs@ + later) == run_steps(
                        *f,
                        sv,
                        i as int,
                        results_view(results@),
                        frame(*self, *cx, stats),
                        later,
                    ),
            decreases t.steps@.len() - i,
        {
            let ghost fi = frame(*self, *cx, stats);
            let ghost ri = results_view(results@);
            let ghost oi = obs@;
            assert(sv[i as int] == step_view(t.steps@[i as int]));
            let (res, o) = if i == 0 {
                self.exec_initial(&t.steps[0], cx, &mut stats)
            } else {
                self.run_step_exec(f, &t.steps[i], &results, cx, &mut stats)
            };
            let ghost fo = frame(*self, *cx, stats);
            proof {
                assert forall|later: Seq<u128>| #[trigger] run_steps(*f, sv, i as int, ri, fi, o@ + later) == (match res_view(res) {
                    Err(e) => Out { res: Err(e), fr: fo, clock: later },
                    Ok(rs2) => match fo.cx.query.timeout_ms {
                        Some(tm) => if reading(later) > tm as u128 {
                            Out { res: Err(crate::gremlin::semantics::timeout_error()), fr: fo, clock: rest(later) }
                        } else {
                            run_steps(*f, sv, i + 1, rs2, fo, rest(later))
                        },
                        None => run_steps(*f, sv, i + 1, rs2, fo, later),
                    },
                }) by {
                    let ostep = if i == 0 {
                        run_initial(sv[0], fi, o@ + later)
                    } else {
                        run_step(*f, sv[i as int], ri, fi, o@ + later)
                    };
                    assert(ostep == (Out { res: res_view(res), fr: fo, clock: later }));
                }
            }
            match res {
                Err(e) => {
                    let ghost all = oi + o@;
                    proof {
                        assert forall|later: Seq<u128>|
                            #[trigger] run_traversal(*f, sv, fr0, all + later) == (Out {
                                res: res_view(Err(e)),
                                fr: fo,
                                clock: later,
                            }) by {
                            lemma_assoc(oi, o@, later);
                            assert(run_steps(*f, sv, 0, Seq::empty(), fr0, oi + (o@ + later)) == run_steps(*f, sv, i as int, ri, fi, o@ + later));
                        }
                    }
                    return (Err(e), stats, Ghost(all));
                },
                Ok(next) => {
                    match cx.query_context.timeout_ms {
                        Some(tm) => {
                            let el = elapsed_millis(&start);
                            let ghost all = oi + o@ + seq![el];
                            if el > tm as u128 {
                                let err = AsterError::timeout("Gremlin query timeout");
                                proof {
                                    assert forall|later: Seq<u128>|
                                        #[trigger] run_traversal(*f, sv, fr0, all + later) == (Out {
                                            res: res_view(Err(err)),
                                            fr: fo,
                                            clock: later,
                                        }) by {
                                        lemma_assoc(oi + o@, seq![el], later);
                                        lemma_assoc(oi, o@, seq![el] + later);
                                        lemma_reading(el, later);
                                        assert(run_steps(*f, sv, 0, Seq::empty(), fr0, oi + (o@ + (seq![el] + later))) == run_steps(
                                            *f,
                                            sv,
                                            i as int,
                                            ri,
                                            fi,
                                            o@ + (seq![el] + later),
                                        ));
                                    }
                                }
                                return (Err(err), stats, Ghost(all));
                            }
                            proof {
                                assert forall|later: Seq<u128>|
                                    #[trigger] run_steps(*f, sv, 0, Seq::empty(), fr0, all + later) == run_steps(
                                        *f,
                                        sv,
                                        i + 1,
                                        results_view(next@),
                                        fo,
                                        later,
                                    ) by {
                                    lemma_assoc(oi + o@, seq![el], later);
                                    lemma_assoc(oi, o@, seq![el] + later);
                                    lemma_reading(el, later);
                                    assert(run_steps(*f, sv, 0, Seq::empty(), fr0, oi + (o@ + (seq![el] + later))) == run_steps(
                                        *f,
                                        sv,
                                        i as int,
                                        ri,
                                        fi,
                                        o@ + (seq![el] + later),
                                    ));
                                }
                            }
                            obs = Ghost(all);
                        },
                        None => {
                            let ghost all = oi + o@;
                            proof {
                                assert forall|later: Seq<u128>|
                                    #[trigger] run_steps(*f, sv, 0, Seq::empty(), fr0, all + later) == run_steps(
                                        *f,
                                        sv,
                                        i + 1,
                                        results_view(next@),
                                        fo,
                                        later,
                                    ) by {
                                    lemma_assoc(oi, o@, later);
                                    assert(run_steps(*f, sv, 0, Seq::empty(), fr0, oi + (o@ + later)) == run_steps(
                                        *f,
                                        sv,
                                        i as int,
                                        ri,
                                        fi,
                                        o@ + later,
                                    ));
                                }
                            }
                            obs = Ghost(all);
                        },
                    }
                    results = next;
                },
            }
            i = i + 1;
        }
        let el = elapsed_millis(&start);
        let ghost fe = frame(*self, *cx, stats);
        let ghost oe = obs@;
        stats.execution_time_ms = el as u64;
        let ghost all = oe + seq![el];
        proof {
            assert forall|later: Seq<u128>|
                #[trigger] run_traversal(*f, sv, fr0, all + later) == (Out {
                    res: res_view(Ok(results)),
                    fr: frame(*self, *cx, stats),
                    clock: later,
                }) by {
                lemma_assoc(oe, seq![el], later);
                lemma_reading(el, later);
                assert(run_steps(*f, sv, 0, Seq::empty(), fr0, oe + (seq![el] + later)) == run_steps(
                    *f,
                    sv,
                    sv.len() as int,
                    results_view(results@),
                    fe,
                    seq![el] + later,
                ));
                assert(with_stats(fe, QueryStats { execution_time_ms: el as u64, ..fe.stats }) == frame(*self, *cx, stats));
            }
        }
        (Ok(results), stats, Ghost(all))
    }
}

/// What a run of traversal `t` with arithmetic `f` does to an engine and a
/// context, for some readings of the clock: its results and statistics, or
/// its error, and the engine and context it leaves.
pub open spec fn run_outcome<F: Fn(FloatOp) -> FloatValue>(
    f: F,
    t: GremlinTraversal,
    e0: GremlinEngine,
    c0: GremlinContext,
    r: Result<(Vec<GremlinResult>, QueryStats), AsterError>,
    e1: GremlinEngine,
    c1: GremlinContext,
) -> bool {
    exists|clock: Seq<u128>|
        {
            let o = #[trigger] run_traversal(f, trav_view(t), frame(e0, c0, QueryStats::new_spec()), clock);
            &&& o.clock.len() == 0
            &&& o.fr.eng == e1.model()
            &&& o.fr.cx == ctx_model(c1)
            &&& match r {
                Ok((v, s)) => o.res == Ok::<Seq<ResultView>, ErrView>(results_view(v@)) && o.fr.stats == s,
                Err(e) => o.res == Err::<Seq<ResultView>, ErrView>(err_view(e)),
            }
        }
}

impl GremlinEngine {
    /// Runs a traversal: its first step (`V`, `E` or `addV`) gives the
    /// starting results and each later step transforms them, as
    /// [`crate::gremlin::semantics`] describes. Where the context sets a
    /// timeout, the run stops with a timeout error after any step at which the
    /// elapsed time exceeds it. A first step of another kind gives an
    /// invalid-operation error. Double-precision arithmetic is done by `arith`.
    pub fn execute<F: Fn(FloatOp) -> FloatValue>(
        &mut self,
        traversal: &GremlinTraversal,
        context: &mut GremlinContext,
        arith: &F,
    ) -> (r: Result<(Vec<GremlinResult>, QueryStats), AsterError>)
        requires
            float_arith_ok(*arith),
        ensures
            run_outcome(*arith, *traversal, *old(self), *old(context), r, *final(self), *final(context)),
    {
        let (res, stats, obs) = self.run_traversal_exec(arith, traversal, context);
        let r = match res {
            Ok(v) => Ok((v, stats)),
            Err(e) => Err(e),
        };
        proof {
            let clock = obs@;
            assert(clock + Seq::<u128>::empty() =~= clock);
            let o = run_traversal(*arith, trav_view(*traversal), frame(*old(self), *old(context), QueryStats::new_spec()), clock);
            assert(o.clock.len() == 0);
        }
        r
    }
}

impl GremlinEngine {
    /// Parses Gremlin query text into a traversal; see
    /// [`crate::gremlin::parser::parse_query`].
    pub fn parse_query<P: Fn(String) -> Option<FloatValue>>(query: &str, float_parser: &P) -> (r: Result<GremlinTraversal, AsterError>)
        requires
            float_parser_ok(*float_parser),
            spec_parse_query(query@, float_oracle(*float_parser)) != Err::<Seq<StepView>, Option<Seq<char>>>(None),
        ensures
            query_outcome_matches(r, spec_parse_query(query@, float_oracle(*float_parser))),
    {
        crate::gremlin::parser::parse_query(query, float_parser)
    }

    /// Reads a property value written in a query (see
    /// [`crate::gremlin::parser::spec_parse_value`]): quoted text, an
    /// integer, a float read by `float_parser`, a boolean, or else the
    /// trimmed text itself. `None` exactly where the trimmed text is a lone
    /// quote character (`"` or `'`), the one text on which the reader
    /// panics; every other text is read.
    pub fn parse_property_value<P: Fn(String) -> Option<FloatValue>>(value_str: &str, float_parser: &P) -> (r: Option<
        crate::types::PropertyValue,
    >)
        requires
            float_parser_ok(*float_parser),
        ensures
            match (r, crate::gremlin::parser::spec_parse_value(value_str@, float_oracle(*float_parser))) {
                (Some(x), Some(y)) => x@ == y,
                (None, None) => true,
                _ => false,
            },
            r is None <==> (crate::text::trim(value_str@) == seq!['"'] || crate::text::trim(value_str@) == seq!['\'']),
    {
        proof {
            crate::gremlin::parser::lemma_value_read(value_str@, float_oracle(*float_parser));
        }
        crate::gremlin::parser::parse_value(&crate::text::chars_of(value_str), float_parser)
    }
}

/// The results of a run with its statistics.
pub struct GremlinResultSet {
    pub results: Vec<GremlinResult>,
    pub stats: QueryStats,
}

impl GremlinResultSet {
    pub fn new(results: Vec<GremlinResult>, stats: QueryStats) -> (r: GremlinResultSet)
        ensures
            r.results == results,
            r.stats == stats,
    {
        GremlinResultSet { results, stats }
    }

    /// The number of results.
    pub fn len(&self) -> (r: usize)
        ensures
            r == self.results@.len(),
    {
        self.results.len()
    }

    /// Whether there are no results.
    pub fn is_empty(&self) -> (r: bool)
        ensures
            r == (self.results@.len() == 0),
    {
        self.results.len() == 0
    }

    /// The text of each result, in order.
    pub fn to_strings(&self) -> (r: Vec<String>)
        ensures
            r@.len() == self.results@.len(),
            forall|i: int| 0 <= i < r@.len() ==> (#[trigger] r@[i])@ == result_text(result_view(self.results@[i])),
    {
        let mut out: Vec<String> = Vec::new();
        let mut i: usize = 0;
        while i < self.results.len()
            invariant
                i <= self.results@.len(),
                out@.len() == i,
                forall|k: int| 0 <= k < i ==> (#[trigger] out@[k])@ == result_text(result_view(self.results@[k])),
            decreases self.results@.len() - i,
        {
            out.push(self.results[i].to_string());
            i = i + 1;
        }
        out
    }

    /// The vertices among the results, in order.
    pub fn vertex_ids(&self) -> (r: Vec<VertexId>)
        ensures
            r@ == vertices_of(results_view(self.results@)),
    {
        vertex_ids_in(&self.results)
    }

    /// Copies of the values among the results, in order.
    pub fn values(&self) -> (r: Vec<crate::types::PropertyValue>)
        ensures
            values_view(r) == results_view(self.results@).filter_map(|x: ResultView| value_of(x)),
    {
        let ghost rv = results_view(self.results@);
        let mut out: Vec<crate::types::PropertyValue> = Vec::new();
        let mut i: usize = 0;
        while i < self.results.len()
            invariant
                i <= self.results@.len(),
                rv == results_view(self.results@),
                values_view(out) == rv.take(i as int).filter_map(|x: ResultView| value_of(x)),
            decreases self.results@.len() - i,
        {
            proof {
                lemma_take_next(rv, i as int);
            }
            let ghost before = values_view(out);
            match self.results[i].as_value() {
                Some(v) => {
                    out.push(v.duplicate());
                    assert(values_view(out) =~= before + seq![v@]);
                },
                None => {},
            }
            i = i + 1;
        }
        proof {
            lemma_take_all(rv);
        }
        out
    }

    /// The first result.
    pub fn first(&self) -> (r: Option<&GremlinResult>)
        ensures
            match r {
                Some(x) => self.results@.len() > 0 && *x == self.results@[0],
                None => self.results@.len() == 0,
            },
    {
        if self.results.len() > 0 {
            Some(&self.results[0])
        } else {
            None
        }
    }

    /// All results, in order.
    pub fn iter(&self) -> (r: &[GremlinResult])
        ensures
            r@ == self.results@,
    {
        self.results.as_slice()
    }
}

} // verus!
