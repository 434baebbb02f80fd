//! Properties of the steps that act on the result list alone.
use crate::gremlin::eval::{float_of, pred_holds, prop_order, text_order, FloatOp};
use crate::gremlin::results::ResultView;
use crate::gremlin::semantics::{
    as_double, clamp, dedup_key, dedup_results, extreme_of, first_label, in_e_results, label_listed, plain_step,
    registry_edges, EngineModel, Frame,
};
use crate::gremlin::steps::{PredView, StepView};
use crate::graph::PropsModel;
use crate::registry::{label_passes, EntryView};
use crate::types::{EdgeId, PropValue, VertexId};
use vstd::prelude::*;

verus! {

/// No two results share a dedup key.
pub open spec fn keys_distinct(rs: Seq<ResultView>) -> bool {
    forall|i: int, j: int| 0 <= i < j < rs.len() ==> dedup_key(#[trigger] rs[i]) != dedup_key(#[trigger] rs[j])
}

/// Some result has the dedup key `k`.
pub open spec fn has_key(rs: Seq<ResultView>, k: Seq<char>) -> bool {
    exists|i: int| 0 <= i < rs.len() && dedup_key(#[trigger] rs[i]) == k
}

/// `dedup` leaves each key once: its results have distinct keys, every
/// key of the input appears among them, and each of them is an input result.
pub proof fn lemma_dedup_distinct(rs: Seq<ResultView>)
    ensures
        keys_distinct(dedup_results(rs)),
        forall|k: Seq<char>| #[trigger] has_key(dedup_results(rs), k) <==> has_key(rs, k),
        forall|i: int| 0 <= i < dedup_results(rs).len() ==> rs.contains(#[trigger] dedup_results(rs)[i]),
    decreases rs.len(),
{
    if rs.len() > 0 {
        let prev = rs.drop_last();
        let x = rs.last();
        lemma_dedup_distinct(prev);
        let d = dedup_results(prev);
        assert forall|i: int| 0 <= i < prev.len() implies #[trigger] prev[i] == rs[i] by {}
        if exists|j: int| 0 <= j < prev.len() && dedup_key(#[trigger] prev[j]) == dedup_key(x) {
            assert(dedup_results(rs) == d);
            assert forall|k: Seq<char>| #[trigger] has_key(d, k) <==> has_key(rs, k) by {
                if has_key(rs, k) {
                    let i = choose|i: int| 0 <= i < rs.len() && dedup_key(#[trigger] rs[i]) == k;
                    if i < prev.len() {
                        assert(dedup_key(prev[i]) == k);
                        assert(has_key(prev, k));
                    } else {
                        let j = choose|j: int| 0 <= j < prev.len() && dedup_key(#[trigger] prev[j]) == dedup_key(x);
                        assert(has_key(prev, k));
                    }
                }
                if has_key(d, k) {
                    assert(has_key(prev, k));
                    let i = choose|i: int| 0 <= i < prev.len() && dedup_key(#[trigger] prev[i]) == k;
                    assert(dedup_key(rs[i]) == k);
                }
            }
            assert forall|i: int| 0 <= i < d.len() implies rs.contains(#[trigger] d[i]) by {
                assert(prev.contains(d[i]));
                let j = choose|j: int| 0 <= j < prev.len() && prev[j] == d[i];
                assert(rs[j] == d[i]);
            }
        } else {
            let e = d.push(x);
            assert(dedup_results(rs) == e);
            assert(!has_key(d, dedup_key(x))) by {
                if has_key(d, dedup_key(x)) {
                    assert(has_key(prev, dedup_key(x)));
                }
            }
            assert forall|i: int, j: int| 0 <= i < j < e.len() implies dedup_key(#[trigger] e[i]) != dedup_key(#[trigger] e[j]) by {
                if j == d.len() {
                    assert(e[i] == d[i]);
                    if dedup_key(d[i]) == dedup_key(x) {
                        assert(has_key(d, dedup_key(x)));
                    }
                } else {
                    assert(e[i] == d[i] && e[j] == d[j]);
                }
            }
            assert forall|k: Seq<char>| #[trigger] has_key(e, k) <==> has_key(rs, k) by {
                if has_key(rs, k) {
                    let i = choose|i: int| 0 <= i < rs.len() && dedup_key(#[trigger] rs[i]) == k;
                    if i < prev.len() {
                        assert(dedup_key(prev[i]) == k);
                        assert(has_key(prev, k));
                        assert(has_key(d, k));
                        let j = choose|j: int| 0 <= j < d.len() && dedup_key(#[trigger] d[j]) == k;
                        assert(e[j] == d[j]);
                    } else {
                        assert(e[d.len() as int] == x);
                    }
                }
                if has_key(e, k) {
                    let i = choose|i: int| 0 <= i < e.len() && dedup_key(#[trigger] e[i]) == k;
                    if i < d.len() {
                        assert(e[i] == d[i]);
                        assert(has_key(d, k));
                        assert(has_key(prev, k));
                        let j = choose|j: int| 0 <= j < prev.len() && dedup_key(#[trigger] prev[j]) == k;
                        assert(dedup_key(rs[j]) == k);
                    } else {
                        assert(dedup_key(rs[rs.len() - 1]) == k);
                    }
                }
            }
            assert forall|i: int| 0 <= i < e.len() implies rs.contains(#[trigger] e[i]) by {
                if i < d.len() {
                    assert(e[i] == d[i]);
                    assert(prev.contains(d[i]));
                    let j = choose|j: int| 0 <= j < prev.len() && prev[j] == d[i];
                    assert(rs[j] == d[i]);
                } else {
                    assert(rs[rs.len() - 1] == e[i]);
                }
            }
        }
    }
}

/// Results with distinct keys are left as they are by `dedup`.
pub proof fn lemma_dedup_keeps_distinct(rs: Seq<ResultView>)
    requires
        keys_distinct(rs),
    ensures
        dedup_results(rs) == rs,
    decreases rs.len(),
{
    if rs.len() > 0 {
        let prev = rs.drop_last();
        assert forall|i: int, j: int| 0 <= i < j < prev.len() implies dedup_key(#[trigger] prev[i]) != dedup_key(#[trigger] prev[j]) by {
            assert(prev[i] == rs[i] && prev[j] == rs[j]);
        }
        lemma_dedup_keeps_distinct(prev);
        assert(!exists|j: int| 0 <= j < prev.len() && dedup_key(#[trigger] prev[j]) == dedup_key(rs.last())) by {
            if exists|j: int| 0 <= j < prev.len() && dedup_key(#[trigger] prev[j]) == dedup_key(rs.last()) {
                let j = choose|j: int| 0 <= j < prev.len() && dedup_key(#[trigger] prev[j]) == dedup_key(rs.last());
                assert(dedup_key(rs[j]) == dedup_key(rs[rs.len() - 1]));
            }
        }
        assert(prev.push(rs.last()) =~= rs);
    }
}

/// `dedup` twice is `dedup` once.
pub proof fn lemma_dedup_idempotent(rs: Seq<ResultView>)
    ensures
        dedup_results(dedup_results(rs)) == dedup_results(rs),
{
    lemma_dedup_distinct(rs);
    lemma_dedup_keeps_distinct(dedup_results(rs));
}

/// `limit(n)` and `skip(n)` split the results: what the first keeps and what
/// the second keeps, one after the other, are all of them.
pub proof fn lemma_limit_skip_split(rs: Seq<ResultView>, n: int)
    requires
        n >= 0,
    ensures
        rs.take(clamp(n, rs.len() as int)) + rs.skip(clamp(n, rs.len() as int)) == rs,
        rs.take(clamp(n, rs.len() as int)).len() == if n < rs.len() { n } else { rs.len() as int },
{
    assert(rs.take(clamp(n, rs.len() as int)) + rs.skip(clamp(n, rs.len() as int)) =~= rs);
}

/// `range(a, b)` keeps the results at positions `a` up to (not including)
/// `b`, as far as there are results: `min(b, n) - min(a, n)` of them for `n`
/// results, the `i`-th being the input's `a + i`-th; nothing else changes.
pub proof fn lemma_range_window<F: Fn(FloatOp) -> crate::types::FloatValue>(
    f: F,
    a: usize,
    b: usize,
    rs: Seq<ResultView>,
    fr: Frame,
)
    requires
        a <= b,
    ensures
        plain_step(f, StepView::Range(a, b), rs, fr).1 == fr,
        plain_step(f, StepView::Range(a, b), rs, fr).0.len() == clamp(b as int, rs.len() as int) - clamp(a as int, rs.len() as int),
        forall|i: int|
            0 <= i < plain_step(f, StepView::Range(a, b), rs, fr).0.len() ==> #[trigger] plain_step(
                f,
                StepView::Range(a, b),
                rs,
                fr,
            ).0[i] == rs[a + i],
{
    reveal(plain_step);
    let n = rs.len() as int;
    let s = rs.skip(clamp(a as int, n));
    assert(b.wrapping_sub(a) == b - a);
    assert(s.len() == n - clamp(a as int, n));
    assert(plain_step(f, StepView::Range(a, b), rs, fr) == (s.take(clamp((b - a) as int, s.len() as int)), fr));
}

/// Integers are compared by their order: the comparison is negative exactly
/// where the first is smaller, positive exactly where it is greater.
pub proof fn lemma_int_order<F: Fn(FloatOp) -> crate::types::FloatValue>(f: F, x: i64, y: i64)
    ensures
        prop_order(f, PropValue::Int(x), PropValue::Int(y)) < 0 <==> x < y,
        prop_order(f, PropValue::Int(x), PropValue::Int(y)) > 0 <==> x > y,
        prop_order(f, PropValue::Int(x), PropValue::Int(y)) == 0 <==> x == y,
{
}

/// Texts are compared by code point, first difference first: where `s`
/// and `t` agree before position `i` and `s` has the smaller character
/// there, or `s` is a proper prefix of `t`, `s` comes first; a text is
/// level with itself.
pub proof fn lemma_text_order(s: Seq<char>, t: Seq<char>, i: int)
    requires
        0 <= i <= s.len(),
        i <= t.len(),
        s.take(i) == t.take(i),
        (i < s.len() && i < t.len() && (s[i] as u32) < (t[i] as u32)) || (i == s.len() && s.len() < t.len()),
    ensures
        text_order(s, t) < 0,
        text_order(t, s) > 0,
        text_order(s, s) == 0,
    decreases i,
{
    lemma_text_self(s);
    if i > 0 {
        assert(s[0] == s.take(i)[0] && t[0] == t.take(i)[0]);
        assert(s.drop_first().take(i - 1) =~= s.take(i).drop_first());
        assert(t.drop_first().take(i - 1) =~= t.take(i).drop_first());
        lemma_text_order(s.drop_first(), t.drop_first(), i - 1);
    }
}

proof fn lemma_text_self(s: Seq<char>)
    ensures
        text_order(s, s) == 0,
    decreases s.len(),
{
    if s.len() > 0 {
        lemma_text_self(s.drop_first());
    }
}

/// On integer values, `gt`, `gte`, `lt` and `lte` keep exactly the values
/// greater than, at least, less than and at most the bound.
pub proof fn lemma_int_predicates<F: Fn(FloatOp) -> crate::types::FloatValue>(
    f: F,
    props: Option<PropsModel>,
    x: i64,
    v: i64,
)
    ensures
        pred_holds(f, props, ResultView::Value(PropValue::Int(x)), PredView::Gt(PropValue::Int(v))) <==> x > v,
        pred_holds(f, props, ResultView::Value(PropValue::Int(x)), PredView::Gte(PropValue::Int(v))) <==> x >= v,
        pred_holds(f, props, ResultView::Value(PropValue::Int(x)), PredView::Lt(PropValue::Int(v))) <==> x < v,
        pred_holds(f, props, ResultView::Value(PropValue::Int(x)), PredView::Lte(PropValue::Int(v))) <==> x <= v,
{
    lemma_int_order(f, x, v);
}

/// A relation on doubles (by their bits) that is reflexive and transitive.
pub open spec fn preorder(le: spec_fn(u64, u64) -> bool) -> bool {
    &&& forall|a: u64| #[trigger] le(a, a)
    &&& forall|a: u64, b: u64, c: u64| #[trigger] le(a, b) && #[trigger] le(b, c) ==> le(a, c)
}

/// The arithmetic's `Min` gives the smaller of two doubles under `le`.
pub open spec fn min_by(f: spec_fn(FloatOp) -> (u64, Seq<char>), le: spec_fn(u64, u64) -> bool) -> bool {
    forall|a: u64, b: u64|
        (#[trigger] f(FloatOp::Min(a, b))).0 == a && le(a, b) || f(FloatOp::Min(a, b)).0 == b && le(b, a)
}

/// The arithmetic's `Max` gives the greater of two doubles under `le`.
pub open spec fn max_by(f: spec_fn(FloatOp) -> (u64, Seq<char>), le: spec_fn(u64, u64) -> bool) -> bool {
    forall|a: u64, b: u64|
        (#[trigger] f(FloatOp::Max(a, b))).0 == a && le(b, a) || f(FloatOp::Max(a, b)).0 == b && le(a, b)
}

/// The doubles the arithmetic `f` gives.
pub open spec fn floats_of<F: Fn(FloatOp) -> crate::types::FloatValue>(f: F) -> spec_fn(FloatOp) -> (u64, Seq<char>) {
    |op: FloatOp| float_of(f, op)
}

/// `min` gives one of the values, and no value is below it, wherever the
/// arithmetic's `Min` picks the smaller of two doubles by an order `le`;
/// `max` likewise gives one of the values with none above it, wherever `Max`
/// picks the greater.
pub proof fn lemma_extreme_bounds<F: Fn(FloatOp) -> crate::types::FloatValue>(
    f: F,
    vs: Seq<PropValue>,
    max: bool,
    le: spec_fn(u64, u64) -> bool,
)
    requires
        vs.len() > 0,
        preorder(le),
        !max ==> min_by(floats_of(f), le),
        max ==> max_by(floats_of(f), le),
    ensures
        forall|i: int|
            0 <= i < vs.len() ==> (if max {
                le(#[trigger] as_double(f, vs[i]).0, extreme_of(f, vs, max).0)
            } else {
                le(extreme_of(f, vs, max).0, as_double(f, vs[i]).0)
            }),
        exists|i: int| 0 <= i < vs.len() && extreme_of(f, vs, max).0 == #[trigger] as_double(f, vs[i]).0,
    decreases vs.len(),
{
    if vs.len() == 1 {
        assert(le(as_double(f, vs[0]).0, as_double(f, vs[0]).0));
        assert(extreme_of(f, vs, max).0 == as_double(f, vs[0]).0);
    } else {
        let prev = vs.drop_last();
        lemma_extreme_bounds(f, prev, max, le);
        let a = extreme_of(f, prev, max).0;
        let b = as_double(f, vs.last()).0;
        let n = vs.len() - 1;
        assert(vs.last() == vs[n]);
        let j = choose|j: int| 0 <= j < prev.len() && a == #[trigger] as_double(f, prev[j]).0;
        assert(prev[j] == vs[j]);
        if max {
            assert((floats_of(f))(FloatOp::Max(a, b)) == float_of(f, FloatOp::Max(a, b)));
            assert forall|i: int| 0 <= i < vs.len() implies le(#[trigger] as_double(f, vs[i]).0, extreme_of(f, vs, max).0) by {
                if i < n {
                    assert(prev[i] == vs[i]);
                    assert(le(as_double(f, prev[i]).0, a));
                }
            }
        } else {
            assert((floats_of(f))(FloatOp::Min(a, b)) == float_of(f, FloatOp::Min(a, b)));
            assert forall|i: int| 0 <= i < vs.len() implies le(extreme_of(f, vs, max).0, #[trigger] as_double(f, vs[i]).0) by {
                if i < n {
                    assert(prev[i] == vs[i]);
                    assert(le(a, as_double(f, prev[i]).0));
                }
            }
        }
        if extreme_of(f, vs, max).0 == a {
            assert(extreme_of(f, vs, max).0 == as_double(f, vs[j]).0);
        } else {
            assert(extreme_of(f, vs, max).0 == as_double(f, vs[n]).0);
        }
    }
}

/// An element that `f` maps to `y` puts `y` in the result of `filter_map`.
proof fn lemma_filter_map_has<A, B>(s: Seq<A>, f: spec_fn(A) -> Option<B>, t: A, y: B)
    requires
        s.contains(t),
        f(t) == Some(y),
    ensures
        s.filter_map(f).contains(y),
    decreases s.len(),
{
    if s.last() == t {
        assert(s.filter_map(f) == s.drop_last().filter_map(f) + seq![y]);
        assert(s.filter_map(f)[s.filter_map(f).len() - 1] == y);
    } else {
        let i = choose|i: int| 0 <= i < s.len() && s[i] == t;
        assert(s.drop_last()[i] == t);
        lemma_filter_map_has(s.drop_last(), f, t, y);
        let k = choose|k: int| 0 <= k < s.drop_last().filter_map(f).len() && s.drop_last().filter_map(f)[k] == y;
        match f(s.last()) {
            Some(z) => assert(s.filter_map(f)[k] == y),
            None => assert(s.filter_map(f)[k] == y),
        }
    }
}

/// The registry edges of `v` for `inE`: each is a registry entry arriving at
/// `v` with a listed label, and every entry arriving at `v` whose label is
/// the first listed (any label where none is listed) is among them.
pub proof fn lemma_registry_incoming(eng: EngineModel, es: Seq<EntryView>, v: VertexId, labels: Option<Seq<Seq<char>>>)
    requires
        eng.registry == Some(es),
    ensures
        forall|x: ResultView|
            #[trigger] registry_edges(eng, v, labels, false).contains(x) ==> exists|e: EntryView|
                #![trigger es.contains(e)]
                es.contains(e) && x == ResultView::Edge(e.0) && e.2 == v && label_listed(labels, e.3),
        forall|e: EntryView|
            #![trigger es.contains(e)]
            es.contains(e) && e.2 == v && label_passes(first_label(labels), e.3) && label_listed(labels, e.3)
                ==> registry_edges(eng, v, labels, false).contains(ResultView::Edge(e.0)),
{
    let pred = crate::registry::end_matches(false, v, first_label(labels));
    let found = es.filter(pred);
    let g = |e: EntryView| if label_listed(labels, e.3) {
        Some(ResultView::Edge(e.0))
    } else {
        None
    };
    assert(registry_edges(eng, v, labels, false) == found.filter_map(g));
    assert forall|x: ResultView| #[trigger] registry_edges(eng, v, labels, false).contains(x) implies exists|e: EntryView|
        #![trigger es.contains(e)]
        es.contains(e) && x == ResultView::Edge(e.0) && e.2 == v && label_listed(labels, e.3) by {
        found.lemma_filter_map_contains(g, x);
        let t = choose|t: EntryView| #[trigger] found.contains(t) && g(t) == Some(x);
        let k = choose|k: int| 0 <= k < found.len() && found[k] == t;
        es.lemma_filter_pred(pred, k);
        es.lemma_filter_contains_rev(pred, t);
    }
    assert forall|e: EntryView|
        #![trigger es.contains(e)]
        es.contains(e) && e.2 == v && label_passes(first_label(labels), e.3) && label_listed(labels, e.3)
            implies registry_edges(eng, v, labels, false).contains(ResultView::Edge(e.0)) by {
        let i = choose|i: int| 0 <= i < es.len() && es[i] == e;
        es.lemma_filter_contains(pred, i);
        lemma_filter_map_has(found, g, e, ResultView::Edge(e.0));
    }
}

/// `inE` gives edges arriving at the input vertices: every edge it gives is
/// a registry entry whose target is one of the input vertices, with a listed
/// label; and for every input vertex, every registry entry arriving at it
/// whose label is the first listed (any label where none is listed) is
/// given. Without a registry it gives nothing.
pub proof fn lemma_in_e_arrives(eng: EngineModel, rs: Seq<ResultView>, labels: Option<Seq<Seq<char>>>)
    ensures
        eng.registry is None ==> in_e_results(eng, rs, labels).len() == 0,
        eng.registry matches Some(es) ==> forall|x: ResultView|
            #[trigger] in_e_results(eng, rs, labels).contains(x) ==> exists|e: EntryView, j: int|
                #![trigger es.contains(e), rs[j]]
                {
                    &&& es.contains(e)
                    &&& x == ResultView::Edge(e.0)
                    &&& label_listed(labels, e.3)
                    &&& 0 <= j < rs.len()
                    &&& rs[j] == ResultView::Vertex(e.2)
                },
        eng.registry matches Some(es) ==> forall|j: int, e: EntryView|
            #![trigger es.contains(e), rs[j]]
            0 <= j < rs.len() && rs[j] == ResultView::Vertex(e.2) && es.contains(e) && label_passes(first_label(labels), e.3)
                && label_listed(labels, e.3) ==> in_e_results(eng, rs, labels).contains(ResultView::Edge(e.0)),
    decreases rs.len(),
{
    if rs.len() > 0 {
        let prev = rs.drop_last();
        lemma_in_e_arrives(eng, prev, labels);
        let a = in_e_results(eng, prev, labels);
        let b = match rs.last() {
            ResultView::Vertex(v) => registry_edges(eng, v, labels, false),
            _ => Seq::empty(),
        };
        assert(in_e_results(eng, rs, labels) == a + b);
        match eng.registry {
            None => {
                match rs.last() {
                    ResultView::Vertex(v) => assert(b.len() == 0),
                    _ => {},
                }
            },
            Some(es) => {
                let n = rs.len() - 1;
                match rs.last() {
                    ResultView::Vertex(v) => lemma_registry_incoming(eng, es, v, labels),
                    _ => {},
                }
                assert forall|x: ResultView| #[trigger] in_e_results(eng, rs, labels).contains(x) implies exists|e: EntryView, j: int|
                    #![trigger es.contains(e), rs[j]]
                    {
                        &&& es.contains(e)
                        &&& x == ResultView::Edge(e.0)
                        &&& label_listed(labels, e.3)
                        &&& 0 <= j < rs.len()
                        &&& rs[j] == ResultView::Vertex(e.2)
                    } by {
                    let k = choose|k: int| 0 <= k < (a + b).len() && (a + b)[k] == x;
                    if k < a.len() {
                        assert(a[k] == x);
                        assert(a.contains(x));
                        let (e, j) = choose|e: EntryView, j: int|
                            #![trigger es.contains(e), prev[j]]
                            {
                                &&& es.contains(e)
                                &&& x == ResultView::Edge(e.0)
                                &&& label_listed(labels, e.3)
                                &&& 0 <= j < prev.len()
                                &&& prev[j] == ResultView::Vertex(e.2)
                            };
                        assert(rs[j] == prev[j]);
                    } else {
                        assert(b[k - a.len()] == x);
                        assert(b.contains(x));
                        let v = rs.last()->Vertex_0;
                        assert(rs[n] == ResultView::Vertex(v));
                        assert(registry_edges(eng, v, labels, false).contains(x));
                        let e = choose|e: EntryView|
                            #![trigger es.contains(e)]
                            es.contains(e) && x == ResultView::Edge(e.0) && e.2 == v && label_listed(labels, e.3);
                        assert(rs[n] == ResultView::Vertex(e.2));
                    }
                }
                assert forall|j: int, e: EntryView|
                    #![trigger es.contains(e), rs[j]]
                    0 <= j < rs.len() && rs[j] == ResultView::Vertex(e.2) && es.contains(e) && label_passes(first_label(labels), e.3)
                        && label_listed(labels, e.3) implies in_e_results(eng, rs, labels).contains(ResultView::Edge(e.0)) by {
                    if j < n {
                        assert(prev[j] == rs[j]);
                        assert(a.contains(ResultView::Edge(e.0)));
                        let k = choose|k: int| 0 <= k < a.len() && a[k] == ResultView::Edge(e.0);
                        assert((a + b)[k] == a[k]);
                    } else {
                        assert(b.contains(ResultView::Edge(e.0)));
                        let k = choose|k: int| 0 <= k < b.len() && b[k] == ResultView::Edge(e.0);
                        assert((a + b)[a.len() + k] == b[k]);
                    }
                }
            },
        }
    }
}

} // verus!
