//! Comparing values and results, evaluating predicates, and stable ordering.
//!
//! Where a comparison or an aggregate needs double-precision arithmetic (an
//! integer taken as a double, a sum, a maximum), the caller hands in the
//! arithmetic as a function from [`FloatOp`] to the resulting double.
use crate::graph::{PropertyStore, PropsModel};
use crate::gremlin::results::{result_view, GremlinResult, ResultView};
use crate::gremlin::steps::{pred_view, GremlinPredicate, PredView};
use crate::text::{chars_of, contains_run, ends_with, starts_with, vec_contains_run, vec_ends_with, vec_starts_with};
use crate::types::{compare_float_bits, float_lt, prop_lookup, value_equal, FloatValue, PropValue, PropertyValue, VertexId};
use vstd::prelude::*;

verus! {

/// A double-precision operation: an integer taken as a double, or the sum,
/// maximum, minimum or quotient of two doubles given by their bits.
#[derive(Debug, Clone, Copy, PartialEq, Eq, Structural)]
pub enum FloatOp {
    FromInt(i64),
    Add(u64, u64),
    Max(u64, u64),
    Min(u64, u64),
    Div(u64, u64),
}

/// The arithmetic `f` can be called on every operation, and gives the same
/// double (bits and text) for the same operation.
pub open spec fn float_arith_ok<F: Fn(FloatOp) -> FloatValue>(f: F) -> bool {
    &&& forall|op: FloatOp| call_requires(f, (op,))
    &&& forall|op: FloatOp, r1: FloatValue, r2: FloatValue|
        #[trigger] call_ensures(f, (op,), r1) && #[trigger] call_ensures(f, (op,), r2) ==> r1.bits
            == r2.bits && r1.text@ == r2.text@
}

/// The double that `f` gives for `op`: its bits and its text.
pub open spec fn float_of<F: Fn(FloatOp) -> FloatValue>(f: F, op: FloatOp) -> (u64, Seq<char>) {
    let r = choose|r: FloatValue| #[trigger] call_ensures(f, (op,), r);
    (r.bits, r.text@)
}

/// Calls the arithmetic and ties the result to [`float_of`].
pub fn apply_float<F: Fn(FloatOp) -> FloatValue>(f: &F, op: FloatOp) -> (r: FloatValue)
    requires
        float_arith_ok(*f),
    ensures
        (r.bits, r.text@) == float_of(*f, op),
{
    let r = f(op);
    proof {
        let c = choose|c: FloatValue| #[trigger] call_ensures(*f, (op,), c);
        assert(call_ensures(*f, (op,), c));
    }
    r
}

/// -1, 0 or 1 as `a < b`, `a == b` or `a > b`.
pub open spec fn three_way(a: int, b: int) -> int {
    if a < b {
        -1
    } else if a > b {
        1
    } else {
        0
    }
}

/// -1, 0 or 1 as double `a` is below, neither, or above double `b` (0 where
/// either is NaN).
pub open spec fn float_order(a: u64, b: u64) -> int {
    if float_lt(a, b) {
        -1
    } else if float_lt(b, a) {
        1
    } else {
        0
    }
}

/// Lexicographic comparison of two texts by code point.
pub open spec fn text_order(s: Seq<char>, t: Seq<char>) -> int
    decreases s.len(),
{
    if s.len() == 0 && t.len() == 0 {
        0
    } else if s.len() == 0 {
        -1
    } else if t.len() == 0 {
        1
    } else if (s[0] as u32) < (t[0] as u32) {
        -1
    } else if (s[0] as u32) > (t[0] as u32) {
        1
    } else {
        text_order(s.drop_first(), t.drop_first())
    }
}

/// Compares two texts by code point: -1, 0 or 1.
pub fn compare_text(a: &str, b: &str) -> (r: i32)
    ensures
        r == text_order(a@, b@),
{
    let x = chars_of(a);
    let y = chars_of(b);
    let mut i: usize = 0;
    assert(a@.skip(0) =~= a@);
    assert(b@.skip(0) =~= b@);
    while i < x.len() && i < y.len()
        invariant
            i <= x.len(),
            i <= y.len(),
            x@ == a@,
            y@ == b@,
            text_order(a@, b@) == text_order(a@.skip(i as int), b@.skip(i as int)),
        decreases x.len() - i,
    {
        let cx = x[i] as u32;
        let cy = y[i] as u32;
        proof {
            assert(a@.skip(i as int)[0] == x@[i as int]);
            assert(b@.skip(i as int)[0] == y@[i as int]);
        }
        if cx < cy {
            return -1;
        }
        if cx > cy {
            return 1;
        }
        proof {
            assert(a@.skip(i as int).drop_first() =~= a@.skip(i + 1));
            assert(b@.skip(i as int).drop_first() =~= b@.skip(i + 1));
        }
        i = i + 1;
    }
    if x.len() == y.len() {
        0
    } else if i == x.len() {
        -1
    } else {
        1
    }
}

/// How two property values compare: integers and doubles by value (an
/// integer taken as a double where it meets a double), texts by code point,
/// and 0 for anything else.
pub open spec fn prop_order<F: Fn(FloatOp) -> FloatValue>(f: F, a: PropValue, b: PropValue) -> int {
    match (a, b) {
        (PropValue::Int(x), PropValue::Int(y)) => three_way(x as int, y as int),
        (PropValue::Float(x, _), PropValue::Float(y, _)) => float_order(x, y),
        (PropValue::Int(x), PropValue::Float(y, _)) => float_order(float_of(f, FloatOp::FromInt(x)).0, y),
        (PropValue::Float(x, _), PropValue::Int(y)) => float_order(x, float_of(f, FloatOp::FromInt(y)).0),
        (PropValue::Text(s), PropValue::Text(t)) => text_order(s, t),
        _ => 0,
    }
}

fn float_order_exec(a: u64, b: u64) -> (r: i32)
    ensures
        r == float_order(a, b),
{
    compare_float_bits(a, b)
}

/// Compares two property values: -1, 0 or 1.
pub fn compare_property_values<F: Fn(FloatOp) -> FloatValue>(
    f: &F,
    a: &PropertyValue,
    b: &PropertyValue,
) -> (r: i32)
    requires
        float_arith_ok(*f),
    ensures
        r == prop_order(*f, a@, b@),
{
    match (a, b) {
        (PropertyValue::Int(x), PropertyValue::Int(y)) => {
            if *x < *y {
                -1
            } else if *x > *y {
                1
            } else {
                0
            }
        },
        (PropertyValue::Float(x), PropertyValue::Float(y)) => float_order_exec(x.bits, y.bits),
        (PropertyValue::Int(x), PropertyValue::Float(y)) => {
            let xf = apply_float(f, FloatOp::FromInt(*x));
            float_order_exec(xf.bits, y.bits)
        },
        (PropertyValue::Float(x), PropertyValue::Int(y)) => {
            let yf = apply_float(f, FloatOp::FromInt(*y));
            float_order_exec(x.bits, yf.bits)
        },
        (PropertyValue::String(s), PropertyValue::String(t)) => compare_text(s.as_str(), t.as_str()),
        _ => 0,
    }
}

/// What a result is ordered by: a vertex or edge by its id, a value by
/// [`prop_order`], a count by its number; other results are not ordered.
pub enum KeyView {
    Vertex(u64),
    Edge(u64),
    Value(PropValue),
    Count(u64),
    Other,
}

/// The ordering key of a result.
pub open spec fn key_of(r: ResultView) -> KeyView {
    match r {
        ResultView::Vertex(v) => KeyView::Vertex(v.id),
        ResultView::Edge(e) => KeyView::Edge(e.id),
        ResultView::Value(v) => KeyView::Value(v),
        ResultView::Count(c) => KeyView::Count(c),
        _ => KeyView::Other,
    }
}

/// How two keys compare: like kinds by their contents, unlike kinds as equal.
pub open spec fn key_order<F: Fn(FloatOp) -> FloatValue>(f: F, a: KeyView, b: KeyView) -> int {
    match (a, b) {
        (KeyView::Vertex(x), KeyView::Vertex(y)) => three_way(x as int, y as int),
        (KeyView::Edge(x), KeyView::Edge(y)) => three_way(x as int, y as int),
        (KeyView::Value(x), KeyView::Value(y)) => prop_order(f, x, y),
        (KeyView::Count(x), KeyView::Count(y)) => three_way(x as int, y as int),
        _ => 0,
    }
}

/// How two results compare when results are ordered.
pub open spec fn result_order<F: Fn(FloatOp) -> FloatValue>(f: F, a: ResultView, b: ResultView) -> int {
    key_order(f, key_of(a), key_of(b))
}

/// An ordering key.
pub enum OrderKey {
    Vertex(u64),
    Edge(u64),
    Value(PropertyValue),
    Count(u64),
    Other,
}

impl OrderKey {
    pub open spec fn key_view(&self) -> KeyView {
        match self {
            OrderKey::Vertex(x) => KeyView::Vertex(*x),
            OrderKey::Edge(x) => KeyView::Edge(*x),
            OrderKey::Value(v) => KeyView::Value(v@),
            OrderKey::Count(c) => KeyView::Count(*c),
            OrderKey::Other => KeyView::Other,
        }
    }

    /// The ordering key of a result.
    pub fn of_result(r: &GremlinResult) -> (k: OrderKey)
        ensures
            k.key_view() == key_of(result_view(*r)),
    {
        match r {
            GremlinResult::Vertex(v) => OrderKey::Vertex(v.id),
            GremlinResult::Edge(e) => OrderKey::Edge(e.id),
            GremlinResult::Value(v) => OrderKey::Value(v.duplicate()),
            GremlinResult::Count(c) => OrderKey::Count(*c),
            _ => OrderKey::Other,
        }
    }
}

/// The models of a list of keys.
pub open spec fn keys_view(ks: Seq<OrderKey>) -> Seq<KeyView> {
    ks.map_values(|k: OrderKey| k.key_view())
}

fn compare_keys<F: Fn(FloatOp) -> FloatValue>(f: &F, a: &OrderKey, b: &OrderKey) -> (r: i32)
    requires
        float_arith_ok(*f),
    ensures
        r == key_order(*f, a.key_view(), b.key_view()),
{
    match (a, b) {
        (OrderKey::Vertex(x), OrderKey::Vertex(y)) | (OrderKey::Edge(x), OrderKey::Edge(y)) | (
            OrderKey::Count(x),
            OrderKey::Count(y),
        ) => {
            if *x < *y {
                -1
            } else if *x > *y {
                1
            } else {
                0
            }
        },
        (OrderKey::Value(x), OrderKey::Value(y)) => compare_property_values(f, x, y),
        _ => 0,
    }
}

/// Compares two results: -1, 0 or 1.
pub fn compare_results<F: Fn(FloatOp) -> FloatValue>(f: &F, a: &GremlinResult, b: &GremlinResult) -> (r: i32)
    requires
        float_arith_ok(*f),
    ensures
        r == result_order(*f, result_view(*a), result_view(*b)),
{
    let ka = OrderKey::of_result(a);
    let kb = OrderKey::of_result(b);
    compare_keys(f, &ka, &kb)
}

/// The comparison in the given direction: descending swaps the operands.
pub open spec fn dir_order<F: Fn(FloatOp) -> FloatValue>(f: F, desc: bool, a: KeyView, b: KeyView) -> int {
    if desc {
        key_order(f, b, a)
    } else {
        key_order(f, a, b)
    }
}

/// Where index `i` goes when it is inserted into `order`: after the last
/// entry whose key it does not sort before.
pub open spec fn insert_pos<F: Fn(FloatOp) -> FloatValue>(
    f: F,
    desc: bool,
    keys: Seq<KeyView>,
    order: Seq<int>,
    i: int,
) -> int
    decreases order.len(),
{
    if order.len() == 0 {
        0
    } else if dir_order(f, desc, keys[i], keys[order.last()]) < 0 {
        insert_pos(f, desc, keys, order.drop_last(), i)
    } else {
        order.len() as int
    }
}

/// The stable order of the first `n` keys: each index is inserted after the
/// indices before it whose keys it does not sort before. For a comparison that
/// is a total preorder this is the stable sort.
pub open spec fn stable_order<F: Fn(FloatOp) -> FloatValue>(
    f: F,
    desc: bool,
    keys: Seq<KeyView>,
    n: nat,
) -> Seq<int>
    decreases n,
{
    if n == 0 {
        Seq::empty()
    } else {
        let prev = stable_order(f, desc, keys, (n - 1) as nat);
        prev.insert(insert_pos(f, desc, keys, prev, n - 1), n - 1)
    }
}

/// The positions of the keys in stable sorted order.
pub fn sort_order<F: Fn(FloatOp) -> FloatValue>(f: &F, keys: &Vec<OrderKey>, desc: bool) -> (r: Vec<usize>)
    requires
        float_arith_ok(*f),
    ensures
        r@.len() == keys@.len(),
        r@.map_values(|i: usize| i as int) == stable_order(*f, desc, keys_view(keys@), keys@.len() as nat),
        forall|k: int| 0 <= k < r@.len() ==> r@[k] < keys@.len(),
{
    let ghost kv = keys_view(keys@);
    let mut order: Vec<usize> = Vec::new();
    let mut i: usize = 0;
    while i < keys.len()
        invariant
            i <= keys.len(),
            kv == keys_view(keys@),
            float_arith_ok(*f),
            order@.len() == i,
            order@.map_values(|x: usize| x as int) == stable_order(*f, desc, kv, i as nat),
            forall|k: int| 0 <= k < order@.len() ==> order@[k] < i,
        decreases keys.len() - i,
    {
        let ghost om = order@.map_values(|x: usize| x as int);
        let mut j: usize = order.len();
        let mut stop = false;
        assert(om.take(j as int) =~= om);
        while j > 0 && !stop
            invariant
                stop ==> j > 0 && dir_order(*f, desc, kv[i as int], kv[om[j - 1]]) >= 0,
                j <= order@.len(),
                i < keys.len(),
                kv == keys_view(keys@),
                float_arith_ok(*f),
                om == order@.map_values(|x: usize| x as int),
                forall|k: int| 0 <= k < order@.len() ==> order@[k] < i,
                insert_pos(*f, desc, kv, om, i as int) == insert_pos(*f, desc, kv, om.take(j as int), i as int),
            decreases j + if stop { 0int } else { 1int },
        {
            let prev = order[j - 1];
            let c = if desc {
                compare_keys(f, &keys[prev], &keys[i])
            } else {
                compare_keys(f, &keys[i], &keys[prev])
            };
            proof {
                assert(om.take(j as int).last() == prev as int);
                assert(kv[i as int] == keys@[i as int].key_view());
                assert(kv[prev as int] == keys@[prev as int].key_view());
                assert(om.take(j as int).drop_last() =~= om.take(j - 1));
            }
            if c >= 0 {
                stop = true;
            } else {
                j = j - 1;
            }
        }
        proof {
            if j > 0 {
                assert(om.take(j as int).len() == j);
                assert(om.take(j as int).last() == om[j - 1]);
            } else {
                assert(om.take(0) =~= Seq::<int>::empty());
            }
            assert(insert_pos(*f, desc, kv, om, i as int) == j as int);
        }
        order.insert(j, i);
        proof {
            assert(order@.map_values(|x: usize| x as int) =~= om.insert(j as int, i as int));
        }
        i = i + 1;
    }
    order
}

/// The properties of `v` in the store, where there is a store.
pub open spec fn vertex_props_of(props: Option<PropsModel>, v: VertexId) -> Seq<(Seq<char>, PropValue)> {
    match props {
        Some(p) => (p.vertex_props)(v),
        None => Seq::empty(),
    }
}

/// The value of a result, where it is a value.
pub open spec fn value_of(r: ResultView) -> Option<PropValue> {
    match r {
        ResultView::Value(v) => Some(v),
        _ => None,
    }
}

/// Whether some entry of `vs` equals `x`.
pub open spec fn value_in(vs: Seq<PropValue>, x: PropValue) -> bool {
    exists|i: int| 0 <= i < vs.len() && value_equal(#[trigger] vs[i], x)
}

/// Whether every predicate of `ps` holds of `r`.
pub open spec fn all_hold<F: Fn(FloatOp) -> FloatValue>(
    f: F,
    props: Option<PropsModel>,
    r: ResultView,
    ps: Seq<PredView>,
) -> bool
    decreases ps,
{
    if ps.len() == 0 {
        true
    } else {
        all_hold(f, props, r, ps.subrange(0, ps.len() - 1)) && pred_holds(f, props, r, ps[ps.len() - 1])
    }
}

/// Whether some predicate of `ps` holds of `r`.
pub open spec fn any_holds<F: Fn(FloatOp) -> FloatValue>(
    f: F,
    props: Option<PropsModel>,
    r: ResultView,
    ps: Seq<PredView>,
) -> bool
    decreases ps,
{
    if ps.len() == 0 {
        false
    } else {
        any_holds(f, props, r, ps.subrange(0, ps.len() - 1)) || pred_holds(f, props, r, ps[ps.len() - 1])
    }
}

/// Whether predicate `p` holds of result `r`: comparisons and membership
/// tests hold of values only (`neq` and `without` also of anything that is not
/// a value), text tests of text values, a property test of a vertex whose
/// stored property satisfies the inner predicate; `matching` holds of anything.
pub open spec fn pred_holds<F: Fn(FloatOp) -> FloatValue>(
    f: F,
    props: Option<PropsModel>,
    r: ResultView,
    p: PredView,
) -> bool
    decreases p,
{
    match p {
        PredView::Eq(v) => value_of(r) is Some && value_equal(value_of(r)->0, v),
        PredView::Neq(v) => !(value_of(r) is Some && value_equal(value_of(r)->0, v)),
        PredView::Gt(v) => value_of(r) is Some && prop_order(f, value_of(r)->0, v) > 0,
        PredView::Gte(v) => value_of(r) is Some && prop_order(f, value_of(r)->0, v) >= 0,
        PredView::Lt(v) => value_of(r) is Some && prop_order(f, value_of(r)->0, v) < 0,
        PredView::Lte(v) => value_of(r) is Some && prop_order(f, value_of(r)->0, v) <= 0,
        PredView::Within(vs) => value_of(r) is Some && value_in(vs, value_of(r)->0),
        PredView::Without(vs) => !(value_of(r) is Some && value_in(vs, value_of(r)->0)),
        PredView::Containing(t) => value_of(r) matches Some(PropValue::Text(s)) && contains_run(s, t),
        PredView::StartingWith(t) => value_of(r) matches Some(PropValue::Text(s)) && starts_with(s, t),
        PredView::EndingWith(t) => value_of(r) matches Some(PropValue::Text(s)) && ends_with(s, t),
        PredView::Matching(_) => true,
        PredView::And(ps) => all_hold(f, props, r, ps),
        PredView::Or(ps) => any_holds(f, props, r, ps),
        PredView::Not(q) => !pred_holds(f, props, r, *q),
        PredView::HasProperty(key, q) => match r {
            ResultView::Vertex(v) => props is Some && prop_lookup(vertex_props_of(props, v), key) is Some
                && pred_holds(f, props, ResultView::Value(prop_lookup(vertex_props_of(props, v), key)->0), *q),
            _ => false,
        },
    }
}

/// The model of an optional property store.
pub open spec fn store_model(props: Option<&PropertyStore>) -> Option<PropsModel> {
    match props {
        Some(p) => Some(p.model()),
        None => None,
    }
}

/// Whether some entry of `vs` equals `x`.
pub fn contains_value(vs: &Vec<PropertyValue>, x: &PropertyValue) -> (r: bool)
    ensures
        r == value_in(vs@.map_values(|p: PropertyValue| p@), x@),
{
    let ghost m = vs@.map_values(|p: PropertyValue| p@);
    let mut i: usize = 0;
    while i < vs.len()
        invariant
            i <= vs.len(),
            m == vs@.map_values(|p: PropertyValue| p@),
            forall|j: int| 0 <= j < i ==> !value_equal(#[trigger] m[j], x@),
        decreases vs.len() - i,
    {
        if vs[i].equals(x) {
            assert(value_equal(m[i as int], x@));
            return true;
        }
        i = i + 1;
    }
    false
}

/// Evaluates predicate `p` on result `r`, reading vertex properties from the
/// store where there is one.
pub fn evaluate_predicate<F: Fn(FloatOp) -> FloatValue>(
    f: &F,
    props: Option<&PropertyStore>,
    r: &GremlinResult,
    p: &GremlinPredicate,
) -> (b: bool)
    requires
        float_arith_ok(*f),
    ensures
        b == pred_holds(*f, store_model(props), result_view(*r), pred_view(*p)),
    decreases p,
{
    let rv = r.as_value();
    match p {
        GremlinPredicate::Eq(v) => match rv {
            Some(x) => x.equals(v),
            None => false,
        },
        GremlinPredicate::Neq(v) => match rv {
            Some(x) => !x.equals(v),
            None => true,
        },
        GremlinPredicate::Gt(v) => match rv {
            Some(x) => compare_property_values(f, x, v) > 0,
            None => false,
        },
        GremlinPredicate::Gte(v) => match rv {
            Some(x) => compare_property_values(f, x, v) >= 0,
            None => false,
        },
        GremlinPredicate::Lt(v) => match rv {
            Some(x) => compare_property_values(f, x, v) < 0,
            None => false,
        },
        GremlinPredicate::Lte(v) => match rv {
            Some(x) => compare_property_values(f, x, v) <= 0,
            None => false,
        },
        GremlinPredicate::Within(vs) => match rv {
            Some(x) => contains_value(vs, x),
            None => false,
        },
        GremlinPredicate::Without(vs) => match rv {
            Some(x) => !contains_value(vs, x),
            None => true,
        },
        GremlinPredicate::Containing(t) => match rv {
            Some(PropertyValue::String(s)) => vec_contains_run(&chars_of(s.as_str()), &chars_of(t.as_str())),
            _ => false,
        },
        GremlinPredicate::StartingWith(t) => match rv {
            Some(PropertyValue::String(s)) => vec_starts_with(&chars_of(s.as_str()), &chars_of(t.as_str())),
            _ => false,
        },
        GremlinPredicate::EndingWith(t) => match rv {
            Some(PropertyValue::String(s)) => vec_ends_with(&chars_of(s.as_str()), &chars_of(t.as_str())),
            _ => false,
        },
        GremlinPredicate::Matching(_) => true,
        GremlinPredicate::And(ps) => {
            let ghost sq = match pred_view(*p) {
                PredView::And(sq) => sq,
                _ => Seq::empty(),
            };
            let ghost m = store_model(props);
            let ghost rv = result_view(*r);
            assert(sq.len() == ps.len());
            assert(forall|k: int| 0 <= k < ps.len() ==> sq[k] == pred_view(#[trigger] ps@[k]));
            assert(sq.subrange(0, 0) =~= Seq::<PredView>::empty());
            let mut i: usize = 0;
            while i < ps.len()
                invariant
                    i <= ps.len(),
                    float_arith_ok(*f),
                    pred_view(*p) == PredView::And(sq),
                    *p == GremlinPredicate::And(*ps),
                    sq.len() == ps.len(),
                    m == store_model(props),
                    rv == result_view(*r),
                    forall|k: int| 0 <= k < ps.len() ==> sq[k] == pred_view(#[trigger] ps@[k]),
                    all_hold(*f, m, rv, sq.subrange(0, i as int)),
                decreases ps.len() - i,
            {
                proof {
                    assert(decreases_to!(*p => *ps));
                    assert(decreases_to!(*ps => ps@));
                    assert(decreases_to!(ps@ => ps@[i as int]));
                    assert(sq[i as int] == pred_view(ps@[i as int]));
                    assert(sq.subrange(0, i + 1).subrange(0, i as int) =~= sq.subrange(0, i as int));
                }
                if !evaluate_predicate(f, props, r, &ps[i]) {
                    proof {
                        lemma_all_hold_prefix(*f, m, rv, sq, i as int);
                    }
                    return false;
                }
                i = i + 1;
            }
            assert(sq.subrange(0, sq.len() as int) =~= sq);
            true
        },
        GremlinPredicate::Or(ps) => {
            let ghost sq = match pred_view(*p) {
                PredView::Or(sq) => sq,
                _ => Seq::empty(),
            };
            let ghost m = store_model(props);
            let ghost rv = result_view(*r);
            assert(sq.len() == ps.len());
            assert(forall|k: int| 0 <= k < ps.len() ==> sq[k] == pred_view(#[trigger] ps@[k]));
            assert(sq.subrange(0, 0) =~= Seq::<PredView>::empty());
            let mut i: usize = 0;
            while i < ps.len()
                invariant
                    i <= ps.len(),
                    float_arith_ok(*f),
                    pred_view(*p) == PredView::Or(sq),
                    *p == GremlinPredicate::Or(*ps),
                    sq.len() == ps.len(),
                    m == store_model(props),
                    rv == result_view(*r),
                    forall|k: int| 0 <= k < ps.len() ==> sq[k] == pred_view(#[trigger] ps@[k]),
                    !any_holds(*f, m, rv, sq.subrange(0, i as int)),
                decreases ps.len() - i,
            {
                proof {
                    assert(decreases_to!(*p => *ps));
                    assert(decreases_to!(*ps => ps@));
                    assert(decreases_to!(ps@ => ps@[i as int]));
                    assert(sq[i as int] == pred_view(ps@[i as int]));
                    assert(sq.subrange(0, i + 1).subrange(0, i as int) =~= sq.subrange(0, i as int));
                }
                if evaluate_predicate(f, props, r, &ps[i]) {
                    proof {
                        lemma_any_holds_prefix(*f, m, rv, sq, i as int);
                    }
                    return true;
                }
                i = i + 1;
            }
            assert(sq.subrange(0, sq.len() as int) =~= sq);
            false
        },
        GremlinPredicate::Not(q) => !evaluate_predicate(f, props, r, q),
        GremlinPredicate::HasProperty(key, q) => {
            match r.as_vertex() {
                Some(v) => match props {
                    Some(store) => match store.vertex_properties_ref(v) {
                        Some(ps) => match ps.get(key.as_str()) {
                            Some(pv) => {
                                let inner = GremlinResult::Value(pv.duplicate());
                                evaluate_predicate(f, props, &inner, q)
                            },
                            None => false,
                        },
                        None => {
                            proof {
                                let e = Seq::<(Seq<char>, PropValue)>::empty();
                                assert(!(exists|i: int| 0 <= i < e.len() && (#[trigger] e[i]).0 == key@));
                            }
                            false
                        },
                    },
                    None => false,
                },
                None => false,
            }
        },
    }
}

/// A predicate of `ps` that fails makes the whole conjunction fail.
proof fn lemma_all_hold_prefix<F: Fn(FloatOp) -> FloatValue>(
    f: F,
    m: Option<PropsModel>,
    rv: ResultView,
    ps: Seq<PredView>,
    i: int,
)
    requires
        0 <= i < ps.len(),
        !pred_holds(f, m, rv, ps[i]),
    ensures
        !all_hold(f, m, rv, ps),
    decreases ps.len(),
{
    if i < ps.len() - 1 {
        let q = ps.subrange(0, ps.len() - 1);
        assert(q[i] == ps[i]);
        lemma_all_hold_prefix(f, m, rv, q, i);
    }
}

/// A predicate of `ps` that holds makes the whole disjunction hold.
proof fn lemma_any_holds_prefix<F: Fn(FloatOp) -> FloatValue>(
    f: F,
    m: Option<PropsModel>,
    rv: ResultView,
    ps: Seq<PredView>,
    i: int,
)
    requires
        0 <= i < ps.len(),
        pred_holds(f, m, rv, ps[i]),
    ensures
        any_holds(f, m, rv, ps),
    decreases ps.len(),
{
    if i < ps.len() - 1 {
        let q = ps.subrange(0, ps.len() - 1);
        assert(q[i] == ps[i]);
        lemma_any_holds_prefix(f, m, rv, q, i);
    }
}

} // verus!
