//! Connected components: which of a list of vertices are joined by edges
//! between them, in either direction.
//!
//! The vertices are numbered by their place in a duplicate-free list, and
//! each number carries a label. Joining two vertices relabels every vertex
//! that has the second one's label with the first one's, so two vertices
//! share a label exactly when the pairs joined so far connect them.
use crate::types::VertexId;
use vstd::prelude::*;

verus! {

// ---------------------------------------------------------------------------
// Connectivity among the listed vertices.

/// An edge from `a` to `b` or from `b` to `a`, both of them listed.
pub open spec fn linked(nb: spec_fn(VertexId) -> Seq<VertexId>, vs: Seq<VertexId>, a: VertexId, b: VertexId) -> bool {
    &&& vs.contains(a)
    &&& vs.contains(b)
    &&& (nb(a).contains(b) || nb(b).contains(a))
}

/// The `k`th step of `p` follows such an edge.
pub open spec fn walk_step(nb: spec_fn(VertexId) -> Seq<VertexId>, vs: Seq<VertexId>, p: Seq<VertexId>, k: int) -> bool {
    linked(nb, vs, p[k], p[k + 1])
}

/// A walk among the listed vertices along edges taken either way.
pub open spec fn is_walk(nb: spec_fn(VertexId) -> Seq<VertexId>, vs: Seq<VertexId>, p: Seq<VertexId>) -> bool {
    &&& p.len() >= 1
    &&& vs.contains(p[0])
    &&& forall|k: int| 0 <= k < p.len() - 1 ==> #[trigger] walk_step(nb, vs, p, k)
}

/// `b` can be reached from `a` by a walk among the listed vertices.
pub open spec fn reachable(nb: spec_fn(VertexId) -> Seq<VertexId>, vs: Seq<VertexId>, a: VertexId, b: VertexId) -> bool {
    exists|p: Seq<VertexId>| #[trigger] is_walk(nb, vs, p) && p[0] == a && p.last() == b
}

/// `comps` are the connected components of the listed vertices: each is
/// non-empty and holds listed vertices, each once; every listed vertex is in
/// one; and two vertices are in the same component exactly when one can be
/// reached from the other.
pub open spec fn is_components(nb: spec_fn(VertexId) -> Seq<VertexId>, vs: Seq<VertexId>, comps: Seq<Seq<VertexId>>) -> bool {
    &&& forall|i: int| 0 <= i < comps.len() ==> (#[trigger] comps[i]).len() > 0 && comps[i].no_duplicates()
    &&& forall|i: int, k: int| 0 <= i < comps.len() && 0 <= k < comps[i].len() ==> vs.contains(#[trigger] comps[i][k])
    &&& forall|v: VertexId| vs.contains(v) ==> exists|i: int| 0 <= i < comps.len() && (#[trigger] comps[i]).contains(v)
    &&& forall|i: int, j: int, u: VertexId, v: VertexId|
        #![trigger comps[i].contains(u), comps[j].contains(v)]
        0 <= i < comps.len() && 0 <= j < comps.len() && comps[i].contains(u) && comps[j].contains(v)
            ==> (i == j <==> reachable(nb, vs, u, v))
}

/// The views of the components.
pub open spec fn comp_views(comps: Seq<Vec<VertexId>>) -> Seq<Seq<VertexId>> {
    comps.map_values(|c: Vec<VertexId>| c@)
}

// ---------------------------------------------------------------------------
// Connectivity among numbered vertices by joined pairs.

/// `x` and `y` are one of the pairs, taken either way.
pub open spec fn adjacent(e: Seq<(int, int)>, x: int, y: int) -> bool {
    e.contains((x, y)) || e.contains((y, x))
}

/// The `k`th step of `p` is one of the pairs.
pub open spec fn path_step(e: Seq<(int, int)>, p: Seq<int>, k: int) -> bool {
    adjacent(e, p[k], p[k + 1])
}

/// A path along the pairs.
pub open spec fn is_path(e: Seq<(int, int)>, p: Seq<int>) -> bool {
    &&& p.len() >= 1
    &&& forall|k: int| 0 <= k < p.len() - 1 ==> #[trigger] path_step(e, p, k)
}

/// A path along the pairs leads from `x` to `y`.
pub open spec fn joined(e: Seq<(int, int)>, x: int, y: int) -> bool {
    exists|p: Seq<int>| #[trigger] is_path(e, p) && p[0] == x && p.last() == y
}

/// Numbers with the same label are joined.
pub open spec fn labels_join(e: Seq<(int, int)>, lab: Seq<usize>) -> bool {
    forall|x: int, y: int|
        0 <= x < lab.len() && 0 <= y < lab.len() && #[trigger] lab[x] == #[trigger] lab[y] ==> joined(e, x, y)
}

/// The two numbers of each pair have the same label.
pub open spec fn labels_agree(e: Seq<(int, int)>, lab: Seq<usize>) -> bool {
    forall|k: int|
        0 <= k < e.len() ==> 0 <= (#[trigger] e[k]).0 < lab.len() && 0 <= e[k].1 < lab.len() && lab[e[k].0] == lab[e[k].1]
}

/// The labels after joining `a` and `b`: `b`'s label becomes `a`'s.
pub open spec fn relabeled(lab: Seq<usize>, lab2: Seq<usize>, a: int, b: int) -> bool {
    &&& lab2.len() == lab.len()
    &&& forall|k: int| 0 <= k < lab.len() ==> #[trigger] lab2[k] == (if lab[k] == lab[b] { lab[a] } else { lab[k] })
}

proof fn lemma_path_one(e: Seq<(int, int)>, x: int)
    ensures
        is_path(e, seq![x]),
{
}

proof fn lemma_path_pair(e: Seq<(int, int)>, x: int, y: int)
    requires
        adjacent(e, x, y),
    ensures
        is_path(e, seq![x, y]),
{
    let p = seq![x, y];
    assert forall|k: int| 0 <= k < p.len() - 1 implies #[trigger] path_step(e, p, k) by {
        assert(k == 0);
    }
}

proof fn lemma_path_concat(e: Seq<(int, int)>, p: Seq<int>, q: Seq<int>)
    requires
        is_path(e, p),
        is_path(e, q),
        p.last() == q[0],
    ensures
        is_path(e, p + q.drop_first()),
        (p + q.drop_first())[0] == p[0],
        (p + q.drop_first()).last() == q.last(),
{
    let r = p + q.drop_first();
    assert forall|k: int| 0 <= k < r.len() - 1 implies #[trigger] path_step(e, r, k) by {
        if k < p.len() - 1 {
            assert(path_step(e, p, k));
        } else if k == p.len() - 1 {
            assert(path_step(e, q, 0));
        } else {
            let j = k - p.len() + 1;
            assert(path_step(e, q, j));
            assert(r[k] == q[j]);
            assert(r[k + 1] == q[j + 1]);
        }
    }
}

proof fn lemma_path_grow(e: Seq<(int, int)>, p: Seq<int>, f: (int, int))
    requires
        is_path(e, p),
    ensures
        is_path(e.push(f), p),
{
    assert forall|k: int| 0 <= k < p.len() - 1 implies #[trigger] path_step(e.push(f), p, k) by {
        assert(path_step(e, p, k));
        if e.contains((p[k], p[k + 1])) {
            let i = choose|i: int| 0 <= i < e.len() && e[i] == (p[k], p[k + 1]);
            assert(e.push(f)[i] == (p[k], p[k + 1]));
        } else {
            let i = choose|i: int| 0 <= i < e.len() && e[i] == (p[k + 1], p[k]);
            assert(e.push(f)[i] == (p[k + 1], p[k]));
        }
    }
}

proof fn lemma_joined_grow(e: Seq<(int, int)>, x: int, y: int, f: (int, int))
    requires
        joined(e, x, y),
    ensures
        joined(e.push(f), x, y),
{
    let p = choose|p: Seq<int>| #[trigger] is_path(e, p) && p[0] == x && p.last() == y;
    lemma_path_grow(e, p, f);
}

proof fn lemma_joined_concat(e: Seq<(int, int)>, x: int, y: int, z: int)
    requires
        joined(e, x, y),
        joined(e, y, z),
    ensures
        joined(e, x, z),
{
    let p = choose|p: Seq<int>| #[trigger] is_path(e, p) && p[0] == x && p.last() == y;
    let q = choose|q: Seq<int>| #[trigger] is_path(e, q) && q[0] == y && q.last() == z;
    lemma_path_concat(e, p, q);
}

/// Along a path, labels that agree on every pair stay the same.
proof fn lemma_path_same_label(e: Seq<(int, int)>, lab: Seq<usize>, p: Seq<int>)
    requires
        is_path(e, p),
        labels_agree(e, lab),
        0 <= p[0] < lab.len(),
    ensures
        0 <= p.last() < lab.len(),
        lab[p[0]] == lab[p.last()],
    decreases p.len(),
{
    if p.len() > 1 {
        let q = p.drop_last();
        assert forall|k: int| 0 <= k < q.len() - 1 implies #[trigger] path_step(e, q, k) by {
            assert(path_step(e, p, k));
        }
        lemma_path_same_label(e, lab, q);
        let k = p.len() - 2;
        assert(path_step(e, p, k));
        assert(q.last() == p[k]);
        if e.contains((p[k], p[k + 1])) {
            let i = choose|i: int| 0 <= i < e.len() && e[i] == (p[k], p[k + 1]);
            assert(lab[e[i].0] == lab[e[i].1]);
        } else {
            let i = choose|i: int| 0 <= i < e.len() && e[i] == (p[k + 1], p[k]);
            assert(lab[e[i].0] == lab[e[i].1]);
        }
    }
}

/// Joining `a` and `b` and relabeling keeps both label invariants.
proof fn lemma_join_step(e: Seq<(int, int)>, lab: Seq<usize>, lab2: Seq<usize>, a: int, b: int)
    requires
        0 <= a < lab.len(),
        0 <= b < lab.len(),
        labels_join(e, lab),
        labels_agree(e, lab),
        relabeled(lab, lab2, a, b),
    ensures
        labels_join(e.push((a, b)), lab2),
        labels_agree(e.push((a, b)), lab2),
{
    let e2 = e.push((a, b));
    assert(lab2[a] == lab[a]);
    assert(lab2[b] == lab[a]);
    assert forall|k: int| 0 <= k < e2.len() implies 0 <= (#[trigger] e2[k]).0 < lab2.len() && 0 <= e2[k].1 < lab2.len()
        && lab2[e2[k].0] == lab2[e2[k].1] by {
        if k < e.len() {
            assert(e2[k] == e[k]);
            assert(lab[e[k].0] == lab[e[k].1]);
            assert(lab2[e[k].0] == (if lab[e[k].0] == lab[b] { lab[a] } else { lab[e[k].0] }));
            assert(lab2[e[k].1] == (if lab[e[k].1] == lab[b] { lab[a] } else { lab[e[k].1] }));
        }
    }
    assert(adjacent(e2, a, b)) by {
        assert(e2[e.len() as int] == (a, b));
    }
    assert forall|x: int, y: int|
        0 <= x < lab2.len() && 0 <= y < lab2.len() && #[trigger] lab2[x] == #[trigger] lab2[y] implies joined(e2, x, y) by {
        assert(lab2[x] == (if lab[x] == lab[b] { lab[a] } else { lab[x] }));
        assert(lab2[y] == (if lab[y] == lab[b] { lab[a] } else { lab[y] }));
        lemma_path_pair(e2, a, b);
        lemma_path_pair(e2, b, a);
        assert(adjacent(e2, b, a));
        if lab[x] == lab[y] {
            lemma_joined_grow(e, x, y, (a, b));
        } else if lab[y] == lab[b] {
            // x has a's label, y has b's: x ~ a - b ~ y.
            assert(lab[x] == lab[a]);
            lemma_joined_grow(e, x, a, (a, b));
            lemma_joined_grow(e, b, y, (a, b));
            assert(joined(e2, a, b)) by {
                assert(is_path(e2, seq![a, b]));
            }
            lemma_joined_concat(e2, x, a, b);
            lemma_joined_concat(e2, x, b, y);
        } else {
            // x has b's label, y has a's: x ~ b - a ~ y.
            assert(lab[x] == lab[b]);
            assert(lab[y] == lab[a]);
            lemma_joined_grow(e, x, b, (a, b));
            lemma_joined_grow(e, a, y, (a, b));
            assert(joined(e2, b, a)) by {
                assert(is_path(e2, seq![b, a]));
            }
            lemma_joined_concat(e2, x, b, a);
            lemma_joined_concat(e2, x, a, y);
        }
    }
}

/// With no pairs, each number has a label of its own.
pub(crate) proof fn lemma_labels_start(lab: Seq<usize>)
    requires
        forall|k: int| 0 <= k < lab.len() ==> #[trigger] lab[k] == k,
    ensures
        labels_join(Seq::empty(), lab),
        labels_agree(Seq::empty(), lab),
{
    assert forall|x: int, y: int|
        0 <= x < lab.len() && 0 <= y < lab.len() && #[trigger] lab[x] == #[trigger] lab[y] implies joined(Seq::<(int, int)>::empty(), x, y) by {
        lemma_path_one(Seq::empty(), x);
        assert(is_path(Seq::<(int, int)>::empty(), seq![x]));
    }
}

// ---------------------------------------------------------------------------
// From numbered pairs back to the graph.

/// The pair `t` stands for an edge from its first vertex to its second, both
/// listed.
pub open spec fn pair_ok(nb: spec_fn(VertexId) -> Seq<VertexId>, vs: Seq<VertexId>, ds: Seq<VertexId>, t: (int, int)) -> bool {
    &&& 0 <= t.0 < ds.len()
    &&& 0 <= t.1 < ds.len()
    &&& vs.contains(ds[t.0])
    &&& vs.contains(ds[t.1])
    &&& nb(ds[t.0]).contains(ds[t.1])
}

/// Some pair stands for the edge from `a` to `b`.
pub open spec fn covered(e: Seq<(int, int)>, ds: Seq<VertexId>, a: VertexId, b: VertexId) -> bool {
    exists|k: int| 0 <= k < e.len() && #[trigger] ds[e[k].0] == a && ds[e[k].1] == b
}

/// A path along pairs that stand for edges is a walk.
proof fn lemma_path_to_walk(nb: spec_fn(VertexId) -> Seq<VertexId>, vs: Seq<VertexId>, ds: Seq<VertexId>, e: Seq<(int, int)>, p: Seq<int>)
    requires
        is_path(e, p),
        0 <= p[0] < ds.len(),
        vs.contains(ds[p[0]]),
        forall|k: int| 0 <= k < e.len() ==> pair_ok(nb, vs, ds, #[trigger] e[k]),
    ensures
        is_walk(nb, vs, p.map_values(|i: int| ds[i])),
{
    let w = p.map_values(|i: int| ds[i]);
    assert forall|k: int| 0 <= k < w.len() - 1 implies #[trigger] walk_step(nb, vs, w, k) by {
        assert(path_step(e, p, k));
        if e.contains((p[k], p[k + 1])) {
            let i = choose|i: int| 0 <= i < e.len() && e[i] == (p[k], p[k + 1]);
            assert(pair_ok(nb, vs, ds, e[i]));
        } else {
            let i = choose|i: int| 0 <= i < e.len() && e[i] == (p[k + 1], p[k]);
            assert(pair_ok(nb, vs, ds, e[i]));
        }
    }
}

/// The number of a listed vertex in the duplicate-free list.
pub open spec fn number_of(ds: Seq<VertexId>, v: VertexId) -> int {
    choose|i: int| 0 <= i < ds.len() && ds[i] == v
}

/// A walk is a path along pairs where every edge between listed vertices has
/// a pair.
proof fn lemma_walk_to_path(nb: spec_fn(VertexId) -> Seq<VertexId>, vs: Seq<VertexId>, ds: Seq<VertexId>, e: Seq<(int, int)>, w: Seq<VertexId>)
    requires
        is_walk(nb, vs, w),
        ds.no_duplicates(),
        forall|v: VertexId| #[trigger] vs.contains(v) ==> ds.contains(v),
        forall|k: int| 0 <= k < e.len() ==> pair_ok(nb, vs, ds, #[trigger] e[k]),
        forall|a: VertexId, b: VertexId| vs.contains(a) && vs.contains(b) && #[trigger] nb(a).contains(b) ==> covered(e, ds, a, b),
    ensures
        is_path(e, w.map_values(|v: VertexId| number_of(ds, v))),
        0 <= number_of(ds, w[0]) < ds.len(),
        ds[number_of(ds, w[0])] == w[0],
        0 <= number_of(ds, w.last()) < ds.len(),
        ds[number_of(ds, w.last())] == w.last(),
{
    let p = w.map_values(|v: VertexId| number_of(ds, v));
    assert(vs.contains(w[0]));
    assert forall|k: int| 0 <= k < w.len() implies vs.contains(#[trigger] w[k]) by {
        if k > 0 {
            assert(walk_step(nb, vs, w, k - 1));
        }
    }
    assert forall|k: int| 0 <= k < w.len() implies 0 <= #[trigger] number_of(ds, w[k]) < ds.len() && ds[number_of(ds, w[k])] == w[k] by {
        assert(vs.contains(w[k]));
        assert(ds.contains(w[k]));
    }
    assert forall|k: int| 0 <= k < p.len() - 1 implies #[trigger] path_step(e, p, k) by {
        assert(walk_step(nb, vs, w, k));
        let a = w[k];
        let b = w[k + 1];
        let x = number_of(ds, a);
        let y = number_of(ds, b);
        assert(ds[x] == a && ds[y] == b);
        assert(p[k] == x && p[k + 1] == y);
        if nb(a).contains(b) {
            assert(covered(e, ds, a, b));
            let i = choose|i: int| 0 <= i < e.len() && #[trigger] ds[e[i].0] == a && ds[e[i].1] == b;
            assert(pair_ok(nb, vs, ds, e[i]));
            assert(e[i].0 == x) by {
                assert(ds[e[i].0] == ds[x]);
            }
            assert(e[i].1 == y) by {
                assert(ds[e[i].1] == ds[y]);
            }
            assert(e.contains((x, y))) by {
                assert(e[i] == (x, y));
            }
        } else {
            assert(nb(b).contains(a));
            assert(covered(e, ds, b, a));
            let i = choose|i: int| 0 <= i < e.len() && #[trigger] ds[e[i].0] == b && ds[e[i].1] == a;
            assert(pair_ok(nb, vs, ds, e[i]));
            assert(e[i].0 == y) by {
                assert(ds[e[i].0] == ds[y]);
            }
            assert(e[i].1 == x) by {
                assert(ds[e[i].1] == ds[x]);
            }
            assert(e.contains((y, x))) by {
                assert(e[i] == (y, x));
            }
        }
    }
}

/// Once every edge between listed vertices has a pair, two numbers share a
/// label exactly when their vertices reach each other.
pub(crate) proof fn lemma_labels_reach(
    nb: spec_fn(VertexId) -> Seq<VertexId>,
    vs: Seq<VertexId>,
    ds: Seq<VertexId>,
    e: Seq<(int, int)>,
    lab: Seq<usize>,
    x: int,
    y: int,
)
    requires
        ds.no_duplicates(),
        lab.len() == ds.len(),
        forall|v: VertexId| #[trigger] vs.contains(v) <==> ds.contains(v),
        forall|k: int| 0 <= k < e.len() ==> pair_ok(nb, vs, ds, #[trigger] e[k]),
        forall|a: VertexId, b: VertexId| vs.contains(a) && vs.contains(b) && #[trigger] nb(a).contains(b) ==> covered(e, ds, a, b),
        labels_join(e, lab),
        labels_agree(e, lab),
        0 <= x < ds.len(),
        0 <= y < ds.len(),
    ensures
        lab[x] == lab[y] <==> reachable(nb, vs, ds[x], ds[y]),
{
    assert(vs.contains(ds[x])) by {
        assert(ds.contains(ds[x]));
    }
    if lab[x] == lab[y] {
        assert(joined(e, x, y));
        let p = choose|p: Seq<int>| #[trigger] is_path(e, p) && p[0] == x && p.last() == y;
        lemma_path_to_walk(nb, vs, ds, e, p);
        let w = p.map_values(|i: int| ds[i]);
        assert(w[0] == ds[x]);
        assert(w.last() == ds[y]);
        assert(is_walk(nb, vs, w));
    }
    if reachable(nb, vs, ds[x], ds[y]) {
        let w = choose|w: Seq<VertexId>| #[trigger] is_walk(nb, vs, w) && w[0] == ds[x] && w.last() == ds[y];
        lemma_walk_to_path(nb, vs, ds, e, w);
        let p = w.map_values(|v: VertexId| number_of(ds, v));
        let x2 = number_of(ds, w[0]);
        let y2 = number_of(ds, w.last());
        assert(x2 == x) by {
            assert(ds[x2] == ds[x]);
        }
        assert(y2 == y) by {
            assert(ds[y2] == ds[y]);
        }
        lemma_path_same_label(e, lab, p);
    }
}

// ---------------------------------------------------------------------------
// Grouping by label.

/// Some vertex is numbered with label `l`.
pub open spec fn label_used(ds: Seq<VertexId>, lab: Seq<usize>, l: usize) -> bool {
    exists|x: int| 0 <= x < ds.len() && lab[x] == l
}

/// The vertices numbered with label `l`, in order.
pub open spec fn members(ds: Seq<VertexId>, lab: Seq<usize>, l: usize) -> Seq<VertexId>
    decreases ds.len(),
{
    if ds.len() == 0 {
        Seq::empty()
    } else {
        let rest = members(ds.drop_last(), lab, l);
        if lab[ds.len() - 1] == l {
            rest.push(ds.last())
        } else {
            rest
        }
    }
}

proof fn lemma_members(ds: Seq<VertexId>, lab: Seq<usize>, l: usize)
    requires
        ds.no_duplicates(),
        lab.len() >= ds.len(),
    ensures
        members(ds, lab, l).no_duplicates(),
        forall|v: VertexId|
            #[trigger] members(ds, lab, l).contains(v) <==> exists|x: int| 0 <= x < ds.len() && ds[x] == v && lab[x] == l,
    decreases ds.len(),
{
    if ds.len() > 0 {
        let d = ds.drop_last();
        assert(d.no_duplicates());
        lemma_members(d, lab, l);
        let rest = members(d, lab, l);
        let n = ds.len() - 1;
        assert forall|v: VertexId|
            #[trigger] members(ds, lab, l).contains(v) <==> exists|x: int| 0 <= x < ds.len() && ds[x] == v && lab[x] == l by {
            if members(ds, lab, l).contains(v) {
                if lab[n] == l && v == ds[n] {
                    assert(0 <= n < ds.len() && ds[n] == v && lab[n] == l);
                } else {
                    if lab[n] == l {
                        let i = choose|i: int| 0 <= i < rest.push(ds[n]).len() && rest.push(ds[n])[i] == v;
                        assert(i < rest.len());
                        assert(rest[i] == v);
                    }
                    assert(rest.contains(v));
                    let x = choose|x: int| 0 <= x < d.len() && d[x] == v && lab[x] == l;
                    assert(ds[x] == v);
                }
            }
            if exists|x: int| 0 <= x < ds.len() && ds[x] == v && lab[x] == l {
                let x = choose|x: int| 0 <= x < ds.len() && ds[x] == v && lab[x] == l;
                if x == n {
                    assert(rest.push(ds[n])[rest.len() as int] == v);
                } else {
                    assert(d[x] == v);
                    assert(rest.contains(v));
                    let i = choose|i: int| 0 <= i < rest.len() && rest[i] == v;
                    if lab[n] == l {
                        assert(rest.push(ds[n])[i] == v);
                    }
                }
            }
        }
        if lab[n] == l {
            assert(!rest.contains(ds[n])) by {
                if rest.contains(ds[n]) {
                    let x = choose|x: int| 0 <= x < d.len() && d[x] == ds[n] && lab[x] == l;
                    assert(ds[x] == ds[n]);
                }
            }
            let r2 = rest.push(ds[n]);
            assert forall|i: int, j: int| 0 <= i < r2.len() && 0 <= j < r2.len() && i != j implies r2[i] != r2[j] by {
                if i < rest.len() && j < rest.len() {
                } else if i < rest.len() {
                    assert(rest.contains(r2[i]));
                } else {
                    assert(rest.contains(r2[j]));
                }
            }
        }
    }
}

/// The vertices numbered with label `l`, in order.
fn members_exec(ds: &Vec<VertexId>, lab: &Vec<usize>, l: usize) -> (r: Vec<VertexId>)
    requires
        lab@.len() == ds@.len(),
    ensures
        r@ == members(ds@, lab@, l),
{
    let mut r: Vec<VertexId> = Vec::new();
    let mut x: usize = 0;
    while x < ds.len()
        invariant
            x <= ds@.len(),
            lab@.len() == ds@.len(),
            r@ == members(ds@.take(x as int), lab@, l),
        decreases ds@.len() - x,
    {
        proof {
            let t = ds@.take(x + 1);
            assert(t.drop_last() =~= ds@.take(x as int));
            assert(t.last() == ds@[x as int]);
        }
        if lab[x] == l {
            r.push(ds[x]);
        }
        x = x + 1;
    }
    proof {
        assert(ds@.take(ds@.len() as int) =~= ds@);
    }
    r
}

/// Whether `v` holds `l`.
fn has_label(v: &Vec<usize>, l: usize) -> (r: bool)
    ensures
        r == v@.contains(l),
{
    let mut i: usize = 0;
    while i < v.len()
        invariant
            i <= v@.len(),
            forall|j: int| 0 <= j < i ==> v@[j] != l,
        decreases v@.len() - i,
    {
        if v[i] == l {
            return true;
        }
        i = i + 1;
    }
    false
}

/// The vertices grouped by label: one group for each label, in the order
/// the labels first occur, with the label of each group.
pub(crate) fn group_by_label(ds: &Vec<VertexId>, lab: &Vec<usize>) -> (r: (Vec<Vec<VertexId>>, Vec<usize>))
    requires
        lab@.len() == ds@.len(),
    ensures
        r.0@.len() == r.1@.len(),
        r.1@.no_duplicates(),
        forall|j: int| 0 <= j < r.0@.len() ==> (#[trigger] r.0@[j])@ == members(ds@, lab@, r.1@[j]),
        forall|j: int| 0 <= j < r.1@.len() ==> label_used(ds@, lab@, #[trigger] r.1@[j]),
        forall|x: int| 0 <= x < ds@.len() ==> r.1@.contains(#[trigger] lab@[x]),
{
    let mut groups: Vec<Vec<VertexId>> = Vec::new();
    let mut reps: Vec<usize> = Vec::new();
    let mut k: usize = 0;
    while k < ds.len()
        invariant
            k <= ds@.len(),
            lab@.len() == ds@.len(),
            groups@.len() == reps@.len(),
            reps@.no_duplicates(),
            forall|j: int| 0 <= j < groups@.len() ==> (#[trigger] groups@[j])@ == members(ds@, lab@, reps@[j]),
            forall|j: int| 0 <= j < reps@.len() ==> label_used(ds@, lab@, #[trigger] reps@[j]),
            forall|x: int| 0 <= x < k ==> reps@.contains(#[trigger] lab@[x]),
        decreases ds@.len() - k,
    {
        let l = lab[k];
        if !has_label(&reps, l) {
            let g = members_exec(ds, lab, l);
            let ghost old_reps = reps@;
            let ghost old_groups = groups@;
            groups.push(g);
            reps.push(l);
            proof {
                assert forall|j: int| 0 <= j < groups@.len() implies (#[trigger] groups@[j])@ == members(ds@, lab@, reps@[j]) by {
                    if j < old_groups.len() {
                        assert(groups@[j] == old_groups[j]);
                        assert(reps@[j] == old_reps[j]);
                    }
                }
                assert forall|j: int| 0 <= j < reps@.len() implies label_used(ds@, lab@, #[trigger] reps@[j]) by {
                    if j < old_reps.len() {
                        assert(reps@[j] == old_reps[j]);
                    } else {
                        assert(lab@[k as int] == reps@[j]);
                    }
                }
                assert forall|x: int| 0 <= x < k + 1 implies reps@.contains(#[trigger] lab@[x]) by {
                    if x < k {
                        assert(old_reps.contains(lab@[x]));
                        let i = choose|i: int| 0 <= i < old_reps.len() && old_reps[i] == lab@[x];
                        assert(reps@[i] == lab@[x]);
                    } else {
                        assert(reps@[old_reps.len() as int] == lab@[x]);
                    }
                }
                assert forall|i: int, j: int| 0 <= i < reps@.len() && 0 <= j < reps@.len() && i != j implies reps@[i] != reps@[j] by {
                    if i < old_reps.len() && j < old_reps.len() {
                        assert(reps@[i] == old_reps[i] && reps@[j] == old_reps[j]);
                    } else if i < old_reps.len() {
                        assert(reps@[i] == old_reps[i]);
                        assert(old_reps.contains(reps@[i]));
                    } else {
                        assert(reps@[j] == old_reps[j]);
                        assert(old_reps.contains(reps@[j]));
                    }
                }
            }
        }
        k = k + 1;
    }
    (groups, reps)
}

/// Labels grouped into components: given labels that agree exactly with
/// reachability, the groups are the components.
pub(crate) proof fn lemma_groups_are_components(
    nb: spec_fn(VertexId) -> Seq<VertexId>,
    vs: Seq<VertexId>,
    ds: Seq<VertexId>,
    lab: Seq<usize>,
    groups: Seq<Vec<VertexId>>,
    reps: Seq<usize>,
)
    requires
        ds.no_duplicates(),
        lab.len() == ds.len(),
        forall|v: VertexId| #[trigger] vs.contains(v) <==> ds.contains(v),
        forall|x: int, y: int|
            0 <= x < ds.len() && 0 <= y < ds.len() ==> (#[trigger] lab[x] == #[trigger] lab[y] <==> reachable(nb, vs, ds[x], ds[y])),
        groups.len() == reps.len(),
        reps.no_duplicates(),
        forall|j: int| 0 <= j < groups.len() ==> (#[trigger] groups[j])@ == members(ds, lab, reps[j]),
        forall|j: int| 0 <= j < reps.len() ==> label_used(ds, lab, #[trigger] reps[j]),
        forall|x: int| 0 <= x < ds.len() ==> reps.contains(#[trigger] lab[x]),
    ensures
        is_components(nb, vs, comp_views(groups)),
{
    let comps = comp_views(groups);
    assert forall|j: int| 0 <= j < comps.len() implies #[trigger] comps[j] == members(ds, lab, reps[j]) by {
    }
    assert forall|j: int| #![trigger comps[j]] 0 <= j < comps.len() implies
        forall|v: VertexId| #[trigger] comps[j].contains(v) <==> exists|x: int| 0 <= x < ds.len() && ds[x] == v && lab[x] == reps[j] by {
        lemma_members(ds, lab, reps[j]);
        assert(comps[j] == members(ds, lab, reps[j]));
    }
    assert forall|i: int| 0 <= i < comps.len() implies (#[trigger] comps[i]).len() > 0 && comps[i].no_duplicates() by {
        lemma_members(ds, lab, reps[i]);
        assert(comps[i] == members(ds, lab, reps[i]));
        let x = choose|x: int| 0 <= x < ds.len() && lab[x] == reps[i];
        assert(comps[i].contains(ds[x]));
    }
    assert forall|i: int, k: int| 0 <= i < comps.len() && 0 <= k < comps[i].len() implies vs.contains(#[trigger] comps[i][k]) by {
        let v = comps[i][k];
        assert(comps[i].contains(v));
        let x = choose|x: int| 0 <= x < ds.len() && ds[x] == v && lab[x] == reps[i];
        assert(ds.contains(v));
    }
    assert forall|v: VertexId| vs.contains(v) implies exists|i: int| 0 <= i < comps.len() && (#[trigger] comps[i]).contains(v) by {
        assert(ds.contains(v));
        let x = choose|x: int| 0 <= x < ds.len() && ds[x] == v;
        assert(reps.contains(lab[x]));
        let j = choose|j: int| 0 <= j < reps.len() && reps[j] == lab[x];
        assert(comps[j].contains(v));
    }
    assert forall|i: int, j: int, u: VertexId, v: VertexId|
        #![trigger comps[i].contains(u), comps[j].contains(v)]
        0 <= i < comps.len() && 0 <= j < comps.len() && comps[i].contains(u) && comps[j].contains(v)
        implies (i == j <==> reachable(nb, vs, u, v)) by {
        let x = choose|x: int| 0 <= x < ds.len() && ds[x] == u && lab[x] == reps[i];
        let y = choose|y: int| 0 <= y < ds.len() && ds[y] == v && lab[y] == reps[j];
        assert(lab[x] == lab[y] <==> reachable(nb, vs, ds[x], ds[y]));
        if i != j {
            assert(reps[i] != reps[j]);
        }
    }
}

// ---------------------------------------------------------------------------
// Executable pieces.

/// The listed vertices, each once, in the order they first occur.
pub(crate) fn distinct_vertices(vs: &Vec<VertexId>) -> (r: Vec<VertexId>)
    ensures
        r@.no_duplicates(),
        forall|v: VertexId| #[trigger] vs@.contains(v) <==> r@.contains(v),
{
    let mut r: Vec<VertexId> = Vec::new();
    let mut i: usize = 0;
    while i < vs.len()
        invariant
            i <= vs@.len(),
            r@.no_duplicates(),
            forall|v: VertexId| #[trigger] r@.contains(v) <==> vs@.take(i as int).contains(v),
        decreases vs@.len() - i,
    {
        let x = vs[i];
        let ghost before = r@;
        let mut found = false;
        let mut j: usize = 0;
        while j < r.len()
            invariant
                j <= r@.len(),
                found <==> r@.take(j as int).contains(x),
            decreases r@.len() - j,
        {
            proof {
                let t1 = r@.take(j + 1);
                let t0 = r@.take(j as int);
                if t1.contains(x) {
                    let k = choose|k: int| 0 <= k < t1.len() && t1[k] == x;
                    if k < j {
                        assert(t0[k] == x);
                    }
                }
                if t0.contains(x) {
                    let k = choose|k: int| 0 <= k < t0.len() && t0[k] == x;
                    assert(t1[k] == x);
                }
                if r@[j as int] == x {
                    assert(t1[j as int] == x);
                }
            }
            if r[j] == x {
                found = true;
            }
            j = j + 1;
        }
        proof {
            assert(r@.take(r@.len() as int) =~= r@);
            let t = vs@.take(i + 1);
            assert(t.drop_last() =~= vs@.take(i as int));
            assert forall|v: VertexId| t.contains(v) <==> (vs@.take(i as int).contains(v) || v == x) by {
                if t.contains(v) {
                    let k = choose|k: int| 0 <= k < t.len() && t[k] == v;
                    if k < i {
                        assert(vs@.take(i as int)[k] == v);
                    }
                }
                if vs@.take(i as int).contains(v) {
                    let k = choose|k: int| 0 <= k < i && vs@.take(i as int)[k] == v;
                    assert(t[k] == v);
                }
                if v == x {
                    assert(t[i as int] == v);
                }
            }
        }
        if !found {
            r.push(x);
            proof {
                assert forall|v: VertexId| r@.contains(v) <==> (before.contains(v) || v == x) by {
                    if r@.contains(v) {
                        let k = choose|k: int| 0 <= k < r@.len() && r@[k] == v;
                        if k < before.len() {
                            assert(before[k] == v);
                        }
                    }
                    if before.contains(v) {
                        let k = choose|k: int| 0 <= k < before.len() && before[k] == v;
                        assert(r@[k] == v);
                    }
                    if v == x {
                        assert(r@[r@.len() - 1] == v);
                    }
                }
                assert forall|a: int, b: int| 0 <= a < r@.len() && 0 <= b < r@.len() && a != b implies r@[a] != r@[b] by {
                    if a < before.len() && b < before.len() {
                        assert(r@[a] == before[a] && r@[b] == before[b]);
                    } else if a < before.len() {
                        assert(before.contains(r@[a]));
                    } else {
                        assert(before.contains(r@[b]));
                    }
                }
            }
        }
        proof {
            let t = vs@.take(i + 1);
            assert forall|v: VertexId| #[trigger] r@.contains(v) <==> t.contains(v) by {
                assert(t.contains(v) <==> (vs@.take(i as int).contains(v) || v == x));
                assert(before.contains(v) <==> vs@.take(i as int).contains(v));
            }
        }
        i = i + 1;
    }
    proof {
        assert(vs@.take(vs@.len() as int) =~= vs@);
    }
    r
}

/// The place of `v` in `ds`.
pub(crate) fn number_in(ds: &Vec<VertexId>, v: VertexId) -> (r: usize)
    requires
        ds@.contains(v),
    ensures
        r < ds@.len(),
        ds@[r as int] == v,
{
    let mut i: usize = 0;
    while i < ds.len()
        invariant
            i <= ds@.len(),
            ds@.contains(v),
            forall|j: int| 0 <= j < i ==> ds@[j] != v,
        decreases ds@.len() - i,
    {
        if ds[i] == v {
            return i;
        }
        i = i + 1;
    }
    proof {
        let k = choose|k: int| 0 <= k < ds@.len() && ds@[k] == v;
        assert(ds@[k] != v);
    }
    0
}

/// Gives every vertex labeled `from` the label `to`.
fn relabel(lab: &mut Vec<usize>, from: usize, to: usize)
    ensures
        final(lab)@.len() == old(lab)@.len(),
        forall|k: int| 0 <= k < old(lab)@.len() ==> #[trigger] final(lab)@[k] == (if old(lab)@[k] == from { to } else { old(lab)@[k] }),
{
    let ghost orig = lab@;
    let mut k: usize = 0;
    while k < lab.len()
        invariant
            k <= lab@.len(),
            lab@.len() == orig.len(),
            forall|j: int| 0 <= j < k ==> #[trigger] lab@[j] == (if orig[j] == from { to } else { orig[j] }),
            forall|j: int| k <= j < lab@.len() ==> #[trigger] lab@[j] == orig[j],
        decreases lab@.len() - k,
    {
        if lab[k] == from {
            lab.set(k, to);
        }
        k = k + 1;
    }
}

/// The state of a component search: the distinct vertices, their labels and
/// the pairs joined so far.
pub open spec fn search_state(
    nb: spec_fn(VertexId) -> Seq<VertexId>,
    vs: Seq<VertexId>,
    ds: Seq<VertexId>,
    lab: Seq<usize>,
    e: Seq<(int, int)>,
) -> bool {
    &&& ds.no_duplicates()
    &&& lab.len() == ds.len()
    &&& forall|v: VertexId| #[trigger] vs.contains(v) <==> ds.contains(v)
    &&& forall|k: int| 0 <= k < e.len() ==> pair_ok(nb, vs, ds, #[trigger] e[k])
    &&& labels_join(e, lab)
    &&& labels_agree(e, lab)
}

/// Joins the vertices numbered `a` and `b`.
pub(crate) fn join(lab: &mut Vec<usize>, a: usize, b: usize, Ghost(nb): Ghost<spec_fn(VertexId) -> Seq<VertexId>>, Ghost(vs): Ghost<Seq<VertexId>>, Ghost(ds): Ghost<Seq<VertexId>>, Ghost(e): Ghost<Seq<(int, int)>>)
    requires
        search_state(nb, vs, ds, old(lab)@, e),
        a < ds.len(),
        b < ds.len(),
        pair_ok(nb, vs, ds, (a as int, b as int)),
    ensures
        search_state(nb, vs, ds, final(lab)@, e.push((a as int, b as int))),
{
    let la = lab[a];
    let lb = lab[b];
    let ghost before = lab@;
    if la != lb {
        relabel(lab, lb, la);
    }
    proof {
        assert(relabeled(before, lab@, a as int, b as int));
        lemma_join_step(e, before, lab@, a as int, b as int);
        let e2 = e.push((a as int, b as int));
        assert forall|k: int| 0 <= k < e2.len() implies pair_ok(nb, vs, ds, #[trigger] e2[k]) by {
            if k < e.len() {
                assert(e2[k] == e[k]);
            }
        }
    }
}

/// Numbers each distinct vertex with a label of its own.
pub(crate) fn own_labels(n: usize) -> (r: Vec<usize>)
    ensures
        r@.len() == n,
        forall|k: int| 0 <= k < n ==> #[trigger] r@[k] == k,
{
    let mut r: Vec<usize> = Vec::new();
    let mut k: usize = 0;
    while k < n
        invariant
            k <= n,
            r@.len() == k,
            forall|j: int| 0 <= j < k ==> #[trigger] r@[j] == j,
        decreases n - k,
    {
        r.push(k);
        k = k + 1;
    }
    r
}

} // verus!
