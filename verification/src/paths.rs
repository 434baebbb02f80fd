//! Shortest routes along edges, where every edge counts one.
//!
//! A breadth-first search numbers the vertices it finds in the order found,
//! each with its distance from the start and the number of the vertex it was
//! found from. Distances never decrease along that order, and the vertices
//! already expanded have all their neighbours found, at most one further
//! away; from this, the route back along the found-from numbers is a
//! shortest one.
use crate::types::VertexId;
use vstd::prelude::*;

verus! {

/// The `k`th step of `p` follows an edge.
pub open spec fn route_step(nb: spec_fn(VertexId) -> Seq<VertexId>, p: Seq<VertexId>, k: int) -> bool {
    nb(p[k]).contains(p[k + 1])
}

/// A route along edges.
pub open spec fn is_route(nb: spec_fn(VertexId) -> Seq<VertexId>, p: Seq<VertexId>) -> bool {
    &&& p.len() >= 1
    &&& forall|k: int| 0 <= k < p.len() - 1 ==> #[trigger] route_step(nb, p, k)
}

/// Some route leads from `s` to `t`.
pub open spec fn reaches(nb: spec_fn(VertexId) -> Seq<VertexId>, s: VertexId, t: VertexId) -> bool {
    exists|q: Seq<VertexId>| #[trigger] is_route(nb, q) && q[0] == s && q.last() == t
}

/// `p` is a route from `s` to `t` and no route from `s` to `t` is shorter.
pub open spec fn is_shortest(nb: spec_fn(VertexId) -> Seq<VertexId>, p: Seq<VertexId>, s: VertexId, t: VertexId) -> bool {
    &&& is_route(nb, p)
    &&& p[0] == s
    &&& p.last() == t
    &&& forall|q: Seq<VertexId>| #[trigger] is_route(nb, q) && q[0] == s && q.last() == t ==> p.len() <= q.len()
}

/// The search so far: vertices `w` found in order, the first being `s`,
/// each once, with distances `d` that never decrease, each found from an
/// earlier one (`par`) one step closer.
pub open spec fn search_tree(
    nb: spec_fn(VertexId) -> Seq<VertexId>,
    s: VertexId,
    w: Seq<VertexId>,
    d: Seq<usize>,
    par: Seq<usize>,
) -> bool {
    &&& w.len() >= 1
    &&& w[0] == s
    &&& d.len() == w.len()
    &&& par.len() == w.len()
    &&& d[0] == 0
    &&& w.no_duplicates()
    &&& forall|i: int|
        1 <= i < w.len() ==> (#[trigger] par[i]) < i && d[i] == d[par[i] as int] + 1 && nb(w[par[i] as int]).contains(w[i])
    &&& forall|i: int, j: int| 0 <= i <= j < w.len() ==> #[trigger] d[i] <= #[trigger] d[j]
}

/// The first `h` vertices are expanded: each of their neighbours is found,
/// at most one step further away.
pub open spec fn expanded(nb: spec_fn(VertexId) -> Seq<VertexId>, w: Seq<VertexId>, d: Seq<usize>, h: int) -> bool {
    forall|i: int, y: VertexId|
        0 <= i < h && #[trigger] nb(w[i]).contains(y) ==> exists|j: int| 0 <= j < w.len() && w[j] == y && d[j] <= d[i] + 1
}

/// Found at distance at most `k`.
pub open spec fn found_within(w: Seq<VertexId>, d: Seq<usize>, v: VertexId, k: int) -> bool {
    exists|j: int| 0 <= j < w.len() && w[j] == v && d[j] <= k
}

/// Along a route from the start, the `k`th vertex is found at distance at
/// most `k`, as long as every vertex found closer than `bound` is expanded
/// and `k` is at most `bound`.
pub proof fn lemma_route_found(
    nb: spec_fn(VertexId) -> Seq<VertexId>,
    s: VertexId,
    w: Seq<VertexId>,
    d: Seq<usize>,
    par: Seq<usize>,
    h: int,
    bound: int,
    q: Seq<VertexId>,
    k: int,
)
    requires
        search_tree(nb, s, w, d, par),
        0 <= h <= w.len(),
        expanded(nb, w, d, h),
        forall|i: int| 0 <= i < w.len() && #[trigger] d[i] < bound ==> i < h,
        is_route(nb, q),
        q[0] == s,
        0 <= k < q.len(),
        k <= bound,
    ensures
        found_within(w, d, q[k], k),
    decreases k,
{
    if k == 0 {
        assert(w[0] == q[0] && d[0] <= 0);
    } else {
        lemma_route_found(nb, s, w, d, par, h, bound, q, k - 1);
        let j = choose|j: int| 0 <= j < w.len() && w[j] == q[k - 1] && d[j] <= k - 1;
        assert(d[j] < bound);
        assert(j < h);
        assert(route_step(nb, q, k - 1));
        assert(nb(w[j]).contains(q[k]));
        let j2 = choose|j2: int| 0 <= j2 < w.len() && w[j2] == q[k] && d[j2] <= d[j] + 1;
        assert(w[j2] == q[k] && d[j2] <= k);
    }
}

/// Every vertex found is reached from the start, along the found-from
/// numbers.
pub proof fn lemma_found_reached(
    nb: spec_fn(VertexId) -> Seq<VertexId>,
    s: VertexId,
    w: Seq<VertexId>,
    d: Seq<usize>,
    par: Seq<usize>,
    i: int,
)
    requires
        search_tree(nb, s, w, d, par),
        0 <= i < w.len(),
    ensures
        reaches(nb, s, w[i]),
    decreases i,
{
    if i == 0 {
        let q = seq![s];
        assert(is_route(nb, q));
    } else {
        let p = par[i] as int;
        assert(p < i);
        lemma_found_reached(nb, s, w, d, par, p);
        let q = choose|q: Seq<VertexId>| #[trigger] is_route(nb, q) && q[0] == s && q.last() == w[p];
        let q2 = q.push(w[i]);
        assert forall|k: int| 0 <= k < q2.len() - 1 implies #[trigger] route_step(nb, q2, k) by {
            if k < q.len() - 1 {
                assert(route_step(nb, q, k));
                assert(q2[k] == q[k] && q2[k + 1] == q[k + 1]);
            } else {
                assert(q2[k] == w[p] && q2[k + 1] == w[i]);
            }
        }
        assert(is_route(nb, q2) && q2[0] == s && q2.last() == w[i]);
    }
}

/// Growing the list of found vertices keeps the expanded ones expanded.
pub proof fn lemma_expanded_grow(nb: spec_fn(VertexId) -> Seq<VertexId>, w: Seq<VertexId>, d: Seq<usize>, h: int, y: VertexId, dy: usize)
    requires
        expanded(nb, w, d, h),
        d.len() == w.len(),
        h <= w.len(),
    ensures
        expanded(nb, w.push(y), d.push(dy), h),
{
    let w2 = w.push(y);
    let d2 = d.push(dy);
    assert forall|i: int, z: VertexId| 0 <= i < h && #[trigger] nb(w2[i]).contains(z) implies exists|j: int|
        0 <= j < w2.len() && w2[j] == z && d2[j] <= d2[i] + 1 by {
        assert(w2[i] == w[i] && d2[i] == d[i]);
        assert(nb(w[i]).contains(z));
        let j = choose|j: int| 0 <= j < w.len() && w[j] == z && d[j] <= d[i] + 1;
        assert(w2[j] == z && d2[j] == d[j]);
    }
}

/// The route back from the `i`th vertex found, along the found-from numbers.
pub fn route_back(
    w: &Vec<VertexId>,
    par: &Vec<usize>,
    i: usize,
    Ghost(nb): Ghost<spec_fn(VertexId) -> Seq<VertexId>>,
    Ghost(s): Ghost<VertexId>,
    Ghost(d): Ghost<Seq<usize>>,
) -> (r: Vec<VertexId>)
    requires
        search_tree(nb, s, w@, d, par@),
        i < w@.len(),
    ensures
        is_route(nb, r@),
        r@[0] == s,
        r@.last() == w@[i as int],
        r@.len() == d[i as int] + 1,
{
    let mut r: Vec<VertexId> = Vec::new();
    r.push(w[i]);
    let mut cur: usize = i;
    while cur != 0
        invariant
            search_tree(nb, s, w@, d, par@),
            cur < w@.len(),
            i < w@.len(),
            is_route(nb, r@),
            r@[0] == w@[cur as int],
            r@.last() == w@[i as int],
            r@.len() == d[i as int] - d[cur as int] + 1,
            d[cur as int] <= d[i as int],
        decreases cur,
    {
        let p = par[cur];
        let ghost old_r = r@;
        r.insert(0, w[p]);
        proof {
            assert(par@[cur as int] < cur);
            assert(nb(w@[p as int]).contains(w@[cur as int]));
            assert forall|k: int| 0 <= k < r@.len() - 1 implies #[trigger] route_step(nb, r@, k) by {
                if k == 0 {
                    assert(r@[0] == w@[p as int] && r@[1] == old_r[0]);
                } else {
                    assert(route_step(nb, old_r, k - 1));
                    assert(r@[k] == old_r[k - 1] && r@[k + 1] == old_r[k]);
                }
            }
            assert(r@.last() == old_r.last());
        }
        cur = p;
    }
    r
}

} // verus!
