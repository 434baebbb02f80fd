//! Breadth-first traversal over a neighbor lookup.
use crate::error::{AsterError, ErrorKind};
use crate::types::VertexId;
use std::collections::HashSet;
use vstd::prelude::*;

verus! {

broadcast use vstd::std_specs::hash::group_hash_axioms;

/// What a neighbor lookup answered: the neighbors, or the error's kind and text.
pub open spec fn answer_view(r: Result<Vec<VertexId>, AsterError>) -> Result<Seq<VertexId>, (ErrorKind, Seq<char>)> {
    match r {
        Ok(v) => Ok(v@),
        Err(e) => Err((e.spec_kind(), e.spec_text())),
    }
}

/// Appends, in order, the neighbors not seen yet at depth `d`, and marks them
/// seen; a neighbor listed twice is appended once.
pub open spec fn enqueue(queue: Seq<(VertexId, nat)>, seen: Set<u64>, ns: Seq<VertexId>, d: nat) -> (
    Seq<(VertexId, nat)>,
    Set<u64>,
)
    decreases ns.len(),
{
    if ns.len() == 0 {
        (queue, seen)
    } else {
        let qs = enqueue(queue, seen, ns.drop_last(), d);
        let n = ns.last();
        if qs.1.contains(n.id) {
            qs
        } else {
            (qs.0.push((n, d)), qs.1.insert(n.id))
        }
    }
}

/// Breadth-first search from a state (the queue of vertices with their depth,
/// the ids seen, the output so far), where the neighbor lookups answer
/// `answers` in turn. The front vertex is output; where its depth is below
/// `max_depth` its neighbors are looked up and the unseen ones queued one
/// level deeper, and an error of the lookup ends the search with that error.
/// Gives the result and the vertices looked up, in order; `None` where the run
/// does not consume exactly `answers`.
pub open spec fn bfs_run(
    queue: Seq<(VertexId, nat)>,
    seen: Set<u64>,
    out: Seq<VertexId>,
    max_depth: nat,
    answers: Seq<Result<Seq<VertexId>, (ErrorKind, Seq<char>)>>,
) -> Option<(Result<Seq<VertexId>, (ErrorKind, Seq<char>)>, Seq<VertexId>)>
    decreases answers.len(), queue.len(),
{
    if queue.len() == 0 {
        if answers.len() == 0 {
            Some((Ok(out), Seq::empty()))
        } else {
            None
        }
    } else {
        let v = queue[0].0;
        let d = queue[0].1;
        let out2 = out.push(v);
        if d < max_depth {
            if answers.len() == 0 {
                None
            } else {
                match answers[0] {
                    Err(e) => if answers.len() == 1 {
                        Some((Err(e), seq![v]))
                    } else {
                        None
                    },
                    Ok(ns) => {
                        let qs = enqueue(queue.drop_first(), seen, ns, d + 1);
                        match bfs_run(qs.0, qs.1, out2, max_depth, answers.drop_first()) {
                            Some(ra) => Some((ra.0, seq![v] + ra.1)),
                            None => None,
                        }
                    },
                }
            }
        } else {
            bfs_run(queue.drop_first(), seen, out2, max_depth, answers)
        }
    }
}

/// A run's outcome with `asked` put in front of the vertices it looked up.
pub open spec fn after_asked(
    asked: Seq<VertexId>,
    o: Option<(Result<Seq<VertexId>, (ErrorKind, Seq<char>)>, Seq<VertexId>)>,
) -> Option<(Result<Seq<VertexId>, (ErrorKind, Seq<char>)>, Seq<VertexId>)> {
    match o {
        Some(ra) => Some((ra.0, asked + ra.1)),
        None => None,
    }
}

/// The views of the lookups' answers.
pub open spec fn answer_views(answers: Seq<Result<Vec<VertexId>, AsterError>>) -> Seq<
    Result<Seq<VertexId>, (ErrorKind, Seq<char>)>,
> {
    answers.map_values(|a: Result<Vec<VertexId>, AsterError>| answer_view(a))
}

/// `result` is what breadth-first search from `start` to depth `max_depth`
/// gives where the lookups answered `answers`, and each answer is one that
/// `f` can give for the vertex it was asked about.
pub open spec fn bfs_explains<F: Fn(VertexId) -> Result<Vec<VertexId>, AsterError>>(
    f: F,
    start: VertexId,
    max_depth: u32,
    answers: Seq<Result<Vec<VertexId>, AsterError>>,
    result: Result<Seq<VertexId>, (ErrorKind, Seq<char>)>,
) -> bool {
    match bfs_run(seq![(start, 0nat)], set![start.id], Seq::empty(), max_depth as nat, answer_views(answers)) {
        Some(ra) => {
            &&& ra.0 == result
            &&& ra.1.len() == answers.len()
            &&& forall|i: int| 0 <= i < answers.len() ==> call_ensures(f, (ra.1[i],), #[trigger] answers[i])
        },
        None => false,
    }
}

/// The vertices output and the vertices queued, one after the other.
pub open spec fn out_and_queued(out: Seq<VertexId>, queue: Seq<(VertexId, nat)>) -> Seq<VertexId> {
    out + queue.map_values(|p: (VertexId, nat)| p.0)
}

/// No two of the vertices have the same id.
pub open spec fn ids_distinct(s: Seq<VertexId>) -> bool {
    forall|i: int, j: int| 0 <= i < j < s.len() ==> (#[trigger] s[i]).id != (#[trigger] s[j]).id
}

/// A search state in which every vertex output or queued is seen and none is
/// output or queued twice.
pub open spec fn bfs_state_ok(queue: Seq<(VertexId, nat)>, seen: Set<u64>, out: Seq<VertexId>) -> bool {
    &&& ids_distinct(out_and_queued(out, queue))
    &&& forall|i: int| 0 <= i < out_and_queued(out, queue).len() ==> seen.contains(#[trigger] out_and_queued(out, queue)[i].id)
}

proof fn lemma_enqueue_ok(queue: Seq<(VertexId, nat)>, seen: Set<u64>, out: Seq<VertexId>, ns: Seq<VertexId>, d: nat)
    requires
        bfs_state_ok(queue, seen, out),
    ensures
        bfs_state_ok(enqueue(queue, seen, ns, d).0, enqueue(queue, seen, ns, d).1, out),
        enqueue(queue, seen, ns, d).0.len() >= queue.len(),
        enqueue(queue, seen, ns, d).0.take(queue.len() as int) == queue,
    decreases ns.len(),
{
    if ns.len() > 0 {
        lemma_enqueue_ok(queue, seen, out, ns.drop_last(), d);
        let qs = enqueue(queue, seen, ns.drop_last(), d);
        let n = ns.last();
        if !qs.1.contains(n.id) {
            let q2 = qs.0.push((n, d));
            let s2 = qs.1.insert(n.id);
            let c1 = out_and_queued(out, qs.0);
            let c2 = out_and_queued(out, q2);
            assert(c2 =~= c1.push(n));
            assert forall|i: int, j: int| 0 <= i < j < c2.len() implies (#[trigger] c2[i]).id != (#[trigger] c2[j]).id by {
                if j == c1.len() {
                    assert(c2[i] == c1[i]);
                    assert(qs.1.contains(c1[i].id));
                } else {
                    assert(c2[i] == c1[i] && c2[j] == c1[j]);
                }
            }
            assert forall|i: int| 0 <= i < c2.len() implies s2.contains(#[trigger] c2[i].id) by {
                if i < c1.len() {
                    assert(c2[i] == c1[i]);
                }
            }
            assert(q2.take(queue.len() as int) =~= qs.0.take(queue.len() as int));
        }
    } else {
        assert(queue.take(queue.len() as int) =~= queue);
    }
}

/// A search from an ok state that finishes outputs each vertex once, and
/// what was output before comes first.
proof fn lemma_bfs_run_ok(
    queue: Seq<(VertexId, nat)>,
    seen: Set<u64>,
    out: Seq<VertexId>,
    max_depth: nat,
    answers: Seq<Result<Seq<VertexId>, (ErrorKind, Seq<char>)>>,
)
    requires
        bfs_state_ok(queue, seen, out),
    ensures
        match bfs_run(queue, seen, out, max_depth, answers) {
            Some(ra) => match ra.0 {
                Ok(res) => ids_distinct(res) && res.len() >= out.len() && res.take(out.len() as int) == out,
                Err(_) => true,
            },
            None => true,
        },
    decreases answers.len(), queue.len(),
{
    if queue.len() > 0 {
        let v = queue[0].0;
        let d = queue[0].1;
        let out2 = out.push(v);
        let q1 = queue.drop_first();
        assert(out_and_queued(out2, q1) =~= out_and_queued(out, queue));
        if d < max_depth {
            if answers.len() > 0 {
                match answers[0] {
                    Ok(ns) => {
                        lemma_enqueue_ok(q1, seen, out2, ns, d + 1);
                        let qs = enqueue(q1, seen, ns, d + 1);
                        lemma_bfs_run_ok(qs.0, qs.1, out2, max_depth, answers.drop_first());
                        match bfs_run(qs.0, qs.1, out2, max_depth, answers.drop_first()) {
                            Some(ra) => match ra.0 {
                                Ok(res) => {
                                    assert(res.take(out.len() as int) =~= res.take(out2.len() as int).take(out.len() as int));
                                    assert(out2.take(out.len() as int) =~= out);
                                },
                                Err(_) => {},
                            },
                            None => {},
                        }
                    },
                    Err(_) => {},
                }
            }
        } else {
            lemma_bfs_run_ok(q1, seen, out2, max_depth, answers);
            match bfs_run(q1, seen, out2, max_depth, answers) {
                Some(ra) => match ra.0 {
                    Ok(res) => {
                        assert(res.take(out.len() as int) =~= res.take(out2.len() as int).take(out.len() as int));
                        assert(out2.take(out.len() as int) =~= out);
                    },
                    Err(_) => {},
                },
                None => {},
            }
        }
    } else {
        assert(out_and_queued(out, queue) =~= out);
        assert(out.take(out.len() as int) =~= out);
    }
}

/// A breadth-first search that succeeds outputs the start vertex first and
/// no vertex twice, whatever the lookups answered.
pub proof fn lemma_bfs_each_once(
    start: VertexId,
    max_depth: nat,
    answers: Seq<Result<Seq<VertexId>, (ErrorKind, Seq<char>)>>,
)
    ensures
        match bfs_run(seq![(start, 0nat)], set![start.id], Seq::empty(), max_depth, answers) {
            Some(ra) => match ra.0 {
                Ok(res) => ids_distinct(res) && res.len() > 0 && res[0] == start,
                Err(_) => true,
            },
            None => true,
        },
{
    let q = seq![(start, 0nat)];
    let s = set![start.id];
    let e = Seq::<VertexId>::empty();
    assert(out_and_queued(e, q) =~= seq![start]);
    lemma_bfs_run_ok(q, s, e, max_depth, answers);
    let out2 = e.push(start);
    let q1 = q.drop_first();
    assert(out_and_queued(out2, q1) =~= seq![start]);
    if 0 < max_depth {
        if answers.len() > 0 {
            match answers[0] {
                Ok(ns) => {
                    lemma_enqueue_ok(q1, s, out2, ns, 1);
                    let qs = enqueue(q1, s, ns, 1);
                    lemma_bfs_run_ok(qs.0, qs.1, out2, max_depth, answers.drop_first());
                    match bfs_run(qs.0, qs.1, out2, max_depth, answers.drop_first()) {
                        Some(ra) => match ra.0 {
                            Ok(res) => {
                                assert(res.take(1)[0] == res[0]);
                            },
                            Err(_) => {},
                        },
                        None => {},
                    }
                },
                Err(_) => {},
            }
        }
    } else {
        lemma_bfs_run_ok(q1, s, out2, max_depth, answers);
        match bfs_run(q1, s, out2, max_depth, answers) {
            Some(ra) => match ra.0 {
                Ok(res) => {
                    assert(res.take(1)[0] == res[0]);
                },
                Err(_) => {},
            },
            None => {},
        }
    }
}

/// The queue's pending part, with depths as numbers.
pub open spec fn pending(q: Seq<(VertexId, usize)>, head: int) -> Seq<(VertexId, nat)> {
    q.subrange(head, q.len() as int).map_values(|p: (VertexId, usize)| (p.0, p.1 as nat))
}

/// Breadth-first traversal.
pub struct BfsTraversal;

impl BfsTraversal {
    pub fn new() -> (r: BfsTraversal) {
        BfsTraversal
    }

    /// The vertices reachable from `start` within `max_depth` steps, in
    /// breadth-first order: each vertex once, the start first, a vertex's
    /// unseen neighbors in the order `get_neighbors` lists them. Neighbors are
    /// looked up only for vertices below `max_depth`; a failed lookup ends the
    /// traversal with its error.
    pub fn traverse<F: Fn(VertexId) -> Result<Vec<VertexId>, AsterError>>(
        &self,
        start: VertexId,
        max_depth: u32,
        get_neighbors: F,
    ) -> (r: Result<Vec<VertexId>, AsterError>)
        requires
            forall|v: VertexId| call_requires(get_neighbors, (v,)),
        ensures
            exists|answers: Seq<Result<Vec<VertexId>, AsterError>>|
                bfs_explains(get_neighbors, start, max_depth, answers, answer_view(r)),
    {
        let (r, asked) = bfs_core(start, max_depth as usize, get_neighbors);
        proof {
            let answers = choose|answers: Seq<Result<Vec<VertexId>, AsterError>>|
                bfs_core_ok(get_neighbors, start, max_depth as nat, answers, answer_view(r), asked@);
            assert(bfs_explains(get_neighbors, start, max_depth, answers, answer_view(r)));
        }
        r
    }
}

/// What breadth-first search from `start` to depth `max_depth` gives, where
/// the lookups answered `answers` about the vertices `asked`, in turn, and
/// each answer is one that `f` can give for its vertex.
pub open spec fn bfs_core_ok<F: Fn(VertexId) -> Result<Vec<VertexId>, AsterError>>(
    f: F,
    start: VertexId,
    max_depth: nat,
    answers: Seq<Result<Vec<VertexId>, AsterError>>,
    result: Result<Seq<VertexId>, (ErrorKind, Seq<char>)>,
    asked: Seq<VertexId>,
) -> bool {
    &&& answers.len() == asked.len()
    &&& forall|i: int| 0 <= i < answers.len() ==> call_ensures(f, (asked[i],), #[trigger] answers[i])
    &&& bfs_run(seq![(start, 0nat)], set![start.id], Seq::empty(), max_depth, answer_views(answers)) == Some((result, asked))
}

/// Breadth-first search from `start` to depth `max_depth`, looking up
/// neighbours with `get_neighbors`; gives the outcome and the vertices whose
/// neighbours were looked up, in order.
pub fn bfs_core<F: Fn(VertexId) -> Result<Vec<VertexId>, AsterError>>(
    start: VertexId,
    max_depth: usize,
    get_neighbors: F,
) -> (r: (Result<Vec<VertexId>, AsterError>, Vec<VertexId>))
    requires
        forall|v: VertexId| call_requires(get_neighbors, (v,)),
    ensures
        exists|answers: Seq<Result<Vec<VertexId>, AsterError>>|
            bfs_core_ok(get_neighbors, start, max_depth as nat, answers, answer_view(r.0), r.1@),
{
    let mut visited: HashSet<u64> = HashSet::new();
    let mut queue: Vec<(VertexId, usize)> = Vec::new();
    let mut asked_vec: Vec<VertexId> = Vec::new();
    let mut head: usize = 0;
    let mut result: Vec<VertexId> = Vec::new();
    queue.push((start, 0));
    visited.insert(start.id);
    let ghost init_q = seq![(start, 0nat)];
    let ghost init_s = set![start.id];
    let ghost md = max_depth as nat;
    let ghost mut past: Seq<Result<Vec<VertexId>, AsterError>> = Seq::empty();
    let ghost mut asked: Seq<VertexId> = Seq::empty();
    let ghost mut ints: Set<int> = set![start.id as int];
    proof {
        assert(pending(queue@, 0) =~= init_q);
        assert(visited@ =~= init_s);
        assert forall|fut: Seq<Result<Seq<VertexId>, (ErrorKind, Seq<char>)>>|
            bfs_run(init_q, init_s, Seq::empty(), md, answer_views(past) + fut) == after_asked(
                asked,
                #[trigger] bfs_run(pending(queue@, head as int), visited@, result@, md, fut),
            ) by {
            assert(answer_views(past) + fut =~= fut);
            match bfs_run(init_q, init_s, Seq::empty(), md, fut) {
                Some(ra) => {
                    assert(asked + ra.1 =~= ra.1);
                },
                None => {},
            }
        }
    }
    while head < queue.len()
        invariant
            head <= queue@.len(),
            md == max_depth as nat,
            init_q == seq![(start, 0nat)],
            init_s == set![start.id],
            forall|v: VertexId| call_requires(get_neighbors, (v,)),
            forall|i: int| 0 <= i < queue@.len() ==> (#[trigger] queue@[i]).1 <= max_depth,
            asked.len() == past.len(),
            asked_vec@ == asked,
            forall|i: int| 0 <= i < past.len() ==> call_ensures(get_neighbors, (asked[i],), #[trigger] past[i]),
            forall|fut: Seq<Result<Seq<VertexId>, (ErrorKind, Seq<char>)>>|
                bfs_run(init_q, init_s, Seq::empty(), md, answer_views(past) + fut) == after_asked(
                    asked,
                    #[trigger] bfs_run(pending(queue@, head as int), visited@, result@, md, fut),
                ),
            ints.finite(),
            forall|x: int| #[trigger] ints.contains(x) ==> 0 <= x < 0x1_0000_0000_0000_0000,
            forall|x: u64| #[trigger] visited@.contains(x) <==> ints.contains(x as int),
        decreases 0x1_0000_0000_0000_0000 - ints.len(), queue@.len() - head,
    {
        proof {
            vstd::set_lib::lemma_int_range(0, 0x1_0000_0000_0000_0000);
            vstd::set_lib::lemma_len_subset(ints, vstd::set_lib::set_int_range(0, 0x1_0000_0000_0000_0000));
        }
        let (vertex, depth) = queue[head];
        let ghost cur_q = pending(queue@, head as int);
        let ghost cur_s = visited@;
        let ghost cur_out = result@;
        let ghost ints0 = ints;
        head = head + 1;
        result.push(vertex);
        proof {
            assert(cur_q[0] == (vertex, depth as nat));
            assert(pending(queue@, head as int) =~= cur_q.drop_first());
        }
        if depth < max_depth {
            let ans = get_neighbors(vertex);
            let ghost ans_g = ans;
            match ans {
                Err(e) => {
                    proof {
                        let a = answer_view(ans_g);
                        let one = seq![a];
                        assert(one[0] == a);
                        assert(bfs_run(cur_q, cur_s, cur_out, md, one) == Some::<(Result<Seq<VertexId>, (ErrorKind, Seq<char>)>, Seq<VertexId>)>((a, seq![vertex])));
                        let answers = past.push(ans_g);
                        assert(answer_views(answers) =~= answer_views(past) + one);
                        assert(asked + seq![vertex] =~= asked.push(vertex));
                        assert(bfs_run(init_q, init_s, Seq::empty(), md, answer_views(past) + one) == after_asked(asked, bfs_run(cur_q, cur_s, cur_out, md, one)));
                        assert(bfs_run(init_q, init_s, Seq::empty(), md, answer_views(answers)) == Some::<(Result<Seq<VertexId>, (ErrorKind, Seq<char>)>, Seq<VertexId>)>((a, asked + seq![vertex])));
                        let ra = bfs_run(init_q, init_s, Seq::empty(), md, answer_views(answers)).unwrap();
                        assert(ra.1 == asked.push(vertex));
                        assert(call_ensures(get_neighbors, (vertex,), ans_g));
                        assert forall|i: int| 0 <= i < answers.len() implies call_ensures(get_neighbors, (ra.1[i],), #[trigger] answers[i]) by {
                            if i < past.len() {
                                assert(answers[i] == past[i]);
                                assert(ra.1[i] == asked[i]);
                            } else {
                                assert(answers[i] == ans_g);
                                assert(ra.1[i] == vertex);
                            }
                        }
                        assert(ra.0 == answer_view(Err::<Vec<VertexId>, AsterError>(e)));
                        assert(ra.1.len() == answers.len());
                        assert(init_q == seq![(start, 0nat)]);
                        assert(init_s == set![start.id]);
                        assert(bfs_run(seq![(start, 0nat)], set![start.id], Seq::empty(), md, answer_views(answers)) == Some(ra));
                        assert(bfs_core_ok(get_neighbors, start, md, answers, answer_view(Err::<Vec<VertexId>, AsterError>(e)), asked.push(vertex)));
                    }
                    asked_vec.push(vertex);
                    let out = (Err(e), asked_vec);
                    proof {
                        let answers = past.push(ans_g);
                        assert(out.1@ == asked.push(vertex));
                        assert(bfs_core_ok(get_neighbors, start, max_depth as nat, answers, answer_view(out.0), out.1@));
                    }
                    return out;
                },
                Ok(ns) => {
                    let ghost q_before = pending(queue@, head as int);
                    let ghost s_before = visited@;
                    let ghost qlen0 = queue@.len();
                    let mut j: usize = 0;
                    proof {
                        assert(ns@.take(0) =~= Seq::<VertexId>::empty());
                    }
                    while j < ns.len()
                        invariant
                            j <= ns@.len(),
                            head <= queue@.len(),
                            depth < max_depth,
                            qlen0 <= queue@.len(),
                            forall|i: int| 0 <= i < queue@.len() ==> (#[trigger] queue@[i]).1 <= max_depth,
                            (pending(queue@, head as int), visited@) == enqueue(q_before, s_before, ns@.take(j as int), depth as nat + 1),
                            ints.finite(),
                            forall|x: int| #[trigger] ints.contains(x) ==> 0 <= x < 0x1_0000_0000_0000_0000,
                            forall|x: u64| #[trigger] visited@.contains(x) <==> ints.contains(x as int),
                            ints0.subset_of(ints),
                            ints.len() >= ints0.len(),
                            queue@.len() == qlen0 || ints.len() > ints0.len(),
                        decreases ns@.len() - j,
                    {
                        let n = ns[j];
                        let ghost q_j = pending(queue@, head as int);
                        proof {
                            assert(ns@.take(j + 1).drop_last() =~= ns@.take(j as int));
                            assert(ns@.take(j + 1).last() == n);
                        }
                        if !visited.contains(&n.id) {
                            visited.insert(n.id);
                            queue.push((n, depth + 1));
                            proof {
                                assert(!ints.contains(n.id as int));
                                ints = ints.insert(n.id as int);
                                assert(pending(queue@, head as int) =~= q_j.push((n, depth as nat + 1)));
                                assert forall|x: u64| #[trigger] visited@.contains(x) <==> ints.contains(x as int) by {
                                    if x == n.id {
                                    } else {
                                        assert(x as int != n.id as int);
                                    }
                                }
                            }
                        }
                        j = j + 1;
                    }
                    proof {
                        assert(ns@.take(ns@.len() as int) =~= ns@);
                        let a = answer_view(ans_g);
                        let new_q = pending(queue@, head as int);
                        let new_s = visited@;
                        assert forall|fut: Seq<Result<Seq<VertexId>, (ErrorKind, Seq<char>)>>|
                            bfs_run(init_q, init_s, Seq::empty(), md, answer_views(past.push(ans_g)) + fut) == after_asked(
                                asked.push(vertex),
                                #[trigger] bfs_run(new_q, new_s, result@, md, fut),
                            ) by {
                            let fut1 = seq![a] + fut;
                            assert(fut1[0] == a);
                            assert(fut1.drop_first() =~= fut);
                            assert(answer_views(past.push(ans_g)) + fut =~= answer_views(past) + fut1);
                            assert(bfs_run(cur_q, cur_s, cur_out, md, fut1) == after_asked(seq![vertex], bfs_run(new_q, new_s, result@, md, fut)));
                            assert(bfs_run(init_q, init_s, Seq::empty(), md, answer_views(past) + fut1) == after_asked(asked, bfs_run(cur_q, cur_s, cur_out, md, fut1)));
                            match bfs_run(new_q, new_s, result@, md, fut) {
                                Some(ra) => {
                                    assert(asked + (seq![vertex] + ra.1) =~= asked.push(vertex) + ra.1);
                                },
                                None => {},
                            }
                        }
                        assert forall|i: int| 0 <= i < past.push(ans_g).len() implies call_ensures(get_neighbors, (asked.push(vertex)[i],), #[trigger] past.push(ans_g)[i]) by {
                            if i < past.len() {
                                assert(past.push(ans_g)[i] == past[i]);
                                assert(asked.push(vertex)[i] == asked[i]);
                            }
                        }
                        past = past.push(ans_g);
                        asked = asked.push(vertex);
                    }
                    asked_vec.push(vertex);
                },
            }
        } else {
            proof {
                assert forall|fut: Seq<Result<Seq<VertexId>, (ErrorKind, Seq<char>)>>|
                    bfs_run(init_q, init_s, Seq::empty(), md, answer_views(past) + fut) == after_asked(
                        asked,
                        #[trigger] bfs_run(pending(queue@, head as int), visited@, result@, md, fut),
                    ) by {
                    assert(bfs_run(cur_q, cur_s, cur_out, md, fut) == bfs_run(pending(queue@, head as int), visited@, result@, md, fut));
                }
            }
        }
        proof {
            vstd::set_lib::lemma_len_subset(ints, vstd::set_lib::set_int_range(0, 0x1_0000_0000_0000_0000));
        }
    }
    proof {
        assert(pending(queue@, head as int) =~= Seq::<(VertexId, nat)>::empty());
        let fut = Seq::<Result<Seq<VertexId>, (ErrorKind, Seq<char>)>>::empty();
        assert(bfs_run(pending(queue@, head as int), visited@, result@, md, fut) == Some::<(Result<Seq<VertexId>, (ErrorKind, Seq<char>)>, Seq<VertexId>)>((Ok(result@), Seq::empty())));
        assert(answer_views(past) + fut =~= answer_views(past));
        assert(asked + Seq::<VertexId>::empty() =~= asked);
        assert(bfs_core_ok(get_neighbors, start, md, past, answer_view(Ok::<Vec<VertexId>, AsterError>(result)), asked));
    }
    let out = (Ok(result), asked_vec);
    proof {
        assert(bfs_core_ok(get_neighbors, start, max_depth as nat, past, answer_view(out.0), out.1@));
    }
    out
}

} // verus!
