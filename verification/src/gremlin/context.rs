//! The state a traversal carries while it runs: labelled results, side-effect
//! collections, the tracked path, and the vertices and edges it created.
use crate::gremlin::results::{result_view, results_view, GremlinResult, ResultView};
use crate::query::QueryContext;
use crate::text::str_eq;
use crate::types::{EdgeId, VertexId};
use vstd::prelude::*;

verus! {

/// An edge begun by `addE` that waits for its target.
#[derive(Debug, Clone)]
pub struct IncompleteEdge {
    pub source: VertexId,
    pub label: String,
}

/// An edge that a traversal created.
#[derive(Debug, Clone)]
pub struct CreatedEdge {
    pub edge_id: EdgeId,
    pub source: VertexId,
    pub target: VertexId,
    pub label: String,
}

/// The execution context of a traversal. `bindings` and `side_effects` map
/// names to results; each name occurs at most once in each.
pub struct GremlinContext {
    pub query_context: QueryContext,
    pub bindings: Vec<(String, GremlinResult)>,
    pub side_effects: Vec<(String, Vec<GremlinResult>)>,
    pub current_path: Vec<GremlinResult>,
    pub track_path: bool,
    pub created_vertices: Vec<VertexId>,
    pub incomplete_edges: Vec<IncompleteEdge>,
    pub created_edges: Vec<CreatedEdge>,
}

/// The position of the first entry named `k`.
pub open spec fn key_index<T>(s: Seq<(Seq<char>, T)>, k: Seq<char>) -> Option<int>
    decreases s.len(),
{
    if s.len() == 0 {
        None
    } else if s[0].0 == k {
        Some(0)
    } else {
        match key_index(s.drop_first(), k) {
            Some(i) => Some(i + 1),
            None => None,
        }
    }
}

/// The value of the entry named `k`.
pub open spec fn assoc_get<T>(s: Seq<(Seq<char>, T)>, k: Seq<char>) -> Option<T> {
    match key_index(s, k) {
        Some(i) => Some(s[i].1),
        None => None,
    }
}

/// `s` with the entry named `k` set to `v`: replaced in place, or appended.
pub open spec fn assoc_set<T>(s: Seq<(Seq<char>, T)>, k: Seq<char>, v: T) -> Seq<(Seq<char>, T)> {
    match key_index(s, k) {
        Some(i) => s.update(i, (k, v)),
        None => s.push((k, v)),
    }
}

pub proof fn lemma_key_index_found<T>(s: Seq<(Seq<char>, T)>, k: Seq<char>, i: int)
    requires
        0 <= i < s.len(),
        s[i].0 == k,
        forall|j: int| 0 <= j < i ==> s[j].0 != k,
    ensures
        key_index(s, k) == Some(i),
    decreases i,
{
    if i > 0 {
        lemma_key_index_found(s.drop_first(), k, i - 1);
    }
}

pub proof fn lemma_key_index_none<T>(s: Seq<(Seq<char>, T)>, k: Seq<char>)
    requires
        forall|j: int| 0 <= j < s.len() ==> s[j].0 != k,
    ensures
        key_index(s, k) is None,
    decreases s.len(),
{
    if s.len() > 0 {
        lemma_key_index_none(s.drop_first(), k);
    }
}

pub proof fn lemma_key_index_bounds<T>(s: Seq<(Seq<char>, T)>, k: Seq<char>)
    ensures
        match key_index(s, k) {
            Some(i) => 0 <= i < s.len() && s[i].0 == k,
            None => true,
        },
    decreases s.len(),
{
    if s.len() > 0 {
        lemma_key_index_bounds(s.drop_first(), k);
    }
}

/// The first entry named `k` is the one `key_index` finds.
pub proof fn lemma_key_index_first<T>(s: Seq<(Seq<char>, T)>, k: Seq<char>)
    ensures
        match key_index(s, k) {
            Some(i) => 0 <= i < s.len() && s[i].0 == k && forall|j: int| 0 <= j < i ==> s[j].0 != k,
            None => forall|j: int| 0 <= j < s.len() ==> s[j].0 != k,
        },
    decreases s.len(),
{
    if s.len() > 0 {
        let t = s.drop_first();
        lemma_key_index_first(t, k);
        if s[0].0 != k {
            match key_index(t, k) {
                Some(i) => {
                    assert forall|j: int| 0 <= j < i + 1 implies s[j].0 != k by {
                        if j > 0 {
                            assert(s[j] == t[j - 1]);
                        }
                    }
                },
                None => {
                    assert forall|j: int| 0 <= j < s.len() implies s[j].0 != k by {
                        if j > 0 {
                            assert(s[j] == t[j - 1]);
                        }
                    }
                },
            }
        }
    }
}

/// Setting an entry and reading it back: the name just set gives the value
/// set (a later setting replaces an earlier one), and every other name gives
/// what it gave before.
pub proof fn lemma_assoc_read_back<T>(s: Seq<(Seq<char>, T)>, k: Seq<char>, v: T, k2: Seq<char>)
    ensures
        assoc_get(assoc_set(s, k, v), k2) == (if k2 == k { Some(v) } else { assoc_get(s, k2) }),
{
    let s2 = assoc_set(s, k, v);
    lemma_key_index_first(s, k);
    lemma_key_index_first(s, k2);
    match key_index(s, k) {
        Some(i) => {
            assert(s2 == s.update(i, (k, v)));
            assert forall|j: int| 0 <= j < s2.len() implies s2[j].0 == s[j].0 by {}
            if k2 == k {
                lemma_key_index_found(s2, k, i);
            } else {
                match key_index(s, k2) {
                    Some(i2) => {
                        assert(i2 != i);
                        lemma_key_index_found(s2, k2, i2);
                    },
                    None => {
                        lemma_key_index_none(s2, k2);
                    },
                }
            }
        },
        None => {
            assert(s2 == s.push((k, v)));
            if k2 == k {
                lemma_key_index_found(s2, k, s.len() as int);
            } else {
                match key_index(s, k2) {
                    Some(i2) => {
                        lemma_key_index_found(s2, k2, i2);
                    },
                    None => {
                        lemma_key_index_none(s2, k2);
                    },
                }
            }
        },
    }
}

/// With nothing set, no name gives a value.
pub proof fn lemma_assoc_empty<T>(k: Seq<char>)
    ensures
        assoc_get(Seq::<(Seq<char>, T)>::empty(), k) is None,
{
}

/// The model of a list of named results.
pub open spec fn named_results_view(s: Seq<(String, GremlinResult)>) -> Seq<(Seq<char>, ResultView)> {
    s.map_values(|e: (String, GremlinResult)| (e.0@, result_view(e.1)))
}

/// The model of a list of named result collections.
pub open spec fn side_effects_view(s: Seq<(String, Vec<GremlinResult>)>) -> Seq<(Seq<char>, Seq<ResultView>)> {
    s.map_values(|e: (String, Vec<GremlinResult>)| (e.0@, results_view(e.1@)))
}

/// The position of the entry named `key` in `s`.
fn find_named<T>(s: &Vec<(String, T)>, key: &str) -> (r: Option<usize>)
    ensures
        match r {
            Some(i) => i < s@.len() && s@[i as int].0@ == key@ && forall|j: int| 0 <= j < i ==> s@[j].0@ != key@,
            None => forall|j: int| 0 <= j < s@.len() ==> s@[j].0@ != key@,
        },
{
    let mut i: usize = 0;
    while i < s.len()
        invariant
            i <= s.len(),
            forall|j: int| 0 <= j < i ==> s@[j].0@ != key@,
        decreases s.len() - i,
    {
        if str_eq(s[i].0.as_str(), key) {
            return Some(i);
        }
        i = i + 1;
    }
    None
}

/// Sets the entry named `key` to `value` in a list of named results: in
/// place where the name is there, else last.
pub fn set_named(s: &mut Vec<(String, GremlinResult)>, key: String, value: GremlinResult)
    ensures
        named_results_view(final(s)@) == assoc_set(named_results_view(old(s)@), key@, result_view(value)),
{
    let ghost old_b = named_results_view(s@);
    let ghost lv = key@;
    let ghost rv = result_view(value);
    match find_named(s, key.as_str()) {
        Some(i) => {
            proof {
                lemma_key_index_found(old_b, lv, i as int);
            }
            s.set(i, (key, value));
            assert(named_results_view(s@) =~= old_b.update(i as int, (lv, rv)));
        },
        None => {
            proof {
                lemma_key_index_none(old_b, lv);
            }
            s.push((key, value));
            assert(named_results_view(s@) =~= old_b.push((lv, rv)));
        },
    }
}

/// The entry named `key` in a list of named results.
pub fn get_named<'a>(s: &'a Vec<(String, GremlinResult)>, key: &str) -> (r: Option<&'a GremlinResult>)
    ensures
        match r {
            Some(x) => assoc_get(named_results_view(s@), key@) == Some(result_view(*x)),
            None => assoc_get(named_results_view(s@), key@) is None,
        },
{
    match find_named(s, key) {
        Some(i) => {
            proof {
                lemma_key_index_found(named_results_view(s@), key@, i as int);
            }
            Some(&s[i].1)
        },
        None => {
            proof {
                lemma_key_index_none(named_results_view(s@), key@);
            }
            None
        },
    }
}

impl GremlinContext {
    pub open spec fn bindings_view(&self) -> Seq<(Seq<char>, ResultView)> {
        named_results_view(self.bindings@)
    }

    pub open spec fn side_effects_model(&self) -> Seq<(Seq<char>, Seq<ResultView>)> {
        side_effects_view(self.side_effects@)
    }

    pub open spec fn path_view(&self) -> Seq<ResultView> {
        results_view(self.current_path@)
    }

    /// A context with no bindings, side effects, path or created elements, and
    /// path tracking off.
    pub fn new(query_context: QueryContext) -> (r: GremlinContext)
        ensures
            r.query_context == query_context,
            r.bindings@.len() == 0,
            r.side_effects@.len() == 0,
            r.current_path@.len() == 0,
            !r.track_path,
            r.created_vertices@.len() == 0,
            r.incomplete_edges@.len() == 0,
            r.created_edges@.len() == 0,
    {
        GremlinContext {
            query_context,
            bindings: Vec::new(),
            side_effects: Vec::new(),
            current_path: Vec::new(),
            track_path: false,
            created_vertices: Vec::new(),
            incomplete_edges: Vec::new(),
            created_edges: Vec::new(),
        }
    }

    /// Binds `label` to `result`, replacing an earlier binding of the label.
    pub fn bind(&mut self, label: String, result: GremlinResult)
        ensures
            final(self).bindings_view() == assoc_set(old(self).bindings_view(), label@, result_view(result)),
            final(self).side_effects_model() == old(self).side_effects_model(),
            final(self).path_view() == old(self).path_view(),
            final(self).track_path == old(self).track_path,
            final(self).query_context == old(self).query_context,
            final(self).created_vertices@ == old(self).created_vertices@,
            final(self).incomplete_edges@ == old(self).incomplete_edges@,
            final(self).created_edges@ == old(self).created_edges@,
    {
        let ghost old_b = self.bindings_view();
        let ghost lv = label@;
        let ghost rv = result_view(result);
        match find_named(&self.bindings, label.as_str()) {
            Some(i) => {
                proof {
                    lemma_key_index_found(old_b, lv, i as int);
                }
                self.bindings.set(i, (label, result));
                assert(self.bindings_view() =~= old_b.update(i as int, (lv, rv)));
            },
            None => {
                proof {
                    lemma_key_index_none(old_b, lv);
                }
                self.bindings.push((label, result));
                assert(self.bindings_view() =~= old_b.push((lv, rv)));
            },
        }
    }

    /// The result bound to `label`.
    pub fn get_binding(&self, label: &str) -> (r: Option<&GremlinResult>)
        ensures
            match r {
                Some(x) => assoc_get(self.bindings_view(), label@) == Some(result_view(*x)),
                None => assoc_get(self.bindings_view(), label@) is None,
            },
    {
        match find_named(&self.bindings, label) {
            Some(i) => {
                proof {
                    lemma_key_index_found(self.bindings_view(), label@, i as int);
                }
                Some(&self.bindings[i].1)
            },
            None => {
                proof {
                    lemma_key_index_none(self.bindings_view(), label@);
                }
                None
            },
        }
    }

    /// Adds `result` to the side-effect collection named `key`.
    pub fn store_side_effect(&mut self, key: String, result: GremlinResult)
        ensures
            final(self).side_effects_model() == assoc_set(
                old(self).side_effects_model(),
                key@,
                match assoc_get(old(self).side_effects_model(), key@) {
                    Some(rs) => rs.push(result_view(result)),
                    None => seq![result_view(result)],
                },
            ),
            final(self).bindings_view() == old(self).bindings_view(),
            final(self).path_view() == old(self).path_view(),
            final(self).track_path == old(self).track_path,
            final(self).query_context == old(self).query_context,
            final(self).created_vertices@ == old(self).created_vertices@,
            final(self).incomplete_edges@ == old(self).incomplete_edges@,
            final(self).created_edges@ == old(self).created_edges@,
    {
        let ghost old_s = self.side_effects_model();
        let ghost kv = key@;
        let ghost rv = result_view(result);
        match find_named(&self.side_effects, key.as_str()) {
            Some(i) => {
                proof {
                    lemma_key_index_found(old_s, kv, i as int);
                }
                let mut effects = Vec::new();
                std::mem::swap(&mut effects, &mut self.side_effects);
                let ghost es = effects@;
                let old_entry = effects.remove(i);
                let mut items = old_entry.1;
                let ghost items0 = items@;
                assert(results_view(items0) == old_s[i as int].1);
                items.push(result);
                assert(results_view(items@) =~= results_view(items0).push(rv));
                effects.insert(i, (key, items));
                assert(side_effects_view(effects@) =~= old_s.update(i as int, (kv, old_s[i as int].1.push(rv)))) by {
                    assert(effects@ =~= es.update(i as int, effects@[i as int]));
                }
                self.side_effects = effects;
            },
            None => {
                proof {
                    lemma_key_index_none(old_s, kv);
                }
                let mut items = Vec::new();
                items.push(result);
                assert(results_view(items@) =~= seq![rv]);
                self.side_effects.push((key, items));
                assert(self.side_effects_model() =~= old_s.push((kv, seq![rv])));
            },
        }
    }

    /// The side-effect collection named `key`.
    pub fn get_side_effect(&self, key: &str) -> (r: Option<&Vec<GremlinResult>>)
        ensures
            match r {
                Some(x) => assoc_get(self.side_effects_model(), key@) == Some(results_view(x@)),
                None => assoc_get(self.side_effects_model(), key@) is None,
            },
    {
        match find_named(&self.side_effects, key) {
            Some(i) => {
                proof {
                    lemma_key_index_found(self.side_effects_model(), key@, i as int);
                }
                Some(&self.side_effects[i].1)
            },
            None => {
                proof {
                    lemma_key_index_none(self.side_effects_model(), key@);
                }
                None
            },
        }
    }

    /// Appends `result` to the path, where the path is tracked.
    pub fn add_to_path(&mut self, result: GremlinResult)
        ensures
            final(self).path_view() == if old(self).track_path {
                old(self).path_view().push(result_view(result))
            } else {
                old(self).path_view()
            },
            final(self).bindings_view() == old(self).bindings_view(),
            final(self).side_effects_model() == old(self).side_effects_model(),
            final(self).track_path == old(self).track_path,
            final(self).query_context == old(self).query_context,
            final(self).created_vertices@ == old(self).created_vertices@,
            final(self).incomplete_edges@ == old(self).incomplete_edges@,
            final(self).created_edges@ == old(self).created_edges@,
    {
        if self.track_path {
            let ghost p = self.path_view();
            let ghost rv = result_view(result);
            self.current_path.push(result);
            assert(self.path_view() =~= p.push(rv));
        }
    }

    /// A context for a branch of the traversal: the same limits, bindings,
    /// path and path tracking, with fresh side effects and no created
    /// elements.
    pub fn new_for_branch(&self) -> (r: GremlinContext)
        ensures
            r.query_context == self.query_context,
            r.bindings_view() == self.bindings_view(),
            r.path_view() == self.path_view(),
            r.track_path == self.track_path,
            r.side_effects@.len() == 0,
            r.created_vertices@.len() == 0,
            r.incomplete_edges@.len() == 0,
            r.created_edges@.len() == 0,
    {
        let mut bindings: Vec<(String, GremlinResult)> = Vec::new();
        let mut i: usize = 0;
        while i < self.bindings.len()
            invariant
                i <= self.bindings.len(),
                named_results_view(bindings@) == self.bindings_view().subrange(0, i as int),
            decreases self.bindings.len() - i,
        {
            let k = self.bindings[i].0.clone();
            let v = self.bindings[i].1.duplicate();
            let ghost before = bindings@;
            bindings.push((k, v));
            i = i + 1;
            assert(named_results_view(bindings@) =~= self.bindings_view().subrange(0, i as int)) by {
                assert(named_results_view(bindings@) =~= named_results_view(before).push((k@, result_view(v))));
            }
        }
        assert(self.bindings_view().subrange(0, i as int) =~= self.bindings_view());
        let path = GremlinResult::duplicate_all(&self.current_path);
        GremlinContext {
            query_context: self.query_context,
            bindings,
            side_effects: Vec::new(),
            current_path: path,
            track_path: self.track_path,
            created_vertices: Vec::new(),
            incomplete_edges: Vec::new(),
            created_edges: Vec::new(),
        }
    }
}

/// Binding a label and reading bindings back: after `bind(label, result)`,
/// `get_binding` of that label gives `result` (the last bind of a label is
/// the one read), and of any other label what it gave before.
pub proof fn lemma_bind_then_get(before: GremlinContext, after: GremlinContext, label: Seq<char>, result: GremlinResult, other: Seq<char>)
    requires
        after.bindings_view() == assoc_set(before.bindings_view(), label, result_view(result)),
    ensures
        assoc_get(after.bindings_view(), other) == (if other == label {
            Some(result_view(result))
        } else {
            assoc_get(before.bindings_view(), other)
        }),
{
    lemma_assoc_read_back(before.bindings_view(), label, result_view(result), other);
}

/// A context with no bindings, as a new one is, gives no result for any
/// label.
pub proof fn lemma_unbound(ctx: GremlinContext, label: Seq<char>)
    requires
        ctx.bindings@.len() == 0,
    ensures
        assoc_get(ctx.bindings_view(), label) is None,
{
    assert(ctx.bindings_view() =~= Seq::<(Seq<char>, ResultView)>::empty());
    lemma_assoc_empty::<ResultView>(label);
}

} // verus!
