//! Vertices, edges and the graph store: adjacency lists with vertex and edge
//! properties, and breadth-first traversal.
use crate::idmap::IdMap;
use crate::text::{chars_of, concat_vec, decimal, string_from_chars, u64_to_chars};
use crate::types::{EdgeId, PropValue, Properties, PropertyValue, VertexId};
use vstd::prelude::*;

verus! {

/// A vertex with its properties.
#[derive(Debug, PartialEq)]
pub struct Vertex {
    id: VertexId,
    properties: Properties,
}

impl Vertex {
    pub closed spec fn spec_id(&self) -> VertexId {
        self.id
    }

    pub closed spec fn spec_properties(&self) -> Map<Seq<char>, PropValue> {
        self.properties@
    }

    pub fn new(id: VertexId, properties: Properties) -> (r: Vertex)
        ensures
            r.spec_id() == id,
            r.spec_properties() == properties@,
    {
        Vertex { id, properties }
    }

    pub fn id(&self) -> (r: VertexId)
        ensures
            r == self.spec_id(),
    {
        self.id
    }

    pub fn properties(&self) -> (r: &Properties)
        ensures
            r@ == self.spec_properties(),
    {
        &self.properties
    }

    pub fn get_property(&self, key: &str) -> (r: Option<&PropertyValue>)
        ensures
            match r {
                Some(v) => self.spec_properties().contains_key(key@) && self.spec_properties()[key@]
                    == v@,
                None => !self.spec_properties().contains_key(key@),
            },
    {
        self.properties.get(key)
    }

    pub fn set_property(&mut self, key: String, value: PropertyValue)
        ensures
            final(self).spec_properties() == old(self).spec_properties().insert(key@, value@),
            final(self).spec_id() == old(self).spec_id(),
    {
        self.properties.insert(key, value);
    }

    pub fn remove_property(&mut self, key: &str) -> (r: Option<PropertyValue>)
        ensures
            final(self).spec_properties() == old(self).spec_properties().remove(key@),
            final(self).spec_id() == old(self).spec_id(),
            match r {
                Some(v) => old(self).spec_properties().contains_key(key@) && v@ == old(
                    self,
                ).spec_properties()[key@],
                None => !old(self).spec_properties().contains_key(key@),
            },
    {
        self.properties.remove(key)
    }

    pub fn has_property(&self, key: &str) -> (r: bool)
        ensures
            r == self.spec_properties().contains_key(key@),
    {
        self.properties.contains_key(key)
    }

    /// `Vertex(<id>, <n> properties)`.
    pub fn to_string(&self) -> (r: String)
        ensures
            r@ == "Vertex("@ + decimal(self.spec_id().id as nat) + ", "@ + decimal(
                self.spec_properties().len(),
            ) + " properties)"@,
    {
        let a = chars_of("Vertex(");
        let b = concat_vec(&a, &u64_to_chars(self.id.id));
        let c = concat_vec(&b, &chars_of(", "));
        let n = self.properties.len();
        let d = concat_vec(&c, &u64_to_chars(n as u64));
        let e = concat_vec(&d, &chars_of(" properties)"));
        string_from_chars(&e)
    }
}

/// An edge from a source to a target vertex, with its properties.
#[derive(Debug, PartialEq)]
pub struct Edge {
    id: EdgeId,
    source: VertexId,
    target: VertexId,
    properties: Properties,
}

impl Edge {
    pub closed spec fn spec_id(&self) -> EdgeId {
        self.id
    }

    pub closed spec fn spec_source(&self) -> VertexId {
        self.source
    }

    pub closed spec fn spec_target(&self) -> VertexId {
        self.target
    }

    pub closed spec fn spec_properties(&self) -> Map<Seq<char>, PropValue> {
        self.properties@
    }

    pub fn new(id: EdgeId, source: VertexId, target: VertexId, properties: Properties) -> (r: Edge)
        ensures
            r.spec_id() == id,
            r.spec_source() == source,
            r.spec_target() == target,
            r.spec_properties() == properties@,
    {
        Edge { id, source, target, properties }
    }

    pub fn id(&self) -> (r: EdgeId)
        ensures
            r == self.spec_id(),
    {
        self.id
    }

    pub fn source(&self) -> (r: VertexId)
        ensures
            r == self.spec_source(),
    {
        self.source
    }

    pub fn target(&self) -> (r: VertexId)
        ensures
            r == self.spec_target(),
    {
        self.target
    }

    pub fn properties(&self) -> (r: &Properties)
        ensures
            r@ == self.spec_properties(),
    {
        &self.properties
    }

    pub fn get_property(&self, key: &str) -> (r: Option<&PropertyValue>)
        ensures
            match r {
                Some(v) => self.spec_properties().contains_key(key@) && self.spec_properties()[key@]
                    == v@,
                None => !self.spec_properties().contains_key(key@),
            },
    {
        self.properties.get(key)
    }

    pub fn set_property(&mut self, key: String, value: PropertyValue)
        ensures
            final(self).spec_properties() == old(self).spec_properties().insert(key@, value@),
            final(self).spec_id() == old(self).spec_id(),
            final(self).spec_source() == old(self).spec_source(),
            final(self).spec_target() == old(self).spec_target(),
    {
        self.properties.insert(key, value);
    }

    pub fn remove_property(&mut self, key: &str) -> (r: Option<PropertyValue>)
        ensures
            final(self).spec_properties() == old(self).spec_properties().remove(key@),
            final(self).spec_id() == old(self).spec_id(),
            final(self).spec_source() == old(self).spec_source(),
            final(self).spec_target() == old(self).spec_target(),
            match r {
                Some(v) => old(self).spec_properties().contains_key(key@) && v@ == old(
                    self,
                ).spec_properties()[key@],
                None => !old(self).spec_properties().contains_key(key@),
            },
    {
        self.properties.remove(key)
    }

    pub fn has_property(&self, key: &str) -> (r: bool)
        ensures
            r == self.spec_properties().contains_key(key@),
    {
        self.properties.contains_key(key)
    }

    /// `Edge(<id>: <source> -> <target>, <n> properties)`.
    pub fn to_string(&self) -> (r: String)
        ensures
            r@ == "Edge("@ + decimal(self.spec_id().id as nat) + ": "@ + decimal(
                self.spec_source().id as nat,
            ) + " -> "@ + decimal(self.spec_target().id as nat) + ", "@ + decimal(
                self.spec_properties().len(),
            ) + " properties)"@,
    {
        let a = concat_vec(&chars_of("Edge("), &u64_to_chars(self.id.id));
        let b = concat_vec(&a, &chars_of(": "));
        let c = concat_vec(&b, &u64_to_chars(self.source.id));
        let d = concat_vec(&c, &chars_of(" -> "));
        let e = concat_vec(&d, &u64_to_chars(self.target.id));
        let f = concat_vec(&e, &chars_of(", "));
        let n = self.properties.len();
        let g = concat_vec(&f, &u64_to_chars(n as u64));
        let h = concat_vec(&g, &chars_of(" properties)"));
        string_from_chars(&h)
    }
}

/// The mathematical model of the adjacency store: its vertices in the order
/// in which they were first stored, the outgoing neighbours of each vertex
/// (empty for an unknown one), and the next edge id.
pub struct GraphModel {
    pub vertices: Seq<VertexId>,
    pub neighbors: spec_fn(VertexId) -> Seq<VertexId>,
    pub next_edge: u64,
}

impl GraphModel {
    /// The model with `v` among its vertices.
    pub open spec fn with_vertex(self, v: VertexId) -> GraphModel {
        if self.vertices.contains(v) {
            self
        } else {
            GraphModel { vertices: self.vertices.push(v), ..self }
        }
    }

    /// The model with an edge from `s` to `t`: `t` goes last among the
    /// neighbours of `s`, and both are vertices.
    pub open spec fn with_edge(self, s: VertexId, t: VertexId) -> GraphModel {
        let n = self.neighbors;
        GraphModel {
            vertices: self.with_vertex(s).with_vertex(t).vertices,
            neighbors: |v: VertexId| if v == s { n(s).push(t) } else { n(v) },
            next_edge: self.next_edge,
        }
    }

    /// The model after an edge id is handed out.
    pub open spec fn with_fresh_edge_id(self) -> GraphModel {
        GraphModel { next_edge: self.next_edge.wrapping_add(1), ..self }
    }
}

/// Adding an edge from `s` to `t` connects them: `t` is then a neighbour of
/// `s`, the degree of `s` grows by one, both are vertices, and no other
/// vertex's neighbours change.
pub proof fn lemma_add_edge_connects(m: GraphModel, s: VertexId, t: VertexId)
    ensures
        (m.with_edge(s, t).neighbors)(s).contains(t),
        (m.with_edge(s, t).neighbors)(s).len() == (m.neighbors)(s).len() + 1,
        m.with_edge(s, t).vertices.contains(s),
        m.with_edge(s, t).vertices.contains(t),
        forall|v: VertexId| v != s ==> #[trigger] (m.with_edge(s, t).neighbors)(v) == (m.neighbors)(v),
        forall|v: VertexId| m.vertices.contains(v) ==> #[trigger] m.with_edge(s, t).vertices.contains(v),
{
    let n1 = (m.with_edge(s, t).neighbors)(s);
    assert(n1[n1.len() - 1] == t);
    let m1 = m.with_vertex(s);
    assert(m1.vertices.contains(s)) by {
        if !m.vertices.contains(s) {
            assert(m1.vertices[m1.vertices.len() - 1] == s);
        }
    }
    let m2 = m1.with_vertex(t);
    assert(m2.vertices.contains(t)) by {
        if !m1.vertices.contains(t) {
            assert(m2.vertices[m2.vertices.len() - 1] == t);
        }
    }
    assert forall|v: VertexId| m1.vertices.contains(v) implies m2.vertices.contains(v) by {
        let k = choose|k: int| 0 <= k < m1.vertices.len() && m1.vertices[k] == v;
        assert(m2.vertices[k] == v);
    }
    assert forall|v: VertexId| m.vertices.contains(v) implies m1.vertices.contains(v) by {
        let k = choose|k: int| 0 <= k < m.vertices.len() && m.vertices[k] == v;
        assert(m1.vertices[k] == v);
    }
}

/// The adjacency store: each vertex's outgoing neighbours in the order the
/// edges were added, and the id the next edge gets.
pub struct GraphStore {
    adjacency: IdMap<Vec<VertexId>>,
    next_edge_id: u64,
}

/// Whether a vertex id lies in `start..=end`.
pub open spec fn id_range(start: VertexId, end: VertexId) -> spec_fn(VertexId) -> bool {
    |v: VertexId| start.id <= v.id <= end.id
}

/// A copy of a list of vertex ids.
pub fn copy_ids(v: &Vec<VertexId>) -> (r: Vec<VertexId>)
    ensures
        r@ == v@,
{
    let mut r: Vec<VertexId> = Vec::new();
    let mut i: usize = 0;
    while i < v.len()
        invariant
            i <= v.len(),
            r@ == v@.subrange(0, i as int),
        decreases v.len() - i,
    {
        r.push(v[i]);
        i = i + 1;
        assert(r@ =~= v@.subrange(0, i as int));
    }
    assert(v@.subrange(0, v.len() as int) =~= v@);
    r
}

impl GraphStore {
    /// Whether `v` is a vertex of the graph.
    pub closed spec fn spec_has_vertex(&self, v: VertexId) -> bool {
        self.adjacency@.contains_key(v.id)
    }

    /// The outgoing neighbours of `v`, in the order the edges were added (empty
    /// for an unknown vertex).
    pub closed spec fn spec_neighbors(&self, v: VertexId) -> Seq<VertexId> {
        if self.adjacency@.contains_key(v.id) {
            self.adjacency@[v.id]@
        } else {
            Seq::empty()
        }
    }

    /// The vertices, in the order in which they were first stored.
    pub closed spec fn spec_vertices(&self) -> Seq<VertexId> {
        self.adjacency.keys_seq().map_values(|k: u64| VertexId { id: k })
    }

    /// The id the next new edge gets.
    pub closed spec fn spec_next_edge_id(&self) -> u64 {
        self.next_edge_id
    }

    /// The model of this store.
    pub open spec fn model(&self) -> GraphModel {
        GraphModel {
            vertices: self.spec_vertices(),
            neighbors: |v: VertexId| self.spec_neighbors(v),
            next_edge: self.spec_next_edge_id(),
        }
    }

    /// The vertices are exactly the entries of the vertex sequence.
    pub proof fn lemma_vertices(&self)
        ensures
            forall|v: VertexId| #[trigger] self.spec_has_vertex(v) <==> self.spec_vertices().contains(v),
    {
        self.adjacency.lemma_dom();
        assert forall|v: VertexId| #[trigger] self.spec_has_vertex(v) <==> self.spec_vertices().contains(v) by {
            if self.spec_has_vertex(v) {
                assert(self.adjacency.keys_seq().contains(v.id));
                let i = choose|i: int| 0 <= i < self.adjacency.keys_seq().len() && self.adjacency.keys_seq()[i] == v.id;
                assert(self.spec_vertices()[i] == v);
            }
            if self.spec_vertices().contains(v) {
                let i = choose|i: int| 0 <= i < self.spec_vertices().len() && self.spec_vertices()[i] == v;
                assert(self.adjacency.keys_seq()[i] == v.id);
                assert(self.adjacency.keys_seq().contains(v.id));
            }
        }
    }

    /// An empty graph.
    pub fn new() -> (r: GraphStore)
        ensures
            r.model().vertices == Seq::<VertexId>::empty(),
            forall|v: VertexId| !r.spec_has_vertex(v),
            forall|v: VertexId| #[trigger] r.spec_neighbors(v) == Seq::<VertexId>::empty(),
            r.spec_next_edge_id() == 1,
    {
        let r = GraphStore { adjacency: IdMap::new(), next_edge_id: 1 };
        assert(r.spec_vertices() =~= Seq::<VertexId>::empty());
        r
    }

    /// Whether `v` is a vertex of the graph.
    pub fn contains_vertex(&self, v: VertexId) -> (r: bool)
        ensures
            r == self.spec_has_vertex(v),
    {
        self.adjacency.contains_key(v.id)
    }

    /// The outgoing neighbours of `v`.
    pub fn get_neighbors(&self, v: VertexId) -> (r: Vec<VertexId>)
        ensures
            r@ == self.spec_neighbors(v),
    {
        match self.adjacency.get(v.id) {
            Some(ns) => copy_ids(ns),
            None => Vec::new(),
        }
    }

    /// The vertices, in the order in which they were first stored.
    pub fn vertex_ids(&self) -> (r: Vec<VertexId>)
        ensures
            r@ == self.spec_vertices(),
    {
        let mut r: Vec<VertexId> = Vec::new();
        let n = self.adjacency.len();
        let mut i: usize = 0;
        while i < n
            invariant
                i <= n,
                n == self.adjacency.keys_seq().len(),
                r@ == self.spec_vertices().subrange(0, i as int),
            decreases n - i,
        {
            let k = self.adjacency.key_at(i);
            r.push(VertexId::from_u64(k));
            i = i + 1;
            assert(r@ =~= self.spec_vertices().subrange(0, i as int));
        }
        assert(self.spec_vertices().subrange(0, n as int) =~= self.spec_vertices());
        r
    }

    /// Makes `v` a vertex; an existing vertex is left as it is.
    pub fn add_vertex(&mut self, v: VertexId)
        ensures
            final(self).model() == old(self).model().with_vertex(v),
            forall|w: VertexId| #[trigger] final(self).spec_has_vertex(w) <==> old(self).spec_has_vertex(w) || w == v,
    {
        proof {
            old(self).lemma_vertices();
        }
        if !self.adjacency.contains_key(v.id) {
            self.adjacency.insert(v.id, Vec::new());
            assert(self.spec_vertices() =~= old(self).spec_vertices().push(v));
            assert forall|w: VertexId| #[trigger] self.spec_neighbors(w) == old(self).spec_neighbors(w) by {
                if w.id == v.id {
                    assert(self.adjacency@[v.id]@ =~= Seq::<VertexId>::empty());
                }
            }
            assert(!old(self).spec_has_vertex(v));
            assert(!old(self).spec_vertices().contains(v));
            assert(self.model().vertices == old(self).model().with_vertex(v).vertices);
        } else {
            assert(old(self).spec_has_vertex(v));
            assert(old(self).spec_vertices().contains(v));
        }
        assert(self.model().neighbors =~= old(self).model().neighbors);
        assert(self.model().neighbors == old(self).model().with_vertex(v).neighbors);
    }

    /// Hands out the next edge id.
    pub fn fresh_edge_id(&mut self) -> (r: EdgeId)
        ensures
            r.id == old(self).spec_next_edge_id(),
            final(self).model() == old(self).model().with_fresh_edge_id(),
    {
        let id = EdgeId::from_u64(self.next_edge_id);
        self.next_edge_id = self.next_edge_id.wrapping_add(1);
        assert(self.model().neighbors =~= old(self).model().neighbors);
        id
    }

    /// Adds an edge from `source` to `target`: `target` goes last among the
    /// neighbours of `source`, and both become vertices.
    pub fn add_edge(&mut self, source: VertexId, target: VertexId)
        ensures
            final(self).model() == old(self).model().with_edge(source, target),
            final(self).spec_neighbors(source) == old(self).spec_neighbors(source).push(target),
    {
        let ghost start = *self;
        self.add_vertex(source);
        let ghost mid = *self;
        assert(mid.spec_has_vertex(source));
        assert(mid.adjacency@.contains_key(source.id));
        let mut ns = match self.adjacency.get(source.id) {
            Some(ns) => copy_ids(ns),
            None => Vec::new(),
        };
        assert(ns@ == mid.spec_neighbors(source));
        ns.push(target);
        self.adjacency.insert(source.id, ns);
        assert forall|w: VertexId| w != source implies #[trigger] self.spec_neighbors(w) == mid.spec_neighbors(w) by {
            assert(w.id != source.id);
        }
        proof {
            mid.lemma_vertices();
            self.lemma_vertices();
            assert(self.spec_vertices() =~= mid.spec_vertices());
        }
        let ghost after_edge = *self;
        self.add_vertex(target);
        assert(self.model().vertices == old(self).model().with_edge(source, target).vertices);
        assert(self.model().neighbors =~= old(self).model().with_edge(source, target).neighbors) by {
            assert forall|w: VertexId| #[trigger] (self.model().neighbors)(w) == (old(self).model().with_edge(source, target).neighbors)(w) by {
                assert((self.model().neighbors)(w) == (after_edge.model().neighbors)(w));
                assert((mid.model().neighbors)(w) == (start.model().neighbors)(w));
                assert((start.model().neighbors)(w) == (old(self).model().neighbors)(w));
            }
        }
        assert((self.model().neighbors)(source) == (old(self).model().with_edge(source, target).neighbors)(source));
    }

    /// Whether there is an edge from `source` to `target`.
    pub fn has_edge(&self, source: VertexId, target: VertexId) -> (r: bool)
        ensures
            r == self.spec_neighbors(source).contains(target),
    {
        let ns = self.get_neighbors(source);
        let mut i: usize = 0;
        while i < ns.len()
            invariant
                i <= ns.len(),
                ns@ == self.spec_neighbors(source),
                forall|j: int| 0 <= j < i ==> ns@[j] != target,
            decreases ns.len() - i,
        {
            if ns[i] == target {
                return true;
            }
            i = i + 1;
        }
        false
    }

    /// The number of outgoing neighbours of `v`.
    pub fn get_degree(&self, v: VertexId) -> (r: usize)
        ensures
            r == self.spec_neighbors(v).len(),
    {
        match self.adjacency.get(v.id) {
            Some(ns) => ns.len(),
            None => 0,
        }
    }

    /// The vertices whose ids lie in `start..=end`, in stored order.
    pub fn range(&self, start: VertexId, end: VertexId) -> (r: Vec<VertexId>)
        ensures
            r@ == self.spec_vertices().filter(id_range(start, end)),
    {
        let all = self.vertex_ids();
        let ghost f = id_range(start, end);
        let mut r: Vec<VertexId> = Vec::new();
        let mut i: usize = 0;
        while i < all.len()
            invariant
                i <= all.len(),
                f == id_range(start, end),
                r@ == all@.subrange(0, i as int).filter(f),
            decreases all.len() - i,
        {
            let v = all[i];
            proof {
                let s = all@.subrange(0, i + 1);
                assert(s.drop_last() =~= all@.subrange(0, i as int));
                reveal_with_fuel(Seq::filter, 1);
            }
            if start.id <= v.id && v.id <= end.id {
                r.push(v);
            }
            i = i + 1;
        }
        assert(all@.subrange(0, all.len() as int) =~= all@);
        r
    }
}

/// The model of a property store: the properties of each vertex and of each
/// edge (empty where none are stored), and the vertices that have stored
/// properties, in the order in which they were first stored.
pub struct PropsModel {
    pub vertex_props: spec_fn(VertexId) -> Seq<(Seq<char>, PropValue)>,
    pub edge_props: spec_fn(EdgeId) -> Seq<(Seq<char>, PropValue)>,
    pub vertex_order: Seq<VertexId>,
}

impl PropsModel {
    pub open spec fn with_vertex_props(self, v: VertexId, p: Seq<(Seq<char>, PropValue)>) -> PropsModel {
        let f = self.vertex_props;
        PropsModel {
            vertex_props: |w: VertexId| if w == v { p } else { f(w) },
            vertex_order: if self.vertex_order.contains(v) { self.vertex_order } else { self.vertex_order.push(v) },
            ..self
        }
    }

    pub open spec fn with_edge_props(self, e: EdgeId, p: Seq<(Seq<char>, PropValue)>) -> PropsModel {
        let f = self.edge_props;
        PropsModel { edge_props: |x: EdgeId| if x == e { p } else { f(x) }, ..self }
    }
}

/// Stored properties read back: after the properties of vertex `v` are set,
/// reading `v` gives them and every other vertex reads as before; the same
/// for edges.
pub proof fn lemma_props_read_back(m: PropsModel, v: VertexId, e: EdgeId, p: Seq<(Seq<char>, PropValue)>)
    ensures
        (m.with_vertex_props(v, p).vertex_props)(v) == p,
        forall|w: VertexId| w != v ==> #[trigger] (m.with_vertex_props(v, p).vertex_props)(w) == (m.vertex_props)(w),
        m.with_vertex_props(v, p).vertex_order.contains(v),
        (m.with_edge_props(e, p).edge_props)(e) == p,
        forall|x: EdgeId| x != e ==> #[trigger] (m.with_edge_props(e, p).edge_props)(x) == (m.edge_props)(x),
{
    let o = m.with_vertex_props(v, p).vertex_order;
    if !m.vertex_order.contains(v) {
        assert(o[o.len() - 1] == v);
    }
}

/// The property store: the properties of vertices and of edges.
pub struct PropertyStore {
    vertex_props: IdMap<Properties>,
    edge_props: IdMap<Properties>,
}

impl PropertyStore {
    /// The properties stored for vertex `v` (empty where none are).
    pub closed spec fn spec_vertex_props(&self, v: VertexId) -> Seq<(Seq<char>, PropValue)> {
        if self.vertex_props@.contains_key(v.id) {
            self.vertex_props@[v.id].entries_model()
        } else {
            Seq::empty()
        }
    }

    /// The properties stored for edge `e` (empty where none are).
    pub closed spec fn spec_edge_props(&self, e: EdgeId) -> Seq<(Seq<char>, PropValue)> {
        if self.edge_props@.contains_key(e.id) {
            self.edge_props@[e.id].entries_model()
        } else {
            Seq::empty()
        }
    }

    /// The vertices with stored properties, in the order in which they were
    /// first stored.
    pub closed spec fn spec_vertex_order(&self) -> Seq<VertexId> {
        self.vertex_props.keys_seq().map_values(|k: u64| VertexId { id: k })
    }

    pub open spec fn model(&self) -> PropsModel {
        PropsModel {
            vertex_props: |v: VertexId| self.spec_vertex_props(v),
            edge_props: |e: EdgeId| self.spec_edge_props(e),
            vertex_order: self.spec_vertex_order(),
        }
    }

    /// An empty store.
    pub fn new() -> (r: PropertyStore)
        ensures
            forall|v: VertexId| #[trigger] r.spec_vertex_props(v) == Seq::<(Seq<char>, PropValue)>::empty(),
            forall|e: EdgeId| #[trigger] r.spec_edge_props(e) == Seq::<(Seq<char>, PropValue)>::empty(),
            r.spec_vertex_order() == Seq::<VertexId>::empty(),
    {
        let r = PropertyStore { vertex_props: IdMap::new(), edge_props: IdMap::new() };
        assert(r.spec_vertex_order() =~= Seq::<VertexId>::empty());
        r
    }

    /// The vertices with stored properties, in the order in which they were
    /// first stored.
    pub fn get_all_vertex_ids(&self) -> (r: Vec<VertexId>)
        ensures
            r@ == self.spec_vertex_order(),
    {
        let mut r: Vec<VertexId> = Vec::new();
        let n = self.vertex_props.len();
        let mut i: usize = 0;
        while i < n
            invariant
                i <= n,
                n == self.vertex_props.keys_seq().len(),
                r@ == self.spec_vertex_order().subrange(0, i as int),
            decreases n - i,
        {
            let k = self.vertex_props.key_at(i);
            r.push(VertexId::from_u64(k));
            i = i + 1;
            assert(r@ =~= self.spec_vertex_order().subrange(0, i as int));
        }
        assert(self.spec_vertex_order().subrange(0, n as int) =~= self.spec_vertex_order());
        r
    }

    /// A copy of the properties of vertex `v` (empty where it has none).
    pub fn get_vertex_properties(&self, v: VertexId) -> (r: Properties)
        ensures
            r.entries_model() == self.spec_vertex_props(v),
    {
        match self.vertex_props.get(v.id) {
            Some(p) => p.duplicate(),
            None => Properties::new(),
        }
    }

    /// Borrows the properties of vertex `v`, where it has any stored.
    pub fn vertex_properties_ref(&self, v: VertexId) -> (r: Option<&Properties>)
        ensures
            match r {
                Some(p) => p.entries_model() == self.spec_vertex_props(v),
                None => self.spec_vertex_props(v) == Seq::<(Seq<char>, PropValue)>::empty(),
            },
    {
        self.vertex_props.get(v.id)
    }

    /// Borrows the properties of edge `e`, where it has any stored.
    pub fn edge_properties_ref(&self, e: EdgeId) -> (r: Option<&Properties>)
        ensures
            match r {
                Some(p) => p.entries_model() == self.spec_edge_props(e),
                None => self.spec_edge_props(e) == Seq::<(Seq<char>, PropValue)>::empty(),
            },
    {
        self.edge_props.get(e.id)
    }

    /// A copy of the properties of edge `e` (empty where it has none).
    pub fn get_edge_properties(&self, e: EdgeId) -> (r: Properties)
        ensures
            r.entries_model() == self.spec_edge_props(e),
    {
        match self.edge_props.get(e.id) {
            Some(p) => p.duplicate(),
            None => Properties::new(),
        }
    }

    /// Replaces the properties of vertex `v`.
    pub fn set_vertex_properties(&mut self, v: VertexId, props: Properties)
        ensures
            final(self).model() == old(self).model().with_vertex_props(v, props.entries_model()),
    {
        let ghost pm = props.entries_model();
        self.vertex_props.insert(v.id, props);
        proof {
            self.vertex_props.lemma_dom();
            old(self).vertex_props.lemma_dom();
            assert(self.model().vertex_props =~= old(self).model().with_vertex_props(v, pm).vertex_props) by {
                assert forall|w: VertexId| #[trigger] self.spec_vertex_props(w) == (old(self).model().with_vertex_props(v, pm).vertex_props)(w) by {
                    if w != v {
                        assert(w.id != v.id);
                    }
                }
            }
            assert(self.model().edge_props =~= old(self).model().edge_props);
            if old(self).vertex_props@.contains_key(v.id) {
                assert(self.spec_vertex_order() =~= old(self).spec_vertex_order());
                let i = choose|i: int| 0 <= i < old(self).vertex_props.keys_seq().len() && old(self).vertex_props.keys_seq()[i] == v.id;
                assert(old(self).spec_vertex_order()[i] == v);
            } else {
                assert(self.spec_vertex_order() =~= old(self).spec_vertex_order().push(v));
                if old(self).spec_vertex_order().contains(v) {
                    let i = choose|i: int| 0 <= i < old(self).spec_vertex_order().len() && old(self).spec_vertex_order()[i] == v;
                    assert(old(self).vertex_props.keys_seq()[i] == v.id);
                }
            }
        }
    }

    /// Replaces the properties of edge `e`.
    pub fn set_edge_properties(&mut self, e: EdgeId, props: Properties)
        ensures
            final(self).model() == old(self).model().with_edge_props(e, props.entries_model()),
    {
        let ghost pm = props.entries_model();
        self.edge_props.insert(e.id, props);
        assert(self.model().edge_props =~= old(self).model().with_edge_props(e, pm).edge_props) by {
            assert forall|x: EdgeId| #[trigger] self.spec_edge_props(x) == (old(self).model().with_edge_props(e, pm).edge_props)(x) by {
                if x != e {
                    assert(x.id != e.id);
                }
            }
        }
        assert(self.model().vertex_props =~= old(self).model().vertex_props);
    }
}

/// The graph: vertices and edges over the adjacency store.
pub struct Graph {
    storage: GraphStore,
}

impl Graph {
    pub closed spec fn spec_storage(&self) -> GraphStore {
        self.storage
    }

    /// A graph over the given store.
    pub fn new(storage: GraphStore) -> (r: Graph)
        ensures
            r.spec_storage() == storage,
    {
        Graph { storage }
    }

    /// The underlying store.
    pub fn storage(&self) -> (r: &GraphStore)
        ensures
            *r == self.spec_storage(),
    {
        &self.storage
    }

    /// The vertex with id `vertex_id`, with no properties, where the store
    /// knows it.
    pub fn get_vertex(&self, vertex_id: VertexId) -> (r: Option<Vertex>)
        ensures
            match r {
                Some(v) => self.spec_storage().spec_has_vertex(vertex_id) && v.spec_id() == vertex_id
                    && v.spec_properties() == Map::<Seq<char>, PropValue>::empty(),
                None => !self.spec_storage().spec_has_vertex(vertex_id),
            },
    {
        if self.storage.contains_vertex(vertex_id) {
            Some(Vertex::new(vertex_id, Properties::new()))
        } else {
            None
        }
    }

    /// Adds an edge from `source` to `target` and returns it with a fresh
    /// id and the given properties (none where `None`).
    pub fn add_edge(&mut self, source: VertexId, target: VertexId, properties: Option<Properties>) -> (r: Edge)
        ensures
            final(self).spec_storage().model() == old(self).spec_storage().model().with_edge(source, target)
                .with_fresh_edge_id(),
            r.spec_id().id == old(self).spec_storage().spec_next_edge_id(),
            r.spec_source() == source,
            r.spec_target() == target,
            r.spec_properties() == match properties {
                Some(p) => p@,
                None => Map::<Seq<char>, PropValue>::empty(),
            },
    {
        self.storage.add_edge(source, target);
        let edge_id = self.storage.fresh_edge_id();
        let props = match properties {
            Some(p) => p,
            None => Properties::new(),
        };
        Edge::new(edge_id, source, target, props)
    }

    /// The outgoing neighbours of `vertex_id`.
    pub fn get_neighbors(&self, vertex_id: VertexId) -> (r: Vec<VertexId>)
        ensures
            r@ == self.spec_storage().spec_neighbors(vertex_id),
    {
        self.storage.get_neighbors(vertex_id)
    }

    /// Whether there is an edge from `source` to `target`.
    pub fn has_edge(&self, source: VertexId, target: VertexId) -> (r: bool)
        ensures
            r == self.spec_storage().spec_neighbors(source).contains(target),
    {
        self.storage.has_edge(source, target)
    }

    /// The number of outgoing neighbours of `vertex_id`.
    pub fn get_degree(&self, vertex_id: VertexId) -> (r: usize)
        ensures
            r == self.spec_storage().spec_neighbors(vertex_id).len(),
    {
        self.storage.get_degree(vertex_id)
    }

    /// Hands out the next edge id.
    pub fn fresh_edge_id(&mut self) -> (r: EdgeId)
        ensures
            r.id == old(self).spec_storage().spec_next_edge_id(),
            final(self).spec_storage().model() == old(self).spec_storage().model().with_fresh_edge_id(),
    {
        self.storage.fresh_edge_id()
    }

    /// The vertices of the store, in the order in which they were first stored.
    pub fn vertex_ids(&self) -> (r: Vec<VertexId>)
        ensures
            r@ == self.spec_storage().model().vertices,
    {
        self.storage.vertex_ids()
    }

    /// Accepts a vertex id; the store learns of vertices from their edges, so
    /// nothing changes.
    pub fn add_vertex(&mut self, vertex_id: VertexId, properties: Option<Properties>)
        ensures
            *final(self) == *old(self),
    {
    }
}

} // verus!
