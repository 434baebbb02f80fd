//! The edge registry: every created edge with its endpoints and label, so
//! that edges can be found again from either end.
use crate::text::str_eq;
use crate::types::{EdgeId, VertexId};
use vstd::prelude::*;

verus! {

/// An edge with its endpoints and label.
#[derive(Debug, Clone)]
pub struct EdgeRegistryEntry {
    pub edge_id: EdgeId,
    pub source: VertexId,
    pub target: VertexId,
    pub label: String,
}

/// The model of an entry: edge, source, target and label.
pub type EntryView = (EdgeId, VertexId, VertexId, Seq<char>);

impl EdgeRegistryEntry {
    pub open spec fn view_of(&self) -> EntryView {
        (self.edge_id, self.source, self.target, self.label@)
    }

    /// A copy of this entry.
    pub fn duplicate(&self) -> (r: EdgeRegistryEntry)
        ensures
            r.view_of() == self.view_of(),
    {
        EdgeRegistryEntry {
            edge_id: self.edge_id,
            source: self.source,
            target: self.target,
            label: self.label.clone(),
        }
    }
}

/// The models of a list of entries.
pub open spec fn entries_view(s: Seq<EdgeRegistryEntry>) -> Seq<EntryView> {
    s.map_values(|e: EdgeRegistryEntry| e.view_of())
}

/// A label filter: `None` lets every label through.
pub open spec fn label_passes(filter: Option<Seq<char>>, label: Seq<char>) -> bool {
    match filter {
        Some(l) => label == l,
        None => true,
    }
}

/// Whether an entry ends at `v` (its source when `outgoing`, else its target)
/// and its label passes the filter.
pub open spec fn end_matches(outgoing: bool, v: VertexId, filter: Option<Seq<char>>) -> spec_fn(EntryView) -> bool {
    |e: EntryView| (if outgoing { e.1 } else { e.2 }) == v && label_passes(filter, e.3)
}

/// The entries leaving `v` whose label passes the filter, in registry order.
pub open spec fn outgoing_of(es: Seq<EntryView>, v: VertexId, filter: Option<Seq<char>>) -> Seq<EntryView> {
    es.filter(end_matches(true, v, filter))
}

/// The entries arriving at `v` whose label passes the filter, in registry order.
pub open spec fn incoming_of(es: Seq<EntryView>, v: VertexId, filter: Option<Seq<char>>) -> Seq<EntryView> {
    es.filter(end_matches(false, v, filter))
}

/// The registry after recording `e`: an entry with the same edge id is
/// replaced in place, otherwise `e` goes last.
pub open spec fn registered(es: Seq<EntryView>, e: EntryView) -> Seq<EntryView> {
    if exists|i: int| 0 <= i < es.len() && (#[trigger] es[i]).0 == e.0 {
        es.update(choose|i: int| 0 <= i < es.len() && (#[trigger] es[i]).0 == e.0, e)
    } else {
        es.push(e)
    }
}

/// A recorded edge is found again: among the edges leaving its source with
/// its label, and among the edges reaching its target.
pub proof fn lemma_registered_found(es: Seq<EntryView>, e: EntryView)
    ensures
        registered(es, e).contains(e),
        outgoing_of(registered(es, e), e.1, Some(e.3)).contains(e),
        outgoing_of(registered(es, e), e.1, None).contains(e),
        incoming_of(registered(es, e), e.2, Some(e.3)).contains(e),
        incoming_of(registered(es, e), e.2, None).contains(e),
{
    let r = registered(es, e);
    let i = if exists|i: int| 0 <= i < es.len() && (#[trigger] es[i]).0 == e.0 {
        choose|i: int| 0 <= i < es.len() && (#[trigger] es[i]).0 == e.0
    } else {
        es.len() as int
    };
    assert(r[i] == e);
    r.lemma_filter_contains(end_matches(true, e.1, Some(e.3)), i);
    r.lemma_filter_contains(end_matches(true, e.1, None), i);
    r.lemma_filter_contains(end_matches(false, e.2, Some(e.3)), i);
    r.lemma_filter_contains(end_matches(false, e.2, None), i);
}

/// The model of an optional label filter.
pub open spec fn filter_view(f: Option<&str>) -> Option<Seq<char>> {
    match f {
        Some(s) => Some(s@),
        None => None,
    }
}

/// Records edges and answers which edges leave or reach a vertex.
pub trait EdgeRegistry {
    /// The recorded entries, in the order in which their edges were first
    /// recorded.
    spec fn registry_entries(&self) -> Seq<EntryView>;

    /// Records an edge; an edge recorded before under the same id is replaced.
    fn register_edge(&mut self, edge_id: EdgeId, source: VertexId, target: VertexId, label: String)
        ensures
            final(self).registry_entries() == registered(
                old(self).registry_entries(),
                (edge_id, source, target, label@),
            ),
    ;

    /// The edges leaving `vertex_id` whose label passes the filter.
    fn get_outgoing_edges(&self, vertex_id: VertexId, label_filter: Option<&str>) -> (r: Vec<
        EdgeRegistryEntry,
    >)
        ensures
            entries_view(r@) == outgoing_of(self.registry_entries(), vertex_id, filter_view(label_filter)),
    ;

    /// The edges arriving at `vertex_id` whose label passes the filter.
    fn get_incoming_edges(&self, vertex_id: VertexId, label_filter: Option<&str>) -> (r: Vec<
        EdgeRegistryEntry,
    >)
        ensures
            entries_view(r@) == incoming_of(self.registry_entries(), vertex_id, filter_view(label_filter)),
    ;
}

/// An in-memory edge registry: the entries in recording order, each edge id
/// at most once.
pub struct EdgeTable {
    entries: Vec<EdgeRegistryEntry>,
}

impl EdgeTable {
    #[verifier::type_invariant]
    spec fn inv(self) -> bool {
        forall|i: int, j: int|
            0 <= i < j < self.entries@.len() ==> (#[trigger] self.entries@[i]).edge_id != (
            #[trigger] self.entries@[j]).edge_id
    }

    pub closed spec fn table_entries(&self) -> Seq<EntryView> {
        entries_view(self.entries@)
    }

    /// An empty registry.
    pub fn new() -> (r: EdgeTable)
        ensures
            r.table_entries() == Seq::<EntryView>::empty(),
    {
        let r = EdgeTable { entries: Vec::new() };
        assert(r.table_entries() =~= Seq::<EntryView>::empty());
        r
    }

    /// The number of recorded edges.
    pub fn len(&self) -> (r: usize)
        ensures
            r == self.table_entries().len(),
    {
        self.entries.len()
    }

    fn matching(&self, vertex_id: VertexId, label_filter: Option<&str>, outgoing: bool) -> (r: Vec<
        EdgeRegistryEntry,
    >)
        ensures
            outgoing ==> entries_view(r@) == outgoing_of(
                self.table_entries(),
                vertex_id,
                filter_view(label_filter),
            ),
            !outgoing ==> entries_view(r@) == incoming_of(
                self.table_entries(),
                vertex_id,
                filter_view(label_filter),
            ),
    {
        let ghost es = self.table_entries();
        let ghost f = filter_view(label_filter);
        let ghost pred = end_matches(outgoing, vertex_id, f);
        let mut r: Vec<EdgeRegistryEntry> = Vec::new();
        let mut i: usize = 0;
        while i < self.entries.len()
            invariant
                i <= self.entries.len(),
                es == self.table_entries(),
                es.len() == self.entries.len(),
                f == filter_view(label_filter),
                pred == end_matches(outgoing, vertex_id, f),
                entries_view(r@) == es.subrange(0, i as int).filter(pred),
            decreases self.entries.len() - i,
        {
            let e = &self.entries[i];
            let end = if outgoing { e.source } else { e.target };
            let label_ok = match label_filter {
                Some(l) => str_eq(e.label.as_str(), l),
                None => true,
            };
            proof {
                assert(es.subrange(0, i + 1).drop_last() =~= es.subrange(0, i as int));
                assert(es[i as int] == e.view_of());
                reveal_with_fuel(Seq::filter, 1);
            }
            if end == vertex_id && label_ok {
                let ghost before = r@;
                r.push(e.duplicate());
                assert(entries_view(r@) =~= entries_view(before).push(e.view_of()));
            }
            i = i + 1;
        }
        assert(es.subrange(0, es.len() as int) =~= es);
        r
    }
}

impl EdgeRegistry for EdgeTable {
    open spec fn registry_entries(&self) -> Seq<EntryView> {
        self.table_entries()
    }

    fn register_edge(&mut self, edge_id: EdgeId, source: VertexId, target: VertexId, label: String) {
        proof {
            use_type_invariant(&*self);
        }
        let ghost old_es = self.table_entries();
        let ghost e = (edge_id, source, target, label@);
        let entry = EdgeRegistryEntry { edge_id, source, target, label };
        let mut entries: Vec<EdgeRegistryEntry> = Vec::new();
        std::mem::swap(&mut entries, &mut self.entries);
        let ghost old_entries = entries@;
        match self.find_in(&entries, edge_id) {
            Some(i) => {
                let _old = entries.remove(i);
                entries.insert(i, entry);
                proof {
                    assert(entries@ =~= old_entries.update(i as int, entry));
                    assert(exists|k: int| 0 <= k < old_es.len() && (#[trigger] old_es[k]).0 == e.0) by {
                        assert(old_es[i as int].0 == e.0);
                    }
                    let c = choose|k: int| 0 <= k < old_es.len() && (#[trigger] old_es[k]).0 == e.0;
                    assert(old_entries[c].edge_id == edge_id);
                    assert(c == i as int);
                    assert(entries_view(entries@) =~= old_es.update(i as int, e));
                }
            },
            None => {
                entries.push(entry);
                proof {
                    assert(!exists|k: int| 0 <= k < old_es.len() && (#[trigger] old_es[k]).0 == e.0) by {
                        if exists|k: int| 0 <= k < old_es.len() && (#[trigger] old_es[k]).0 == e.0 {
                            let k = choose|k: int| 0 <= k < old_es.len() && (#[trigger] old_es[k]).0 == e.0;
                            assert(old_entries[k].edge_id == edge_id);
                        }
                    }
                    assert(entries_view(entries@) =~= old_es.push(e));
                }
            },
        }
        self.entries = entries;
    }

    fn get_outgoing_edges(&self, vertex_id: VertexId, label_filter: Option<&str>) -> (r: Vec<
        EdgeRegistryEntry,
    >) {
        self.matching(vertex_id, label_filter, true)
    }

    fn get_incoming_edges(&self, vertex_id: VertexId, label_filter: Option<&str>) -> (r: Vec<
        EdgeRegistryEntry,
    >) {
        self.matching(vertex_id, label_filter, false)
    }
}

impl EdgeTable {
    fn find_in(&self, entries: &Vec<EdgeRegistryEntry>, edge_id: EdgeId) -> (r: Option<usize>)
        ensures
            match r {
                Some(i) => i < entries@.len() && entries@[i as int].edge_id == edge_id,
                None => forall|j: int| 0 <= j < entries@.len() ==> entries@[j].edge_id != edge_id,
            },
    {
        let mut i: usize = 0;
        while i < entries.len()
            invariant
                i <= entries.len(),
                forall|j: int| 0 <= j < i ==> entries@[j].edge_id != edge_id,
            decreases entries.len() - i,
        {
            if entries[i].edge_id == edge_id {
                return Some(i);
            }
            i = i + 1;
        }
        None
    }
}

} // verus!
