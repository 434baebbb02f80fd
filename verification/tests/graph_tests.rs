use aster_db::graph::{Edge, Graph, GraphStore, PropertyStore, Vertex};
use aster_db::types::{EdgeId, Properties, PropertyValue, VertexId};

fn props(pairs: &[(&str, PropertyValue)]) -> Properties {
    let mut p = Properties::new();
    for (k, v) in pairs {
        p.insert(k.to_string(), v.duplicate());
    }
    p
}

#[test]
fn test_graph_operations() {
    let mut graph = Graph::new(GraphStore::new());
    let v1_id = VertexId::from_u64(1);
    let v2_id = VertexId::from_u64(2);
    let v1 = Vertex::new(v1_id, Properties::new());
    let v2 = Vertex::new(v2_id, Properties::new());
    let _edge = graph.add_edge(v1.id(), v2.id(), None);
    assert!(graph.has_edge(v1.id(), v2.id()));
    assert_eq!(graph.get_degree(v1.id()), 1);
}

#[test]
fn edges_are_directed_and_kept_in_order() {
    let mut graph = Graph::new(GraphStore::new());
    let a = VertexId::from_u64(10);
    let b = VertexId::from_u64(20);
    let c = VertexId::from_u64(30);
    let e1 = graph.add_edge(a, b, None);
    let e2 = graph.add_edge(a, c, None);
    assert_eq!(e1.source(), a);
    assert_eq!(e1.target(), b);
    assert_ne!(e1.id(), e2.id());
    assert!(!graph.has_edge(b, a));
    assert_eq!(graph.get_neighbors(a), vec![b, c]);
    assert_eq!(graph.get_neighbors(b), Vec::<VertexId>::new());
    assert_eq!(graph.get_degree(c), 0);
}

#[test]
fn edge_ids_count_up_from_the_store() {
    let mut graph = Graph::new(GraphStore::new());
    let a = VertexId::from_u64(1);
    let b = VertexId::from_u64(2);
    let e1 = graph.add_edge(a, b, None);
    let e2 = graph.add_edge(b, a, None);
    assert_eq!(e2.id().as_u64(), e1.id().as_u64() + 1);
}

#[test]
fn vertices_appear_with_their_edges() {
    let mut graph = Graph::new(GraphStore::new());
    let a = VertexId::from_u64(5);
    let b = VertexId::from_u64(6);
    assert!(graph.get_vertex(a).is_none());
    graph.add_edge(a, b, None);
    let v = graph.get_vertex(a).unwrap();
    assert_eq!(v.id(), a);
    assert!(v.properties().is_empty());
    let ids = graph.vertex_ids();
    assert!(ids.contains(&a));
    assert!(ids.contains(&b));
}

#[test]
fn edge_keeps_given_properties() {
    let mut graph = Graph::new(GraphStore::new());
    let p = props(&[("weight", PropertyValue::Int(3))]);
    let e: Edge = graph.add_edge(VertexId::from_u64(1), VertexId::from_u64(2), Some(p));
    assert!(e.has_property("weight"));
    assert!(matches!(e.get_property("weight"), Some(PropertyValue::Int(3))));
    assert!(e.get_property("missing").is_none());
}

#[test]
fn vertex_property_set_get_remove() {
    let mut v = Vertex::new(VertexId::from_u64(7), Properties::new());
    v.set_property("name".to_string(), PropertyValue::String("alice".to_string()));
    assert!(v.has_property("name"));
    assert_eq!(v.get_property("name").and_then(|p| p.as_string()).map(|s| s.as_str()), Some("alice"));
    v.set_property("name".to_string(), PropertyValue::String("bob".to_string()));
    assert_eq!(v.properties().len(), 1);
    let old = v.remove_property("name");
    assert!(matches!(old, Some(PropertyValue::String(ref s)) if s == "bob"));
    assert!(!v.has_property("name"));
    assert!(v.remove_property("name").is_none());
}

#[test]
fn properties_insert_replaces_and_returns_old() {
    let mut p = Properties::new();
    assert!(p.insert("a".to_string(), PropertyValue::Int(1)).is_none());
    let old = p.insert("a".to_string(), PropertyValue::Int(2));
    assert!(matches!(old, Some(PropertyValue::Int(1))));
    assert_eq!(p.len(), 1);
    assert!(matches!(p.get("a"), Some(PropertyValue::Int(2))));
    assert!(p.contains_key("a"));
    assert!(!p.contains_key("b"));
}

#[test]
fn property_store_round_trips() {
    let mut store = PropertyStore::new();
    let v = VertexId::from_u64(9);
    let e = EdgeId::from_u64(4);
    assert!(store.get_vertex_properties(v).is_empty());
    store.set_vertex_properties(v, props(&[("age", PropertyValue::Int(30))]));
    store.set_edge_properties(e, props(&[("since", PropertyValue::Int(2020))]));
    assert!(matches!(store.get_vertex_properties(v).get("age"), Some(PropertyValue::Int(30))));
    assert!(matches!(store.get_edge_properties(e).get("since"), Some(PropertyValue::Int(2020))));
    assert_eq!(store.get_all_vertex_ids(), vec![v]);
}

#[test]
fn store_range_includes_both_ends() {
    let mut store = GraphStore::new();
    for i in [3u64, 1, 7, 5] {
        store.add_vertex(VertexId::from_u64(i));
    }
    let r = store.range(VertexId::from_u64(2), VertexId::from_u64(7));
    let ids: Vec<u64> = r.iter().map(|v| v.as_u64()).collect();
    assert_eq!(ids, vec![3, 7, 5]);
}

#[test]
fn property_value_display() {
    assert_eq!(PropertyValue::Int(-42).to_string(), "-42");
    assert_eq!(PropertyValue::Bool(true).to_string(), "true");
    assert_eq!(PropertyValue::String("x".to_string()).to_string(), "x");
    assert_eq!(PropertyValue::Null.to_string(), "null");
}
