use aster_db::gremlin::steps::{GremlinPredicate, GremlinStep};
use aster_db::graph::{Graph, GraphStore, PropertyStore};
use aster_db::gremlin::context::GremlinContext;
use aster_db::gremlin::engine::GremlinEngine;
use aster_db::gremlin::eval::FloatOp;
use aster_db::gremlin::results::GremlinResult;
use aster_db::gremlin::steps::GremlinTraversal;
use aster_db::query::QueryContext;
use aster_db::error::ErrorKind;
use aster_db::types::{FloatValue, Properties, PropertyValue, VertexId};

fn fv(f: f64) -> FloatValue {
    FloatValue { bits: f.to_bits(), text: f.to_string() }
}

fn arith(op: FloatOp) -> FloatValue {
    let f = match op {
        FloatOp::FromInt(i) => i as f64,
        FloatOp::Add(a, b) => f64::from_bits(a) + f64::from_bits(b),
        FloatOp::Max(a, b) => f64::from_bits(a).max(f64::from_bits(b)),
        FloatOp::Min(a, b) => f64::from_bits(a).min(f64::from_bits(b)),
        FloatOp::Div(a, b) => f64::from_bits(a) / f64::from_bits(b),
    };
    fv(f)
}

fn parse_float(s: String) -> Option<FloatValue> {
    s.parse::<f64>().ok().map(fv)
}

fn person(name: &str, age: i64, city: &str) -> Properties {
    let mut p = Properties::new();
    p.insert("name".to_string(), PropertyValue::String(name.to_string()));
    p.insert("age".to_string(), PropertyValue::Int(age));
    p.insert("city".to_string(), PropertyValue::String(city.to_string()));
    p
}

/// 1 -> 2, 1 -> 3, 2 -> 3, 3 -> 4
fn engine() -> GremlinEngine {
    let mut graph = Graph::new(GraphStore::new());
    let v = |i: u64| VertexId::from_u64(i);
    graph.add_edge(v(1), v(2), None);
    graph.add_edge(v(1), v(3), None);
    graph.add_edge(v(2), v(3), None);
    graph.add_edge(v(3), v(4), None);
    let mut store = PropertyStore::new();
    store.set_vertex_properties(v(1), person("alice", 30, "NYC"));
    store.set_vertex_properties(v(2), person("bob", 25, "LA"));
    store.set_vertex_properties(v(3), person("carol", 35, "NYC"));
    store.set_vertex_properties(v(4), person("dave", 40, "SF"));
    GremlinEngine::new(graph, Some(store))
}

fn parse(q: &str) -> GremlinTraversal {
    GremlinEngine::parse_query(q, &parse_float).unwrap()
}

fn run(e: &mut GremlinEngine, q: &str) -> Vec<GremlinResult> {
    let t = parse(q);
    let mut ctx = GremlinContext::new(QueryContext::default_context());
    e.execute(&t, &mut ctx, &arith).unwrap().0
}

fn ids(rs: &[GremlinResult]) -> Vec<u64> {
    rs.iter().map(|r| r.as_vertex().unwrap().as_u64()).collect()
}

fn texts(rs: &[GremlinResult]) -> Vec<String> {
    rs.iter().map(|r| r.to_string()).collect()
}

#[test]
fn count_all_vertices() {
    let mut e = engine();
    let r = run(&mut e, "g.V().count()");
    assert_eq!(r.len(), 1);
    assert_eq!(r[0].as_count(), Some(4));
}

#[test]
fn out_from_one_vertex() {
    let mut e = engine();
    let r = run(&mut e, "g.V(1).out()");
    assert_eq!(ids(&r), vec![2, 3]);
}

#[test]
fn two_hops_keep_duplicates_until_dedup() {
    let mut e = engine();
    let r = run(&mut e, "g.V(1).out().out()");
    assert_eq!(ids(&r), vec![3, 4]);
    let r2 = run(&mut e, "g.V(1).out().out().out()");
    assert_eq!(ids(&r2), vec![4]);
}

#[test]
fn has_filters_by_property() {
    let mut e = engine();
    let r = run(&mut e, "g.V().has('city', 'NYC').values('name')");
    assert_eq!(texts(&r), vec!["alice", "carol"]);
}

#[test]
fn values_of_out_neighbors() {
    let mut e = engine();
    let r = run(&mut e, "g.V(1).out().values('name')");
    assert_eq!(texts(&r), vec!["bob", "carol"]);
}

#[test]
fn limit_and_skip() {
    let mut e = engine();
    assert_eq!(ids(&run(&mut e, "g.V().limit(2)")).len(), 2);
    let all = ids(&run(&mut e, "g.V()"));
    let t = GremlinTraversal::v(None).skip(1);
    let mut ctx = GremlinContext::new(QueryContext::default_context());
    let skipped = ids(&e.execute(&t, &mut ctx, &arith).unwrap().0);
    assert_eq!(skipped, all[1..].to_vec());
}

#[test]
fn dedup_removes_repeats() {
    let mut e = engine();
    let r = run(&mut e, "g.V(1).out().out().dedup()");
    assert_eq!(ids(&r), vec![3, 4]);
    // A list of ids in V(..) is read as V(): every vertex.
    let all = run(&mut e, "g.V(1, 2).out().dedup()");
    assert_eq!(ids(&all), vec![2, 3, 4]);
}

#[test]
fn sum_and_mean_of_ages() {
    let mut e = engine();
    let s = run(&mut e, "g.V().values('age').sum()");
    assert_eq!(texts(&s), vec!["130"]);
    let mut ctx = GremlinContext::new(QueryContext::default_context());
    let mean = GremlinTraversal::v(None).values(vec!["age".to_string()]).mean();
    let m = e.execute(&mean, &mut ctx, &arith).unwrap().0;
    assert_eq!(texts(&m), vec!["32.5"]);
    let mut ctx = GremlinContext::new(QueryContext::default_context());
    let max = GremlinTraversal::v(None).values(vec!["age".to_string()]).max();
    let mx = e.execute(&max, &mut ctx, &arith).unwrap().0;
    assert_eq!(texts(&mx), vec!["40"]);
}

#[test]
fn unknown_step_is_rejected() {
    let err = GremlinEngine::parse_query("g.V().frobnicate()", &parse_float).unwrap_err();
    assert_eq!(err.kind(), ErrorKind::InvalidOperation);
}

#[test]
fn traversal_must_start_with_a_source() {
    let mut e = engine();
    let t = GremlinTraversal::new().count();
    let mut ctx = GremlinContext::new(QueryContext::default_context());
    let err = e.execute(&t, &mut ctx, &arith).unwrap_err();
    assert_eq!(err.kind(), ErrorKind::InvalidOperation);
}

#[test]
fn builder_matches_parser() {
    let mut e = engine();
    let t = GremlinTraversal::v(Some(vec![VertexId::from_u64(1)])).out(None).count();
    let mut ctx = GremlinContext::new(QueryContext::default_context());
    let r = e.execute(&t, &mut ctx, &arith).unwrap().0;
    assert_eq!(r[0].as_count(), Some(2));
}

#[test]
fn repeat_until_path_query_parses() {
    let t = parse("g.V(1).repeat(out()).until(hasId(4)).path()");
    assert_eq!(t.steps.len(), 4);
    assert!(matches!(&t.steps[0], GremlinStep::V(Some(ids)) if ids == &vec![VertexId::from_u64(1)]));
    match &t.steps[1] {
        GremlinStep::Repeat(inner, None) => {
            assert_eq!(inner.steps.len(), 1);
            assert!(matches!(&inner.steps[0], GremlinStep::Out(None)));
        }
        other => panic!("unexpected step {:?}", other),
    }
    match &t.steps[2] {
        GremlinStep::Until(p) => match p.as_ref() {
            GremlinPredicate::HasProperty(k, inner) => {
                assert_eq!(k, "id");
                assert!(matches!(inner.as_ref(), GremlinPredicate::Eq(PropertyValue::Int(4))));
            }
            other => panic!("unexpected condition {:?}", other),
        },
        other => panic!("unexpected step {:?}", other),
    }
    assert!(matches!(&t.steps[3], GremlinStep::Path));
    let bad = GremlinEngine::parse_query("g.V().until(out())", &parse_float).unwrap_err();
    assert_eq!(bad.kind(), ErrorKind::InvalidOperation);
}

#[test]
fn last_bind_of_a_label_is_read_back() {
    let mut ctx = GremlinContext::new(QueryContext::default_context());
    assert!(ctx.get_binding("a").is_none());
    ctx.bind("a".to_string(), GremlinResult::Count(1));
    ctx.bind("b".to_string(), GremlinResult::Count(2));
    ctx.bind("a".to_string(), GremlinResult::Count(3));
    assert_eq!(ctx.get_binding("a"), Some(&GremlinResult::Count(3)));
    assert_eq!(ctx.get_binding("b"), Some(&GremlinResult::Count(2)));
    assert!(ctx.get_binding("c").is_none());
}

#[test]
fn property_values_are_read_except_a_lone_quote() {
    assert_eq!(GremlinEngine::parse_property_value(" 'Alice' ", &parse_float), Some(PropertyValue::String("Alice".to_string())));
    assert_eq!(GremlinEngine::parse_property_value("\"Bob\"", &parse_float), Some(PropertyValue::String("Bob".to_string())));
    assert_eq!(GremlinEngine::parse_property_value("42", &parse_float), Some(PropertyValue::Int(42)));
    assert_eq!(GremlinEngine::parse_property_value("true", &parse_float), Some(PropertyValue::Bool(true)));
    assert_eq!(GremlinEngine::parse_property_value("name", &parse_float), Some(PropertyValue::String("name".to_string())));
    assert_eq!(GremlinEngine::parse_property_value(" ' ", &parse_float), None);
    assert_eq!(GremlinEngine::parse_property_value("\"", &parse_float), None);
}
