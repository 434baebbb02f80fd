//! Results of traversals and their text forms.
use crate::gremlin::steps::GremlinStep;
use crate::text::{chars_of, concat_vec, decimal, string_from_chars, u64_to_chars};
use crate::types::{value_text, EdgeId, PropValue, Properties, PropertyValue, VertexId};
use vstd::prelude::*;

verus! {

/// One result of a traversal.
#[derive(Debug, PartialEq)]
pub enum GremlinResult {
    Vertex(VertexId),
    Edge(EdgeId),
    Value(PropertyValue),
    PropertyMap(Properties),
    Path(Vec<GremlinResult>),
    Count(u64),
    List(Vec<GremlinResult>),
    /// A map from names to results; each name occurs at most once.
    Mapping(Vec<(String, GremlinResult)>),
    Null,
    /// An edge waiting for its target (`addE` before `to`).
    IncompleteEdge(VertexId, String),
}

/// Model of a result; property maps keep their entry order.
pub enum ResultView {
    Vertex(VertexId),
    Edge(EdgeId),
    Value(PropValue),
    PropertyMap(Seq<(Seq<char>, PropValue)>),
    Path(Seq<ResultView>),
    Count(u64),
    List(Seq<ResultView>),
    Mapping(Seq<(Seq<char>, ResultView)>),
    Null,
    IncompleteEdge(VertexId, Seq<char>),
}

pub open spec fn result_view(r: GremlinResult) -> ResultView
    decreases r,
{
    match r {
        GremlinResult::Vertex(v) => ResultView::Vertex(v),
        GremlinResult::Edge(e) => ResultView::Edge(e),
        GremlinResult::Value(v) => ResultView::Value(v@),
        GremlinResult::PropertyMap(p) => ResultView::PropertyMap(p.entries_model()),
        GremlinResult::Path(v) => ResultView::Path(
            Seq::new(
                v.len() as nat,
                |i: int|
                    if 0 <= i < v.len() {
                        result_view(v[i])
                    } else {
                        ResultView::Null
                    },
            ),
        ),
        GremlinResult::Count(c) => ResultView::Count(c),
        GremlinResult::List(v) => ResultView::List(
            Seq::new(
                v.len() as nat,
                |i: int|
                    if 0 <= i < v.len() {
                        result_view(v[i])
                    } else {
                        ResultView::Null
                    },
            ),
        ),
        GremlinResult::Mapping(v) => ResultView::Mapping(
            Seq::new(
                v.len() as nat,
                |i: int|
                    if 0 <= i < v.len() {
                        (v[i].0@, result_view(v[i].1))
                    } else {
                        (Seq::empty(), ResultView::Null)
                    },
            ),
        ),
        GremlinResult::Null => ResultView::Null,
        GremlinResult::IncompleteEdge(v, l) => ResultView::IncompleteEdge(v, l@),
    }
}

/// The models of a sequence of results.
pub open spec fn results_view(v: Seq<GremlinResult>) -> Seq<ResultView> {
    v.map_values(|r: GremlinResult| result_view(r))
}

/// The texts `xs` joined with `, ` between them.
pub open spec fn join_comma(xs: Seq<Seq<char>>) -> Seq<char>
    decreases xs.len(),
{
    if xs.len() == 0 {
        Seq::empty()
    } else if xs.len() == 1 {
        xs[0]
    } else {
        join_comma(xs.drop_last()) + seq![',', ' '] + xs.last()
    }
}

pub open spec fn bracketed(open: char, body: Seq<char>, close: char) -> Seq<char> {
    seq![open] + body + seq![close]
}

/// The text of a property map: `{k1=v1, k2=v2}`.
pub open spec fn property_map_text(es: Seq<(Seq<char>, PropValue)>) -> Seq<char> {
    bracketed(
        '{',
        join_comma(es.map_values(|e: (Seq<char>, PropValue)| e.0 + seq!['='] + value_text(e.1))),
        '}',
    )
}

/// The texts of `items`, in order.
pub open spec fn texts_of(items: Seq<ResultView>) -> Seq<Seq<char>>
    decreases items,
{
    if items.len() == 0 {
        Seq::empty()
    } else {
        texts_of(items.drop_last()).push(result_text(items.last()))
    }
}

/// The `name=text` forms of map entries, in order.
pub open spec fn entry_texts(es: Seq<(Seq<char>, ResultView)>) -> Seq<Seq<char>>
    decreases es,
{
    if es.len() == 0 {
        Seq::empty()
    } else {
        entry_texts(es.drop_last()).push(es.last().0 + seq!['='] + result_text(es.last().1))
    }
}

/// The display text of a result: `v[id]`, `e[id]`, a value's text, a map as
/// `{k=v, ...}`, a path or list as `[a, b]`, a count in decimal, `null`, or
/// `incomplete_edge[id, label]`.
pub open spec fn result_text(r: ResultView) -> Seq<char>
    decreases r,
{
    match r {
        ResultView::Vertex(v) => seq!['v', '['] + decimal(v.id as nat) + seq![']'],
        ResultView::Edge(e) => seq!['e', '['] + decimal(e.id as nat) + seq![']'],
        ResultView::Value(v) => value_text(v),
        ResultView::PropertyMap(es) => property_map_text(es),
        ResultView::Path(items) => bracketed('[', join_comma(texts_of(items)), ']'),
        ResultView::Count(c) => decimal(c as nat),
        ResultView::List(items) => bracketed('[', join_comma(texts_of(items)), ']'),
        ResultView::Mapping(es) => bracketed('{', join_comma(entry_texts(es)), '}'),
        ResultView::Null => seq!['n', 'u', 'l', 'l'],
        ResultView::IncompleteEdge(v, l) => "incomplete_edge["@ + decimal(v.id as nat) + seq![
            ',',
            ' ',
        ] + l + seq![']'],
    }
}

proof fn lemma_texts_of(items: Seq<ResultView>)
    ensures
        texts_of(items).len() == items.len(),
        forall|i: int| 0 <= i < items.len() ==> #[trigger] texts_of(items)[i] == result_text(items[i]),
    decreases items.len(),
{
    if items.len() > 0 {
        lemma_texts_of(items.drop_last());
    }
}

proof fn lemma_entry_texts(es: Seq<(Seq<char>, ResultView)>)
    ensures
        entry_texts(es).len() == es.len(),
        forall|i: int| 0 <= i < es.len() ==> #[trigger] entry_texts(es)[i] == es[i].0 + seq!['='] + result_text(es[i].1),
    decreases es.len(),
{
    if es.len() > 0 {
        lemma_entry_texts(es.drop_last());
    }
}

/// Appends `b` to `a`.
fn append_chars(a: &mut Vec<char>, b: &Vec<char>)
    ensures
        final(a)@ == old(a)@ + b@,
{
    let mut j: usize = 0;
    let ghost a0 = a@;
    while j < b.len()
        invariant
            j <= b.len(),
            a@ == a0 + b@.subrange(0, j as int),
        decreases b.len() - j,
    {
        a.push(b[j]);
        j = j + 1;
        assert(a@ =~= a0 + b@.subrange(0, j as int));
    }
    assert(b@.subrange(0, b.len() as int) =~= b@);
}

proof fn lemma_join_push(xs: Seq<Seq<char>>, x: Seq<char>)
    ensures
        join_comma(xs.push(x)) == if xs.len() == 0 {
            x
        } else {
            join_comma(xs) + seq![',', ' '] + x
        },
{
    assert(xs.push(x).drop_last() =~= xs);
}

fn id_text(prefix: char, id: u64) -> (r: Vec<char>)
    ensures
        r@ == seq![prefix, '['] + decimal(id as nat) + seq![']'],
{
    let mut r: Vec<char> = Vec::new();
    r.push(prefix);
    r.push('[');
    let d = u64_to_chars(id);
    append_chars(&mut r, &d);
    r.push(']');
    assert(r@ =~= seq![prefix, '['] + decimal(id as nat) + seq![']']);
    r
}

fn property_map_chars(p: &Properties) -> (r: Vec<char>)
    ensures
        r@ == property_map_text(p.entries_model()),
{
    let ghost es = p.entries_model();
    let ghost f = |e: (Seq<char>, PropValue)| e.0 + seq!['='] + value_text(e.1);
    let mut body: Vec<char> = Vec::new();
    let mut i: usize = 0;
    let n = p.len();
    while i < n
        invariant
            i <= n,
            n == es.len(),
            es == p.entries_model(),
            f == (|e: (Seq<char>, PropValue)| e.0 + seq!['='] + value_text(e.1)),
            body@ == join_comma(es.subrange(0, i as int).map_values(f)),
        decreases n - i,
    {
        let k = p.key_at(i);
        let v = p.value_at(i);
        let ghost prev = es.subrange(0, i as int).map_values(f);
        if i > 0 {
            body.push(',');
            body.push(' ');
        }
        let kc = chars_of(k.as_str());
        append_chars(&mut body, &kc);
        body.push('=');
        let vc = v.text_chars();
        append_chars(&mut body, &vc);
        proof {
            assert(es.subrange(0, i + 1).map_values(f) =~= prev.push(f(es[i as int])));
            lemma_join_push(prev, f(es[i as int]));
        }
        i = i + 1;
        assert(body@ =~= join_comma(es.subrange(0, i as int).map_values(f)));
    }
    assert(es.subrange(0, n as int) =~= es);
    let mut r: Vec<char> = Vec::new();
    r.push('{');
    append_chars(&mut r, &body);
    r.push('}');
    assert(r@ =~= bracketed('{', join_comma(es.map_values(f)), '}'));
    r
}

impl GremlinResult {
    /// The display text of this result, as characters.
    pub fn text_chars(&self) -> (r: Vec<char>)
        ensures
            r@ == result_text(result_view(*self)),
        decreases *self,
    {
        match self {
            GremlinResult::Vertex(v) => {
                let r = id_text('v', v.id);
                assert(result_view(*self) == ResultView::Vertex(*v));
                assert(r@ == result_text(result_view(*self)));
                r
            },
            GremlinResult::Edge(e) => {
                let r = id_text('e', e.id);
                assert(result_view(*self) == ResultView::Edge(*e));
                assert(r@ == result_text(result_view(*self)));
                r
            },
            GremlinResult::Value(v) => {
                let r = v.text_chars();
                assert(result_view(*self) == ResultView::Value(v@));
                assert(r@ == result_text(result_view(*self)));
                r
            },
            GremlinResult::PropertyMap(p) => {
                let r = property_map_chars(p);
                assert(result_view(*self) == ResultView::PropertyMap(p.entries_model()));
                assert(r@ == result_text(result_view(*self)));
                r
            },
            GremlinResult::Path(items) => {
                let body = Self::join_items(items);
                let mut r: Vec<char> = Vec::new();
                r.push('[');
                append_chars(&mut r, &body);
                r.push(']');
                proof {
                    let sv = match result_view(*self) {
                        ResultView::Path(sv) => sv,
                        _ => Seq::empty(),
                    };
                    assert(result_view(*self) == ResultView::Path(sv));
                    assert(sv.len() == items@.len());
                    lemma_texts_of(sv);
                    assert forall|i: int| 0 <= i < sv.len() implies sv[i] == result_view(items@[i]) by {}
                    assert(texts_of(sv) =~= items@.map_values(|x: GremlinResult| result_text(result_view(x))));
                }
                assert(r@ =~= bracketed('[', body@, ']'));
                assert(r@ == result_text(result_view(*self)));
                r
            },
            GremlinResult::Count(c) => {
                let r = u64_to_chars(*c);
                assert(result_view(*self) == ResultView::Count(*c));
                assert(r@ == result_text(result_view(*self)));
                r
            },
            GremlinResult::List(items) => {
                let body = Self::join_items(items);
                let mut r: Vec<char> = Vec::new();
                r.push('[');
                append_chars(&mut r, &body);
                r.push(']');
                proof {
                    let sv = match result_view(*self) {
                        ResultView::List(sv) => sv,
                        _ => Seq::empty(),
                    };
                    assert(result_view(*self) == ResultView::List(sv));
                    assert(sv.len() == items@.len());
                    lemma_texts_of(sv);
                    assert forall|i: int| 0 <= i < sv.len() implies sv[i] == result_view(items@[i]) by {}
                    assert(texts_of(sv) =~= items@.map_values(|x: GremlinResult| result_text(result_view(x))));
                }
                assert(r@ =~= bracketed('[', body@, ']'));
                assert(r@ == result_text(result_view(*self)));
                r
            },
            GremlinResult::Mapping(es) => {
                let body = Self::join_entries(es);
                let mut r: Vec<char> = Vec::new();
                r.push('{');
                append_chars(&mut r, &body);
                r.push('}');
                proof {
                    let sv = match result_view(*self) {
                        ResultView::Mapping(sv) => sv,
                        _ => Seq::empty(),
                    };
                    assert(result_view(*self) == ResultView::Mapping(sv));
                    assert(sv.len() == es@.len());
                    lemma_entry_texts(sv);
                    assert forall|i: int| 0 <= i < sv.len() implies sv[i] == (es@[i].0@, result_view(es@[i].1)) by {}
                    assert(entry_texts(sv) =~= es@.map_values(
                        |e: (String, GremlinResult)| e.0@ + seq!['='] + result_text(result_view(e.1)),
                    ));
                }
                assert(r@ =~= bracketed('{', body@, '}'));
                assert(r@ == result_text(result_view(*self)));
                r
            },
            GremlinResult::Null => {
                let mut r: Vec<char> = Vec::new();
                r.push('n');
                r.push('u');
                r.push('l');
                r.push('l');
                assert(r@ =~= seq!['n', 'u', 'l', 'l']);
                assert(result_view(*self) == ResultView::Null);
                assert(r@ == result_text(result_view(*self)));
                r
            },
            GremlinResult::IncompleteEdge(v, l) => {
                let mut r = chars_of("incomplete_edge[");
                let d = u64_to_chars(v.id);
                append_chars(&mut r, &d);
                r.push(',');
                r.push(' ');
                let lc = chars_of(l.as_str());
                append_chars(&mut r, &lc);
                r.push(']');
                assert(r@ =~= "incomplete_edge["@ + decimal(v.id as nat) + seq![',', ' '] + l@ + seq![']']);
                assert(result_view(*self) == ResultView::IncompleteEdge(*v, l@));
                assert(r@ == result_text(result_view(*self)));
                r
            },
        }
    }

    /// The texts of `items` joined with `, `.
    fn join_items(items: &Vec<GremlinResult>) -> (r: Vec<char>)
        ensures
            r@ == join_comma(items@.map_values(|x: GremlinResult| result_text(result_view(x)))),
        decreases items,
    {
        let ghost f = |x: GremlinResult| result_text(result_view(x));
        let mut body: Vec<char> = Vec::new();
        let mut i: usize = 0;
        while i < items.len()
            invariant
                i <= items.len(),
                f == (|x: GremlinResult| result_text(result_view(x))),
                body@ == join_comma(items@.subrange(0, i as int).map_values(f)),
            decreases items.len() - i,
        {
            let ghost prev = items@.subrange(0, i as int).map_values(f);
            if i > 0 {
                body.push(',');
                body.push(' ');
            }
            assert(decreases_to!(items => items@[i as int]));
            let t = items[i].text_chars();
            append_chars(&mut body, &t);
            proof {
                assert(items@.subrange(0, i + 1).map_values(f) =~= prev.push(f(items@[i as int])));
                lemma_join_push(prev, f(items@[i as int]));
            }
            i = i + 1;
            assert(body@ =~= join_comma(items@.subrange(0, i as int).map_values(f)));
        }
        assert(items@.subrange(0, i as int) =~= items@);
        body
    }

    /// The entries of a map as `k=v` texts joined with `, `.
    fn join_entries(es: &Vec<(String, GremlinResult)>) -> (r: Vec<char>)
        ensures
            r@ == join_comma(
                es@.map_values(
                    |e: (String, GremlinResult)| e.0@ + seq!['='] + result_text(result_view(e.1)),
                ),
            ),
        decreases es,
    {
        let ghost f = |e: (String, GremlinResult)| e.0@ + seq!['='] + result_text(result_view(e.1));
        let mut body: Vec<char> = Vec::new();
        let mut i: usize = 0;
        while i < es.len()
            invariant
                i <= es.len(),
                f == (|e: (String, GremlinResult)| e.0@ + seq!['='] + result_text(result_view(e.1))),
                body@ == join_comma(es@.subrange(0, i as int).map_values(f)),
            decreases es.len() - i,
        {
            let ghost prev = es@.subrange(0, i as int).map_values(f);
            if i > 0 {
                body.push(',');
                body.push(' ');
            }
            let kc = chars_of(es[i].0.as_str());
            append_chars(&mut body, &kc);
            body.push('=');
            assert(decreases_to!(es => es@[i as int].1));
            let t = es[i].1.text_chars();
            append_chars(&mut body, &t);
            proof {
                assert(es@.subrange(0, i + 1).map_values(f) =~= prev.push(f(es@[i as int])));
                lemma_join_push(prev, f(es@[i as int]));
            }
            i = i + 1;
            assert(body@ =~= join_comma(es@.subrange(0, i as int).map_values(f)));
        }
        assert(es@.subrange(0, i as int) =~= es@);
        body
    }

    /// The display text of this result.
    pub fn to_string(&self) -> (r: String)
        ensures
            r@ == result_text(result_view(*self)),
    {
        let c = self.text_chars();
        string_from_chars(&c)
    }

    /// The vertex, where this result is one.
    pub fn as_vertex(&self) -> (r: Option<VertexId>)
        ensures
            r == match *self {
                GremlinResult::Vertex(v) => Some(v),
                _ => None::<VertexId>,
            },
    {
        match self {
            GremlinResult::Vertex(v) => Some(*v),
            _ => None,
        }
    }

    /// The edge, where this result is one.
    pub fn as_edge(&self) -> (r: Option<EdgeId>)
        ensures
            r == match *self {
                GremlinResult::Edge(e) => Some(e),
                _ => None::<EdgeId>,
            },
    {
        match self {
            GremlinResult::Edge(e) => Some(*e),
            _ => None,
        }
    }

    /// The property value, where this result is one.
    pub fn as_value(&self) -> (r: Option<&PropertyValue>)
        ensures
            match *self {
                GremlinResult::Value(v) => r == Some(&v),
                _ => r is None,
            },
    {
        match self {
            GremlinResult::Value(v) => Some(v),
            _ => None,
        }
    }

    /// The count, where this result is one.
    pub fn as_count(&self) -> (r: Option<u64>)
        ensures
            r == match *self {
                GremlinResult::Count(c) => Some(c),
                _ => None::<u64>,
            },
    {
        match self {
            GremlinResult::Count(c) => Some(*c),
            _ => None,
        }
    }

    /// A copy of this result.
    pub fn duplicate(&self) -> (r: GremlinResult)
        ensures
            result_view(r) == result_view(*self),
        decreases *self,
    {
        match self {
            GremlinResult::Vertex(v) => GremlinResult::Vertex(*v),
            GremlinResult::Edge(e) => GremlinResult::Edge(*e),
            GremlinResult::Value(v) => GremlinResult::Value(v.duplicate()),
            GremlinResult::PropertyMap(p) => GremlinResult::PropertyMap(p.duplicate()),
            GremlinResult::Path(items) => {
                let c = Self::duplicate_all(items);
                let r = GremlinResult::Path(c);
                proof {
                    let a = match result_view(r) { ResultView::Path(a) => a, _ => Seq::empty() };
                    let b = match result_view(*self) { ResultView::Path(b) => b, _ => Seq::empty() };
                    assert(a.len() == c@.len());
                    assert(b.len() == items@.len());
                    assert(results_view(c@).len() == c@.len());
                    assert forall|i: int| 0 <= i < a.len() implies a[i] == b[i] by {
                        assert(a[i] == result_view(c@[i]));
                        assert(b[i] == result_view(items@[i]));
                        assert(results_view(c@)[i] == results_view(items@)[i]);
                    }
                    assert(a =~= b);
                }
                r
            },
            GremlinResult::Count(c) => GremlinResult::Count(*c),
            GremlinResult::List(items) => {
                let c = Self::duplicate_all(items);
                let r = GremlinResult::List(c);
                proof {
                    let a = match result_view(r) { ResultView::List(a) => a, _ => Seq::empty() };
                    let b = match result_view(*self) { ResultView::List(b) => b, _ => Seq::empty() };
                    assert(a.len() == c@.len());
                    assert(b.len() == items@.len());
                    assert(results_view(c@).len() == c@.len());
                    assert forall|i: int| 0 <= i < a.len() implies a[i] == b[i] by {
                        assert(a[i] == result_view(c@[i]));
                        assert(b[i] == result_view(items@[i]));
                        assert(results_view(c@)[i] == results_view(items@)[i]);
                    }
                    assert(a =~= b);
                }
                r
            },
            GremlinResult::Mapping(es) => {
                let mut out: Vec<(String, GremlinResult)> = Vec::new();
                let mut i: usize = 0;
                assert forall|k: int| 0 <= k < es@.len() implies decreases_to!(*self => #[trigger] es@[k].1) by {
                    assert(decreases_to!(*self => *es));
                    assert(decreases_to!(*es => es@));
                    assert(decreases_to!(es@ => es@[k]));
                    assert(decreases_to!(es@[k] => es@[k].1));
                }
                while i < es.len()
                    invariant
                        forall|k: int| 0 <= k < es@.len() ==> decreases_to!(*self => #[trigger] es@[k].1),
                        i <= es.len(),
                        out@.len() == i,
                        forall|k: int| 0 <= k < i ==> #[trigger] out@[k].0@ == es@[k].0@ && result_view(out@[k].1) == result_view(es@[k].1),
                    decreases es.len() - i,
                {
                    let d = es[i].1.duplicate();
                    let k = es[i].0.clone();
                    let ghost before = out@;
                    out.push((k, d));
                    assert(out@[i as int].0@ == es@[i as int].0@);
                    assert(result_view(out@[i as int].1) == result_view(es@[i as int].1));
                    assert forall|m: int| 0 <= m < i + 1 implies #[trigger] out@[m].0@ == es@[m].0@ && result_view(out@[m].1) == result_view(es@[m].1) by {
                        if m < i {
                            assert(out@[m] == before[m]);
                            assert(before[m].0@ == es@[m].0@);
                        }
                    }
                    i = i + 1;
                }
                let r = GremlinResult::Mapping(out);
                proof {
                    let a = match result_view(r) { ResultView::Mapping(a) => a, _ => Seq::empty() };
                    let b = match result_view(*self) { ResultView::Mapping(b) => b, _ => Seq::empty() };
                    assert(a.len() == b.len());
                    assert forall|k: int| 0 <= k < a.len() implies a[k] == b[k] by {
                        assert(a[k] == (out@[k].0@, result_view(out@[k].1)));
                        assert(b[k] == (es@[k].0@, result_view(es@[k].1)));
                    }
                    assert(a =~= b);
                }
                r
            },
            GremlinResult::Null => GremlinResult::Null,
            GremlinResult::IncompleteEdge(v, l) => GremlinResult::IncompleteEdge(*v, l.clone()),
        }
    }

    /// Copies of all of `items`.
    pub fn duplicate_all(items: &Vec<GremlinResult>) -> (r: Vec<GremlinResult>)
        ensures
            results_view(r@) == results_view(items@),
        decreases items,
    {
        let mut out: Vec<GremlinResult> = Vec::new();
        let mut i: usize = 0;
        while i < items.len()
            invariant
                i <= items.len(),
                results_view(out@) == results_view(items@.subrange(0, i as int)),
            decreases items.len() - i,
        {
            assert(decreases_to!(items => items@[i as int]));
            let d = items[i].duplicate();
            let ghost before = out@;
            out.push(d);
            i = i + 1;
            assert(results_view(out@) =~= results_view(items@.subrange(0, i as int))) by {
                assert(results_view(out@) =~= results_view(before).push(result_view(d)));
                assert(results_view(items@.subrange(0, i as int)) =~= results_view(items@.subrange(0, i - 1)).push(result_view(items@[i - 1])));
            }
        }
        assert(items@.subrange(0, i as int) =~= items@);
        out
    }
}

} // verus!
