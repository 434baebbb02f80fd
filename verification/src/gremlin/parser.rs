//! The parser of Gremlin query text, such as
//! `g.V(1).out("knows").has("age", gte(30)).values("name")`.
//!
//! A query is split into steps at the dots that stand outside parentheses;
//! each step is recognised by its name and arguments. Numbers written with a
//! fraction or an exponent are read by a float parser that the caller hands
//! in, since the value of such a literal is a double.
use crate::error::{AsterError, ErrorKind};
use crate::gremlin::steps::{
    pred_view, step_view, trav_view, GremlinOrder, GremlinPredicate, GremlinStep, GremlinTraversal, OrderView,
    PredView, StepView,
};
use crate::text::{
    chars_eq, chars_of, concat_vec, ends_with, parse_u64_chars, parse_i64_chars, replace_char,
    replace_char_vec, spec_parse_i64, spec_parse_u64, split_on, split_vec, starts_with,
    string_from_chars, strip, strip_left, strip_right, sub_vec, trim, trim_matches,
    trim_matches_vec, trim_vec, vec_ends_with, vec_starts_with, CharPattern,
};
use crate::types::{FloatValue, PropValue, PropertyValue, VertexId};
use vstd::prelude::*;

verus! {

/// The model of what a float parser returns for a text: the double's bits and
/// its display text, or nothing where the text is no float literal.
pub open spec fn float_model(r: Option<FloatValue>) -> Option<(u64, Seq<char>)> {
    match r {
        Some(f) => Some((f.bits, f.text@)),
        None => None,
    }
}

/// A float parser can be called on any text, and gives the same result for
/// the same characters.
pub open spec fn float_parser_ok<F: Fn(String) -> Option<FloatValue>>(f: F) -> bool {
    &&& forall|s: String| call_requires(f, (s,))
    &&& forall|s1: String, s2: String, r1: Option<FloatValue>, r2: Option<FloatValue>|
        s1@ == s2@ && #[trigger] call_ensures(f, (s1,), r1) && #[trigger] call_ensures(f, (s2,), r2)
            ==> float_model(r1) == float_model(r2)
}

/// `r` is a result that the float parser `f` can give for the text `t`.
pub open spec fn float_result_for<F: Fn(String) -> Option<FloatValue>>(
    f: F,
    t: Seq<char>,
    r: Option<FloatValue>,
) -> bool {
    exists|s: String| s@ == t && #[trigger] call_ensures(f, (s,), r)
}

/// What the float parser `f` returns for the text `t`.
pub open spec fn float_oracle<F: Fn(String) -> Option<FloatValue>>(f: F) -> spec_fn(
    Seq<char>,
) -> Option<(u64, Seq<char>)> {
    |t: Seq<char>|
        float_model(
            choose|r: Option<FloatValue>| #[trigger] float_result_for(f, t, r),
        )
}

pub type FloatOracle = spec_fn(Seq<char>) -> Option<(u64, Seq<char>)>;

/// The outcome of parsing: a model, an invalid-operation error with its
/// message (`Err(Some(msg))`), or a text on which the parse would panic
/// (`Err(None)`).
pub type ParseOutcome<T> = Result<T, Option<Seq<char>>>;

/// The text of a quoted-or-bare name: `"x"`, `'x'` or `x` with the quote
/// characters stripped from both ends.
pub open spec fn label_of(x: Seq<char>) -> Seq<char> {
    trim_matches(trim_matches(x, '"'), '\'')
}

/// A comma-separated list of names.
pub open spec fn label_list(inner: Seq<char>) -> Seq<Seq<char>> {
    split_on(inner, ',').map_values(|p: Seq<char>| label_of(trim(p)))
}

/// A comma-separated list of arguments, each trimmed.
pub open spec fn arg_list(inner: Seq<char>) -> Seq<Seq<char>> {
    split_on(inner, ',').map_values(|p: Seq<char>| trim(p))
}

/// `s` is `p(...)`: it starts with `p` and ends with `)`.
pub open spec fn wrapped(s: Seq<char>, p: Seq<char>) -> bool {
    starts_with(s, p) && ends_with(s, seq![')'])
}

/// What stands between the prefix `p` and the closing `)`.
pub open spec fn inner(s: Seq<char>, p: Seq<char>) -> Seq<char> {
    if p.len() + 1 <= s.len() {
        s.subrange(p.len() as int, s.len() - 1)
    } else {
        Seq::empty()
    }
}

/// A property value written in a query: a double- or single-quoted string, an
/// integer, a float literal (as the float parser reads it), `true`, `false`,
/// or else the bare text as a string. `None` where the text is a lone quote
/// character, on which the reader panics.
pub open spec fn spec_parse_value(v: Seq<char>, fl: FloatOracle) -> Option<PropValue> {
    let t = trim(v);
    if t.len() > 0 && t[0] == '"' && t.last() == '"' {
        if t.len() >= 2 {
            Some(PropValue::Text(t.subrange(1, t.len() - 1)))
        } else {
            None
        }
    } else if t.len() > 0 && t[0] == '\'' && t.last() == '\'' {
        if t.len() >= 2 {
            Some(PropValue::Text(t.subrange(1, t.len() - 1)))
        } else {
            None
        }
    } else if spec_parse_i64(t) is Some {
        Some(PropValue::Int(spec_parse_i64(t)->0))
    } else if fl(t) is Some {
        match fl(t) {
            Some((bits, text)) => Some(PropValue::Float(bits, text)),
            None => None,
        }
    } else if t == "true"@ {
        Some(PropValue::Bool(true))
    } else if t == "false"@ {
        Some(PropValue::Bool(false))
    } else {
        Some(PropValue::Text(t))
    }
}

/// A value written in a query is read for every text except one whose
/// trimmed form is a lone quote character (`"` or `'`), the one text on
/// which the reader panics.
pub proof fn lemma_value_read(v: Seq<char>, fl: FloatOracle)
    ensures
        spec_parse_value(v, fl) is None <==> (trim(v) == seq!['"'] || trim(v) == seq!['\'']),
{
    let t = trim(v);
    if t == seq!['"'] || t == seq!['\''] {
        assert(t.len() == 1 && t[0] == t.last());
    }
    if t.len() == 1 && (t[0] == '"' || t[0] == '\'') {
        assert(t == seq![t[0]]);
    }
}

/// `g.V(n)` with a single vertex id.
pub open spec fn single_vertex_traversal(n: u64) -> Seq<StepView> {
    seq![StepView::V(Some(seq![VertexId { id: n }]))]
}

pub open spec fn has_with(key: Seq<char>, pred: PredView) -> StepView {
    StepView::Has(key, None, Some(pred))
}

/// A `has(...)` step.
pub open spec fn spec_parse_has(s: Seq<char>, fl: FloatOracle) -> ParseOutcome<StepView> {
    let parts = arg_list(inner(s, "has("@));
    let key = label_of(parts[0]);
    if parts.len() >= 2 {
        let vs = trim(parts[1]);
        if wrapped(vs, "gte("@) {
            match spec_parse_value(inner(vs, "gte("@), fl) {
                Some(v) => Ok(has_with(key, PredView::Gte(v))),
                None => Err(None),
            }
        } else if wrapped(vs, "lte("@) {
            match spec_parse_value(inner(vs, "lte("@), fl) {
                Some(v) => Ok(has_with(key, PredView::Lte(v))),
                None => Err(None),
            }
        } else if wrapped(vs, "gt("@) {
            match spec_parse_value(inner(vs, "gt("@), fl) {
                Some(v) => Ok(has_with(key, PredView::Gt(v))),
                None => Err(None),
            }
        } else if wrapped(vs, "lt("@) {
            match spec_parse_value(inner(vs, "lt("@), fl) {
                Some(v) => Ok(has_with(key, PredView::Lt(v))),
                None => Err(None),
            }
        } else {
            match spec_parse_value(vs, fl) {
                Some(v) => Ok(StepView::Has(key, Some(v), None)),
                None => Err(None),
            }
        }
    } else {
        Ok(StepView::Has(key, None, None))
    }
}

/// Steps that start a traversal or walk adjacency.
pub open spec fn spec_step_nav(s: Seq<char>, fl: FloatOracle) -> ParseOutcome<StepView>
    decreases s.len(), 0int, 4int,
{
    if s == "V()"@ {
        Ok(StepView::V(None))
    } else if wrapped(s, "V("@) {
        let i = inner(s, "V("@);
        if i.len() == 0 {
            Ok(StepView::V(None))
        } else if spec_parse_u64(i) is Some {
            Ok(StepView::V(Some(seq![VertexId { id: spec_parse_u64(i)->0 }])))
        } else {
            Ok(StepView::V(None))
        }
    } else if s == "E()"@ {
        Ok(StepView::E(None))
    } else if s == "out()"@ {
        Ok(StepView::Out(None))
    } else if wrapped(s, "out("@) {
        Ok(StepView::Out(Some(label_list(inner(s, "out("@)))))
    } else if s == "in()"@ {
        Ok(StepView::In(None))
    } else if wrapped(s, "in("@) {
        Ok(StepView::In(Some(label_list(inner(s, "in("@)))))
    } else if s == "both()"@ {
        Ok(StepView::Both(None))
    } else if wrapped(s, "both("@) {
        Ok(StepView::Both(Some(label_list(inner(s, "both("@)))))
    } else {
        spec_step_filter(s, fl)
    }
}

/// Filtering, projection and counting steps.
pub open spec fn spec_step_filter(s: Seq<char>, fl: FloatOracle) -> ParseOutcome<StepView>
    decreases s.len(), 0int, 3int,
{
    if wrapped(s, "has("@) {
        spec_parse_has(s, fl)
    } else if wrapped(s, "values("@) {
        Ok(StepView::Values(label_list(inner(s, "values("@))))
    } else if s == "count()"@ {
        Ok(StepView::Count)
    } else if wrapped(s, "limit("@) {
        let i = inner(s, "limit("@);
        if spec_parse_u64(i) is Some && spec_parse_u64(i)->0 <= usize::MAX {
            Ok(StepView::Limit(spec_parse_u64(i)->0 as usize))
        } else {
            Err(Some("Invalid limit value"@))
        }
    } else if s == "dedup()"@ {
        Ok(StepView::Dedup)
    } else if s == "id()"@ {
        Ok(StepView::Id)
    } else if s == "sum()"@ {
        Ok(StepView::Sum)
    } else if wrapped(s, "project("@) {
        Ok(StepView::Project(label_list(inner(s, "project("@))))
    } else if wrapped(s, "hasLabel("@) {
        Ok(StepView::HasLabel(label_of(inner(s, "hasLabel("@))))
    } else {
        spec_step_edit(s, fl)
    }
}

/// Edge steps and steps that add vertices, edges and properties.
pub open spec fn spec_step_edit(s: Seq<char>, fl: FloatOracle) -> ParseOutcome<StepView>
    decreases s.len(), 0int, 2int,
{
    if s == "outE()"@ {
        Ok(StepView::OutE(None))
    } else if wrapped(s, "outE("@) {
        Ok(StepView::OutE(Some(label_list(inner(s, "outE("@)))))
    } else if s == "inE()"@ {
        Ok(StepView::InE(None))
    } else if wrapped(s, "inE("@) {
        Ok(StepView::InE(Some(label_list(inner(s, "inE("@)))))
    } else if wrapped(s, "addV("@) {
        let i = inner(s, "addV("@);
        if i.len() == 0 {
            Ok(StepView::AddV(None))
        } else {
            Ok(StepView::AddV(Some(label_of(i))))
        }
    } else if wrapped(s, "addE("@) {
        Ok(StepView::AddE(label_of(inner(s, "addE("@))))
    } else if wrapped(s, "property("@) {
        let parts = arg_list(inner(s, "property("@));
        if parts.len() >= 2 {
            match spec_parse_value(parts[1], fl) {
                Some(v) => Ok(StepView::Property(label_of(parts[0]), v)),
                None => Err(None),
            }
        } else {
            Err(Some("Property step requires key and value"@))
        }
    } else if wrapped(s, "to("@) {
        let i = inner(s, "to("@);
        if wrapped(i, "g.V("@) {
            let vi = inner(i, "g.V("@);
            if spec_parse_u64(vi) is Some {
                Ok(StepView::To(single_vertex_traversal(spec_parse_u64(vi)->0)))
            } else {
                Err(Some("Invalid vertex ID in to() step"@))
            }
        } else {
            Err(Some("Complex to() traversals not yet supported"@))
        }
    } else if wrapped(s, "aggregate("@) {
        Ok(StepView::Aggregate(label_of(inner(s, "aggregate("@))))
    } else if wrapped(s, "without("@) {
        Ok(StepView::Without(label_of(inner(s, "without("@))))
    } else {
        spec_step_order(s, fl)
    }
}

/// Grouping, ordering and `where(...)` steps; anything else is unknown.
pub open spec fn spec_step_order(s: Seq<char>, fl: FloatOracle) -> ParseOutcome<StepView>
    decreases s.len(), 0int, 1int,
{
    if s == "groupCount()"@ {
        Ok(StepView::GroupCount)
    } else if wrapped(s, "order("@) {
        if inner(s, "order("@) == "local"@ {
            Ok(StepView::OrderLocal(None))
        } else {
            Ok(StepView::Order(None))
        }
    } else if wrapped(s, "by("@) {
        let parts = arg_list(inner(s, "by("@));
        let order = if parts.len() > 1 {
            if parts[1] == "desc"@ {
                Some(OrderView::Desc)
            } else if parts[1] == "asc"@ {
                Some(OrderView::Asc)
            } else {
                None
            }
        } else {
            None
        };
        Ok(StepView::By(label_of(parts[0]), order))
    } else if wrapped(s, "where("@) {
        let i = inner(s, "where("@);
        if wrapped(i, "neq("@) {
            let ni = inner(i, "neq("@);
            if wrapped(ni, "V("@) {
                let vi = inner(ni, "V("@);
                if spec_parse_u64(vi) is Some {
                    Ok(StepView::Neq(single_vertex_traversal(spec_parse_u64(vi)->0)))
                } else {
                    Err(Some("Invalid vertex ID in neq"@))
                }
            } else {
                Err(Some("Complex neq not yet supported"@))
            }
        } else if wrapped(i, "without("@) {
            Ok(StepView::Without(label_of(inner(i, "without("@))))
        } else if wrapped(i, "within("@) {
            let wi = inner(i, "within("@);
            if starts_with(wi, "g."@) {
                match spec_parse_query(wi, fl) {
                    Ok(t) => Ok(StepView::WithinTraversal(t)),
                    Err(e) => Err(e),
                }
            } else {
                Err(Some("Within with static values not yet supported"@))
            }
        } else {
            Err(Some("Complex where not yet supported"@))
        }
    } else {
        spec_step_loop(s, fl)
    }
}

/// The condition of an `until(...)` step: `hasId(v)`, the condition that
/// the element's `id` is `v`; or `has(key, value)` or `has(key, p(value))`
/// with `p` one of `gte`, `lte`, `gt`, `lt`.
pub open spec fn spec_parse_condition(c: Seq<char>, fl: FloatOracle) -> ParseOutcome<PredView> {
    if wrapped(c, "hasId("@) {
        match spec_parse_value(inner(c, "hasId("@), fl) {
            Some(v) => Ok(PredView::HasProperty("id"@, Box::new(PredView::Eq(v)))),
            None => Err(None),
        }
    } else if wrapped(c, "has("@) {
        match spec_parse_has(c, fl) {
            Ok(StepView::Has(k, Some(v), None)) => Ok(PredView::HasProperty(k, Box::new(PredView::Eq(v)))),
            Ok(StepView::Has(k, None, Some(p))) => Ok(PredView::HasProperty(k, Box::new(p))),
            Ok(_) => Err(Some("Unsupported until condition"@)),
            Err(e) => Err(e),
        }
    } else {
        Err(Some("Unsupported until condition"@))
    }
}

/// Path and looping steps: `path()`, `repeat(<traversal>)` with the inner
/// traversal written without `g.` (as in `repeat(out())`), and
/// `until(<condition>)`; anything else is unknown.
pub open spec fn spec_step_loop(s: Seq<char>, fl: FloatOracle) -> ParseOutcome<StepView>
    decreases s.len(), 0int, 0int,
{
    if s == "path()"@ {
        Ok(StepView::Path)
    } else if wrapped(s, "repeat("@) {
        match spec_parse_query(inner(s, "repeat("@), fl) {
            Ok(t) => Ok(StepView::Repeat(t, None)),
            Err(e) => Err(e),
        }
    } else if wrapped(s, "until("@) {
        match spec_parse_condition(inner(s, "until("@), fl) {
            Ok(p) => Ok(StepView::Until(p)),
            Err(e) => Err(e),
        }
    } else {
        Err(Some("Unknown step: "@ + s))
    }
}

/// One step, given its text.
pub open spec fn spec_parse_step(raw: Seq<char>, fl: FloatOracle) -> ParseOutcome<StepView>
    decreases raw.len(), 0int, 5int,
{
    let s = trim(raw);
    if s.len() <= raw.len() {
        spec_step_nav(s, fl)
    } else {
        Err(None)
    }
}

/// The parenthesis depth before position `i`: opening minus closing
/// parentheses in `q[0..i]`.
pub open spec fn paren_depth(q: Seq<char>, i: int) -> int
    decreases i,
{
    if i <= 0 {
        0
    } else {
        paren_depth(q, i - 1) + if q[i - 1] == '(' {
            1int
        } else if q[i - 1] == ')' {
            -1int
        } else {
            0int
        }
    }
}

/// A dot outside all parentheses separates two steps.
pub open spec fn is_step_separator(q: Seq<char>, i: int) -> bool {
    q[i] == '.' && paren_depth(q, i) == 0
}

/// The nonempty pieces of `q` between separators, scanning from `i` with the
/// current piece starting at `start`.
pub open spec fn pieces_from(q: Seq<char>, start: int, i: int) -> Seq<Seq<char>>
    decreases q.len() - i,
{
    if i >= q.len() || i < 0 {
        if 0 <= start < q.len() {
            seq![q.subrange(start, q.len() as int)]
        } else {
            Seq::empty()
        }
    } else if is_step_separator(q, i) {
        (if start < i {
            seq![q.subrange(start, i)]
        } else {
            Seq::empty()
        }) + pieces_from(q, i + 1, i + 1)
    } else {
        pieces_from(q, start, i + 1)
    }
}

/// The texts of the steps of a query.
pub open spec fn split_steps(q: Seq<char>) -> Seq<Seq<char>> {
    pieces_from(q, 0, 0)
}

/// The query text with line breaks made spaces, trimmed, and without a leading
/// `g.`.
pub open spec fn prepare_query(q: Seq<char>) -> Seq<char> {
    let c = trim(replace_char(replace_char(q, '\n', ' '), '\r', ' '));
    if starts_with(c, "g."@) && 2 <= c.len() {
        c.subrange(2, c.len() as int)
    } else {
        c
    }
}

/// Parses each piece in turn; the first failure is the outcome.
pub open spec fn spec_parse_pieces(ps: Seq<Seq<char>>, bound: nat, fl: FloatOracle) -> ParseOutcome<
    Seq<StepView>,
>
    decreases bound, 1int, ps.len(),
{
    if ps.len() == 0 {
        Ok(Seq::empty())
    } else if ps[0].len() <= bound {
        match spec_parse_step(ps[0], fl) {
            Ok(st) => match spec_parse_pieces(ps.drop_first(), bound, fl) {
                Ok(rest) => Ok(seq![st] + rest),
                Err(e) => Err(e),
            },
            Err(e) => Err(e),
        }
    } else {
        Err(None)
    }
}

/// A whole query: the models of its steps, or the first error.
pub open spec fn spec_parse_query(q: Seq<char>, fl: FloatOracle) -> ParseOutcome<Seq<StepView>>
    decreases q.len(), 2int, 0int,
{
    spec_parse_pieces(split_steps(prepare_query(q)), q.len(), fl)
}

// ---------------------------------------------------------------------------
// Lemmas
proof fn lemma_strip_left_len(s: Seq<char>, p: CharPattern)
    ensures
        strip_left(s, p).len() <= s.len(),
    decreases s.len(),
{
    if s.len() > 0 {
        lemma_strip_left_len(s.drop_first(), p);
    }
}

proof fn lemma_strip_right_len(s: Seq<char>, p: CharPattern)
    ensures
        strip_right(s, p).len() <= s.len(),
    decreases s.len(),
{
    if s.len() > 0 {
        lemma_strip_right_len(s.drop_last(), p);
    }
}

proof fn lemma_trim_len(s: Seq<char>)
    ensures
        trim(s).len() <= s.len(),
{
    lemma_strip_left_len(s, CharPattern::Whitespace);
    lemma_strip_right_len(strip_left(s, CharPattern::Whitespace), CharPattern::Whitespace);
}

proof fn lemma_split_nonempty(s: Seq<char>, c: char)
    ensures
        split_on(s, c).len() >= 1,
    decreases s.len(),
{
    match crate::text::first_index_of(s, c) {
        Some(i) => {
            if 0 <= i < s.len() {
                lemma_split_nonempty(s.subrange(i + 1, s.len() as int), c);
            }
        },
        None => {},
    }
}

// ---------------------------------------------------------------------------
// Executable parser
/// Whether `s` is `p(...)`.
fn is_wrapped(s: &Vec<char>, p: &str) -> (r: bool)
    ensures
        r == wrapped(s@, p@),
{
    let pv = chars_of(p);
    let mut close: Vec<char> = Vec::new();
    close.push(')');
    assert(close@ =~= seq![')']);
    vec_starts_with(s, &pv) && vec_ends_with(s, &close)
}

/// What stands between the prefix `p` and the last character of `s`.
fn inner_of(s: &Vec<char>, p: &str) -> (r: Vec<char>)
    ensures
        r@ == inner(s@, p@),
{
    let pv = chars_of(p);
    if pv.len() < s.len() {
        sub_vec(s, pv.len(), s.len() - 1)
    } else {
        Vec::new()
    }
}

/// Whether `s` is the text `lit`.
fn is_text(s: &Vec<char>, lit: &str) -> (r: bool)
    ensures
        r == (s@ == lit@),
{
    let lv = chars_of(lit);
    chars_eq(s, &lv)
}

/// A name with its quote characters stripped.
fn label_text(x: &Vec<char>) -> (r: Vec<char>)
    ensures
        r@ == label_of(x@),
{
    let a = trim_matches_vec(x, '"');
    trim_matches_vec(&a, '\'')
}

fn label_string(x: &Vec<char>) -> (r: String)
    ensures
        r@ == label_of(x@),
{
    let t = label_text(x);
    string_from_chars(&t)
}

/// The names listed, comma-separated, in `inner`.
fn labels(inner_text: &Vec<char>) -> (r: Vec<String>)
    ensures
        r@.map_values(|s: String| s@) == label_list(inner_text@),
{
    let parts = split_vec(inner_text, ',');
    let ghost pv = parts@.map_values(|v: Vec<char>| v@);
    let mut r: Vec<String> = Vec::new();
    let mut i: usize = 0;
    while i < parts.len()
        invariant
            i <= parts.len(),
            pv == parts@.map_values(|v: Vec<char>| v@),
            pv == split_on(inner_text@, ','),
            r@.map_values(|s: String| s@) == pv.subrange(0, i as int).map_values(
                |p: Seq<char>| label_of(trim(p)),
            ),
        decreases parts.len() - i,
    {
        let t = trim_vec(&parts[i]);
        let l = label_string(&t);
        let ghost before = r@;
        r.push(l);
        i = i + 1;
        assert(r@.map_values(|s: String| s@) =~= pv.subrange(0, i as int).map_values(
            |p: Seq<char>| label_of(trim(p)),
        )) by {
            assert(pv[i - 1] == parts@[i - 1]@);
            assert(r@.map_values(|s: String| s@) =~= before.map_values(|s: String| s@).push(l@));
            assert(pv.subrange(0, i as int).map_values(|p: Seq<char>| label_of(trim(p)))
                =~= pv.subrange(0, i - 1).map_values(|p: Seq<char>| label_of(trim(p))).push(label_of(trim(pv[i - 1]))));
        }
    }
    assert(pv.subrange(0, i as int) =~= pv);
    r
}

/// The comma-separated arguments in `inner`, each trimmed.
fn args(inner_text: &Vec<char>) -> (r: Vec<Vec<char>>)
    ensures
        r@.map_values(|v: Vec<char>| v@) == arg_list(inner_text@),
        r@.len() >= 1,
{
    let parts = split_vec(inner_text, ',');
    let ghost pv = parts@.map_values(|v: Vec<char>| v@);
    proof {
        lemma_split_nonempty(inner_text@, ',');
    }
    let mut r: Vec<Vec<char>> = Vec::new();
    let mut i: usize = 0;
    while i < parts.len()
        invariant
            i <= parts.len(),
            pv == parts@.map_values(|v: Vec<char>| v@),
            pv == split_on(inner_text@, ','),
            r@.map_values(|v: Vec<char>| v@) == pv.subrange(0, i as int).map_values(
                |p: Seq<char>| trim(p),
            ),
        decreases parts.len() - i,
    {
        let t = trim_vec(&parts[i]);
        let ghost before = r@;
        let ghost tv = t@;
        r.push(t);
        i = i + 1;
        assert(r@.map_values(|v: Vec<char>| v@) =~= pv.subrange(0, i as int).map_values(
            |p: Seq<char>| trim(p),
        )) by {
            assert(pv[i - 1] == parts@[i - 1]@);
            assert(r@.map_values(|v: Vec<char>| v@) =~= before.map_values(|v: Vec<char>| v@).push(tv));
            assert(pv.subrange(0, i as int).map_values(|p: Seq<char>| trim(p))
                =~= pv.subrange(0, i - 1).map_values(|p: Seq<char>| trim(p)).push(trim(pv[i - 1])));
        }
    }
    assert(pv.subrange(0, i as int) =~= pv);
    r
}

/// Reads a property value; see [`spec_parse_value`].
pub(crate) fn parse_value<F: Fn(String) -> Option<FloatValue>>(v: &Vec<char>, float_parser: &F) -> (r:
    Option<PropertyValue>)
    requires
        float_parser_ok(*float_parser),
    ensures
        match (r, spec_parse_value(v@, float_oracle(*float_parser))) {
            (Some(x), Some(y)) => x@ == y,
            (None, None) => true,
            _ => false,
        },
{
    let t = trim_vec(v);
    let n = t.len();
    if n > 0 && t[0] == '"' && t[n - 1] == '"' {
        if n >= 2 {
            let body = sub_vec(&t, 1, n - 1);
            return Some(PropertyValue::String(string_from_chars(&body)));
        } else {
            return None;
        }
    }
    if n > 0 && t[0] == '\'' && t[n - 1] == '\'' {
        if n >= 2 {
            let body = sub_vec(&t, 1, n - 1);
            return Some(PropertyValue::String(string_from_chars(&body)));
        } else {
            return None;
        }
    }
    match parse_i64_chars(&t) {
        Some(i) => {
            return Some(PropertyValue::Int(i));
        },
        None => {},
    }
    let ts = string_from_chars(&t);
    let ghost tv = t@;
    let fr = float_parser(ts);
    proof {
        let fo = float_oracle(*float_parser);
        assert(float_result_for(*float_parser, tv, fr));
        let c = choose|r: Option<FloatValue>| #[trigger] float_result_for(*float_parser, tv, r);
        assert(float_result_for(*float_parser, tv, c));
        let s2 = choose|s: String| s@ == tv && #[trigger] call_ensures(*float_parser, (s,), c);
        assert(call_ensures(*float_parser, (s2,), c));
        assert(float_model(c) == float_model(fr));
        assert(fo(tv) == float_model(fr));
    }
    match fr {
        Some(f) => {
            return Some(PropertyValue::Float(f));
        },
        None => {},
    }
    if is_text(&t, "true") {
        Some(PropertyValue::Bool(true))
    } else if is_text(&t, "false") {
        Some(PropertyValue::Bool(false))
    } else {
        Some(PropertyValue::String(string_from_chars(&t)))
    }
}

/// The outcome of a query parse, held against its model.
pub open spec fn query_outcome_matches(
    r: Result<GremlinTraversal, AsterError>,
    m: ParseOutcome<Seq<StepView>>,
) -> bool {
    match (r, m) {
        (Ok(t), Ok(v)) => trav_view(t) == v,
        (Err(e), Err(Some(msg))) => e.spec_kind() == ErrorKind::InvalidOperation && e.spec_text() == msg,
        _ => false,
    }
}

/// The outcome of a step parse, held against its model, where `Err(None)`
/// stands for the text on which the reader panics.
pub open spec fn step_outcome3(r: Result<GremlinStep, Option<AsterError>>, m: ParseOutcome<StepView>) -> bool {
    match (r, m) {
        (Ok(st), Ok(v)) => step_view(st) == v,
        (Err(Some(e)), Err(Some(msg))) => e.spec_kind() == ErrorKind::InvalidOperation && e.spec_text() == msg,
        (Err(None), Err(None)) => true,
        _ => false,
    }
}

/// The outcome of a query parse, held against its model, where `Err(None)`
/// stands for the text on which the reader panics.
pub open spec fn query_outcome3(r: Result<GremlinTraversal, Option<AsterError>>, m: ParseOutcome<Seq<StepView>>) -> bool {
    match (r, m) {
        (Ok(t), Ok(v)) => trav_view(t) == v,
        (Err(Some(e)), Err(Some(msg))) => e.spec_kind() == ErrorKind::InvalidOperation && e.spec_text() == msg,
        (Err(None), Err(None)) => true,
        _ => false,
    }
}

fn single_vertex(n: u64) -> (r: GremlinTraversal)
    ensures
        trav_view(r) == single_vertex_traversal(n),
{
    let mut ids: Vec<VertexId> = Vec::new();
    ids.push(VertexId::from_u64(n));
    let t = GremlinTraversal::v(Some(ids));
    assert(trav_view(t) =~= single_vertex_traversal(n)) by {
        assert(ids@ =~= seq![VertexId { id: n }]);
    }
    t
}

fn parse_has<F: Fn(String) -> Option<FloatValue>>(s: &Vec<char>, float_parser: &F) -> (r: Result<
    GremlinStep,
    Option<AsterError>,
>)
    requires
        float_parser_ok(*float_parser),
    ensures
        step_outcome3(r, spec_parse_has(s@, float_oracle(*float_parser))),
{
    let ghost fo = float_oracle(*float_parser);
    let inner_text = inner_of(s, "has(");
    let parts = args(&inner_text);
    let ghost pv = parts@.map_values(|v: Vec<char>| v@);
    assert(pv[0] == parts@[0]@);
    let key = label_string(&parts[0]);
    if parts.len() >= 2 {
        assert(pv[1] == parts@[1]@);
        let vs = trim_vec(&parts[1]);
        if is_wrapped(&vs, "gte(") {
            let iv = inner_of(&vs, "gte(");
            let v = match parse_value(&iv, float_parser) {
                Some(v) => v,
                None => {
                    return Err(None);
                },
            };
            Ok(GremlinStep::Has(key, None, Some(Box::new(GremlinPredicate::Gte(v)))))
        } else if is_wrapped(&vs, "lte(") {
            let iv = inner_of(&vs, "lte(");
            let v = match parse_value(&iv, float_parser) {
                Some(v) => v,
                None => {
                    return Err(None);
                },
            };
            Ok(GremlinStep::Has(key, None, Some(Box::new(GremlinPredicate::Lte(v)))))
        } else if is_wrapped(&vs, "gt(") {
            let iv = inner_of(&vs, "gt(");
            let v = match parse_value(&iv, float_parser) {
                Some(v) => v,
                None => {
                    return Err(None);
                },
            };
            Ok(GremlinStep::Has(key, None, Some(Box::new(GremlinPredicate::Gt(v)))))
        } else if is_wrapped(&vs, "lt(") {
            let iv = inner_of(&vs, "lt(");
            let v = match parse_value(&iv, float_parser) {
                Some(v) => v,
                None => {
                    return Err(None);
                },
            };
            Ok(GremlinStep::Has(key, None, Some(Box::new(GremlinPredicate::Lt(v)))))
        } else {
            let v = match parse_value(&vs, float_parser) {
                Some(v) => v,
                None => {
                    return Err(None);
                },
            };
            Ok(GremlinStep::Has(key, Some(v), None))
        }
    } else {
        Ok(GremlinStep::Has(key, None, None))
    }
}

fn parse_step_nav<F: Fn(String) -> Option<FloatValue>>(s: &Vec<char>, float_parser: &F) -> (r: Result<
    GremlinStep,
    Option<AsterError>,
>)
    requires
        float_parser_ok(*float_parser),
    ensures
        step_outcome3(r, spec_step_nav(s@, float_oracle(*float_parser))),
    decreases s@.len(), 0int, 4int,
{
    if is_text(s, "V()") {
        Ok(GremlinStep::V(None))
    } else if is_wrapped(s, "V(") {
        let i = inner_of(s, "V(");
        if i.len() == 0 {
            Ok(GremlinStep::V(None))
        } else {
            match parse_u64_chars(&i) {
                Some(n) => {
                    let mut ids: Vec<VertexId> = Vec::new();
                    ids.push(VertexId::from_u64(n));
                    assert(ids@ =~= seq![VertexId { id: n }]);
                    Ok(GremlinStep::V(Some(ids)))
                },
                None => Ok(GremlinStep::V(None)),
            }
        }
    } else if is_text(s, "E()") {
        Ok(GremlinStep::E(None))
    } else if is_text(s, "out()") {
        Ok(GremlinStep::Out(None))
    } else if is_wrapped(s, "out(") {
        Ok(GremlinStep::Out(Some(labels(&inner_of(s, "out(")))))
    } else if is_text(s, "in()") {
        Ok(GremlinStep::In(None))
    } else if is_wrapped(s, "in(") {
        Ok(GremlinStep::In(Some(labels(&inner_of(s, "in(")))))
    } else if is_text(s, "both()") {
        Ok(GremlinStep::Both(None))
    } else if is_wrapped(s, "both(") {
        Ok(GremlinStep::Both(Some(labels(&inner_of(s, "both(")))))
    } else {
        parse_step_filter(s, float_parser)
    }
}

fn parse_step_filter<F: Fn(String) -> Option<FloatValue>>(s: &Vec<char>, float_parser: &F) -> (r:
    Result<GremlinStep, Option<AsterError>>)
    requires
        float_parser_ok(*float_parser),
    ensures
        step_outcome3(r, spec_step_filter(s@, float_oracle(*float_parser))),
    decreases s@.len(), 0int, 3int,
{
    if is_wrapped(s, "has(") {
        parse_has(s, float_parser)
    } else if is_wrapped(s, "values(") {
        Ok(GremlinStep::Values(labels(&inner_of(s, "values("))))
    } else if is_text(s, "count()") {
        Ok(GremlinStep::Count)
    } else if is_wrapped(s, "limit(") {
        let i = inner_of(s, "limit(");
        match parse_u64_chars(&i) {
            Some(n) => {
                if n <= usize::MAX as u64 {
                    Ok(GremlinStep::Limit(n as usize))
                } else {
                    Err(Some(AsterError::invalid_operation("Invalid limit value")))
                }
            },
            None => Err(Some(AsterError::invalid_operation("Invalid limit value"))),
        }
    } else if is_text(s, "dedup()") {
        Ok(GremlinStep::Dedup)
    } else if is_text(s, "id()") {
        Ok(GremlinStep::Id)
    } else if is_text(s, "sum()") {
        Ok(GremlinStep::Sum)
    } else if is_wrapped(s, "project(") {
        Ok(GremlinStep::Project(labels(&inner_of(s, "project("))))
    } else if is_wrapped(s, "hasLabel(") {
        Ok(GremlinStep::HasLabel(label_string(&inner_of(s, "hasLabel("))))
    } else {
        parse_step_edit(s, float_parser)
    }
}

fn parse_step_edit<F: Fn(String) -> Option<FloatValue>>(s: &Vec<char>, float_parser: &F) -> (r:
    Result<GremlinStep, Option<AsterError>>)
    requires
        float_parser_ok(*float_parser),
    ensures
        step_outcome3(r, spec_step_edit(s@, float_oracle(*float_parser))),
    decreases s@.len(), 0int, 2int,
{
    if is_text(s, "outE()") {
        Ok(GremlinStep::OutE(None))
    } else if is_wrapped(s, "outE(") {
        Ok(GremlinStep::OutE(Some(labels(&inner_of(s, "outE(")))))
    } else if is_text(s, "inE()") {
        Ok(GremlinStep::InE(None))
    } else if is_wrapped(s, "inE(") {
        Ok(GremlinStep::InE(Some(labels(&inner_of(s, "inE(")))))
    } else if is_wrapped(s, "addV(") {
        let i = inner_of(s, "addV(");
        if i.len() == 0 {
            Ok(GremlinStep::AddV(None))
        } else {
            Ok(GremlinStep::AddV(Some(label_string(&i))))
        }
    } else if is_wrapped(s, "addE(") {
        Ok(GremlinStep::AddE(label_string(&inner_of(s, "addE("))))
    } else if is_wrapped(s, "property(") {
        let parts = args(&inner_of(s, "property("));
        let ghost pv = parts@.map_values(|v: Vec<char>| v@);
        if parts.len() >= 2 {
            assert(pv[0] == parts@[0]@);
            assert(pv[1] == parts@[1]@);
            let key = label_string(&parts[0]);
            let v = match parse_value(&parts[1], float_parser) {
                Some(v) => v,
                None => {
                    return Err(None);
                },
            };
            Ok(GremlinStep::Property(key, v))
        } else {
            Err(Some(AsterError::invalid_operation("Property step requires key and value")))
        }
    } else if is_wrapped(s, "to(") {
        let i = inner_of(s, "to(");
        if is_wrapped(&i, "g.V(") {
            let vi = inner_of(&i, "g.V(");
            match parse_u64_chars(&vi) {
                Some(n) => Ok(GremlinStep::To(Box::new(single_vertex(n)))),
                None => Err(Some(AsterError::invalid_operation("Invalid vertex ID in to() step"))),
            }
        } else {
            Err(Some(AsterError::invalid_operation("Complex to() traversals not yet supported")))
        }
    } else if is_wrapped(s, "aggregate(") {
        Ok(GremlinStep::Aggregate(label_string(&inner_of(s, "aggregate("))))
    } else if is_wrapped(s, "without(") {
        Ok(GremlinStep::Without(label_string(&inner_of(s, "without("))))
    } else {
        parse_step_order(s, float_parser)
    }
}

fn parse_step_order<F: Fn(String) -> Option<FloatValue>>(s: &Vec<char>, float_parser: &F) -> (r:
    Result<GremlinStep, Option<AsterError>>)
    requires
        float_parser_ok(*float_parser),
    ensures
        step_outcome3(r, spec_step_order(s@, float_oracle(*float_parser))),
    decreases s@.len(), 0int, 1int,
{
    if is_text(s, "groupCount()") {
        Ok(GremlinStep::GroupCount)
    } else if is_wrapped(s, "order(") {
        if is_text(&inner_of(s, "order("), "local") {
            Ok(GremlinStep::OrderLocal(None))
        } else {
            Ok(GremlinStep::Order(None))
        }
    } else if is_wrapped(s, "by(") {
        let parts = args(&inner_of(s, "by("));
        let ghost pv = parts@.map_values(|v: Vec<char>| v@);
        assert(pv[0] == parts@[0]@);
        let property = label_string(&parts[0]);
        let order = if parts.len() > 1 {
            assert(pv[1] == parts@[1]@);
            if is_text(&parts[1], "desc") {
                Some(GremlinOrder::Desc)
            } else if is_text(&parts[1], "asc") {
                Some(GremlinOrder::Asc)
            } else {
                None
            }
        } else {
            None
        };
        Ok(GremlinStep::By(property, order))
    } else if is_wrapped(s, "where(") {
        let i = inner_of(s, "where(");
        if is_wrapped(&i, "neq(") {
            let ni = inner_of(&i, "neq(");
            if is_wrapped(&ni, "V(") {
                let vi = inner_of(&ni, "V(");
                match parse_u64_chars(&vi) {
                    Some(n) => Ok(GremlinStep::Neq(Box::new(single_vertex(n)))),
                    None => Err(Some(AsterError::invalid_operation("Invalid vertex ID in neq"))),
                }
            } else {
                Err(Some(AsterError::invalid_operation("Complex neq not yet supported")))
            }
        } else if is_wrapped(&i, "without(") {
            Ok(GremlinStep::Without(label_string(&inner_of(&i, "without("))))
        } else if is_wrapped(&i, "within(") {
            let wi = inner_of(&i, "within(");
            let g_dot = chars_of("g.");
            if vec_starts_with(&wi, &g_dot) {
                match parse_query_chars(&wi, float_parser) {
                    Ok(t) => Ok(GremlinStep::WithinTraversal(Box::new(t))),
                    Err(e) => Err(e),
                }
            } else {
                Err(Some(AsterError::invalid_operation("Within with static values not yet supported")))
            }
        } else {
            Err(Some(AsterError::invalid_operation("Complex where not yet supported")))
        }
    } else {
        parse_step_loop(s, float_parser)
    }
}

/// The outcome of a condition parse, held against its model.
pub open spec fn pred_outcome3(r: Result<GremlinPredicate, Option<AsterError>>, m: ParseOutcome<PredView>) -> bool {
    match (r, m) {
        (Ok(p), Ok(v)) => pred_view(p) == v,
        (Err(Some(e)), Err(Some(msg))) => e.spec_kind() == ErrorKind::InvalidOperation && e.spec_text() == msg,
        (Err(None), Err(None)) => true,
        _ => false,
    }
}

/// Parses the condition of an `until(...)` step; see [`spec_parse_condition`].
fn parse_condition<F: Fn(String) -> Option<FloatValue>>(c: &Vec<char>, float_parser: &F) -> (r: Result<
    GremlinPredicate,
    Option<AsterError>,
>)
    requires
        float_parser_ok(*float_parser),
    ensures
        pred_outcome3(r, spec_parse_condition(c@, float_oracle(*float_parser))),
{
    if is_wrapped(c, "hasId(") {
        match parse_value(&inner_of(c, "hasId("), float_parser) {
            Some(v) => {
                let key = String::from_str("id");
                let e = GremlinPredicate::Eq(v);
                proof {
                    assert(pred_view(e) == PredView::Eq(e->Eq_0@));
                }
                let r = GremlinPredicate::HasProperty(key, Box::new(e));
                proof {
                    assert(pred_view(r) == PredView::HasProperty("id"@, Box::new(pred_view(e))));
                }
                Ok(r)
            },
            None => Err(None),
        }
    } else if is_wrapped(c, "has(") {
        match parse_has(c, float_parser) {
            Ok(GremlinStep::Has(k, Some(v), None)) => {
                let e = GremlinPredicate::Eq(v);
                proof {
                    assert(pred_view(e) == PredView::Eq(e->Eq_0@));
                }
                let r = GremlinPredicate::HasProperty(k, Box::new(e));
                proof {
                    assert(pred_view(r) == PredView::HasProperty(r->HasProperty_0@, Box::new(pred_view(e))));
                }
                Ok(r)
            },
            Ok(GremlinStep::Has(k, None, Some(p))) => {
                let r = GremlinPredicate::HasProperty(k, p);
                proof {
                    assert(pred_view(r) == PredView::HasProperty(r->HasProperty_0@, Box::new(pred_view(*r->HasProperty_1))));
                }
                Ok(r)
            },
            Ok(_) => Err(Some(AsterError::invalid_operation("Unsupported until condition"))),
            Err(e) => Err(e),
        }
    } else {
        Err(Some(AsterError::invalid_operation("Unsupported until condition")))
    }
}

fn parse_step_loop<F: Fn(String) -> Option<FloatValue>>(s: &Vec<char>, float_parser: &F) -> (r: Result<
    GremlinStep,
    Option<AsterError>,
>)
    requires
        float_parser_ok(*float_parser),
    ensures
        step_outcome3(r, spec_step_loop(s@, float_oracle(*float_parser))),
    decreases s@.len(), 0int, 0int,
{
    if is_text(s, "path()") {
        Ok(GremlinStep::Path)
    } else if is_wrapped(s, "repeat(") {
        let ri = inner_of(s, "repeat(");
        match parse_query_chars(&ri, float_parser) {
            Ok(t) => Ok(GremlinStep::Repeat(Box::new(t), None)),
            Err(e) => Err(e),
        }
    } else if is_wrapped(s, "until(") {
        match parse_condition(&inner_of(s, "until("), float_parser) {
            Ok(p) => Ok(GremlinStep::Until(Box::new(p))),
            Err(e) => Err(e),
        }
    } else {
        let prefix = chars_of("Unknown step: ");
        let msg = concat_vec(&prefix, s);
        Err(Some(AsterError::invalid_operation_chars(&msg)))
    }
}

/// Parses the text of one step; see [`spec_parse_step`].
fn parse_step<F: Fn(String) -> Option<FloatValue>>(raw: &Vec<char>, float_parser: &F) -> (r: Result<
    GremlinStep,
    Option<AsterError>,
>)
    requires
        float_parser_ok(*float_parser),
    ensures
        step_outcome3(r, spec_parse_step(raw@, float_oracle(*float_parser))),
    decreases raw@.len(), 0int, 5int,
{
    let s = trim_vec(raw);
    proof {
        lemma_trim_len(raw@);
    }
    parse_step_nav(&s, float_parser)
}

proof fn lemma_pieces_len(q: Seq<char>, start: int, i: int)
    requires
        0 <= start,
    ensures
        forall|k: int| 0 <= k < pieces_from(q, start, i).len() ==> #[trigger] pieces_from(q, start, i)[k].len() <= q.len(),
    decreases q.len() - i,
{
    let ps = pieces_from(q, start, i);
    if i >= q.len() || i < 0 {
        assert forall|k: int| 0 <= k < ps.len() implies #[trigger] ps[k].len() <= q.len() by {
            assert(ps[k] == q.subrange(start, q.len() as int));
        }
    } else if is_step_separator(q, i) {
        lemma_pieces_len(q, i + 1, i + 1);
        let a: Seq<Seq<char>> = if start < i {
            seq![q.subrange(start, i)]
        } else {
            Seq::empty()
        };
        let b = pieces_from(q, i + 1, i + 1);
        assert(ps == a + b);
        assert forall|k: int| 0 <= k < ps.len() implies #[trigger] ps[k].len() <= q.len() by {
            if k < a.len() {
                assert(ps[k] == q.subrange(start, i));
            } else {
                assert(ps[k] == b[k - a.len()]);
            }
        }
    } else {
        lemma_pieces_len(q, start, i + 1);
        assert(ps == pieces_from(q, start, i + 1));
    }
}

/// Splits a query at the dots outside parentheses; see [`split_steps`].
fn split_query_steps(q: &Vec<char>) -> (r: Vec<Vec<char>>)
    requires
    ensures
        r@.map_values(|v: Vec<char>| v@) == split_steps(q@),
{
    let mut r: Vec<Vec<char>> = Vec::new();
    let mut start: usize = 0;
    let mut depth: i128 = 0;
    let mut i: usize = 0;
    while i < q.len()
        invariant
            start <= i <= q.len(),
            depth == paren_depth(q@, i as int),
            -(i as int) <= depth <= i,
            r@.map_values(|v: Vec<char>| v@) + pieces_from(q@, start as int, i as int) == split_steps(q@),
        decreases q.len() - i,
    {
        let ch = q[i];
        let ghost before = r@;
        if ch == '.' && depth == 0 {
            if start < i {
                let piece = sub_vec(q, start, i);
                r.push(piece);
                assert(r@.map_values(|v: Vec<char>| v@) =~= before.map_values(|v: Vec<char>| v@) + seq![q@.subrange(start as int, i as int)]);
            } else {
                assert(r@.map_values(|v: Vec<char>| v@) =~= before.map_values(|v: Vec<char>| v@) + Seq::<Seq<char>>::empty());
            }
            start = i + 1;
        }
        if ch == '(' {
            depth = depth + 1;
        } else if ch == ')' {
            depth = depth - 1;
        }
        i = i + 1;
    }
    let ghost before = r@;
    if start < q.len() {
        let piece = sub_vec(q, start, q.len());
        r.push(piece);
        assert(r@.map_values(|v: Vec<char>| v@) =~= before.map_values(|v: Vec<char>| v@) + seq![q@.subrange(start as int, q@.len() as int)]);
    } else {
        assert(pieces_from(q@, start as int, i as int) =~= Seq::<Seq<char>>::empty());
        assert(r@.map_values(|v: Vec<char>| v@) =~= before.map_values(|v: Vec<char>| v@) + Seq::<Seq<char>>::empty());
    }
    r
}

/// The outcome `m` of the rest of a query, after steps with models `done`.
pub open spec fn after_steps(done: Seq<StepView>, m: ParseOutcome<Seq<StepView>>) -> ParseOutcome<Seq<StepView>> {
    match m {
        Ok(rest) => Ok(done + rest),
        Err(e) => Err(e),
    }
}

fn prepare(q: &Vec<char>) -> (r: Vec<char>)
    ensures
        r@ == prepare_query(q@),
        r@.len() <= q@.len(),
{
    let a = replace_char_vec(q, '\n', ' ');
    let b = replace_char_vec(&a, '\r', ' ');
    let c = trim_vec(&b);
    proof {
        lemma_trim_len(b@);
    }
    let g_dot = chars_of("g.");
    if vec_starts_with(&c, &g_dot) && 2 <= c.len() {
        sub_vec(&c, 2, c.len())
    } else {
        c
    }
}

fn parse_query_chars<F: Fn(String) -> Option<FloatValue>>(q: &Vec<char>, float_parser: &F) -> (r: Result<
    GremlinTraversal,
    Option<AsterError>,
>)
    requires
        float_parser_ok(*float_parser),
    ensures
        query_outcome3(r, spec_parse_query(q@, float_oracle(*float_parser))),
    decreases q@.len(), 2int, 0int,
{
    let ghost fo = float_oracle(*float_parser);
    let prepared = prepare(q);
    let parts = split_query_steps(&prepared);
    let ghost ps = parts@.map_values(|v: Vec<char>| v@);
    let ghost bound = q@.len();
    proof {
        lemma_pieces_len(prepared@, 0, 0);
    }
    let mut steps: Vec<GremlinStep> = Vec::new();
    let mut i: usize = 0;
    assert(ps.subrange(0, ps.len() as int) =~= ps);
    assert(steps@.map_values(|st: GremlinStep| step_view(st)) =~= Seq::<StepView>::empty());
    assert(after_steps(Seq::<StepView>::empty(), spec_parse_pieces(ps, bound, fo)) == spec_parse_pieces(ps, bound, fo)) by {
        match spec_parse_pieces(ps, bound, fo) {
            Ok(rest) => assert(Seq::<StepView>::empty() + rest =~= rest),
            Err(_) => {},
        }
    }
    while i < parts.len()
        invariant
            float_parser_ok(*float_parser),
            fo == float_oracle(*float_parser),
            i <= parts.len(),
            ps == parts@.map_values(|v: Vec<char>| v@),
            ps == split_steps(prepared@),
            bound == q@.len(),
            prepared@.len() <= bound,
            forall|k: int| 0 <= k < ps.len() ==> #[trigger] ps[k].len() <= prepared@.len(),
            spec_parse_query(q@, fo) == spec_parse_pieces(ps, bound, fo),
            spec_parse_query(q@, fo) == after_steps(
                steps@.map_values(|st: GremlinStep| step_view(st)),
                spec_parse_pieces(ps.subrange(i as int, ps.len() as int), bound, fo),
            ),
        decreases parts.len() - i,
    {
        let ghost rest = ps.subrange(i as int, ps.len() as int);
        assert(rest[0] == ps[i as int]);
        assert(ps[i as int] == parts@[i as int]@);
        assert(rest.drop_first() =~= ps.subrange(i + 1, ps.len() as int));
        let st = parse_step(&parts[i], float_parser);
        match st {
            Ok(step) => {
                let ghost done = steps@.map_values(|x: GremlinStep| step_view(x));
                let ghost sv = step_view(step);
                steps.push(step);
                assert(steps@.map_values(|x: GremlinStep| step_view(x)) =~= done.push(sv));
                proof {
                    match spec_parse_pieces(rest.drop_first(), bound, fo) {
                        Ok(more) => {
                            assert(done + (seq![sv] + more) =~= done.push(sv) + more);
                        },
                        Err(_) => {},
                    }
                }
            },
            Err(e) => {
                return Err(e);
            },
        }
        i = i + 1;
    }
    let t = GremlinTraversal { steps };
    proof {
        assert(ps.subrange(i as int, ps.len() as int) =~= Seq::<Seq<char>>::empty());
        assert(trav_view(t) =~= t.steps@.map_values(|st: GremlinStep| step_view(st)));
        assert(t.steps@.map_values(|st: GremlinStep| step_view(st)) + Seq::<StepView>::empty() =~= t.steps@.map_values(|st: GremlinStep| step_view(st)));
    }
    Ok(t)
}

/// Parses a Gremlin query into a traversal; see [`spec_parse_query`]. A query
/// with an unknown or malformed step gives an invalid-operation error naming
/// the problem. `None` where the query holds a value that is a lone quote
/// character, on which the reader panics. Float literals are read by
/// `float_parser`.
pub fn parse_query_checked<F: Fn(String) -> Option<FloatValue>>(query: &str, float_parser: &F) -> (r: Option<
    Result<GremlinTraversal, AsterError>,
>)
    requires
        float_parser_ok(*float_parser),
    ensures
        match r {
            Some(x) => query_outcome_matches(x, spec_parse_query(query@, float_oracle(*float_parser))),
            None => spec_parse_query(query@, float_oracle(*float_parser)) == Err::<Seq<StepView>, Option<Seq<char>>>(None),
        },
{
    let q = chars_of(query);
    match parse_query_chars(&q, float_parser) {
        Ok(t) => Some(Ok(t)),
        Err(Some(e)) => Some(Err(e)),
        Err(None) => None,
    }
}

/// Parses a Gremlin query into a traversal; see [`spec_parse_query`]. A query
/// with an unknown or malformed step gives an invalid-operation error naming
/// the problem. Float literals are read by `float_parser`. The query is cut
/// into steps by characters, so text outside ASCII is cut where its
/// characters are, never inside one.
pub fn parse_query<F: Fn(String) -> Option<FloatValue>>(query: &str, float_parser: &F) -> (r: Result<
    GremlinTraversal,
    AsterError,
>)
    requires
        float_parser_ok(*float_parser),
        spec_parse_query(query@, float_oracle(*float_parser)) != Err::<Seq<StepView>, Option<Seq<char>>>(None),
    ensures
        query_outcome_matches(r, spec_parse_query(query@, float_oracle(*float_parser))),
{
    match parse_query_checked(query, float_parser) {
        Some(x) => x,
        None => {
            proof {
                assert(false);
            }
            Err(AsterError::internal("unreachable"))
        },
    }
}

/// The arguments of `by(p, <word>)`: `p` and the word, each trimmed, where
/// `p` holds no comma.
proof fn lemma_by_args(p: Seq<char>, tail: Seq<char>, word: Seq<char>)
    requires
        forall|i: int| 0 <= i < p.len() ==> p[i] != ',',
        tail.len() >= 2,
        tail[0] == ',',
        tail.last() == ')',
        forall|i: int| 1 <= i < tail.len() ==> tail[i] != ',',
        word == tail.subrange(1, tail.len() - 1),
    ensures
        wrapped("by("@ + p + tail, "by("@),
        arg_list(inner("by("@ + p + tail, "by("@)) == seq![trim(p), trim(word)],
        !wrapped("by("@ + p + tail, "order("@),
        "by("@ + p + tail != "groupCount()"@,
{
    reveal_strlit("by(");
    reveal_strlit("groupCount()");
    reveal_strlit("order(");
    let s = "by("@ + p + tail;
    assert(s.subrange(0, 3) =~= "by("@);
    assert(s.subrange(s.len() - 1, s.len() as int) =~= seq![')']);
    assert(s[0] == 'b');
    assert(s != "groupCount()"@) by {
        assert("groupCount()"@[0] == 'g');
    }
    assert(!starts_with(s, "order("@)) by {
        if starts_with(s, "order("@) {
            assert(s.subrange(0, 6)[0] == s[0]);
        }
    }
    let q = inner(s, "by("@);
    assert(q =~= p + tail.subrange(0, tail.len() - 1));
    crate::text::lemma_first_index_of(q, ',', p.len() as int);
    let rest = q.subrange(p.len() as int + 1, q.len() as int);
    assert(rest =~= word);
    crate::text::lemma_first_index_none(rest, ',');
    assert(split_on(rest, ',') == seq![rest]);
    assert(q.subrange(0, p.len() as int) =~= p);
    assert(split_on(q, ',') == seq![q.subrange(0, p.len() as int)] + split_on(rest, ','));
    assert(split_on(q, ',') =~= seq![p, word]);
    assert(arg_list(q) =~= seq![trim(p), trim(word)]);
}

/// A word with no whitespace, after one space, trims to itself.
proof fn lemma_trim_spaced(w: Seq<char>)
    requires
        w.len() > 0,
        forall|i: int| 0 <= i < w.len() ==> !crate::text::is_ws(#[trigger] w[i]),
    ensures
        trim(seq![' '] + w) == w,
{
    let t = seq![' '] + w;
    assert(crate::text::is_ws(' '));
    assert(t.drop_first() =~= w);
    assert(!crate::text::is_ws(w[0]));
    assert(strip_left(t, CharPattern::Whitespace) == strip_left(w, CharPattern::Whitespace));
    assert(strip_left(w, CharPattern::Whitespace) == w);
    assert(!crate::text::is_ws(w[w.len() - 1]));
    assert(strip_right(w, CharPattern::Whitespace) == w);
}

/// `by(p, desc)` orders by `p` descending and `by(p, asc)` ascending: the
/// order word written in the query is the order of the parsed step (for a
/// property name `p` without a comma).
pub proof fn lemma_by_order_word(p: Seq<char>, fl: FloatOracle)
    requires
        forall|i: int| 0 <= i < p.len() ==> p[i] != ',',
    ensures
        spec_step_order("by("@ + p + ", desc)"@, fl) == Ok::<StepView, Option<Seq<char>>>(
            StepView::By(label_of(trim(p)), Some(OrderView::Desc)),
        ),
        spec_step_order("by("@ + p + ", asc)"@, fl) == Ok::<StepView, Option<Seq<char>>>(
            StepView::By(label_of(trim(p)), Some(OrderView::Asc)),
        ),
{
    reveal_strlit(", desc)");
    reveal_strlit(", asc)");
    reveal_strlit("desc");
    reveal_strlit("asc");
    let d = ", desc)"@.subrange(1, 6);
    let a = ", asc)"@.subrange(1, 5);
    assert(d =~= seq![' '] + "desc"@);
    assert(a =~= seq![' '] + "asc"@);
    lemma_by_args(p, ", desc)"@, d);
    lemma_by_args(p, ", asc)"@, a);
    assert(!crate::text::is_ws('d') && !crate::text::is_ws('e') && !crate::text::is_ws('s') && !crate::text::is_ws('c')
        && !crate::text::is_ws('a'));
    lemma_trim_spaced("desc"@);
    lemma_trim_spaced("asc"@);
}

} // verus!
