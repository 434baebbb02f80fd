//! Gremlin traversal steps, predicates and orderings, their models, and the
//! fluent builder of traversals.
use crate::types::{EdgeId, PropValue, PropertyValue, VertexId};
use vstd::prelude::*;

verus! {

/// A filter predicate.
#[derive(Debug, PartialEq)]
pub enum GremlinPredicate {
    Eq(PropertyValue),
    Neq(PropertyValue),
    Gt(PropertyValue),
    Gte(PropertyValue),
    Lt(PropertyValue),
    Lte(PropertyValue),
    Within(Vec<PropertyValue>),
    Without(Vec<PropertyValue>),
    Containing(String),
    StartingWith(String),
    EndingWith(String),
    Matching(String),
    And(Vec<GremlinPredicate>),
    Or(Vec<GremlinPredicate>),
    Not(Box<GremlinPredicate>),
    HasProperty(String, Box<GremlinPredicate>),
}

/// The direction of an ordering.
#[derive(Debug, Clone, Copy, PartialEq, Eq, Structural)]
pub enum GremlinOrderDirection {
    Asc,
    Desc,
}

/// An ordering.
#[derive(Debug, PartialEq)]
pub enum GremlinOrder {
    Asc,
    Desc,
    By(String, GremlinOrderDirection),
}

/// One step of a traversal.
#[derive(Debug, PartialEq)]
pub enum GremlinStep {
    V(Option<Vec<VertexId>>),
    E(Option<Vec<EdgeId>>),
    Out(Option<Vec<String>>),
    In(Option<Vec<String>>),
    Both(Option<Vec<String>>),
    OutE(Option<Vec<String>>),
    InE(Option<Vec<String>>),
    BothE(Option<Vec<String>>),
    OtherV,
    OutV,
    InV,
    Has(String, Option<PropertyValue>, Option<Box<GremlinPredicate>>),
    HasKey(String),
    HasValue(PropertyValue),
    HasLabel(String),
    Where(Box<GremlinPredicate>),
    Values(Vec<String>),
    Properties(Option<Vec<String>>),
    PropertyMap(Option<Vec<String>>),
    Select(Vec<String>),
    As(String),
    Dedup,
    Limit(usize),
    Skip(usize),
    Range(usize, usize),
    Order(Option<GremlinOrder>),
    Group,
    GroupCount,
    Count,
    Sum,
    Mean,
    Max,
    Min,
    Fold,
    Path,
    Repeat(Box<GremlinTraversal>, Option<usize>),
    Until(Box<GremlinPredicate>),
    Times(usize),
    Emit(Option<Box<GremlinPredicate>>),
    Union(Vec<GremlinTraversal>),
    Choose(Box<GremlinPredicate>, Box<GremlinTraversal>, Option<Box<GremlinTraversal>>),
    Optional(Box<GremlinTraversal>),
    Coalesce(Vec<GremlinTraversal>),
    Local(Box<GremlinTraversal>),
    SideEffect(Box<GremlinTraversal>),
    Store(String),
    Aggregate(String),
    AddV(Option<String>),
    AddE(String),
    Property(String, PropertyValue),
    To(Box<GremlinTraversal>),
    From(Box<GremlinTraversal>),
    Id,
    WhereFilter(Box<GremlinPredicate>),
    Within(Vec<PropertyValue>),
    Without(String),
    WithinTraversal(Box<GremlinTraversal>),
    Neq(Box<GremlinTraversal>),
    OrderLocal(Option<GremlinOrder>),
    By(String, Option<GremlinOrder>),
    Project(Vec<String>),
}

/// A traversal: a sequence of steps.
#[derive(Debug, PartialEq)]
pub struct GremlinTraversal {
    pub steps: Vec<GremlinStep>,
}

/// Model of a predicate.
pub enum PredView {
    Eq(PropValue),
    Neq(PropValue),
    Gt(PropValue),
    Gte(PropValue),
    Lt(PropValue),
    Lte(PropValue),
    Within(Seq<PropValue>),
    Without(Seq<PropValue>),
    Containing(Seq<char>),
    StartingWith(Seq<char>),
    EndingWith(Seq<char>),
    Matching(Seq<char>),
    And(Seq<PredView>),
    Or(Seq<PredView>),
    Not(Box<PredView>),
    HasProperty(Seq<char>, Box<PredView>),
}

/// Model of an ordering.
pub enum OrderView {
    Asc,
    Desc,
    By(Seq<char>, GremlinOrderDirection),
}

/// Model of a step; a nested traversal is modelled by its sequence of steps.
pub enum StepView {
    V(Option<Seq<VertexId>>),
    E(Option<Seq<EdgeId>>),
    Out(Option<Seq<Seq<char>>>),
    In(Option<Seq<Seq<char>>>),
    Both(Option<Seq<Seq<char>>>),
    OutE(Option<Seq<Seq<char>>>),
    InE(Option<Seq<Seq<char>>>),
    BothE(Option<Seq<Seq<char>>>),
    OtherV,
    OutV,
    InV,
    Has(Seq<char>, Option<PropValue>, Option<PredView>),
    HasKey(Seq<char>),
    HasValue(PropValue),
    HasLabel(Seq<char>),
    Where(PredView),
    Values(Seq<Seq<char>>),
    Properties(Option<Seq<Seq<char>>>),
    PropertyMap(Option<Seq<Seq<char>>>),
    Select(Seq<Seq<char>>),
    As(Seq<char>),
    Dedup,
    Limit(usize),
    Skip(usize),
    Range(usize, usize),
    Order(Option<OrderView>),
    Group,
    GroupCount,
    Count,
    Sum,
    Mean,
    Max,
    Min,
    Fold,
    Path,
    Repeat(Seq<StepView>, Option<usize>),
    Until(PredView),
    Times(usize),
    Emit(Option<PredView>),
    Union(Seq<Seq<StepView>>),
    Choose(PredView, Seq<StepView>, Option<Seq<StepView>>),
    Optional(Seq<StepView>),
    Coalesce(Seq<Seq<StepView>>),
    Local(Seq<StepView>),
    SideEffect(Seq<StepView>),
    Store(Seq<char>),
    Aggregate(Seq<char>),
    AddV(Option<Seq<char>>),
    AddE(Seq<char>),
    Property(Seq<char>, PropValue),
    To(Seq<StepView>),
    From(Seq<StepView>),
    Id,
    WhereFilter(PredView),
    Within(Seq<PropValue>),
    Without(Seq<char>),
    WithinTraversal(Seq<StepView>),
    Neq(Seq<StepView>),
    OrderLocal(Option<OrderView>),
    By(Seq<char>, Option<OrderView>),
    Project(Seq<Seq<char>>),
}

pub open spec fn strings_view(v: Vec<String>) -> Seq<Seq<char>> {
    v@.map_values(|s: String| s@)
}

pub open spec fn opt_strings_view(v: Option<Vec<String>>) -> Option<Seq<Seq<char>>> {
    match v {
        Some(v) => Some(strings_view(v)),
        None => None,
    }
}

pub open spec fn values_view(v: Vec<PropertyValue>) -> Seq<PropValue> {
    v@.map_values(|p: PropertyValue| p@)
}

pub open spec fn order_view(o: GremlinOrder) -> OrderView {
    match o {
        GremlinOrder::Asc => OrderView::Asc,
        GremlinOrder::Desc => OrderView::Desc,
        GremlinOrder::By(s, d) => OrderView::By(s@, d),
    }
}

pub open spec fn opt_order_view(o: Option<GremlinOrder>) -> Option<OrderView> {
    match o {
        Some(o) => Some(order_view(o)),
        None => None,
    }
}

pub open spec fn pred_view(p: GremlinPredicate) -> PredView
    decreases p,
{
    match p {
        GremlinPredicate::Eq(v) => PredView::Eq(v@),
        GremlinPredicate::Neq(v) => PredView::Neq(v@),
        GremlinPredicate::Gt(v) => PredView::Gt(v@),
        GremlinPredicate::Gte(v) => PredView::Gte(v@),
        GremlinPredicate::Lt(v) => PredView::Lt(v@),
        GremlinPredicate::Lte(v) => PredView::Lte(v@),
        GremlinPredicate::Within(v) => PredView::Within(values_view(v)),
        GremlinPredicate::Without(v) => PredView::Without(values_view(v)),
        GremlinPredicate::Containing(s) => PredView::Containing(s@),
        GremlinPredicate::StartingWith(s) => PredView::StartingWith(s@),
        GremlinPredicate::EndingWith(s) => PredView::EndingWith(s@),
        GremlinPredicate::Matching(s) => PredView::Matching(s@),
        GremlinPredicate::And(v) => PredView::And(
            Seq::new(
                v.len() as nat,
                |i: int|
                    if 0 <= i < v.len() {
                        pred_view(v[i])
                    } else {
                        PredView::Containing(Seq::empty())
                    },
            ),
        ),
        GremlinPredicate::Or(v) => PredView::Or(
            Seq::new(
                v.len() as nat,
                |i: int|
                    if 0 <= i < v.len() {
                        pred_view(v[i])
                    } else {
                        PredView::Containing(Seq::empty())
                    },
            ),
        ),
        GremlinPredicate::Not(b) => PredView::Not(Box::new(pred_view(*b))),
        GremlinPredicate::HasProperty(k, b) => PredView::HasProperty(k@, Box::new(pred_view(*b))),
    }
}

pub open spec fn opt_pred_view(p: Option<Box<GremlinPredicate>>) -> Option<PredView> {
    match p {
        Some(b) => Some(pred_view(*b)),
        None => None,
    }
}

pub open spec fn opt_value_view(v: Option<PropertyValue>) -> Option<PropValue> {
    match v {
        Some(v) => Some(v@),
        None => None,
    }
}

pub open spec fn opt_string_view(v: Option<String>) -> Option<Seq<char>> {
    match v {
        Some(v) => Some(v@),
        None => None,
    }
}

pub open spec fn opt_ids_view<T>(v: Option<Vec<T>>) -> Option<Seq<T>> {
    match v {
        Some(v) => Some(v@),
        None => None,
    }
}

/// The model of a traversal: the models of its steps, in order.
pub open spec fn trav_view(t: GremlinTraversal) -> Seq<StepView>
    decreases t,
{
    Seq::new(
        t.steps.len() as nat,
        |i: int|
            if 0 <= i < t.steps.len() {
                step_view(t.steps[i])
            } else {
                StepView::Id
            },
    )
}

pub open spec fn travs_view(v: Vec<GremlinTraversal>) -> Seq<Seq<StepView>>
    decreases v,
{
    Seq::new(
        v.len() as nat,
        |i: int|
            if 0 <= i < v.len() {
                trav_view(v[i])
            } else {
                Seq::empty()
            },
    )
}

pub open spec fn step_view(s: GremlinStep) -> StepView
    decreases s,
{
    match s {
        GremlinStep::V(ids) => StepView::V(opt_ids_view(ids)),
        GremlinStep::E(ids) => StepView::E(opt_ids_view(ids)),
        GremlinStep::Out(l) => StepView::Out(opt_strings_view(l)),
        GremlinStep::In(l) => StepView::In(opt_strings_view(l)),
        GremlinStep::Both(l) => StepView::Both(opt_strings_view(l)),
        GremlinStep::OutE(l) => StepView::OutE(opt_strings_view(l)),
        GremlinStep::InE(l) => StepView::InE(opt_strings_view(l)),
        GremlinStep::BothE(l) => StepView::BothE(opt_strings_view(l)),
        GremlinStep::OtherV => StepView::OtherV,
        GremlinStep::OutV => StepView::OutV,
        GremlinStep::InV => StepView::InV,
        GremlinStep::Has(k, v, p) => StepView::Has(k@, opt_value_view(v), opt_pred_view(p)),
        GremlinStep::HasKey(k) => StepView::HasKey(k@),
        GremlinStep::HasValue(v) => StepView::HasValue(v@),
        GremlinStep::HasLabel(l) => StepView::HasLabel(l@),
        GremlinStep::Where(p) => StepView::Where(pred_view(*p)),
        GremlinStep::Values(v) => StepView::Values(strings_view(v)),
        GremlinStep::Properties(v) => StepView::Properties(opt_strings_view(v)),
        GremlinStep::PropertyMap(v) => StepView::PropertyMap(opt_strings_view(v)),
        GremlinStep::Select(v) => StepView::Select(strings_view(v)),
        GremlinStep::As(l) => StepView::As(l@),
        GremlinStep::Dedup => StepView::Dedup,
        GremlinStep::Limit(n) => StepView::Limit(n),
        GremlinStep::Skip(n) => StepView::Skip(n),
        GremlinStep::Range(a, b) => StepView::Range(a, b),
        GremlinStep::Order(o) => StepView::Order(opt_order_view(o)),
        GremlinStep::Group => StepView::Group,
        GremlinStep::GroupCount => StepView::GroupCount,
        GremlinStep::Count => StepView::Count,
        GremlinStep::Sum => StepView::Sum,
        GremlinStep::Mean => StepView::Mean,
        GremlinStep::Max => StepView::Max,
        GremlinStep::Min => StepView::Min,
        GremlinStep::Fold => StepView::Fold,
        GremlinStep::Path => StepView::Path,
        GremlinStep::Repeat(t, n) => StepView::Repeat(trav_view(*t), n),
        GremlinStep::Until(p) => StepView::Until(pred_view(*p)),
        GremlinStep::Times(n) => StepView::Times(n),
        GremlinStep::Emit(p) => StepView::Emit(opt_pred_view(p)),
        GremlinStep::Union(v) => StepView::Union(travs_view(v)),
        GremlinStep::Choose(p, t, e) => StepView::Choose(
            pred_view(*p),
            trav_view(*t),
            match e {
                Some(e) => Some(trav_view(*e)),
                None => None,
            },
        ),
        GremlinStep::Optional(t) => StepView::Optional(trav_view(*t)),
        GremlinStep::Coalesce(v) => StepView::Coalesce(travs_view(v)),
        GremlinStep::Local(t) => StepView::Local(trav_view(*t)),
        GremlinStep::SideEffect(t) => StepView::SideEffect(trav_view(*t)),
        GremlinStep::Store(l) => StepView::Store(l@),
        GremlinStep::Aggregate(l) => StepView::Aggregate(l@),
        GremlinStep::AddV(l) => StepView::AddV(opt_string_view(l)),
        GremlinStep::AddE(l) => StepView::AddE(l@),
        GremlinStep::Property(k, v) => StepView::Property(k@, v@),
        GremlinStep::To(t) => StepView::To(trav_view(*t)),
        GremlinStep::From(t) => StepView::From(trav_view(*t)),
        GremlinStep::Id => StepView::Id,
        GremlinStep::WhereFilter(p) => StepView::WhereFilter(pred_view(*p)),
        GremlinStep::Within(v) => StepView::Within(values_view(v)),
        GremlinStep::Without(l) => StepView::Without(l@),
        GremlinStep::WithinTraversal(t) => StepView::WithinTraversal(trav_view(*t)),
        GremlinStep::Neq(t) => StepView::Neq(trav_view(*t)),
        GremlinStep::OrderLocal(o) => StepView::OrderLocal(opt_order_view(o)),
        GremlinStep::By(p, o) => StepView::By(p@, opt_order_view(o)),
        GremlinStep::Project(v) => StepView::Project(strings_view(v)),
    }
}

impl GremlinTraversal {
    /// An empty traversal.
    pub fn new() -> (r: Self)
        ensures
            r.steps@.len() == 0,
    {
        GremlinTraversal { steps: Vec::new() }
    }

    /// `g.V()`, or `g.V(ids)` for the given vertices.
    pub fn v(ids: Option<Vec<VertexId>>) -> (r: Self)
        ensures
            r.steps@ == seq![GremlinStep::V(ids)],
    {
        let mut steps = Vec::new();
        steps.push(GremlinStep::V(ids));
        GremlinTraversal { steps }
    }

    /// `g.E()`, or `g.E(ids)` for the given edges.
    pub fn e(ids: Option<Vec<EdgeId>>) -> (r: Self)
        ensures
            r.steps@ == seq![GremlinStep::E(ids)],
    {
        let mut steps = Vec::new();
        steps.push(GremlinStep::E(ids));
        GremlinTraversal { steps }
    }

    /// This traversal followed by `step`.
    pub fn step(self, step: GremlinStep) -> (r: Self)
        ensures
            r.steps@ == self.steps@.push(step),
    {
        let mut s = self;
        s.steps.push(step);
        s
    }

    pub fn out(self, labels: Option<Vec<String>>) -> (r: Self)
        ensures
            r.steps@ == self.steps@.push(GremlinStep::Out(labels)),
    {
        self.step(GremlinStep::Out(labels))
    }

    pub fn in_(self, labels: Option<Vec<String>>) -> (r: Self)
        ensures
            r.steps@ == self.steps@.push(GremlinStep::In(labels)),
    {
        self.step(GremlinStep::In(labels))
    }

    pub fn both(self, labels: Option<Vec<String>>) -> (r: Self)
        ensures
            r.steps@ == self.steps@.push(GremlinStep::Both(labels)),
    {
        self.step(GremlinStep::Both(labels))
    }

    pub fn has(self, key: String, value: Option<PropertyValue>) -> (r: Self)
        ensures
            r.steps@ == self.steps@.push(GremlinStep::Has(key, value, None)),
    {
        self.step(GremlinStep::Has(key, value, None))
    }

    pub fn has_key(self, key: String) -> (r: Self)
        ensures
            r.steps@ == self.steps@.push(GremlinStep::HasKey(key)),
    {
        self.step(GremlinStep::HasKey(key))
    }

    pub fn has_value(self, value: PropertyValue) -> (r: Self)
        ensures
            r.steps@ == self.steps@.push(GremlinStep::HasValue(value)),
    {
        self.step(GremlinStep::HasValue(value))
    }

    pub fn has_label(self, label: String) -> (r: Self)
        ensures
            r.steps@ == self.steps@.push(GremlinStep::HasLabel(label)),
    {
        self.step(GremlinStep::HasLabel(label))
    }

    pub fn where_(self, predicate: GremlinPredicate) -> (r: Self)
        ensures
            r.steps@ == self.steps@.push(GremlinStep::Where(Box::new(predicate))),
    {
        self.step(GremlinStep::Where(Box::new(predicate)))
    }

    pub fn values(self, properties: Vec<String>) -> (r: Self)
        ensures
            r.steps@ == self.steps@.push(GremlinStep::Values(properties)),
    {
        self.step(GremlinStep::Values(properties))
    }

    pub fn properties(self, keys: Option<Vec<String>>) -> (r: Self)
        ensures
            r.steps@ == self.steps@.push(GremlinStep::Properties(keys)),
    {
        self.step(GremlinStep::Properties(keys))
    }

    pub fn property_map(self, keys: Option<Vec<String>>) -> (r: Self)
        ensures
            r.steps@ == self.steps@.push(GremlinStep::PropertyMap(keys)),
    {
        self.step(GremlinStep::PropertyMap(keys))
    }

    pub fn as_(self, label: String) -> (r: Self)
        ensures
            r.steps@ == self.steps@.push(GremlinStep::As(label)),
    {
        self.step(GremlinStep::As(label))
    }

    pub fn select(self, labels: Vec<String>) -> (r: Self)
        ensures
            r.steps@ == self.steps@.push(GremlinStep::Select(labels)),
    {
        self.step(GremlinStep::Select(labels))
    }

    pub fn dedup(self) -> (r: Self)
        ensures
            r.steps@ == self.steps@.push(GremlinStep::Dedup),
    {
        self.step(GremlinStep::Dedup)
    }

    pub fn limit(self, count: usize) -> (r: Self)
        ensures
            r.steps@ == self.steps@.push(GremlinStep::Limit(count)),
    {
        self.step(GremlinStep::Limit(count))
    }

    pub fn skip(self, count: usize) -> (r: Self)
        ensures
            r.steps@ == self.steps@.push(GremlinStep::Skip(count)),
    {
        self.step(GremlinStep::Skip(count))
    }

    pub fn range(self, start: usize, end: usize) -> (r: Self)
        ensures
            r.steps@ == self.steps@.push(GremlinStep::Range(start, end)),
    {
        self.step(GremlinStep::Range(start, end))
    }

    pub fn order(self, order: Option<GremlinOrder>) -> (r: Self)
        ensures
            r.steps@ == self.steps@.push(GremlinStep::Order(order)),
    {
        self.step(GremlinStep::Order(order))
    }

    pub fn count(self) -> (r: Self)
        ensures
            r.steps@ == self.steps@.push(GremlinStep::Count),
    {
        self.step(GremlinStep::Count)
    }

    pub fn sum(self) -> (r: Self)
        ensures
            r.steps@ == self.steps@.push(GremlinStep::Sum),
    {
        self.step(GremlinStep::Sum)
    }

    pub fn mean(self) -> (r: Self)
        ensures
            r.steps@ == self.steps@.push(GremlinStep::Mean),
    {
        self.step(GremlinStep::Mean)
    }

    pub fn max(self) -> (r: Self)
        ensures
            r.steps@ == self.steps@.push(GremlinStep::Max),
    {
        self.step(GremlinStep::Max)
    }

    pub fn min(self) -> (r: Self)
        ensures
            r.steps@ == self.steps@.push(GremlinStep::Min),
    {
        self.step(GremlinStep::Min)
    }

    pub fn fold(self) -> (r: Self)
        ensures
            r.steps@ == self.steps@.push(GremlinStep::Fold),
    {
        self.step(GremlinStep::Fold)
    }

    pub fn path(self) -> (r: Self)
        ensures
            r.steps@ == self.steps@.push(GremlinStep::Path),
    {
        self.step(GremlinStep::Path)
    }

    pub fn repeat(self, traversal: GremlinTraversal, times: Option<usize>) -> (r: Self)
        ensures
            r.steps@ == self.steps@.push(GremlinStep::Repeat(Box::new(traversal), times)),
    {
        self.step(GremlinStep::Repeat(Box::new(traversal), times))
    }

    pub fn until(self, predicate: GremlinPredicate) -> (r: Self)
        ensures
            r.steps@ == self.steps@.push(GremlinStep::Until(Box::new(predicate))),
    {
        self.step(GremlinStep::Until(Box::new(predicate)))
    }

    pub fn times(self, n: usize) -> (r: Self)
        ensures
            r.steps@ == self.steps@.push(GremlinStep::Times(n)),
    {
        self.step(GremlinStep::Times(n))
    }

    pub fn emit(self, predicate: Option<GremlinPredicate>) -> (r: Self)
        ensures
            r.steps@ == self.steps@.push(
                GremlinStep::Emit(
                    match predicate {
                        Some(p) => Some(Box::new(p)),
                        None => None,
                    },
                ),
            ),
    {
        let boxed = match predicate {
            Some(p) => Some(Box::new(p)),
            None => None,
        };
        self.step(GremlinStep::Emit(boxed))
    }

    pub fn union(self, traversals: Vec<GremlinTraversal>) -> (r: Self)
        ensures
            r.steps@ == self.steps@.push(GremlinStep::Union(traversals)),
    {
        self.step(GremlinStep::Union(traversals))
    }

    pub fn choose_(
        self,
        predicate: GremlinPredicate,
        then_trav: GremlinTraversal,
        else_trav: Option<GremlinTraversal>,
    ) -> (r: Self)
        ensures
            r.steps@ == self.steps@.push(
                GremlinStep::Choose(
                    Box::new(predicate),
                    Box::new(then_trav),
                    match else_trav {
                        Some(t) => Some(Box::new(t)),
                        None => None,
                    },
                ),
            ),
    {
        let boxed_else = match else_trav {
            Some(t) => Some(Box::new(t)),
            None => None,
        };
        self.step(GremlinStep::Choose(Box::new(predicate), Box::new(then_trav), boxed_else))
    }

    pub fn optional(self, traversal: GremlinTraversal) -> (r: Self)
        ensures
            r.steps@ == self.steps@.push(GremlinStep::Optional(Box::new(traversal))),
    {
        self.step(GremlinStep::Optional(Box::new(traversal)))
    }

    pub fn coalesce(self, traversals: Vec<GremlinTraversal>) -> (r: Self)
        ensures
            r.steps@ == self.steps@.push(GremlinStep::Coalesce(traversals)),
    {
        self.step(GremlinStep::Coalesce(traversals))
    }

    pub fn local(self, traversal: GremlinTraversal) -> (r: Self)
        ensures
            r.steps@ == self.steps@.push(GremlinStep::Local(Box::new(traversal))),
    {
        self.step(GremlinStep::Local(Box::new(traversal)))
    }
}

} // verus!
