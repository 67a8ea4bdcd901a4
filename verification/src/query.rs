//! Query construction: filter expressions, sort specifications and the
//! query bundle of filter, sort, offset and limit, with builder helpers.

use vstd::prelude::*;

use crate::value::Value;
use crate::value::ValueView;

verus! {

broadcast use
    vstd::seq::axiom_seq_index_decreases,
    vstd::std_specs::vec::axiom_vec_index_decreases,
    vstd::std_specs::vec::axiom_vec_decreases_to_view,
;

/// Sort direction for query results.
#[derive(Debug, Clone, Copy, PartialEq, Eq, Structural)]
pub enum SortDirection {
    /// Ascending order.
    Asc,
    /// Descending order.
    Desc,
}

/// Sort specification: which field to sort by, and in which direction.
#[derive(Debug, Clone)]
pub struct Sort {
    /// The field name to sort by.
    pub field: String,
    /// The sort direction.
    pub direction: SortDirection,
}

impl View for Sort {
    type V = (Seq<char>, SortDirection);

    open spec fn view(&self) -> (Seq<char>, SortDirection) {
        (self.field@, self.direction)
    }
}

/// Field comparison operators for filter expressions.
#[derive(Debug, Clone, Copy, PartialEq, Eq, Structural)]
pub enum FieldOp {
    /// Equal to.
    Eq,
    /// Not equal to.
    Ne,
    /// Greater than.
    Gt,
    /// Greater than or equal to.
    Gte,
    /// Less than.
    Lt,
    /// Less than or equal to.
    Lte,
    /// String or array contains the value.
    Contains,
    /// String or array does not contain the value; a missing field
    /// also does not contain it.
    NotContains,
    /// String starts with the value.
    StartsWith,
    /// String ends with the value.
    EndsWith,
    /// The field and the value, either of which may be an array,
    /// have a common element.
    AnyOf,
    /// The field and the value have no common element.
    NoneOf,
}

/// A filter expression for querying records.
#[derive(Debug)]
pub enum Expr {
    /// All of the listed expressions match; an empty list matches.
    And(Vec<Expr>),
    /// At least one of the listed expressions matches;
    /// an empty list does not match.
    Or(Vec<Expr>),
    /// The inner expression does not match.
    Not(Box<Expr>),
    /// The field is present exactly when the flag says so.
    Exists(String, bool),
    /// The named field compares to the value under the operator.
    Field {
        /// The field name to compare.
        field: String,
        /// The comparison operator.
        op: FieldOp,
        /// The value to compare against.
        value: Value,
    },
}

/// The mathematical model of a filter expression.
pub ghost enum ExprView {
    And(Seq<ExprView>),
    Or(Seq<ExprView>),
    Not(Box<ExprView>),
    Exists(Seq<char>, bool),
    Field { field: Seq<char>, op: FieldOp, value: ValueView },
}

impl Expr {
    /// The model of this expression: the same tree over mathematical types.
    pub open spec fn expr_view(self) -> ExprView
        decreases self,
    {
        match self {
            Expr::And(subs) => ExprView::And(views_of_exprs(subs@)),
            Expr::Or(subs) => ExprView::Or(views_of_exprs(subs@)),
            Expr::Not(sub) => ExprView::Not(Box::new(sub.expr_view())),
            Expr::Exists(field, want) => ExprView::Exists(field@, want),
            Expr::Field { field, op, value } => ExprView::Field {
                field: field@,
                op,
                value: value@,
            },
        }
    }
}

/// The models of a sequence of expressions, elementwise.
pub open spec fn views_of_exprs(subs: Seq<Expr>) -> Seq<ExprView>
    decreases subs,
{
    if subs.len() == 0 {
        Seq::empty()
    } else {
        seq![subs[0].expr_view()] + views_of_exprs(subs.drop_first())
    }
}

/// `views_of_exprs` is the elementwise model of its argument.
pub broadcast proof fn lemma_views_of_exprs(subs: Seq<Expr>)
    ensures
        (#[trigger] views_of_exprs(subs)).len() == subs.len(),
        forall|i: int| 0 <= i < subs.len() ==> views_of_exprs(subs)[i] == subs[i]@,
    decreases subs,
{
    if subs.len() > 0 {
        lemma_views_of_exprs(subs.drop_first());
    }
}

impl View for Expr {
    type V = ExprView;

    open spec fn view(&self) -> ExprView {
        self.expr_view()
    }
}

impl Clone for Expr {
    /// A deep copy with the same model.
    fn clone(&self) -> (res: Expr)
        ensures
            res@ == self@,
    {
        clone_expr(self)
    }
}

/// A deep copy with the same model.
#[verifier::loop_isolation(false)]
pub fn clone_expr(e: &Expr) -> (res: Expr)
    ensures
        res@ == e@,
    decreases e,
{
    match e {
        Expr::And(subs) => {
            let mut out: Vec<Expr> = Vec::new();
            let mut i: usize = 0;
            while i < subs.len()
                invariant
                    i <= subs.len(),
                    out@.len() == i as int,
                    forall|k: int| 0 <= k < i as int ==> out@[k]@ == subs@[k]@,
                decreases subs.len() - i,
            {
                out.push(clone_expr(&subs[i]));
                i = i + 1;
            }
            let res = Expr::And(out);
            proof {
                lemma_views_of_exprs(out@);
                lemma_views_of_exprs(subs@);
                assert(views_of_exprs(out@) =~= views_of_exprs(subs@));
            }
            res
        },
        Expr::Or(subs) => {
            let mut out: Vec<Expr> = Vec::new();
            let mut i: usize = 0;
            while i < subs.len()
                invariant
                    i <= subs.len(),
                    out@.len() == i as int,
                    forall|k: int| 0 <= k < i as int ==> out@[k]@ == subs@[k]@,
                decreases subs.len() - i,
            {
                out.push(clone_expr(&subs[i]));
                i = i + 1;
            }
            let res = Expr::Or(out);
            proof {
                lemma_views_of_exprs(out@);
                lemma_views_of_exprs(subs@);
                assert(views_of_exprs(out@) =~= views_of_exprs(subs@));
            }
            res
        },
        Expr::Not(sub) => Expr::Not(Box::new(clone_expr(sub))),
        Expr::Exists(field, want) => Expr::Exists(field.clone(), *want),
        Expr::Field { field, op, value } => Expr::Field {
            field: field.clone(),
            op: *op,
            value: crate::value::clone_value(value),
        },
    }
}

impl Expr {
    /// A field comparison expression.
    pub fn field(field: String, op: FieldOp, value: Value) -> (r: Expr)
        ensures
            r@ == (ExprView::Field { field: field@, op, value: value@ }),
    {
        Expr::Field { field, op, value }
    }

    /// This expression and another, both required.
    ///
    /// Extends this expression's list when it is already a conjunction;
    /// otherwise conjoins the two.
    pub fn and(self, other: Expr) -> (r: Expr)
        ensures
            r@ == (match self@ {
                ExprView::And(list) => ExprView::And(list.push(other@)),
                _ => ExprView::And(seq![self@, other@]),
            }),
    {
        match self {
            Expr::And(mut list) => {
                let ghost before = list@;
                list.push(other);
                proof {
                    assert(views_of_exprs(list@) =~= views_of_exprs(before).push(other@)) by {
                        lemma_views_of_exprs(list@);
                        lemma_views_of_exprs(before);
                    }
                }
                Expr::And(list)
            },
            _ => {
                let r = Expr::And(vec![self, other]);
                proof {
                    lemma_views_of_exprs(r->And_0@);
                    assert(views_of_exprs(r->And_0@) =~= seq![self@, other@]);
                }
                r
            },
        }
    }

    /// This expression or another: at least one must match.
    ///
    /// Extends this expression's list when it is already a disjunction;
    /// otherwise disjoins the two.
    pub fn or(self, other: Expr) -> (r: Expr)
        ensures
            r@ == (match self@ {
                ExprView::Or(list) => ExprView::Or(list.push(other@)),
                _ => ExprView::Or(seq![self@, other@]),
            }),
    {
        match self {
            Expr::Or(mut list) => {
                let ghost before = list@;
                list.push(other);
                proof {
                    assert(views_of_exprs(list@) =~= views_of_exprs(before).push(other@)) by {
                        lemma_views_of_exprs(list@);
                        lemma_views_of_exprs(before);
                    }
                }
                Expr::Or(list)
            },
            _ => {
                let r = Expr::Or(vec![self, other]);
                proof {
                    lemma_views_of_exprs(r->Or_0@);
                    assert(views_of_exprs(r->Or_0@) =~= seq![self@, other@]);
                }
                r
            },
        }
    }

    /// The negation of this expression.
    pub fn not(self) -> (r: Expr)
        ensures
            r@ == ExprView::Not(Box::new(self@)),
    {
        Expr::Not(Box::new(self))
    }
}

/// A structured query: an optional filter, an optional sort, and optional
/// offset and limit, applied in that order.
#[derive(Debug, Clone)]
pub struct Query {
    /// Records must match this expression to be returned.
    pub filter: Option<Expr>,
    /// At most this many records are returned.
    pub limit: Option<usize>,
    /// This many records are skipped first.
    pub offset: Option<usize>,
    /// Results are ordered by this specification.
    pub sort: Option<Sort>,
}

/// The mathematical model of a query.
pub ghost struct QueryView {
    /// The model of the filter, when one is set.
    pub filter: Option<ExprView>,
    /// The limit, when one is set.
    pub limit: Option<int>,
    /// The offset, when one is set.
    pub offset: Option<int>,
    /// The sort field and direction, when set.
    pub sort: Option<(Seq<char>, SortDirection)>,
}

impl View for Query {
    type V = QueryView;

    open spec fn view(&self) -> QueryView {
        QueryView {
            filter: match self.filter {
                Some(e) => Some(e@),
                None => None,
            },
            limit: match self.limit {
                Some(n) => Some(n as int),
                None => None,
            },
            offset: match self.offset {
                Some(n) => Some(n as int),
                None => None,
            },
            sort: match self.sort {
                Some(s) => Some(s@),
                None => None,
            },
        }
    }
}

impl Query {
    /// An empty query: no filter, no sort, no offset, no limit.
    pub fn new() -> (r: Query)
        ensures
            r@ == (QueryView { filter: None, limit: None, offset: None, sort: None }),
    {
        Query { filter: None, limit: None, offset: None, sort: None }
    }

    /// A builder for fluent query construction.
    pub fn builder() -> (r: QueryBuilder)
        ensures
            r.query@ == (QueryView { filter: None, limit: None, offset: None, sort: None }),
    {
        QueryBuilder::new()
    }
}

impl Default for Query {
    /// The empty query.
    fn default() -> (r: Query)
        ensures
            r@ == (QueryView { filter: None, limit: None, offset: None, sort: None }),
    {
        Query::new()
    }
}

/// Helpers that build the common filter expressions.
pub struct Filter;

impl Filter {
    /// The field equals the value.
    pub fn eq(field: &str, value: Value) -> (r: Expr)
        ensures
            r@ == (ExprView::Field { field: field@, op: FieldOp::Eq, value: value@ }),
    {
        Expr::Field { field: field.to_owned(), op: FieldOp::Eq, value }
    }

    /// The field does not equal the value.
    pub fn ne(field: &str, value: Value) -> (r: Expr)
        ensures
            r@ == (ExprView::Field { field: field@, op: FieldOp::Ne, value: value@ }),
    {
        Expr::Field { field: field.to_owned(), op: FieldOp::Ne, value }
    }

    /// The field is greater than the value.
    pub fn gt(field: &str, value: Value) -> (r: Expr)
        ensures
            r@ == (ExprView::Field { field: field@, op: FieldOp::Gt, value: value@ }),
    {
        Expr::Field { field: field.to_owned(), op: FieldOp::Gt, value }
    }

    /// The field is greater than or equal to the value.
    pub fn gte(field: &str, value: Value) -> (r: Expr)
        ensures
            r@ == (ExprView::Field { field: field@, op: FieldOp::Gte, value: value@ }),
    {
        Expr::Field { field: field.to_owned(), op: FieldOp::Gte, value }
    }

    /// The field is less than the value.
    pub fn lt(field: &str, value: Value) -> (r: Expr)
        ensures
            r@ == (ExprView::Field { field: field@, op: FieldOp::Lt, value: value@ }),
    {
        Expr::Field { field: field.to_owned(), op: FieldOp::Lt, value }
    }

    /// The field is less than or equal to the value.
    pub fn lte(field: &str, value: Value) -> (r: Expr)
        ensures
            r@ == (ExprView::Field { field: field@, op: FieldOp::Lte, value: value@ }),
    {
        Expr::Field { field: field.to_owned(), op: FieldOp::Lte, value }
    }

    /// The string field starts with the value.
    pub fn starts_with(field: &str, value: Value) -> (r: Expr)
        ensures
            r@ == (ExprView::Field { field: field@, op: FieldOp::StartsWith, value: value@ }),
    {
        Expr::Field { field: field.to_owned(), op: FieldOp::StartsWith, value }
    }

    /// The string field ends with the value.
    pub fn ends_with(field: &str, value: Value) -> (r: Expr)
        ensures
            r@ == (ExprView::Field { field: field@, op: FieldOp::EndsWith, value: value@ }),
    {
        Expr::Field { field: field.to_owned(), op: FieldOp::EndsWith, value }
    }

    /// The field, a string or an array, contains the value.
    pub fn contains(field: &str, value: Value) -> (r: Expr)
        ensures
            r@ == (ExprView::Field { field: field@, op: FieldOp::Contains, value: value@ }),
    {
        Expr::Field { field: field.to_owned(), op: FieldOp::Contains, value }
    }

    /// The field, a string or an array, does not contain the value.
    pub fn not_contains(field: &str, value: Value) -> (r: Expr)
        ensures
            r@ == (ExprView::Field { field: field@, op: FieldOp::NotContains, value: value@ }),
    {
        Expr::Field { field: field.to_owned(), op: FieldOp::NotContains, value }
    }

    /// The field is present, even when its value is null.
    pub fn field_exists(field: &str) -> (r: Expr)
        ensures
            r@ == ExprView::Exists(field@, true),
    {
        Expr::Exists(field.to_owned(), true)
    }

    /// The field is absent.
    pub fn field_not_exists(field: &str) -> (r: Expr)
        ensures
            r@ == ExprView::Exists(field@, false),
    {
        Expr::Exists(field.to_owned(), false)
    }

    /// All of the listed expressions match.
    pub fn and(exprs: Vec<Expr>) -> (r: Expr)
        ensures
            r@ == ExprView::And(views_of_exprs(exprs@)),
    {
        Expr::And(exprs)
    }

    /// At least one of the listed expressions matches.
    pub fn or(exprs: Vec<Expr>) -> (r: Expr)
        ensures
            r@ == ExprView::Or(views_of_exprs(exprs@)),
    {
        Expr::Or(exprs)
    }

    /// The field and the value have a common element, either side possibly
    /// an array and a scalar counting as a common element of itself.
    pub fn any_of(field: &str, value: Value) -> (r: Expr)
        ensures
            r@ == (ExprView::Field { field: field@, op: FieldOp::AnyOf, value: value@ }),
    {
        Expr::Field { field: field.to_owned(), op: FieldOp::AnyOf, value }
    }

    /// The field and the value have no common element.
    pub fn none_of(field: &str, value: Value) -> (r: Expr)
        ensures
            r@ == (ExprView::Field { field: field@, op: FieldOp::NoneOf, value: value@ }),
    {
        Expr::Field { field: field.to_owned(), op: FieldOp::NoneOf, value }
    }
}

/// Builds a query step by step.
#[derive(Debug, Clone)]
pub struct QueryBuilder {
    /// The query as built so far.
    pub query: Query,
}

impl QueryBuilder {
    /// A builder holding the empty query.
    pub fn new() -> (r: QueryBuilder)
        ensures
            r.query@ == (QueryView { filter: None, limit: None, offset: None, sort: None }),
    {
        QueryBuilder { query: Query::new() }
    }

    /// Sets the filter expression.
    pub fn filter(self, filter: Expr) -> (r: QueryBuilder)
        ensures
            r.query@ == (QueryView { filter: Some(filter@), ..self.query@ }),
    {
        let mut this = self;
        this.query.filter = Some(filter);
        this
    }

    /// Sets the maximum number of records to return.
    pub fn limit(self, limit: usize) -> (r: QueryBuilder)
        ensures
            r.query@ == (QueryView { limit: Some(limit as int), ..self.query@ }),
    {
        let mut this = self;
        this.query.limit = Some(limit);
        this
    }

    /// Sets the number of records to skip.
    pub fn offset(self, offset: usize) -> (r: QueryBuilder)
        ensures
            r.query@ == (QueryView { offset: Some(offset as int), ..self.query@ }),
    {
        let mut this = self;
        this.query.offset = Some(offset);
        this
    }

    /// Sets the sort field and direction.
    pub fn sort(self, field: &str, direction: SortDirection) -> (r: QueryBuilder)
        ensures
            r.query@ == (QueryView { sort: Some((field@, direction)), ..self.query@ }),
    {
        let mut this = self;
        this.query.sort = Some(Sort { field: field.to_owned(), direction });
        this
    }

    /// The finished query.
    pub fn build(self) -> (r: Query)
        ensures
            r@ == self.query@,
    {
        self.query
    }
}

} // verus!
