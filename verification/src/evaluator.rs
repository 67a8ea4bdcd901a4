//! The filter evaluator: decides whether one record matches a filter
//! expression, and filters a whole collection, preserving input order.
//!
//! The semantics of every operator is given by the specification functions
//! here; the executable evaluator is proved exact against them. A stored
//! value that should be a record but is not record-shaped is reported as an
//! invalid-document error, never treated as a non-match.

use vstd::prelude::*;

use crate::compare::ValueOrder;
use crate::compare::vv_cmp;
use crate::compare::vv_eq;
use crate::error::DocumentStoreError;
use crate::error::DocumentStoreResult;
use crate::query::Expr;
use crate::query::ExprView;
use crate::query::FieldOp;
use crate::query::views_of_exprs;
use crate::text::has_prefix;
use crate::text::has_substring;
use crate::text::has_suffix;
use crate::text::str_contains_str;
use crate::text::str_has_prefix;
use crate::text::str_has_suffix;
use crate::value::Value;
use crate::value::ValueView;
use crate::value::clone_value;
use crate::value::views_of_entries;
use crate::value::views_of_seq;

verus! {

broadcast use
    vstd::seq::axiom_seq_index_decreases,
    vstd::std_specs::vec::axiom_vec_index_decreases,
    vstd::std_specs::vec::axiom_vec_decreases_to_view,
    crate::value::lemma_views_of_seq,
    crate::value::lemma_views_of_entries,
    crate::query::lemma_views_of_exprs,
;

/// The value of the first entry of `fields` named `key`, when one exists.
pub open spec fn obj_lookup(fields: Seq<(Seq<char>, ValueView)>, key: Seq<char>) -> Option<
    ValueView,
>
    decreases fields.len(),
{
    if fields.len() == 0 {
        None
    } else if fields[0].0 == key {
        Some(fields[0].1)
    } else {
        obj_lookup(fields.drop_first(), key)
    }
}

/// When the first `i` entries are not named `key` and entry `i` is,
/// the lookup finds entry `i`.
proof fn lemma_obj_lookup_found(fields: Seq<(Seq<char>, ValueView)>, key: Seq<char>, i: int)
    requires
        0 <= i < fields.len(),
        forall|t: int| 0 <= t < i ==> (#[trigger] fields[t]).0 != key,
        fields[i].0 == key,
    ensures
        obj_lookup(fields, key) == Some(fields[i].1),
    decreases i,
{
    if i > 0 {
        lemma_obj_lookup_found(fields.drop_first(), key, i - 1);
    }
}

/// When no entry is named `key`, the lookup finds nothing.
proof fn lemma_obj_lookup_none(fields: Seq<(Seq<char>, ValueView)>, key: Seq<char>)
    requires
        forall|t: int| 0 <= t < fields.len() ==> (#[trigger] fields[t]).0 != key,
    ensures
        obj_lookup(fields, key) is None,
    decreases fields.len(),
{
    if fields.len() > 0 {
        lemma_obj_lookup_none(fields.drop_first(), key);
    }
}

/// Some element of `items` equals `v`.
pub open spec fn arr_has(items: Seq<ValueView>, v: ValueView) -> bool {
    exists|i: int| 0 <= i < items.len() && vv_eq(#[trigger] items[i], v)
}

/// What the containment operator holds of a present field value `fv`
/// and a query value `v`: an array contains `v` when some element equals
/// it; a string contains a string that occurs in it; nothing else
/// contains anything.
pub open spec fn contains_matches(fv: ValueView, v: ValueView) -> bool {
    match fv {
        ValueView::Array(items) => arr_has(items, v),
        ValueView::Text(s) => v matches ValueView::Text(p) && has_substring(s, p),
        _ => false,
    }
}

/// Some element of `vals` has an equal element in `items`.
pub open spec fn seqs_intersect(items: Seq<ValueView>, vals: Seq<ValueView>) -> bool {
    exists|j: int| 0 <= j < vals.len() && arr_has(items, #[trigger] vals[j])
}

/// Some element of `vals` equals `v`, the element on the left.
pub open spec fn seq_any_eq(vals: Seq<ValueView>, v: ValueView) -> bool {
    exists|j: int| 0 <= j < vals.len() && vv_eq(#[trigger] vals[j], v)
}

/// What the any-of operator holds of a present field value `fv` and a query
/// value `v`: the two sides have a common element, an array contributing its
/// elements and a scalar itself, symmetrically; two scalars never match.
pub open spec fn anyof_matches(fv: ValueView, v: ValueView) -> bool {
    match (fv, v) {
        (ValueView::Array(items), ValueView::Array(vals)) => seqs_intersect(items, vals),
        (ValueView::Array(items), _) => arr_has(items, v),
        (_, ValueView::Array(vals)) => seq_any_eq(vals, fv),
        _ => false,
    }
}

/// What one field operator holds of a present field value and a query value.
pub open spec fn op_matches(op: FieldOp, fv: ValueView, v: ValueView) -> bool {
    match op {
        FieldOp::Eq => vv_eq(fv, v),
        FieldOp::Ne => !vv_eq(fv, v),
        FieldOp::Gt => vv_cmp(fv, v) == Some(ValueOrder::Greater),
        FieldOp::Gte => vv_cmp(fv, v) == Some(ValueOrder::Greater) || vv_cmp(fv, v) == Some(
            ValueOrder::Equal,
        ),
        FieldOp::Lt => vv_cmp(fv, v) == Some(ValueOrder::Less),
        FieldOp::Lte => vv_cmp(fv, v) == Some(ValueOrder::Less) || vv_cmp(fv, v) == Some(
            ValueOrder::Equal,
        ),
        FieldOp::Contains => contains_matches(fv, v),
        FieldOp::NotContains => !contains_matches(fv, v),
        FieldOp::StartsWith => fv matches ValueView::Text(s) && v matches ValueView::Text(p)
            && has_prefix(s, p),
        FieldOp::EndsWith => fv matches ValueView::Text(s) && v matches ValueView::Text(p)
            && has_suffix(s, p),
        FieldOp::AnyOf => anyof_matches(fv, v),
        FieldOp::NoneOf => !anyof_matches(fv, v),
    }
}

/// Whether a record with the given fields matches a filter expression.
///
/// A conjunction over an empty list matches; a disjunction over an empty
/// list does not. A comparison against a missing field does not match,
/// with one exception: a missing field does not contain anything, so the
/// not-contains operator matches it.
pub open spec fn expr_matches(e: ExprView, fields: Seq<(Seq<char>, ValueView)>) -> bool
    decreases e, 0int,
{
    match e {
        ExprView::And(subs) => and_all(subs, fields),
        ExprView::Or(subs) => or_any(subs, fields),
        ExprView::Not(sub) => !expr_matches(*sub, fields),
        ExprView::Exists(field, want) => (obj_lookup(fields, field) is Some) == want,
        ExprView::Field { field, op, value } => match obj_lookup(fields, field) {
            Some(fv) => op_matches(op, fv, value),
            None => op is NotContains,
        },
    }
}

/// All of `subs` match the fields.
pub open spec fn and_all(subs: Seq<ExprView>, fields: Seq<(Seq<char>, ValueView)>) -> bool
    decreases subs, 1int,
{
    forall|i: int| 0 <= i < subs.len() ==> expr_matches(#[trigger] subs[i], fields)
}

/// At least one of `subs` matches the fields.
pub open spec fn or_any(subs: Seq<ExprView>, fields: Seq<(Seq<char>, ValueView)>) -> bool
    decreases subs, 1int,
{
    exists|i: int| 0 <= i < subs.len() && expr_matches(#[trigger] subs[i], fields)
}

/// Whether a stored value is a record that matches the expression:
/// it must be record-shaped, and its fields must match.
pub open spec fn record_matches(e: ExprView, r: ValueView) -> bool {
    r matches ValueView::Object(fields) && expr_matches(e, fields)
}

/// Every stored value in the sequence is record-shaped.
pub open spec fn records_wf(docs: Seq<ValueView>) -> bool {
    forall|i: int| 0 <= i < docs.len() ==> (#[trigger] docs[i]) is Object
}

/// The subsequence of `docs` whose records match `e`, in input order.
pub open spec fn filter_records(docs: Seq<ValueView>, e: ExprView) -> Seq<ValueView>
    decreases docs.len(),
{
    if docs.len() == 0 {
        Seq::empty()
    } else {
        let rest = filter_records(docs.drop_first(), e);
        if record_matches(e, docs[0]) {
            seq![docs[0]] + rest
        } else {
            rest
        }
    }
}

/// Filtering a sequence extended by one value filters the two parts
/// independently.
pub proof fn lemma_filter_records_push(docs: Seq<ValueView>, x: ValueView, e: ExprView)
    ensures
        filter_records(docs.push(x), e) == filter_records(docs, e) + (if record_matches(e, x) {
            seq![x]
        } else {
            Seq::<ValueView>::empty()
        }),
    decreases docs.len(),
{
    if docs.len() == 0 {
        assert(filter_records(Seq::<ValueView>::empty(), e) == Seq::<ValueView>::empty());
        assert(docs =~= Seq::<ValueView>::empty());
        assert(docs.push(x).drop_first() =~= Seq::<ValueView>::empty());
        assert(docs.push(x)[0] == x);
        if record_matches(e, x) {
            assert(filter_records(docs.push(x), e) =~= filter_records(docs, e) + seq![x]);
        } else {
            assert(filter_records(docs.push(x), e) =~= filter_records(docs, e));
        }
    } else {
        assert(docs.push(x).drop_first() =~= docs.drop_first().push(x));
        assert(docs.push(x)[0] == docs[0]);
        lemma_filter_records_push(docs.drop_first(), x, e);
        if record_matches(e, docs[0]) {
            assert(filter_records(docs.push(x), e) =~= filter_records(docs, e) + (
            if record_matches(e, x) {
                seq![x]
            } else {
                Seq::<ValueView>::empty()
            }));
        } else {
            assert(filter_records(docs.push(x), e) =~= filter_records(docs, e) + (
            if record_matches(e, x) {
                seq![x]
            } else {
                Seq::<ValueView>::empty()
            }));
        }
    }
}

/// The value of the first field named `key`, when one is present.
pub fn obj_get<'v>(fields: &'v Vec<(String, Value)>, key: &String) -> (r: Option<&'v Value>)
    ensures
        match r {
            Some(v) => obj_lookup(views_of_entries(fields@), key@) == Some(v@),
            None => obj_lookup(views_of_entries(fields@), key@) is None,
        },
{
    let ghost fv = views_of_entries(fields@);
    let mut i: usize = 0;
    while i < fields.len()
        invariant
            i <= fields@.len(),
            fv == views_of_entries(fields@),
            forall|t: int| 0 <= t < i ==> (#[trigger] fv[t]).0 != key@,
        decreases fields@.len() - i,
    {
        if fields[i].0.eq(key) {
            proof {
                lemma_obj_lookup_found(fv, key@, i as int);
            }
            return Some(&fields[i].1);
        }
        i = i + 1;
    }
    proof {
        lemma_obj_lookup_none(fv, key@);
    }
    None
}

/// Whether some element of `items` equals `v`, decided at run time.
fn arr_contains_val(items: &Vec<Value>, v: &Value) -> (r: bool)
    ensures
        r == arr_has(views_of_seq(items@), v@),
{
    let mut i: usize = 0;
    while i < items.len()
        invariant
            i <= items@.len(),
            forall|t: int| 0 <= t < i ==> !vv_eq(#[trigger] views_of_seq(items@)[t], v@),
        decreases items@.len() - i,
    {
        if crate::compare::value_eq(&items[i], v) {
            proof {
                assert(vv_eq(views_of_seq(items@)[i as int], v@));
            }
            return true;
        }
        i = i + 1;
    }
    false
}

/// Whether a present field value contains the query value,
/// decided at run time.
fn eval_contains(fv: &Value, v: &Value) -> (r: bool)
    ensures
        r == contains_matches(fv@, v@),
{
    match fv {
        Value::Array(items) => arr_contains_val(items, v),
        Value::Text(s) => match v {
            Value::Text(p) => str_contains_str(s, p),
            _ => false,
        },
        _ => false,
    }
}

/// Whether some element of `vals` has an equal element in `items`,
/// decided at run time.
fn arr_intersects(items: &Vec<Value>, vals: &Vec<Value>) -> (r: bool)
    ensures
        r == seqs_intersect(views_of_seq(items@), views_of_seq(vals@)),
{
    let mut j: usize = 0;
    while j < vals.len()
        invariant
            j <= vals@.len(),
            forall|t: int|
                0 <= t < j ==> !arr_has(views_of_seq(items@), #[trigger] views_of_seq(vals@)[t]),
        decreases vals@.len() - j,
    {
        if arr_contains_val(items, &vals[j]) {
            proof {
                assert(arr_has(views_of_seq(items@), views_of_seq(vals@)[j as int]));
            }
            return true;
        }
        j = j + 1;
    }
    false
}

/// Whether some element of `vals` equals the scalar `v`, the equality
/// oriented with the element on the left, decided at run time.
fn arr_has_rev(vals: &Vec<Value>, v: &Value) -> (r: bool)
    ensures
        r == seq_any_eq(views_of_seq(vals@), v@),
{
    let mut j: usize = 0;
    while j < vals.len()
        invariant
            j <= vals@.len(),
            forall|t: int| 0 <= t < j ==> !vv_eq(#[trigger] views_of_seq(vals@)[t], v@),
        decreases vals@.len() - j,
    {
        if crate::compare::value_eq(&vals[j], v) {
            proof {
                assert(vv_eq(views_of_seq(vals@)[j as int], v@));
            }
            return true;
        }
        j = j + 1;
    }
    false
}

/// Whether a present field value and the query value have a common
/// element, decided at run time.
fn eval_anyof(fv: &Value, v: &Value) -> (r: bool)
    ensures
        r == anyof_matches(fv@, v@),
{
    match (fv, v) {
        (Value::Array(items), Value::Array(vals)) => {
            proof {
                assert(fv@ == ValueView::Array(views_of_seq(items@)));
                assert(v@ == ValueView::Array(views_of_seq(vals@)));
            }
            let found = arr_intersects(items, vals);
            proof {
                assert(found == anyof_matches(fv@, v@));
            }
            found
        },
        (Value::Array(items), _) => {
            proof {
                assert(fv@ == ValueView::Array(views_of_seq(items@)));
                assert(!(v@ is Array));
            }
            let found = arr_contains_val(items, v);
            proof {
                assert(found == anyof_matches(fv@, v@));
            }
            found
        },
        (_, Value::Array(vals)) => {
            proof {
                assert(!(fv@ is Array));
                assert(v@ == ValueView::Array(views_of_seq(vals@)));
            }
            let found = arr_has_rev(vals, fv);
            proof {
                assert(found == anyof_matches(fv@, v@));
            }
            found
        },
        _ => {
            proof {
                assert(!(fv@ is Array));
                assert(!(v@ is Array));
                assert(!anyof_matches(fv@, v@));
            }
            false
        },
    }
}

/// What one field operator holds of a present field value and a query
/// value, decided at run time.
fn eval_op(fv: &Value, op: &FieldOp, v: &Value) -> (r: bool)
    ensures
        r == op_matches(*op, fv@, v@),
{
    match op {
        FieldOp::Eq => crate::compare::value_eq(fv, v),
        FieldOp::Ne => !crate::compare::value_eq(fv, v),
        FieldOp::Gt => match crate::compare::value_cmp(fv, v) {
            Some(ValueOrder::Greater) => true,
            _ => false,
        },
        FieldOp::Gte => match crate::compare::value_cmp(fv, v) {
            Some(ValueOrder::Greater) => true,
            Some(ValueOrder::Equal) => true,
            _ => false,
        },
        FieldOp::Lt => match crate::compare::value_cmp(fv, v) {
            Some(ValueOrder::Less) => true,
            _ => false,
        },
        FieldOp::Lte => match crate::compare::value_cmp(fv, v) {
            Some(ValueOrder::Less) => true,
            Some(ValueOrder::Equal) => true,
            _ => false,
        },
        FieldOp::Contains => eval_contains(fv, v),
        FieldOp::NotContains => !eval_contains(fv, v),
        FieldOp::StartsWith => match (fv, v) {
            (Value::Text(s), Value::Text(p)) => str_has_prefix(s, p),
            _ => false,
        },
        FieldOp::EndsWith => match (fv, v) {
            (Value::Text(s), Value::Text(p)) => str_has_suffix(s, p),
            _ => false,
        },
        FieldOp::AnyOf => eval_anyof(fv, v),
        FieldOp::NoneOf => !eval_anyof(fv, v),
    }
}

/// Whether the record with the given fields matches the expression,
/// decided at run time.
#[verifier::loop_isolation(false)]
pub fn eval_expr(expr: &Expr, fields: &Vec<(String, Value)>) -> (r: bool)
    ensures
        r == expr_matches(expr@, views_of_entries(fields@)),
    decreases expr,
{
    match expr {
        Expr::And(subs) => {
            let mut i: usize = 0;
            while i < subs.len()
                invariant
                    i <= subs@.len(),
                    forall|k: int|
                        0 <= k < i ==> expr_matches(
                            #[trigger] views_of_exprs(subs@)[k],
                            views_of_entries(fields@),
                        ),
                decreases subs@.len() - i,
            {
                if !eval_expr(&subs[i], fields) {
                    proof {
                        assert(!expr_matches(
                            views_of_exprs(subs@)[i as int],
                            views_of_entries(fields@),
                        ));
                        assert(!and_all(views_of_exprs(subs@), views_of_entries(fields@)));
                    }
                    return false;
                }
                i = i + 1;
            }
            proof {
                assert(and_all(views_of_exprs(subs@), views_of_entries(fields@)));
            }
            true
        },
        Expr::Or(subs) => {
            let mut i: usize = 0;
            while i < subs.len()
                invariant
                    i <= subs@.len(),
                    forall|k: int|
                        0 <= k < i ==> !expr_matches(
                            #[trigger] views_of_exprs(subs@)[k],
                            views_of_entries(fields@),
                        ),
                decreases subs@.len() - i,
            {
                if eval_expr(&subs[i], fields) {
                    proof {
                        assert(expr_matches(
                            views_of_exprs(subs@)[i as int],
                            views_of_entries(fields@),
                        ));
                        assert(or_any(views_of_exprs(subs@), views_of_entries(fields@)));
                    }
                    return true;
                }
                i = i + 1;
            }
            proof {
                assert(!or_any(views_of_exprs(subs@), views_of_entries(fields@)));
            }
            false
        },
        Expr::Not(sub) => !eval_expr(sub, fields),
        Expr::Exists(field, want) => {
            let present = match obj_get(fields, field) {
                Some(_) => true,
                None => false,
            };
            present == *want
        },
        Expr::Field { field, op, value } => match obj_get(fields, field) {
            Some(fv) => eval_op(fv, op, value),
            None => match op {
                FieldOp::NotContains => true,
                _ => false,
            },
        },
    }
}

/// Evaluates filter expressions against one stored record.
pub struct DocumentEvaluator<'a> {
    /// The stored value the expressions are evaluated against.
    pub document: &'a Value,
}

impl<'a> DocumentEvaluator<'a> {
    /// An evaluator for the given stored value.
    pub fn new(document: &'a Value) -> (r: Self)
        ensures
            r.document == document,
    {
        Self { document }
    }

    /// Whether the record matches the expression.
    ///
    /// A stored value that is not record-shaped is reported as an
    /// invalid-document error.
    pub fn evaluate(&self, expr: &Expr) -> (r: DocumentStoreResult<bool>)
        ensures
            match self.document@ {
                ValueView::Object(fields) => r matches Ok(m) && m == expr_matches(expr@, fields),
                _ => r matches Err(e) && e is InvalidDocument,
            },
    {
        match self.document {
            Value::Object(fields) => Ok(eval_expr(expr, fields)),
            _ => Err(
                DocumentStoreError::InvalidDocument("expected a record-shaped value".to_owned()),
            ),
        }
    }

    /// The records among `documents` that match `expr`, in input order.
    ///
    /// Fails with an invalid-document error when any stored value is not
    /// record-shaped, exactly then.
    pub fn filter_documents(documents: &Vec<Value>, expr: &Expr) -> (r: DocumentStoreResult<
        Vec<Value>,
    >)
        ensures
            match r {
                Ok(out) => records_wf(views_of_seq(documents@)) && views_of_seq(out@)
                    == filter_records(views_of_seq(documents@), expr@),
                Err(e) => !records_wf(views_of_seq(documents@)) && e is InvalidDocument,
            },
    {
        let ghost dv = views_of_seq(documents@);
        let mut out: Vec<Value> = Vec::new();
        let mut i: usize = 0;
        while i < documents.len()
            invariant
                i <= documents@.len(),
                dv == views_of_seq(documents@),
                forall|t: int| 0 <= t < i ==> (#[trigger] dv[t]) is Object,
                views_of_seq(out@) =~= filter_records(dv.take(i as int), expr@),
            decreases documents@.len() - i,
        {
            let doc = &documents[i];
            let ghost out_before = views_of_seq(out@);
            match doc {
                Value::Object(fields) => {
                    if eval_expr(expr, fields) {
                        out.push(clone_value(doc));
                    }
                },
                _ => {
                    return Err(
                        DocumentStoreError::InvalidDocument(
                            "expected a record-shaped value".to_owned(),
                        ),
                    );
                },
            }
            proof {
                assert(dv.take(i + 1) =~= dv.take(i as int).push(dv[i as int]));
                lemma_filter_records_push(dv.take(i as int), dv[i as int], expr@);
                assert(views_of_seq(out@) =~= filter_records(dv.take(i + 1), expr@));
            }
            i = i + 1;
        }
        proof {
            assert(dv.take(documents@.len() as int) =~= dv);
        }
        Ok(out)
    }
}

} // verus!
