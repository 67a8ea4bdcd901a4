//! The query pipeline: filter, then stable sort by one field, then offset,
//! then limit, in that fixed order, over a collection's records.
//!
//! The sort is a stable insertion sort under the partial comparison order:
//! a record missing the sort field, or not record-shaped, sorts as the null
//! value; ties and incomparable pairs keep their filtered order. Descending
//! order reverses the comparison itself, so ties still keep their order.

use vstd::prelude::*;

use crate::compare::ValueOrder;
use crate::compare::vv_cmp;
use crate::error::DocumentStoreError;
use crate::error::DocumentStoreResult;
use crate::evaluator::DocumentEvaluator;
use crate::evaluator::filter_records;
use crate::evaluator::obj_lookup;
use crate::evaluator::records_wf;
use crate::query::Query;
use crate::query::QueryView;
use crate::query::SortDirection;
use crate::value::Value;
use crate::value::ValueView;
use crate::value::clone_value;
use crate::value::views_of_seq;

verus! {

broadcast use
    vstd::seq::axiom_seq_index_decreases,
    vstd::std_specs::vec::axiom_vec_index_decreases,
    vstd::std_specs::vec::axiom_vec_decreases_to_view,
    crate::value::lemma_views_of_seq,
    crate::value::lemma_views_of_entries,
;

/// The key a record sorts under for a field: the field's value when the
/// record is record-shaped and has the field, the null value otherwise.
pub open spec fn sort_key(r: ValueView, field: Seq<char>) -> ValueView {
    match r {
        ValueView::Object(fields) => match obj_lookup(fields, field) {
            Some(v) => v,
            None => ValueView::Null,
        },
        _ => ValueView::Null,
    }
}

/// Whether record `a` must come strictly after record `b` when sorting by
/// `field` in the given direction. Incomparable keys never order records.
pub open spec fn rec_after(dir: SortDirection, field: Seq<char>, a: ValueView, b: ValueView) -> bool {
    match dir {
        SortDirection::Asc => vv_cmp(sort_key(a, field), sort_key(b, field)) == Some(
            ValueOrder::Greater,
        ),
        SortDirection::Desc => vv_cmp(sort_key(b, field), sort_key(a, field)) == Some(
            ValueOrder::Greater,
        ),
    }
}

/// Inserts `x` into `s` before the longest suffix of records that must come
/// strictly after it: a stable insertion step.
pub open spec fn insert_sorted(
    s: Seq<ValueView>,
    x: ValueView,
    field: Seq<char>,
    dir: SortDirection,
) -> Seq<ValueView>
    decreases s.len(),
{
    if s.len() > 0 && rec_after(dir, field, s.last(), x) {
        insert_sorted(s.drop_last(), x, field, dir).push(s.last())
    } else {
        s.push(x)
    }
}

/// The stable insertion sort of `s` by `field` in direction `dir`.
pub open spec fn sort_records(s: Seq<ValueView>, field: Seq<char>, dir: SortDirection) -> Seq<
    ValueView,
>
    decreases s.len(),
{
    if s.len() == 0 {
        Seq::empty()
    } else {
        insert_sorted(sort_records(s.drop_last(), field, dir), s.last(), field, dir)
    }
}

/// When everything from position `j` on must come after `x` and, unless `j`
/// is zero, the record before `j` need not, the insertion step places `x`
/// exactly at position `j`.
proof fn lemma_insert_sorted_at(
    s: Seq<ValueView>,
    x: ValueView,
    field: Seq<char>,
    dir: SortDirection,
    j: int,
)
    requires
        0 <= j <= s.len(),
        forall|t: int| j <= t < s.len() ==> rec_after(dir, field, #[trigger] s[t], x),
        j > 0 ==> !rec_after(dir, field, s[j - 1], x),
    ensures
        insert_sorted(s, x, field, dir) == s.subrange(0, j) + seq![x] + s.subrange(
            j,
            s.len() as int,
        ),
    decreases s.len(),
{
    if j == s.len() {
        assert(insert_sorted(s, x, field, dir) == s.push(x));
        assert(s.push(x) =~= s.subrange(0, j) + seq![x] + s.subrange(j, s.len() as int));
    } else {
        assert(rec_after(dir, field, s.last(), x));
        let dl = s.drop_last();
        assert(forall|t: int| j <= t < dl.len() ==> rec_after(dir, field, #[trigger] dl[t], x));
        lemma_insert_sorted_at(dl, x, field, dir, j);
        assert(insert_sorted(s, x, field, dir) =~= s.subrange(0, j) + seq![x] + s.subrange(
            j,
            s.len() as int,
        ));
    }
}

/// Decides `rec_after` at run time.
fn rec_after_exec(dir: SortDirection, field: &String, a: &Value, b: &Value) -> (r: bool)
    ensures
        r == rec_after(dir, field@, a@, b@),
{
    let cmp = match dir {
        SortDirection::Asc => sort_key_cmp(a, b, field),
        SortDirection::Desc => sort_key_cmp(b, a, field),
    };
    match cmp {
        Some(ValueOrder::Greater) => true,
        _ => false,
    }
}

/// Compares the sort keys of two records at run time.
fn sort_key_cmp(a: &Value, b: &Value, field: &String) -> (r: Option<ValueOrder>)
    ensures
        r == vv_cmp(sort_key(a@, field@), sort_key(b@, field@)),
{
    let null_key = Value::Null;
    let ka = record_key(a, field, &null_key);
    let kb = record_key(b, field, &null_key);
    crate::compare::value_cmp(ka, kb)
}

/// The value a record sorts under, at run time; `null_key` stands in for a
/// missing key.
fn record_key<'v>(r: &'v Value, field: &String, null_key: &'v Value) -> (k: &'v Value)
    requires
        null_key@ == ValueView::Null,
    ensures
        k@ == sort_key(r@, field@),
{
    match r {
        Value::Object(fields) => match crate::evaluator::obj_get(fields, field) {
            Some(v) => v,
            None => null_key,
        },
        _ => null_key,
    }
}

/// Sorts records by one field: a stable insertion sort, exact against
/// `sort_records`.
#[verifier::loop_isolation(false)]
pub fn sort_documents(documents: Vec<Value>, field: &String, dir: SortDirection) -> (out: Vec<
    Value,
>)
    ensures
        views_of_seq(out@) == sort_records(views_of_seq(documents@), field@, dir),
{
    let ghost dv = views_of_seq(documents@);
    let mut out: Vec<Value> = Vec::new();
    let mut i: usize = 0;
    while i < documents.len()
        invariant
            i <= documents@.len(),
            views_of_seq(out@) =~= sort_records(dv.take(i as int), field@, dir),
        decreases documents@.len() - i,
    {
        let x = clone_value(&documents[i]);
        let ghost out_before = views_of_seq(out@);
        let mut j: usize = out.len();
        while j > 0 && rec_after_exec(dir, field, &out[j - 1], &x)
            invariant
                j <= out@.len(),
                forall|t: int|
                    j <= t < out@.len() ==> rec_after(
                        dir,
                        field@,
                        #[trigger] views_of_seq(out@)[t],
                        x@,
                    ),
            decreases j,
        {
            j = j - 1;
        }
        proof {
            lemma_insert_sorted_at(out_before, x@, field@, dir, j as int);
        }
        out.insert(j, x);
        proof {
            assert(views_of_seq(out@) =~= out_before.subrange(0, j as int) + seq![x@]
                + out_before.subrange(j as int, out_before.len() as int));
            assert(dv.take(i + 1).drop_last() =~= dv.take(i as int));
            assert(dv.take(i + 1).last() == dv[i as int]);
            assert(views_of_seq(out@) =~= sort_records(dv.take(i + 1), field@, dir));
        }
        i = i + 1;
    }
    proof {
        assert(dv.take(documents@.len() as int) =~= dv);
    }
    out
}

/// The window of `s` that an offset and a limit select: the offset is
/// clamped to the length, and the limit bounds how much follows it.
pub open spec fn page_of(s: Seq<ValueView>, offset: Option<int>, limit: Option<int>) -> Seq<
    ValueView,
> {
    let start = match offset {
        Some(n) => if n <= s.len() {
            n
        } else {
            s.len() as int
        },
        None => 0,
    };
    let end = match limit {
        Some(m) => if start + m <= s.len() {
            start + m
        } else {
            s.len() as int
        },
        None => s.len() as int,
    };
    s.subrange(start, end)
}

/// Applies an offset and a limit to records, exact against `page_of`.
#[verifier::loop_isolation(false)]
pub fn slice_page(documents: Vec<Value>, offset: Option<usize>, limit: Option<usize>) -> (out: Vec<
    Value,
>)
    ensures
        views_of_seq(out@) == page_of(
            views_of_seq(documents@),
            match offset {
                Some(n) => Some(n as int),
                None => None,
            },
            match limit {
                Some(m) => Some(m as int),
                None => None,
            },
        ),
{
    let n = documents.len();
    let start: usize = match offset {
        Some(k) => if k <= n {
            k
        } else {
            n
        },
        None => 0,
    };
    let end: usize = match limit {
        Some(m) => if m <= n - start {
            start + m
        } else {
            n
        },
        None => n,
    };
    let mut out: Vec<Value> = Vec::new();
    let mut i: usize = start;
    while i < end
        invariant
            start <= i <= end <= documents@.len(),
            views_of_seq(out@) =~= views_of_seq(documents@).subrange(start as int, i as int),
        decreases end - i,
    {
        out.push(clone_value(&documents[i]));
        proof {
            assert(views_of_seq(out@) =~= views_of_seq(documents@).subrange(
                start as int,
                i + 1,
            ));
        }
        i = i + 1;
    }
    proof {
        assert(views_of_seq(out@) =~= page_of(
            views_of_seq(documents@),
            match offset {
                Some(n_) => Some(n_ as int),
                None => None,
            },
            match limit {
                Some(m) => Some(m as int),
                None => None,
            },
        ));
    }
    out
}

/// What a query returns over the records of a collection, when the filter
/// raises no structural error: filter, then sort, then offset, then limit.
pub open spec fn run_query(docs: Seq<ValueView>, q: QueryView) -> Seq<ValueView> {
    let filtered = match q.filter {
        Some(e) => filter_records(docs, e),
        None => docs,
    };
    let sorted = match q.sort {
        Some(s) => sort_records(filtered, s.0, s.1),
        None => filtered,
    };
    page_of(sorted, q.offset, q.limit)
}

/// Runs a query over the records of one collection: filter, then stable
/// sort, then offset, then limit.
///
/// Fails with an invalid-document error exactly when a filter is given and
/// some record is not record-shaped.
pub fn execute_query(documents: &Vec<Value>, query: &Query) -> (r: DocumentStoreResult<Vec<Value>>)
    ensures
        match r {
            Ok(out) => (query@.filter is Some ==> records_wf(views_of_seq(documents@)))
                && views_of_seq(out@) == run_query(views_of_seq(documents@), query@),
            Err(e) => query@.filter is Some && !records_wf(views_of_seq(documents@))
                && e is InvalidDocument,
        },
{
    let filtered: Vec<Value> = match &query.filter {
        Some(e) => match DocumentEvaluator::filter_documents(documents, e) {
            Ok(out) => out,
            Err(err) => {
                return Err(err);
            },
        },
        None => clone_documents(documents),
    };
    let sorted: Vec<Value> = match &query.sort {
        Some(s) => sort_documents(filtered, &s.field, s.direction),
        None => filtered,
    };
    Ok(slice_page(sorted, query.offset, query.limit))
}

/// A copy of the records with the same models.
pub fn clone_documents(documents: &Vec<Value>) -> (out: Vec<Value>)
    ensures
        views_of_seq(out@) == views_of_seq(documents@),
{
    let mut out: Vec<Value> = Vec::new();
    let mut i: usize = 0;
    while i < documents.len()
        invariant
            i <= documents@.len(),
            out@.len() == i as int,
            forall|k: int| 0 <= k < i as int ==> out@[k]@ == documents@[k]@,
        decreases documents@.len() - i,
    {
        out.push(clone_value(&documents[i]));
        i = i + 1;
    }
    proof {
        assert(views_of_seq(out@) =~= views_of_seq(documents@));
    }
    out
}

} // verus!
