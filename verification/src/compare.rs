//! Structural equality and the partial comparison order over values,
//! both as specification functions over value models and as executable
//! deciders proved exact against them.

use vstd::prelude::*;

use crate::value::Value;
use crate::value::ValueView;
use crate::value::views_of_seq;
use crate::value::views_of_entries;

verus! {

broadcast use
    vstd::seq::axiom_seq_index_decreases,
    vstd::std_specs::vec::axiom_vec_index_decreases,
    vstd::std_specs::vec::axiom_vec_decreases_to_view,
    crate::value::lemma_views_of_seq,
    crate::value::lemma_views_of_entries,
;

/// Structural equality of two value models.
///
/// Scalars are equal when they are the same variant with the same content.
/// Arrays are equal elementwise. Objects are equal when each entry of one has
/// an entry of the other with the same key and an equal value, in either
/// direction; entry order carries no meaning. Values of different variants
/// are never equal.
pub open spec fn vv_eq(a: ValueView, b: ValueView) -> bool
    decreases a, 0int,
{
    match (a, b) {
        (ValueView::Null, ValueView::Null) => true,
        (ValueView::Bool(x), ValueView::Bool(y)) => x == y,
        (ValueView::Number(x), ValueView::Number(y)) => x == y,
        (ValueView::Timestamp(x), ValueView::Timestamp(y)) => x == y,
        (ValueView::Text(x), ValueView::Text(y)) => x == y,
        (ValueView::Array(x), ValueView::Array(y)) => arr_eq(x, y),
        (ValueView::Object(x), ValueView::Object(y)) => obj_eq(x, y),
        _ => false,
    }
}

/// Elementwise equality of two array models.
pub open spec fn arr_eq(x: Seq<ValueView>, y: Seq<ValueView>) -> bool
    decreases x, 1int,
{
    &&& x.len() == y.len()
    &&& forall|i: int| 0 <= i < x.len() ==> vv_eq(x[i], #[trigger] y[i])
}

/// Key-value equality of two object models, in both directions;
/// entry order carries no meaning.
pub open spec fn obj_eq(
    x: Seq<(Seq<char>, ValueView)>,
    y: Seq<(Seq<char>, ValueView)>,
) -> bool
    decreases x, 2int,
{
    &&& forall|i: int| 0 <= i < x.len() ==> entry_matched(#[trigger] x[i], y)
    &&& forall|j: int| 0 <= j < y.len() ==> entry_matched_rev(#[trigger] y[j], x)
}

/// Some entry of `ys` has the key of `e` and a value equal to `e`'s,
/// the equality oriented with `e`'s value on the left.
#[verifier::opaque]
pub open spec fn entry_matched(e: (Seq<char>, ValueView), ys: Seq<(Seq<char>, ValueView)>) -> bool
    decreases e, 1int,
{
    exists|j: int| 0 <= j < ys.len() && e.0 == (#[trigger] ys[j]).0 && vv_eq(e.1, ys[j].1)
}

/// Some entry of `xs` has the key of `e` and a value equal to `e`'s,
/// the equality oriented with `xs`'s value on the left.
#[verifier::opaque]
pub open spec fn entry_matched_rev(
    e: (Seq<char>, ValueView),
    xs: Seq<(Seq<char>, ValueView)>,
) -> bool
    decreases xs, 1int,
{
    exists|i: int| 0 <= i < xs.len() && e.0 == (#[trigger] xs[i]).0 && vv_eq(xs[i].1, e.1)
}

/// The outcome of comparing two ordered values.
#[derive(Clone, Copy, Debug, PartialEq, Eq, Structural)]
pub enum ValueOrder {
    /// The left value comes first.
    Less,
    /// The two values are equal.
    Equal,
    /// The right value comes first.
    Greater,
}

/// The order of two integers.
pub open spec fn int_cmp(x: int, y: int) -> ValueOrder {
    if x < y {
        ValueOrder::Less
    } else if x == y {
        ValueOrder::Equal
    } else {
        ValueOrder::Greater
    }
}

/// The order of two booleans: false comes before true.
pub open spec fn bool_cmp(x: bool, y: bool) -> ValueOrder {
    if x == y {
        ValueOrder::Equal
    } else if y {
        ValueOrder::Less
    } else {
        ValueOrder::Greater
    }
}

/// Lexicographic order of two character sequences, by code point.
pub open spec fn lex_cmp(x: Seq<char>, y: Seq<char>) -> ValueOrder
    decreases x.len(),
{
    if x.len() == 0 && y.len() == 0 {
        ValueOrder::Equal
    } else if x.len() == 0 {
        ValueOrder::Less
    } else if y.len() == 0 {
        ValueOrder::Greater
    } else if (x[0] as u32) < (y[0] as u32) {
        ValueOrder::Less
    } else if (y[0] as u32) < (x[0] as u32) {
        ValueOrder::Greater
    } else {
        lex_cmp(x.drop_first(), y.drop_first())
    }
}

/// The partial order of two value models.
///
/// Only same-variant pairs among boolean, number, timestamp and string are
/// ordered; every other pair, including any pair involving an array or an
/// object, is incomparable and compares to `None`.
pub open spec fn vv_cmp(a: ValueView, b: ValueView) -> Option<ValueOrder> {
    match (a, b) {
        (ValueView::Bool(x), ValueView::Bool(y)) => Some(bool_cmp(x, y)),
        (ValueView::Number(x), ValueView::Number(y)) => Some(int_cmp(x, y)),
        (ValueView::Timestamp(x), ValueView::Timestamp(y)) => Some(int_cmp(x, y)),
        (ValueView::Text(x), ValueView::Text(y)) => Some(lex_cmp(x, y)),
        _ => None,
    }
}

/// The partial order of two values, decided at run time.
pub fn value_cmp(a: &Value, b: &Value) -> (r: Option<ValueOrder>)
    ensures
        r == vv_cmp(a@, b@),
{
    match (a, b) {
        (Value::Bool(x), Value::Bool(y)) => Some(
            if *x == *y {
                ValueOrder::Equal
            } else if *y {
                ValueOrder::Less
            } else {
                ValueOrder::Greater
            },
        ),
        (Value::Number(x), Value::Number(y)) => Some(cmp_i64(*x, *y)),
        (Value::Timestamp(x), Value::Timestamp(y)) => Some(cmp_i64(*x, *y)),
        (Value::Text(x), Value::Text(y)) => Some(crate::text::str_compare(x, y)),
        _ => None,
    }
}

/// The order of two machine integers.
fn cmp_i64(x: i64, y: i64) -> (r: ValueOrder)
    ensures
        r == int_cmp(x as int, y as int),
{
    if x < y {
        ValueOrder::Less
    } else if x == y {
        ValueOrder::Equal
    } else {
        ValueOrder::Greater
    }
}

/// Whether some entry of `entries` matches the entry `(key, val)`, with the
/// equality oriented left-to-right.
fn obj_find_entry(key: &String, val: &Value, entries: &Vec<(String, Value)>) -> (r: bool)
    ensures
        r == entry_matched((key@, val@), views_of_entries(entries@)),
    decreases val, 1int,
{
    let mut j: usize = 0;
    while j < entries.len()
        invariant
            j <= entries@.len(),
            forall|t: int|
                0 <= t < j ==> !(key@ == (#[trigger] views_of_entries(entries@)[t]).0 && vv_eq(
                    val@,
                    views_of_entries(entries@)[t].1,
                )),
        decreases entries@.len() - j,
    {
        if key.eq(&entries[j].0) && value_eq(val, &entries[j].1) {
            proof {
                reveal(entry_matched);
                assert(key@ == views_of_entries(entries@)[j as int].0 && vv_eq(
                    val@,
                    views_of_entries(entries@)[j as int].1,
                ));
            }
            return true;
        }
        j = j + 1;
    }
    proof {
        reveal(entry_matched);
    }
    false
}

/// Whether some entry of `entries` matches the entry `(key, val)`, with the
/// equality oriented right-to-left.
fn obj_find_entry_rev(key: &String, val: &Value, entries: &Vec<(String, Value)>) -> (r: bool)
    ensures
        r == entry_matched_rev((key@, val@), views_of_entries(entries@)),
    decreases entries, 1int,
{
    let mut j: usize = 0;
    while j < entries.len()
        invariant
            j <= entries@.len(),
            forall|t: int|
                0 <= t < j ==> !(key@ == (#[trigger] views_of_entries(entries@)[t]).0 && vv_eq(
                    views_of_entries(entries@)[t].1,
                    val@,
                )),
        decreases entries@.len() - j,
    {
        if key.eq(&entries[j].0) && value_eq(&entries[j].1, val) {
            proof {
                reveal(entry_matched_rev);
                assert(key@ == views_of_entries(entries@)[j as int].0 && vv_eq(
                    views_of_entries(entries@)[j as int].1,
                    val@,
                ));
            }
            return true;
        }
        j = j + 1;
    }
    proof {
        reveal(entry_matched_rev);
    }
    false
}

/// Whether two values are structurally equal, decided at run time.
#[verifier::loop_isolation(false)]
pub fn value_eq(a: &Value, b: &Value) -> (r: bool)
    ensures
        r == vv_eq(a@, b@),
    decreases a, 0int,
{
    match (a, b) {
        (Value::Null, Value::Null) => true,
        (Value::Bool(x), Value::Bool(y)) => *x == *y,
        (Value::Number(x), Value::Number(y)) => *x == *y,
        (Value::Timestamp(x), Value::Timestamp(y)) => *x == *y,
        (Value::Text(x), Value::Text(y)) => x.eq(y),
        (Value::Array(x), Value::Array(y)) => {
            proof {
                assert(a@ == ValueView::Array(views_of_seq(x@)));
                assert(b@ == ValueView::Array(views_of_seq(y@)));
            }
            if x.len() != y.len() {
                proof {
                    assert(!arr_eq(views_of_seq(x@), views_of_seq(y@)));
                }
                return false;
            }
            let mut i: usize = 0;
            while i < x.len()
                invariant
                    i <= x@.len(),
                    forall|k: int|
                        0 <= k < i ==> vv_eq(views_of_seq(x@)[k], #[trigger] views_of_seq(y@)[k]),
                decreases x@.len() - i,
            {
                if !value_eq(&x[i], &y[i]) {
                    proof {
                        assert(!vv_eq(views_of_seq(x@)[i as int], views_of_seq(y@)[i as int]));
                        assert(!arr_eq(views_of_seq(x@), views_of_seq(y@)));
                    }
                    return false;
                }
                i = i + 1;
            }
            proof {
                assert(arr_eq(views_of_seq(x@), views_of_seq(y@)));
            }
            true
        },
        (Value::Object(x), Value::Object(y)) => {
            proof {
                assert(a@ == ValueView::Object(views_of_entries(x@)));
                assert(b@ == ValueView::Object(views_of_entries(y@)));
            }
            let mut i: usize = 0;
            while i < x.len()
                invariant
                    i <= x@.len(),
                    forall|k: int|
                        0 <= k < i ==> entry_matched(
                            #[trigger] views_of_entries(x@)[k],
                            views_of_entries(y@),
                        ),
                decreases x@.len() - i,
            {
                if !obj_find_entry(&x[i].0, &x[i].1, y) {
                    proof {
                        reveal(entry_matched);
                        assert(!entry_matched(
                            views_of_entries(x@)[i as int],
                            views_of_entries(y@),
                        ));
                        assert(!obj_eq(views_of_entries(x@), views_of_entries(y@)));
                    }
                    return false;
                }
                proof {
                    reveal(entry_matched);
                    assert(entry_matched(views_of_entries(x@)[i as int], views_of_entries(y@)));
                }
                i = i + 1;
            }
            let mut j: usize = 0;
            while j < y.len()
                invariant
                    j <= y@.len(),
                    forall|k: int|
                        0 <= k < x@.len() ==> entry_matched(
                            #[trigger] views_of_entries(x@)[k],
                            views_of_entries(y@),
                        ),
                    forall|k: int|
                        0 <= k < j ==> entry_matched_rev(
                            #[trigger] views_of_entries(y@)[k],
                            views_of_entries(x@),
                        ),
                decreases y@.len() - j,
            {
                if !obj_find_entry_rev(&y[j].0, &y[j].1, x) {
                    proof {
                        reveal(entry_matched_rev);
                        assert(!entry_matched_rev(
                            views_of_entries(y@)[j as int],
                            views_of_entries(x@),
                        ));
                        assert(!obj_eq(views_of_entries(x@), views_of_entries(y@)));
                    }
                    return false;
                }
                proof {
                    reveal(entry_matched_rev);
                    assert(entry_matched_rev(
                        views_of_entries(y@)[j as int],
                        views_of_entries(x@),
                    ));
                }
                j = j + 1;
            }
            proof {
                reveal(entry_matched);
                reveal(entry_matched_rev);
                assert(forall|k: int|
                    0 <= k < views_of_entries(x@).len() ==> entry_matched(
                        #[trigger] views_of_entries(x@)[k],
                        views_of_entries(y@),
                    ));
                assert(forall|k: int|
                    0 <= k < views_of_entries(y@).len() ==> entry_matched_rev(
                        #[trigger] views_of_entries(y@)[k],
                        views_of_entries(x@),
                    ));
                assert(obj_eq(views_of_entries(x@), views_of_entries(y@)));
            }
            true
        },
        _ => false,
    }
}

} // verus!
