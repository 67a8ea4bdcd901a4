//! The value model: a tagged variant over null, booleans, numbers,
//! timestamps, strings, ordered sequences and string-keyed mappings.
//!
//! Numbers and timestamps are held as 64-bit integers; equality and ordering
//! of stored values are defined over this model. Equality is variant-wise and
//! structural; values of different variants are never equal. Ordering is
//! partial: only same-variant pairs among boolean, number, timestamp and
//! string are ordered.

use vstd::prelude::*;

verus! {

broadcast use
    vstd::seq::axiom_seq_index_decreases,
    vstd::std_specs::vec::axiom_vec_index_decreases,
    vstd::std_specs::vec::axiom_vec_decreases_to_view,
;

/// A stored value: one field of a record, or a whole record
/// (a record is a `Value::Object`).
#[derive(Debug)]
pub enum Value {
    /// The null value; also what unsupported stored representations
    /// normalize to.
    Null,
    /// A boolean.
    Bool(bool),
    /// A number. All numeric subtypes are normalized to one 64-bit integer
    /// representation at the comparison layer.
    Number(i64),
    /// A point in time, as milliseconds since an epoch.
    Timestamp(i64),
    /// A string.
    Text(String),
    /// An ordered sequence of values.
    Array(Vec<Value>),
    /// A mapping from field name to value; key order carries no meaning.
    Object(Vec<(String, Value)>),
}

/// The mathematical model of a `Value`.
pub ghost enum ValueView {
    Null,
    Bool(bool),
    Number(int),
    Timestamp(int),
    Text(Seq<char>),
    Array(Seq<ValueView>),
    Object(Seq<(Seq<char>, ValueView)>),
}

impl Value {
    /// The model of this value: the same tree over mathematical types.
    pub open spec fn value_view(self) -> ValueView
        decreases self,
    {
        match self {
            Value::Null => ValueView::Null,
            Value::Bool(b) => ValueView::Bool(b),
            Value::Number(n) => ValueView::Number(n as int),
            Value::Timestamp(t) => ValueView::Timestamp(t as int),
            Value::Text(s) => ValueView::Text(s@),
            Value::Array(items) => ValueView::Array(views_of_seq(items@)),
            Value::Object(fields) => ValueView::Object(views_of_entries(fields@)),
        }
    }
}

/// The models of a sequence of values, elementwise.
pub open spec fn views_of_seq(items: Seq<Value>) -> Seq<ValueView>
    decreases items,
{
    if items.len() == 0 {
        Seq::empty()
    } else {
        seq![items[0].value_view()] + views_of_seq(items.drop_first())
    }
}

/// The models of a sequence of named values, elementwise.
pub open spec fn views_of_entries(fields: Seq<(String, Value)>) -> Seq<(Seq<char>, ValueView)>
    decreases fields,
{
    if fields.len() == 0 {
        Seq::empty()
    } else {
        seq![(fields[0].0@, fields[0].1.value_view())] + views_of_entries(fields.drop_first())
    }
}

impl View for Value {
    type V = ValueView;

    open spec fn view(&self) -> ValueView {
        self.value_view()
    }
}

/// `views_of_seq` is the elementwise model of its argument.
pub broadcast proof fn lemma_views_of_seq(items: Seq<Value>)
    ensures
        (#[trigger] views_of_seq(items)).len() == items.len(),
        forall|i: int| 0 <= i < items.len() ==> views_of_seq(items)[i] == items[i]@,
    decreases items,
{
    if items.len() > 0 {
        lemma_views_of_seq(items.drop_first());
    }
}

/// `views_of_entries` is the elementwise model of its argument.
pub broadcast proof fn lemma_views_of_entries(fields: Seq<(String, Value)>)
    ensures
        (#[trigger] views_of_entries(fields)).len() == fields.len(),
        forall|i: int|
            0 <= i < fields.len() ==> views_of_entries(fields)[i] == (
                fields[i].0@,
                fields[i].1@,
            ),
    decreases fields,
{
    if fields.len() > 0 {
        lemma_views_of_entries(fields.drop_first());
    }
}

/// The models of a sequence of records keyed by document id, elementwise.
pub open spec fn views_of_docs(docs: Seq<(u128, Value)>) -> Seq<(u128, ValueView)>
    decreases docs,
{
    if docs.len() == 0 {
        Seq::empty()
    } else {
        seq![(docs[0].0, docs[0].1.value_view())] + views_of_docs(docs.drop_first())
    }
}

/// `views_of_docs` is the elementwise model of its argument.
pub broadcast proof fn lemma_views_of_docs(docs: Seq<(u128, Value)>)
    ensures
        (#[trigger] views_of_docs(docs)).len() == docs.len(),
        forall|i: int|
            0 <= i < docs.len() ==> views_of_docs(docs)[i] == (docs[i].0, docs[i].1@),
    decreases docs,
{
    if docs.len() > 0 {
        lemma_views_of_docs(docs.drop_first());
    }
}

/// The models of a sequence of named collections, elementwise.
pub open spec fn views_of_collections(cols: Seq<(String, Vec<(u128, Value)>)>) -> Seq<
    (Seq<char>, Seq<(u128, ValueView)>),
>
    decreases cols,
{
    if cols.len() == 0 {
        Seq::empty()
    } else {
        seq![(cols[0].0@, views_of_docs(cols[0].1@))] + views_of_collections(cols.drop_first())
    }
}

/// `views_of_collections` is the elementwise model of its argument.
pub broadcast proof fn lemma_views_of_collections(cols: Seq<(String, Vec<(u128, Value)>)>)
    ensures
        (#[trigger] views_of_collections(cols)).len() == cols.len(),
        forall|i: int|
            0 <= i < cols.len() ==> views_of_collections(cols)[i] == (
                cols[i].0@,
                views_of_docs(cols[i].1@),
            ),
    decreases cols,
{
    if cols.len() > 0 {
        lemma_views_of_collections(cols.drop_first());
    }
}

impl Clone for Value {
    /// A deep copy with the same model.
    fn clone(&self) -> (res: Value)
        ensures
            res@ == self@,
    {
        clone_value(self)
    }
}

/// A deep copy with the same model.
#[verifier::loop_isolation(false)]
pub fn clone_value(v: &Value) -> (res: Value)
    ensures
        res@ == v@,
    decreases v,
{
    match v {
        Value::Null => Value::Null,
        Value::Bool(b) => Value::Bool(*b),
        Value::Number(n) => Value::Number(*n),
        Value::Timestamp(t) => Value::Timestamp(*t),
        Value::Text(s) => Value::Text(s.clone()),
        Value::Array(items) => {
            let mut out: Vec<Value> = Vec::new();
            let mut i: usize = 0;
            while i < items.len()
                invariant
                    i <= items.len(),
                    out@.len() == i as int,
                    forall|k: int| 0 <= k < i as int ==> out@[k]@ == items@[k]@,
                decreases items.len() - i,
            {
                out.push(clone_value(&items[i]));
                i = i + 1;
            }
            let res = Value::Array(out);
            proof {
                lemma_views_of_seq(out@);
                lemma_views_of_seq(items@);
                assert(views_of_seq(out@) =~= views_of_seq(items@));
            }
            res
        },
        Value::Object(fields) => {
            let mut out: Vec<(String, Value)> = Vec::new();
            let mut i: usize = 0;
            while i < fields.len()
                invariant
                    i <= fields.len(),
                    out@.len() == i as int,
                    forall|k: int|
                        0 <= k < i as int ==> out@[k].0@ == fields@[k].0@ && out@[k].1@
                            == fields@[k].1@,
                decreases fields.len() - i,
            {
                let (name, val) = &fields[i];
                out.push((name.clone(), clone_value(val)));
                i = i + 1;
            }
            let res = Value::Object(out);
            proof {
                lemma_views_of_entries(out@);
                lemma_views_of_entries(fields@);
                assert(views_of_entries(out@) =~= views_of_entries(fields@));
            }
            res
        },
    }
}

} // verus!
