//! Laws the library keeps, stated and proved over the models its
//! contracts use: value equality is symmetric, the any-of operator is
//! symmetric in its two sides, and a record just inserted is returned by a
//! get for its id.

use vstd::prelude::*;

use crate::assoc::assoc_lookup;
use crate::assoc::assoc_update;
use crate::assoc::lemma_assoc_lookup_found;
use crate::assoc::lemma_assoc_lookup_none_all;
use crate::assoc::lemma_assoc_update_lookup;
use crate::compare::arr_eq;
use crate::compare::entry_matched;
use crate::compare::entry_matched_rev;
use crate::compare::obj_eq;
use crate::compare::vv_eq;
use crate::evaluator::anyof_matches;
use crate::evaluator::arr_has;
use crate::evaluator::seq_any_eq;
use crate::evaluator::seqs_intersect;
use crate::pipeline::page_of;
use crate::pipeline::run_query;
use crate::query::QueryView;
use crate::store::ColsView;
use crate::store::spec_get_batch;
use crate::store::spec_insert_batch;
use crate::value::ValueView;

verus! {

broadcast use
    vstd::seq::axiom_seq_index_decreases,
;

/// Structural value equality is symmetric.
pub proof fn lemma_vv_eq_symmetric(a: ValueView, b: ValueView)
    ensures
        vv_eq(a, b) == vv_eq(b, a),
    decreases a, 0int,
{
    match (a, b) {
        (ValueView::Array(x), ValueView::Array(y)) => {
            lemma_arr_eq_symmetric(x, y);
        },
        (ValueView::Object(x), ValueView::Object(y)) => {
            lemma_obj_eq_symmetric(x, y);
        },
        _ => {},
    }
}

/// Elementwise array equality is symmetric.
proof fn lemma_arr_eq_symmetric(x: Seq<ValueView>, y: Seq<ValueView>)
    ensures
        arr_eq(x, y) == arr_eq(y, x),
    decreases x, 1int,
{
    assert forall|i: int| 0 <= i < x.len() && i < y.len() implies vv_eq(x[i], y[i]) == vv_eq(
        y[i],
        #[trigger] x[i],
    ) by {
        lemma_vv_eq_symmetric(x[i], y[i]);
    }
}

/// Key-value object equality is symmetric.
#[verifier::spinoff_prover]
#[verifier::rlimit(100)]
proof fn lemma_obj_eq_symmetric(x: Seq<(Seq<char>, ValueView)>, y: Seq<(Seq<char>, ValueView)>)
    ensures
        obj_eq(x, y) == obj_eq(y, x),
    decreases x, 2int,
{
    if obj_eq(x, y) {
        lemma_flip_entries_right(y, x);
        lemma_flip_entries_self(x, y);
        assert(obj_eq(y, x));
    }
    if obj_eq(y, x) {
        lemma_unflip_entries_self(x, y);
        lemma_unflip_entries_right(y, x);
        assert(obj_eq(x, y));
    }
}

/// Entries of `es` that match reversed in `xs` also match forward,
/// recursing into the elements of `xs`.
#[verifier::spinoff_prover]
proof fn lemma_flip_entries_right(es: Seq<(Seq<char>, ValueView)>, xs: Seq<(Seq<char>, ValueView)>)
    requires
        forall|j: int| 0 <= j < es.len() ==> entry_matched_rev(#[trigger] es[j], xs),
    ensures
        forall|j: int| 0 <= j < es.len() ==> entry_matched(#[trigger] es[j], xs),
    decreases xs, 1int,
{
    assert forall|j: int| 0 <= j < es.len() implies entry_matched(#[trigger] es[j], xs) by {
        reveal(entry_matched);
        reveal(entry_matched_rev);
        assert(entry_matched_rev(es[j], xs));
        let i = choose|i: int|
            0 <= i < xs.len() && es[j].0 == (#[trigger] xs[i]).0 && vv_eq(xs[i].1, es[j].1);
        lemma_vv_eq_symmetric(xs[i].1, es[j].1);
        assert(0 <= i < xs.len() && es[j].0 == xs[i].0 && vv_eq(es[j].1, xs[i].1));
    }
}

/// Entries of `es` that match forward in `ys` also match reversed,
/// recursing into the elements of `es`.
#[verifier::spinoff_prover]
proof fn lemma_flip_entries_self(es: Seq<(Seq<char>, ValueView)>, ys: Seq<(Seq<char>, ValueView)>)
    requires
        forall|j: int| 0 <= j < es.len() ==> entry_matched(#[trigger] es[j], ys),
    ensures
        forall|j: int| 0 <= j < es.len() ==> entry_matched_rev(#[trigger] es[j], ys),
    decreases es, 1int,
{
    assert forall|j: int| 0 <= j < es.len() implies entry_matched_rev(#[trigger] es[j], ys) by {
        reveal(entry_matched);
        reveal(entry_matched_rev);
        assert(entry_matched(es[j], ys));
        let k = choose|k: int|
            0 <= k < ys.len() && es[j].0 == (#[trigger] ys[k]).0 && vv_eq(es[j].1, ys[k].1);
        lemma_vv_eq_symmetric(es[j].1, ys[k].1);
        assert(0 <= k < ys.len() && es[j].0 == ys[k].0 && vv_eq(ys[k].1, es[j].1));
    }
}

/// Entries of `es` that match reversed in `ys` also match forward,
/// recursing into the elements of `es`.
#[verifier::spinoff_prover]
proof fn lemma_unflip_entries_self(
    es: Seq<(Seq<char>, ValueView)>,
    ys: Seq<(Seq<char>, ValueView)>,
)
    requires
        forall|j: int| 0 <= j < es.len() ==> entry_matched_rev(#[trigger] es[j], ys),
    ensures
        forall|j: int| 0 <= j < es.len() ==> entry_matched(#[trigger] es[j], ys),
    decreases es, 1int,
{
    assert forall|j: int| 0 <= j < es.len() implies entry_matched(#[trigger] es[j], ys) by {
        reveal(entry_matched);
        reveal(entry_matched_rev);
        assert(entry_matched_rev(es[j], ys));
        let k = choose|k: int|
            0 <= k < ys.len() && es[j].0 == (#[trigger] ys[k]).0 && vv_eq(ys[k].1, es[j].1);
        lemma_vv_eq_symmetric(es[j].1, ys[k].1);
        assert(0 <= k < ys.len() && es[j].0 == ys[k].0 && vv_eq(es[j].1, ys[k].1));
    }
}

/// Entries of `es` that match forward in `xs` also match reversed,
/// recursing into the elements of `xs`.
#[verifier::spinoff_prover]
proof fn lemma_unflip_entries_right(
    es: Seq<(Seq<char>, ValueView)>,
    xs: Seq<(Seq<char>, ValueView)>,
)
    requires
        forall|j: int| 0 <= j < es.len() ==> entry_matched(#[trigger] es[j], xs),
    ensures
        forall|j: int| 0 <= j < es.len() ==> entry_matched_rev(#[trigger] es[j], xs),
    decreases xs, 1int,
{
    assert forall|j: int| 0 <= j < es.len() implies entry_matched_rev(#[trigger] es[j], xs) by {
        reveal(entry_matched);
        reveal(entry_matched_rev);
        assert(entry_matched(es[j], xs));
        let i = choose|i: int|
            0 <= i < xs.len() && es[j].0 == (#[trigger] xs[i]).0 && vv_eq(es[j].1, xs[i].1);
        lemma_vv_eq_symmetric(xs[i].1, es[j].1);
        assert(0 <= i < xs.len() && es[j].0 == xs[i].0 && vv_eq(xs[i].1, es[j].1));
    }
}

/// The any-of operator is symmetric: which side carries the array does not
/// matter, and two arrays intersect in either order.
pub proof fn lemma_anyof_symmetric(fv: ValueView, v: ValueView)
    ensures
        anyof_matches(fv, v) == anyof_matches(v, fv),
{
    match (fv, v) {
        (ValueView::Array(x), ValueView::Array(y)) => {
            assert(seqs_intersect(x, y) ==> seqs_intersect(y, x)) by {
                if seqs_intersect(x, y) {
                    let j = choose|j: int| 0 <= j < y.len() && arr_has(x, #[trigger] y[j]);
                    let i = choose|i: int| 0 <= i < x.len() && vv_eq(#[trigger] x[i], y[j]);
                    lemma_vv_eq_symmetric(x[i], y[j]);
                    assert(vv_eq(y[j], x[i]));
                    assert(arr_has(y, x[i]));
                    assert(seqs_intersect(y, x));
                }
            }
            assert(seqs_intersect(y, x) ==> seqs_intersect(x, y)) by {
                if seqs_intersect(y, x) {
                    let i = choose|i: int| 0 <= i < x.len() && arr_has(y, #[trigger] x[i]);
                    let j = choose|j: int| 0 <= j < y.len() && vv_eq(#[trigger] y[j], x[i]);
                    lemma_vv_eq_symmetric(y[j], x[i]);
                    assert(vv_eq(x[i], y[j]));
                    assert(arr_has(x, y[j]));
                    assert(seqs_intersect(x, y));
                }
            }
        },
        (ValueView::Array(x), _) => {
            assert(anyof_matches(fv, v) == arr_has(x, v));
            assert(anyof_matches(v, fv) == seq_any_eq(x, v));
        },
        (_, ValueView::Array(y)) => {
            assert(anyof_matches(fv, v) == seq_any_eq(y, fv));
            assert(anyof_matches(v, fv) == arr_has(y, fv));
        },
        _ => {},
    }
}

/// Inserting a fresh record into a collection and then getting its id
/// returns exactly the inserted record.
pub proof fn lemma_insert_then_get(cols: ColsView, cname: Seq<char>, id: u128, v: ValueView)
    ensures
        ({
            let docs0 = match assoc_lookup(cols, cname) {
                Some(d) => d,
                None => Seq::empty(),
            };
            let outcome = spec_insert_batch(docs0, seq![(id, v)]);
            outcome.1 is None ==> {
                let cols2 = assoc_update(cols, cname, outcome.0);
                &&& assoc_lookup(cols2, cname) == Some(outcome.0)
                &&& spec_get_batch(outcome.0, seq![id]) == seq![v]
            }
        }),
{
    let docs0 = match assoc_lookup(cols, cname) {
        Some(d) => d,
        None => Seq::<(u128, ValueView)>::empty(),
    };
    let batch = seq![(id, v)];
    assert(batch[0] == (id, v));
    assert(batch.drop_first() =~= Seq::<(u128, ValueView)>::empty());
    let outcome = spec_insert_batch(docs0, batch);
    if assoc_lookup(docs0, id) is None {
        let docs2 = docs0.push((id, v));
        assert(spec_insert_batch(docs2, batch.drop_first()) == (docs2, Option::<u128>::None));
        assert(outcome == (docs2, Option::<u128>::None));
        lemma_assoc_update_lookup(cols, cname, docs2);
        lemma_assoc_lookup_none_all(docs0, id);
        assert(docs2[docs0.len() as int] == (id, v));
        assert(forall|t: int| 0 <= t < docs0.len() ==> (#[trigger] docs2[t]).0 != id);
        lemma_assoc_lookup_found(docs2, id, docs0.len() as int);
        assert(assoc_lookup(docs2, id) == Some(v));
        let ids = seq![id];
        assert(ids[0] == id);
        assert(ids.drop_first() =~= Seq::<u128>::empty());
        assert(spec_get_batch(docs2, ids.drop_first()) =~= Seq::<ValueView>::empty());
        assert(spec_get_batch(docs2, ids) =~= seq![v]);
    } else {
        assert(outcome.1 == Some(id));
    }
}


/// A query with no filter, no sort, no offset and no limit returns exactly
/// the collection's records, in stored order.
pub proof fn lemma_empty_query_returns_all(docs: Seq<ValueView>)
    ensures
        run_query(docs, QueryView { filter: None, limit: None, offset: None, sort: None }) == docs,
{
    assert(page_of(docs, None, None) =~= docs);
}

} // verus!
