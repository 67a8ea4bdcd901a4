//! Value sanitization for backends that restrict field names: dots, dollar
//! signs and null bytes in keys and strings are replaced by safe escape
//! runs, and restored by the inverse replacements in reverse order.

use vstd::prelude::*;

use crate::text::chars_of_str;
use crate::text::chars_to_string;
use crate::text::match_at;
use crate::text::occurs_at;
use crate::value::Value;
use crate::value::ValueView;
use crate::value::views_of_entries;
use crate::value::views_of_seq;

verus! {

broadcast use
    vstd::seq::axiom_seq_index_decreases,
    vstd::std_specs::vec::axiom_vec_index_decreases,
    vstd::std_specs::vec::axiom_vec_decreases_to_view,
    crate::value::lemma_views_of_seq,
    crate::value::lemma_views_of_entries,
;

/// `s` with every leftmost, non-overlapping run of `pat` replaced by `rep`;
/// an empty pattern replaces nothing.
pub open spec fn replace_seq(s: Seq<char>, pat: Seq<char>, rep: Seq<char>) -> Seq<char>
    decreases s.len(),
{
    if pat.len() == 0 || s.len() == 0 {
        s
    } else if pat.len() <= s.len() && s.subrange(0, pat.len() as int) == pat {
        rep + replace_seq(s.skip(pat.len() as int), pat, rep)
    } else {
        seq![s[0]] + replace_seq(s.drop_first(), pat, rep)
    }
}

/// The characters of a sanitized string: dots, then dollar signs, then null
/// bytes, each replaced by its escape run.
pub open spec fn sanitize_chars(s: Seq<char>) -> Seq<char> {
    replace_seq(
        replace_seq(replace_seq(s, "."@, "__dot__"@), "$"@, "__dollar__"@),
        "\u{0}"@,
        "__null__"@,
    )
}

/// The characters of a restored string: the escape runs replaced back, in
/// the reverse order of sanitization.
pub open spec fn restore_chars(s: Seq<char>) -> Seq<char> {
    replace_seq(
        replace_seq(replace_seq(s, "__null__"@, "\u{0}"@), "__dollar__"@, "$"@),
        "__dot__"@,
        "."@,
    )
}

/// The model of a sanitized value: strings and field names are sanitized
/// throughout the tree; everything else is unchanged.
pub open spec fn sanitize_vv(v: ValueView) -> ValueView
    decreases v, 0int,
{
    match v {
        ValueView::Text(s) => ValueView::Text(sanitize_chars(s)),
        ValueView::Array(items) => ValueView::Array(sanitize_arr(items)),
        ValueView::Object(fields) => ValueView::Object(sanitize_entries(fields)),
        _ => v,
    }
}

/// The models of sanitized array elements, elementwise.
pub open spec fn sanitize_arr(items: Seq<ValueView>) -> Seq<ValueView>
    decreases items, 1int,
{
    if items.len() == 0 {
        Seq::empty()
    } else {
        seq![sanitize_vv(items[0])] + sanitize_arr(items.drop_first())
    }
}

/// The models of sanitized fields: each key and each value is sanitized.
pub open spec fn sanitize_entries(fields: Seq<(Seq<char>, ValueView)>) -> Seq<
    (Seq<char>, ValueView),
>
    decreases fields, 1int,
{
    if fields.len() == 0 {
        Seq::empty()
    } else {
        seq![(sanitize_chars(fields[0].0), sanitize_vv(fields[0].1))] + sanitize_entries(
            fields.drop_first(),
        )
    }
}

/// The model of a restored value: the inverse replacements applied to every
/// string and field name in the tree.
pub open spec fn restore_vv(v: ValueView) -> ValueView
    decreases v, 0int,
{
    match v {
        ValueView::Text(s) => ValueView::Text(restore_chars(s)),
        ValueView::Array(items) => ValueView::Array(restore_arr(items)),
        ValueView::Object(fields) => ValueView::Object(restore_entries(fields)),
        _ => v,
    }
}

/// The models of restored array elements, elementwise.
pub open spec fn restore_arr(items: Seq<ValueView>) -> Seq<ValueView>
    decreases items, 1int,
{
    if items.len() == 0 {
        Seq::empty()
    } else {
        seq![restore_vv(items[0])] + restore_arr(items.drop_first())
    }
}

/// The models of restored fields: each key and each value is restored.
pub open spec fn restore_entries(fields: Seq<(Seq<char>, ValueView)>) -> Seq<
    (Seq<char>, ValueView),
>
    decreases fields, 1int,
{
    if fields.len() == 0 {
        Seq::empty()
    } else {
        seq![(restore_chars(fields[0].0), restore_vv(fields[0].1))] + restore_entries(
            fields.drop_first(),
        )
    }
}

/// `sanitize_arr` is the elementwise sanitization of its argument.
proof fn lemma_sanitize_arr(items: Seq<ValueView>)
    ensures
        sanitize_arr(items).len() == items.len(),
        forall|i: int| 0 <= i < items.len() ==> sanitize_arr(items)[i] == sanitize_vv(items[i]),
    decreases items,
{
    if items.len() > 0 {
        lemma_sanitize_arr(items.drop_first());
    }
}

/// `sanitize_entries` is the elementwise sanitization of its argument.
proof fn lemma_sanitize_entries(fields: Seq<(Seq<char>, ValueView)>)
    ensures
        sanitize_entries(fields).len() == fields.len(),
        forall|i: int|
            0 <= i < fields.len() ==> sanitize_entries(fields)[i] == (
                sanitize_chars(fields[i].0),
                sanitize_vv(fields[i].1),
            ),
    decreases fields,
{
    if fields.len() > 0 {
        lemma_sanitize_entries(fields.drop_first());
    }
}

/// `restore_arr` is the elementwise restoration of its argument.
proof fn lemma_restore_arr(items: Seq<ValueView>)
    ensures
        restore_arr(items).len() == items.len(),
        forall|i: int| 0 <= i < items.len() ==> restore_arr(items)[i] == restore_vv(items[i]),
    decreases items,
{
    if items.len() > 0 {
        lemma_restore_arr(items.drop_first());
    }
}

/// `restore_entries` is the elementwise restoration of its argument.
proof fn lemma_restore_entries(fields: Seq<(Seq<char>, ValueView)>)
    ensures
        restore_entries(fields).len() == fields.len(),
        forall|i: int|
            0 <= i < fields.len() ==> restore_entries(fields)[i] == (
                restore_chars(fields[i].0),
                restore_vv(fields[i].1),
            ),
    decreases fields,
{
    if fields.len() > 0 {
        lemma_restore_entries(fields.drop_first());
    }
}

/// `s` with every leftmost run of `pat` replaced by `rep`, at run time.
#[verifier::loop_isolation(false)]
fn replace_all(s: &str, pat: &str, rep: &str) -> (r: String)
    ensures
        r@ == replace_seq(s@, pat@, rep@),
{
    let sv = chars_of_str(s);
    let pv = chars_of_str(pat);
    let rv = chars_of_str(rep);
    if pv.len() == 0 {
        proof {
            assert(replace_seq(s@, pat@, rep@) == s@);
        }
        return s.to_owned();
    }
    let mut out: Vec<char> = Vec::new();
    let mut i: usize = 0;
    proof {
        assert(s@.skip(0) =~= s@);
        assert(replace_seq(s@, pat@, rep@) =~= out@ + replace_seq(s@.skip(0), pat@, rep@));
    }
    while i < sv.len()
        invariant
            i <= s@.len(),
            replace_seq(s@, pat@, rep@) == out@ + replace_seq(s@.skip(i as int), pat@, rep@),
        decreases s@.len() - i,
    {
        let ghost out_before = out@;
        if pv.len() <= sv.len() - i && match_at(&sv, &pv, i) {
            proof {
                assert(s@.skip(i as int).subrange(0, pat@.len() as int) =~= s@.subrange(
                    i as int,
                    i + pat@.len(),
                ));
                assert(s@.skip(i as int).skip(pat@.len() as int) =~= s@.skip(i + pat@.len()));
            }
            let mut j: usize = 0;
            while j < rv.len()
                invariant
                    j <= rep@.len(),
                    out@ =~= out_before + rep@.subrange(0, j as int),
                decreases rep@.len() - j,
            {
                out.push(rv[j]);
                proof {
                    assert(out@ =~= out_before + rep@.subrange(0, j + 1));
                }
                j = j + 1;
            }
            proof {
                assert(out@ =~= out_before + rep@);
                assert(out@ + replace_seq(s@.skip(i + pat@.len()), pat@, rep@) =~= out_before + (
                rep@ + replace_seq(s@.skip(i + pat@.len()), pat@, rep@)));
            }
            i = i + pv.len();
        } else {
            proof {
                if i + pat@.len() <= s@.len() {
                    assert(!occurs_at(s@, pat@, i as int));
                    assert(s@.skip(i as int).subrange(0, pat@.len() as int) =~= s@.subrange(
                        i as int,
                        i + pat@.len(),
                    ));
                }
                assert(s@.skip(i as int).drop_first() =~= s@.skip(i + 1));
            }
            out.push(sv[i]);
            proof {
                assert(out@ =~= out_before.push(s@[i as int]));
                assert(out@ + replace_seq(s@.skip(i + 1), pat@, rep@) =~= out_before + (seq![
                    s@[i as int],
                ] + replace_seq(s@.skip(i + 1), pat@, rep@)));
            }
            i = i + 1;
        }
    }
    proof {
        assert(s@.skip(s@.len() as int) =~= Seq::<char>::empty());
        assert(replace_seq(s@, pat@, rep@) =~= out@);
    }
    chars_to_string(&out)
}

/// Sanitizes and restores values for backends that restrict field names:
/// dots, dollar signs and null bytes are escaped in every string and field
/// name, and the escapes are reversed on the way back.
pub struct ValueSanitizer;

impl ValueSanitizer {
    /// The string with every dot, dollar sign and null byte replaced by its
    /// escape run, in that order.
    pub fn sanitize_string(input: &str) -> (r: String)
        ensures
            r@ == sanitize_chars(input@),
    {
        let dotted = replace_all(input, ".", "__dot__");
        let dollared = replace_all(dotted.as_str(), "$", "__dollar__");
        replace_all(dollared.as_str(), "\u{0}", "__null__")
    }

    /// The string with every escape run replaced back by its character, in
    /// the reverse order of sanitization.
    pub fn restore_string(input: &str) -> (r: String)
        ensures
            r@ == restore_chars(input@),
    {
        let nulled = replace_all(input, "__null__", "\u{0}");
        let dollared = replace_all(nulled.as_str(), "__dollar__", "$");
        replace_all(dollared.as_str(), "__dot__", ".")
    }

    /// The value with every string and field name sanitized, throughout the
    /// tree; other variants are copied unchanged.
    #[verifier::loop_isolation(false)]
    pub fn sanitize_value(value: &Value) -> (r: Value)
        ensures
            r@ == sanitize_vv(value@),
        decreases value,
    {
        match value {
            Value::Null => Value::Null,
            Value::Bool(b) => Value::Bool(*b),
            Value::Number(n) => Value::Number(*n),
            Value::Timestamp(t) => Value::Timestamp(*t),
            Value::Text(s) => Value::Text(Self::sanitize_string(s.as_str())),
            Value::Array(items) => {
                let mut out: Vec<Value> = Vec::new();
                let mut i: usize = 0;
                while i < items.len()
                    invariant
                        i <= items.len(),
                        out@.len() == i as int,
                        forall|k: int|
                            0 <= k < i as int ==> out@[k]@ == sanitize_vv(items@[k]@),
                    decreases items.len() - i,
                {
                    out.push(Self::sanitize_value(&items[i]));
                    i = i + 1;
                }
                let res = Value::Array(out);
                proof {
                    lemma_sanitize_arr(views_of_seq(items@));
                    assert(views_of_seq(out@) =~= sanitize_arr(views_of_seq(items@)));
                }
                res
            },
            Value::Object(fields) => {
                let mut out: Vec<(String, Value)> = Vec::new();
                let mut i: usize = 0;
                while i < fields.len()
                    invariant
                        i <= fields.len(),
                        out@.len() == i as int,
                        forall|k: int|
                            0 <= k < i as int ==> out@[k].0@ == sanitize_chars(fields@[k].0@)
                                && out@[k].1@ == sanitize_vv(fields@[k].1@),
                    decreases fields.len() - i,
                {
                    let (name, val) = &fields[i];
                    out.push((Self::sanitize_string(name.as_str()), Self::sanitize_value(val)));
                    i = i + 1;
                }
                let res = Value::Object(out);
                proof {
                    lemma_sanitize_entries(views_of_entries(fields@));
                    assert(views_of_entries(out@) =~= sanitize_entries(views_of_entries(fields@)));
                }
                res
            },
        }
    }

    /// The value with every escape run restored, throughout the tree; other
    /// variants are copied unchanged.
    #[verifier::loop_isolation(false)]
    pub fn restore_value(value: &Value) -> (r: Value)
        ensures
            r@ == restore_vv(value@),
        decreases value,
    {
        match value {
            Value::Null => Value::Null,
            Value::Bool(b) => Value::Bool(*b),
            Value::Number(n) => Value::Number(*n),
            Value::Timestamp(t) => Value::Timestamp(*t),
            Value::Text(s) => Value::Text(Self::restore_string(s.as_str())),
            Value::Array(items) => {
                let mut out: Vec<Value> = Vec::new();
                let mut i: usize = 0;
                while i < items.len()
                    invariant
                        i <= items.len(),
                        out@.len() == i as int,
                        forall|k: int|
                            0 <= k < i as int ==> out@[k]@ == restore_vv(items@[k]@),
                    decreases items.len() - i,
                {
                    out.push(Self::restore_value(&items[i]));
                    i = i + 1;
                }
                let res = Value::Array(out);
                proof {
                    lemma_restore_arr(views_of_seq(items@));
                    assert(views_of_seq(out@) =~= restore_arr(views_of_seq(items@)));
                }
                res
            },
            Value::Object(fields) => {
                let mut out: Vec<(String, Value)> = Vec::new();
                let mut i: usize = 0;
                while i < fields.len()
                    invariant
                        i <= fields.len(),
                        out@.len() == i as int,
                        forall|k: int|
                            0 <= k < i as int ==> out@[k].0@ == restore_chars(fields@[k].0@)
                                && out@[k].1@ == restore_vv(fields@[k].1@),
                    decreases fields.len() - i,
                {
                    let (name, val) = &fields[i];
                    out.push((Self::restore_string(name.as_str()), Self::restore_value(val)));
                    i = i + 1;
                }
                let res = Value::Object(out);
                proof {
                    lemma_restore_entries(views_of_entries(fields@));
                    assert(views_of_entries(out@) =~= restore_entries(views_of_entries(fields@)));
                }
                res
            },
        }
    }
}

} // verus!
