//! First-match association sequences: the shared model of every keyed
//! sequence in the store — collections by name, records by id, record
//! fields by name — with the lemmas that tie a first match found at an
//! index to the recursive definitions.

use vstd::prelude::*;

verus! {

/// The value of the first entry keyed `key`, when one exists.
pub open spec fn assoc_lookup<K, V>(s: Seq<(K, V)>, key: K) -> Option<V>
    decreases s.len(),
{
    if s.len() == 0 {
        None
    } else if s[0].0 == key {
        Some(s[0].1)
    } else {
        assoc_lookup(s.drop_first(), key)
    }
}

/// `s` with the value of the first entry keyed `key` replaced by `v`;
/// a new entry is appended when none carries the key.
pub open spec fn assoc_update<K, V>(s: Seq<(K, V)>, key: K, v: V) -> Seq<(K, V)>
    decreases s.len(),
{
    if s.len() == 0 {
        seq![(key, v)]
    } else if s[0].0 == key {
        seq![(key, v)] + s.drop_first()
    } else {
        seq![s[0]] + assoc_update(s.drop_first(), key, v)
    }
}

/// `s` without its first entry keyed `key`.
pub open spec fn assoc_remove<K, V>(s: Seq<(K, V)>, key: K) -> Seq<(K, V)>
    decreases s.len(),
{
    if s.len() == 0 {
        Seq::empty()
    } else if s[0].0 == key {
        s.drop_first()
    } else {
        seq![s[0]] + assoc_remove(s.drop_first(), key)
    }
}

/// When the first `i` entries carry other keys and entry `i` carries `key`,
/// the lookup finds entry `i`.
pub proof fn lemma_assoc_lookup_found<K, V>(s: Seq<(K, V)>, key: K, i: int)
    requires
        0 <= i < s.len(),
        forall|t: int| 0 <= t < i ==> (#[trigger] s[t]).0 != key,
        s[i].0 == key,
    ensures
        assoc_lookup(s, key) == Some(s[i].1),
    decreases i,
{
    if i > 0 {
        lemma_assoc_lookup_found(s.drop_first(), key, i - 1);
    }
}

/// When no entry carries `key`, the lookup finds nothing.
pub proof fn lemma_assoc_lookup_none<K, V>(s: Seq<(K, V)>, key: K)
    requires
        forall|t: int| 0 <= t < s.len() ==> (#[trigger] s[t]).0 != key,
    ensures
        assoc_lookup(s, key) is None,
    decreases s.len(),
{
    if s.len() > 0 {
        lemma_assoc_lookup_none(s.drop_first(), key);
    }
}

/// When entry `i` is the first keyed `key`, updating that key replaces
/// entry `i` in place.
pub proof fn lemma_assoc_update_at<K, V>(s: Seq<(K, V)>, key: K, v: V, i: int)
    requires
        0 <= i < s.len(),
        forall|t: int| 0 <= t < i ==> (#[trigger] s[t]).0 != key,
        s[i].0 == key,
    ensures
        assoc_update(s, key, v) =~= s.update(i, (key, v)),
    decreases i,
{
    if i > 0 {
        lemma_assoc_update_at(s.drop_first(), key, v, i - 1);
        assert(assoc_update(s, key, v) =~= seq![s[0]] + s.drop_first().update(i - 1, (key, v)));
    }
}

/// When no entry carries `key`, updating that key appends a new entry.
pub proof fn lemma_assoc_update_append<K, V>(s: Seq<(K, V)>, key: K, v: V)
    requires
        forall|t: int| 0 <= t < s.len() ==> (#[trigger] s[t]).0 != key,
    ensures
        assoc_update(s, key, v) =~= s.push((key, v)),
    decreases s.len(),
{
    if s.len() > 0 {
        lemma_assoc_update_append(s.drop_first(), key, v);
        assert(assoc_update(s, key, v) =~= seq![s[0]] + s.drop_first().push((key, v)));
    }
}

/// A successful lookup points at an actual entry.
pub proof fn lemma_assoc_lookup_index<K, V>(s: Seq<(K, V)>, key: K)
    requires
        assoc_lookup(s, key) is Some,
    ensures
        exists|i: int| 0 <= i < s.len() && #[trigger] s[i] == (key, assoc_lookup(s, key)->0),
    decreases s.len(),
{
    if s.len() > 0 {
        if s[0].0 == key {
            assert(s[0] == (key, assoc_lookup(s, key)->0));
        } else {
            lemma_assoc_lookup_index(s.drop_first(), key);
            let i = choose|i: int|
                0 <= i < s.drop_first().len() && #[trigger] s.drop_first()[i] == (
                    key,
                    assoc_lookup(s.drop_first(), key)->0,
                );
            assert(s[i + 1] == (key, assoc_lookup(s, key)->0));
        }
    }
}

/// Looking a key up after updating it finds the new value.
pub proof fn lemma_assoc_update_lookup<K, V>(s: Seq<(K, V)>, key: K, v: V)
    ensures
        assoc_lookup(assoc_update(s, key, v), key) == Some(v),
    decreases s.len(),
{
    if s.len() == 0 {
        assert(assoc_update(s, key, v)[0] == (key, v));
    } else if s[0].0 == key {
        assert(assoc_update(s, key, v)[0] == (key, v));
    } else {
        lemma_assoc_update_lookup(s.drop_first(), key, v);
        let u = assoc_update(s, key, v);
        assert(u[0] == s[0]);
        assert(u.drop_first() =~= assoc_update(s.drop_first(), key, v));
    }
}

/// When the lookup finds nothing, no entry carries the key.
pub proof fn lemma_assoc_lookup_none_all<K, V>(s: Seq<(K, V)>, key: K)
    requires
        assoc_lookup(s, key) is None,
    ensures
        forall|t: int| 0 <= t < s.len() ==> (#[trigger] s[t]).0 != key,
    decreases s.len(),
{
    if s.len() > 0 {
        lemma_assoc_lookup_none_all(s.drop_first(), key);
        assert forall|t: int| 0 <= t < s.len() implies (#[trigger] s[t]).0 != key by {
            if t > 0 {
                assert(s.drop_first()[t - 1] == s[t]);
            }
        }
    }
}

/// When no entry carries `key`, removing that key changes nothing.
pub proof fn lemma_assoc_remove_absent<K, V>(s: Seq<(K, V)>, key: K)
    requires
        forall|t: int| 0 <= t < s.len() ==> (#[trigger] s[t]).0 != key,
    ensures
        assoc_remove(s, key) =~= s,
    decreases s.len(),
{
    if s.len() > 0 {
        lemma_assoc_remove_absent(s.drop_first(), key);
        assert(assoc_remove(s, key) =~= seq![s[0]] + s.drop_first());
    }
}

/// When entry `i` is the first keyed `key`, removing that key removes
/// entry `i`.
pub proof fn lemma_assoc_remove_at<K, V>(s: Seq<(K, V)>, key: K, i: int)
    requires
        0 <= i < s.len(),
        forall|t: int| 0 <= t < i ==> (#[trigger] s[t]).0 != key,
        s[i].0 == key,
    ensures
        assoc_remove(s, key) =~= s.remove(i),
    decreases i,
{
    if i > 0 {
        lemma_assoc_remove_at(s.drop_first(), key, i - 1);
        assert(assoc_remove(s, key) =~= seq![s[0]] + s.drop_first().remove(i - 1));
    }
}

} // verus!
