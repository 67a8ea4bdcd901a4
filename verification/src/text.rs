//! Verified character-level string operations: lexicographic comparison,
//! prefix, suffix and substring tests. All are exact over the character
//! sequences of their inputs.

use vstd::prelude::*;
use vstd::string::StrSliceExecFns;

use crate::compare::ValueOrder;
use crate::compare::lex_cmp;

verus! {

/// `p` occurs in `s` as a contiguous run starting at position `k`.
pub open spec fn occurs_at(s: Seq<char>, p: Seq<char>, k: int) -> bool {
    0 <= k && k + p.len() <= s.len() && s.subrange(k, k + p.len() as int) == p
}

/// `p` occurs somewhere in `s` as a contiguous run.
pub open spec fn has_substring(s: Seq<char>, p: Seq<char>) -> bool {
    exists|k: int| occurs_at(s, p, k)
}

/// `p` is a prefix of `s`.
pub open spec fn has_prefix(s: Seq<char>, p: Seq<char>) -> bool {
    occurs_at(s, p, 0)
}

/// `p` is a suffix of `s`.
pub open spec fn has_suffix(s: Seq<char>, p: Seq<char>) -> bool {
    p.len() <= s.len() && occurs_at(s, p, s.len() - p.len())
}

/// The characters of `s`, as a vector.
pub fn chars_of_str(s: &str) -> (v: Vec<char>)
    ensures
        v@ == s@,
{
    let n = s.unicode_len();
    let mut v: Vec<char> = Vec::new();
    let mut i: usize = 0;
    while i < n
        invariant
            n == s@.len(),
            i <= n,
            v@ =~= s@.subrange(0, i as int),
        decreases n - i,
    {
        v.push(s.get_char(i));
        i = i + 1;
    }
    proof {
        assert(v@ =~= s@);
    }
    v
}

/// Relies on `String::push`: appends exactly one character to the string.
#[verifier::external_body]
fn push_char(s: &mut String, c: char)
    ensures
        final(s)@ == old(s)@.push(c),
{
    s.push(c)
}

/// A string holding exactly the given characters.
pub fn chars_to_string(v: &Vec<char>) -> (s: String)
    ensures
        s@ == v@,
{
    let mut s = String::new();
    let mut i: usize = 0;
    while i < v.len()
        invariant
            i <= v@.len(),
            s@ =~= v@.subrange(0, i as int),
        decreases v@.len() - i,
    {
        push_char(&mut s, v[i]);
        proof {
            assert(s@ =~= v@.subrange(0, i + 1));
        }
        i = i + 1;
    }
    proof {
        assert(s@ =~= v@);
    }
    s
}

/// The characters of `s`, as a vector.
pub fn chars_of(s: &String) -> (v: Vec<char>)
    ensures
        v@ == s@,
{
    let n = s.as_str().unicode_len();
    let mut v: Vec<char> = Vec::new();
    let mut i: usize = 0;
    while i < n
        invariant
            n == s@.len(),
            i <= n,
            v@ =~= s@.subrange(0, i as int),
        decreases n - i,
    {
        v.push(s.as_str().get_char(i));
        i = i + 1;
    }
    proof {
        assert(v@ =~= s@);
    }
    v
}

/// Whether `p` occurs in `s` starting at `k`, by direct comparison.
pub(crate) fn match_at(s: &Vec<char>, p: &Vec<char>, k: usize) -> (r: bool)
    requires
        k + p@.len() <= s@.len(),
    ensures
        r == occurs_at(s@, p@, k as int),
{
    let slen = s.len();
    let mut j: usize = 0;
    while j < p.len()
        invariant
            slen == s@.len(),
            k + p@.len() <= s@.len(),
            j <= p@.len(),
            forall|t: int| 0 <= t < j ==> s@[k + t] == p@[t],
        decreases p@.len() - j,
    {
        if s[k + j] != p[j] {
            proof {
                assert(s@.subrange(k as int, k + p@.len() as int)[j as int] == s@[k + j]);
            }
            return false;
        }
        j = j + 1;
    }
    proof {
        assert(s@.subrange(k as int, k + p@.len() as int) =~= p@);
    }
    true
}

/// Whether `p` occurs somewhere in `s`.
fn contains_chars(s: &Vec<char>, p: &Vec<char>) -> (r: bool)
    ensures
        r == has_substring(s@, p@),
{
    if p.len() > s.len() {
        proof {
            assert(forall|k: int| !occurs_at(s@, p@, k));
        }
        return false;
    }
    if p.len() == 0 {
        proof {
            assert(s@.subrange(0, 0) =~= p@);
            assert(occurs_at(s@, p@, 0));
        }
        return true;
    }
    let bound = s.len() - p.len();
    let mut k: usize = 0;
    while k <= bound
        invariant
            0 < p@.len() <= s@.len(),
            s@.len() <= usize::MAX,
            bound == s@.len() - p@.len(),
            k <= bound + 1,
            forall|t: int| 0 <= t < k ==> !occurs_at(s@, p@, t),
        decreases bound + 1 - k,
    {
        if match_at(s, p, k) {
            return true;
        }
        k = k + 1;
    }
    proof {
        assert(forall|t: int| !occurs_at(s@, p@, t));
    }
    false
}

/// Whether the string `p` occurs in the string `s` as a contiguous,
/// case-sensitive run of characters.
pub fn str_contains_str(s: &String, p: &String) -> (r: bool)
    ensures
        r == has_substring(s@, p@),
{
    let sv = chars_of(s);
    let pv = chars_of(p);
    contains_chars(&sv, &pv)
}

/// Whether the string `p` is a prefix of the string `s`.
pub fn str_has_prefix(s: &String, p: &String) -> (r: bool)
    ensures
        r == has_prefix(s@, p@),
{
    let sv = chars_of(s);
    let pv = chars_of(p);
    if pv.len() > sv.len() {
        return false;
    }
    match_at(&sv, &pv, 0)
}

/// Whether the string `p` is a suffix of the string `s`.
pub fn str_has_suffix(s: &String, p: &String) -> (r: bool)
    ensures
        r == has_suffix(s@, p@),
{
    let sv = chars_of(s);
    let pv = chars_of(p);
    if pv.len() > sv.len() {
        return false;
    }
    match_at(&sv, &pv, sv.len() - pv.len())
}

/// The models of a sequence of strings, elementwise.
pub open spec fn views_of_names(names: Seq<String>) -> Seq<Seq<char>>
    decreases names,
{
    if names.len() == 0 {
        Seq::empty()
    } else {
        seq![names[0]@] + views_of_names(names.drop_first())
    }
}

/// `views_of_names` is the elementwise model of its argument.
pub broadcast proof fn lemma_views_of_names(names: Seq<String>)
    ensures
        (#[trigger] views_of_names(names)).len() == names.len(),
        forall|i: int| 0 <= i < names.len() ==> views_of_names(names)[i] == names[i]@,
    decreases names,
{
    if names.len() > 0 {
        lemma_views_of_names(names.drop_first());
    }
}

/// The models of a sequence of string pairs, elementwise.
pub open spec fn views_of_links(links: Seq<(String, String)>) -> Seq<(Seq<char>, Seq<char>)>
    decreases links,
{
    if links.len() == 0 {
        Seq::empty()
    } else {
        seq![(links[0].0@, links[0].1@)] + views_of_links(links.drop_first())
    }
}

/// `views_of_links` is the elementwise model of its argument.
pub broadcast proof fn lemma_views_of_links(links: Seq<(String, String)>)
    ensures
        (#[trigger] views_of_links(links)).len() == links.len(),
        forall|i: int|
            0 <= i < links.len() ==> views_of_links(links)[i] == (links[i].0@, links[i].1@),
    decreases links,
{
    if links.len() > 0 {
        lemma_views_of_links(links.drop_first());
    }
}

/// The models of a sequence of name and name-list pairs, elementwise.
pub open spec fn views_of_paths(entries: Seq<(String, Vec<String>)>) -> Seq<
    (Seq<char>, Seq<Seq<char>>),
>
    decreases entries,
{
    if entries.len() == 0 {
        Seq::empty()
    } else {
        seq![(entries[0].0@, views_of_names(entries[0].1@))] + views_of_paths(entries.drop_first())
    }
}

/// `views_of_paths` is the elementwise model of its argument.
pub broadcast proof fn lemma_views_of_paths(entries: Seq<(String, Vec<String>)>)
    ensures
        (#[trigger] views_of_paths(entries)).len() == entries.len(),
        forall|i: int|
            0 <= i < entries.len() ==> views_of_paths(entries)[i] == (
                entries[i].0@,
                views_of_names(entries[i].1@),
            ),
    decreases entries,
{
    if entries.len() > 0 {
        lemma_views_of_paths(entries.drop_first());
    }
}

/// The models of a sequence of steps, each a name and an optional
/// predecessor name, elementwise.
pub open spec fn views_of_steps(steps: Seq<(String, Option<String>)>) -> Seq<
    (Seq<char>, Option<Seq<char>>),
>
    decreases steps,
{
    if steps.len() == 0 {
        Seq::empty()
    } else {
        seq![
            (
                steps[0].0@,
                match steps[0].1 {
                    Some(ref p) => Some(p@),
                    None => None,
                },
            ),
        ] + views_of_steps(steps.drop_first())
    }
}

/// `views_of_steps` is the elementwise model of its argument.
pub broadcast proof fn lemma_views_of_steps(steps: Seq<(String, Option<String>)>)
    ensures
        (#[trigger] views_of_steps(steps)).len() == steps.len(),
        forall|i: int|
            0 <= i < steps.len() ==> views_of_steps(steps)[i] == (
                steps[i].0@,
                match steps[i].1 {
                    Some(p) => Some(p@),
                    None => None,
                },
            ),
    decreases steps,
{
    if steps.len() > 0 {
        lemma_views_of_steps(steps.drop_first());
    }
}

/// A copy of a list of strings with the same models.
pub fn clone_names(names: &Vec<String>) -> (out: Vec<String>)
    ensures
        views_of_names(out@) == views_of_names(names@),
{
    let mut out: Vec<String> = Vec::new();
    let mut i: usize = 0;
    while i < names.len()
        invariant
            i <= names@.len(),
            out@.len() == i as int,
            forall|t: int| 0 <= t < i ==> (#[trigger] out@[t])@ == names@[t]@,
        decreases names@.len() - i,
    {
        out.push(names[i].clone());
        i = i + 1;
    }
    proof {
        lemma_views_of_names(out@);
        lemma_views_of_names(names@);
        assert(views_of_names(out@) =~= views_of_names(names@));
    }
    out
}

/// Whether any of `names` holds the characters of `x`.
pub fn names_contain(names: &Vec<String>, x: &str) -> (r: bool)
    ensures
        r == views_of_names(names@).contains(x@),
{
    let ghost nv = views_of_names(names@);
    proof {
        lemma_views_of_names(names@);
    }
    let mut i: usize = 0;
    while i < names.len()
        invariant
            i <= names@.len(),
            nv == views_of_names(names@),
            nv.len() == names@.len(),
            forall|t: int| 0 <= t < i ==> (#[trigger] nv[t]) != x@,
        decreases names@.len() - i,
    {
        proof {
            lemma_views_of_names(names@);
        }
        if str_eq(names[i].as_str(), x) {
            proof {
                assert(nv[i as int] == x@);
            }
            return true;
        }
        i = i + 1;
    }
    proof {
        assert(!nv.contains(x@));
    }
    false
}

/// Whether two strings hold the same characters.
pub fn str_eq(a: &str, b: &str) -> (r: bool)
    ensures
        r == (a@ == b@),
{
    let na = a.unicode_len();
    let nb = b.unicode_len();
    if na != nb {
        return false;
    }
    let mut i: usize = 0;
    while i < na
        invariant
            na == a@.len(),
            na == b@.len(),
            i <= na,
            forall|t: int| 0 <= t < i ==> a@[t] == b@[t],
        decreases na - i,
    {
        if a.get_char(i) != b.get_char(i) {
            return false;
        }
        i = i + 1;
    }
    proof {
        assert(a@ =~= b@);
    }
    true
}

/// The lexicographic order of two strings, by code point.
pub fn str_compare(x: &String, y: &String) -> (r: ValueOrder)
    ensures
        r == lex_cmp(x@, y@),
{
    let xv = chars_of(x);
    let yv = chars_of(y);
    proof {
        assert(x@.skip(0) =~= x@);
        assert(y@.skip(0) =~= y@);
    }
    let mut i: usize = 0;
    while i < xv.len() && i < yv.len()
        invariant
            xv@ == x@,
            yv@ == y@,
            i <= x@.len(),
            i <= y@.len(),
            lex_cmp(x@, y@) == lex_cmp(x@.skip(i as int), y@.skip(i as int)),
        decreases x@.len() - i,
    {
        let a = xv[i];
        let b = yv[i];
        if (a as u32) < (b as u32) {
            return ValueOrder::Less;
        }
        if (b as u32) < (a as u32) {
            return ValueOrder::Greater;
        }
        proof {
            assert(x@.skip(i as int).drop_first() =~= x@.skip(i + 1));
            assert(y@.skip(i as int).drop_first() =~= y@.skip(i + 1));
        }
        i = i + 1;
    }
    proof {
        assert(x@.skip(i as int).len() == 0 || y@.skip(i as int).len() == 0);
    }
    if xv.len() == yv.len() {
        ValueOrder::Equal
    } else if xv.len() < yv.len() {
        ValueOrder::Less
    } else {
        ValueOrder::Greater
    }
}

} // verus!
