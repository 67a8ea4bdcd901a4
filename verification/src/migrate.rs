//! Schema migrations: the revision graph derived from a set of migration
//! steps, forward and backward path resolution between two revisions, and
//! the runner that applies a resolved path step by step, persisting the
//! current revision after each successfully applied step.

use vstd::prelude::*;
use vstd::string::StringExecFns;

use crate::assoc::assoc_lookup;
use crate::assoc::assoc_remove;
use crate::assoc::assoc_update;
use crate::evaluator::records_wf;
use crate::pipeline::run_query;
use crate::query::Query;
use crate::store::ColsView;
use crate::store::InMemoryStore;
use crate::store::StoreView;
use crate::store::add_field_docs;
use crate::store::drop_field_docs;
use crate::store::rename_field_docs;
use crate::store::spec_delete_batch;
use crate::store::spec_get_batch;
use crate::store::spec_insert_batch;
use crate::store::spec_update_batch;
use crate::store::values_of;
use crate::value::Value;
use crate::value::views_of_docs;
use crate::value::views_of_seq;
use crate::error::DocumentStoreError;
use crate::error::DocumentStoreResult;
use crate::assoc::lemma_assoc_lookup_found;
use crate::assoc::lemma_assoc_lookup_none;
use crate::text::clone_names;
use crate::text::names_contain;
use crate::text::str_eq;
use crate::text::views_of_links;
use crate::text::views_of_names;
use crate::text::views_of_paths;
use crate::text::views_of_steps;

verus! {

broadcast use
    vstd::seq::axiom_seq_index_decreases,
    vstd::std_specs::vec::axiom_vec_index_decreases,
    vstd::std_specs::vec::axiom_vec_decreases_to_view,
    crate::text::lemma_views_of_names,
    crate::text::lemma_views_of_links,
    crate::text::lemma_views_of_paths,
    crate::text::lemma_views_of_steps,
;

/// Direction of a schema migration.
#[derive(Debug, Clone, Copy, PartialEq, Eq, Structural)]
pub enum MigrationDirection {
    /// Toward a newer schema revision, applying up effects.
    Up,
    /// Toward an older schema revision, applying down effects.
    Down,
}

/// The links of a revision graph: one `(step, predecessor)` pair for each
/// step that declares a predecessor, in declaration order.
pub type LinksView = Seq<(Seq<char>, Seq<char>)>;

/// Whether the graph has an edge from `a` to `b` in the given direction:
/// going up, `b` must declare `a` as its predecessor; going down, `a`'s
/// first declared predecessor must be `b`.
pub open spec fn step_edge(
    links: LinksView,
    dir: MigrationDirection,
    a: Seq<char>,
    b: Seq<char>,
) -> bool {
    match dir {
        MigrationDirection::Up => exists|i: int|
            0 <= i < links.len() && (#[trigger] links[i]).0 == b && links[i].1 == a,
        MigrationDirection::Down => assoc_lookup(links, a) == Some(b),
    }
}

/// Whether `p` walks from `from` to `to` along edges of the given direction.
pub open spec fn valid_path(
    links: LinksView,
    dir: MigrationDirection,
    p: Seq<Seq<char>>,
    from: Seq<char>,
    to: Seq<char>,
) -> bool {
    &&& p.len() >= 1
    &&& p[0] == from
    &&& p[p.len() - 1] == to
    &&& forall|i: int| 0 <= i < p.len() - 1 ==> step_edge(links, dir, #[trigger] p[i], p[i + 1])
}

/// Whether some path walks from `from` to `to` in the given direction.
pub open spec fn reachable(
    links: LinksView,
    dir: MigrationDirection,
    from: Seq<char>,
    to: Seq<char>,
) -> bool {
    exists|p: Seq<Seq<char>>| valid_path(links, dir, p, from, to)
}

/// The links a set of steps declares: one pair per step with a predecessor,
/// in step order.
pub open spec fn links_of(steps: Seq<(Seq<char>, Option<Seq<char>>)>) -> LinksView
    decreases steps.len(),
{
    if steps.len() == 0 {
        Seq::empty()
    } else {
        (match steps[0].1 {
            Some(p) => seq![(steps[0].0, p)],
            None => Seq::empty(),
        }) + links_of(steps.drop_first())
    }
}

/// The steps that declare `n` as their predecessor, in declaration order.
pub open spec fn up_nbrs(links: LinksView, n: Seq<char>) -> Seq<Seq<char>>
    decreases links.len(),
{
    if links.len() == 0 {
        Seq::empty()
    } else if links[0].1 == n {
        seq![links[0].0] + up_nbrs(links.drop_first(), n)
    } else {
        up_nbrs(links.drop_first(), n)
    }
}

/// The nodes one edge away from `n` in the given direction.
pub open spec fn nbrs(links: LinksView, dir: MigrationDirection, n: Seq<char>) -> Seq<Seq<char>> {
    match dir {
        MigrationDirection::Up => up_nbrs(links, n),
        MigrationDirection::Down => match assoc_lookup(links, n) {
            Some(p) => seq![p],
            None => Seq::empty(),
        },
    }
}

/// A node is a neighbour of `n` exactly when the graph has an edge from `n`
/// to it.
proof fn lemma_nbrs_edge(links: LinksView, dir: MigrationDirection, n: Seq<char>, c: Seq<char>)
    ensures
        nbrs(links, dir, n).contains(c) <==> step_edge(links, dir, n, c),
    decreases links.len(),
{
    match dir {
        MigrationDirection::Up => {
            if links.len() == 0 {
            } else {
                let rest = links.drop_first();
                lemma_nbrs_edge(rest, dir, n, c);
                if links[0].1 == n {
                    let whole = seq![links[0].0] + up_nbrs(rest, n);
                    assert(up_nbrs(links, n) == whole);
                    if links[0].0 == c {
                        assert(whole[0] == c);
                        assert(whole.contains(c));
                        assert((links[0]).0 == c && links[0].1 == n);
                        assert(step_edge(links, dir, n, c));
                    } else {
                        assert(whole.contains(c) <==> up_nbrs(rest, n).contains(c)) by {
                            if whole.contains(c) {
                                let i = choose|i: int|
                                    0 <= i < whole.len() && whole[i] == c;
                                assert(i > 0);
                                assert(up_nbrs(rest, n)[i - 1] == c);
                            }
                            if up_nbrs(rest, n).contains(c) {
                                let i = choose|i: int|
                                    0 <= i < up_nbrs(rest, n).len() && up_nbrs(rest, n)[i] == c;
                                assert(whole[i + 1] == c);
                            }
                        }
                        assert(step_edge(links, dir, n, c) <==> step_edge(rest, dir, n, c)) by {
                            if step_edge(links, dir, n, c) {
                                let i = choose|i: int|
                                    0 <= i < links.len() && (#[trigger] links[i]).0 == c
                                        && links[i].1 == n;
                                assert(i > 0);
                                assert(rest[i - 1].0 == c && rest[i - 1].1 == n);
                            }
                            if step_edge(rest, dir, n, c) {
                                let i = choose|i: int|
                                    0 <= i < rest.len() && (#[trigger] rest[i]).0 == c && rest[i].1
                                        == n;
                                assert(links[i + 1].0 == c && links[i + 1].1 == n);
                            }
                        }
                    }
                } else {
                    assert(step_edge(links, dir, n, c) <==> step_edge(rest, dir, n, c)) by {
                        if step_edge(links, dir, n, c) {
                            let i = choose|i: int|
                                0 <= i < links.len() && (#[trigger] links[i]).0 == c && links[i].1
                                    == n;
                            assert(i > 0 || links[0].1 == n);
                            assert(rest[i - 1].0 == c && rest[i - 1].1 == n);
                        }
                        if step_edge(rest, dir, n, c) {
                            let i = choose|i: int|
                                0 <= i < rest.len() && (#[trigger] rest[i]).0 == c && rest[i].1
                                    == n;
                            assert(links[i + 1].0 == c && links[i + 1].1 == n);
                        }
                    }
                }
            }
        },
        MigrationDirection::Down => {
            match assoc_lookup(links, n) {
                Some(p) => {
                    let single = seq![p];
                    assert(single[0] == p);
                    assert(single.contains(p));
                    if c != p {
                        assert(!single.contains(c)) by {
                            if single.contains(c) {
                                let i = choose|i: int| 0 <= i < 1 && single[i] == c;
                                assert(single[0] == c);
                            }
                        }
                    }
                },
                None => {
                    assert(!nbrs(links, dir, n).contains(c));
                },
            }
        },
    }
}

/// A sequence without duplicates whose members all come from `uni` is no
/// longer than `uni`.
proof fn lemma_unique_len_le(s: Seq<Seq<char>>, uni: Seq<Seq<char>>)
    requires
        s.no_duplicates(),
        forall|i: int| 0 <= i < s.len() ==> uni.contains(#[trigger] s[i]),
    ensures
        s.len() <= uni.len(),
{
    broadcast use vstd::seq_lib::seq_to_set_is_finite;

    s.unique_seq_to_set();
    assert(s.to_set().subset_of(uni.to_set())) by {
        assert forall|x: Seq<char>| s.to_set().contains(x) implies uni.to_set().contains(x) by {
            let i = choose|i: int| 0 <= i < s.len() && s[i] == x;
            assert(uni.contains(s[i]));
        }
    }
    vstd::set_lib::lemma_len_subset(s.to_set(), uni.to_set());
    uni.lemma_cardinality_of_set();
}

/// No path leaves a set of nodes that is closed under edges: when such a
/// set holds `from` and misses `to`, no path runs from `from` to `to`.
proof fn lemma_closed_no_path(
    links: LinksView,
    dir: MigrationDirection,
    visited: Seq<Seq<char>>,
    from: Seq<char>,
    to: Seq<char>,
    p: Seq<Seq<char>>,
)
    requires
        visited.contains(from),
        !visited.contains(to),
        forall|u: Seq<char>, c: Seq<char>|
            visited.contains(u) && #[trigger] step_edge(links, dir, u, c) ==> c != to
                && visited.contains(c),
    ensures
        !valid_path(links, dir, p, from, to),
    decreases p.len(),
{
    if valid_path(links, dir, p, from, to) {
        if p.len() == 1 {
            assert(p[0] == from && p[0] == to);
        } else {
            assert(step_edge(links, dir, p[0], p[1]));
            assert(p[1] != to && visited.contains(p[1]));
            let p2 = p.drop_first();
            assert(valid_path(links, dir, p2, p[1], to)) by {
                assert(p2[0] == p[1]);
                assert(p2[p2.len() - 1] == p[p.len() - 1]);
                assert forall|i: int| 0 <= i < p2.len() - 1 implies step_edge(
                    links,
                    dir,
                    #[trigger] p2[i],
                    p2[i + 1],
                ) by {
                    assert(p2[i] == p[i + 1] && p2[i + 1] == p[i + 2]);
                    assert(step_edge(links, dir, p[i + 1], p[i + 2]));
                }
            }
            lemma_closed_no_path(links, dir, visited, p[1], to, p2);
        }
    }
}

/// Whether some entry of the search stack carries the node `n`.
pub open spec fn stack_has(sv: Seq<(Seq<char>, Seq<Seq<char>>)>, n: Seq<char>) -> bool {
    exists|i: int| 0 <= i < sv.len() && (#[trigger] sv[i]).0 == n
}

/// The detail a no-path migration failure carries: both endpoints of the
/// failed resolution.
pub open spec fn no_path_detail(from: Seq<char>, to: Seq<char>) -> Seq<char> {
    "no path from "@ + from + " to "@ + to
}

/// What applying a migration guarantees, over the store state before and
/// after and the returned result: an unreachable target fails with a
/// migration error naming both endpoints and leaves the store untouched;
/// success implies the target was reachable, and ends the revision at a
/// registered target; a walk that runs no effect (the start is the target
/// and no step carries it) succeeds without touching the store; and any
/// failure leaves the revision at the start or at a registered step the
/// runner completed.
pub open spec fn apply_contract(
    idsv: Seq<(Seq<char>, Option<Seq<char>>)>,
    links: LinksView,
    dir: MigrationDirection,
    target: Seq<char>,
    pre: StoreView,
    post: StoreView,
    r: DocumentStoreResult<()>,
) -> bool {
    let from0 = apply_start(idsv, links, pre.revision, dir);
    &&& (!reachable(links, dir, from0, target) ==> (r matches Err(e) && e matches
        DocumentStoreError::Migration(d) && d@ == no_path_detail(from0, target)) && post == pre)
    &&& (r is Ok ==> reachable(links, dir, from0, target))
    &&& (r is Ok && is_step_id(idsv, target) ==> post.revision == Some(target))
    &&& (from0 == target && !is_step_id(idsv, target) ==> r is Ok && post == pre)
    &&& (r is Err ==> post.revision == pre.revision || (exists|id: Seq<char>|
        #[trigger] is_step_id(idsv, id) && post.revision == Some(id)))
}

/// The head found by `first_head` is a registered step id.
proof fn lemma_first_head_is_step(idsv: Seq<(Seq<char>, Option<Seq<char>>)>, links: LinksView)
    ensures
        match first_head(idsv, links) {
            Some(h) => is_step_id(idsv, h),
            None => true,
        },
    decreases idsv.len(),
{
    if idsv.len() > 0 {
        if has_children(links, idsv[0].0) {
            lemma_first_head_is_step(idsv.drop_first(), links);
            match first_head(idsv.drop_first(), links) {
                Some(h) => {
                    let i = choose|i: int|
                        0 <= i < idsv.drop_first().len() && (#[trigger] idsv.drop_first()[i]).0
                            == h;
                    assert((idsv[i + 1]).0 == h);
                },
                None => {},
            }
        } else {
            assert((idsv[0]).0 == idsv[0].0);
        }
    }
}

/// The tail found by `first_tail` is a registered step id.
proof fn lemma_first_tail_is_step(idsv: Seq<(Seq<char>, Option<Seq<char>>)>, links: LinksView)
    ensures
        match first_tail(idsv, links) {
            Some(t) => is_step_id(idsv, t),
            None => true,
        },
    decreases idsv.len(),
{
    if idsv.len() > 0 {
        if assoc_lookup(links, idsv[0].0) is Some {
            lemma_first_tail_is_step(idsv.drop_first(), links);
            match first_tail(idsv.drop_first(), links) {
                Some(t) => {
                    let i = choose|i: int|
                        0 <= i < idsv.drop_first().len() && (#[trigger] idsv.drop_first()[i]).0
                            == t;
                    assert((idsv[i + 1]).0 == t);
                },
                None => {},
            }
        } else {
            assert((idsv[0]).0 == idsv[0].0);
        }
    }
}

/// The operation context a migration effect works through: the collection,
/// record, field and index operations of the store, but no access to the
/// current-revision marker — the runner alone reads and advances it, which
/// is what gives each step its durability guarantee.
pub struct MigrateOp {
    /// The store state the effect works on; its revision marker is unused
    /// here, and the runner discards it when the effect returns.
    pub store: InMemoryStore,
}

impl MigrateOp {
    /// The collections the effect sees and edits.
    pub open spec fn cols(&self) -> ColsView {
        self.store@.collections
    }

    /// Creates an empty collection of this name; an existing collection of
    /// the same name is left as it is.
    pub fn create_collection(&mut self, name: &str) -> (r: DocumentStoreResult<()>)
        ensures
            final(self).cols() == (match assoc_lookup(old(self).cols(), name@) {
                Some(_) => old(self).cols(),
                None => old(self).cols().push((name@, Seq::empty())),
            }),
            r is Ok,
    {
        self.store.create_collection(name)
    }

    /// Drops the first collection of this name and every record in it;
    /// fails with a collection-not-found error exactly when none exists.
    pub fn drop_collection(&mut self, name: &str) -> (r: DocumentStoreResult<()>)
        ensures
            match assoc_lookup(old(self).cols(), name@) {
                Some(_) => {
                    &&& final(self).cols() == assoc_remove(old(self).cols(), name@)
                    &&& r is Ok
                },
                None => {
                    &&& final(self).cols() == old(self).cols()
                    &&& r matches Err(e) && e matches DocumentStoreError::CollectionNotFound(c)
                        && c@ == name@
                },
            },
    {
        self.store.drop_collection(name)
    }

    /// The names of all collections, in creation order.
    pub fn list_collections(&self) -> (r: DocumentStoreResult<Vec<String>>)
        ensures
            r matches Ok(names) && names@.len() == self.cols().len() && forall|i: int|
                0 <= i < names@.len() ==> (#[trigger] names@[i])@ == self.cols()[i].0,
    {
        self.store.list_collections()
    }

    /// Sets the field to the default on every record of the collection,
    /// overwriting any present value; fails with a collection-not-found
    /// error exactly when the collection does not exist.
    pub fn add_field(&mut self, collection: &str, field: &str, default: Value) -> (r:
        DocumentStoreResult<()>)
        ensures
            match assoc_lookup(old(self).cols(), collection@) {
                None => {
                    &&& final(self).cols() == old(self).cols()
                    &&& r matches Err(e) && e matches DocumentStoreError::CollectionNotFound(c)
                        && c@ == collection@
                },
                Some(docs0) => {
                    &&& final(self).cols() == assoc_update(
                        old(self).cols(),
                        collection@,
                        add_field_docs(docs0, field@, default@),
                    )
                    &&& r is Ok
                },
            },
    {
        self.store.add_field(collection, field, default)
    }

    /// Drops the field from every record of the collection; fails with a
    /// collection-not-found error exactly when the collection does not
    /// exist.
    pub fn drop_field(&mut self, collection: &str, field: &str) -> (r: DocumentStoreResult<()>)
        ensures
            match assoc_lookup(old(self).cols(), collection@) {
                None => {
                    &&& final(self).cols() == old(self).cols()
                    &&& r matches Err(e) && e matches DocumentStoreError::CollectionNotFound(c)
                        && c@ == collection@
                },
                Some(docs0) => {
                    &&& final(self).cols() == assoc_update(
                        old(self).cols(),
                        collection@,
                        drop_field_docs(docs0, field@),
                    )
                    &&& r is Ok
                },
            },
    {
        self.store.drop_field(collection, field)
    }

    /// Renames the field on every record of the collection that has it;
    /// fails with a collection-not-found error exactly when the collection
    /// does not exist.
    pub fn rename_field(&mut self, collection: &str, field: &str, new: &str) -> (r:
        DocumentStoreResult<()>)
        ensures
            match assoc_lookup(old(self).cols(), collection@) {
                None => {
                    &&& final(self).cols() == old(self).cols()
                    &&& r matches Err(e) && e matches DocumentStoreError::CollectionNotFound(c)
                        && c@ == collection@
                },
                Some(docs0) => {
                    &&& final(self).cols() == assoc_update(
                        old(self).cols(),
                        collection@,
                        rename_field_docs(docs0, field@, new@),
                    )
                    &&& r is Ok
                },
            },
    {
        self.store.rename_field(collection, field, new)
    }

    /// Declares an index; the in-memory store keeps none, so nothing
    /// changes and the call succeeds.
    pub fn add_index(&mut self, collection: &str, field: &str, unique: bool) -> (r:
        DocumentStoreResult<()>)
        ensures
            final(self).cols() == old(self).cols(),
            r is Ok,
    {
        self.store.add_index(collection, field, unique)
    }

    /// Drops an index; the in-memory store keeps none, so nothing changes
    /// and the call succeeds.
    pub fn drop_index(&mut self, collection: &str, field: &str) -> (r: DocumentStoreResult<()>)
        ensures
            final(self).cols() == old(self).cols(),
            r is Ok,
    {
        self.store.drop_index(collection, field)
    }

    /// Inserts the records of the batch into the collection, in order,
    /// creating the collection when it does not exist; the batch semantics
    /// are those of the store's insert.
    pub fn insert(&mut self, collection: &str, docs: Vec<(u128, Value)>) -> (r:
        DocumentStoreResult<()>)
        ensures
            ({
                let docs0 = match assoc_lookup(old(self).cols(), collection@) {
                    Some(d) => d,
                    None => Seq::empty(),
                };
                let outcome = spec_insert_batch(docs0, views_of_docs(docs@));
                &&& final(self).cols() == assoc_update(old(self).cols(), collection@, outcome.0)
                &&& match r {
                    Ok(_) => outcome.1 is None,
                    Err(e) => {
                        &&& outcome.1 is Some
                        &&& e matches DocumentStoreError::DocumentAlreadyExists(id, c) && Some(id)
                            == outcome.1 && c@ == collection@
                    },
                }
            }),
    {
        self.store.insert_documents(docs, collection)
    }

    /// Replaces the records carrying the batch's ids, in order; the batch
    /// semantics are those of the store's update.
    pub fn update(&mut self, collection: &str, docs: Vec<(u128, Value)>) -> (r:
        DocumentStoreResult<()>)
        ensures
            match assoc_lookup(old(self).cols(), collection@) {
                None => {
                    &&& final(self).cols() == old(self).cols()
                    &&& r matches Err(e) && e matches DocumentStoreError::CollectionNotFound(c)
                        && c@ == collection@
                },
                Some(docs0) => {
                    let outcome = spec_update_batch(docs0, views_of_docs(docs@));
                    &&& final(self).cols() == assoc_update(
                        old(self).cols(),
                        collection@,
                        outcome.0,
                    )
                    &&& match r {
                        Ok(_) => outcome.1 is None,
                        Err(e) => {
                            &&& outcome.1 is Some
                            &&& e matches DocumentStoreError::DocumentNotFound(id, c) && Some(id)
                                == outcome.1 && c@ == collection@
                        },
                    }
                },
            },
    {
        self.store.update_documents(docs, collection)
    }

    /// Removes the records carrying the given ids, in order; the batch
    /// semantics are those of the store's delete.
    pub fn delete(&mut self, collection: &str, ids: Vec<u128>) -> (r: DocumentStoreResult<()>)
        ensures
            match assoc_lookup(old(self).cols(), collection@) {
                None => {
                    &&& final(self).cols() == old(self).cols()
                    &&& r matches Err(e) && e matches DocumentStoreError::CollectionNotFound(c)
                        && c@ == collection@
                },
                Some(docs0) => {
                    let outcome = spec_delete_batch(docs0, ids@);
                    &&& final(self).cols() == assoc_update(
                        old(self).cols(),
                        collection@,
                        outcome.0,
                    )
                    &&& match r {
                        Ok(_) => outcome.1 is None,
                        Err(e) => {
                            &&& outcome.1 is Some
                            &&& e matches DocumentStoreError::DocumentNotFound(id, c) && Some(id)
                                == outcome.1 && c@ == collection@
                        },
                    }
                },
            },
    {
        self.store.delete_documents(ids, collection)
    }

    /// The records carrying the given ids, in request order; missing ids
    /// are omitted, and a missing collection yields no records.
    pub fn get(&self, collection: &str, ids: Vec<u128>) -> (r: DocumentStoreResult<Vec<Value>>)
        ensures
            match assoc_lookup(self.cols(), collection@) {
                None => r matches Ok(out) && out@.len() == 0,
                Some(docs) => r matches Ok(out) && views_of_seq(out@) == spec_get_batch(
                    docs,
                    ids@,
                ),
            },
    {
        self.store.get_documents(ids, collection)
    }

    /// Runs a query over the collection's records; the semantics are those
    /// of the store's query.
    pub fn query(&self, collection: &str, query: &Query) -> (r: DocumentStoreResult<Vec<Value>>)
        ensures
            match assoc_lookup(self.cols(), collection@) {
                None => r matches Ok(out) && out@.len() == 0,
                Some(docs) => {
                    let vals = values_of(docs);
                    match r {
                        Ok(out) => {
                            &&& (query@.filter is Some ==> records_wf(vals))
                            &&& views_of_seq(out@) == run_query(vals, query@)
                        },
                        Err(e) => {
                            &&& query@.filter is Some
                            &&& !records_wf(vals)
                            &&& e is InvalidDocument
                        },
                    }
                },
            },
    {
        self.store.query_documents(query, collection)
    }
}

/// The parent and child adjacency a set of migration steps declares:
/// one link per step with a predecessor, in declaration order.
#[derive(Debug)]
pub struct RevisionGraph {
    /// The declared links, each a step id and its predecessor id.
    pub links: Vec<(String, String)>,
}

impl View for RevisionGraph {
    type V = LinksView;

    open spec fn view(&self) -> LinksView {
        views_of_links(self.links@)
    }
}

impl RevisionGraph {
    /// The graph a set of steps declares; each step is an id and an optional
    /// predecessor id.
    pub fn new(steps: &Vec<(String, Option<String>)>) -> (r: RevisionGraph)
        ensures
            r@ == links_of(views_of_steps(steps@)),
    {
        let ghost sv = views_of_steps(steps@);
        let mut links: Vec<(String, String)> = Vec::new();
        let mut k: usize = 0;
        proof {
            assert(sv.skip(0) =~= sv);
        }
        while k < steps.len()
            invariant
                k <= steps@.len(),
                sv == views_of_steps(steps@),
                sv.len() == steps@.len(),
                links_of(sv) == views_of_links(links@) + links_of(sv.skip(k as int)),
            decreases steps@.len() - k,
        {
            let ghost lv = views_of_links(links@);
            proof {
                assert(sv.skip(k as int)[0] == sv[k as int]);
                assert(sv.skip(k as int).drop_first() =~= sv.skip(k + 1));
            }
            match &steps[k].1 {
                Some(p) => {
                    links.push((steps[k].0.clone(), p.clone()));
                    proof {
                        assert(views_of_links(links@) =~= lv.push((sv[k as int].0, sv[k as int].1->0)));
                        assert(lv + (seq![(sv[k as int].0, sv[k as int].1->0)] + links_of(sv.skip(k + 1)))
                            =~= views_of_links(links@) + links_of(sv.skip(k + 1)));
                    }
                },
                None => {
                    proof {
                        assert(lv + (Seq::<(Seq<char>, Seq<char>)>::empty() + links_of(sv.skip(k + 1)))
                            =~= views_of_links(links@) + links_of(sv.skip(k + 1)));
                    }
                },
            }
            k = k + 1;
        }
        proof {
            assert(sv.skip(steps@.len() as int) =~= Seq::<(Seq<char>, Option<Seq<char>>)>::empty());
            assert(links_of(sv) =~= views_of_links(links@));
        }
        RevisionGraph { links }
    }

    /// The nodes one edge away from `node` in the given direction.
    #[verifier::loop_isolation(false)]
    fn next_nodes(&self, node: &str, direction: &MigrationDirection) -> (r: Vec<String>)
        ensures
            views_of_names(r@) == nbrs(self@, *direction, node@),
    {
        let ghost lv = self@;
        match direction {
            MigrationDirection::Up => {
                let mut out: Vec<String> = Vec::new();
                let mut k: usize = 0;
                proof {
                    assert(lv.skip(0) =~= lv);
                }
                while k < self.links.len()
                    invariant
                        k <= self.links@.len(),
                        up_nbrs(lv, node@) == views_of_names(out@) + up_nbrs(
                            lv.skip(k as int),
                            node@,
                        ),
                    decreases self.links@.len() - k,
                {
                    let ghost ov = views_of_names(out@);
                    proof {
                        assert(lv.skip(k as int)[0] == lv[k as int]);
                        assert(lv.skip(k as int).drop_first() =~= lv.skip(k + 1));
                    }
                    if str_eq(self.links[k].1.as_str(), node) {
                        out.push(self.links[k].0.clone());
                        proof {
                            assert(views_of_names(out@) =~= ov.push(lv[k as int].0));
                            assert(ov + (seq![lv[k as int].0] + up_nbrs(lv.skip(k + 1), node@))
                                =~= views_of_names(out@) + up_nbrs(lv.skip(k + 1), node@));
                        }
                    }
                    k = k + 1;
                }
                proof {
                    assert(lv.skip(self.links@.len() as int) =~= Seq::<
                        (Seq<char>, Seq<char>),
                    >::empty());
                    assert(up_nbrs(lv, node@) =~= views_of_names(out@));
                }
                out
            },
            MigrationDirection::Down => {
                let mut k: usize = 0;
                while k < self.links.len()
                    invariant
                        k <= self.links@.len(),
                        forall|t: int| 0 <= t < k ==> (#[trigger] lv[t]).0 != node@,
                    decreases self.links@.len() - k,
                {
                    if str_eq(self.links[k].0.as_str(), node) {
                        proof {
                            lemma_assoc_lookup_found(lv, node@, k as int);
                        }
                        let mut out: Vec<String> = Vec::new();
                        out.push(self.links[k].1.clone());
                        proof {
                            assert(views_of_names(out@) =~= seq![lv[k as int].1]);
                        }
                        return out;
                    }
                    k = k + 1;
                }
                proof {
                    lemma_assoc_lookup_none(lv, node@);
                    assert(views_of_names(Seq::<String>::empty()) =~= Seq::<Seq<char>>::empty());
                }
                Vec::new()
            },
        }
    }

    /// A path from `from` to `to` along the graph's edges in the given
    /// direction, when one exists.
    ///
    /// A returned path always walks existing edges from `from` to `to`;
    /// nothing is returned exactly when no such path exists. When several
    /// paths exist in a branching graph, which one is found depends on the
    /// declaration order of the steps.
    #[verifier::loop_isolation(false)]
    #[verifier::rlimit(100)]
    pub fn find_path(&self, from: &str, to: &str, direction: &MigrationDirection) -> (r: Option<
        Vec<String>,
    >)
        ensures
            match r {
                Some(p) => valid_path(self@, *direction, views_of_names(p@), from@, to@),
                None => !reachable(self@, *direction, from@, to@),
            },
            from@ == to@ ==> (r matches Some(p) && views_of_names(p@) == seq![from@]),
    {
        let ghost lv = self@;
        let ghost dir = *direction;
        if str_eq(from, to) {
            let mut p: Vec<String> = Vec::new();
            p.push(from.to_owned());
            proof {
                assert(views_of_names(p@) =~= seq![from@]);
                assert(valid_path(lv, dir, seq![from@], from@, to@));
            }
            return Some(p);
        }
        let ghost uni = seq![from@] + Seq::new(lv.len(), |i: int| lv[i].0) + Seq::new(
            lv.len(),
            |i: int| lv[i].1,
        );
        let mut visited: Vec<String> = Vec::new();
        let mut stack: Vec<(String, Vec<String>)> = Vec::new();
        let mut first_path: Vec<String> = Vec::new();
        first_path.push(from.to_owned());
        proof {
            assert(views_of_names(first_path@) =~= seq![from@]);
        }
        stack.push((from.to_owned(), first_path));
        proof {
            assert(uni.contains(from@)) by {
                assert(uni[0] == from@);
            }
            assert(views_of_paths(stack@) =~= seq![(from@, seq![from@])]);
            assert(stack_has(views_of_paths(stack@), from@)) by {
                assert(views_of_paths(stack@)[0].0 == from@);
            }
        }
        while stack.len() > 0
            invariant
                views_of_names(visited@).no_duplicates(),
                forall|i: int|
                    0 <= i < visited@.len() ==> uni.contains(#[trigger] views_of_names(visited@)[i]),
                views_of_names(visited@).len() <= uni.len(),
                forall|i: int|
                    0 <= i < stack@.len() ==> valid_path(
                        lv,
                        dir,
                        (#[trigger] views_of_paths(stack@)[i]).1,
                        from@,
                        views_of_paths(stack@)[i].0,
                    ),
                forall|i: int|
                    0 <= i < stack@.len() ==> uni.contains(
                        (#[trigger] views_of_paths(stack@)[i]).0,
                    ),
                !views_of_names(visited@).contains(to@),
                forall|i: int| 0 <= i < stack@.len() ==> (#[trigger] views_of_paths(stack@)[i]).0 != to@,
                views_of_names(visited@).contains(from@) || stack_has(
                    views_of_paths(stack@),
                    from@,
                ),
                forall|u: Seq<char>, c: Seq<char>|
                    views_of_names(visited@).contains(u) && #[trigger] step_edge(lv, dir, u, c)
                        ==> c != to@ && (views_of_names(visited@).contains(c) || stack_has(
                        views_of_paths(stack@),
                        c,
                    )),
            decreases uni.len() - visited@.len(), stack@.len(),
        {
            let ghost stack_before = views_of_paths(stack@);
            let popped = stack.pop();
            let (cur, path) = match popped {
                Some(t) => t,
                None => {
                    return None;
                },
            };
            proof {
                assert(views_of_paths(stack@) =~= stack_before.drop_last());
                assert((cur@, views_of_names(path@)) == stack_before[stack_before.len() - 1]);
            }
            if !names_contain(&visited, cur.as_str()) {
                let ghost visited_before = views_of_names(visited@);
                visited.push(cur.clone());
                proof {
                    assert(views_of_names(visited@) =~= visited_before.push(cur@));
                    assert(views_of_names(visited@).no_duplicates()) by {
                        let vv = views_of_names(visited@);
                        assert forall|i: int, j: int| 0 <= i < j < vv.len() implies vv[i] != vv[j]
                        by {
                            if j == vv.len() - 1 {
                                assert(visited_before[i] != cur@);
                            }
                        }
                    }
                    lemma_unique_len_le(views_of_names(visited@), uni);
                    let vis2 = views_of_names(visited@);
                    let sv2 = views_of_paths(stack@);
                    assert(vis2.contains(cur@)) by {
                        assert(vis2[vis2.len() - 1] == cur@);
                    }
                    assert(vis2.contains(from@) || stack_has(sv2, from@)) by {
                        if visited_before.contains(from@) {
                            let w = choose|w: int|
                                0 <= w < visited_before.len() && visited_before[w] == from@;
                            assert(vis2[w] == from@);
                        } else if from@ == cur@ {
                            assert(vis2.contains(cur@));
                        } else {
                            let w = choose|w: int|
                                0 <= w < stack_before.len() && (#[trigger] stack_before[w]).0
                                    == from@;
                            assert(stack_before[stack_before.len() - 1].0 == cur@);
                            assert(w < stack_before.len() - 1);
                            assert(sv2[w].0 == from@);
                        }
                    }
                    assert forall|u: Seq<char>, c: Seq<char>|
                        vis2.contains(u) && u != cur@ && #[trigger] step_edge(lv, dir, u, c)
                        implies c != to@ && (vis2.contains(c) || stack_has(sv2, c)) by {
                        let wu = choose|w: int| 0 <= w < vis2.len() && vis2[w] == u;
                        assert(wu < vis2.len() - 1);
                        assert(visited_before.contains(u)) by {
                            assert(visited_before[wu] == u);
                        }
                        assert(c != to@ && (visited_before.contains(c) || stack_has(
                            stack_before,
                            c,
                        )));
                        if visited_before.contains(c) {
                            let w = choose|w: int|
                                0 <= w < visited_before.len() && visited_before[w] == c;
                            assert(vis2[w] == c);
                        } else {
                            let w = choose|w: int|
                                0 <= w < stack_before.len() && (#[trigger] stack_before[w]).0 == c;
                            if w < stack_before.len() - 1 {
                                assert(sv2[w].0 == c);
                            } else {
                                assert(c == cur@);
                            }
                        }
                    }
                }
                let ns = self.next_nodes(cur.as_str(), direction);
                let ghost nsv = views_of_names(ns@);
                let mut j: usize = 0;
                while j < ns.len()
                    invariant
                        j <= ns@.len(),
                        forall|t: int| 0 <= t < j ==> (#[trigger] nsv[t]) != to@,
                        forall|t: int|
                            0 <= t < j ==> stack_has(views_of_paths(stack@), #[trigger] nsv[t]),
                        forall|i: int|
                            0 <= i < stack@.len() ==> valid_path(
                                lv,
                                dir,
                                (#[trigger] views_of_paths(stack@)[i]).1,
                                from@,
                                views_of_paths(stack@)[i].0,
                            ),
                        forall|i: int|
                            0 <= i < stack@.len() ==> uni.contains(
                                (#[trigger] views_of_paths(stack@)[i]).0,
                            ),
                        forall|i: int|
                            0 <= i < stack@.len() ==> (#[trigger] views_of_paths(stack@)[i]).0
                                != to@,
                        views_of_names(visited@).contains(from@) || stack_has(
                            views_of_paths(stack@),
                            from@,
                        ),
                        forall|u: Seq<char>, c: Seq<char>|
                            views_of_names(visited@).contains(u) && u != cur@ && #[trigger] step_edge(
                                lv,
                                dir,
                                u,
                                c,
                            ) ==> c != to@ && (views_of_names(visited@).contains(c) || stack_has(
                                views_of_paths(stack@),
                                c,
                            )),
                    decreases ns@.len() - j,
                {
                    let ghost stack_inner = views_of_paths(stack@);
                    proof {
                        assert(nsv.contains(nsv[j as int])) by {
                            assert(0 <= j < nsv.len());
                        }
                        lemma_nbrs_edge(lv, dir, cur@, nsv[j as int]);
                        assert(step_edge(lv, dir, cur@, nsv[j as int]));
                    }
                    if str_eq(ns[j].as_str(), to) {
                        let mut res = path;
                        res.push(to.to_owned());
                        proof {
                            let pv = views_of_names(res@);
                            let old_pv = stack_before[stack_before.len() - 1].1;
                            assert(pv =~= old_pv.push(to@));
                            assert(valid_path(lv, dir, old_pv, from@, cur@));
                            assert(valid_path(lv, dir, pv, from@, to@)) by {
                                assert(pv[0] == from@);
                                assert(pv[pv.len() - 1] == to@);
                                assert forall|i: int| 0 <= i < pv.len() - 1 implies step_edge(
                                    lv,
                                    dir,
                                    #[trigger] pv[i],
                                    pv[i + 1],
                                ) by {
                                    if i < pv.len() - 2 {
                                        assert(pv[i] == old_pv[i] && pv[i + 1] == old_pv[i + 1]);
                                        assert(step_edge(lv, dir, old_pv[i], old_pv[i + 1]));
                                    } else {
                                        assert(pv[i] == old_pv[old_pv.len() - 1]);
                                        assert(pv[i] == cur@ && pv[i + 1] == to@);
                                        assert(step_edge(lv, dir, cur@, to@));
                                    }
                                }
                            }
                        }
                        return Some(res);
                    }
                    let mut next_path = clone_names(&path);
                    next_path.push(ns[j].clone());
                    proof {
                        assert(views_of_names(next_path@) =~= stack_before[stack_before.len()
                            - 1].1.push(nsv[j as int]));
                    }
                    stack.push((ns[j].clone(), next_path));
                    proof {
                        let sv2 = views_of_paths(stack@);
                        assert(sv2 =~= stack_inner.push((nsv[j as int], views_of_names(
                            next_path@,
                        ))));
                        assert forall|c: Seq<char>| stack_has(stack_inner, c) implies stack_has(
                            sv2,
                            c,
                        ) by {
                            let w = choose|w: int|
                                0 <= w < stack_inner.len() && (#[trigger] stack_inner[w]).0 == c;
                            assert(sv2[w].0 == c);
                        }
                        assert(valid_path(lv, dir, sv2[sv2.len() - 1].1, from@, nsv[j as int])) by {
                            let pv = views_of_names(next_path@);
                            let old_pv = stack_before[stack_before.len() - 1].1;
                            assert(valid_path(lv, dir, old_pv, from@, cur@));
                            assert(pv[0] == from@);
                            assert(pv[pv.len() - 1] == nsv[j as int]);
                            assert forall|i: int| 0 <= i < pv.len() - 1 implies step_edge(
                                lv,
                                dir,
                                #[trigger] pv[i],
                                pv[i + 1],
                            ) by {
                                if i < pv.len() - 2 {
                                    assert(pv[i] == old_pv[i] && pv[i + 1] == old_pv[i + 1]);
                                    assert(step_edge(lv, dir, old_pv[i], old_pv[i + 1]));
                                } else {
                                    assert(pv[i] == cur@ && pv[i + 1] == nsv[j as int]);
                                }
                            }
                        }
                        assert(uni.contains(nsv[j as int])) by {
                            match dir {
                                MigrationDirection::Up => {
                                    let i = choose|i: int|
                                        0 <= i < lv.len() && (#[trigger] lv[i]).0 == nsv[j as int]
                                            && lv[i].1 == cur@;
                                    assert(Seq::new(lv.len(), |t: int| lv[t].0)[i] == lv[i].0);
                                    assert(uni[1 + i] == lv[i].0);
                                },
                                MigrationDirection::Down => {
                                    assert(assoc_lookup(lv, cur@) == Some(nsv[j as int]));
                                    crate::assoc::lemma_assoc_lookup_index(lv, cur@);
                                    let w = choose|w: int|
                                        0 <= w < lv.len() && #[trigger] lv[w] == (
                                            cur@,
                                            nsv[j as int],
                                        );
                                    assert(Seq::new(lv.len(), |i: int| lv[i].1)[w] == lv[w].1);
                                    assert(uni[1 + lv.len() + w] == lv[w].1);
                                },
                            }
                        }
                        assert(forall|t: int|
                            0 <= t < j + 1 ==> stack_has(views_of_paths(stack@), #[trigger] nsv[t]))
                            by {
                            assert forall|t: int| 0 <= t < j + 1 implies stack_has(
                                views_of_paths(stack@),
                                #[trigger] nsv[t],
                            ) by {
                                if t < j {
                                    let w = choose|w: int|
                                        0 <= w < stack_inner.len() && (#[trigger] stack_inner[w]).0
                                            == nsv[t];
                                    assert(sv2[w].0 == nsv[t]);
                                } else {
                                    assert(sv2[sv2.len() - 1].0 == nsv[t]);
                                }
                            }
                        }
                    }
                    j = j + 1;
                }
                proof {
                    let sv_end = views_of_paths(stack@);
                    let vis_end = views_of_names(visited@);
                    assert forall|u: Seq<char>, c: Seq<char>|
                        vis_end.contains(u) && #[trigger] step_edge(lv, dir, u, c) implies c != to@
                        && (vis_end.contains(c) || stack_has(sv_end, c)) by {
                        if u == cur@ {
                            lemma_nbrs_edge(lv, dir, cur@, c);
                            assert(nsv.contains(c));
                            let t = choose|t: int| 0 <= t < nsv.len() && nsv[t] == c;
                            assert(nsv[t] != to@ && stack_has(sv_end, nsv[t]));
                        }
                    }
                }
            } else {
                proof {
                    let vis = views_of_names(visited@);
                    let sv_end = views_of_paths(stack@);
                    assert forall|u: Seq<char>, c: Seq<char>|
                        vis.contains(u) && #[trigger] step_edge(lv, dir, u, c) implies c != to@ && (
                    vis.contains(c) || stack_has(sv_end, c)) by {
                        if !vis.contains(c) {
                            let w = choose|w: int|
                                0 <= w < stack_before.len() && (#[trigger] stack_before[w]).0 == c;
                            if w < stack_before.len() - 1 {
                                assert(sv_end[w].0 == c);
                            } else {
                                assert(c == cur@);
                                assert(vis.contains(cur@));
                            }
                        }
                    }
                    assert(views_of_names(visited@).contains(from@) || stack_has(
                        views_of_paths(stack@),
                        from@,
                    )) by {
                        if !views_of_names(visited@).contains(from@) {
                            let w = choose|w: int|
                                0 <= w < stack_before.len() && (#[trigger] stack_before[w]).0
                                    == from@;
                            if w < stack_before.len() - 1 {
                                assert(sv_end[w].0 == from@);
                            } else {
                                assert(from@ == cur@);
                            }
                        }
                    }
                }
            }
        }
        proof {
            assert(views_of_names(visited@).contains(from@)) by {
                assert(views_of_paths(stack@).len() == 0);
            }
            assert(!reachable(lv, dir, from@, to@)) by {
                if reachable(lv, dir, from@, to@) {
                    let p = choose|p: Seq<Seq<char>>| valid_path(lv, dir, p, from@, to@);
                    assert forall|u: Seq<char>, c: Seq<char>|
                        views_of_names(visited@).contains(u) && #[trigger] step_edge(lv, dir, u, c)
                        implies c != to@ && views_of_names(visited@).contains(c) by {
                        assert(!stack_has(views_of_paths(stack@), c));
                    }
                    lemma_closed_no_path(lv, dir, views_of_names(visited@), from@, to@, p);
                }
            }
        }
        None
    }

    /// A forward path from `from` to `to` along child edges, when one
    /// exists.
    pub fn find_up_path(&self, from: &str, to: &str) -> (r: Option<Vec<String>>)
        ensures
            match r {
                Some(p) => valid_path(
                    self@,
                    MigrationDirection::Up,
                    views_of_names(p@),
                    from@,
                    to@,
                ),
                None => !reachable(self@, MigrationDirection::Up, from@, to@),
            },
            from@ == to@ ==> (r matches Some(p) && views_of_names(p@) == seq![from@]),
    {
        self.find_path(from, to, &MigrationDirection::Up)
    }

    /// A backward path from `from` to `to` along predecessor edges, when one
    /// exists.
    pub fn find_down_path(&self, from: &str, to: &str) -> (r: Option<Vec<String>>)
        ensures
            match r {
                Some(p) => valid_path(
                    self@,
                    MigrationDirection::Down,
                    views_of_names(p@),
                    from@,
                    to@,
                ),
                None => !reachable(self@, MigrationDirection::Down, from@, to@),
            },
            from@ == to@ ==> (r matches Some(p) && views_of_names(p@) == seq![from@]),
    {
        self.find_path(from, to, &MigrationDirection::Down)
    }
}


/// One migration step: a unique id, an optional predecessor id that places
/// it in the revision graph, and the effects that carry a store forward or
/// backward across it. Implemented by the embedding application's steps.
pub trait Migration {
    /// The unique identifier of this step.
    fn id(&self) -> String;

    /// The identifier of the step this one follows; the initial step
    /// has none.
    fn previous_id(&self) -> Option<String>;

    /// Applies this step's schema change through the operation context.
    fn up(&self, op: &mut MigrateOp) -> DocumentStoreResult<()>;

    /// Reverses this step's schema change through the operation context.
    fn down(&self, op: &mut MigrateOp) -> DocumentStoreResult<()>;
}

/// Whether some step in the snapshot carries this id.
pub open spec fn is_step_id(idsv: Seq<(Seq<char>, Option<Seq<char>>)>, id: Seq<char>) -> bool {
    exists|i: int| 0 <= i < idsv.len() && (#[trigger] idsv[i]).0 == id
}

/// Whether some step declares this id as its predecessor.
pub open spec fn has_children(links: LinksView, id: Seq<char>) -> bool {
    exists|k: int| 0 <= k < links.len() && (#[trigger] links[k]).1 == id
}

/// The first step id, in registration order, that no step declares as its
/// predecessor: the head of the revision graph.
pub open spec fn first_head(
    idsv: Seq<(Seq<char>, Option<Seq<char>>)>,
    links: LinksView,
) -> Option<Seq<char>>
    decreases idsv.len(),
{
    if idsv.len() == 0 {
        None
    } else if !has_children(links, idsv[0].0) {
        Some(idsv[0].0)
    } else {
        first_head(idsv.drop_first(), links)
    }
}

/// The first step id, in registration order, that declares no predecessor:
/// the tail of the revision graph.
pub open spec fn first_tail(
    idsv: Seq<(Seq<char>, Option<Seq<char>>)>,
    links: LinksView,
) -> Option<Seq<char>>
    decreases idsv.len(),
{
    if idsv.len() == 0 {
        None
    } else if assoc_lookup(links, idsv[0].0) is None {
        Some(idsv[0].0)
    } else {
        first_tail(idsv.drop_first(), links)
    }
}

/// Where a migration starts: the store's current revision when one is set;
/// otherwise the graph tail going up and the graph head going down, falling
/// back to the empty id when the graph has neither.
pub open spec fn apply_start(
    idsv: Seq<(Seq<char>, Option<Seq<char>>)>,
    links: LinksView,
    revision: Option<Seq<char>>,
    dir: MigrationDirection,
) -> Seq<char> {
    match revision {
        Some(s) => s,
        None => match dir {
            MigrationDirection::Up => match first_tail(idsv, links) {
                Some(t) => t,
                None => Seq::empty(),
            },
            MigrationDirection::Down => match first_head(idsv, links) {
                Some(h) => h,
                None => Seq::empty(),
            },
        },
    }
}

impl RevisionGraph {
    /// Whether some step declares this id as its predecessor.
    fn id_has_children(&self, id: &str) -> (r: bool)
        ensures
            r == has_children(self@, id@),
    {
        let ghost lv = self@;
        let mut k: usize = 0;
        while k < self.links.len()
            invariant
                k <= self.links@.len(),
                lv == views_of_links(self.links@),
                lv.len() == self.links@.len(),
                forall|t: int| 0 <= t < k ==> (#[trigger] lv[t]).1 != id@,
            decreases self.links@.len() - k,
        {
            if str_eq(self.links[k].1.as_str(), id) {
                proof {
                    assert(lv[k as int].1 == id@);
                }
                return true;
            }
            k = k + 1;
        }
        false
    }

    /// Whether this id declares a predecessor.
    fn id_has_parent(&self, id: &str) -> (r: bool)
        ensures
            r == (assoc_lookup(self@, id@) is Some),
    {
        let ghost lv = self@;
        let mut k: usize = 0;
        while k < self.links.len()
            invariant
                k <= self.links@.len(),
                lv == views_of_links(self.links@),
                lv.len() == self.links@.len(),
                forall|t: int| 0 <= t < k ==> (#[trigger] lv[t]).0 != id@,
            decreases self.links@.len() - k,
        {
            if str_eq(self.links[k].0.as_str(), id) {
                proof {
                    lemma_assoc_lookup_found(lv, id@, k as int);
                }
                return true;
            }
            k = k + 1;
        }
        proof {
            lemma_assoc_lookup_none(lv, id@);
        }
        false
    }
}

/// The registered migration steps with a snapshot of their ids and
/// predecessors, and the revision graph those declarations form.
pub struct RevisionChain<M> {
    /// The registered steps, in registration order.
    pub steps: Vec<M>,
    /// Each step's id and predecessor id, read once at registration.
    pub ids: Vec<(String, Option<String>)>,
    /// The revision graph the declarations form.
    pub graph: RevisionGraph,
}

impl<M: Migration> RevisionChain<M> {
    /// The chain is consistent: one snapshot per step, and the graph is the
    /// one the snapshot declares.
    pub open spec fn wf(&self) -> bool {
        &&& self.ids@.len() == self.steps@.len()
        &&& self.graph@ == links_of(views_of_steps(self.ids@))
    }

    /// Registers the steps: reads each step's id and predecessor once and
    /// builds the revision graph from those declarations.
    pub fn new(migrations: Vec<M>) -> (r: RevisionChain<M>)
        ensures
            r.wf(),
            r.steps@.len() == migrations@.len(),
    {
        let mut ids: Vec<(String, Option<String>)> = Vec::new();
        let mut k: usize = 0;
        while k < migrations.len()
            invariant
                k <= migrations@.len(),
                ids@.len() == k as int,
            decreases migrations@.len() - k,
        {
            let sid = migrations[k].id();
            let prev = migrations[k].previous_id();
            ids.push((sid, prev));
            k = k + 1;
        }
        let graph = RevisionGraph::new(&ids);
        RevisionChain { steps: migrations, ids, graph }
    }

    /// The position of the first registered step carrying this id.
    #[verifier::loop_isolation(false)]
    fn get_index(&self, id: &str) -> (r: Option<usize>)
        requires
            self.wf(),
        ensures
            match r {
                Some(i) => i < self.steps@.len() && views_of_steps(self.ids@)[i as int].0 == id@,
                None => !is_step_id(views_of_steps(self.ids@), id@),
            },
    {
        let ghost idsv = views_of_steps(self.ids@);
        let mut k: usize = 0;
        while k < self.ids.len()
            invariant
                k <= self.ids@.len(),
                idsv == views_of_steps(self.ids@),
                idsv.len() == self.ids@.len(),
                forall|t: int| 0 <= t < k ==> (#[trigger] idsv[t]).0 != id@,
            decreases self.ids@.len() - k,
        {
            if str_eq(self.ids[k].0.as_str(), id) {
                return Some(k);
            }
            k = k + 1;
        }
        None
    }

    /// The head of the revision graph: the first registered step that no
    /// step declares as its predecessor, when one exists.
    pub fn head(&self) -> (r: Option<String>)
        requires
            self.wf(),
        ensures
            match r {
                Some(h) => first_head(views_of_steps(self.ids@), self.graph@) == Some(h@),
                None => first_head(views_of_steps(self.ids@), self.graph@) is None,
            },
    {
        let ghost idsv = views_of_steps(self.ids@);
        let ghost lv = self.graph@;
        let mut k: usize = 0;
        proof {
            assert(idsv.skip(0) =~= idsv);
        }
        while k < self.ids.len()
            invariant
                k <= self.ids@.len(),
                idsv == views_of_steps(self.ids@),
                idsv.len() == self.ids@.len(),
                lv == self.graph@,
                first_head(idsv, lv) == first_head(idsv.skip(k as int), lv),
            decreases self.ids@.len() - k,
        {
            proof {
                assert(idsv.skip(k as int)[0] == idsv[k as int]);
                assert(idsv.skip(k as int).drop_first() =~= idsv.skip(k + 1));
            }
            if !self.graph.id_has_children(self.ids[k].0.as_str()) {
                return Some(self.ids[k].0.clone());
            }
            k = k + 1;
        }
        proof {
            assert(idsv.skip(self.ids@.len() as int) =~= Seq::<
                (Seq<char>, Option<Seq<char>>),
            >::empty());
        }
        None
    }

    /// The tail of the revision graph: the first registered step that
    /// declares no predecessor, when one exists.
    pub fn tail(&self) -> (r: Option<String>)
        requires
            self.wf(),
        ensures
            match r {
                Some(t) => first_tail(views_of_steps(self.ids@), self.graph@) == Some(t@),
                None => first_tail(views_of_steps(self.ids@), self.graph@) is None,
            },
    {
        let ghost idsv = views_of_steps(self.ids@);
        let ghost lv = self.graph@;
        let mut k: usize = 0;
        proof {
            assert(idsv.skip(0) =~= idsv);
        }
        while k < self.ids.len()
            invariant
                k <= self.ids@.len(),
                idsv == views_of_steps(self.ids@),
                idsv.len() == self.ids@.len(),
                lv == self.graph@,
                first_tail(idsv, lv) == first_tail(idsv.skip(k as int), lv),
            decreases self.ids@.len() - k,
        {
            proof {
                assert(idsv.skip(k as int)[0] == idsv[k as int]);
                assert(idsv.skip(k as int).drop_first() =~= idsv.skip(k + 1));
            }
            if !self.graph.id_has_parent(self.ids[k].0.as_str()) {
                return Some(self.ids[k].0.clone());
            }
            k = k + 1;
        }
        proof {
            assert(idsv.skip(self.ids@.len() as int) =~= Seq::<
                (Seq<char>, Option<Seq<char>>),
            >::empty());
        }
        None
    }

    /// The ids of an upgrade path from `from` to `to`, when one exists.
    pub fn get_upgrade_path(&self, from: &str, to: &str) -> (r: Option<Vec<String>>)
        ensures
            match r {
                Some(p) => valid_path(
                    self.graph@,
                    MigrationDirection::Up,
                    views_of_names(p@),
                    from@,
                    to@,
                ),
                None => !reachable(self.graph@, MigrationDirection::Up, from@, to@),
            },
            from@ == to@ ==> (r matches Some(p) && views_of_names(p@) == seq![from@]),
    {
        self.graph.find_up_path(from, to)
    }

    /// The ids of a downgrade path from `from` to `to`, when one exists.
    pub fn get_downgrade_path(&self, from: &str, to: &str) -> (r: Option<Vec<String>>)
        ensures
            match r {
                Some(p) => valid_path(
                    self.graph@,
                    MigrationDirection::Down,
                    views_of_names(p@),
                    from@,
                    to@,
                ),
                None => !reachable(self.graph@, MigrationDirection::Down, from@, to@),
            },
            from@ == to@ ==> (r matches Some(p) && views_of_names(p@) == seq![from@]),
    {
        self.graph.find_down_path(from, to)
    }
}

/// Applies migrations to an in-memory store: resolves the path from the
/// store's current revision to a target revision and walks it step by step,
/// persisting each step's id as the new current revision right after that
/// step's effect succeeds.
pub struct MigrationRunner<M> {
    /// The registered steps and their revision graph.
    pub chain: RevisionChain<M>,
}

impl<M: Migration> MigrationRunner<M> {
    /// A runner over the given steps.
    pub fn new(migrations: Vec<M>) -> (r: MigrationRunner<M>)
        ensures
            r.chain.wf(),
    {
        MigrationRunner { chain: RevisionChain::new(migrations) }
    }

    /// Migrates the store to the target revision in the given direction.
    ///
    /// The walk starts at the store's current revision; when none is set, an
    /// upgrade starts at the graph tail and a downgrade at the graph head.
    /// Fails with a migration error naming both endpoints exactly when no
    /// path leads from that start to the target, leaving the store
    /// untouched. Each step's effect runs in path order through an operation
    /// context that cannot reach the revision marker; right after a step
    /// succeeds, its id is persisted as the current revision, and the first
    /// failing effect aborts the walk with its error, so the revision stays
    /// at the last completed step. A path id with no registered step is
    /// skipped. On success, when the target is a registered step, the
    /// current revision ends at the target.
    #[verifier::loop_isolation(false)]
    pub fn apply(
        &self,
        store: &mut crate::store::InMemoryStore,
        target_revision: &str,
        direction: &MigrationDirection,
    ) -> (r: DocumentStoreResult<()>)
        requires
            self.chain.wf(),
        ensures
            apply_contract(
                views_of_steps(self.chain.ids@),
                self.chain.graph@,
                *direction,
                target_revision@,
                old(store)@,
                final(store)@,
                r,
            ),
    {
        let ghost idsv = views_of_steps(self.chain.ids@);
        let ghost from0 = apply_start(idsv, self.chain.graph@, store@.revision, *direction);
        let current = store.current_revision_id();
        let from: String = match current {
            Some(s) => s,
            None => match direction {
                MigrationDirection::Up => match self.chain.tail() {
                    Some(t) => t,
                    None => String::new(),
                },
                MigrationDirection::Down => match self.chain.head() {
                    Some(h) => h,
                    None => String::new(),
                },
            },
        };
        proof {
            assert(from@ == from0);
        }
        let path = match self.chain.graph.find_path(from.as_str(), target_revision, direction) {
            Some(p) => p,
            None => {
                let mut detail = String::new();
                detail.append("no path from ");
                detail.append(from.as_str());
                detail.append(" to ");
                detail.append(target_revision);
                proof {
                    assert(detail@ =~= no_path_detail(from0, target_revision@));
                }
                return Err(DocumentStoreError::Migration(detail));
            },
        };
        let ghost pathv = views_of_names(path@);
        proof {
            assert(reachable(self.chain.graph@, *direction, from0, target_revision@));
        }
        let mut k: usize = 0;
        while k < path.len()
            invariant
                k <= path@.len(),
                (k > 0 && is_step_id(idsv, pathv[k as int - 1])) ==> store@.revision == Some(
                    pathv[k as int - 1],
                ),
                store@.revision == old(store)@.revision || (exists|id: Seq<char>|
                    #[trigger] is_step_id(idsv, id) && store@.revision == Some(id)),
                (forall|t: int| 0 <= t < k ==> !is_step_id(idsv, #[trigger] pathv[t]))
                    ==> store@ == old(store)@,
            decreases path@.len() - k,
        {
            match self.chain.get_index(path[k].as_str()) {
                Some(mi) => {
                    let mut cols: Vec<(String, Vec<(u128, Value)>)> = Vec::new();
                    core::mem::swap(&mut cols, &mut store.collections);
                    let mut op = MigrateOp {
                        store: InMemoryStore { collections: cols, revision: None },
                    };
                    let res = match direction {
                        MigrationDirection::Up => self.chain.steps[mi].up(&mut op),
                        MigrationDirection::Down => self.chain.steps[mi].down(&mut op),
                    };
                    core::mem::swap(&mut op.store.collections, &mut store.collections);
                    match res {
                        Ok(_) => {},
                        Err(e) => {
                            return Err(e);
                        },
                    }
                    let _ = store.set_revision_id(path[k].as_str());
                    proof {
                        assert(is_step_id(idsv, pathv[k as int])) by {
                            assert(idsv[mi as int].0 == pathv[k as int]);
                        }
                    }
                },
                None => {},
            }
            k = k + 1;
        }
        proof {
            assert(pathv[pathv.len() - 1] == target_revision@);
            if from0 == target_revision@ && !is_step_id(idsv, target_revision@) {
                assert(pathv =~= seq![from0]);
                assert(forall|t: int| 0 <= t < pathv.len() ==> !is_step_id(
                    idsv,
                    #[trigger] pathv[t],
                ));
            }
        }
        Ok(())
    }

    /// Migrates the store up to the head of the revision graph: the first
    /// registered step that no step declares as its predecessor. Fails with
    /// a migration error, leaving the store untouched, when the graph has no
    /// head; otherwise behaves as an upgrade to the head, so on success the
    /// current revision ends at the head.
    pub fn upgrade(&self, store: &mut crate::store::InMemoryStore) -> (r: DocumentStoreResult<()>)
        requires
            self.chain.wf(),
        ensures
            ({
                let idsv = views_of_steps(self.chain.ids@);
                let lv = self.chain.graph@;
                &&& (first_head(idsv, lv) is None ==> (r matches Err(e) && e is Migration)
                    && final(store)@ == old(store)@)
                &&& (first_head(idsv, lv) matches Some(h) ==> apply_contract(
                    idsv,
                    lv,
                    MigrationDirection::Up,
                    h,
                    old(store)@,
                    final(store)@,
                    r,
                ))
                &&& (r is Ok ==> (first_head(idsv, lv) matches Some(h) && final(store)@.revision
                    == Some(h)))
            }),
    {
        match self.chain.head() {
            Some(h) => {
                proof {
                    lemma_first_head_is_step(views_of_steps(self.chain.ids@), self.chain.graph@);
                }
                self.apply(store, h.as_str(), &MigrationDirection::Up)
            },
            None => Err(DocumentStoreError::Migration("no head revision".to_owned())),
        }
    }

    /// Migrates the store down to the tail of the revision graph: the first
    /// registered step that declares no predecessor. Fails with a migration
    /// error, leaving the store untouched, when the graph has no tail;
    /// otherwise behaves as a downgrade to the tail, so on success the
    /// current revision ends at the tail.
    pub fn downgrade(&self, store: &mut crate::store::InMemoryStore) -> (r: DocumentStoreResult<
        (),
    >)
        requires
            self.chain.wf(),
        ensures
            ({
                let idsv = views_of_steps(self.chain.ids@);
                let lv = self.chain.graph@;
                &&& (first_tail(idsv, lv) is None ==> (r matches Err(e) && e is Migration)
                    && final(store)@ == old(store)@)
                &&& (first_tail(idsv, lv) matches Some(t) ==> apply_contract(
                    idsv,
                    lv,
                    MigrationDirection::Down,
                    t,
                    old(store)@,
                    final(store)@,
                    r,
                ))
                &&& (r is Ok ==> (first_tail(idsv, lv) matches Some(t) && final(store)@.revision
                    == Some(t)))
            }),
    {
        match self.chain.tail() {
            Some(t) => {
                proof {
                    lemma_first_tail_is_step(views_of_steps(self.chain.ids@), self.chain.graph@);
                }
                self.apply(store, t.as_str(), &MigrationDirection::Down)
            },
            None => Err(DocumentStoreError::Migration("no tail revision".to_owned())),
        }
    }

    /// Migrates the store up to the given revision; the guarantees are those
    /// of `apply` in the upward direction.
    pub fn upgrade_to(
        &self,
        store: &mut crate::store::InMemoryStore,
        target_revision: &str,
    ) -> (r: DocumentStoreResult<()>)
        requires
            self.chain.wf(),
        ensures
            apply_contract(
                views_of_steps(self.chain.ids@),
                self.chain.graph@,
                MigrationDirection::Up,
                target_revision@,
                old(store)@,
                final(store)@,
                r,
            ),
    {
        self.apply(store, target_revision, &MigrationDirection::Up)
    }

    /// Migrates the store down to the given revision; the guarantees are
    /// those of `apply` in the downward direction.
    pub fn downgrade_to(
        &self,
        store: &mut crate::store::InMemoryStore,
        target_revision: &str,
    ) -> (r: DocumentStoreResult<()>)
        requires
            self.chain.wf(),
        ensures
            apply_contract(
                views_of_steps(self.chain.ids@),
                self.chain.graph@,
                MigrationDirection::Down,
                target_revision@,
                old(store)@,
                final(store)@,
                r,
            ),
    {
        self.apply(store, target_revision, &MigrationDirection::Down)
    }
}

} // verus!
