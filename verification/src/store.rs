//! The in-memory document store: named collections of records keyed by a
//! 128-bit document id, a current-revision marker for schema migrations, and
//! the read, write, query and schema-evolution operations over them.
//!
//! Batch write operations are not atomic: when an entry of a batch fails,
//! the entries before it remain applied and the failing entry and all later
//! ones are not. Deleting a missing id fails with a not-found error; adding
//! a field overwrites the field on every record unconditionally. Both
//! behaviors are pinned here by contract.

use vstd::prelude::*;

use crate::assoc::assoc_lookup;
use crate::assoc::assoc_remove;
use crate::assoc::assoc_update;
use crate::assoc::lemma_assoc_lookup_found;
use crate::assoc::lemma_assoc_lookup_none;
use crate::assoc::lemma_assoc_remove_absent;
use crate::assoc::lemma_assoc_remove_at;
use crate::assoc::lemma_assoc_update_append;
use crate::assoc::lemma_assoc_update_at;
use crate::error::DocumentStoreError;
use crate::error::DocumentStoreResult;
use crate::pipeline::run_query;
use crate::evaluator::records_wf;
use crate::query::Query;
use crate::text::str_eq;
use crate::value::Value;
use crate::value::ValueView;
use crate::value::clone_value;
use crate::value::views_of_collections;
use crate::value::views_of_docs;
use crate::value::views_of_entries;
use crate::value::views_of_seq;

verus! {

broadcast use
    vstd::seq::axiom_seq_index_decreases,
    vstd::std_specs::vec::axiom_vec_index_decreases,
    vstd::std_specs::vec::axiom_vec_decreases_to_view,
    crate::value::lemma_views_of_seq,
    crate::value::lemma_views_of_entries,
    crate::value::lemma_views_of_docs,
    crate::value::lemma_views_of_collections,
;

/// The records of one collection: id and record model, in stored order.
pub type DocsView = Seq<(u128, ValueView)>;

/// The collections of a store: name and records, in creation order.
pub type ColsView = Seq<(Seq<char>, DocsView)>;

/// The mathematical model of an in-memory store.
pub ghost struct StoreView {
    /// The collections, each a name and its records.
    pub collections: ColsView,
    /// The current schema revision, when one has been set.
    pub revision: Option<Seq<char>>,
}

/// The in-memory document store: collections of records in memory, and the
/// current schema revision.
#[derive(Debug)]
pub struct InMemoryStore {
    /// The collections: name and records, in creation order; records in
    /// insertion order, keyed by document id.
    pub collections: Vec<(String, Vec<(u128, Value)>)>,
    /// The current schema revision, when one has been set.
    pub revision: Option<String>,
}

impl View for InMemoryStore {
    type V = StoreView;

    open spec fn view(&self) -> StoreView {
        StoreView {
            collections: views_of_collections(self.collections@),
            revision: match self.revision {
                Some(ref s) => Some(s@),
                None => None,
            },
        }
    }
}

impl InMemoryStore {
    /// An empty store: no collections, no current revision.
    pub fn new() -> (r: InMemoryStore)
        ensures
            r@.collections.len() == 0,
            r@.revision is None,
    {
        InMemoryStore { collections: Vec::new(), revision: None }
    }

    /// A builder for constructing a store.
    pub fn builder() -> (r: InMemoryStoreBuilder)
        ensures
            r == InMemoryStoreBuilder,
    {
        InMemoryStoreBuilder
    }

    /// The position of the first collection named `name`, when one exists.
    fn find_collection(&self, name: &str) -> (r: Option<usize>)
        ensures
            match r {
                Some(i) => {
                    &&& i < self@.collections.len()
                    &&& self@.collections[i as int].0 == name@
                    &&& forall|t: int|
                        0 <= t < i ==> (#[trigger] self@.collections[t]).0 != name@
                },
                None => forall|t: int|
                    0 <= t < self@.collections.len() ==> (#[trigger] self@.collections[t]).0
                        != name@,
            },
    {
        let mut i: usize = 0;
        while i < self.collections.len()
            invariant
                i <= self.collections@.len(),
                forall|t: int| 0 <= t < i ==> (#[trigger] self@.collections[t]).0 != name@,
            decreases self.collections@.len() - i,
        {
            if str_eq(self.collections[i].0.as_str(), name) {
                return Some(i);
            }
            i = i + 1;
        }
        None
    }

    /// The current revision marker, when one has been set.
    pub fn current_revision_id(&self) -> (r: Option<String>)
        ensures
            match r {
                Some(s) => self@.revision == Some(s@),
                None => self@.revision is None,
            },
    {
        match &self.revision {
            Some(s) => Some(s.clone()),
            None => None,
        }
    }

    /// Sets the current revision marker; the collections are untouched.
    pub fn set_revision_id(&mut self, revision_id: &str) -> (r: DocumentStoreResult<()>)
        ensures
            final(self)@.collections == old(self)@.collections,
            final(self)@.revision == Some(revision_id@),
            r is Ok,
    {
        self.revision = Some(revision_id.to_owned());
        Ok(())
    }

    /// Creates an empty collection of this name; an existing collection of
    /// the same name is left as it is.
    pub fn create_collection(&mut self, name: &str) -> (r: DocumentStoreResult<()>)
        ensures
            final(self)@.revision == old(self)@.revision,
            final(self)@.collections == (match assoc_lookup(old(self)@.collections, name@) {
                Some(_) => old(self)@.collections,
                None => old(self)@.collections.push((name@, Seq::empty())),
            }),
            r is Ok,
    {
        match self.find_collection(name) {
            Some(i) => {
                proof {
                    lemma_assoc_lookup_found(self@.collections, name@, i as int);
                }
                Ok(())
            },
            None => {
                proof {
                    lemma_assoc_lookup_none(self@.collections, name@);
                }
                let ghost before = self@.collections;
                self.collections.push((name.to_owned(), Vec::new()));
                proof {
                    assert(self@.collections =~= before.push((name@, Seq::empty())));
                }
                Ok(())
            },
        }
    }

    /// Drops the first collection of this name and every record in it;
    /// fails with a collection-not-found error exactly when none exists.
    pub fn drop_collection(&mut self, name: &str) -> (r: DocumentStoreResult<()>)
        ensures
            final(self)@.revision == old(self)@.revision,
            match assoc_lookup(old(self)@.collections, name@) {
                Some(_) => {
                    &&& final(self)@.collections == assoc_remove(old(self)@.collections, name@)
                    &&& r is Ok
                },
                None => {
                    &&& final(self)@.collections == old(self)@.collections
                    &&& r matches Err(e) && e matches DocumentStoreError::CollectionNotFound(c)
                        && c@ == name@
                },
            },
    {
        match self.find_collection(name) {
            Some(i) => {
                proof {
                    lemma_assoc_lookup_found(self@.collections, name@, i as int);
                    lemma_assoc_remove_at(self@.collections, name@, i as int);
                }
                let ghost before = self@.collections;
                self.collections.remove(i);
                proof {
                    assert(self@.collections =~= before.remove(i as int));
                }
                Ok(())
            },
            None => {
                proof {
                    lemma_assoc_lookup_none(self@.collections, name@);
                }
                Err(DocumentStoreError::CollectionNotFound(name.to_owned()))
            },
        }
    }

    /// The names of all collections, in creation order.
    pub fn list_collections(&self) -> (r: DocumentStoreResult<Vec<String>>)
        ensures
            r matches Ok(names) && names@.len() == self@.collections.len() && forall|i: int|
                0 <= i < names@.len() ==> (#[trigger] names@[i])@ == self@.collections[i].0,
    {
        let mut names: Vec<String> = Vec::new();
        let mut i: usize = 0;
        while i < self.collections.len()
            invariant
                i <= self.collections@.len(),
                names@.len() == i as int,
                forall|t: int| 0 <= t < i ==> (#[trigger] names@[t])@ == self@.collections[t].0,
            decreases self.collections@.len() - i,
        {
            names.push(self.collections[i].0.clone());
            i = i + 1;
        }
        Ok(names)
    }
}

/// Builds an in-memory store; the store needs no configuration, so building
/// always succeeds.
#[derive(Debug, Default)]
pub struct InMemoryStoreBuilder;

impl InMemoryStoreBuilder {
    /// The finished store: empty, with no current revision.
    pub fn build(self) -> (r: DocumentStoreResult<InMemoryStore>)
        ensures
            r matches Ok(s) && s@.collections.len() == 0 && s@.revision is None,
    {
        Ok(InMemoryStore::new())
    }
}


/// How one batch insert transforms a collection's records: entries are
/// appended in order until one carries an id already present; that id is
/// reported and the rest of the batch is not applied.
pub open spec fn spec_insert_batch(docs: DocsView, batch: DocsView) -> (DocsView, Option<u128>)
    decreases batch.len(),
{
    if batch.len() == 0 {
        (docs, None)
    } else if assoc_lookup(docs, batch[0].0) is Some {
        (docs, Some(batch[0].0))
    } else {
        spec_insert_batch(docs.push(batch[0]), batch.drop_first())
    }
}

impl InMemoryStore {
    /// The position of the first record with this id, when one exists.
    fn find_doc(docs: &Vec<(u128, Value)>, id: u128) -> (r: Option<usize>)
        ensures
            match r {
                Some(i) => {
                    &&& i < views_of_docs(docs@).len()
                    &&& views_of_docs(docs@)[i as int].0 == id
                    &&& forall|t: int|
                        0 <= t < i ==> (#[trigger] views_of_docs(docs@)[t]).0 != id
                },
                None => forall|t: int|
                    0 <= t < views_of_docs(docs@).len() ==> (#[trigger] views_of_docs(docs@)[t]).0
                        != id,
            },
    {
        let mut i: usize = 0;
        while i < docs.len()
            invariant
                i <= docs@.len(),
                forall|t: int| 0 <= t < i ==> (#[trigger] views_of_docs(docs@)[t]).0 != id,
            decreases docs@.len() - i,
        {
            if docs[i].0 == id {
                return Some(i);
            }
            i = i + 1;
        }
        None
    }

    /// Inserts the records of the batch into the collection, in order,
    /// creating the collection when it does not exist.
    ///
    /// Fails with an already-exists error naming the first batch entry whose
    /// id is already present, exactly when there is one; the entries before
    /// it remain inserted, the failing entry and all later ones do not.
    #[verifier::loop_isolation(false)]
    pub fn insert_documents(&mut self, documents: Vec<(u128, Value)>, collection: &str) -> (r:
        DocumentStoreResult<()>)
        ensures
            ({
                let docs0 = match assoc_lookup(old(self)@.collections, collection@) {
                    Some(d) => d,
                    None => Seq::empty(),
                };
                let outcome = spec_insert_batch(docs0, views_of_docs(documents@));
                &&& final(self)@.revision == old(self)@.revision
                &&& final(self)@.collections == assoc_update(
                    old(self)@.collections,
                    collection@,
                    outcome.0,
                )
                &&& match r {
                    Ok(_) => outcome.1 is None,
                    Err(e) => {
                        &&& outcome.1 is Some
                        &&& e matches DocumentStoreError::DocumentAlreadyExists(id, c) && Some(id)
                            == outcome.1 && c@ == collection@
                    },
                }
            }),
    {
        let ghost cols0 = old(self)@.collections;
        let ghost bv = views_of_docs(documents@);
        let ghost mut created: bool = false;
        let idx: usize = match self.find_collection(collection) {
            Some(i) => i,
            None => {
                proof {
                    lemma_assoc_lookup_none(cols0, collection@);
                    created = true;
                }
                self.collections.push((collection.to_owned(), Vec::new()));
                proof {
                    assert(self@.collections =~= cols0.push((collection@, Seq::empty())));
                }
                self.collections.len() - 1
            },
        };
        proof {
            if !created {
                lemma_assoc_lookup_found(cols0, collection@, idx as int);
            }
        }
        let ghost docs0 = self@.collections[idx as int].1;
        let ghost cols_now = self@.collections;
        let mut entry = self.collections.remove(idx);
        let ghost cols_removed = self.collections@;
        proof {
            assert(self@.collections =~= cols_now.remove(idx as int));
            assert(views_of_docs(entry.1@) == docs0);
            assert(entry.0@ == collection@);
            assert(bv.skip(0) =~= bv);
        }
        let mut k: usize = 0;
        while k < documents.len()
            invariant
                k <= documents@.len(),
                entry.0@ == collection@,
                self.collections@ == cols_removed,
                self.revision == old(self).revision,
                idx as int <= cols_removed.len(),
                spec_insert_batch(docs0, bv) == spec_insert_batch(
                    views_of_docs(entry.1@),
                    bv.skip(k as int),
                ),
            decreases documents@.len() - k,
        {
            let id = documents[k].0;
            let ghost cur = views_of_docs(entry.1@);
            proof {
                assert(bv.skip(k as int)[0] == bv[k as int]);
                assert(bv.skip(k as int).drop_first() =~= bv.skip(k + 1));
            }
            match Self::find_doc(&entry.1, id) {
                Some(di) => {
                    proof {
                        lemma_assoc_lookup_found(cur, id, di as int);
                    }
                    self.collections.insert(idx, entry);
                    proof {
                        assert(self@.collections =~= cols_now.update(idx as int, (collection@, cur)));
                        if created {
                            lemma_assoc_update_append(cols0, collection@, cur);
                            assert(self@.collections =~= cols0.push((collection@, cur)));
                        } else {
                            lemma_assoc_update_at(cols0, collection@, cur, idx as int);
                        }
                        assert(self@.collections == assoc_update(cols0, collection@, cur));
                    }
                    return Err(
                        DocumentStoreError::DocumentAlreadyExists(id, collection.to_owned()),
                    );
                },
                None => {
                    proof {
                        lemma_assoc_lookup_none(cur, id);
                    }
                    entry.1.push((id, clone_value(&documents[k].1)));
                    proof {
                        assert(views_of_docs(entry.1@) =~= cur.push(bv[k as int]));
                    }
                },
            }
            k = k + 1;
        }
        proof {
            assert(bv.skip(documents@.len() as int) =~= Seq::<(u128, ValueView)>::empty());
        }
        let ghost docs2 = views_of_docs(entry.1@);
        self.collections.insert(idx, entry);
        proof {
            assert(self@.collections =~= cols_now.update(idx as int, (collection@, docs2)));
            if created {
                lemma_assoc_update_append(cols0, collection@, docs2);
                assert(self@.collections =~= cols0.push((collection@, docs2)));
            } else {
                lemma_assoc_update_at(cols0, collection@, docs2, idx as int);
            }
            assert(self@.collections == assoc_update(cols0, collection@, docs2));
        }
        Ok(())
    }
}


/// How one batch update transforms a collection's records: each entry
/// replaces the record carrying its id, in order, until one carries an id
/// not present; that id is reported and the rest of the batch is not
/// applied.
pub open spec fn spec_update_batch(docs: DocsView, batch: DocsView) -> (DocsView, Option<u128>)
    decreases batch.len(),
{
    if batch.len() == 0 {
        (docs, None)
    } else if assoc_lookup(docs, batch[0].0) is None {
        (docs, Some(batch[0].0))
    } else {
        spec_update_batch(assoc_update(docs, batch[0].0, batch[0].1), batch.drop_first())
    }
}

/// How one batch delete transforms a collection's records: each id removes
/// the record carrying it, in order, until an id is not present; that id is
/// reported and the rest of the batch is not applied.
pub open spec fn spec_delete_batch(docs: DocsView, ids: Seq<u128>) -> (DocsView, Option<u128>)
    decreases ids.len(),
{
    if ids.len() == 0 {
        (docs, None)
    } else if assoc_lookup(docs, ids[0]) is None {
        (docs, Some(ids[0]))
    } else {
        spec_delete_batch(assoc_remove(docs, ids[0]), ids.drop_first())
    }
}

/// The records a batch get returns: for each requested id in order, the
/// record carrying it; missing ids are omitted.
pub open spec fn spec_get_batch(docs: DocsView, ids: Seq<u128>) -> Seq<ValueView>
    decreases ids.len(),
{
    if ids.len() == 0 {
        Seq::empty()
    } else {
        (match assoc_lookup(docs, ids[0]) {
            Some(v) => seq![v],
            None => Seq::empty(),
        }) + spec_get_batch(docs, ids.drop_first())
    }
}

impl InMemoryStore {
    /// Replaces the records carrying the batch's ids, in order.
    ///
    /// Fails with a collection-not-found error when the collection does not
    /// exist, and with a not-found error naming the first batch entry whose
    /// id is absent, exactly when there is one; the entries before it remain
    /// applied, the failing entry and all later ones do not.
    #[verifier::loop_isolation(false)]
    pub fn update_documents(&mut self, documents: Vec<(u128, Value)>, collection: &str) -> (r:
        DocumentStoreResult<()>)
        ensures
            final(self)@.revision == old(self)@.revision,
            match assoc_lookup(old(self)@.collections, collection@) {
                None => {
                    &&& final(self)@.collections == old(self)@.collections
                    &&& r matches Err(e) && e matches DocumentStoreError::CollectionNotFound(c)
                        && c@ == collection@
                },
                Some(docs0) => {
                    let outcome = spec_update_batch(docs0, views_of_docs(documents@));
                    &&& final(self)@.collections == assoc_update(
                        old(self)@.collections,
                        collection@,
                        outcome.0,
                    )
                    &&& match r {
                        Ok(_) => outcome.1 is None,
                        Err(e) => {
                            &&& outcome.1 is Some
                            &&& e matches DocumentStoreError::DocumentNotFound(id, c) && Some(id)
                                == outcome.1 && c@ == collection@
                        },
                    }
                },
            },
    {
        let ghost cols0 = old(self)@.collections;
        let ghost bv = views_of_docs(documents@);
        let idx: usize = match self.find_collection(collection) {
            Some(i) => i,
            None => {
                proof {
                    lemma_assoc_lookup_none(cols0, collection@);
                }
                return Err(DocumentStoreError::CollectionNotFound(collection.to_owned()));
            },
        };
        proof {
            lemma_assoc_lookup_found(cols0, collection@, idx as int);
        }
        let ghost docs0 = cols0[idx as int].1;
        let mut entry = self.collections.remove(idx);
        let ghost cols_removed = self.collections@;
        proof {
            assert(self@.collections =~= cols0.remove(idx as int));
            assert(views_of_docs(entry.1@) == docs0);
            assert(entry.0@ == collection@);
            assert(bv.skip(0) =~= bv);
        }
        let mut k: usize = 0;
        while k < documents.len()
            invariant
                k <= documents@.len(),
                entry.0@ == collection@,
                self.collections@ == cols_removed,
                self.revision == old(self).revision,
                (idx as int) < cols0.len(),
                spec_update_batch(docs0, bv) == spec_update_batch(
                    views_of_docs(entry.1@),
                    bv.skip(k as int),
                ),
            decreases documents@.len() - k,
        {
            let id = documents[k].0;
            let ghost cur = views_of_docs(entry.1@);
            proof {
                assert(bv.skip(k as int)[0] == bv[k as int]);
                assert(bv.skip(k as int).drop_first() =~= bv.skip(k + 1));
            }
            match Self::find_doc(&entry.1, id) {
                Some(di) => {
                    proof {
                        lemma_assoc_lookup_found(cur, id, di as int);
                        lemma_assoc_update_at(cur, id, bv[k as int].1, di as int);
                    }
                    entry.1.remove(di);
                    entry.1.insert(di, (id, clone_value(&documents[k].1)));
                    proof {
                        assert(views_of_docs(entry.1@) =~= cur.update(di as int, bv[k as int]));
                        assert(views_of_docs(entry.1@) =~= assoc_update(cur, id, bv[k as int].1));
                    }
                },
                None => {
                    proof {
                        lemma_assoc_lookup_none(cur, id);
                        lemma_assoc_update_at(cols0, collection@, cur, idx as int);
                    }
                    self.collections.insert(idx, entry);
                    proof {
                        assert(self@.collections =~= cols0.update(idx as int, (collection@, cur)));
                        assert(self@.collections == assoc_update(cols0, collection@, cur));
                    }
                    return Err(DocumentStoreError::DocumentNotFound(id, collection.to_owned()));
                },
            }
            k = k + 1;
        }
        proof {
            assert(bv.skip(documents@.len() as int) =~= Seq::<(u128, ValueView)>::empty());
        }
        let ghost docs2 = views_of_docs(entry.1@);
        self.collections.insert(idx, entry);
        proof {
            lemma_assoc_update_at(cols0, collection@, docs2, idx as int);
            assert(self@.collections =~= cols0.update(idx as int, (collection@, docs2)));
            assert(self@.collections == assoc_update(cols0, collection@, docs2));
        }
        Ok(())
    }

    /// Removes the records carrying the given ids, in order.
    ///
    /// Fails with a collection-not-found error when the collection does not
    /// exist, and with a not-found error naming the first id that is absent,
    /// exactly when there is one; the ids before it remain removed, the
    /// failing id and all later ones are not touched.
    #[verifier::loop_isolation(false)]
    pub fn delete_documents(&mut self, ids: Vec<u128>, collection: &str) -> (r:
        DocumentStoreResult<()>)
        ensures
            final(self)@.revision == old(self)@.revision,
            match assoc_lookup(old(self)@.collections, collection@) {
                None => {
                    &&& final(self)@.collections == old(self)@.collections
                    &&& r matches Err(e) && e matches DocumentStoreError::CollectionNotFound(c)
                        && c@ == collection@
                },
                Some(docs0) => {
                    let outcome = spec_delete_batch(docs0, ids@);
                    &&& final(self)@.collections == assoc_update(
                        old(self)@.collections,
                        collection@,
                        outcome.0,
                    )
                    &&& match r {
                        Ok(_) => outcome.1 is None,
                        Err(e) => {
                            &&& outcome.1 is Some
                            &&& e matches DocumentStoreError::DocumentNotFound(id, c) && Some(id)
                                == outcome.1 && c@ == collection@
                        },
                    }
                },
            },
    {
        let ghost cols0 = old(self)@.collections;
        let idx: usize = match self.find_collection(collection) {
            Some(i) => i,
            None => {
                proof {
                    lemma_assoc_lookup_none(cols0, collection@);
                }
                return Err(DocumentStoreError::CollectionNotFound(collection.to_owned()));
            },
        };
        proof {
            lemma_assoc_lookup_found(cols0, collection@, idx as int);
        }
        let ghost docs0 = cols0[idx as int].1;
        let mut entry = self.collections.remove(idx);
        let ghost cols_removed = self.collections@;
        proof {
            assert(self@.collections =~= cols0.remove(idx as int));
            assert(views_of_docs(entry.1@) == docs0);
            assert(entry.0@ == collection@);
            assert(ids@.skip(0) =~= ids@);
        }
        let mut k: usize = 0;
        while k < ids.len()
            invariant
                k <= ids@.len(),
                entry.0@ == collection@,
                self.collections@ == cols_removed,
                self.revision == old(self).revision,
                (idx as int) < cols0.len(),
                spec_delete_batch(docs0, ids@) == spec_delete_batch(
                    views_of_docs(entry.1@),
                    ids@.skip(k as int),
                ),
            decreases ids@.len() - k,
        {
            let id = ids[k];
            let ghost cur = views_of_docs(entry.1@);
            proof {
                assert(ids@.skip(k as int)[0] == ids@[k as int]);
                assert(ids@.skip(k as int).drop_first() =~= ids@.skip(k + 1));
            }
            match Self::find_doc(&entry.1, id) {
                Some(di) => {
                    proof {
                        lemma_assoc_lookup_found(cur, id, di as int);
                        lemma_assoc_remove_at(cur, id, di as int);
                    }
                    entry.1.remove(di);
                    proof {
                        assert(views_of_docs(entry.1@) =~= cur.remove(di as int));
                        assert(views_of_docs(entry.1@) =~= assoc_remove(cur, id));
                    }
                },
                None => {
                    proof {
                        lemma_assoc_lookup_none(cur, id);
                        lemma_assoc_update_at(cols0, collection@, cur, idx as int);
                    }
                    self.collections.insert(idx, entry);
                    proof {
                        assert(self@.collections =~= cols0.update(idx as int, (collection@, cur)));
                        assert(self@.collections == assoc_update(cols0, collection@, cur));
                    }
                    return Err(DocumentStoreError::DocumentNotFound(id, collection.to_owned()));
                },
            }
            k = k + 1;
        }
        proof {
            assert(ids@.skip(ids@.len() as int) =~= Seq::<u128>::empty());
        }
        let ghost docs2 = views_of_docs(entry.1@);
        self.collections.insert(idx, entry);
        proof {
            lemma_assoc_update_at(cols0, collection@, docs2, idx as int);
            assert(self@.collections =~= cols0.update(idx as int, (collection@, docs2)));
            assert(self@.collections == assoc_update(cols0, collection@, docs2));
        }
        Ok(())
    }

    /// The records carrying the given ids, in request order; a missing id is
    /// omitted, not an error. A missing collection yields no records.
    #[verifier::loop_isolation(false)]
    pub fn get_documents(&self, ids: Vec<u128>, collection: &str) -> (r: DocumentStoreResult<
        Vec<Value>,
    >)
        ensures
            match assoc_lookup(self@.collections, collection@) {
                None => r matches Ok(out) && out@.len() == 0,
                Some(docs) => r matches Ok(out) && views_of_seq(out@) == spec_get_batch(
                    docs,
                    ids@,
                ),
            },
    {
        let ghost cols0 = self@.collections;
        let idx: usize = match self.find_collection(collection) {
            Some(i) => i,
            None => {
                proof {
                    lemma_assoc_lookup_none(cols0, collection@);
                }
                return Ok(Vec::new());
            },
        };
        proof {
            lemma_assoc_lookup_found(cols0, collection@, idx as int);
        }
        let docs = &self.collections[idx].1;
        let ghost dv = views_of_docs(docs@);
        let mut out: Vec<Value> = Vec::new();
        let mut k: usize = 0;
        proof {
            assert(ids@.skip(0) =~= ids@);
            assert(spec_get_batch(dv, ids@) =~= views_of_seq(out@) + spec_get_batch(dv, ids@));
        }
        while k < ids.len()
            invariant
                k <= ids@.len(),
                spec_get_batch(dv, ids@) == views_of_seq(out@) + spec_get_batch(
                    dv,
                    ids@.skip(k as int),
                ),
            decreases ids@.len() - k,
        {
            let id = ids[k];
            let ghost out_before = views_of_seq(out@);
            proof {
                assert(ids@.skip(k as int)[0] == ids@[k as int]);
                assert(ids@.skip(k as int).drop_first() =~= ids@.skip(k + 1));
            }
            match Self::find_doc(docs, id) {
                Some(di) => {
                    proof {
                        lemma_assoc_lookup_found(dv, id, di as int);
                    }
                    out.push(clone_value(&docs[di].1));
                    proof {
                        assert(views_of_seq(out@) =~= out_before.push(dv[di as int].1));
                        assert(spec_get_batch(dv, ids@) =~= views_of_seq(out@) + spec_get_batch(
                            dv,
                            ids@.skip(k + 1),
                        ));
                    }
                },
                None => {
                    proof {
                        lemma_assoc_lookup_none(dv, id);
                        assert(spec_get_batch(dv, ids@) =~= views_of_seq(out@) + spec_get_batch(
                            dv,
                            ids@.skip(k + 1),
                        ));
                    }
                },
            }
            k = k + 1;
        }
        proof {
            assert(ids@.skip(ids@.len() as int) =~= Seq::<u128>::empty());
            assert(spec_get_batch(dv, ids@) =~= views_of_seq(out@));
        }
        Ok(out)
    }
}


/// How adding a field transforms one stored value: a record-shaped value
/// gets the field set to the default, overwriting any present value; any
/// other stored value is left as it is.
pub open spec fn add_field_rec(rv: ValueView, name: Seq<char>, dv: ValueView) -> ValueView {
    match rv {
        ValueView::Object(fs) => ValueView::Object(assoc_update(fs, name, dv)),
        _ => rv,
    }
}

/// Adding a field sets it on every record of the collection.
pub open spec fn add_field_docs(docs: DocsView, name: Seq<char>, dv: ValueView) -> DocsView {
    Seq::new(docs.len(), |i: int| (docs[i].0, add_field_rec(docs[i].1, name, dv)))
}

/// How dropping a field transforms one stored value: a record-shaped value
/// loses its first field of that name, when one is present; any other
/// stored value is left as it is.
pub open spec fn drop_field_rec(rv: ValueView, name: Seq<char>) -> ValueView {
    match rv {
        ValueView::Object(fs) => ValueView::Object(assoc_remove(fs, name)),
        _ => rv,
    }
}

/// Dropping a field drops it from every record of the collection.
pub open spec fn drop_field_docs(docs: DocsView, name: Seq<char>) -> DocsView {
    Seq::new(docs.len(), |i: int| (docs[i].0, drop_field_rec(docs[i].1, name)))
}

/// How renaming a field transforms one stored value: when a record-shaped
/// value has the old field, that field is removed and its value is set
/// under the new name; a record without the old field, and any other stored
/// value, is left as it is.
pub open spec fn rename_field_rec(rv: ValueView, from: Seq<char>, to: Seq<char>) -> ValueView {
    match rv {
        ValueView::Object(fs) => match assoc_lookup(fs, from) {
            Some(v) => ValueView::Object(assoc_update(assoc_remove(fs, from), to, v)),
            None => rv,
        },
        _ => rv,
    }
}

/// Renaming a field renames it on every record of the collection.
pub open spec fn rename_field_docs(docs: DocsView, from: Seq<char>, to: Seq<char>) -> DocsView {
    Seq::new(docs.len(), |i: int| (docs[i].0, rename_field_rec(docs[i].1, from, to)))
}

/// The position of the first field named `name`, when one is present.
fn find_field(fields: &Vec<(String, Value)>, name: &str) -> (r: Option<usize>)
    ensures
        match r {
            Some(i) => {
                &&& i < views_of_entries(fields@).len()
                &&& views_of_entries(fields@)[i as int].0 == name@
                &&& forall|t: int|
                    0 <= t < i ==> (#[trigger] views_of_entries(fields@)[t]).0 != name@
            },
            None => forall|t: int|
                0 <= t < views_of_entries(fields@).len() ==> (#[trigger] views_of_entries(
                    fields@,
                )[t]).0 != name@,
        },
{
    let mut i: usize = 0;
    while i < fields.len()
        invariant
            i <= fields@.len(),
            forall|t: int| 0 <= t < i ==> (#[trigger] views_of_entries(fields@)[t]).0 != name@,
        decreases fields@.len() - i,
    {
        if str_eq(fields[i].0.as_str(), name) {
            return Some(i);
        }
        i = i + 1;
    }
    None
}

/// A copy of the fields with the first field named `name` set to `v`, or
/// with a new field appended when none carries the name.
#[verifier::loop_isolation(false)]
fn obj_set_field(fields: &Vec<(String, Value)>, name: &str, v: &Value) -> (out: Vec<
    (String, Value),
>)
    ensures
        views_of_entries(out@) == assoc_update(views_of_entries(fields@), name@, v@),
{
    let ghost fv = views_of_entries(fields@);
    let at = find_field(fields, name);
    let mut out: Vec<(String, Value)> = Vec::new();
    let mut k: usize = 0;
    while k < fields.len()
        invariant
            k <= fields@.len(),
            views_of_entries(out@).len() == k as int,
            forall|t: int|
                0 <= t < k ==> views_of_entries(out@)[t] == (if at == Some(t as usize) {
                    (name@, v@)
                } else {
                    (#[trigger] views_of_entries(fields@)[t])
                }),
        decreases fields@.len() - k,
    {
        let replace = match at {
            Some(fi) => fi == k,
            None => false,
        };
        if replace {
            out.push((name.to_owned(), clone_value(v)));
        } else {
            out.push((fields[k].0.clone(), clone_value(&fields[k].1)));
        }
        k = k + 1;
    }
    match at {
        Some(fi) => {
            proof {
                lemma_assoc_update_at(fv, name@, v@, fi as int);
                assert(views_of_entries(out@) =~= fv.update(fi as int, (name@, v@)));
            }
        },
        None => {
            proof {
                lemma_assoc_update_append(fv, name@, v@);
            }
            out.push((name.to_owned(), clone_value(v)));
            proof {
                assert(views_of_entries(out@) =~= fv.push((name@, v@)));
            }
        },
    }
    out
}

/// A copy of the fields without the first field named `name`; fields keep
/// their order, and a record lacking the field is copied unchanged.
#[verifier::loop_isolation(false)]
fn obj_drop_field(fields: &Vec<(String, Value)>, name: &str) -> (out: Vec<(String, Value)>)
    ensures
        views_of_entries(out@) == assoc_remove(views_of_entries(fields@), name@),
{
    let ghost fv = views_of_entries(fields@);
    let at = find_field(fields, name);
    let mut out: Vec<(String, Value)> = Vec::new();
    let mut k: usize = 0;
    while k < fields.len()
        invariant
            k <= fields@.len(),
            views_of_entries(out@) =~= (match at {
                Some(fi) => if k <= fi as int {
                    views_of_entries(fields@).subrange(0, k as int)
                } else {
                    views_of_entries(fields@).subrange(0, fi as int) + views_of_entries(
                        fields@,
                    ).subrange(fi + 1, k as int)
                },
                None => views_of_entries(fields@).subrange(0, k as int),
            }),
        decreases fields@.len() - k,
    {
        let skip_this = match at {
            Some(fi) => fi == k,
            None => false,
        };
        let ghost out_before = views_of_entries(out@);
        if !skip_this {
            out.push((fields[k].0.clone(), clone_value(&fields[k].1)));
        }
        proof {
            if !skip_this {
                assert(views_of_entries(out@) =~= out_before.push(fv[k as int]));
            }
            match at {
                Some(fi) => {
                    if (k as int) < fi as int {
                        assert(fv.subrange(0, k + 1) =~= fv.subrange(0, k as int).push(
                            fv[k as int],
                        ));
                    } else if k == fi {
                        assert(fv.subrange(0, fi as int) + fv.subrange(fi as int + 1, k + 1)
                            =~= fv.subrange(0, fi as int));
                    } else {
                        assert(fv.subrange(0, fi as int) + fv.subrange(fi as int + 1, k + 1) =~= (
                        fv.subrange(0, fi as int) + fv.subrange(fi as int + 1, k as int)).push(
                            fv[k as int],
                        ));
                    }
                },
                None => {
                    assert(fv.subrange(0, k + 1) =~= fv.subrange(0, k as int).push(fv[k as int]));
                },
            }
        }
        k = k + 1;
    }
    proof {
        match at {
            Some(fi) => {
                lemma_assoc_remove_at(fv, name@, fi as int);
                assert(views_of_entries(out@) =~= fv.remove(fi as int));
            },
            None => {
                lemma_assoc_remove_absent(fv, name@);
                assert(views_of_entries(out@) =~= fv);
            },
        }
    }
    out
}

impl InMemoryStore {
    /// Sets the field to the default on every record of the collection,
    /// overwriting any value the field already has; a stored value that is
    /// not record-shaped is left as it is. Fails with a collection-not-found
    /// error exactly when the collection does not exist.
    #[verifier::loop_isolation(false)]
    pub fn add_field(&mut self, collection: &str, field: &str, default: Value) -> (r:
        DocumentStoreResult<()>)
        ensures
            final(self)@.revision == old(self)@.revision,
            match assoc_lookup(old(self)@.collections, collection@) {
                None => {
                    &&& final(self)@.collections == old(self)@.collections
                    &&& r matches Err(e) && e matches DocumentStoreError::CollectionNotFound(c)
                        && c@ == collection@
                },
                Some(docs0) => {
                    &&& final(self)@.collections == assoc_update(
                        old(self)@.collections,
                        collection@,
                        add_field_docs(docs0, field@, default@),
                    )
                    &&& r is Ok
                },
            },
    {
        let ghost cols0 = old(self)@.collections;
        let idx: usize = match self.find_collection(collection) {
            Some(i) => i,
            None => {
                proof {
                    lemma_assoc_lookup_none(cols0, collection@);
                }
                return Err(DocumentStoreError::CollectionNotFound(collection.to_owned()));
            },
        };
        proof {
            lemma_assoc_lookup_found(cols0, collection@, idx as int);
        }
        let ghost docs0 = cols0[idx as int].1;
        let mut entry = self.collections.remove(idx);
        let ghost cols_removed = self.collections@;
        proof {
            assert(self@.collections =~= cols0.remove(idx as int));
            assert(views_of_docs(entry.1@) == docs0);
        }
        let mut newdocs: Vec<(u128, Value)> = Vec::new();
        let mut k: usize = 0;
        while k < entry.1.len()
            invariant
                k <= entry.1@.len(),
                views_of_docs(newdocs@).len() == k as int,
                forall|t: int|
                    0 <= t < k ==> views_of_docs(newdocs@)[t] == (#[trigger] add_field_docs(
                        docs0,
                        field@,
                        default@,
                    )[t]),
            decreases entry.1@.len() - k,
        {
            let id = entry.1[k].0;
            match &entry.1[k].1 {
                Value::Object(fs) => {
                    newdocs.push((id, Value::Object(obj_set_field(fs, field, &default))));
                },
                _ => {
                    newdocs.push((id, clone_value(&entry.1[k].1)));
                },
            }
            k = k + 1;
        }
        let ghost docs2 = views_of_docs(newdocs@);
        proof {
            assert(docs2 =~= add_field_docs(docs0, field@, default@));
        }
        entry.1 = newdocs;
        self.collections.insert(idx, entry);
        proof {
            lemma_assoc_update_at(cols0, collection@, docs2, idx as int);
            assert(self@.collections =~= cols0.update(idx as int, (collection@, docs2)));
            assert(self@.collections == assoc_update(cols0, collection@, docs2));
        }
        Ok(())
    }

    /// Drops the field from every record of the collection; a record
    /// lacking the field, and a stored value that is not record-shaped, is
    /// left as it is. Fails with a collection-not-found error exactly when
    /// the collection does not exist.
    #[verifier::loop_isolation(false)]
    pub fn drop_field(&mut self, collection: &str, field: &str) -> (r: DocumentStoreResult<()>)
        ensures
            final(self)@.revision == old(self)@.revision,
            match assoc_lookup(old(self)@.collections, collection@) {
                None => {
                    &&& final(self)@.collections == old(self)@.collections
                    &&& r matches Err(e) && e matches DocumentStoreError::CollectionNotFound(c)
                        && c@ == collection@
                },
                Some(docs0) => {
                    &&& final(self)@.collections == assoc_update(
                        old(self)@.collections,
                        collection@,
                        drop_field_docs(docs0, field@),
                    )
                    &&& r is Ok
                },
            },
    {
        let ghost cols0 = old(self)@.collections;
        let idx: usize = match self.find_collection(collection) {
            Some(i) => i,
            None => {
                proof {
                    lemma_assoc_lookup_none(cols0, collection@);
                }
                return Err(DocumentStoreError::CollectionNotFound(collection.to_owned()));
            },
        };
        proof {
            lemma_assoc_lookup_found(cols0, collection@, idx as int);
        }
        let ghost docs0 = cols0[idx as int].1;
        let mut entry = self.collections.remove(idx);
        proof {
            assert(self@.collections =~= cols0.remove(idx as int));
            assert(views_of_docs(entry.1@) == docs0);
        }
        let mut newdocs: Vec<(u128, Value)> = Vec::new();
        let mut k: usize = 0;
        while k < entry.1.len()
            invariant
                k <= entry.1@.len(),
                views_of_docs(newdocs@).len() == k as int,
                forall|t: int|
                    0 <= t < k ==> views_of_docs(newdocs@)[t] == (#[trigger] drop_field_docs(
                        docs0,
                        field@,
                    )[t]),
            decreases entry.1@.len() - k,
        {
            let id = entry.1[k].0;
            match &entry.1[k].1 {
                Value::Object(fs) => {
                    newdocs.push((id, Value::Object(obj_drop_field(fs, field))));
                },
                _ => {
                    newdocs.push((id, clone_value(&entry.1[k].1)));
                },
            }
            k = k + 1;
        }
        let ghost docs2 = views_of_docs(newdocs@);
        proof {
            assert(docs2 =~= drop_field_docs(docs0, field@));
        }
        entry.1 = newdocs;
        self.collections.insert(idx, entry);
        proof {
            lemma_assoc_update_at(cols0, collection@, docs2, idx as int);
            assert(self@.collections =~= cols0.update(idx as int, (collection@, docs2)));
            assert(self@.collections == assoc_update(cols0, collection@, docs2));
        }
        Ok(())
    }

    /// Renames the field on every record of the collection that has it,
    /// moving its value under the new name; a record lacking the field, and
    /// a stored value that is not record-shaped, is left as it is. Fails
    /// with a collection-not-found error exactly when the collection does
    /// not exist.
    #[verifier::loop_isolation(false)]
    pub fn rename_field(&mut self, collection: &str, field: &str, new: &str) -> (r:
        DocumentStoreResult<()>)
        ensures
            final(self)@.revision == old(self)@.revision,
            match assoc_lookup(old(self)@.collections, collection@) {
                None => {
                    &&& final(self)@.collections == old(self)@.collections
                    &&& r matches Err(e) && e matches DocumentStoreError::CollectionNotFound(c)
                        && c@ == collection@
                },
                Some(docs0) => {
                    &&& final(self)@.collections == assoc_update(
                        old(self)@.collections,
                        collection@,
                        rename_field_docs(docs0, field@, new@),
                    )
                    &&& r is Ok
                },
            },
    {
        let ghost cols0 = old(self)@.collections;
        let idx: usize = match self.find_collection(collection) {
            Some(i) => i,
            None => {
                proof {
                    lemma_assoc_lookup_none(cols0, collection@);
                }
                return Err(DocumentStoreError::CollectionNotFound(collection.to_owned()));
            },
        };
        proof {
            lemma_assoc_lookup_found(cols0, collection@, idx as int);
        }
        let ghost docs0 = cols0[idx as int].1;
        let mut entry = self.collections.remove(idx);
        proof {
            assert(self@.collections =~= cols0.remove(idx as int));
            assert(views_of_docs(entry.1@) == docs0);
        }
        let mut newdocs: Vec<(u128, Value)> = Vec::new();
        let mut k: usize = 0;
        while k < entry.1.len()
            invariant
                k <= entry.1@.len(),
                views_of_docs(newdocs@).len() == k as int,
                forall|t: int|
                    0 <= t < k ==> views_of_docs(newdocs@)[t] == (#[trigger] rename_field_docs(
                        docs0,
                        field@,
                        new@,
                    )[t]),
            decreases entry.1@.len() - k,
        {
            let id = entry.1[k].0;
            match &entry.1[k].1 {
                Value::Object(fs) => match find_field(fs, field) {
                    Some(fi) => {
                        proof {
                            lemma_assoc_lookup_found(views_of_entries(fs@), field@, fi as int);
                        }
                        let moved = clone_value(&fs[fi].1);
                        let without = obj_drop_field(fs, field);
                        newdocs.push((id, Value::Object(obj_set_field(&without, new, &moved))));
                    },
                    None => {
                        proof {
                            lemma_assoc_lookup_none(views_of_entries(fs@), field@);
                        }
                        newdocs.push((id, clone_value(&entry.1[k].1)));
                    },
                },
                _ => {
                    newdocs.push((id, clone_value(&entry.1[k].1)));
                },
            }
            k = k + 1;
        }
        let ghost docs2 = views_of_docs(newdocs@);
        proof {
            assert(docs2 =~= rename_field_docs(docs0, field@, new@));
        }
        entry.1 = newdocs;
        self.collections.insert(idx, entry);
        proof {
            lemma_assoc_update_at(cols0, collection@, docs2, idx as int);
            assert(self@.collections =~= cols0.update(idx as int, (collection@, docs2)));
            assert(self@.collections == assoc_update(cols0, collection@, docs2));
        }
        Ok(())
    }

    /// Declares an index; the in-memory store keeps no indexes, so the store
    /// is unchanged and the call succeeds.
    pub fn add_index(&mut self, collection: &str, field: &str, unique: bool) -> (r:
        DocumentStoreResult<()>)
        ensures
            final(self)@ == old(self)@,
            r is Ok,
    {
        let _ = collection;
        let _ = field;
        let _ = unique;
        Ok(())
    }

    /// Drops an index; the in-memory store keeps no indexes, so the store
    /// is unchanged and the call succeeds.
    pub fn drop_index(&mut self, collection: &str, field: &str) -> (r: DocumentStoreResult<()>)
        ensures
            final(self)@ == old(self)@,
            r is Ok,
    {
        let _ = collection;
        let _ = field;
        Ok(())
    }
}


/// The records of a collection without their ids, in stored order.
pub open spec fn values_of(docs: DocsView) -> Seq<ValueView> {
    Seq::new(docs.len(), |i: int| docs[i].1)
}

impl InMemoryStore {
    /// Runs a query over the collection's records: filter, then stable sort
    /// by the sort field, then offset, then limit. A missing collection
    /// yields no records. Without a filter and a sort, the records come in
    /// stored order.
    ///
    /// Fails with an invalid-document error exactly when a filter is given
    /// and some stored value of the collection is not record-shaped.
    #[verifier::loop_isolation(false)]
    pub fn query_documents(&self, query: &Query, collection: &str) -> (r: DocumentStoreResult<
        Vec<Value>,
    >)
        ensures
            match assoc_lookup(self@.collections, collection@) {
                None => r matches Ok(out) && out@.len() == 0,
                Some(docs) => {
                    let vals = values_of(docs);
                    match r {
                        Ok(out) => {
                            &&& (query@.filter is Some ==> records_wf(vals))
                            &&& views_of_seq(out@) == run_query(vals, query@)
                        },
                        Err(e) => {
                            &&& query@.filter is Some
                            &&& !records_wf(vals)
                            &&& e is InvalidDocument
                        },
                    }
                },
            },
    {
        let ghost cols0 = self@.collections;
        let idx: usize = match self.find_collection(collection) {
            Some(i) => i,
            None => {
                proof {
                    lemma_assoc_lookup_none(cols0, collection@);
                }
                return Ok(Vec::new());
            },
        };
        proof {
            lemma_assoc_lookup_found(cols0, collection@, idx as int);
        }
        let docs = &self.collections[idx].1;
        let ghost dv = views_of_docs(docs@);
        let mut values: Vec<Value> = Vec::new();
        let mut k: usize = 0;
        while k < docs.len()
            invariant
                k <= docs@.len(),
                views_of_seq(values@) =~= values_of(dv).subrange(0, k as int),
            decreases docs@.len() - k,
        {
            values.push(clone_value(&docs[k].1));
            proof {
                assert(views_of_seq(values@) =~= values_of(dv).subrange(0, k + 1));
            }
            k = k + 1;
        }
        proof {
            assert(views_of_seq(values@) =~= values_of(dv));
        }
        crate::pipeline::execute_query(&values, query)
    }
}

} // verus!
