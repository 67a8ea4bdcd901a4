//! Error and result types for document store operations.

use vstd::prelude::*;

verus! {

/// Every way an operation on a document store can fail.
///
/// Document ids are carried as their 128-bit numeric form; collection names
/// and details are carried as plain strings.
#[derive(Debug, Clone)]
pub enum DocumentStoreError {
    /// Converting between document representations failed.
    Serialization(String),
    /// Setting up a store failed.
    Initialization(String),
    /// A document with this id is already present in the named collection.
    DocumentAlreadyExists(u128, String),
    /// No document with this id exists in the named collection.
    DocumentNotFound(u128, String),
    /// The named collection does not exist.
    CollectionNotFound(String),
    /// A stored value that should be a record is not record-shaped.
    InvalidDocument(String),
    /// The underlying storage backend failed; the detail is opaque.
    Backend(String),
    /// Resolving or applying a schema migration failed.
    Migration(String),
    /// An otherwise unclassified failure.
    Unknown(String),
}

/// The result of a fallible document store operation.
pub type DocumentStoreResult<T> = Result<T, DocumentStoreError>;

impl DocumentStoreError {
    /// A short name for the kind of failure, for reporting.
    pub fn kind_name(&self) -> (r: &'static str)
        ensures
            r@ == self.kind_name_view(),
    {
        match self {
            DocumentStoreError::Serialization(_) => "serialization error",
            DocumentStoreError::Initialization(_) => "initialization error",
            DocumentStoreError::DocumentAlreadyExists(_, _) => "document already exists",
            DocumentStoreError::DocumentNotFound(_, _) => "document not found",
            DocumentStoreError::CollectionNotFound(_) => "collection not found",
            DocumentStoreError::InvalidDocument(_) => "invalid document",
            DocumentStoreError::Backend(_) => "backend error",
            DocumentStoreError::Migration(_) => "migration error",
            DocumentStoreError::Unknown(_) => "unknown error",
        }
    }

    /// The name `kind_name` returns for each kind of failure.
    pub open spec fn kind_name_view(&self) -> Seq<char> {
        match self {
            DocumentStoreError::Serialization(_) => "serialization error"@,
            DocumentStoreError::Initialization(_) => "initialization error"@,
            DocumentStoreError::DocumentAlreadyExists(_, _) => "document already exists"@,
            DocumentStoreError::DocumentNotFound(_, _) => "document not found"@,
            DocumentStoreError::CollectionNotFound(_) => "collection not found"@,
            DocumentStoreError::InvalidDocument(_) => "invalid document"@,
            DocumentStoreError::Backend(_) => "backend error"@,
            DocumentStoreError::Migration(_) => "migration error"@,
            DocumentStoreError::Unknown(_) => "unknown error"@,
        }
    }
}

} // verus!
