//! The store's error taxonomy. Every failure of the engine surfaces as one
//! of these variants; the `String` payload names the collection involved.

use vstd::prelude::*;

verus! {

/// Mathematical model of a [`JsonStoreError`]: the same variants over `Seq`.
#[verifier::ext_equal]
pub enum ErrModel {
    DeserializeFromStr(Seq<char>),
    Io(Seq<char>),
    InUseTree(Seq<char>),
    NotFoundTree(Seq<char>),
    FoundTree(Seq<char>),
    DuplicateUniqueFields(Seq<char>),
    CapacityExceeded(Seq<char>),
    UnableToMutValue(Seq<char>),
    SequenceNotExist(Seq<char>),
    UnObjectValue,
    DefaultError,
}

/// Why a store operation failed.
#[derive(Debug, Clone)]
pub enum JsonStoreError {
    /// A persistence artifact could not be decoded (or a document could not
    /// be re-shaped); the payload describes the artifact.
    DeserializeFromStr(String),
    /// An I/O failure reported by the caller-side file layer.
    Io(String),
    /// The named collection is busy.
    InUseTree(String),
    /// The named collection is not registered.
    NotFoundTree(String),
    /// A collection of that name is already registered.
    FoundTree(String),
    /// The document collides with an existing one on a uniqueness group.
    DuplicateUniqueFields(String),
    /// The collection already holds `capacity` documents.
    CapacityExceeded(String),
    /// A document field could not be overwritten.
    UnableToMutValue(String),
    /// The sequence number is missing, malformed, or names no document.
    SequenceNotExist(String),
    /// The document is not object-shaped.
    UnObjectValue,
    /// An unspecific failure.
    DefaultError,
}

impl View for JsonStoreError {
    type V = ErrModel;

    open spec fn view(&self) -> ErrModel {
        match self {
            JsonStoreError::DeserializeFromStr(s) => ErrModel::DeserializeFromStr(s@),
            JsonStoreError::Io(s) => ErrModel::Io(s@),
            JsonStoreError::InUseTree(s) => ErrModel::InUseTree(s@),
            JsonStoreError::NotFoundTree(s) => ErrModel::NotFoundTree(s@),
            JsonStoreError::FoundTree(s) => ErrModel::FoundTree(s@),
            JsonStoreError::DuplicateUniqueFields(s) => ErrModel::DuplicateUniqueFields(s@),
            JsonStoreError::CapacityExceeded(s) => ErrModel::CapacityExceeded(s@),
            JsonStoreError::UnableToMutValue(s) => ErrModel::UnableToMutValue(s@),
            JsonStoreError::SequenceNotExist(s) => ErrModel::SequenceNotExist(s@),
            JsonStoreError::UnObjectValue => ErrModel::UnObjectValue,
            JsonStoreError::DefaultError => ErrModel::DefaultError,
        }
    }
}

/// A result with the error replaced by its model, for use in contracts.
pub open spec fn err_view<T>(r: Result<T, JsonStoreError>) -> Result<T, ErrModel> {
    match r {
        Ok(t) => Ok(t),
        Err(e) => Err(e@),
    }
}

} // verus!
