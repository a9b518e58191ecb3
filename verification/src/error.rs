//! The two ways a repository operation can fail.

use vstd::prelude::*;

verus! {

/// Why a repository operation did not deliver.
#[derive(Clone, Copy, Debug, PartialEq, Eq, Structural)]
pub enum RepoError {
    /// A single-row fetch by id matched no row.
    NotFound,
    /// The store could not carry out the statement.
    StoreError,
}

impl RepoError {
    /// A short human-readable description of the error.
    pub fn message(&self) -> (text: String)
        ensures
            text@ == (match *self {
                RepoError::NotFound => "no row matches the given id"@,
                RepoError::StoreError => "the store could not execute the statement"@,
            }),
    {
        match self {
            RepoError::NotFound => "no row matches the given id".to_owned(),
            RepoError::StoreError => "the store could not execute the statement".to_owned(),
        }
    }

    /// Whether this is the distinct "missing row" condition.
    pub fn is_not_found(&self) -> (b: bool)
        ensures
            b == (*self == RepoError::NotFound),
    {
        match self {
            RepoError::NotFound => true,
            RepoError::StoreError => false,
        }
    }
}

} // verus!
