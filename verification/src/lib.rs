//! A note-taking data-access layer: notes, labels and the many-to-many
//! membership between them, kept in a relational store of three tables.
//!
//! Every repository operation is stated over the mathematical view of the
//! store ([`StoreView`]): two maps from id to row and a set of
//! `(note_id, label_id)` pairs.

pub mod clock;
pub mod error;
pub mod label;
pub mod laws;
pub mod note;
pub mod statement;
pub mod store;

pub use clock::Timestamp;
pub use error::RepoError;
pub use label::{Label, LabelView, NewLabel};
pub use note::{NewNote, Note, NoteView};
pub use statement::{Command, Executed, Fetched, Query};
pub use store::{Store, StoreView};
