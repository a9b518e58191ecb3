//! The statements that the repository runs against a store, and the
//! replies that a store gives: the seam between the repository's decisions
//! and whatever executes the statements.

use vstd::prelude::*;
use crate::clock::Timestamp;
use crate::error::RepoError;
use crate::label::{Label, label_views};
use crate::note::{Note, note_views};
use crate::store::{Store, StoreView, lists_labels, lists_notes};

verus! {

/// A statement that reads rows and changes nothing.
#[derive(Debug)]
pub enum Query {
    /// `SELECT id, name FROM labels`
    Labels,
    /// `SELECT id, name FROM labels WHERE id = ?`
    Label { id: i64 },
    /// `SELECT id, title, body, created_at, updated_at FROM notes`
    Notes,
    /// `SELECT id, title, body, created_at, updated_at FROM notes WHERE id = ?`
    Note { id: i64 },
    /// The labels joined to one note through the junction table.
    LabelsOf { note_id: i64 },
    /// The label `label_id`, if the junction table joins it to `note_id`.
    LabelOf { note_id: i64, label_id: i64 },
}

/// A statement that writes.
#[derive(Debug)]
pub enum Command {
    /// `INSERT INTO labels (name) VALUES (?)`
    InsertLabel { name: String },
    /// `UPDATE labels SET name = ? WHERE id = ?`
    UpdateLabel { id: i64, name: String },
    /// `DELETE FROM labels WHERE id = ?`
    DeleteLabel { id: i64 },
    /// `INSERT INTO notes (title, body, created_at, updated_at) VALUES (?, ?, ?, ?)`,
    /// with `at` bound to both instants.
    InsertNote { title: String, body: String, at: Timestamp },
    /// `UPDATE notes SET title = ?, body = ?, updated_at = ? WHERE id = ?`
    UpdateNote { id: i64, title: String, body: String, at: Timestamp },
    /// `DELETE FROM notes WHERE id = ?`
    DeleteNote { id: i64 },
    /// Insert the pair into `notes_labels` unless it is already there.
    InsertLink { note_id: i64, label_id: i64 },
    /// `DELETE FROM notes_labels WHERE note_id = ? AND label_id = ?`
    DeleteLink { note_id: i64, label_id: i64 },
}

/// What a store answers to a [`Query`].
#[derive(Debug)]
pub enum Fetched {
    Labels(Vec<Label>),
    Notes(Vec<Note>),
    /// The store could not run the query.
    Failed,
}

/// What a store answers to a [`Command`].
#[derive(Debug)]
pub enum Executed {
    /// An insert into `labels` or `notes` went through under this id.
    Inserted(i64),
    /// Any other command went through and touched this many rows.
    Affected(u64),
    /// The store could not run the command.
    Failed,
}

/// The set that holds `id` and nothing else.
pub open spec fn only(id: i64) -> Set<i64> {
    Set::new(|k: i64| k == id)
}

/// The number of rows that a statement touches when it matches a row or not.
pub open spec fn one_if(matched: bool) -> u64 {
    if matched {
        1
    } else {
        0
    }
}

impl StoreView {
    /// The store after `command` has run against it.
    pub open spec fn after(self, command: Command) -> StoreView {
        match command {
            Command::InsertLabel { name } => self.with_new_label(name@),
            Command::UpdateLabel { id, name } => self.with_label_renamed(id, name@),
            Command::DeleteLabel { id } => self.without_label(id),
            Command::InsertNote { title, body, at } => self.with_new_note(title@, body@, at),
            Command::UpdateNote { id, title, body, at } => self.with_note_rewritten(
                id,
                title@,
                body@,
                at,
            ),
            Command::DeleteNote { id } => self.without_note(id),
            Command::InsertLink { note_id, label_id } => self.with_link(note_id, label_id),
            Command::DeleteLink { note_id, label_id } => self.without_link(note_id, label_id),
        }
    }

    /// `reply` is what this store answers to `command`: the id that an
    /// insert was given, or the number of rows that the command touched;
    /// failure only where an insert finds no id left.
    pub open spec fn reports(self, command: Command, reply: Executed) -> bool {
        match command {
            Command::InsertLabel { name } => match self.next_label_id {
                Some(id) => reply == Executed::Inserted(id),
                None => reply == Executed::Failed,
            },
            Command::UpdateLabel { id, name } => reply == Executed::Affected(
                one_if(self.labels.contains_key(id)),
            ),
            Command::DeleteLabel { id } => reply == Executed::Affected(
                one_if(self.labels.contains_key(id)),
            ),
            Command::InsertNote { title, body, at } => match self.next_note_id {
                Some(id) => reply == Executed::Inserted(id),
                None => reply == Executed::Failed,
            },
            Command::UpdateNote { id, title, body, at } => reply == Executed::Affected(
                one_if(self.notes.contains_key(id)),
            ),
            Command::DeleteNote { id } => reply == Executed::Affected(
                one_if(self.notes.contains_key(id)),
            ),
            Command::InsertLink { note_id, label_id } => reply == Executed::Affected(
                one_if(!self.links.contains((note_id, label_id))),
            ),
            Command::DeleteLink { note_id, label_id } => reply == Executed::Affected(
                one_if(self.links.contains((note_id, label_id))),
            ),
        }
    }

    /// `reply` is what this store answers to `query`: the rows that the
    /// query selects, each once, in some order.
    pub open spec fn fetches(self, query: Query, reply: Fetched) -> bool {
        match query {
            Query::Labels => reply matches Fetched::Labels(rows) && lists_labels(
                label_views(rows@),
                self.labels,
                Set::full(),
            ),
            Query::Label { id } => reply matches Fetched::Labels(rows) && lists_labels(
                label_views(rows@),
                self.labels,
                only(id),
            ),
            Query::Notes => reply matches Fetched::Notes(rows) && lists_notes(
                note_views(rows@),
                self.notes,
            ),
            Query::Note { id } => reply matches Fetched::Notes(rows) && lists_notes(
                note_views(rows@),
                self.notes.restrict(only(id)),
            ),
            Query::LabelsOf { note_id } => reply matches Fetched::Labels(rows) && lists_labels(
                label_views(rows@),
                self.labels,
                self.attached_to(note_id),
            ),
            Query::LabelOf { note_id, label_id } => reply matches Fetched::Labels(rows)
                && lists_labels(
                label_views(rows@),
                self.labels,
                self.attached_to(note_id).intersect(only(label_id)),
            ),
        }
    }
}

impl Fetched {
    /// The label rows of a reply; `StoreError` where the reply holds none.
    pub fn into_labels(self) -> (r: Result<Vec<Label>, RepoError>)
        ensures
            match self {
                Fetched::Labels(rows) => r matches Ok(v) && v == rows,
                _ => r matches Err(e) && e == RepoError::StoreError,
            },
    {
        match self {
            Fetched::Labels(rows) => Ok(rows),
            _ => Err(RepoError::StoreError),
        }
    }

    /// The first label row of a reply to a single-row fetch: `NotFound`
    /// where the reply has no row, `StoreError` where it holds no label rows.
    pub fn into_label(self) -> (r: Result<Label, RepoError>)
        ensures
            match self {
                Fetched::Labels(rows) => if rows@.len() == 0 {
                    r matches Err(e) && e == RepoError::NotFound
                } else {
                    r matches Ok(l) && l == rows@[0]
                },
                _ => r matches Err(e) && e == RepoError::StoreError,
            },
    {
        match self {
            Fetched::Labels(rows) => {
                let mut rows = rows;
                if rows.len() == 0 {
                    Err(RepoError::NotFound)
                } else {
                    Ok(rows.swap_remove(0))
                }
            },
            _ => Err(RepoError::StoreError),
        }
    }

    /// The note rows of a reply; `StoreError` where the reply holds none.
    pub fn into_notes(self) -> (r: Result<Vec<Note>, RepoError>)
        ensures
            match self {
                Fetched::Notes(rows) => r matches Ok(v) && v == rows,
                _ => r matches Err(e) && e == RepoError::StoreError,
            },
    {
        match self {
            Fetched::Notes(rows) => Ok(rows),
            _ => Err(RepoError::StoreError),
        }
    }

    /// The first note row of a reply to a single-row fetch: `NotFound`
    /// where the reply has no row, `StoreError` where it holds no note rows.
    pub fn into_note(self) -> (r: Result<Note, RepoError>)
        ensures
            match self {
                Fetched::Notes(rows) => if rows@.len() == 0 {
                    r matches Err(e) && e == RepoError::NotFound
                } else {
                    r matches Ok(n) && n == rows@[0]
                },
                _ => r matches Err(e) && e == RepoError::StoreError,
            },
    {
        match self {
            Fetched::Notes(rows) => {
                let mut rows = rows;
                if rows.len() == 0 {
                    Err(RepoError::NotFound)
                } else {
                    Ok(rows.swap_remove(0))
                }
            },
            _ => Err(RepoError::StoreError),
        }
    }
}

impl Executed {
    /// The id that an insert was given; `StoreError` for any other reply.
    pub fn into_inserted_id(self) -> (r: Result<i64, RepoError>)
        ensures
            match self {
                Executed::Inserted(id) => r == Ok::<i64, RepoError>(id),
                _ => r == Err::<i64, RepoError>(RepoError::StoreError),
            },
    {
        match self {
            Executed::Inserted(id) => Ok(id),
            _ => Err(RepoError::StoreError),
        }
    }

    /// The number of rows touched by a command that went through, an
    /// insert counting as one row; `StoreError` where the command failed.
    pub fn into_affected(self) -> (r: Result<u64, RepoError>)
        ensures
            match self {
                Executed::Inserted(_) => r == Ok::<u64, RepoError>(1u64),
                Executed::Affected(n) => r == Ok::<u64, RepoError>(n),
                Executed::Failed => r == Err::<u64, RepoError>(RepoError::StoreError),
            },
    {
        match self {
            Executed::Inserted(_) => Ok(1),
            Executed::Affected(n) => Ok(n),
            Executed::Failed => Err(RepoError::StoreError),
        }
    }
}

impl Store {
    /// Runs `query` against the tables. An in-memory store never fails.
    pub fn query(&self, query: &Query) -> (reply: Fetched)
        requires
            self.wf(),
        ensures
            self@.fetches(*query, reply),
    {
        proof {
            self.lemma_view_wf();
        }
        match query {
            Query::Labels => Fetched::Labels(self.label_rows()),
            Query::Label { id } => {
                let mut rows: Vec<Label> = Vec::new();
                if let Some(row) = self.find_label(*id) {
                    rows.push(row);
                    assert(label_views(rows@)[0] == rows@[0]@);
                }
                Fetched::Labels(rows)
            },
            Query::Notes => Fetched::Notes(self.note_rows()),
            Query::Note { id } => {
                let mut rows: Vec<Note> = Vec::new();
                if let Some(row) = self.find_note(*id) {
                    rows.push(row);
                    assert(note_views(rows@)[0] == rows@[0]@);
                }
                Fetched::Notes(rows)
            },
            Query::LabelsOf { note_id } => Fetched::Labels(self.labels_of(*note_id)),
            Query::LabelOf { note_id, label_id } => {
                let mut rows: Vec<Label> = Vec::new();
                if self.is_linked(*note_id, *label_id) {
                    if let Some(row) = self.find_label(*label_id) {
                        rows.push(row);
                        assert(label_views(rows@)[0] == rows@[0]@);
                    }
                }
                Fetched::Labels(rows)
            },
        }
    }

    /// Runs `command` against the tables. The only failure of an in-memory
    /// store is an insert that finds no id left to give.
    pub fn execute(&mut self, command: Command) -> (reply: Executed)
        requires
            old(self).wf(),
        ensures
            final(self).wf(),
            final(self)@ == old(self)@.after(command),
            old(self)@.reports(command, reply),
    {
        match command {
            Command::InsertLabel { name } => match self.insert_label(name.as_str()) {
                Some(id) => Executed::Inserted(id),
                None => Executed::Failed,
            },
            Command::UpdateLabel { id, name } => Executed::Affected(
                count(self.rename_label(id, name)),
            ),
            Command::DeleteLabel { id } => Executed::Affected(count(self.remove_label(id))),
            Command::InsertNote { title, body, at } => match self.insert_note(
                title.as_str(),
                body.as_str(),
                at,
            ) {
                Some(id) => Executed::Inserted(id),
                None => Executed::Failed,
            },
            Command::UpdateNote { id, title, body, at } => Executed::Affected(
                count(self.rewrite_note(id, title, body, at)),
            ),
            Command::DeleteNote { id } => Executed::Affected(count(self.remove_note(id))),
            Command::InsertLink { note_id, label_id } => Executed::Affected(
                count(self.link(note_id, label_id)),
            ),
            Command::DeleteLink { note_id, label_id } => Executed::Affected(
                count(self.unlink(note_id, label_id)),
            ),
        }
    }
}

fn count(matched: bool) -> (n: u64)
    ensures
        n == one_if(matched),
{
    if matched {
        1
    } else {
        0
    }
}

} // verus!
