//! Notes and their repository operations, membership of labels included.

use vstd::prelude::*;
use crate::clock::{now, Timestamp};
use crate::error::RepoError;
use crate::label::{Label, label_views};
use crate::statement::{Command, Fetched, Query, only};
use crate::store::{Store, StoreView, lists_labels, lists_notes};

verus! {

/// A note row: a store-assigned id, the text, and the two instants.
#[derive(Debug)]
pub struct Note {
    pub id: i64,
    pub title: String,
    pub body: String,
    pub created_at: Timestamp,
    pub updated_at: Timestamp,
}

/// The payload that creates a note; the body is left out.
#[derive(Debug)]
pub struct NewNote {
    pub title: String,
}

/// What a note is, mathematically.
pub struct NoteView {
    pub id: i64,
    pub title: Seq<char>,
    pub body: Seq<char>,
    pub created_at: Timestamp,
    pub updated_at: Timestamp,
}

impl View for Note {
    type V = NoteView;

    open spec fn view(&self) -> NoteView {
        NoteView {
            id: self.id,
            title: self.title@,
            body: self.body@,
            created_at: self.created_at,
            updated_at: self.updated_at,
        }
    }
}

impl View for NewNote {
    type V = Seq<char>;

    open spec fn view(&self) -> Seq<char> {
        self.title@
    }
}

impl PartialEq for Note {
    /// Two notes are equal when they agree in every field.
    fn eq(&self, other: &Note) -> (same: bool) {
        self.id == other.id && self.title == other.title && self.body == other.body
            && self.created_at == other.created_at && self.updated_at == other.updated_at
    }
}

impl vstd::std_specs::cmp::PartialEqSpecImpl for Note {
    open spec fn obeys_eq_spec() -> bool {
        true
    }

    open spec fn eq_spec(&self, other: &Note) -> bool {
        self@ == other@
    }
}

/// The views of a sequence of notes, element by element.
pub open spec fn note_views(rows: Seq<Note>) -> Seq<NoteView> {
    Seq::new(rows.len(), |i: int| rows[i]@)
}

/// The body that a new note gets: the one given, or the empty text.
pub open spec fn body_or_empty(body: Option<&str>) -> Seq<char> {
    match body {
        Some(text) => text@,
        None => Seq::empty(),
    }
}

/// What creating a note at the instant `at` does to the store and returns:
/// a row under the next note id with both instants `at`, or `StoreError`
/// and no change when the store has no note id left to give.
pub open spec fn creates_note(
    before: StoreView,
    after: StoreView,
    r: Result<Note, RepoError>,
    title: Seq<char>,
    body: Seq<char>,
    at: Timestamp,
) -> bool {
    &&& after == before.with_new_note(title, body, at)
    &&& match before.next_note_id {
        Some(id) => r matches Ok(n) && n@ == (NoteView {
            id,
            title,
            body,
            created_at: at,
            updated_at: at,
        }),
        None => r matches Err(e) && e == RepoError::StoreError,
    }
}

/// What updating `note` at the instant `at` does to the store and returns:
/// title and body overwritten, `updated_at` set to `at`, `created_at` kept;
/// or `NotFound` and no change when no row has the note's id.
pub open spec fn updates_note(
    before: StoreView,
    after: StoreView,
    r: Result<Note, RepoError>,
    note: NoteView,
    at: Timestamp,
) -> bool {
    &&& after == before.with_note_rewritten(note.id, note.title, note.body, at)
    &&& match before.note(note.id) {
        Some(row) => r matches Ok(n) && n@ == (NoteView {
            id: note.id,
            title: note.title,
            body: note.body,
            created_at: row.created_at,
            updated_at: at,
        }),
        None => r matches Err(e) && e == RepoError::NotFound,
    }
}

impl Note {
    /// Every note in the store, each once, in an order that the store
    /// chooses. An empty table gives an empty list, not an error.
    pub fn all(store: &Store) -> (r: Result<Vec<Note>, RepoError>)
        requires
            store.wf(),
        ensures
            r matches Ok(rows) && lists_notes(note_views(rows@), store@.notes),
    {
        store.query(&Query::Notes).into_notes()
    }

    /// The note under `id`, or `NotFound` when no row has that id.
    pub fn get(store: &Store, id: i64) -> (r: Result<Note, RepoError>)
        requires
            store.wf(),
        ensures
            match store@.note(id) {
                Some(row) => r matches Ok(n) && n@ == row,
                None => r matches Err(e) && e == RepoError::NotFound,
            },
    {
        let reply = store.query(&Query::Note { id });
        let ghost seen = reply;
        proof {
            if let Fetched::Notes(rows) = seen {
                let views = note_views(rows@);
                let selected = store@.notes.restrict(only(id));
                if rows@.len() > 0 {
                    assert(selected.contains_key(views[0].id));
                } else if store@.notes.contains_key(id) {
                    assert(selected.contains_key(id));
                }
            }
        }
        reply.into_note()
    }

    /// The statement that inserts a note created at the instant `at`: the
    /// body is the one given or else empty, and `at` serves as both
    /// `created_at` and `updated_at`.
    pub fn insertion(title: &str, body_option: Option<&str>, at: Timestamp) -> (command: Command)
        ensures
            (command matches Command::InsertNote { title: t, body: b, at: a } && t@ == title@
                && b@ == body_or_empty(body_option) && a == at),
    {
        let body: &str = match body_option {
            Some(text) => text,
            None => {
                proof {
                    reveal_strlit("");
                    assert(""@ =~= Seq::<char>::empty());
                }
                ""
            },
        };
        Command::InsertNote { title: title.to_owned(), body: body.to_owned(), at }
    }

    /// The statement that updates the row of `note` at the instant `at`:
    /// it carries the note's id, title and body, and `at` for `updated_at`;
    /// the instants that `note` holds are not written.
    pub fn revision(note: Note, at: Timestamp) -> (command: Command)
        ensures
            command == (Command::UpdateNote {
                id: note.id,
                title: note.title,
                body: note.body,
                at,
            }),
    {
        Command::UpdateNote { id: note.id, title: note.title, body: note.body, at }
    }

    /// Creates a note at the instant `at`: inserts it with `at` as both
    /// `created_at` and `updated_at` and an empty body where none is given,
    /// then reads the new row back by the id that the store assigned.
    pub fn new_at(store: &mut Store, title: &str, body_option: Option<&str>, at: Timestamp) -> (r:
        Result<Note, RepoError>)
        requires
            old(store).wf(),
        ensures
            final(store).wf(),
            creates_note(old(store)@, final(store)@, r, title@, body_or_empty(body_option), at),
    {
        let inserted = store.execute(Note::insertion(title, body_option, at));
        match inserted.into_inserted_id() {
            Ok(id) => Note::get(store, id),
            Err(e) => Err(e),
        }
    }

    /// Creates a note now: one reading of the clock serves as both
    /// `created_at` and `updated_at`.
    pub fn new(store: &mut Store, title: &str, body_option: Option<&str>) -> (r: Result<
        Note,
        RepoError,
    >)
        requires
            old(store).wf(),
        ensures
            final(store).wf(),
            exists|at: Timestamp|
                creates_note(
                    old(store)@,
                    final(store)@,
                    r,
                    title@,
                    body_or_empty(body_option),
                    at,
                ),
    {
        let at = now();
        let ghost before = store@;
        let r = Note::new_at(store, title, body_option, at);
        assert(creates_note(before, store@, r, title@, body_or_empty(body_option), at));
        r
    }

    /// Updates the row under `note.id` at the instant `at`: overwrites
    /// title and body, sets `updated_at` to `at` and leaves `created_at` as
    /// the store has it, whatever `note` carries in the two instants; then
    /// reads the row back.
    pub fn update_at(store: &mut Store, note: Note, at: Timestamp) -> (r: Result<Note, RepoError>)
        requires
            old(store).wf(),
        ensures
            final(store).wf(),
            updates_note(old(store)@, final(store)@, r, note@, at),
    {
        let id = note.id;
        let updated = store.execute(Note::revision(note, at));
        match updated.into_affected() {
            Ok(_) => Note::get(store, id),
            Err(e) => Err(e),
        }
    }

    /// Updates the row under `note.id` now.
    pub fn update(store: &mut Store, note: Note) -> (r: Result<Note, RepoError>)
        requires
            old(store).wf(),
        ensures
            final(store).wf(),
            exists|at: Timestamp| updates_note(old(store)@, final(store)@, r, note@, at),
    {
        let at = now();
        let ghost before = store@;
        let ghost wanted = note@;
        let r = Note::update_at(store, note, at);
        assert(updates_note(before, store@, r, wanted, at));
        r
    }

    /// Deletes the row under `id`. Succeeds whether or not there was such a
    /// row; rows of the junction table that name the note stay.
    pub fn delete(store: &mut Store, id: i64) -> (r: Result<String, RepoError>)
        requires
            old(store).wf(),
        ensures
            final(store).wf(),
            final(store)@ == old(store)@.without_note(id),
            r matches Ok(text) && text@ == "Note deleted"@,
    {
        let deleted = store.execute(Command::DeleteNote { id });
        match deleted.into_affected() {
            Ok(_) => Ok("Note deleted".to_owned()),
            Err(e) => Err(e),
        }
    }

    /// Attaches the label `label_id` to this note. Attaching twice is the
    /// same as attaching once. Returns the number of junction rows added.
    pub fn add_label(self, store: &mut Store, label_id: i64) -> (r: Result<u64, RepoError>)
        requires
            old(store).wf(),
        ensures
            final(store).wf(),
            final(store)@ == old(store)@.with_link(self.id, label_id),
            r matches Ok(n) && n == (if old(store)@.links.contains((self.id, label_id)) {
                0u64
            } else {
                1u64
            }),
    {
        store.execute(Command::InsertLink { note_id: self.id, label_id }).into_affected()
    }

    /// Detaches the label `label_id` from this note: the junction row with
    /// both this note's id and `label_id` goes, and no other. Returns the
    /// number of junction rows removed.
    pub fn delete_label(self, store: &mut Store, label_id: i64) -> (r: Result<u64, RepoError>)
        requires
            old(store).wf(),
        ensures
            final(store).wf(),
            final(store)@ == old(store)@.without_link(self.id, label_id),
            r matches Ok(n) && n == (if old(store)@.links.contains((self.id, label_id)) {
                1u64
            } else {
                0u64
            }),
    {
        store.execute(Command::DeleteLink { note_id: self.id, label_id }).into_affected()
    }

    /// The labels attached to this note, each once, in an order that the
    /// store chooses. A junction row whose label is gone contributes nothing.
    pub fn get_labels(self, store: &Store) -> (r: Result<Vec<Label>, RepoError>)
        requires
            store.wf(),
        ensures
            r matches Ok(rows) && lists_labels(
                label_views(rows@),
                store@.labels,
                store@.attached_to(self.id),
            ),
    {
        store.query(&Query::LabelsOf { note_id: self.id }).into_labels()
    }

    /// The label `label_id` if it is attached to this note and its row
    /// exists; `NotFound` otherwise.
    pub fn get_label(self, store: &Store, label_id: i64) -> (r: Result<Label, RepoError>)
        requires
            store.wf(),
        ensures
            match store@.attached_label(self.id, label_id) {
                Some(row) => r matches Ok(l) && l@ == row,
                None => r matches Err(e) && e == RepoError::NotFound,
            },
    {
        let reply = store.query(&Query::LabelOf { note_id: self.id, label_id });
        let ghost seen = reply;
        proof {
            if let Fetched::Labels(rows) = seen {
                let views = label_views(rows@);
                let keep = store@.attached_to(self.id).intersect(only(label_id));
                if rows@.len() > 0 {
                    assert(store@.labels.contains_key(views[0].id));
                    assert(keep.contains(views[0].id));
                } else if store@.attached_label(self.id, label_id).is_some() {
                    assert(keep.contains(label_id));
                }
            }
        }
        reply.into_label()
    }

    /// A copy of this note, equal in every field.
    pub fn duplicate(&self) -> (copy: Note)
        ensures
            copy == *self,
    {
        Note {
            id: self.id,
            title: self.title.clone(),
            body: self.body.clone(),
            created_at: self.created_at,
            updated_at: self.updated_at,
        }
    }
}

} // verus!
