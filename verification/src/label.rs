//! Labels (tags) and their repository operations.

use vstd::prelude::*;
use crate::error::RepoError;
use crate::statement::{Command, Fetched, Query, only};
use crate::store::{Store, lists_labels};

verus! {

/// A label row: a store-assigned id and a name.
#[derive(Debug)]
pub struct Label {
    pub id: i64,
    pub name: String,
}

/// The payload that creates a label.
#[derive(Debug)]
pub struct NewLabel {
    pub name: String,
}

/// What a label is, mathematically.
pub struct LabelView {
    pub id: i64,
    pub name: Seq<char>,
}

impl View for Label {
    type V = LabelView;

    open spec fn view(&self) -> LabelView {
        LabelView { id: self.id, name: self.name@ }
    }
}

impl View for NewLabel {
    type V = Seq<char>;

    open spec fn view(&self) -> Seq<char> {
        self.name@
    }
}

impl PartialEq for Label {
    /// Two labels are equal when id and name are.
    fn eq(&self, other: &Label) -> (same: bool) {
        self.id == other.id && self.name == other.name
    }
}

impl vstd::std_specs::cmp::PartialEqSpecImpl for Label {
    open spec fn obeys_eq_spec() -> bool {
        true
    }

    open spec fn eq_spec(&self, other: &Label) -> bool {
        self@ == other@
    }
}

/// The views of a sequence of labels, element by element.
pub open spec fn label_views(rows: Seq<Label>) -> Seq<LabelView> {
    Seq::new(rows.len(), |i: int| rows[i]@)
}

impl Label {
    /// Every label in the store, each once, in an order that the store
    /// chooses. An empty table gives an empty list, not an error.
    pub fn all(store: &Store) -> (r: Result<Vec<Label>, RepoError>)
        requires
            store.wf(),
        ensures
            r matches Ok(rows) && lists_labels(label_views(rows@), store@.labels, Set::full()),
    {
        store.query(&Query::Labels).into_labels()
    }

    /// The label under `id`, or `NotFound` when no row has that id.
    pub fn get(store: &Store, id: i64) -> (r: Result<Label, RepoError>)
        requires
            store.wf(),
        ensures
            match store@.label(id) {
                Some(row) => r matches Ok(l) && l@ == row,
                None => r matches Err(e) && e == RepoError::NotFound,
            },
    {
        let reply = store.query(&Query::Label { id });
        let ghost seen = reply;
        proof {
            if let Fetched::Labels(rows) = seen {
                let views = label_views(rows@);
                if rows@.len() > 0 {
                    assert(store@.labels.contains_key(views[0].id));
                } else if store@.labels.contains_key(id) {
                    assert(only(id).contains(id));
                }
            }
        }
        reply.into_label()
    }

    /// Inserts a label named `name`, then reads the new row back by the id
    /// that the store assigned. `StoreError` exactly when the store has no
    /// label id left to give; the store is then unchanged.
    pub fn new(store: &mut Store, name: &str) -> (r: Result<Label, RepoError>)
        requires
            old(store).wf(),
        ensures
            final(store).wf(),
            final(store)@ == old(store)@.with_new_label(name@),
            match old(store)@.next_label_id {
                Some(id) => r matches Ok(l) && l@ == (LabelView { id, name: name@ }),
                None => r matches Err(e) && e == RepoError::StoreError,
            },
    {
        let inserted = store.execute(Command::InsertLabel { name: name.to_owned() });
        match inserted.into_inserted_id() {
            Ok(id) => Label::get(store, id),
            Err(e) => Err(e),
        }
    }

    /// Overwrites the name of the row under `label.id`, then reads the row
    /// back. `NotFound` exactly when no row had that id; the store is then
    /// unchanged.
    pub fn update(store: &mut Store, label: Label) -> (r: Result<Label, RepoError>)
        requires
            old(store).wf(),
        ensures
            final(store).wf(),
            final(store)@ == old(store)@.with_label_renamed(label.id, label.name@),
            match old(store)@.label(label.id) {
                Some(_) => r matches Ok(l) && l@ == label@,
                None => r matches Err(e) && e == RepoError::NotFound,
            },
    {
        let id = label.id;
        let updated = store.execute(Command::UpdateLabel { id, name: label.name });
        match updated.into_affected() {
            Ok(_) => Label::get(store, id),
            Err(e) => Err(e),
        }
    }

    /// Deletes the row under `id`. Succeeds whether or not there was such a
    /// row; rows of the junction table that name the label stay.
    pub fn delete(store: &mut Store, id: i64) -> (r: Result<String, RepoError>)
        requires
            old(store).wf(),
        ensures
            final(store).wf(),
            final(store)@ == old(store)@.without_label(id),
            r matches Ok(text) && text@ == "Label deleted"@,
    {
        let deleted = store.execute(Command::DeleteLabel { id });
        match deleted.into_affected() {
            Ok(_) => Ok("Label deleted".to_owned()),
            Err(e) => Err(e),
        }
    }

    /// A copy of this label with the same id and name.
    pub fn duplicate(&self) -> (copy: Label)
        ensures
            copy == *self,
    {
        Label { id: self.id, name: self.name.clone() }
    }
}

} // verus!
