//! The relational store: a `labels` table, a `notes` table and the
//! `notes_labels` junction table, with the statements that run against them.

use vstd::prelude::*;
use crate::clock::Timestamp;
use crate::label::{Label, LabelView, label_views};
use crate::note::{Note, NoteView, note_views};

verus! {

/// The store as mathematics: each table a map from id to row, the junction
/// table a set of `(note_id, label_id)` pairs, and the id that each table
/// hands out next (`None` once the ids are used up).
pub struct StoreView {
    pub labels: Map<i64, LabelView>,
    pub notes: Map<i64, NoteView>,
    pub links: Set<(i64, i64)>,
    pub next_label_id: Option<i64>,
    pub next_note_id: Option<i64>,
}

/// The id that follows `id`, or `None` at the top of the range.
pub open spec fn following_id(id: i64) -> Option<i64> {
    if id < i64::MAX {
        Some((id + 1) as i64)
    } else {
        None
    }
}

/// `id` has been handed out by a table whose next id is `next`: ids start
/// at 1 and are given in ascending order without reuse.
pub open spec fn issued(id: i64, next: Option<i64>) -> bool {
    1 <= id && (next matches Some(n) ==> id < n)
}

impl StoreView {
    /// Every row sits under its own id, and only issued ids are in use.
    pub open spec fn wf(self) -> bool {
        &&& self.next_label_id matches Some(n) ==> 1 <= n
        &&& self.next_note_id matches Some(n) ==> 1 <= n
        &&& forall|id: i64| #[trigger]
            self.labels.contains_key(id) ==> self.labels[id].id == id && issued(
                id,
                self.next_label_id,
            )
        &&& forall|id: i64| #[trigger]
            self.notes.contains_key(id) ==> self.notes[id].id == id && issued(
                id,
                self.next_note_id,
            )
    }

    /// The store with no row in any table, about to hand out id 1.
    pub open spec fn empty() -> StoreView {
        StoreView {
            labels: Map::empty(),
            notes: Map::empty(),
            links: Set::empty(),
            next_label_id: Some(1i64),
            next_note_id: Some(1i64),
        }
    }

    /// The label row under `id`, if there is one.
    pub open spec fn label(self, id: i64) -> Option<LabelView> {
        if self.labels.contains_key(id) {
            Some(self.labels[id])
        } else {
            None
        }
    }

    /// The note row under `id`, if there is one.
    pub open spec fn note(self, id: i64) -> Option<NoteView> {
        if self.notes.contains_key(id) {
            Some(self.notes[id])
        } else {
            None
        }
    }

    /// After inserting a label named `name` under the next label id.
    /// Without an id left to give, the store stays as it is.
    pub open spec fn with_new_label(self, name: Seq<char>) -> StoreView {
        match self.next_label_id {
            Some(id) => StoreView {
                labels: self.labels.insert(id, LabelView { id, name }),
                next_label_id: following_id(id),
                ..self
            },
            None => self,
        }
    }

    /// After overwriting the name of the label under `id`; no row, no change.
    pub open spec fn with_label_renamed(self, id: i64, name: Seq<char>) -> StoreView {
        if self.labels.contains_key(id) {
            StoreView { labels: self.labels.insert(id, LabelView { id, name }), ..self }
        } else {
            self
        }
    }

    /// After deleting the label row under `id`. Junction rows stay.
    pub open spec fn without_label(self, id: i64) -> StoreView {
        StoreView { labels: self.labels.remove(id), ..self }
    }

    /// After inserting a note under the next note id, both instants `at`.
    /// Without an id left to give, the store stays as it is.
    pub open spec fn with_new_note(
        self,
        title: Seq<char>,
        body: Seq<char>,
        at: Timestamp,
    ) -> StoreView {
        match self.next_note_id {
            Some(id) => StoreView {
                notes: self.notes.insert(
                    id,
                    NoteView { id, title, body, created_at: at, updated_at: at },
                ),
                next_note_id: following_id(id),
                ..self
            },
            None => self,
        }
    }

    /// After overwriting title and body of the note under `id` and setting
    /// its `updated_at` to `at`; `created_at` is kept. No row, no change.
    pub open spec fn with_note_rewritten(
        self,
        id: i64,
        title: Seq<char>,
        body: Seq<char>,
        at: Timestamp,
    ) -> StoreView {
        if self.notes.contains_key(id) {
            StoreView {
                notes: self.notes.insert(
                    id,
                    NoteView {
                        id,
                        title,
                        body,
                        created_at: self.notes[id].created_at,
                        updated_at: at,
                    },
                ),
                ..self
            }
        } else {
            self
        }
    }

    /// After deleting the note row under `id`. Junction rows stay.
    pub open spec fn without_note(self, id: i64) -> StoreView {
        StoreView { notes: self.notes.remove(id), ..self }
    }

    /// After recording that `label_id` is attached to `note_id`.
    pub open spec fn with_link(self, note_id: i64, label_id: i64) -> StoreView {
        StoreView { links: self.links.insert((note_id, label_id)), ..self }
    }

    /// After removing the pair `(note_id, label_id)` from the junction table.
    pub open spec fn without_link(self, note_id: i64, label_id: i64) -> StoreView {
        StoreView { links: self.links.remove((note_id, label_id)), ..self }
    }

    /// The ids of the labels attached to `note_id`.
    pub open spec fn attached_to(self, note_id: i64) -> Set<i64> {
        Set::new(|label_id: i64| self.links.contains((note_id, label_id)))
    }

    /// The label under `label_id`, if it is attached to `note_id` and its
    /// row exists.
    pub open spec fn attached_label(self, note_id: i64, label_id: i64) -> Option<LabelView> {
        if self.links.contains((note_id, label_id)) {
            self.label(label_id)
        } else {
            None
        }
    }
}

/// `rows` lists, each once and in some order, the rows of `table` whose id
/// is in `keep`.
pub open spec fn lists_labels(
    rows: Seq<LabelView>,
    table: Map<i64, LabelView>,
    keep: Set<i64>,
) -> bool {
    &&& forall|i: int, j: int| 0 <= i < j < rows.len() ==> rows[i].id != rows[j].id
    &&& forall|i: int|
        0 <= i < rows.len() ==> {
            &&& table.contains_key((#[trigger] rows[i]).id)
            &&& table[rows[i].id] == rows[i]
            &&& keep.contains(rows[i].id)
        }
    &&& forall|id: i64|
        #[trigger] table.contains_key(id) && keep.contains(id) ==> exists|i: int|
            0 <= i < rows.len() && (#[trigger] rows[i]).id == id
}

/// `rows` lists, each once and in some order, the rows of `table`.
pub open spec fn lists_notes(rows: Seq<NoteView>, table: Map<i64, NoteView>) -> bool {
    &&& forall|i: int, j: int| 0 <= i < j < rows.len() ==> rows[i].id != rows[j].id
    &&& forall|i: int|
        0 <= i < rows.len() ==> {
            &&& table.contains_key((#[trigger] rows[i]).id)
            &&& table[rows[i].id] == rows[i]
        }
    &&& forall|id: i64|
        #[trigger] table.contains_key(id) ==> exists|i: int|
            0 <= i < rows.len() && (#[trigger] rows[i]).id == id
}

spec fn distinct_labels(rows: Seq<Label>) -> bool {
    forall|i: int, j: int| 0 <= i < j < rows.len() ==> rows[i].id != rows[j].id
}

spec fn has_label(rows: Seq<Label>, id: i64) -> bool {
    exists|i: int| 0 <= i < rows.len() && (#[trigger] rows[i]).id == id
}

spec fn label_slot(rows: Seq<Label>, id: i64) -> int {
    choose|i: int| 0 <= i < rows.len() && (#[trigger] rows[i]).id == id
}

spec fn label_table(rows: Seq<Label>) -> Map<i64, LabelView> {
    Map::new(|id: i64| has_label(rows, id), |id: i64| rows[label_slot(rows, id)]@)
}

proof fn lemma_label_table(rows: Seq<Label>)
    requires
        distinct_labels(rows),
    ensures
        lists_labels(label_views(rows), label_table(rows), Set::full()),
        forall|i: int|
            0 <= i < rows.len() ==> label_table(rows).contains_key((#[trigger] rows[i]).id)
                && label_table(rows)[rows[i].id] == rows[i]@,
        forall|id: i64| #[trigger]
            label_table(rows).contains_key(id) ==> has_label(rows, id),
{
    let t = label_table(rows);
    assert forall|i: int| 0 <= i < rows.len() implies t.contains_key((#[trigger] rows[i]).id)
        && t[rows[i].id] == rows[i]@ by {
        let id = rows[i].id;
        assert(has_label(rows, id));
        let j = label_slot(rows, id);
        assert(0 <= j < rows.len() && rows[j].id == id);
        assert(i == j);
    }
    let v = label_views(rows);
    assert forall|id: i64| #[trigger] t.contains_key(id) && Set::<i64>::full().contains(id)
        implies exists|i: int| 0 <= i < v.len() && (#[trigger] v[i]).id == id by {
        let j = label_slot(rows, id);
        assert(v[j].id == id);
    }
    assert forall|i: int| 0 <= i < v.len() implies t.contains_key((#[trigger] v[i]).id) && t[v[i].id]
        == v[i] && Set::<i64>::full().contains(v[i].id) by {
        assert(v[i] == rows[i]@);
        assert(t.contains_key(rows[i].id));
    }
}

/// A table is determined by its rows: a map that holds each row under its
/// id and nothing else is the table of those rows.
proof fn lemma_label_table_is(rows: Seq<Label>, m: Map<i64, LabelView>)
    requires
        distinct_labels(rows),
        forall|i: int|
            0 <= i < rows.len() ==> m.contains_key((#[trigger] rows[i]).id) && m[rows[i].id]
                == rows[i]@,
        forall|id: i64| #[trigger] m.contains_key(id) ==> has_label(rows, id),
    ensures
        label_table(rows) == m,
{
    lemma_label_table(rows);
    let t = label_table(rows);
    assert forall|id: i64| t.contains_key(id) == m.contains_key(id) by {
        if t.contains_key(id) {
            let j = label_slot(rows, id);
            assert(rows[j].id == id);
        }
    }
    assert forall|id: i64| t.contains_key(id) implies t[id] == m[id] by {
        let j = label_slot(rows, id);
        assert(rows[j].id == id);
    }
    assert(t =~= m);
}

spec fn distinct_notes(rows: Seq<Note>) -> bool {
    forall|i: int, j: int| 0 <= i < j < rows.len() ==> rows[i].id != rows[j].id
}

spec fn has_note(rows: Seq<Note>, id: i64) -> bool {
    exists|i: int| 0 <= i < rows.len() && (#[trigger] rows[i]).id == id
}

spec fn note_slot(rows: Seq<Note>, id: i64) -> int {
    choose|i: int| 0 <= i < rows.len() && (#[trigger] rows[i]).id == id
}

spec fn note_table(rows: Seq<Note>) -> Map<i64, NoteView> {
    Map::new(|id: i64| has_note(rows, id), |id: i64| rows[note_slot(rows, id)]@)
}

proof fn lemma_note_table(rows: Seq<Note>)
    requires
        distinct_notes(rows),
    ensures
        lists_notes(note_views(rows), note_table(rows)),
        forall|i: int|
            0 <= i < rows.len() ==> note_table(rows).contains_key((#[trigger] rows[i]).id)
                && note_table(rows)[rows[i].id] == rows[i]@,
        forall|id: i64| #[trigger]
            note_table(rows).contains_key(id) ==> has_note(rows, id),
{
    let t = note_table(rows);
    assert forall|i: int| 0 <= i < rows.len() implies t.contains_key((#[trigger] rows[i]).id)
        && t[rows[i].id] == rows[i]@ by {
        let id = rows[i].id;
        assert(has_note(rows, id));
        let j = note_slot(rows, id);
        assert(0 <= j < rows.len() && rows[j].id == id);
        assert(i == j);
    }
    let v = note_views(rows);
    assert forall|id: i64| #[trigger] t.contains_key(id) implies exists|i: int| 0 <= i < v.len() && (#[trigger] v[i]).id == id by {
        let j = note_slot(rows, id);
        assert(v[j].id == id);
    }
    assert forall|i: int| 0 <= i < v.len() implies t.contains_key((#[trigger] v[i]).id) && t[v[i].id]
        == v[i] by {
        assert(v[i] == rows[i]@);
        assert(t.contains_key(rows[i].id));
    }
}

/// A table is determined by its rows: a map that holds each row under its
/// id and nothing else is the table of those rows.
proof fn lemma_note_table_is(rows: Seq<Note>, m: Map<i64, NoteView>)
    requires
        distinct_notes(rows),
        forall|i: int|
            0 <= i < rows.len() ==> m.contains_key((#[trigger] rows[i]).id) && m[rows[i].id]
                == rows[i]@,
        forall|id: i64| #[trigger] m.contains_key(id) ==> has_note(rows, id),
    ensures
        note_table(rows) == m,
{
    lemma_note_table(rows);
    let t = note_table(rows);
    assert forall|id: i64| t.contains_key(id) == m.contains_key(id) by {
        if t.contains_key(id) {
            let j = note_slot(rows, id);
            assert(rows[j].id == id);
        }
    }
    assert forall|id: i64| t.contains_key(id) implies t[id] == m[id] by {
        let j = note_slot(rows, id);
        assert(rows[j].id == id);
    }
    assert(t =~= m);
}

spec fn link_set(links: Seq<(i64, i64)>) -> Set<(i64, i64)> {
    Set::new(|p: (i64, i64)| links.contains(p))
}

/// An in-memory relational store with the three tables of the schema.
pub struct Store {
    labels: Vec<Label>,
    notes: Vec<Note>,
    links: Vec<(i64, i64)>,
    next_label_id: Option<i64>,
    next_note_id: Option<i64>,
}

impl View for Store {
    type V = StoreView;

    closed spec fn view(&self) -> StoreView {
        StoreView {
            labels: label_table(self.labels@),
            notes: note_table(self.notes@),
            links: link_set(self.links@),
            next_label_id: self.next_label_id,
            next_note_id: self.next_note_id,
        }
    }
}

impl Store {
    /// The representation invariant: ids are unique within a table and were
    /// issued by it, and no pair occurs twice in the junction table.
    pub closed spec fn wf(&self) -> bool {
        &&& distinct_labels(self.labels@)
        &&& distinct_notes(self.notes@)
        &&& self.links@.no_duplicates()
        &&& self.next_label_id matches Some(n) ==> 1 <= n
        &&& self.next_note_id matches Some(n) ==> 1 <= n
        &&& forall|i: int|
            0 <= i < self.labels@.len() ==> issued(
                (#[trigger] self.labels@[i]).id,
                self.next_label_id,
            )
        &&& forall|i: int|
            0 <= i < self.notes@.len() ==> issued(
                (#[trigger] self.notes@[i]).id,
                self.next_note_id,
            )
    }

    /// A well-formed store has a well-formed view.
    pub proof fn lemma_view_wf(&self)
        requires
            self.wf(),
        ensures
            self@.wf(),
    {
        lemma_label_table(self.labels@);
        lemma_note_table(self.notes@);
        assert forall|id: i64| #[trigger] self@.labels.contains_key(id) implies self@.labels[id].id
            == id && issued(id, self@.next_label_id) by {
            let j = label_slot(self.labels@, id);
            assert(self.labels@[j].id == id);
        }
        assert forall|id: i64| #[trigger] self@.notes.contains_key(id) implies self@.notes[id].id
            == id && issued(id, self@.next_note_id) by {
            let j = note_slot(self.notes@, id);
            assert(self.notes@[j].id == id);
        }
    }

    /// An empty store whose tables hand out id 1 first.
    pub fn new() -> (store: Store)
        ensures
            store.wf(),
            store@ == StoreView::empty(),
    {
        let store = Store {
            labels: Vec::new(),
            notes: Vec::new(),
            links: Vec::new(),
            next_label_id: Some(1),
            next_note_id: Some(1),
        };
        proof {
            assert(store@.labels =~= Map::empty());
            assert(store@.notes =~= Map::empty());
            assert(store@.links =~= Set::empty());
        }
        store
    }

    fn label_position(&self, id: i64) -> (at: Option<usize>)
        ensures
            at matches Some(i) ==> i < self.labels@.len() && self.labels@[i as int].id == id,
            at.is_none() ==> !has_label(self.labels@, id),
    {
        let mut i: usize = 0;
        while i < self.labels.len()
            invariant
                0 <= i <= self.labels@.len(),
                forall|j: int| 0 <= j < i ==> (#[trigger] self.labels@[j]).id != id,
            decreases self.labels@.len() - i,
        {
            if self.labels[i].id == id {
                return Some(i);
            }
            i += 1;
        }
        None
    }

    /// `SELECT id, name FROM labels WHERE id = ?`: the row under `id`.
    pub fn find_label(&self, id: i64) -> (row: Option<Label>)
        requires
            self.wf(),
        ensures
            row.is_some() == self@.labels.contains_key(id),
            row matches Some(l) ==> l@ == self@.labels[id],
    {
        proof {
            lemma_label_table(self.labels@);
        }
        match self.label_position(id) {
            Some(i) => {
                assert(self@.labels[id] == self.labels@[i as int]@);
                Some(self.labels[i].duplicate())
            },
            None => None,
        }
    }

    /// `SELECT id, name FROM labels`: every label row, each once.
    pub fn label_rows(&self) -> (rows: Vec<Label>)
        requires
            self.wf(),
        ensures
            lists_labels(label_views(rows@), self@.labels, Set::full()),
    {
        let mut out: Vec<Label> = Vec::new();
        let mut i: usize = 0;
        while i < self.labels.len()
            invariant
                0 <= i <= self.labels@.len(),
                out@.len() == i,
                forall|j: int| 0 <= j < i ==> out@[j] == self.labels@[j],
            decreases self.labels@.len() - i,
        {
            out.push(self.labels[i].duplicate());
            i += 1;
        }
        proof {
            assert(out@ =~= self.labels@);
            lemma_label_table(self.labels@);
        }
        out
    }

    /// `INSERT INTO labels (name) VALUES (?)`: adds a row under the next
    /// label id and returns that id, or `None`, with the store unchanged,
    /// when the table has no id left to give.
    pub fn insert_label(&mut self, name: &str) -> (assigned: Option<i64>)
        requires
            old(self).wf(),
        ensures
            final(self).wf(),
            final(self)@ == old(self)@.with_new_label(name@),
            assigned == old(self)@.next_label_id,
    {
        match self.next_label_id {
            None => None,
            Some(id) => {
                let ghost before = self.labels@;
                let ghost m = label_table(before).insert(id, LabelView { id, name: name@ });
                self.labels.push(Label { id, name: name.to_owned() });
                self.next_label_id = if id < i64::MAX {
                    Some(id + 1)
                } else {
                    None
                };
                proof {
                    let rows = self.labels@;
                    lemma_label_table(before);
                    assert forall|i: int| 0 <= i < rows.len() implies m.contains_key(
                        (#[trigger] rows[i]).id,
                    ) && m[rows[i].id] == rows[i]@ by {
                        if i < before.len() {
                            assert(rows[i] == before[i]);
                            assert(issued(before[i].id, Some(id)));
                        }
                    }
                    assert forall|k: i64| #[trigger] m.contains_key(k) implies has_label(
                        rows,
                        k,
                    ) by {
                        if k == id {
                            assert(rows[before.len() as int].id == k);
                        } else {
                            let j = label_slot(before, k);
                            assert(rows[j] == before[j]);
                        }
                    }
                    assert forall|i: int, j: int| 0 <= i < j < rows.len() implies rows[i].id
                        != rows[j].id by {
                        assert(rows[i] == before[i]);
                        assert(issued(before[i].id, Some(id)));
                        if j < before.len() {
                            assert(rows[j] == before[j]);
                        }
                    }
                    lemma_label_table_is(rows, m);
                    assert forall|i: int| 0 <= i < rows.len() implies issued(
                        (#[trigger] rows[i]).id,
                        self.next_label_id,
                    ) by {
                        if i < before.len() {
                            assert(rows[i] == before[i]);
                            assert(issued(before[i].id, Some(id)));
                        }
                    }
                }
                Some(id)
            },
        }
    }

    /// `UPDATE labels SET name = ? WHERE id = ?`: overwrites the name of the
    /// row under `id` and says whether there was such a row.
    pub fn rename_label(&mut self, id: i64, name: String) -> (matched: bool)
        requires
            old(self).wf(),
        ensures
            final(self).wf(),
            final(self)@ == old(self)@.with_label_renamed(id, name@),
            matched == old(self)@.labels.contains_key(id),
    {
        proof {
            lemma_label_table(self.labels@);
        }
        match self.label_position(id) {
            None => false,
            Some(i) => {
                let ghost before = self.labels@;
                let ghost m = label_table(before).insert(id, LabelView { id, name: name@ });
                self.labels.set(i, Label { id, name });
                proof {
                    let rows = self.labels@;
                    assert(label_table(before).contains_key(before[i as int].id));
                    assert forall|k: int| 0 <= k < rows.len() implies m.contains_key(
                        (#[trigger] rows[k]).id,
                    ) && m[rows[k].id] == rows[k]@ && rows[k].id == before[k].id by {
                        if k != i {
                            assert(rows[k] == before[k]);
                        }
                    }
                    assert forall|k: i64| #[trigger] m.contains_key(k) implies has_label(
                        rows,
                        k,
                    ) by {
                        if k == id {
                            assert(rows[i as int].id == k);
                        } else {
                            let j = label_slot(before, k);
                            assert(rows[j].id == before[j].id);
                        }
                    }
                    assert forall|a: int, b: int| 0 <= a < b < rows.len() implies rows[a].id
                        != rows[b].id by {
                        assert(rows[a].id == before[a].id);
                        assert(rows[b].id == before[b].id);
                    }
                    lemma_label_table_is(rows, m);
                    assert forall|k: int| 0 <= k < rows.len() implies issued(
                        (#[trigger] rows[k]).id,
                        self.next_label_id,
                    ) by {
                        assert(rows[k].id == before[k].id);
                    }
                }
                true
            },
        }
    }

    /// `DELETE FROM labels WHERE id = ?`: removes the row under `id`, if
    /// there is one, and says whether there was. The junction table is not
    /// touched.
    pub fn remove_label(&mut self, id: i64) -> (removed: bool)
        requires
            old(self).wf(),
        ensures
            final(self).wf(),
            final(self)@ == old(self)@.without_label(id),
            removed == old(self)@.labels.contains_key(id),
    {
        proof {
            lemma_label_table(self.labels@);
        }
        match self.label_position(id) {
            None => {
                assert(self@.labels =~= self@.labels.remove(id));
                false
            },
            Some(i) => {
                let ghost before = self.labels@;
                let ghost m = label_table(before).remove(id);
                assert(label_table(before).contains_key(before[i as int].id));
                self.labels.remove(i);
                proof {
                    let rows = self.labels@;
                    assert forall|k: int| 0 <= k < rows.len() implies (#[trigger] rows[k])
                        == before[if k < i { k } else { k + 1 }] by {}
                    assert forall|k: int| 0 <= k < rows.len() implies m.contains_key(
                        (#[trigger] rows[k]).id,
                    ) && m[rows[k].id] == rows[k]@ by {
                        let s = if k < i { k } else { k + 1 };
                        assert(rows[k] == before[s]);
                        assert(label_table(before).contains_key(before[s].id));
                    }
                    assert forall|k: i64| #[trigger] m.contains_key(k) implies has_label(
                        rows,
                        k,
                    ) by {
                        let j = label_slot(before, k);
                        assert(before[j].id == k);
                        let t = if j < i { j } else { j - 1 };
                        assert(rows[t] == before[j]);
                    }
                    assert forall|a: int, b: int| 0 <= a < b < rows.len() implies rows[a].id
                        != rows[b].id by {
                        assert(rows[a] == before[if a < i { a } else { a + 1 }]);
                        assert(rows[b] == before[if b < i { b } else { b + 1 }]);
                    }
                    lemma_label_table_is(rows, m);
                    assert forall|k: int| 0 <= k < rows.len() implies issued(
                        (#[trigger] rows[k]).id,
                        self.next_label_id,
                    ) by {
                        assert(rows[k] == before[if k < i { k } else { k + 1 }]);
                    }
                }
                true
            },
        }
    }

    fn note_position(&self, id: i64) -> (at: Option<usize>)
        ensures
            at matches Some(i) ==> i < self.notes@.len() && self.notes@[i as int].id == id,
            at.is_none() ==> !has_note(self.notes@, id),
    {
        let mut i: usize = 0;
        while i < self.notes.len()
            invariant
                0 <= i <= self.notes@.len(),
                forall|j: int| 0 <= j < i ==> (#[trigger] self.notes@[j]).id != id,
            decreases self.notes@.len() - i,
        {
            if self.notes[i].id == id {
                return Some(i);
            }
            i += 1;
        }
        None
    }

    /// `SELECT id, title, body, created_at, updated_at FROM notes WHERE id = ?`: the row under `id`.
    pub fn find_note(&self, id: i64) -> (row: Option<Note>)
        requires
            self.wf(),
        ensures
            row.is_some() == self@.notes.contains_key(id),
            row matches Some(l) ==> l@ == self@.notes[id],
    {
        proof {
            lemma_note_table(self.notes@);
        }
        match self.note_position(id) {
            Some(i) => {
                assert(self@.notes[id] == self.notes@[i as int]@);
                Some(self.notes[i].duplicate())
            },
            None => None,
        }
    }

    /// `SELECT id, title, body, created_at, updated_at FROM notes`: every note row, each once.
    pub fn note_rows(&self) -> (rows: Vec<Note>)
        requires
            self.wf(),
        ensures
            lists_notes(note_views(rows@), self@.notes),
    {
        let mut out: Vec<Note> = Vec::new();
        let mut i: usize = 0;
        while i < self.notes.len()
            invariant
                0 <= i <= self.notes@.len(),
                out@.len() == i,
                forall|j: int| 0 <= j < i ==> out@[j] == self.notes@[j],
            decreases self.notes@.len() - i,
        {
            out.push(self.notes[i].duplicate());
            i += 1;
        }
        proof {
            assert(out@ =~= self.notes@);
            lemma_note_table(self.notes@);
        }
        out
    }

    /// `INSERT INTO notes (title, body, created_at, updated_at) VALUES
    /// (?, ?, ?, ?)` with `at` for both instants: adds a row under the next
    /// note id and returns that id, or `None`, with the store unchanged,
    /// when the table has no id left to give.
    pub fn insert_note(&mut self, title: &str, body: &str, at: Timestamp) -> (assigned: Option<i64>)
        requires
            old(self).wf(),
        ensures
            final(self).wf(),
            final(self)@ == old(self)@.with_new_note(title@, body@, at),
            assigned == old(self)@.next_note_id,
    {
        match self.next_note_id {
            None => None,
            Some(id) => {
                let ghost before = self.notes@;
                let ghost m = note_table(before).insert(
                    id,
                    NoteView { id, title: title@, body: body@, created_at: at, updated_at: at },
                );
                self.notes.push(
                    Note {
                        id,
                        title: title.to_owned(),
                        body: body.to_owned(),
                        created_at: at,
                        updated_at: at,
                    },
                );
                self.next_note_id = if id < i64::MAX {
                    Some(id + 1)
                } else {
                    None
                };
                proof {
                    let rows = self.notes@;
                    lemma_note_table(before);
                    assert forall|i: int| 0 <= i < rows.len() implies m.contains_key(
                        (#[trigger] rows[i]).id,
                    ) && m[rows[i].id] == rows[i]@ by {
                        if i < before.len() {
                            assert(rows[i] == before[i]);
                            assert(issued(before[i].id, Some(id)));
                        }
                    }
                    assert forall|k: i64| #[trigger] m.contains_key(k) implies has_note(
                        rows,
                        k,
                    ) by {
                        if k == id {
                            assert(rows[before.len() as int].id == k);
                        } else {
                            let j = note_slot(before, k);
                            assert(rows[j] == before[j]);
                        }
                    }
                    assert forall|i: int, j: int| 0 <= i < j < rows.len() implies rows[i].id
                        != rows[j].id by {
                        assert(rows[i] == before[i]);
                        assert(issued(before[i].id, Some(id)));
                        if j < before.len() {
                            assert(rows[j] == before[j]);
                        }
                    }
                    lemma_note_table_is(rows, m);
                    assert forall|i: int| 0 <= i < rows.len() implies issued(
                        (#[trigger] rows[i]).id,
                        self.next_note_id,
                    ) by {
                        if i < before.len() {
                            assert(rows[i] == before[i]);
                            assert(issued(before[i].id, Some(id)));
                        }
                    }
                }
                Some(id)
            },
        }
    }

    /// `UPDATE notes SET title = ?, body = ?, updated_at = ? WHERE id = ?`:
    /// overwrites the row under `id`, keeping its `created_at`, and says
    /// whether there was such a row.
    pub fn rewrite_note(&mut self, id: i64, title: String, body: String, at: Timestamp) -> (matched:
        bool)
        requires
            old(self).wf(),
        ensures
            final(self).wf(),
            final(self)@ == old(self)@.with_note_rewritten(id, title@, body@, at),
            matched == old(self)@.notes.contains_key(id),
    {
        proof {
            lemma_note_table(self.notes@);
        }
        match self.note_position(id) {
            None => false,
            Some(i) => {
                let ghost before = self.notes@;
                let created_at = self.notes[i].created_at;
                let ghost m = note_table(before).insert(
                    id,
                    NoteView { id, title: title@, body: body@, created_at, updated_at: at },
                );
                self.notes.set(i, Note { id, title, body, created_at, updated_at: at });
                proof {
                    let rows = self.notes@;
                    assert(note_table(before).contains_key(before[i as int].id));
                    assert(note_table(before)[id] == before[i as int]@);
                    assert forall|k: int| 0 <= k < rows.len() implies m.contains_key(
                        (#[trigger] rows[k]).id,
                    ) && m[rows[k].id] == rows[k]@ && rows[k].id == before[k].id by {
                        if k != i {
                            assert(rows[k] == before[k]);
                        }
                    }
                    assert forall|k: i64| #[trigger] m.contains_key(k) implies has_note(
                        rows,
                        k,
                    ) by {
                        if k == id {
                            assert(rows[i as int].id == k);
                        } else {
                            let j = note_slot(before, k);
                            assert(rows[j].id == before[j].id);
                        }
                    }
                    assert forall|a: int, b: int| 0 <= a < b < rows.len() implies rows[a].id
                        != rows[b].id by {
                        assert(rows[a].id == before[a].id);
                        assert(rows[b].id == before[b].id);
                    }
                    lemma_note_table_is(rows, m);
                    assert forall|k: int| 0 <= k < rows.len() implies issued(
                        (#[trigger] rows[k]).id,
                        self.next_note_id,
                    ) by {
                        assert(rows[k].id == before[k].id);
                    }
                }
                true
            },
        }
    }

    /// `DELETE FROM notes WHERE id = ?`: removes the row under `id`, if
    /// there is one, and says whether there was. The junction table is not
    /// touched.
    pub fn remove_note(&mut self, id: i64) -> (removed: bool)
        requires
            old(self).wf(),
        ensures
            final(self).wf(),
            final(self)@ == old(self)@.without_note(id),
            removed == old(self)@.notes.contains_key(id),
    {
        proof {
            lemma_note_table(self.notes@);
        }
        match self.note_position(id) {
            None => {
                assert(self@.notes =~= self@.notes.remove(id));
                false
            },
            Some(i) => {
                let ghost before = self.notes@;
                let ghost m = note_table(before).remove(id);
                assert(note_table(before).contains_key(before[i as int].id));
                self.notes.remove(i);
                proof {
                    let rows = self.notes@;
                    assert forall|k: int| 0 <= k < rows.len() implies (#[trigger] rows[k])
                        == before[if k < i { k } else { k + 1 }] by {}
                    assert forall|k: int| 0 <= k < rows.len() implies m.contains_key(
                        (#[trigger] rows[k]).id,
                    ) && m[rows[k].id] == rows[k]@ by {
                        let s = if k < i { k } else { k + 1 };
                        assert(rows[k] == before[s]);
                        assert(note_table(before).contains_key(before[s].id));
                    }
                    assert forall|k: i64| #[trigger] m.contains_key(k) implies has_note(
                        rows,
                        k,
                    ) by {
                        let j = note_slot(before, k);
                        assert(before[j].id == k);
                        let t = if j < i { j } else { j - 1 };
                        assert(rows[t] == before[j]);
                    }
                    assert forall|a: int, b: int| 0 <= a < b < rows.len() implies rows[a].id
                        != rows[b].id by {
                        assert(rows[a] == before[if a < i { a } else { a + 1 }]);
                        assert(rows[b] == before[if b < i { b } else { b + 1 }]);
                    }
                    lemma_note_table_is(rows, m);
                    assert forall|k: int| 0 <= k < rows.len() implies issued(
                        (#[trigger] rows[k]).id,
                        self.next_note_id,
                    ) by {
                        assert(rows[k] == before[if k < i { k } else { k + 1 }]);
                    }
                }
                true
            },
        }
    }

    fn link_position(&self, note_id: i64, label_id: i64) -> (at: Option<usize>)
        ensures
            at matches Some(i) ==> i < self.links@.len() && self.links@[i as int] == (
                note_id,
                label_id,
            ),
            at.is_none() ==> !self.links@.contains((note_id, label_id)),
    {
        let mut i: usize = 0;
        while i < self.links.len()
            invariant
                0 <= i <= self.links@.len(),
                forall|j: int| 0 <= j < i ==> self.links@[j] != (note_id, label_id),
            decreases self.links@.len() - i,
        {
            if self.links[i].0 == note_id && self.links[i].1 == label_id {
                return Some(i);
            }
            i += 1;
        }
        None
    }

    /// Whether the junction table holds the pair `(note_id, label_id)`.
    pub fn is_linked(&self, note_id: i64, label_id: i64) -> (linked: bool)
        ensures
            linked == self@.links.contains((note_id, label_id)),
    {
        self.link_position(note_id, label_id).is_some()
    }

    /// `INSERT INTO notes_labels (note_id, label_id) VALUES (?, ?)`, leaving
    /// a pair that is already there alone: the table never holds a pair twice.
    /// Says whether a row was added.
    pub fn link(&mut self, note_id: i64, label_id: i64) -> (added: bool)
        requires
            old(self).wf(),
        ensures
            final(self).wf(),
            final(self)@ == old(self)@.with_link(note_id, label_id),
            added == !old(self)@.links.contains((note_id, label_id)),
    {
        let ghost before = self.links@;
        match self.link_position(note_id, label_id) {
            Some(i) => {
                assert(before[i as int] == (note_id, label_id));
                assert(link_set(before) =~= link_set(before).insert((note_id, label_id)));
                false
            },
            None => {
                self.links.push((note_id, label_id));
                proof {
                    let rows = self.links@;
                    assert forall|p: (i64, i64)| rows.contains(p) == (before.contains(p) || p == (
                        note_id,
                        label_id,
                    )) by {
                        if before.contains(p) {
                            let j = choose|j: int| 0 <= j < before.len() && before[j] == p;
                            assert(rows[j] == p);
                        }
                        if p == (note_id, label_id) {
                            assert(rows[before.len() as int] == p);
                        }
                        if rows.contains(p) {
                            let j = choose|j: int| 0 <= j < rows.len() && rows[j] == p;
                            if j < before.len() {
                                assert(before[j] == p);
                            }
                        }
                    }
                    assert(link_set(rows) =~= link_set(before).insert((note_id, label_id)));
                    assert forall|a: int, b: int|
                        0 <= a < rows.len() && 0 <= b < rows.len() && a != b implies rows[a]
                        != rows[b] by {
                        if a < before.len() {
                            assert(rows[a] == before[a]);
                        }
                        if b < before.len() {
                            assert(rows[b] == before[b]);
                        }
                    }
                }
                true
            },
        }
    }

    /// `DELETE FROM notes_labels WHERE note_id = ? AND label_id = ?`:
    /// removes the pair, if it is there; every other pair stays. Says
    /// whether a row was removed.
    pub fn unlink(&mut self, note_id: i64, label_id: i64) -> (removed: bool)
        requires
            old(self).wf(),
        ensures
            final(self).wf(),
            final(self)@ == old(self)@.without_link(note_id, label_id),
            removed == old(self)@.links.contains((note_id, label_id)),
    {
        let ghost before = self.links@;
        match self.link_position(note_id, label_id) {
            None => {
                assert(link_set(before) =~= link_set(before).remove((note_id, label_id)));
                false
            },
            Some(i) => {
                assert(before[i as int] == (note_id, label_id));
                self.links.remove(i);
                proof {
                    let rows = self.links@;
                    assert forall|k: int| 0 <= k < rows.len() implies (#[trigger] rows[k])
                        == before[if k < i { k } else { k + 1 }] by {}
                    assert forall|p: (i64, i64)| rows.contains(p) == (before.contains(p) && p != (
                        note_id,
                        label_id,
                    )) by {
                        if before.contains(p) && p != (note_id, label_id) {
                            let j = choose|j: int| 0 <= j < before.len() && before[j] == p;
                            let t = if j < i { j } else { j - 1 };
                            assert(rows[t] == p);
                        }
                        if rows.contains(p) {
                            let j = choose|j: int| 0 <= j < rows.len() && rows[j] == p;
                            let s = if j < i { j } else { j + 1 };
                            assert(before[s] == p);
                        }
                    }
                    assert(link_set(rows) =~= link_set(before).remove((note_id, label_id)));
                    assert forall|a: int, b: int|
                        0 <= a < rows.len() && 0 <= b < rows.len() && a != b implies rows[a]
                        != rows[b] by {
                        assert(rows[a] == before[if a < i { a } else { a + 1 }]);
                        assert(rows[b] == before[if b < i { b } else { b + 1 }]);
                    }
                }
                true
            },
        }
    }

    /// `SELECT l.id, l.name FROM labels l INNER JOIN notes_labels nl ON
    /// l.id = nl.label_id AND nl.note_id = ?`: the label rows attached to
    /// `note_id`, each once. A pair whose label row is gone yields nothing.
    pub fn labels_of(&self, note_id: i64) -> (rows: Vec<Label>)
        requires
            self.wf(),
        ensures
            lists_labels(label_views(rows@), self@.labels, self@.attached_to(note_id)),
    {
        let mut out: Vec<Label> = Vec::new();
        let ghost mut src: Seq<int> = Seq::empty();
        let mut i: usize = 0;
        proof {
            lemma_label_table(self.labels@);
        }
        while i < self.labels.len()
            invariant
                0 <= i <= self.labels@.len(),
                src.len() == out@.len(),
                forall|a: int, b: int| 0 <= a < b < src.len() ==> src[a] < src[b],
                forall|k: int|
                    0 <= k < out@.len() ==> 0 <= #[trigger] src[k] < i && out@[k]
                        == self.labels@[src[k]] && self@.links.contains(
                        (note_id, out@[k].id),
                    ),
                forall|j: int|
                    0 <= j < i && self@.links.contains((note_id, (#[trigger] self.labels@[j]).id))
                        ==> exists|k: int| 0 <= k < out@.len() && #[trigger] src[k] == j,
            decreases self.labels@.len() - i,
        {
            if self.is_linked(note_id, self.labels[i].id) {
                let ghost prev = src;
                out.push(self.labels[i].duplicate());
                proof {
                    src = src.push(i as int);
                    assert forall|j: int|
                        0 <= j < i + 1 && self@.links.contains(
                            (note_id, (#[trigger] self.labels@[j]).id),
                        ) implies exists|k: int| 0 <= k < out@.len() && #[trigger] src[k] == j by {
                        if j < i {
                            let k = choose|k: int| 0 <= k < prev.len() && #[trigger] prev[k] == j;
                            assert(src[k] == j);
                        } else {
                            assert(src[prev.len() as int] == j);
                        }
                    }
                }
            }
            i += 1;
        }
        proof {
            let v = label_views(out@);
            let rows = self.labels@;
            let t = self@.labels;
            let keep = self@.attached_to(note_id);
            assert forall|a: int| 0 <= a < v.len() implies t.contains_key((#[trigger] v[a]).id)
                && t[v[a].id] == v[a] && keep.contains(v[a].id) by {
                assert(out@[a] == rows[src[a]]);
                assert(t.contains_key(rows[src[a]].id));
            }
            assert forall|a: int, b: int| 0 <= a < b < v.len() implies v[a].id != v[b].id by {
                assert(out@[a] == rows[src[a]]);
                assert(out@[b] == rows[src[b]]);
                assert(src[a] < src[b]);
            }
            assert forall|id: i64| #[trigger] t.contains_key(id) && keep.contains(id) implies exists|
                a: int,
            | 0 <= a < v.len() && (#[trigger] v[a]).id == id by {
                let j = label_slot(rows, id);
                assert(rows[j].id == id);
                let k = choose|k: int| 0 <= k < out@.len() && #[trigger] src[k] == j;
                assert(v[k].id == id);
            }
        }
        out
    }
}

} // verus!
