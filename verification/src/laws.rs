//! Laws that relate several repository operations to one another, stated
//! over the view of the store that the operations' contracts speak of.

use vstd::prelude::*;
use crate::clock::Timestamp;
use crate::label::LabelView;
use crate::note::NoteView;
use crate::store::{StoreView, issued, lists_labels, lists_notes};

verus! {

/// Creating a label and then fetching the id that was assigned yields the
/// very row that creation returned.
pub proof fn lemma_label_create_then_get(s: StoreView, name: Seq<char>)
    requires
        s.wf(),
        s.next_label_id.is_some(),
    ensures
        s.with_new_label(name).wf(),
        s.with_new_label(name).label(s.next_label_id.unwrap()) == Some(
            LabelView { id: s.next_label_id.unwrap(), name },
        ),
{
}

/// Creating a note and then fetching the id that was assigned yields the
/// very row that creation returned, equal in every field.
pub proof fn lemma_note_create_then_get(
    s: StoreView,
    title: Seq<char>,
    body: Seq<char>,
    at: Timestamp,
)
    requires
        s.wf(),
        s.next_note_id.is_some(),
    ensures
        s.with_new_note(title, body, at).wf(),
        s.with_new_note(title, body, at).note(s.next_note_id.unwrap()) == Some(
            NoteView {
                id: s.next_note_id.unwrap(),
                title,
                body,
                created_at: at,
                updated_at: at,
            },
        ),
{
}

/// Creation leaves every row that was there before as it was.
pub proof fn lemma_create_keeps_other_rows(
    s: StoreView,
    name: Seq<char>,
    title: Seq<char>,
    body: Seq<char>,
    at: Timestamp,
    id: i64,
)
    requires
        s.wf(),
    ensures
        s.labels.contains_key(id) ==> s.with_new_label(name).label(id) == s.label(id),
        s.notes.contains_key(id) ==> s.with_new_note(title, body, at).note(id) == s.note(id),
{
}

/// Two listings of the same labels of one store hold the same rows,
/// whatever their order, and are equally long.
pub proof fn lemma_label_listings_agree(
    first: Seq<LabelView>,
    second: Seq<LabelView>,
    table: Map<i64, LabelView>,
    keep: Set<i64>,
)
    requires
        lists_labels(first, table, keep),
        lists_labels(second, table, keep),
    ensures
        first.to_set() == second.to_set(),
        first.len() == second.len(),
{
    lemma_label_listing_within(first, second, table, keep);
    lemma_label_listing_within(second, first, table, keep);
    assert(first.to_set() =~= second.to_set());
    assert(first.no_duplicates());
    assert(second.no_duplicates());
    first.unique_seq_to_set();
    second.unique_seq_to_set();
}

proof fn lemma_label_listing_within(
    first: Seq<LabelView>,
    second: Seq<LabelView>,
    table: Map<i64, LabelView>,
    keep: Set<i64>,
)
    requires
        lists_labels(first, table, keep),
        lists_labels(second, table, keep),
    ensures
        forall|row: LabelView| first.contains(row) ==> second.contains(row),
{
    assert forall|row: LabelView| first.contains(row) implies second.contains(row) by {
        let i = choose|i: int| 0 <= i < first.len() && first[i] == row;
        assert(table.contains_key(first[i].id));
        let j = choose|j: int| 0 <= j < second.len() && (#[trigger] second[j]).id == row.id;
        assert(second[j] == row);
    }
}

/// Two listings of the notes of one store hold the same rows, whatever
/// their order, and are equally long.
pub proof fn lemma_note_listings_agree(
    first: Seq<NoteView>,
    second: Seq<NoteView>,
    table: Map<i64, NoteView>,
)
    requires
        lists_notes(first, table),
        lists_notes(second, table),
    ensures
        first.to_set() == second.to_set(),
        first.len() == second.len(),
{
    lemma_note_listing_within(first, second, table);
    lemma_note_listing_within(second, first, table);
    assert(first.to_set() =~= second.to_set());
    assert(first.no_duplicates());
    assert(second.no_duplicates());
    first.unique_seq_to_set();
    second.unique_seq_to_set();
}

proof fn lemma_note_listing_within(
    first: Seq<NoteView>,
    second: Seq<NoteView>,
    table: Map<i64, NoteView>,
)
    requires
        lists_notes(first, table),
        lists_notes(second, table),
    ensures
        forall|row: NoteView| first.contains(row) ==> second.contains(row),
{
    assert forall|row: NoteView| first.contains(row) implies second.contains(row) by {
        let i = choose|i: int| 0 <= i < first.len() && first[i] == row;
        assert(table.contains_key(first[i].id));
        let j = choose|j: int| 0 <= j < second.len() && (#[trigger] second[j]).id == row.id;
        assert(second[j] == row);
    }
}

/// Updating a note never changes its `created_at` nor its id, and sets
/// `updated_at` to the instant of the update.
pub proof fn lemma_update_keeps_created_at(
    s: StoreView,
    id: i64,
    title: Seq<char>,
    body: Seq<char>,
    at: Timestamp,
)
    requires
        s.wf(),
        s.notes.contains_key(id),
    ensures
        s.with_note_rewritten(id, title, body, at).wf(),
        s.with_note_rewritten(id, title, body, at).notes.contains_key(id),
        s.with_note_rewritten(id, title, body, at).notes[id].id == id,
        s.with_note_rewritten(id, title, body, at).notes[id].created_at == s.notes[id].created_at,
        s.with_note_rewritten(id, title, body, at).notes[id].updated_at == at,
{
}

/// Updating a note at an instant that is not earlier than the row's
/// `updated_at` never moves `updated_at` back, and keeps it at or after
/// `created_at` where it was so before.
pub proof fn lemma_update_never_moves_updated_at_back(
    s: StoreView,
    id: i64,
    title: Seq<char>,
    body: Seq<char>,
    at: Timestamp,
)
    requires
        s.notes.contains_key(id),
        s.notes[id].updated_at.spec_at_or_before(at),
    ensures
        s.notes[id].updated_at.spec_at_or_before(
            s.with_note_rewritten(id, title, body, at).notes[id].updated_at,
        ),
        s.notes[id].created_at.spec_at_or_before(s.notes[id].updated_at)
            ==> s.with_note_rewritten(id, title, body, at).notes[id].created_at.spec_at_or_before(
            s.with_note_rewritten(id, title, body, at).notes[id].updated_at,
        ),
{
}

/// After a label that exists has been attached to a note, every listing of
/// the note's labels holds that label exactly once, however often it was
/// attached.
pub proof fn lemma_attached_label_listed_once(
    s: StoreView,
    note_id: i64,
    label_id: i64,
    rows: Seq<LabelView>,
)
    requires
        s.labels.contains_key(label_id),
        lists_labels(
            rows,
            s.with_link(note_id, label_id).labels,
            s.with_link(note_id, label_id).attached_to(note_id),
        ),
    ensures
        s.with_link(note_id, label_id).with_link(note_id, label_id) == s.with_link(
            note_id,
            label_id,
        ),
        s.with_link(note_id, label_id).attached_label(note_id, label_id) == s.label(label_id),
        exists|i: int|
            0 <= i < rows.len() && rows[i] == s.labels[label_id] && forall|j: int|
                0 <= j < rows.len() && (#[trigger] rows[j]).id == label_id ==> j == i,
{
    let after = s.with_link(note_id, label_id);
    assert(after.links.insert((note_id, label_id)) =~= after.links);
    assert(after.attached_to(note_id).contains(label_id));
    assert(after.labels.contains_key(label_id));
    let i = choose|i: int| 0 <= i < rows.len() && (#[trigger] rows[i]).id == label_id;
    assert(rows[i] == s.labels[label_id]);
    assert forall|j: int| 0 <= j < rows.len() && (#[trigger] rows[j]).id == label_id implies j
        == i by {
        if j < i {
            assert(rows[j].id != rows[i].id);
        }
        if i < j {
            assert(rows[i].id != rows[j].id);
        }
    }
}

/// After a label has been detached from a note, no listing of the note's
/// labels holds it, fetching it through the note finds nothing, and the
/// note's other labels are attached as before.
pub proof fn lemma_detached_label_gone(
    s: StoreView,
    note_id: i64,
    label_id: i64,
    rows: Seq<LabelView>,
)
    requires
        lists_labels(
            rows,
            s.without_link(note_id, label_id).labels,
            s.without_link(note_id, label_id).attached_to(note_id),
        ),
    ensures
        forall|i: int| 0 <= i < rows.len() ==> (#[trigger] rows[i]).id != label_id,
        s.without_link(note_id, label_id).attached_label(note_id, label_id).is_none(),
        forall|n: i64, l: i64|
            (n, l) != (note_id, label_id) ==> s.without_link(note_id, label_id).attached_label(n, l)
                == s.attached_label(n, l),
{
    let after = s.without_link(note_id, label_id);
    assert forall|i: int| 0 <= i < rows.len() implies (#[trigger] rows[i]).id != label_id by {
        assert(after.attached_to(note_id).contains(rows[i].id));
    }
}

/// An id that the store never issued has no row: fetching it finds
/// nothing, and updating it changes nothing.
pub proof fn lemma_unissued_id_not_found(
    s: StoreView,
    id: i64,
    name: Seq<char>,
    title: Seq<char>,
    body: Seq<char>,
    at: Timestamp,
)
    requires
        s.wf(),
    ensures
        !issued(id, s.next_label_id) ==> s.label(id).is_none() && s.with_label_renamed(id, name)
            == s,
        !issued(id, s.next_note_id) ==> s.note(id).is_none() && s.with_note_rewritten(
            id,
            title,
            body,
            at,
        ) == s,
{
}

/// An id whose row was deleted has no row afterwards, and deleting again
/// changes nothing more.
pub proof fn lemma_deleted_id_not_found(s: StoreView, id: i64)
    ensures
        s.without_label(id).label(id).is_none(),
        s.without_note(id).note(id).is_none(),
        s.without_label(id).without_label(id) == s.without_label(id),
        s.without_note(id).without_note(id) == s.without_note(id),
        s.without_label(id).links == s.links,
        s.without_note(id).links == s.links,
{
    assert(s.labels.remove(id).remove(id) =~= s.labels.remove(id));
    assert(s.notes.remove(id).remove(id) =~= s.notes.remove(id));
}

} // verus!
