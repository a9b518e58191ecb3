use notes_store::{Label, Note, RepoError, Store, Timestamp};

fn at(secs: i64) -> Timestamp {
    Timestamp { secs, nanos: 0 }
}

fn note_ref(id: i64) -> Note {
    Note { id, title: String::new(), body: String::new(), created_at: at(0), updated_at: at(0) }
}

fn ids(labels: &[Label]) -> Vec<i64> {
    let mut v: Vec<i64> = labels.iter().map(|l| l.id).collect();
    v.sort();
    v
}

#[test]
fn first_label_gets_id_one() {
    let mut store = Store::new();
    let label = Label::new(&mut store, "work").unwrap();
    assert_eq!(label.id, 1);
    assert_eq!(label.name, "work");
}

#[test]
fn label_ids_ascend_and_are_not_reused() {
    let mut store = Store::new();
    assert_eq!(Label::new(&mut store, "a").unwrap().id, 1);
    assert_eq!(Label::new(&mut store, "b").unwrap().id, 2);
    Label::delete(&mut store, 2).unwrap();
    assert_eq!(Label::new(&mut store, "c").unwrap().id, 3);
    assert!(matches!(Label::get(&store, 2), Err(RepoError::NotFound)));
}

#[test]
fn label_create_then_get_round_trips() {
    let mut store = Store::new();
    Label::new(&mut store, "first").unwrap();
    let made = Label::new(&mut store, "second").unwrap();
    let got = Label::get(&store, made.id).unwrap();
    assert_eq!(got, made);
    assert_eq!(got, Label { id: 2, name: "second".to_string() });
    assert_ne!(got, Label { id: 2, name: "first".to_string() });
    assert_ne!(got, Label { id: 1, name: "second".to_string() });
    assert_eq!(got.id, made.id);
    assert_eq!(got.name, made.name);
    assert_eq!(got.name, "second");
}

#[test]
fn note_create_then_get_round_trips() {
    let mut store = Store::new();
    let made = Note::new_at(&mut store, "Plan", Some("steps"), Timestamp { secs: 10, nanos: 7 })
        .unwrap();
    let got = Note::get(&store, made.id).unwrap();
    assert_eq!(got, made);
    assert_eq!(got.id, made.id);
    assert_eq!(got.title, made.title);
    assert_eq!(got.body, made.body);
    assert_eq!(got.created_at, made.created_at);
    assert_eq!(got.updated_at, made.updated_at);
    assert_eq!(got.body, "steps");
    assert_eq!(got.created_at, Timestamp { secs: 10, nanos: 7 });
}

#[test]
fn empty_store_lists_nothing() {
    let store = Store::new();
    assert!(Label::all(&store).unwrap().is_empty());
    assert!(Note::all(&store).unwrap().is_empty());
    assert!(note_ref(1).get_labels(&store).unwrap().is_empty());
}

#[test]
fn listing_twice_gives_the_same_rows() {
    let mut store = Store::new();
    Label::new(&mut store, "a").unwrap();
    Label::new(&mut store, "b").unwrap();
    Label::new(&mut store, "c").unwrap();
    Label::delete(&mut store, 2).unwrap();
    let first = Label::all(&store).unwrap();
    let second = Label::all(&store).unwrap();
    assert_eq!(ids(&first), vec![1, 3]);
    assert_eq!(ids(&first), ids(&second));
    Note::new_at(&mut store, "n1", None, at(1)).unwrap();
    Note::new_at(&mut store, "n2", None, at(2)).unwrap();
    let mut a: Vec<(i64, String)> =
        Note::all(&store).unwrap().into_iter().map(|n| (n.id, n.title)).collect();
    let mut b: Vec<(i64, String)> =
        Note::all(&store).unwrap().into_iter().map(|n| (n.id, n.title)).collect();
    a.sort();
    b.sort();
    assert_eq!(a, vec![(1, "n1".to_string()), (2, "n2".to_string())]);
    assert_eq!(a, b);
}

#[test]
fn note_body_defaults_to_empty() {
    let mut store = Store::new();
    let note = Note::new_at(&mut store, "Plan", None, at(100)).unwrap();
    assert_eq!(note.id, 1);
    assert_eq!(note.title, "Plan");
    assert_eq!(note.body, "");
    assert_eq!(note.created_at, note.updated_at);
    assert_eq!(note.created_at, at(100));
}

#[test]
fn update_keeps_created_at_and_refreshes_updated_at() {
    let mut store = Store::new();
    Note::new_at(&mut store, "Plan", None, at(100)).unwrap();
    let wanted = Note {
        id: 1,
        title: "Plan v2".to_string(),
        body: "details".to_string(),
        created_at: at(999),
        updated_at: at(999),
    };
    let updated = Note::update_at(&mut store, wanted, Timestamp { secs: 100, nanos: 1 }).unwrap();
    assert_eq!(updated.id, 1);
    assert_eq!(updated.title, "Plan v2");
    assert_eq!(updated.body, "details");
    assert_eq!(updated.created_at, at(100));
    assert_eq!(updated.updated_at, Timestamp { secs: 100, nanos: 1 });
    assert!(updated.created_at.before(&updated.updated_at));
    let again = Note::get(&store, 1).unwrap();
    assert_eq!(again.title, "Plan v2");
    assert_eq!(again.created_at, at(100));
}

#[test]
fn update_with_the_same_instant_keeps_updated_at_equal() {
    let mut store = Store::new();
    let made = Note::new_at(&mut store, "t", Some("b"), at(5)).unwrap();
    let updated = Note::update_at(&mut store, made, at(5)).unwrap();
    assert!(updated.created_at.at_or_before(&updated.updated_at));
    assert!(!updated.created_at.before(&updated.updated_at));
}

#[test]
fn update_label_renames_and_returns_the_row() {
    let mut store = Store::new();
    Label::new(&mut store, "work").unwrap();
    Label::new(&mut store, "home").unwrap();
    let renamed = Label::update(&mut store, Label { id: 1, name: "office".to_string() }).unwrap();
    assert_eq!(renamed.id, 1);
    assert_eq!(renamed.name, "office");
    assert_eq!(Label::get(&store, 1).unwrap().name, "office");
    assert_eq!(Label::get(&store, 2).unwrap().name, "home");
}

#[test]
fn unknown_ids_are_not_found() {
    let mut store = Store::new();
    Label::new(&mut store, "only").unwrap();
    Note::new_at(&mut store, "only", None, at(1)).unwrap();
    assert!(matches!(Label::get(&store, 2), Err(RepoError::NotFound)));
    assert!(matches!(Label::get(&store, 0), Err(RepoError::NotFound)));
    assert!(matches!(Label::get(&store, -1), Err(RepoError::NotFound)));
    assert!(matches!(Note::get(&store, 7), Err(RepoError::NotFound)));
    let r = Label::update(&mut store, Label { id: 9, name: "x".to_string() });
    assert!(matches!(r, Err(RepoError::NotFound)));
    let r = Note::update_at(&mut store, note_ref(9), at(2));
    assert!(matches!(r, Err(RepoError::NotFound)));
    assert_eq!(Label::all(&store).unwrap().len(), 1);
    assert_eq!(Note::all(&store).unwrap().len(), 1);
    assert_eq!(Label::get(&store, 1).unwrap().name, "only");
}

#[test]
fn delete_reports_success_even_without_a_row() {
    let mut store = Store::new();
    Label::new(&mut store, "a").unwrap();
    Note::new_at(&mut store, "n", None, at(1)).unwrap();
    assert_eq!(Label::delete(&mut store, 1).unwrap(), "Label deleted");
    assert_eq!(Label::delete(&mut store, 1).unwrap(), "Label deleted");
    assert_eq!(Label::delete(&mut store, 42).unwrap(), "Label deleted");
    assert_eq!(Note::delete(&mut store, 1).unwrap(), "Note deleted");
    assert_eq!(Note::delete(&mut store, 1).unwrap(), "Note deleted");
    assert!(matches!(Note::get(&store, 1), Err(RepoError::NotFound)));
    assert!(Label::all(&store).unwrap().is_empty());
}

#[test]
fn attached_label_is_listed_exactly_once() {
    let mut store = Store::new();
    Label::new(&mut store, "work").unwrap();
    Label::new(&mut store, "home").unwrap();
    Note::new_at(&mut store, "n", None, at(1)).unwrap();
    assert_eq!(note_ref(1).add_label(&mut store, 2).unwrap(), 1);
    assert_eq!(note_ref(1).add_label(&mut store, 2).unwrap(), 0);
    let listed = note_ref(1).get_labels(&store).unwrap();
    assert_eq!(listed.len(), 1);
    assert_eq!(listed[0].id, 2);
    assert_eq!(listed[0].name, "home");
    let one = note_ref(1).get_label(&store, 2).unwrap();
    assert_eq!(one.id, 2);
    assert_eq!(one.name, "home");
}

#[test]
fn get_label_filters_by_note_and_label() {
    let mut store = Store::new();
    Label::new(&mut store, "work").unwrap();
    Label::new(&mut store, "home").unwrap();
    Note::new_at(&mut store, "first", None, at(1)).unwrap();
    Note::new_at(&mut store, "second", None, at(1)).unwrap();
    note_ref(1).add_label(&mut store, 1).unwrap();
    note_ref(2).add_label(&mut store, 2).unwrap();
    assert_eq!(note_ref(1).get_label(&store, 1).unwrap().name, "work");
    assert!(matches!(note_ref(1).get_label(&store, 2), Err(RepoError::NotFound)));
    assert!(matches!(note_ref(2).get_label(&store, 1), Err(RepoError::NotFound)));
    assert_eq!(note_ref(2).get_label(&store, 2).unwrap().name, "home");
    assert_eq!(ids(&note_ref(1).get_labels(&store).unwrap()), vec![1]);
    assert_eq!(ids(&note_ref(2).get_labels(&store).unwrap()), vec![2]);
}

#[test]
fn detached_label_is_gone_and_others_stay() {
    let mut store = Store::new();
    Label::new(&mut store, "a").unwrap();
    Label::new(&mut store, "b").unwrap();
    Note::new_at(&mut store, "n", None, at(1)).unwrap();
    Note::new_at(&mut store, "m", None, at(1)).unwrap();
    note_ref(1).add_label(&mut store, 1).unwrap();
    note_ref(1).add_label(&mut store, 2).unwrap();
    note_ref(2).add_label(&mut store, 1).unwrap();
    assert_eq!(note_ref(1).delete_label(&mut store, 1).unwrap(), 1);
    assert_eq!(note_ref(1).delete_label(&mut store, 1).unwrap(), 0);
    assert_eq!(ids(&note_ref(1).get_labels(&store).unwrap()), vec![2]);
    assert_eq!(ids(&note_ref(2).get_labels(&store).unwrap()), vec![1]);
    assert!(matches!(note_ref(1).get_label(&store, 1), Err(RepoError::NotFound)));
    assert_eq!(Label::get(&store, 1).unwrap().name, "a");
}

#[test]
fn whole_scenario() {
    let mut store = Store::new();
    let label = Label::new(&mut store, "work").unwrap();
    assert_eq!((label.id, label.name.as_str()), (1, "work"));
    let note = Note::new_at(&mut store, "Plan", None, at(50)).unwrap();
    assert_eq!((note.id, note.title.as_str(), note.body.as_str()), (1, "Plan", ""));
    assert_eq!(note.created_at, note.updated_at);
    note_ref(1).add_label(&mut store, 1).unwrap();
    let listed = note_ref(1).get_labels(&store).unwrap();
    assert_eq!(listed, vec![Label { id: 1, name: "work".to_string() }]);
    let wanted = Note {
        id: 1,
        title: "Plan v2".to_string(),
        body: "details".to_string(),
        created_at: note.created_at,
        updated_at: note.updated_at,
    };
    let updated = Note::update_at(&mut store, wanted, at(51)).unwrap();
    assert!(updated.created_at.before(&updated.updated_at));
    assert_eq!(updated.title, "Plan v2");
    Label::delete(&mut store, 1).unwrap();
    assert!(matches!(Label::get(&store, 1), Err(RepoError::NotFound)));
    let orphaned = note_ref(1).get_labels(&store);
    assert!(orphaned.unwrap().is_empty());
    assert!(matches!(note_ref(1).get_label(&store, 1), Err(RepoError::NotFound)));
}

#[test]
fn clock_stamps_both_instants_alike() {
    let mut store = Store::new();
    let note = Note::new(&mut store, "now", None).unwrap();
    assert_eq!(note.created_at, note.updated_at);
    assert!(note.created_at.secs > 1_500_000_000);
    assert!(note.created_at.nanos < 2_000_000_000);
    let wanted = Note {
        id: note.id,
        title: "later".to_string(),
        body: "b".to_string(),
        created_at: at(0),
        updated_at: at(0),
    };
    let updated = Note::update(&mut store, wanted).unwrap();
    assert_eq!(updated.created_at, note.created_at);
    assert!(updated.updated_at.secs > 1_500_000_000);
    assert_eq!(updated.title, "later");
}

#[test]
fn timestamps_order_by_seconds_then_nanoseconds() {
    let a = Timestamp { secs: 1, nanos: 999_999_999 };
    let b = Timestamp { secs: 2, nanos: 0 };
    let c = Timestamp { secs: 2, nanos: 1 };
    assert!(a.before(&b) && b.before(&c) && a.before(&c));
    assert!(!b.before(&a) && !c.before(&b));
    assert!(!b.before(&b) && b.at_or_before(&b));
    assert!(a.at_or_before(&b) && !c.at_or_before(&b));
    let early = Timestamp { secs: -5, nanos: 3 };
    assert!(early.before(&a));
}

#[test]
fn error_messages() {
    assert_eq!(RepoError::NotFound.message(), "no row matches the given id");
    assert_eq!(RepoError::StoreError.message(), "the store could not execute the statement");
    assert!(RepoError::NotFound.is_not_found());
    assert!(!RepoError::StoreError.is_not_found());
}
