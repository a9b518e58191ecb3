use notes_store::{Command, Executed, Fetched, Label, Note, Query, RepoError, Store, Timestamp};

fn at(secs: i64) -> Timestamp {
    Timestamp { secs, nanos: 0 }
}

#[test]
fn insert_reports_the_assigned_id() {
    let mut store = Store::new();
    let r = store.execute(Command::InsertLabel { name: "a".to_string() });
    assert!(matches!(r, Executed::Inserted(1)));
    let r = store.execute(Command::InsertLabel { name: "b".to_string() });
    assert!(matches!(r, Executed::Inserted(2)));
    let r = store.execute(Command::InsertNote {
        title: "t".to_string(),
        body: "b".to_string(),
        at: at(3),
    });
    assert!(matches!(r, Executed::Inserted(1)));
}

#[test]
fn commands_report_rows_touched() {
    let mut store = Store::new();
    store.execute(Command::InsertLabel { name: "a".to_string() });
    let r = store.execute(Command::UpdateLabel { id: 1, name: "z".to_string() });
    assert!(matches!(r, Executed::Affected(1)));
    let r = store.execute(Command::UpdateLabel { id: 5, name: "z".to_string() });
    assert!(matches!(r, Executed::Affected(0)));
    let r = store.execute(Command::DeleteLabel { id: 5 });
    assert!(matches!(r, Executed::Affected(0)));
    let r = store.execute(Command::DeleteLabel { id: 1 });
    assert!(matches!(r, Executed::Affected(1)));
    let r = store.execute(Command::DeleteNote { id: 1 });
    assert!(matches!(r, Executed::Affected(0)));
    let r = store.execute(Command::InsertLink { note_id: 4, label_id: 6 });
    assert!(matches!(r, Executed::Affected(1)));
    let r = store.execute(Command::InsertLink { note_id: 4, label_id: 6 });
    assert!(matches!(r, Executed::Affected(0)));
    assert!(store.is_linked(4, 6));
    assert!(!store.is_linked(6, 4));
    let r = store.execute(Command::DeleteLink { note_id: 4, label_id: 7 });
    assert!(matches!(r, Executed::Affected(0)));
    assert!(store.is_linked(4, 6));
    let r = store.execute(Command::DeleteLink { note_id: 4, label_id: 6 });
    assert!(matches!(r, Executed::Affected(1)));
    assert!(!store.is_linked(4, 6));
}

#[test]
fn single_row_queries_give_at_most_one_row() {
    let mut store = Store::new();
    store.execute(Command::InsertLabel { name: "a".to_string() });
    store.execute(Command::InsertLabel { name: "b".to_string() });
    match store.query(&Query::Label { id: 2 }) {
        Fetched::Labels(rows) => {
            assert_eq!(rows.len(), 1);
            assert_eq!(rows[0].id, 2);
            assert_eq!(rows[0].name, "b");
        }
        other => panic!("unexpected reply {:?}", other),
    }
    match store.query(&Query::Label { id: 3 }) {
        Fetched::Labels(rows) => assert!(rows.is_empty()),
        other => panic!("unexpected reply {:?}", other),
    }
    match store.query(&Query::Note { id: 1 }) {
        Fetched::Notes(rows) => assert!(rows.is_empty()),
        other => panic!("unexpected reply {:?}", other),
    }
    match store.query(&Query::LabelOf { note_id: 1, label_id: 2 }) {
        Fetched::Labels(rows) => assert!(rows.is_empty()),
        other => panic!("unexpected reply {:?}", other),
    }
    store.execute(Command::InsertLink { note_id: 1, label_id: 2 });
    match store.query(&Query::LabelOf { note_id: 1, label_id: 2 }) {
        Fetched::Labels(rows) => {
            assert_eq!(rows.len(), 1);
            assert_eq!(rows[0].name, "b");
        }
        other => panic!("unexpected reply {:?}", other),
    }
}

#[test]
fn replies_turn_into_results() {
    let label = |id: i64, name: &str| Label { id, name: name.to_string() };
    let one = Fetched::Labels(vec![label(3, "x"), label(4, "y")]).into_label().unwrap();
    assert_eq!((one.id, one.name.as_str()), (3, "x"));
    assert!(matches!(Fetched::Labels(vec![]).into_label(), Err(RepoError::NotFound)));
    assert!(matches!(Fetched::Notes(vec![]).into_label(), Err(RepoError::StoreError)));
    assert!(matches!(Fetched::Failed.into_label(), Err(RepoError::StoreError)));
    assert!(matches!(Fetched::Failed.into_labels(), Err(RepoError::StoreError)));
    assert!(matches!(Fetched::Failed.into_notes(), Err(RepoError::StoreError)));
    assert!(matches!(Fetched::Failed.into_note(), Err(RepoError::StoreError)));
    assert!(matches!(Fetched::Notes(vec![]).into_note(), Err(RepoError::NotFound)));
    assert!(matches!(Fetched::Labels(vec![]).into_note(), Err(RepoError::StoreError)));
    let all = Fetched::Labels(vec![label(1, "a"), label(2, "b")]).into_labels().unwrap();
    assert_eq!(all.len(), 2);
    assert_eq!(all[1].name, "b");
    let note = Note {
        id: 8,
        title: "t".to_string(),
        body: "b".to_string(),
        created_at: at(1),
        updated_at: at(2),
    };
    let got = Fetched::Notes(vec![note]).into_note().unwrap();
    assert_eq!((got.id, got.updated_at), (8, at(2)));
    assert_eq!(Executed::Inserted(12).into_inserted_id(), Ok(12));
    assert_eq!(Executed::Affected(1).into_inserted_id(), Err(RepoError::StoreError));
    assert_eq!(Executed::Failed.into_inserted_id(), Err(RepoError::StoreError));
    assert_eq!(Executed::Affected(0).into_affected(), Ok(0));
    assert_eq!(Executed::Affected(3).into_affected(), Ok(3));
    assert_eq!(Executed::Inserted(9).into_affected(), Ok(1));
    assert_eq!(Executed::Failed.into_affected(), Err(RepoError::StoreError));
}

#[test]
fn note_statements_carry_what_is_written() {
    match Note::insertion("Plan", None, at(4)) {
        Command::InsertNote { title, body, at: stamp } => {
            assert_eq!(title, "Plan");
            assert_eq!(body, "");
            assert_eq!(stamp, at(4));
        }
        other => panic!("unexpected statement {:?}", other),
    }
    match Note::insertion("Plan", Some("text"), at(4)) {
        Command::InsertNote { body, .. } => assert_eq!(body, "text"),
        other => panic!("unexpected statement {:?}", other),
    }
    let note = Note {
        id: 2,
        title: "t".to_string(),
        body: "b".to_string(),
        created_at: at(1),
        updated_at: at(1),
    };
    match Note::revision(note, at(9)) {
        Command::UpdateNote { id, title, body, at: stamp } => {
            assert_eq!((id, title.as_str(), body.as_str(), stamp), (2, "t", "b", at(9)));
        }
        other => panic!("unexpected statement {:?}", other),
    }
}

#[test]
fn table_reads_copy_rows() {
    let mut store = Store::new();
    assert_eq!(store.insert_label("a"), Some(1));
    assert_eq!(store.insert_note("t", "b", at(1)), Some(1));
    assert!(store.rename_label(1, "c".to_string()));
    assert!(!store.rename_label(2, "c".to_string()));
    assert!(store.rewrite_note(1, "t2".to_string(), "b2".to_string(), at(2)));
    assert!(!store.rewrite_note(3, "t2".to_string(), "b2".to_string(), at(2)));
    let l = store.find_label(1).unwrap();
    assert_eq!(l.name, "c");
    assert_eq!(l.duplicate().name, "c");
    let n = store.find_note(1).unwrap();
    assert_eq!((n.title.as_str(), n.body.as_str()), ("t2", "b2"));
    assert_eq!((n.created_at, n.updated_at), (at(1), at(2)));
    assert_eq!(n.duplicate().title, "t2");
    assert!(store.find_label(2).is_none());
    assert!(store.link(1, 1));
    assert!(!store.link(1, 1));
    assert_eq!(store.labels_of(1).len(), 1);
    assert!(store.remove_label(1));
    assert!(!store.remove_label(1));
    assert_eq!(store.labels_of(1).len(), 0);
    assert!(store.unlink(1, 1));
    assert!(!store.unlink(1, 1));
    assert!(store.remove_note(1));
    assert!(store.note_rows().is_empty());
    assert!(store.label_rows().is_empty());
}
