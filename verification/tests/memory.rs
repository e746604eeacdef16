use notes_core::models::note::Draft;
use notes_core::models::{Id, User, Visibility};
use notes_core::persistence::memory::InMemoryStorage;
use notes_core::persistence::{Persister, StorageError};

#[test]
fn add_notes() {
    let mut data = InMemoryStorage::default();

    assert_eq!(data.notes.len(), 0);
    let _ = data.add_note(Draft::default(), &User::default());
    assert_eq!(data.notes.len(), 1);
    let _ = data.add_note(Draft::default(), &User::default());
    assert_eq!(data.notes.len(), 2);
    assert_eq!(data.notes().len(), 2);
    assert_eq!(data.tags().len(), 0);

    let listed = data.notes();
    let first = &listed[0];
    assert_eq!(first.id(), &Id(0));
    assert_eq!(first.user(), &Id(0));
    let second = &listed[1];
    assert_eq!(second.id(), &Id(1));
    assert_eq!(second.user(), &Id(0));
    assert!(listed.get(2).is_none());
}

#[test]
fn add_notes_with_tags() {
    let mut data = InMemoryStorage::default();

    assert_eq!(data.notes.len(), 0);
    assert_eq!(data.tags.len(), 0);

    let _ = data.add_note(
        Draft::new(
            "Foo".to_string(),
            "Foo".to_string(),
            vec!["foo".to_string(), "bar".to_string()],
            Visibility::Public,
        ),
        &User::default(),
    );
    assert_eq!(data.notes.len(), 1);
    assert_eq!(data.tags.len(), 2);
    let _ = data.add_note(
        Draft::new(
            "Foo".to_string(),
            "Foo".to_string(),
            vec!["foo".to_string(), "bar".to_string()],
            Visibility::Public,
        ),
        &User::default(),
    );
    assert_eq!(data.notes.len(), 2);
    assert_eq!(data.tags.len(), 2);
}

#[test]
fn edit_notes() {
    let mut data = InMemoryStorage::default();

    let _ = data.add_note(Draft::default(), &User::default());
    let _ = data.add_note(Draft::default(), &User::default());
    let _ = data.add_note(Draft::default(), &User::default());

    let res = data
        .update_note(
            Draft::new(
                "FooTitle".to_string(),
                "BarBody".to_string(),
                vec!["foo".to_string(), "bar".to_string()],
                Visibility::Public,
            ),
            Id(1),
        )
        .unwrap();

    let res2 = data.note(Id(1)).unwrap();
    assert_eq!(res, res2);

    assert_eq!(res.title(), "FooTitle");
    assert_eq!(res.body(), "BarBody");

    assert_eq!(data.notes.len(), 3);
    assert_eq!(data.tags.len(), 2);
}

#[test]
fn delete_notes() {
    let mut data = InMemoryStorage::default();

    let _ = data.add_note(Draft::default(), &User::default());
    let _ = data.add_note(Draft::default(), &User::default());
    let _ = data.add_note(Draft::default(), &User::default());

    assert!(data.delete_note(Id(1)));
    assert_eq!(data.notes.len(), 3);
    assert_eq!(data.notes().len(), 2);

    assert!(!data.delete_note(Id(666)));
    assert_eq!(data.notes.len(), 3);
    assert_eq!(data.notes().len(), 2);
}

#[test]
fn tagged_notes() {
    let mut data = InMemoryStorage::default();

    assert_eq!(data.notes.len(), 0);
    assert_eq!(data.tags.len(), 0);

    let _ = data.add_note(
        Draft::new(
            "Foo".to_string(),
            "Foo".to_string(),
            vec!["foo".to_string()],
            Visibility::Public,
        ),
        &User::default(),
    );
    let _ = data.add_note(
        Draft::new(
            "Foo".to_string(),
            "Foo".to_string(),
            vec!["foo".to_string(), "bar".to_string()],
            Visibility::Public,
        ),
        &User::default(),
    );

    assert_eq!(data.tagged_notes(&data.tag("foo").unwrap()).len(), 2);
    assert_eq!(data.tagged_notes(&data.tag("bar").unwrap()).len(), 1);
}

#[test]
fn added_note_is_found_again() {
    let mut data = InMemoryStorage::default();
    let user = User::default();

    let returned = data.add_note(
        Draft::new(
            "Title".to_string(),
            "Body".to_string(),
            vec!["foo".to_string()],
            Visibility::Public,
        ),
        &user,
    );

    let looked_up = data.note(*returned.id()).unwrap();
    assert_eq!(looked_up, returned);
    assert_eq!(returned.user(), user.id());
}

#[test]
fn deleted_note_is_hidden_but_kept() {
    let mut data = InMemoryStorage::default();
    for _ in 0..3 {
        let _ = data.add_note(Draft::default(), &User::default());
    }
    let stored_before = data.notes.len();

    assert!(data.delete_note(Id(1)));

    assert!(data.notes().iter().all(|n| n.id() != &Id(1)));
    assert!(data.note(Id(1)).is_none());
    assert_eq!(data.notes.len(), stored_before);
}

#[test]
fn delete_unknown_id_changes_nothing() {
    let mut data = InMemoryStorage::default();
    let _ = data.add_note(Draft::default(), &User::default());
    let _ = data.add_tag("foo".to_string());

    assert!(!data.delete_note(Id(5)));
    assert_eq!(data.notes.len(), 1);
    assert_eq!(data.tags.len(), 1);
    assert_eq!(data.notes().len(), 1);
}

#[test]
fn update_preserves_owner() {
    let mut data = InMemoryStorage::default();
    let _ = data.add_note(Draft::default(), &User::default());

    let updated = data
        .update_note(
            Draft::new(
                "New".to_string(),
                "New".to_string(),
                vec![],
                Visibility::Public,
            ),
            Id(0),
        )
        .unwrap();

    assert_eq!(updated.user(), User::default().id());
    assert_eq!(updated.id(), &Id(0));
}

#[test]
fn update_unknown_id_is_not_found() {
    let mut data = InMemoryStorage::default();
    let _ = data.add_note(Draft::default(), &User::default());

    let res = data.update_note(Draft::default(), Id(7));
    assert_eq!(res.unwrap_err(), StorageError::NotFound);
    assert_eq!(data.notes.len(), 1);
    assert_eq!(data.tags.len(), 0);
}

#[test]
fn notes_after_middle_delete_keep_order() {
    let mut data = InMemoryStorage::default();
    for _ in 0..3 {
        let _ = data.add_note(Draft::default(), &User::default());
    }

    assert!(data.delete_note(Id(1)));

    let listed = data.notes();
    assert_eq!(listed.len(), 2);
    assert_eq!(listed[0].id(), &Id(0));
    assert_eq!(listed[1].id(), &Id(2));
}

#[test]
fn tagged_notes_keep_insertion_order() {
    let mut data = InMemoryStorage::default();
    for title in ["a", "b", "c"] {
        let _ = data.add_note(
            Draft::new(
                title.to_string(),
                String::new(),
                vec!["shared".to_string()],
                Visibility::Public,
            ),
            &User::default(),
        );
    }
    assert!(data.delete_note(Id(1)));

    let tag = data.tag("shared").unwrap();
    let listed = data.tagged_notes(&tag);
    assert_eq!(listed.len(), 2);
    assert_eq!(listed[0].title(), "a");
    assert_eq!(listed[1].title(), "c");
}

#[test]
fn unknown_label_resolves_to_none() {
    let mut data = InMemoryStorage::default();
    let _ = data.add_note(
        Draft::new(
            "Foo".to_string(),
            "Foo".to_string(),
            vec!["foo".to_string()],
            Visibility::Public,
        ),
        &User::default(),
    );

    assert!(data.tag("nonexistent").is_none());
    // the failed lookup must not have fabricated a tag
    assert_eq!(data.tags.len(), 1);
}

#[test]
fn add_tag_reuses_existing_label() {
    let mut data = InMemoryStorage::default();

    let first = data.add_tag("foo".to_string());
    let second = data.add_tag("bar".to_string());
    let again = data.add_tag("foo".to_string());

    assert_eq!(first, Id(0));
    assert_eq!(second, Id(1));
    assert_eq!(again, first);
    assert_eq!(data.tags.len(), 2);
}

#[test]
fn duplicate_labels_in_one_draft_collapse() {
    let mut data = InMemoryStorage::default();
    let note = data.add_note(
        Draft::new(
            "Foo".to_string(),
            "Foo".to_string(),
            vec!["foo".to_string(), "foo".to_string()],
            Visibility::Public,
        ),
        &User::default(),
    );

    assert_eq!(data.tags.len(), 1);
    let mut tags = note.tags();
    assert!(tags.next().is_some());
    assert!(tags.next().is_none());
}

#[test]
fn second_resolution_reuses_tag_ids() {
    let mut data = InMemoryStorage::default();
    let draft = |t: &str| {
        Draft::new(
            t.to_string(),
            String::new(),
            vec!["foo".to_string(), "bar".to_string()],
            Visibility::Public,
        )
    };
    let first = data.add_note(draft("a"), &User::default());
    let second = data.add_note(draft("b"), &User::default());

    let collect = |note: &notes_core::models::note::Note| {
        let mut cursor = note.tags();
        let mut pairs = Vec::new();
        while let Some(tag) = cursor.next() {
            pairs.push((*tag.id(), tag.label().to_string()));
        }
        pairs
    };
    assert_eq!(collect(&first), collect(&second));
    assert_eq!(data.tags.len(), 2);
}

#[test]
fn tag_matching_is_case_sensitive() {
    let mut data = InMemoryStorage::default();
    let lower = data.add_tag("foo".to_string());
    let upper = data.add_tag("Foo".to_string());
    assert_ne!(lower, upper);
    assert_eq!(data.tags.len(), 2);
}

#[test]
fn user_notes_filters_by_owner() {
    let mut data = InMemoryStorage::default();
    let user = User::default();
    let _ = data.add_note(Draft::default(), &user);
    let _ = data.add_note(Draft::default(), &user);
    assert!(data.delete_note(Id(0)));

    let owned = data.user_notes(&user);
    assert_eq!(owned.len(), 1);
    assert_eq!(owned[0].id(), &Id(1));
}
