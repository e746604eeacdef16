use notes_core::models::note::{Draft, Note, Tags};
use notes_core::models::{Id, Tag, Visibility};
use notes_core::persistence::memory::InMemoryStorage;
use notes_core::persistence::Persister;

pub fn example_note() -> Note {
    let mut tags = Tags::default();
    tags.insert(Tag::new(1.into(), "tag1".to_string()));
    tags.insert(Tag::new(1.into(), "tag2".to_string()));
    tags.insert(Tag::new(1.into(), "tag3".to_string()));

    Note::new(
        Draft::new(
            "Test-Title".into(),
            "Test-Body".into(),
            vec![],
            Visibility::Public,
        ),
        Id(1),
        Id(12),
        tags,
    )
}

// The derived `note` and `tag` lookups are exercised over a backend whose
// raw storage is laid out by hand.
fn backend(notes: Vec<Note>, tags: Vec<Tag>) -> InMemoryStorage {
    InMemoryStorage { notes, tags }
}

#[test]
fn test_note_default() {
    let foo = backend(vec![example_note(), example_note()], vec![]);

    assert_eq!(foo.notes().len(), 2);
    assert!(foo.note(Id(2)).is_none());
    assert!(foo.note(Id(1)).is_some());
}

#[test]
fn test_tag_default() {
    let foo = backend(
        vec![],
        vec![
            Tag::new(Id(1), "foo".to_string()),
            Tag::new(Id(2), "bar".to_string()),
        ],
    );

    assert_eq!(foo.tags().len(), 2);
    assert!(foo.tag("foobar").is_none());
    assert!(foo.tag("fo").is_none());
    assert!(foo.tag("ar").is_none());
    assert!(foo.tag("").is_none());
    assert!(foo.tag("*").is_none());
    assert!(foo.tag("%").is_none());
    assert!(foo.tag("foo").is_some());
    assert!(foo.tag("bar").is_some());
}
