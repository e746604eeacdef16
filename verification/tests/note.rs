use notes_core::models::note::{Draft, Note, Tags};
use notes_core::models::{Id, Tag, Visibility};

pub fn example_note() -> Note {
    let mut tags = Tags::default();
    tags.insert(Tag::new(1.into(), "tag1".to_string()));
    tags.insert(Tag::new(1.into(), "tag2".to_string()));
    tags.insert(Tag::new(1.into(), "tag3".to_string()));

    Note::new(
        Draft::new(
            "Test-Title".into(),
            "Test-Body".into(),
            vec![],
            Visibility::Public,
        ),
        Id(1),
        Id(12),
        tags,
    )
}

#[test]
fn test_tags() {
    let note = example_note();

    assert!(note.tagged_with(&Tag::new(1.into(), "tag1".to_string())));
    assert!(!note.tagged_with(&Tag::new(666.into(), "tag1".to_string())));
    assert!(!note.tagged_with(&Tag::new(1.into(), "foobar".to_string())));

    assert!(note.tagged_with(&Tag::new(1.into(), "tag2".to_string())));
}

#[test]
fn test_tag_iterator() {
    let note = example_note();

    let mut tags = note.tags();
    // all fake tags have ID 1
    assert_eq!(tags.next().unwrap().id(), &Id(1));
    assert!(tags.next().is_some());
    assert!(tags.next().is_some());
    assert!(tags.next().is_none());
}

#[test]
fn test_note_to_draft() {
    let note = example_note();
    let draft = Draft::from(&note);

    assert_eq!(draft.title(), "Test-Title");
    assert_eq!(draft.tags().len(), 3);
}

#[test]
fn test_tags_deduplicate() {
    let mut tags = Tags::default();
    assert!(tags.insert(Tag::new(0.into(), "foo".to_string())));
    assert!(!tags.insert(Tag::new(0.into(), "foo".to_string())));
    assert!(tags.insert(Tag::new(1.into(), "foo".to_string())));
    assert!(tags.contains(&Tag::new(0.into(), "foo".to_string())));
    assert!(!tags.contains(&Tag::new(2.into(), "foo".to_string())));
}

#[test]
fn test_display_rendering() {
    let note = example_note();
    assert_eq!(note.to_display_string(), "Test-Title: Test-Body");
}

#[test]
fn test_note_accessors() {
    let mut note = example_note();
    assert_eq!(note.id(), &Id(1));
    assert_eq!(note.title(), "Test-Title");
    assert_eq!(note.body(), "Test-Body");
    assert_eq!(note.user(), &Id(12));
    assert_eq!(note.visibility(), &Visibility::Public);
    *note.visibility_mut() = Visibility::Deleted;
    assert_eq!(note.visibility(), &Visibility::Deleted);
}
