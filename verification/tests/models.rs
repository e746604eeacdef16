use notes_core::models::{Id, Tag, User, Visibility};

/// kind of a pointless test....
#[test]
fn test_id_conversions() {
    let u = 12usize;

    assert_eq!(Id::from(u), Id(12));
    assert_eq!(usize::from(Id(12)), 12usize);
    assert_eq!(usize::from(&Id(12)), 12usize);
}

#[test]
fn test_id_equality() {
    assert_eq!(Id(12), Id(12));
    assert_ne!(Id(12), Id(66))
}

#[test]
fn test_tag_equality() {
    let tag_a = Tag::new(Id(12), "foobar".to_string());
    assert_eq!(tag_a, tag_a);
    assert_eq!(tag_a, Tag::new(Id(12), "foobar".to_string()));
    assert_eq!(
        Tag::new(Id(1), "foo".to_string()),
        Tag::new(Id(1), "foo".to_string())
    );
    assert_ne!(tag_a, Tag::new(Id(1), "foo".to_string()));
    assert_ne!(tag_a, Tag::new(Id(12), "foo".to_string()));
    assert_ne!(tag_a, Tag::new(Id(1), "foobar".to_string()));
}

#[test]
fn test_defaults() {
    assert_eq!(Id::default(), Id(0));
    assert_eq!(User::default().id(), &Id(0));
    assert_eq!(Visibility::default(), Visibility::Private);
    let tag = Tag::default();
    assert_eq!(tag.id(), &Id(0));
    assert_eq!(tag.label(), "");
}

#[test]
fn test_tag_accessors() {
    let tag = Tag::new(Id(7), "groceries".to_string());
    assert_eq!(tag.id(), &Id(7));
    assert_eq!(tag.label(), "groceries");
    let copy = tag.clone();
    assert_eq!(tag, copy);
}
