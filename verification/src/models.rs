//! The main data structures of the note store.
//!
//! Each executable type has a mathematical view (`Id` is viewed as its raw
//! integer, `Tag` as a `TagM`, and so on); every contract in this crate is
//! stated over those views.

use vstd::prelude::*;

pub mod note;

verus! {

/// Id represents a foreign and/or primary key.
///
/// Ids are unique within their entity collection: notes and tags have
/// independent Id spaces, both starting at 0 and assigned sequentially.
#[derive(Clone, Copy, Debug, Eq, Hash, PartialEq, Structural)]
pub struct Id(pub usize);

impl Default for Id {
    fn default() -> (r: Self)
        ensures
            r.0 == 0,
    {
        Id(0)
    }
}

impl From<Id> for usize {
    fn from(value: Id) -> (r: Self)
        ensures
            r == value.0,
    {
        value.0
    }
}

impl vstd::std_specs::convert::FromSpecImpl<Id> for usize {
    open spec fn obeys_from_spec() -> bool {
        true
    }

    open spec fn from_spec(v: Id) -> usize {
        v.0
    }
}

impl From<&Id> for usize {
    fn from(value: &Id) -> (r: Self)
        ensures
            r == value.0,
    {
        value.0
    }
}

impl vstd::std_specs::convert::FromSpecImpl<&Id> for usize {
    open spec fn obeys_from_spec() -> bool {
        true
    }

    open spec fn from_spec(v: &Id) -> usize {
        v.0
    }
}

impl From<usize> for Id {
    fn from(value: usize) -> (r: Self)
        ensures
            r.0 == value,
    {
        Id(value)
    }
}

impl vstd::std_specs::convert::FromSpecImpl<usize> for Id {
    open spec fn obeys_from_spec() -> bool {
        true
    }

    open spec fn from_spec(v: usize) -> Id {
        Id(v)
    }
}

/// The mathematical value of a [`Tag`]: its key and its label characters.
pub ghost struct TagM {
    pub id: nat,
    pub label: Seq<char>,
}

/// Tags are labels added to individual notes.
///
/// A tag is immutable once created: the store only ever adds new tags, never
/// renames or removes one, so note-tag associations stay valid forever.
#[derive(Debug, Eq, Hash)]
pub struct Tag {
    id: Id,
    label: String,
}

impl View for Tag {
    type V = TagM;

    closed spec fn view(&self) -> TagM {
        TagM { id: self.id.0 as nat, label: self.label@ }
    }
}

impl DeepView for Tag {
    type V = TagM;

    open spec fn deep_view(&self) -> TagM {
        self.view()
    }
}

impl Tag {
    /// Constructs a new [`Tag`]
    pub fn new(id: Id, label: String) -> (r: Self)
        ensures
            r@ == (TagM { id: id.0 as nat, label: label@ }),
    {
        Self { id, label }
    }

    /// Returns the primary key of the [`Tag`]
    pub fn id(&self) -> (r: &Id)
        ensures
            r.0 == self@.id,
    {
        &self.id
    }

    /// Returns the label of the [`Tag`]
    pub fn label(&self) -> (r: &str)
        ensures
            r@ == self@.label,
    {
        self.label.as_str()
    }
}

impl Clone for Tag {
    fn clone(&self) -> (r: Self)
        ensures
            r == *self,
    {
        Self { id: self.id, label: self.label.clone() }
    }
}

impl PartialEq for Tag {
    fn eq(&self, other: &Self) -> (r: bool) {
        self.id.0 == other.id.0 && self.label == other.label
    }
}

impl vstd::std_specs::cmp::PartialEqSpecImpl for Tag {
    open spec fn obeys_eq_spec() -> bool {
        true
    }

    open spec fn eq_spec(&self, other: &Tag) -> bool {
        self@ == other@
    }
}

impl Default for Tag {
    fn default() -> (r: Self)
        ensures
            r@.id == 0,
            r@.label == Seq::<char>::empty(),
    {
        Self { id: Id(0), label: String::new() }
    }
}

/// The mathematical value of a [`User`].
pub ghost struct UserM {
    pub id: nat,
    pub name: Seq<char>,
}

/// User management is not built in yet and this struct acts only as a placeholder
#[derive(Debug, Eq, Hash)]
pub struct User {
    id: Id,
    name: String,
}

impl View for User {
    type V = UserM;

    closed spec fn view(&self) -> UserM {
        UserM { id: self.id.0 as nat, name: self.name@ }
    }
}

impl User {
    /// Returns the primary key of the [`User`]
    pub fn id(&self) -> (r: &Id)
        ensures
            r.0 == self@.id,
    {
        &self.id
    }
}

impl PartialEq for User {
    fn eq(&self, other: &Self) -> (r: bool) {
        self.id.0 == other.id.0 && self.name == other.name
    }
}

impl vstd::std_specs::cmp::PartialEqSpecImpl for User {
    open spec fn obeys_eq_spec() -> bool {
        true
    }

    open spec fn eq_spec(&self, other: &User) -> bool {
        self@ == other@
    }
}

impl Default for User {
    fn default() -> (r: Self)
        ensures
            r@.id == 0,
            r@.name == Seq::<char>::empty(),
    {
        Self { id: Id(0), name: String::new() }
    }
}

/// [Notes](`note::Note`) can have different types of visibility to be either private or public
/// For simplicity, Visibility can also be used to soft-delete `Note`s.
#[derive(Debug, Eq, Hash, PartialEq, Structural)]
pub enum Visibility {
    Private,
    Public,
    Deleted,
}

impl Clone for Visibility {
    fn clone(&self) -> (r: Self)
        ensures
            r == *self,
    {
        match self {
            Visibility::Private => Visibility::Private,
            Visibility::Public => Visibility::Public,
            Visibility::Deleted => Visibility::Deleted,
        }
    }
}

impl Default for Visibility {
    fn default() -> (r: Self)
        ensures
            r == Visibility::Private,
    {
        Visibility::Private
    }
}

} // verus!
