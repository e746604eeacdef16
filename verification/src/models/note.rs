//! Notes and the shapes around them: the deduplicated tag set attached to a
//! note, the caller-supplied `Draft`, and the stored `Note` itself.

use vstd::prelude::*;

use vstd::string::StringExecFns;

use crate::models::{Id, Tag, TagM, Visibility};

verus! {

/// An unordered collection of unique [`Tag`] values attached to one note.
///
/// The tags are held in insertion order; membership is by value equality
/// (key and label together), and inserting a value twice keeps one copy.
#[derive(Debug)]
pub struct Tags(pub Vec<Tag>);

impl View for Tags {
    type V = Seq<TagM>;

    open spec fn view(&self) -> Seq<TagM> {
        self.0.deep_view()
    }
}

impl Tags {
    /// Adds `tag` unless an equal value is already present; returns whether
    /// the collection grew.
    pub fn insert(&mut self, tag: Tag) -> (r: bool)
        ensures
            r == !old(self)@.contains(tag@),
            final(self)@ == (if old(self)@.contains(tag@) {
                old(self)@
            } else {
                old(self)@.push(tag@)
            }),
    {
        if self.contains(&tag) {
            false
        } else {
            let ghost pre = self@;
            self.0.push(tag);
            proof {
                assert(self@ =~= pre.push(tag@));
            }
            true
        }
    }

    /// Membership test by full value equality.
    pub fn contains(&self, tag: &Tag) -> (r: bool)
        ensures
            r == self@.contains(tag@),
    {
        let n = self.0.len();
        let mut i: usize = 0;
        while i < n
            invariant
                n == self.0.len(),
                0 <= i <= n,
                forall|k: int| 0 <= k < i ==> self@[k] != tag@,
            decreases n - i,
        {
            if self.0[i] == *tag {
                assert(self@[i as int] == tag@);
                return true;
            }
            i += 1;
        }
        false
    }
}

impl Clone for Tags {
    fn clone(&self) -> (r: Self)
        ensures
            r@ == self@,
    {
        let mut list: Vec<Tag> = Vec::new();
        let n = self.0.len();
        let mut i: usize = 0;
        while i < n
            invariant
                n == self.0.len(),
                0 <= i <= n,
                list@.len() == i,
                forall|k: int| 0 <= k < i ==> list@[k]@ == self@[k],
            decreases n - i,
        {
            list.push(self.0[i].clone());
            i += 1;
        }
        let r = Tags(list);
        proof {
            assert(r@ =~= self@);
        }
        r
    }
}

impl Default for Tags {
    fn default() -> (r: Self)
        ensures
            r@ == Seq::<TagM>::empty(),
    {
        let r = Tags(Vec::new());
        proof {
            assert(r@ =~= Seq::<TagM>::empty());
        }
        r
    }
}

impl PartialEq for Tags {
    fn eq(&self, other: &Self) -> (r: bool) {
        let n = self.0.len();
        if n != other.0.len() {
            proof {
                assert(self@.len() == self.0@.len());
                assert(other@.len() == other.0@.len());
            }
            return false;
        }
        let mut i: usize = 0;
        while i < n
            invariant
                n == self.0.len(),
                n == other.0.len(),
                0 <= i <= n,
                forall|k: int| 0 <= k < i ==> self@[k] == other@[k],
            decreases n - i,
        {
            if !(self.0[i] == other.0[i]) {
                assert(self@[i as int] != other@[i as int]);
                return false;
            }
            i += 1;
        }
        proof {
            assert(self@ =~= other@);
        }
        true
    }
}

impl vstd::std_specs::cmp::PartialEqSpecImpl for Tags {
    open spec fn obeys_eq_spec() -> bool {
        true
    }

    open spec fn eq_spec(&self, other: &Tags) -> bool {
        self@ == other@
    }
}

/// A snapshot cursor over the tags of one note, valid for the immediate
/// response only.
pub struct TagIter {
    tags: Vec<Tag>,
    pos: usize,
}

impl TagIter {
    /// The tag values this cursor walks over.
    pub closed spec fn items(&self) -> Seq<TagM> {
        self.tags.deep_view()
    }

    /// How many items have been handed out already.
    pub closed spec fn cursor(&self) -> int {
        self.pos as int
    }

    /// Returns the next tag in insertion order, or `None` once all tags have
    /// been handed out.
    pub fn next(&mut self) -> (r: Option<Tag>)
        ensures
            final(self).items() == old(self).items(),
            old(self).cursor() < old(self).items().len() ==> {
                &&& final(self).cursor() == old(self).cursor() + 1
                &&& r matches Some(t) && t@ == old(self).items()[old(self).cursor()]
            },
            old(self).cursor() >= old(self).items().len() ==> {
                &&& final(self).cursor() == old(self).cursor()
                &&& r is None
            },
    {
        if self.pos < self.tags.len() {
            let t = self.tags[self.pos].clone();
            self.pos = self.pos + 1;
            Some(t)
        } else {
            None
        }
    }
}

/// The mathematical value of a [`Draft`].
pub ghost struct DraftM {
    pub title: Seq<char>,
    pub body: Seq<char>,
    pub tags: Seq<Seq<char>>,
    pub visibility: Visibility,
}

/// The caller-supplied, id-less and owner-less payload describing desired
/// note content, used both for creation and for full replacement updates.
///
/// Its tag labels may repeat or be unknown to the store; the engine resolves
/// them to unique [`Tag`] values.
#[derive(Debug)]
pub struct Draft {
    title: String,
    body: String,
    tags: Vec<String>,
    visibility: Visibility,
}

impl View for Draft {
    type V = DraftM;

    closed spec fn view(&self) -> DraftM {
        DraftM {
            title: self.title@,
            body: self.body@,
            tags: self.tags.deep_view(),
            visibility: self.visibility,
        }
    }
}

impl Draft {
    pub fn new(title: String, body: String, tags: Vec<String>, visibility: Visibility) -> (r: Self)
        ensures
            r@ == (DraftM {
                title: title@,
                body: body@,
                tags: tags.deep_view(),
                visibility: visibility,
            }),
    {
        Self { title, body, tags, visibility }
    }

    pub fn title(&self) -> (r: &str)
        ensures
            r@ == self@.title,
    {
        self.title.as_str()
    }

    pub fn tags(&self) -> (r: &Vec<String>)
        ensures
            r.deep_view() == self@.tags,
    {
        &self.tags
    }
}

impl Default for Draft {
    fn default() -> (r: Self)
        ensures
            r@.title == Seq::<char>::empty(),
            r@.body == Seq::<char>::empty(),
            r@.tags == Seq::<Seq<char>>::empty(),
            r@.visibility == Visibility::Private,
    {
        let r = Self {
            title: String::new(),
            body: String::new(),
            tags: Vec::new(),
            visibility: Visibility::Private,
        };
        proof {
            assert(r@.tags =~= Seq::<Seq<char>>::empty());
        }
        r
    }
}

/// The mathematical value of a [`Note`].
pub ghost struct NoteM {
    pub id: nat,
    pub title: Seq<char>,
    pub body: Seq<char>,
    pub tags: Seq<TagM>,
    pub user: nat,
    pub visibility: Visibility,
}

/// Whether a note counts as present for read operations.
pub open spec fn note_active(m: NoteM) -> bool {
    m.visibility != Visibility::Deleted
}

/// A stored note.
///
/// Notes are created only through a storage engine (never directly by a
/// caller), are given an id at creation time that never changes, and keep
/// the owner fixed at creation time.
#[derive(Debug)]
pub struct Note {
    id: Id,
    title: String,
    body: String,
    tags: Tags,
    user: Id,
    visibility: Visibility,
}

impl View for Note {
    type V = NoteM;

    closed spec fn view(&self) -> NoteM {
        NoteM {
            id: self.id.0 as nat,
            title: self.title@,
            body: self.body@,
            tags: self.tags@,
            user: self.user.0 as nat,
            visibility: self.visibility,
        }
    }
}

impl DeepView for Note {
    type V = NoteM;

    open spec fn deep_view(&self) -> NoteM {
        self.view()
    }
}

impl Note {
    pub fn new(draft: Draft, id: Id, user: Id, tags: Tags) -> (r: Self)
        ensures
            r@ == (NoteM {
                id: id.0 as nat,
                title: draft@.title,
                body: draft@.body,
                tags: tags@,
                user: user.0 as nat,
                visibility: draft@.visibility,
            }),
    {
        Self {
            id,
            title: draft.title,
            body: draft.body,
            tags,
            user,
            visibility: draft.visibility,
        }
    }

    pub fn id(&self) -> (r: &Id)
        ensures
            r.0 == self@.id,
    {
        &self.id
    }

    pub fn title(&self) -> (r: &str)
        ensures
            r@ == self@.title,
    {
        self.title.as_str()
    }

    pub fn body(&self) -> (r: &str)
        ensures
            r@ == self@.body,
    {
        self.body.as_str()
    }

    /// Whether the note's tag set contains a tag equal to `tag`
    /// (full value match: key and label).
    pub fn tagged_with(&self, tag: &Tag) -> (r: bool)
        ensures
            r == self@.tags.contains(tag@),
    {
        self.tags.contains(tag)
    }

    pub fn user(&self) -> (r: &Id)
        ensures
            r.0 == self@.user,
    {
        &self.user
    }

    /// Exclusive access to the note's visibility marker.
    pub fn visibility_mut(&mut self) -> (v: &mut Visibility)
        ensures
            *v == old(self)@.visibility,
            final(self)@ == (NoteM { visibility: *final(v), ..old(self)@ }),
    {
        &mut self.visibility
    }

    pub fn visibility(&self) -> (r: &Visibility)
        ensures
            *r == self@.visibility,
    {
        &self.visibility
    }

    /// Renders the note for display as `"{title}: {body}"`.
    pub fn to_display_string(&self) -> (r: String)
        ensures
            r@ == self@.title + ": "@ + self@.body,
    {
        let mut out = self.title.clone();
        out.append(": ");
        out.append(self.body.as_str());
        out
    }

    /// A snapshot cursor over this note's tags, in insertion order.
    pub fn tags(&self) -> (r: TagIter)
        ensures
            r.items() == self@.tags,
            r.cursor() == 0,
    {
        TagIter { tags: self.tags.clone().0, pos: 0 }
    }
}

impl Clone for Note {
    fn clone(&self) -> (r: Self)
        ensures
            r@ == self@,
    {
        Self {
            id: self.id,
            title: self.title.clone(),
            body: self.body.clone(),
            tags: self.tags.clone(),
            user: self.user,
            visibility: self.visibility.clone(),
        }
    }
}

impl PartialEq for Note {
    fn eq(&self, other: &Self) -> (r: bool) {
        self.id.0 == other.id.0 && self.title == other.title && self.body == other.body
            && self.tags == other.tags && self.user.0 == other.user.0
            && self.visibility == other.visibility
    }
}

impl vstd::std_specs::cmp::PartialEqSpecImpl for Note {
    open spec fn obeys_eq_spec() -> bool {
        true
    }

    open spec fn eq_spec(&self, other: &Note) -> bool {
        self@ == other@
    }
}

impl From<&Note> for Draft {
    /// Converting a note back to a draft is lossless except that the owning
    /// user and the id are dropped.
    fn from(note: &Note) -> (r: Self)
        ensures
            r@.title == note@.title,
            r@.body == note@.body,
            r@.tags == note@.tags.map_values(|t: TagM| t.label),
            r@.visibility == note@.visibility,
    {
        let mut labels: Vec<String> = Vec::new();
        let n = note.tags.0.len();
        let mut i: usize = 0;
        while i < n
            invariant
                n == note.tags.0.len(),
                0 <= i <= n,
                labels@.len() == i,
                forall|k: int| 0 <= k < i ==> labels@[k]@ == note@.tags[k].label,
            decreases n - i,
        {
            labels.push(note.tags.0[i].label().to_owned());
            i += 1;
        }
        let r = Self {
            title: note.title().to_owned(),
            body: note.body().to_owned(),
            tags: labels,
            visibility: note.visibility().clone(),
        };
        proof {
            assert(r@.tags =~= note@.tags.map_values(|t: TagM| t.label));
        }
        r
    }
}

impl vstd::std_specs::convert::FromSpecImpl<&Note> for Draft {
    open spec fn obeys_from_spec() -> bool {
        false
    }

    open spec fn from_spec(v: &Note) -> Draft {
        arbitrary()
    }
}

} // verus!
