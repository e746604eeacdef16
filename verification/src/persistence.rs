//! The `Persister` contract: every storage operation a caller may perform,
//! stated independently of the backing technology.

use vstd::prelude::*;

use crate::models::note::{note_active, Draft, DraftM, Note, NoteM};
use crate::models::{Id, Tag, TagM, User};

pub mod laws;
pub mod memory;

verus! {

/// Position of the first element of `s` satisfying `p`, or `-1` if none does.
pub open spec fn first_where<A>(s: Seq<A>, p: spec_fn(A) -> bool) -> int
    decreases s.len(),
{
    if s.len() == 0 {
        -1
    } else if p(s[0]) {
        0
    } else {
        let r = first_where(s.drop_first(), p);
        if r < 0 {
            -1
        } else {
            r + 1
        }
    }
}

pub proof fn lemma_first_where_props<A>(s: Seq<A>, p: spec_fn(A) -> bool)
    ensures
        first_where(s, p) == -1 ==> forall|i: int| 0 <= i < s.len() ==> !p(s[i]),
        first_where(s, p) >= 0 ==> {
            &&& 0 <= first_where(s, p) < s.len()
            &&& p(s[first_where(s, p)])
            &&& forall|i: int| 0 <= i < first_where(s, p) ==> !p(s[i])
        },
    decreases s.len(),
{
    if s.len() > 0 && !p(s[0]) {
        lemma_first_where_props(s.drop_first(), p);
        assert forall|i: int| 1 <= i < s.len() implies s.drop_first()[i - 1] == s[i] by {}
    }
}

/// The first match is pinned down by any witness index whose prefix holds
/// no match.
pub proof fn lemma_first_where_at<A>(s: Seq<A>, p: spec_fn(A) -> bool, i: int)
    requires
        0 <= i < s.len(),
        p(s[i]),
        forall|k: int| 0 <= k < i ==> !p(s[k]),
    ensures
        first_where(s, p) == i,
{
    lemma_first_where_props(s, p);
}

/// When nothing matches, the search reports `-1`.
pub proof fn lemma_first_where_none<A>(s: Seq<A>, p: spec_fn(A) -> bool)
    requires
        forall|i: int| 0 <= i < s.len() ==> !p(s[i]),
    ensures
        first_where(s, p) == -1,
{
    lemma_first_where_props(s, p);
}

/// Filtering distributes over appending one element.
pub proof fn lemma_filter_push<A>(s: Seq<A>, x: A, p: spec_fn(A) -> bool)
    ensures
        s.push(x).filter(p) == (if p(x) {
            s.filter(p).push(x)
        } else {
            s.filter(p)
        }),
{
    reveal(Seq::filter);
    let q = s.push(x);
    assert(q.len() == s.len() + 1);
    assert(q.drop_last() =~= s);
    assert(q.last() == x);
}

/// Every element of a filtered sequence satisfies the predicate and stems
/// from the sequence it was filtered out of.
pub proof fn lemma_filter_elems<A>(s: Seq<A>, p: spec_fn(A) -> bool)
    ensures
        forall|i: int|
            0 <= i < s.filter(p).len() ==> p(#[trigger] s.filter(p)[i]) && s.contains(
                s.filter(p)[i],
            ),
    decreases s.len(),
{
    reveal(Seq::filter);
    if s.len() > 0 {
        let pre = s.drop_last();
        let fpre = pre.filter(p);
        let f = s.filter(p);
        lemma_filter_elems(pre, p);
        assert forall|i: int| 0 <= i < f.len() implies p(#[trigger] f[i]) && s.contains(f[i]) by {
            if p(s.last()) && i == f.len() - 1 {
                assert(f[i] == s.last());
                assert(s[s.len() - 1] == s.last());
                assert(s.contains(f[i]));
            } else {
                assert(f[i] == fpre[i]);
                let j = choose|j: int| 0 <= j < pre.len() && pre[j] == fpre[i];
                assert(s[j] == f[i]);
                assert(s.contains(f[i]));
            }
        }
    }
}

/// The active-note predicate, as one value usable with `Seq::filter`.
pub open spec fn active_pred() -> spec_fn(NoteM) -> bool {
    |n: NoteM| note_active(n)
}

/// Active notes owned by the user with key `user`.
pub open spec fn owned_active_pred(user: nat) -> spec_fn(NoteM) -> bool {
    |n: NoteM| n.user == user && note_active(n)
}

/// Active notes whose tag set contains a tag equal to `t`.
pub open spec fn tagged_active_pred(t: TagM) -> spec_fn(NoteM) -> bool {
    |n: NoteM| n.tags.contains(t) && note_active(n)
}

/// Tags carrying exactly the label `label`.
pub open spec fn label_is(label: Seq<char>) -> spec_fn(TagM) -> bool {
    |t: TagM| t.label == label
}

/// Notes stored under the key `id`.
pub open spec fn id_is(id: nat) -> spec_fn(NoteM) -> bool {
    |n: NoteM| n.id == id
}

/// Position of the first stored tag carrying `label`, or `-1`.
pub open spec fn first_with_label(tags: Seq<TagM>, label: Seq<char>) -> int {
    first_where(tags, label_is(label))
}

/// Whether some stored tag carries `label` (exact, case-sensitive match).
pub open spec fn has_label(tags: Seq<TagM>, label: Seq<char>) -> bool {
    exists|i: int| 0 <= i < tags.len() && tags[i].label == label
}

/// Position of the first note with key `id`, or `-1`.
pub open spec fn first_with_id(notes: Seq<NoteM>, id: nat) -> int {
    first_where(notes, id_is(id))
}

/// The tag that resolving `label` against the stored tags `tags` yields:
/// the first stored tag with that exact label if one exists, otherwise a
/// fresh tag whose key is the next sequential tag id.
pub open spec fn resolved_tag(tags: Seq<TagM>, label: Seq<char>) -> TagM {
    if has_label(tags, label) {
        tags[first_with_label(tags, label)]
    } else {
        TagM { id: tags.len() as nat, label: label }
    }
}

/// The stored tags after resolving one `label`: unchanged when the label is
/// known, extended by the fresh tag when it is not.
pub open spec fn resolve_tag_state(tags: Seq<TagM>, label: Seq<char>) -> Seq<TagM> {
    if has_label(tags, label) {
        tags
    } else {
        tags.push(TagM { id: tags.len() as nat, label: label })
    }
}

/// The stored tags after resolving every label of `labels` in order.
pub open spec fn resolve_labels_state(tags: Seq<TagM>, labels: Seq<Seq<char>>) -> Seq<TagM>
    decreases labels.len(),
{
    if labels.len() == 0 {
        tags
    } else {
        resolve_tag_state(resolve_labels_state(tags, labels.drop_last()), labels.last())
    }
}

/// The deduplicated tag set (in first-occurrence order) that resolving
/// `labels` against the stored tags `tags` attaches to a note.
pub open spec fn resolve_labels_set(tags: Seq<TagM>, labels: Seq<Seq<char>>) -> Seq<TagM>
    decreases labels.len(),
{
    if labels.len() == 0 {
        Seq::empty()
    } else {
        let prev = resolve_labels_set(tags, labels.drop_last());
        let t = resolved_tag(resolve_labels_state(tags, labels.drop_last()), labels.last());
        if prev.contains(t) {
            prev
        } else {
            prev.push(t)
        }
    }
}

/// The note built from `draft` under key `id` for owner `user`, with its
/// labels resolved against the stored tags `tags`.
pub open spec fn note_of_draft(draft: DraftM, id: nat, user: nat, tags: Seq<TagM>) -> NoteM {
    NoteM {
        id: id,
        title: draft.title,
        body: draft.body,
        tags: resolve_labels_set(tags, draft.tags),
        user: user,
        visibility: draft.visibility,
    }
}

/// Why a storage mutation was refused.
#[derive(Clone, Copy, Debug, Eq, PartialEq, Structural)]
pub enum StorageError {
    /// The targeted id does not resolve to a stored entity.
    NotFound,
}

/// The `Persister` trait links the actual business logic from the data
/// storage logic.
///
/// It allows to keep business logic independent from the implementation
/// and allows switching between different data storage technologies.
///
/// Every operation is stated against two abstract sequences: the notes ever
/// stored and the tags ever created, both in storage order. Read operations
/// return materialized snapshots valid only for the immediate response.
///
/// # Note
/// The caller must not rely on the implementer for security or validity checks
///
/// The caller must filter the resulting data further in many cases
pub trait Persister: Sized {
    /// All notes ever stored, in storage order, soft-deleted ones included.
    spec fn notes_view(&self) -> Seq<NoteM>;

    /// All tags ever created, in storage order.
    spec fn tags_view(&self) -> Seq<TagM>;

    /// The implementation's internal well-formedness condition.
    spec fn inv(&self) -> bool;

    /// Yields all notes whose visibility is not `Deleted`, in storage order.
    fn notes(&self) -> (r: Vec<Note>)
        requires
            self.inv(),
        ensures
            r.deep_view() == self.notes_view().filter(active_pred()),
    ;

    /// Yields all tags ever created, in storage order.
    fn tags(&self) -> (r: Vec<Tag>)
        requires
            self.inv(),
        ensures
            r.deep_view() == self.tags_view(),
    ;

    /// Assigns the next sequential note id, resolves or creates the tags
    /// named by the draft's label list, fixes the owner to `user`, stores
    /// the note, and returns the stored value.
    fn add_note(&mut self, draft: Draft, user: &User) -> (r: Note)
        requires
            old(self).inv(),
        ensures
            final(self).inv(),
            r@ == note_of_draft(
                draft@,
                old(self).notes_view().len() as nat,
                user@.id,
                old(self).tags_view(),
            ),
            final(self).notes_view() == old(self).notes_view().push(r@),
            final(self).tags_view() == resolve_labels_state(old(self).tags_view(), draft@.tags),
    ;

    /// Replaces the note stored under `id` wholesale with the draft's
    /// content, resolving tag labels exactly as `add_note` does, while
    /// preserving the original owner. Fails with `NotFound`, leaving all
    /// storage unchanged, when no note occupies `id`.
    fn update_note(&mut self, draft: Draft, id: Id) -> (r: Result<Note, StorageError>)
        requires
            old(self).inv(),
        ensures
            final(self).inv(),
            id.0 < old(self).notes_view().len() ==> {
                &&& r matches Ok(n) && n@ == note_of_draft(
                    draft@,
                    id.0 as nat,
                    old(self).notes_view()[id.0 as int].user,
                    old(self).tags_view(),
                )
                &&& final(self).notes_view() == old(self).notes_view().update(
                    id.0 as int,
                    r.unwrap()@,
                )
                &&& final(self).tags_view() == resolve_labels_state(
                    old(self).tags_view(),
                    draft@.tags,
                )
            },
            id.0 >= old(self).notes_view().len() ==> {
                &&& r == Result::<Note, StorageError>::Err(StorageError::NotFound)
                &&& final(self).notes_view() == old(self).notes_view()
                &&& final(self).tags_view() == old(self).tags_view()
            },
    ;

    /// Marks the note stored under `id` as `Deleted` and reports `true`;
    /// reports `false` and changes nothing when no note occupies `id`.
    /// The storage slot is never removed.
    fn delete_note(&mut self, id: Id) -> (r: bool)
        requires
            old(self).inv(),
        ensures
            final(self).inv(),
            r == (id.0 < old(self).notes_view().len()),
            id.0 < old(self).notes_view().len() ==> final(self).notes_view() == old(
                self,
            ).notes_view().update(
                id.0 as int,
                (NoteM {
                    visibility: crate::models::Visibility::Deleted,
                    ..old(self).notes_view()[id.0 as int]
                }),
            ),
            id.0 >= old(self).notes_view().len() ==> final(self).notes_view() == old(
                self,
            ).notes_view(),
            final(self).tags_view() == old(self).tags_view(),
    ;

    /// Yields the notes owned by `user` whose visibility is not `Deleted`,
    /// in storage order.
    fn user_notes(&self, user: &User) -> (r: Vec<Note>)
        requires
            self.inv(),
        ensures
            r.deep_view() == self.notes_view().filter(owned_active_pred(user@.id)),
    ;

    /// Yields the notes whose tag set contains a tag equal to `tag` (full
    /// value match) and whose visibility is not `Deleted`, in storage order.
    fn tagged_notes(&self, tag: &Tag) -> (r: Vec<Note>)
        requires
            self.inv(),
        ensures
            r.deep_view() == self.notes_view().filter(tagged_active_pred(tag@)),
    ;

    /// Returns the id of an existing tag with exactly the label `label` if
    /// one is present, otherwise creates and stores a new tag and returns
    /// its new id.
    fn add_tag(&mut self, label: String) -> (r: Id)
        requires
            old(self).inv(),
        ensures
            final(self).inv(),
            r.0 == resolved_tag(old(self).tags_view(), label@).id,
            final(self).tags_view() == resolve_tag_state(old(self).tags_view(), label@),
            final(self).notes_view() == old(self).notes_view(),
    ;

    /// The first active note stored under `id`, or `None` when every note
    /// under that id is absent or soft-deleted.
    fn note(&self, id: Id) -> (r: Option<Note>)
        requires
            self.inv(),
        ensures
            ({
                let act = self.notes_view().filter(active_pred());
                match r {
                    Some(n) => first_with_id(act, id.0 as nat) >= 0 && n@ == act[first_with_id(
                        act,
                        id.0 as nat,
                    )],
                    None => first_with_id(act, id.0 as nat) == -1,
                }
            }),
    {
        let found = self.notes();
        let ghost act = self.notes_view().filter(active_pred());
        let n = found.len();
        let mut i: usize = 0;
        while i < n
            invariant
                n == found.len(),
                found.deep_view() == act,
                act == self.notes_view().filter(active_pred()),
                0 <= i <= n,
                forall|k: int| 0 <= k < i ==> act[k].id != id.0 as nat,
            decreases n - i,
        {
            proof {
                assert(act[i as int] == found@[i as int]@);
            }
            if *found[i].id() == id {
                proof {
                    lemma_first_where_at(act, id_is(id.0 as nat), i as int);
                }
                return Some(found[i].clone());
            }
            i += 1;
        }
        proof {
            lemma_first_where_none(act, id_is(id.0 as nat));
        }
        None
    }

    /// The first tag with exactly the label `label`, or `None` when no tag
    /// carries it.
    fn tag(&self, label: &str) -> (r: Option<Tag>)
        requires
            self.inv(),
        ensures
            match r {
                Some(t) => first_with_label(self.tags_view(), label@) >= 0 && t@
                    == self.tags_view()[first_with_label(self.tags_view(), label@)],
                None => first_with_label(self.tags_view(), label@) == -1,
            },
    {
        let found = self.tags();
        let n = found.len();
        let mut i: usize = 0;
        while i < n
            invariant
                n == found.len(),
                found.deep_view() == self.tags_view(),
                0 <= i <= n,
                forall|k: int| 0 <= k < i ==> self.tags_view()[k].label != label@,
            decreases n - i,
        {
            proof {
                assert(self.tags_view()[i as int] == found@[i as int]@);
            }
            if label_matches(&found[i], label) {
                proof {
                    lemma_first_where_at(self.tags_view(), label_is(label@), i as int);
                }
                return Some(found[i].clone());
            }
            i += 1;
        }
        proof {
            lemma_first_where_none(self.tags_view(), label_is(label@));
        }
        None
    }
}

/// Exact, case-sensitive comparison of a stored tag's label with `label`.
pub fn label_matches(tag: &Tag, label: &str) -> (r: bool)
    ensures
        r == (tag@.label == label@),
{
    let a = tag.label().to_owned();
    let b = label.to_owned();
    a == b
}

} // verus!
