//! The in-memory reference engine: notes and tags held in ordered growable
//! sequences, with tag deduplication, soft deletion and filtered queries.

use vstd::prelude::*;

use vstd::pervasive::VecAdditionalExecFns;

use crate::models::note::{note_active, Draft, Note, NoteM, Tags};
use crate::models::{Id, Tag, TagM, User, Visibility};
use crate::persistence::{
    active_pred, has_label, label_is, label_matches, lemma_filter_push, lemma_first_where_at,
    owned_active_pred, resolve_labels_set, resolve_labels_state, resolve_tag_state, resolved_tag,
    tagged_active_pred, Persister, StorageError,
};

verus! {

/// Appending one element appends its view.
proof fn lemma_deep_view_push<T: DeepView>(pre: Seq<T>, post: Seq<T>, x: T)
    requires
        post == pre.push(x),
    ensures
        Seq::new(post.len(), |i: int| post[i].deep_view()) == Seq::new(
            pre.len(),
            |i: int| pre[i].deep_view(),
        ).push(x.deep_view()),
{
    assert(Seq::new(post.len(), |i: int| post[i].deep_view()) =~= Seq::new(
        pre.len(),
        |i: int| pre[i].deep_view(),
    ).push(x.deep_view()));
}

/// Taking one more element appends the next one.
proof fn lemma_take_succ<A>(s: Seq<A>, i: int)
    requires
        0 <= i < s.len(),
    ensures
        s.take(i + 1) == s.take(i).push(s[i]),
{
    assert(s.take(i + 1) =~= s.take(i).push(s[i]));
}

/// Whether a note counts as present for read operations.
pub fn active(note: &Note) -> (r: bool)
    ensures
        r == note_active(note@),
{
    match note.visibility() {
        Visibility::Deleted => false,
        _ => true,
    }
}

/// The reference engine. It holds two append-only-by-index growable
/// sequences; id values are simply positional indices into these sequences
/// at the time of creation.
#[derive(Debug)]
pub struct InMemoryStorage {
    pub notes: Vec<Note>,
    pub tags: Vec<Tag>,
}

impl InMemoryStorage {
    /// Storage well-formedness: ids equal storage positions, and tag labels
    /// are pairwise distinct.
    pub open spec fn wf(self) -> bool {
        let notes = self.notes.deep_view();
        let tags = self.tags.deep_view();
        &&& forall|i: int| 0 <= i < notes.len() ==> (#[trigger] notes[i]).id == i
        &&& forall|i: int| 0 <= i < tags.len() ==> (#[trigger] tags[i]).id == i
        &&& forall|i: int, j: int|
            0 <= i < j < tags.len() ==> (#[trigger] tags[i]).label != (#[trigger] tags[j]).label
    }

    /// Resolves each label of `labels`, in order, to a stored tag: a label
    /// already present reuses the existing tag, an unknown one is stored as
    /// a fresh tag with the next sequential id. Duplicate labels collapse
    /// to one entry of the returned tag set.
    pub fn map_tags(&mut self, labels: &Vec<String>) -> (r: Tags)
        requires
            old(self).wf(),
        ensures
            final(self).wf(),
            final(self).notes == old(self).notes,
            final(self).tags.deep_view() == resolve_labels_state(
                old(self).tags.deep_view(),
                labels.deep_view(),
            ),
            r@ == resolve_labels_set(old(self).tags.deep_view(), labels.deep_view()),
    {
        let ghost tags0 = old(self).tags.deep_view();
        let ghost all = labels.deep_view();
        let mut tags = Tags::default();
        let n = labels.len();
        let mut i: usize = 0;
        while i < n
            invariant
                self.wf(),
                n == labels.len(),
                all == labels.deep_view(),
                0 <= i <= n,
                self.notes == old(self).notes,
                self.tags.deep_view() == resolve_labels_state(tags0, all.take(i as int)),
                tags@ == resolve_labels_set(tags0, all.take(i as int)),
            decreases n - i,
        {
            let ghost cur = self.tags.deep_view();
            let ghost l = all[i as int];
            proof {
                lemma_take_succ(all, i as int);
            }
            let m = self.tags.len();
            let mut j: usize = 0;
            let mut found = false;
            while j < m && !found
                invariant
                    m == self.tags.len(),
                    cur == self.tags.deep_view(),
                    l == all[i as int],
                    i < n,
                    n == labels.len(),
                    all == labels.deep_view(),
                    0 <= j <= m,
                    found ==> j < m && cur[j as int].label == l,
                    !found ==> forall|k: int| 0 <= k < j ==> cur[k].label != l,
                decreases m - j + (if found {
                    0int
                } else {
                    1int
                }),
            {
                if label_matches(&self.tags[j], labels[i].as_str()) {
                    found = true;
                } else {
                    j += 1;
                }
            }
            if found {
                proof {
                    assert(has_label(cur, l));
                    lemma_first_where_at(cur, label_is(l), j as int);
                    assert(resolved_tag(cur, l) == cur[j as int]);
                    assert(resolve_tag_state(cur, l) == cur);
                }
                let t = self.tags[j].clone();
                proof {
                    assert(t@ == cur[j as int]);
                }
                tags.insert(t);
            } else {
                proof {
                    assert(forall|k: int| 0 <= k < cur.len() ==> cur[k].label != l);
                    assert(!has_label(cur, l));
                }
                let tag = Tag::new(Id(self.tags.len()), labels[i].clone());
                let ghost pre = self.tags@;
                tags.insert(tag.clone());
                self.tags.push(tag);
                proof {
                    lemma_deep_view_push(pre, self.tags@, tag);
                    assert(self.tags.deep_view() == cur.push(tag@));
                    assert(tag@ == (TagM { id: cur.len() as nat, label: l }));
                }
            }
            proof {
                let pre_labels = all.take(i as int);
                let now_labels = all.take(i as int + 1);
                assert(now_labels.drop_last() =~= pre_labels);
                assert(now_labels.last() == l);
                assert(resolve_labels_state(tags0, now_labels) == resolve_tag_state(cur, l));
                assert(resolve_labels_set(tags0, now_labels) == (if resolve_labels_set(
                    tags0,
                    pre_labels,
                ).contains(resolved_tag(cur, l)) {
                    resolve_labels_set(tags0, pre_labels)
                } else {
                    resolve_labels_set(tags0, pre_labels).push(resolved_tag(cur, l))
                }));
            }
            i += 1;
        }
        proof {
            assert(all.take(n as int) =~= all);
        }
        tags
    }
}

impl Default for InMemoryStorage {
    fn default() -> (r: Self)
        ensures
            r.wf(),
            r.notes.deep_view() == Seq::<NoteM>::empty(),
            r.tags.deep_view() == Seq::<TagM>::empty(),
    {
        let r = InMemoryStorage { notes: Vec::new(), tags: Vec::new() };
        proof {
            assert(r.notes.deep_view() =~= Seq::<NoteM>::empty());
            assert(r.tags.deep_view() =~= Seq::<TagM>::empty());
        }
        r
    }
}

impl Persister for InMemoryStorage {
    open spec fn notes_view(&self) -> Seq<NoteM> {
        self.notes.deep_view()
    }

    open spec fn tags_view(&self) -> Seq<TagM> {
        self.tags.deep_view()
    }

    open spec fn inv(&self) -> bool {
        self.wf()
    }

    fn notes(&self) -> (r: Vec<Note>) {
        let mut res: Vec<Note> = Vec::new();
        let n = self.notes.len();
        let mut i: usize = 0;
        while i < n
            invariant
                n == self.notes.len(),
                0 <= i <= n,
                res.deep_view() == self.notes_view().take(i as int).filter(active_pred()),
            decreases n - i,
        {
            let ghost pre = res@;
            let ghost prefix = self.notes_view().take(i as int);
            proof {
                lemma_take_succ(self.notes_view(), i as int);
                lemma_filter_push(prefix, self.notes_view()[i as int], active_pred());
            }
            if active(&self.notes[i]) {
                res.push(self.notes[i].clone());
                proof {
                    lemma_deep_view_push(pre, res@, res@.last());
                }
            }
            i += 1;
        }
        proof {
            assert(self.notes_view().take(n as int) =~= self.notes_view());
        }
        res
    }

    fn tags(&self) -> (r: Vec<Tag>) {
        let mut res: Vec<Tag> = Vec::new();
        let n = self.tags.len();
        let mut i: usize = 0;
        while i < n
            invariant
                n == self.tags.len(),
                0 <= i <= n,
                res.deep_view() == self.tags_view().take(i as int),
            decreases n - i,
        {
            let ghost pre = res@;
            proof {
                lemma_take_succ(self.tags_view(), i as int);
            }
            res.push(self.tags[i].clone());
            proof {
                lemma_deep_view_push(pre, res@, res@.last());
            }
            i += 1;
        }
        proof {
            assert(self.tags_view().take(n as int) =~= self.tags_view());
        }
        res
    }

    fn add_note(&mut self, draft: Draft, user: &User) -> (r: Note) {
        let id = Id(self.notes.len());
        let tags = self.map_tags(draft.tags());
        let note = Note::new(draft, id, *user.id(), tags);
        let r = note.clone();
        let ghost pre = self.notes@;
        self.notes.push(note);
        proof {
            lemma_deep_view_push(pre, self.notes@, self.notes@.last());
        }
        r
    }

    fn update_note(&mut self, draft: Draft, id: Id) -> (r: Result<Note, StorageError>) {
        if id.0 >= self.notes.len() {
            return Err(StorageError::NotFound);
        }
        let tags = self.map_tags(draft.tags());
        let user = *self.notes[id.0].user();
        let note = Note::new(draft, id, user, tags);
        let r = note.clone();
        let ghost pre = self.notes@;
        self.notes.set(id.0, note);
        proof {
            assert(self.notes.deep_view() =~= Seq::new(
                pre.len(),
                |i: int| pre[i].deep_view(),
            ).update(id.0 as int, self.notes@[id.0 as int].deep_view()));
        }
        Ok(r)
    }

    fn delete_note(&mut self, id: Id) -> (r: bool) {
        if id.0 < self.notes.len() {
            let ghost pre = self.notes@;
            let mut note = self.notes[id.0].clone();
            let v = note.visibility_mut();
            *v = Visibility::Deleted;
            self.notes.set(id.0, note);
            proof {
                assert(self.notes.deep_view() =~= Seq::new(
                    pre.len(),
                    |i: int| pre[i].deep_view(),
                ).update(id.0 as int, self.notes@[id.0 as int].deep_view()));
            }
            true
        } else {
            false
        }
    }

    fn user_notes(&self, user: &User) -> (r: Vec<Note>) {
        let mut res: Vec<Note> = Vec::new();
        let n = self.notes.len();
        let mut i: usize = 0;
        while i < n
            invariant
                n == self.notes.len(),
                0 <= i <= n,
                res.deep_view() == self.notes_view().take(i as int).filter(
                    owned_active_pred(user@.id),
                ),
            decreases n - i,
        {
            let ghost pre = res@;
            let ghost prefix = self.notes_view().take(i as int);
            proof {
                lemma_take_succ(self.notes_view(), i as int);
                lemma_filter_push(prefix, self.notes_view()[i as int], owned_active_pred(user@.id));
            }
            if *self.notes[i].user() == *user.id() && active(&self.notes[i]) {
                res.push(self.notes[i].clone());
                proof {
                    lemma_deep_view_push(pre, res@, res@.last());
                }
            }
            i += 1;
        }
        proof {
            assert(self.notes_view().take(n as int) =~= self.notes_view());
        }
        res
    }

    fn tagged_notes(&self, tag: &Tag) -> (r: Vec<Note>) {
        let mut res: Vec<Note> = Vec::new();
        let n = self.notes.len();
        let mut i: usize = 0;
        while i < n
            invariant
                n == self.notes.len(),
                0 <= i <= n,
                res.deep_view() == self.notes_view().take(i as int).filter(
                    tagged_active_pred(tag@),
                ),
            decreases n - i,
        {
            let ghost pre = res@;
            let ghost prefix = self.notes_view().take(i as int);
            proof {
                lemma_take_succ(self.notes_view(), i as int);
                lemma_filter_push(prefix, self.notes_view()[i as int], tagged_active_pred(tag@));
            }
            if self.notes[i].tagged_with(tag) && active(&self.notes[i]) {
                res.push(self.notes[i].clone());
                proof {
                    lemma_deep_view_push(pre, res@, res@.last());
                }
            }
            i += 1;
        }
        proof {
            assert(self.notes_view().take(n as int) =~= self.notes_view());
        }
        res
    }

    fn add_tag(&mut self, label: String) -> (r: Id) {
        let m = self.tags.len();
        let mut j: usize = 0;
        while j < m
            invariant
                m == self.tags.len(),
                self.wf(),
                self.tags.deep_view() == old(self).tags.deep_view(),
                self.notes.deep_view() == old(self).notes.deep_view(),
                0 <= j <= m,
                forall|k: int| 0 <= k < j ==> self.tags.deep_view()[k].label != label@,
            decreases m - j,
        {
            if label_matches(&self.tags[j], label.as_str()) {
                proof {
                    assert(self.tags.deep_view()[j as int].label == label@);
                    assert(has_label(self.tags.deep_view(), label@));
                    lemma_first_where_at(self.tags.deep_view(), label_is(label@), j as int);
                }
                return *self.tags[j].id();
            }
            j += 1;
        }
        proof {
            assert(!has_label(self.tags.deep_view(), label@));
        }
        let id = Id(self.tags.len());
        let ghost pre = self.tags@;
        self.tags.push(Tag::new(id, label));
        proof {
            lemma_deep_view_push(pre, self.tags@, self.tags@.last());
        }
        id
    }
}

} // verus!
