//! Laws that every conforming engine enjoys, proved once over the abstract
//! storage model that the `Persister` contract is stated in.

use vstd::prelude::*;

use crate::models::note::{note_active, NoteM};
use crate::models::{TagM, Visibility};
use crate::persistence::{
    active_pred, first_with_id, first_with_label, has_label, id_is, label_is, lemma_filter_elems,
    lemma_filter_push, lemma_first_where_at, lemma_first_where_none, lemma_first_where_props,
    resolve_labels_set, resolve_labels_state, resolve_tag_state, resolved_tag, tagged_active_pred,
};

verus! {

/// Resolving one label never loses an already-known label.
proof fn lemma_resolve_tag_state_monotone(tags: Seq<TagM>, label: Seq<char>, known: Seq<char>)
    requires
        has_label(tags, known),
    ensures
        has_label(resolve_tag_state(tags, label), known),
{
    let i = choose|i: int| 0 <= i < tags.len() && tags[i].label == known;
    assert(resolve_tag_state(tags, label)[i].label == known);
}

/// After resolving one label, that label is known.
proof fn lemma_resolve_tag_state_covers(tags: Seq<TagM>, label: Seq<char>)
    ensures
        has_label(resolve_tag_state(tags, label), label),
{
    if !has_label(tags, label) {
        assert(resolve_tag_state(tags, label)[tags.len() as int].label == label);
    }
}

/// After resolving a label list, every label of the list is known.
proof fn lemma_resolve_labels_state_covers(tags: Seq<TagM>, labels: Seq<Seq<char>>)
    ensures
        forall|i: int|
            0 <= i < labels.len() ==> has_label(
                resolve_labels_state(tags, labels),
                #[trigger] labels[i],
            ),
    decreases labels.len(),
{
    if labels.len() > 0 {
        let pre = labels.drop_last();
        let state = resolve_labels_state(tags, pre);
        lemma_resolve_labels_state_covers(tags, pre);
        lemma_resolve_tag_state_covers(state, labels.last());
        assert forall|i: int| 0 <= i < labels.len() implies has_label(
            resolve_labels_state(tags, labels),
            #[trigger] labels[i],
        ) by {
            if i < labels.len() - 1 {
                assert(labels[i] == pre[i]);
                lemma_resolve_tag_state_monotone(state, labels.last(), pre[i]);
            }
        }
    }
}

/// Resolving labels that are all known already changes nothing.
proof fn lemma_resolve_labels_state_stable(tags: Seq<TagM>, labels: Seq<Seq<char>>)
    requires
        forall|i: int| 0 <= i < labels.len() ==> has_label(tags, #[trigger] labels[i]),
    ensures
        resolve_labels_state(tags, labels) == tags,
    decreases labels.len(),
{
    if labels.len() > 0 {
        let pre = labels.drop_last();
        assert(forall|i: int| 0 <= i < pre.len() ==> pre[i] == labels[i]);
        lemma_resolve_labels_state_stable(tags, pre);
        assert(labels.last() == labels[labels.len() - 1]);
    }
}

/// Resolving the same label list twice in sequence reuses the tags the
/// first pass created or found: the second pass stores no new tag and
/// leaves the tag storage exactly as the first pass left it.
pub proof fn lemma_resolution_reuses_tags(tags: Seq<TagM>, labels: Seq<Seq<char>>)
    ensures
        resolve_labels_state(resolve_labels_state(tags, labels), labels) == resolve_labels_state(
            tags,
            labels,
        ),
{
    lemma_resolve_labels_state_covers(tags, labels);
    lemma_resolve_labels_state_stable(resolve_labels_state(tags, labels), labels);
}

/// Resolving label lists one after the other is the same as resolving
/// their concatenation.
proof fn lemma_resolve_state_concat(tags: Seq<TagM>, x: Seq<Seq<char>>, y: Seq<Seq<char>>)
    ensures
        resolve_labels_state(tags, x + y) == resolve_labels_state(
            resolve_labels_state(tags, x),
            y,
        ),
    decreases y.len(),
{
    if y.len() == 0 {
        assert(x + y =~= x);
    } else {
        lemma_resolve_state_concat(tags, x, y.drop_last());
        assert((x + y).drop_last() =~= x + y.drop_last());
        assert((x + y).last() == y.last());
    }
}

/// Resolution only ever appends to the stored tags.
proof fn lemma_resolve_state_extends(tags: Seq<TagM>, labels: Seq<Seq<char>>)
    ensures
        resolve_labels_state(tags, labels).len() >= tags.len(),
        resolve_labels_state(tags, labels).take(tags.len() as int) == tags,
    decreases labels.len(),
{
    if labels.len() == 0 {
        assert(resolve_labels_state(tags, labels).take(tags.len() as int) =~= tags);
    } else {
        lemma_resolve_state_extends(tags, labels.drop_last());
        let s = resolve_labels_state(tags, labels.drop_last());
        assert(resolve_tag_state(s, labels.last()).take(tags.len() as int) =~= s.take(
            tags.len() as int,
        ));
    }
}

/// A label already stored keeps resolving to the same tag, whatever is
/// resolved after it.
proof fn lemma_resolved_tag_preserved(s: Seq<TagM>, c: Seq<Seq<char>>, l: Seq<char>)
    requires
        has_label(s, l),
    ensures
        has_label(resolve_labels_state(s, c), l),
        resolved_tag(resolve_labels_state(s, c), l) == resolved_tag(s, l),
{
    let t = resolve_labels_state(s, c);
    lemma_resolve_state_extends(s, c);
    lemma_first_where_props(s, label_is(l));
    let i = first_with_label(s, l);
    assert(i >= 0) by {
        if i == -1 {
            let w = choose|w: int| 0 <= w < s.len() && s[w].label == l;
            assert(label_is(l)(s[w]));
        }
    }
    assert forall|k: int| 0 <= k < s.len() implies t[k] == s[k] by {
        assert(t.take(s.len() as int)[k] == t[k]);
    }
    lemma_first_where_at(t, label_is(l), i);
    assert(t[i].label == l);
    assert(has_label(t, l));
}

/// Whether `l` was stored beforehand or is first created by its own
/// resolution step, resolving any label list that starts with `l` leaves
/// `l` resolving to the very tag that step picked or created.
proof fn lemma_resolved_tag_after(s: Seq<TagM>, l: Seq<char>, b: Seq<Seq<char>>)
    ensures
        resolved_tag(resolve_labels_state(s, seq![l] + b), l) == resolved_tag(s, l),
{
    let c = seq![l] + b;
    if has_label(s, l) {
        lemma_resolved_tag_preserved(s, c, l);
    } else {
        lemma_resolve_state_concat(s, seq![l], b);
        let s1 = resolve_labels_state(s, seq![l]);
        assert(seq![l].len() == 1);
        assert(seq![l].drop_last() =~= Seq::<Seq<char>>::empty());
        assert(seq![l].last() == l);
        assert(resolve_labels_state(s, Seq::<Seq<char>>::empty()) == s);
        assert(s1 == resolve_tag_state(s, l));
        let f = TagM { id: s.len() as nat, label: l };
        assert(s1 == s.push(f));
        assert(s1[s.len() as int] == f);
        assert forall|k: int| 0 <= k < s.len() implies !(label_is(l)(s1[k])) by {
            assert(s1[k] == s[k]);
            if s[k].label == l {
                assert(has_label(s, l));
            }
        }
        lemma_first_where_at(s1, label_is(l), s.len() as int);
        assert(has_label(s1, l));
        assert(resolved_tag(s1, l) == f);
        lemma_resolved_tag_preserved(s1, b, l);
        assert(resolve_labels_state(s, c) == resolve_labels_state(s1, b));
        assert(resolved_tag(s, l) == f);
    }
}

/// The tag set that a prefix of a resolution run attaches to a note reads
/// the same against the final stored tags as it did against the stored
/// tags the prefix ran against.
proof fn lemma_resolve_set_against_final(tags: Seq<TagM>, a: Seq<Seq<char>>, b: Seq<Seq<char>>)
    ensures
        resolve_labels_set(resolve_labels_state(tags, a + b), a) == resolve_labels_set(tags, a),
    decreases a.len(),
{
    let t = resolve_labels_state(tags, a + b);
    if a.len() > 0 {
        let a2 = a.drop_last();
        let l = a.last();
        assert(a + b =~= a2 + (seq![l] + b));
        lemma_resolve_set_against_final(tags, a2, seq![l] + b);
        lemma_resolve_labels_state_covers(tags, a + b);
        assert forall|i: int| 0 <= i < a2.len() implies has_label(t, #[trigger] a2[i]) by {
            assert((a + b)[i] == a2[i]);
            assert(has_label(t, (a + b)[i]));
        }
        lemma_resolve_labels_state_stable(t, a2);
        let s2 = resolve_labels_state(tags, a2);
        lemma_resolve_state_concat(tags, a2, seq![l] + b);
        assert(t == resolve_labels_state(s2, seq![l] + b));
        lemma_resolved_tag_after(s2, l, b);
        assert(resolve_labels_set(t, a2) == resolve_labels_set(tags, a2));
        assert(resolved_tag(resolve_labels_state(t, a2), l) == resolved_tag(s2, l));
    }
}

/// Resolving the same label list twice in sequence hands the second note
/// exactly the tag values (ids included) that the first resolution picked
/// or created: no tag is duplicated under a fresh id.
pub proof fn lemma_resolution_reuses_ids(tags: Seq<TagM>, labels: Seq<Seq<char>>)
    ensures
        resolve_labels_set(resolve_labels_state(tags, labels), labels) == resolve_labels_set(
            tags,
            labels,
        ),
{
    assert(labels + Seq::<Seq<char>>::empty() =~= labels);
    lemma_resolve_set_against_final(tags, labels, Seq::empty());
}

/// The tag set that resolution attaches to a note holds no duplicates:
/// it is a set of unique tag values, however often a label repeats in the
/// draft's label list.
pub proof fn lemma_resolved_set_distinct(tags: Seq<TagM>, labels: Seq<Seq<char>>)
    ensures
        ({
            let r = resolve_labels_set(tags, labels);
            forall|i: int, j: int| 0 <= i < j < r.len() ==> r[i] != r[j]
        }),
    decreases labels.len(),
{
    if labels.len() > 0 {
        let prev = resolve_labels_set(tags, labels.drop_last());
        let t = resolved_tag(resolve_labels_state(tags, labels.drop_last()), labels.last());
        lemma_resolved_set_distinct(tags, labels.drop_last());
        if !prev.contains(t) {
            let r = prev.push(t);
            assert forall|i: int, j: int| 0 <= i < j < r.len() implies r[i] != r[j] by {
                if j == r.len() - 1 {
                    assert(prev[i] == r[i]);
                    if r[i] == t {
                        assert(prev.contains(t));
                    }
                }
            }
        }
    }
}

/// After a note with the next sequential id is appended to a well-formed
/// store, looking its id up among the active notes finds exactly that note
/// — provided the note itself is not stored as already deleted.
pub proof fn lemma_add_note_then_lookup(notes: Seq<NoteM>, n: NoteM)
    requires
        forall|i: int| 0 <= i < notes.len() ==> (#[trigger] notes[i]).id == i,
        n.id == notes.len(),
        note_active(n),
    ensures
        ({
            let act = notes.push(n).filter(active_pred());
            &&& act.len() > 0
            &&& first_with_id(act, n.id) == act.len() - 1
            &&& act[first_with_id(act, n.id)] == n
        }),
{
    let act0 = notes.filter(active_pred());
    lemma_filter_push(notes, n, active_pred());
    lemma_filter_elems(notes, active_pred());
    let act = notes.push(n).filter(active_pred());
    assert(act == act0.push(n));
    assert forall|k: int| 0 <= k < act0.len() implies (#[trigger] act0[k]).id != n.id by {
        let j = choose|j: int| 0 <= j < notes.len() && notes[j] == act0[k];
        assert(act0[k].id == j);
    }
    assert(act[act.len() - 1] == n);
    lemma_first_where_at(act, id_is(n.id), act.len() - 1);
}

/// Soft-deleting the note stored at `id` keeps the storage count, excludes
/// the note from every active enumeration, and makes its id unresolvable
/// among the active notes.
pub proof fn lemma_delete_hides_note(notes: Seq<NoteM>, id: int)
    requires
        0 <= id < notes.len(),
        forall|i: int| 0 <= i < notes.len() ==> (#[trigger] notes[i]).id == i,
    ensures
        ({
            let after = notes.update(id, (NoteM { visibility: Visibility::Deleted, ..notes[id] }));
            let act = after.filter(active_pred());
            &&& after.len() == notes.len()
            &&& forall|k: int| 0 <= k < act.len() ==> (#[trigger] act[k]).id != id
            &&& first_with_id(act, id as nat) == -1
        }),
{
    let after = notes.update(id, (NoteM { visibility: Visibility::Deleted, ..notes[id] }));
    let act = after.filter(active_pred());
    lemma_filter_elems(after, active_pred());
    assert forall|k: int| 0 <= k < act.len() implies (#[trigger] act[k]).id != id by {
        let j = choose|j: int| 0 <= j < after.len() && after[j] == act[k];
        if j == id {
            assert(!note_active(act[k]));
        } else {
            assert(after[j] == notes[j]);
            assert(act[k].id == j);
        }
    }
    lemma_first_where_none(act, id_is(id as nat));
}

/// A tag-scoped query returns exactly the active notes whose tag set
/// contains a tag equal to `t`: every returned note is such a stored note,
/// and every such stored note is returned.
pub proof fn lemma_tagged_notes_exact(notes: Seq<NoteM>, t: TagM)
    ensures
        ({
            let r = notes.filter(tagged_active_pred(t));
            &&& forall|k: int|
                0 <= k < r.len() ==> (#[trigger] r[k]).tags.contains(t) && note_active(r[k])
                    && notes.contains(r[k])
            &&& forall|i: int|
                0 <= i < notes.len() && (#[trigger] notes[i]).tags.contains(t) && note_active(
                    notes[i],
                ) ==> r.contains(notes[i])
        }),
{
    let r = notes.filter(tagged_active_pred(t));
    lemma_filter_elems(notes, tagged_active_pred(t));
    broadcast use vstd::seq_lib::group_filter_ensures;

    assert forall|i: int|
        0 <= i < notes.len() && (#[trigger] notes[i]).tags.contains(t) && note_active(
            notes[i],
        ) implies r.contains(notes[i]) by {
        assert(tagged_active_pred(t)(notes[i]));
    }
}

} // verus!
