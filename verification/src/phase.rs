//! The check and reset steps, as mathematics: which notifications one check
//! of a store emits, which records survive it under the disposal policy, and
//! what a reset leaves behind. The executable steps on the stores promise
//! exactly these values; the laws here say what follows from them, chiefly
//! that a completion fires exactly once per subject and never fires again
//! once a record is disposed.

use vstd::prelude::*;

use crate::record::{ProgressView, is_complete_view};
use crate::store::{
    seq_get,
    unique_subjects,
    lemma_unique_drop_last,
    lemma_unique_push,
    lemma_seq_get_absent,
    lemma_seq_get_push,
};

verus! {

/// A one-shot completion notification: the tag whose tracker completed, the
/// subject for keyed stores (`None` for a singleton's broadcast), and the
/// final reported done-count, as reported — overshoot is not clamped.
#[derive(Clone, Copy, Debug)]
pub struct Done {
    /// The tag whose tracker completed.
    pub tag: u64,
    /// The completed subject, or `None` when the tracker is a singleton.
    pub subject: Option<u64>,
    /// The done-count at the moment completion was observed.
    pub work: u64,
}

impl Done {
    /// Returns the amount of work done when completion was observed.
    pub fn work(&self) -> (r: u64)
        ensures
            r == self.work,
    {
        self.work
    }
}

/// The notification a completed record produces.
pub open spec fn note_for(tag: u64, subject: Option<u64>, v: ProgressView) -> Done {
    Done { tag, subject, work: v.done }
}

/// The notifications one check of a keyed store emits: one targeted
/// notification per complete record, in store order, and none for records
/// that are not complete.
pub open spec fn check_notes(s: Seq<(u64, ProgressView)>, tag: u64) -> Seq<Done>
    decreases s.len(),
{
    if s.len() == 0 {
        Seq::empty()
    } else {
        let rest = check_notes(s.drop_last(), tag);
        if is_complete_view(s.last().1) {
            rest.push(note_for(tag, Some(s.last().0), s.last().1))
        } else {
            rest
        }
    }
}

/// The records that survive one check: all of them when completion does not
/// dispose, otherwise exactly the records that were not complete.
pub open spec fn check_survivors(s: Seq<(u64, ProgressView)>, dispose: bool) -> Seq<
    (u64, ProgressView),
>
    decreases s.len(),
{
    if s.len() == 0 {
        Seq::empty()
    } else {
        let rest = check_survivors(s.drop_last(), dispose);
        if dispose && is_complete_view(s.last().1) {
            rest
        } else {
            rest.push(s.last())
        }
    }
}

/// What a reset leaves: every record kept, both counters zeroed.
pub open spec fn reset_all(s: Seq<(u64, ProgressView)>) -> Seq<(u64, ProgressView)> {
    s.map(|i: int, e: (u64, ProgressView)| (e.0, ProgressView { done: 0, total: 0 }))
}

/// A subject's record after one check, given its record before it.
pub open spec fn survivor_get(s: Seq<(u64, ProgressView)>, dispose: bool, k: u64) -> Option<
    ProgressView,
> {
    match seq_get(s, k) {
        Some(v) => if dispose && is_complete_view(v) {
            None
        } else {
            Some(v)
        },
        None => None,
    }
}

/// A notification is justified by the store it came from: it carries the
/// check's tag, its subject holds a complete record in the store, and its
/// payload is that record's done-count.
pub open spec fn note_justified(s: Seq<(u64, ProgressView)>, tag: u64, n: Done) -> bool {
    &&& n.tag == tag
    &&& match n.subject {
        Some(k) => match seq_get(s, k) {
            Some(v) => is_complete_view(v) && n.work == v.done,
            None => false,
        },
        None => false,
    }
}

/// One check disposes exactly the complete records and no others: the store
/// it leaves behind has unique subjects, a complete record's subject is gone
/// when disposal is configured, and every other subject keeps its record
/// unchanged.
pub proof fn lemma_survivors_get(s: Seq<(u64, ProgressView)>, dispose: bool)
    requires
        unique_subjects(s),
    ensures
        unique_subjects(check_survivors(s, dispose)),
        forall|k: u64|
            #[trigger] seq_get(check_survivors(s, dispose), k) == survivor_get(s, dispose, k),
    decreases s.len(),
{
    if s.len() > 0 {
        let d = s.drop_last();
        let last = s.last();
        lemma_unique_drop_last(s);
        lemma_survivors_get(d, dispose);
        assert(s.last() == s[s.len() - 1]);
        assert forall|i: int| 0 <= i < d.len() implies d[i].0 != last.0 by {
            assert(d[i] == s[i]);
        }
        lemma_seq_get_absent(d, last.0);
        if dispose && is_complete_view(last.1) {
        } else {
            lemma_unique_push(check_survivors(d, dispose), last);
            assert forall|k: u64|
                #[trigger] seq_get(check_survivors(s, dispose), k) == survivor_get(
                    s,
                    dispose,
                    k,
                ) by {
                lemma_seq_get_push(check_survivors(d, dispose), last, k);
            }
        }
    }
}

/// Every record survives a reset, zeroed; no record appears or disappears.
pub proof fn lemma_reset_all_get(s: Seq<(u64, ProgressView)>, k: u64)
    ensures
        seq_get(reset_all(s), k) == (match seq_get(s, k) {
            Some(v) => Some(ProgressView { done: 0, total: 0 }),
            None => None::<ProgressView>,
        }),
    decreases s.len(),
{
    if s.len() > 0 {
        assert(reset_all(s).drop_last() =~= reset_all(s.drop_last()));
        assert(reset_all(s).last() == (s.last().0, ProgressView { done: 0, total: 0 }));
        lemma_reset_all_get(s.drop_last(), k);
    }
}

/// A reset keeps subjects unique: it changes no subject.
pub proof fn lemma_reset_all_unique(s: Seq<(u64, ProgressView)>)
    requires
        unique_subjects(s),
    ensures
        unique_subjects(reset_all(s)),
{
    assert forall|i: int, j: int| 0 <= i < j < reset_all(s).len() implies reset_all(s)[i].0
        != reset_all(s)[j].0 by {
        assert(reset_all(s)[i].0 == s[i].0);
        assert(reset_all(s)[j].0 == s[j].0);
    }
}

/// A check fires for every complete record: the subject's targeted
/// notification, carrying its done-count, is among the emitted ones.
pub proof fn lemma_check_fires_for_complete(
    s: Seq<(u64, ProgressView)>,
    tag: u64,
    k: u64,
    v: ProgressView,
)
    requires
        unique_subjects(s),
        seq_get(s, k) == Some(v),
        is_complete_view(v),
    ensures
        exists|i: int|
            0 <= i < check_notes(s, tag).len() && check_notes(s, tag)[i] == note_for(
                tag,
                Some(k),
                v,
            ),
    decreases s.len(),
{
    let notes = check_notes(s, tag);
    let d = s.drop_last();
    if s.last().0 == k {
        assert(notes.last() == note_for(tag, Some(k), v));
        assert(notes[notes.len() - 1] == note_for(tag, Some(k), v));
    } else {
        lemma_unique_drop_last(s);
        lemma_check_fires_for_complete(d, tag, k, v);
        let i0 = choose|i: int|
            0 <= i < check_notes(d, tag).len() && check_notes(d, tag)[i] == note_for(
                tag,
                Some(k),
                v,
            );
        assert(notes[i0] == note_for(tag, Some(k), v));
    }
}

/// A check is silent for a subject that holds no record.
pub proof fn lemma_check_no_note_for_absent(s: Seq<(u64, ProgressView)>, tag: u64, k: u64)
    requires
        seq_get(s, k) is None,
    ensures
        forall|i: int|
            0 <= i < check_notes(s, tag).len() ==> (#[trigger] check_notes(s, tag)[i]).subject
                != Some(k),
    decreases s.len(),
{
    if s.len() > 0 {
        let d = s.drop_last();
        lemma_check_no_note_for_absent(d, tag, k);
        assert forall|i: int| 0 <= i < check_notes(s, tag).len() implies (#[trigger] check_notes(
            s,
            tag,
        )[i]).subject != Some(k) by {
            if i < check_notes(d, tag).len() {
                assert(check_notes(s, tag)[i] == check_notes(d, tag)[i]);
            }
        }
    }
}

/// Every emitted notification is justified: it names a subject whose record
/// is complete in the checked store and reports that record's done-count.
/// In particular no notification fires for a record that is not complete.
pub proof fn lemma_check_notes_sound(s: Seq<(u64, ProgressView)>, tag: u64)
    requires
        unique_subjects(s),
    ensures
        forall|i: int|
            0 <= i < check_notes(s, tag).len() ==> note_justified(
                s,
                tag,
                #[trigger] check_notes(s, tag)[i],
            ),
    decreases s.len(),
{
    if s.len() > 0 {
        let d = s.drop_last();
        let last = s.last();
        lemma_unique_drop_last(s);
        lemma_check_notes_sound(d, tag);
        assert(s.last() == s[s.len() - 1]);
        assert forall|i: int| 0 <= i < d.len() implies d[i].0 != last.0 by {
            assert(d[i] == s[i]);
        }
        lemma_seq_get_absent(d, last.0);
        assert forall|i: int| 0 <= i < check_notes(s, tag).len() implies note_justified(
            s,
            tag,
            #[trigger] check_notes(s, tag)[i],
        ) by {
            if i < check_notes(d, tag).len() {
                assert(check_notes(s, tag)[i] == check_notes(d, tag)[i]);
                let n = check_notes(d, tag)[i];
                match n.subject {
                    Some(nk) => {
                        assert(nk != last.0);
                    },
                    None => {},
                }
            } else {
                assert(is_complete_view(last.1));
                assert(check_notes(s, tag)[i] == note_for(tag, Some(last.0), last.1));
            }
        }
    }
}

/// A check fires at most once per subject: no two emitted notifications
/// target the same subject.
pub proof fn lemma_check_notes_subjects_unique(s: Seq<(u64, ProgressView)>, tag: u64)
    requires
        unique_subjects(s),
    ensures
        forall|i: int, j: int|
            0 <= i < j < check_notes(s, tag).len() ==> (#[trigger] check_notes(s, tag)[i]).subject
                != (#[trigger] check_notes(s, tag)[j]).subject,
    decreases s.len(),
{
    if s.len() > 0 {
        let d = s.drop_last();
        let last = s.last();
        lemma_unique_drop_last(s);
        lemma_check_notes_subjects_unique(d, tag);
        assert(s.last() == s[s.len() - 1]);
        assert forall|i: int| 0 <= i < d.len() implies d[i].0 != last.0 by {
            assert(d[i] == s[i]);
        }
        lemma_seq_get_absent(d, last.0);
        lemma_check_no_note_for_absent(d, tag, last.0);
        assert forall|i: int, j: int|
            0 <= i < j < check_notes(s, tag).len() implies (#[trigger] check_notes(
            s,
            tag,
        )[i]).subject != (#[trigger] check_notes(s, tag)[j]).subject by {
            if j < check_notes(d, tag).len() {
                assert(check_notes(s, tag)[i] == check_notes(d, tag)[i]);
                assert(check_notes(s, tag)[j] == check_notes(d, tag)[j]);
            } else {
                assert(check_notes(s, tag)[i] == check_notes(d, tag)[i]);
                assert(check_notes(s, tag)[j] == note_for(tag, Some(last.0), last.1));
            }
        }
    }
}

/// No double fire: once a complete record's notification has fired with
/// disposal configured, the subject's record is gone from the surviving
/// store, a snapshot of it finds nothing, and no later check — before or
/// after any reset — emits another notification for that subject.
pub proof fn lemma_no_double_fire(s: Seq<(u64, ProgressView)>, tag: u64, k: u64, v: ProgressView)
    requires
        unique_subjects(s),
        seq_get(s, k) == Some(v),
        is_complete_view(v),
    ensures
        seq_get(check_survivors(s, true), k) is None,
        forall|i: int|
            0 <= i < check_notes(check_survivors(s, true), tag).len() ==> (
            #[trigger] check_notes(check_survivors(s, true), tag)[i]).subject != Some(k),
        forall|i: int|
            0 <= i < check_notes(reset_all(check_survivors(s, true)), tag).len() ==> (
            #[trigger] check_notes(reset_all(check_survivors(s, true)), tag)[i]).subject != Some(
                k,
            ),
{
    lemma_survivors_get(s, true);
    lemma_check_no_note_for_absent(check_survivors(s, true), tag, k);
    lemma_reset_all_get(check_survivors(s, true), k);
    lemma_check_no_note_for_absent(reset_all(check_survivors(s, true)), tag, k);
}

} // verus!
