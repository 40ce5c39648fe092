//! Stores that own progress records: a singleton store holding at most one
//! record (process-wide progress under one tag), and a keyed store holding
//! one record per subject identifier (per-entity progress).
//!
//! Producers and the check step reach records only through these stores;
//! the stores own every record they hold.

use vstd::prelude::*;

use crate::phase::{
    Done,
    check_notes,
    check_survivors,
    note_for,
    reset_all,
    lemma_survivors_get,
    lemma_reset_all_unique,
};
use crate::record::{Progress, ProgressView, UpdateMode, apply_update_spec, is_complete_view};

verus! {

/// The value of a keyed store: the subject/record pairs in insertion order.
pub open spec fn entries_view(es: Seq<(u64, Progress)>) -> Seq<(u64, ProgressView)> {
    es.map(|i: int, e: (u64, Progress)| (e.0, e.1@))
}

/// No subject appears twice among the entries.
pub open spec fn unique_subjects(s: Seq<(u64, ProgressView)>) -> bool {
    forall|i: int, j: int| 0 <= i < j < s.len() ==> s[i].0 != s[j].0
}

/// The record stored for a subject, if any.
pub open spec fn seq_get(s: Seq<(u64, ProgressView)>, subject: u64) -> Option<ProgressView>
    decreases s.len(),
{
    if s.len() == 0 {
        None
    } else if s.last().0 == subject {
        Some(s.last().1)
    } else {
        seq_get(s.drop_last(), subject)
    }
}

/// Dropping the last entry keeps subjects unique.
pub proof fn lemma_unique_drop_last(s: Seq<(u64, ProgressView)>)
    requires
        unique_subjects(s),
        s.len() > 0,
    ensures
        unique_subjects(s.drop_last()),
{
    assert forall|i: int, j: int| 0 <= i < j < s.drop_last().len() implies s.drop_last()[i].0
        != s.drop_last()[j].0 by {
        assert(s.drop_last()[i] == s[i]);
        assert(s.drop_last()[j] == s[j]);
    }
}

/// With unique subjects, `seq_get` returns the record at a subject's index.
pub proof fn lemma_seq_get_present(s: Seq<(u64, ProgressView)>, subject: u64, i: int)
    requires
        unique_subjects(s),
        0 <= i < s.len(),
        s[i].0 == subject,
    ensures
        seq_get(s, subject) == Some(s[i].1),
    decreases s.len(),
{
    if i + 1 == s.len() {
        assert(s.last() == s[i]);
    } else {
        assert(s.last() == s[s.len() - 1]);
        assert(s.last().0 != subject);
        lemma_unique_drop_last(s);
        assert(s.drop_last()[i] == s[i]);
        lemma_seq_get_present(s.drop_last(), subject, i);
    }
}

/// A subject at no index is not found.
pub proof fn lemma_seq_get_absent(s: Seq<(u64, ProgressView)>, subject: u64)
    requires
        forall|i: int| 0 <= i < s.len() ==> s[i].0 != subject,
    ensures
        seq_get(s, subject) is None,
    decreases s.len(),
{
    if s.len() > 0 {
        assert(s.last() == s[s.len() - 1]);
        assert forall|i: int| 0 <= i < s.drop_last().len() implies s.drop_last()[i].0 != subject by {
            assert(s.drop_last()[i] == s[i]);
        }
        lemma_seq_get_absent(s.drop_last(), subject);
    }
}

/// A subject that is not found is at no index.
pub proof fn lemma_seq_get_none(s: Seq<(u64, ProgressView)>, subject: u64)
    requires
        seq_get(s, subject) is None,
    ensures
        forall|i: int| 0 <= i < s.len() ==> s[i].0 != subject,
    decreases s.len(),
{
    if s.len() > 0 {
        lemma_seq_get_none(s.drop_last(), subject);
        assert forall|i: int| 0 <= i < s.len() implies s[i].0 != subject by {
            if i + 1 == s.len() {
                assert(s[i] == s.last());
            } else {
                assert(s.drop_last()[i] == s[i]);
            }
        }
    }
}

/// Appending a new entry: lookups find it for its subject and are otherwise
/// unchanged.
pub proof fn lemma_seq_get_push(s: Seq<(u64, ProgressView)>, e: (u64, ProgressView), k: u64)
    ensures
        seq_get(s.push(e), k) == (if k == e.0 {
            Some(e.1)
        } else {
            seq_get(s, k)
        }),
{
    assert(s.push(e).drop_last() =~= s);
    assert(s.push(e).last() == e);
}

/// Appending an entry for a fresh subject keeps subjects unique.
pub proof fn lemma_unique_push(s: Seq<(u64, ProgressView)>, e: (u64, ProgressView))
    requires
        unique_subjects(s),
        seq_get(s, e.0) is None,
    ensures
        unique_subjects(s.push(e)),
{
    lemma_seq_get_none(s, e.0);
    assert forall|i: int, j: int| 0 <= i < j < s.push(e).len() implies s.push(e)[i].0
        != s.push(e)[j].0 by {
        if j + 1 == s.push(e).len() {
            assert(s.push(e)[i] == s[i]);
            assert(s.push(e)[j] == e);
        } else {
            assert(s.push(e)[i] == s[i]);
            assert(s.push(e)[j] == s[j]);
        }
    }
}

/// Replacing an entry in place, keeping its subject, keeps subjects unique.
pub proof fn lemma_unique_update(s: Seq<(u64, ProgressView)>, i: int, e: (u64, ProgressView))
    requires
        unique_subjects(s),
        0 <= i < s.len(),
        e.0 == s[i].0,
    ensures
        unique_subjects(s.update(i, e)),
{
    assert forall|a: int, b: int| 0 <= a < b < s.update(i, e).len() implies s.update(i, e)[a].0
        != s.update(i, e)[b].0 by {
        assert(s.update(i, e)[a].0 == s[a].0);
        assert(s.update(i, e)[b].0 == s[b].0);
    }
}

/// Replacing an entry in place, keeping its subject: lookups see the new
/// record for that subject and are otherwise unchanged.
pub proof fn lemma_seq_get_update(s: Seq<(u64, ProgressView)>, i: int, e: (u64, ProgressView), k: u64)
    requires
        unique_subjects(s),
        0 <= i < s.len(),
        e.0 == s[i].0,
    ensures
        seq_get(s.update(i, e), k) == (if k == e.0 {
            Some(e.1)
        } else {
            seq_get(s, k)
        }),
    decreases s.len(),
{
    let t = s.update(i, e);
    if i + 1 == s.len() {
        assert(t.last() == e);
        assert(t.drop_last() =~= s.drop_last());
        assert(s.last() == s[i]);
    } else {
        assert(t.last() == s.last());
        assert(s.last() == s[s.len() - 1]);
        assert(s.last().0 != e.0);
        assert(t.drop_last() =~= s.drop_last().update(i, e));
        lemma_unique_drop_last(s);
        assert(s.drop_last()[i] == s[i]);
        lemma_seq_get_update(s.drop_last(), i, e, k);
    }
}

/// Removing the entry at an index keeps subjects unique.
pub proof fn lemma_unique_remove(s: Seq<(u64, ProgressView)>, i: int)
    requires
        unique_subjects(s),
        0 <= i < s.len(),
    ensures
        unique_subjects(s.remove(i)),
{
    assert forall|a: int, b: int| 0 <= a < b < s.remove(i).len() implies s.remove(i)[a].0
        != s.remove(i)[b].0 by {
        if a < i {
            assert(s.remove(i)[a] == s[a]);
        } else {
            assert(s.remove(i)[a] == s[a + 1]);
        }
        if b < i {
            assert(s.remove(i)[b] == s[b]);
        } else {
            assert(s.remove(i)[b] == s[b + 1]);
        }
    }
}

/// Removing the entry at an index: its subject is no longer found, others
/// are unchanged.
pub proof fn lemma_seq_get_remove(s: Seq<(u64, ProgressView)>, i: int, k: u64)
    requires
        unique_subjects(s),
        0 <= i < s.len(),
    ensures
        seq_get(s.remove(i), k) == (if k == s[i].0 {
            None::<ProgressView>
        } else {
            seq_get(s, k)
        }),
    decreases s.len(),
{
    let t = s.remove(i);
    if i + 1 == s.len() {
        assert(t =~= s.drop_last());
        assert(s.last() == s[i]);
        if k == s[i].0 {
            assert forall|a: int| 0 <= a < t.len() implies t[a].0 != k by {
                assert(t[a] == s[a]);
            }
            lemma_seq_get_absent(t, k);
        }
    } else {
        assert(t.len() == s.len() - 1);
        assert(t.last() == s[s.len() - 2 + 1]);
        assert(t.last() == s.last());
        assert(t.drop_last() =~= s.drop_last().remove(i));
        lemma_unique_drop_last(s);
        assert(s.drop_last()[i] == s[i]);
        lemma_seq_get_remove(s.drop_last(), i, k);
        assert(s.last() == s[s.len() - 1]);
        assert(s.last().0 != s[i].0);
    }
}

/// A store holding at most one progress record: process-wide progress for
/// one tag. Absence of the record is the legitimate "not currently
/// tracking" state.
pub struct SingletonStore {
    record: Option<Progress>,
}

impl View for SingletonStore {
    type V = Option<ProgressView>;

    closed spec fn view(&self) -> Option<ProgressView> {
        match self.record {
            Some(p) => Some(p@),
            None => None,
        }
    }
}

impl SingletonStore {
    /// Creates a store that tracks nothing yet.
    pub fn new() -> (r: Self)
        ensures
            r@ is None,
    {
        SingletonStore { record: None }
    }

    /// Installs a record, replacing any present one.
    pub fn install(&mut self, p: Progress)
        ensures
            final(self)@ == Some(p@),
    {
        self.record = Some(p);
    }

    /// Removes the record, if present.
    pub fn remove(&mut self) -> (had: bool)
        ensures
            final(self)@ is None,
            had == (old(self)@ is Some),
    {
        let had = self.record.is_some();
        self.record = None;
        had
    }

    /// Whether a record is currently present.
    pub fn is_tracking(&self) -> (r: bool)
        ensures
            r == (self@ is Some),
    {
        self.record.is_some()
    }

    /// The record's counters, or `None` when nothing is tracked.
    pub fn snapshot(&self) -> (r: Option<(u64, u64)>)
        ensures
            self@ matches Some(v) ==> r == Some((v.done, v.total)),
            self@ is None ==> r is None,
    {
        match &self.record {
            Some(p) => Some(p.work()),
            None => None,
        }
    }

    /// The check step: observes the record, and when it is complete emits
    /// exactly one broadcast notification carrying the reported done-count
    /// and applies the disposal policy. A missing record is a no-op, not an
    /// error. No notification is emitted for a record that is not complete.
    pub fn check(&mut self, tag: u64, dispose: bool) -> (note: Option<Done>)
        ensures
            old(self)@ matches Some(v) ==> note == (if is_complete_view(v) {
                Some(note_for(tag, None::<u64>, v))
            } else {
                None::<Done>
            }),
            old(self)@ is None ==> note is None && final(self)@ is None,
            old(self)@ matches Some(v) ==> final(self)@ == (if dispose && is_complete_view(v) {
                None::<ProgressView>
            } else {
                old(self)@
            }),
    {
        match self.record {
            Some(p) => {
                if p.is_complete() {
                    if dispose {
                        self.record = None;
                    }
                    let (d, _t) = p.work();
                    Some(Done { tag, subject: None, work: d })
                } else {
                    None
                }
            },
            None => None,
        }
    }

    /// The reset step: zeroes the record's counters so the next tick starts
    /// from nothing. A missing record is a no-op.
    pub fn reset(&mut self)
        ensures
            old(self)@ matches Some(v) ==> final(self)@ == Some(
                ProgressView { done: 0, total: 0 },
            ),
            old(self)@ is None ==> final(self)@ is None,
    {
        match &mut self.record {
            Some(p) => p.reset(),
            None => {},
        }
    }

    /// One whole tick's check-then-reset protocol: the check observes the
    /// record as the tick's producers left it and emits its notification
    /// before the reset zeroes anything, so a record that became complete
    /// during the tick is never lost to the reset. The reset runs only in
    /// tick-scoped (overwrite) configurations.
    pub fn tick(&mut self, tag: u64, mode: UpdateMode, dispose: bool) -> (note: Option<Done>)
        ensures
            old(self)@ matches Some(v) ==> note == (if is_complete_view(v) {
                Some(note_for(tag, None::<u64>, v))
            } else {
                None::<Done>
            }),
            old(self)@ is None ==> note is None && final(self)@ is None,
            old(self)@ matches Some(v) ==> final(self)@ == (if dispose && is_complete_view(v) {
                None::<ProgressView>
            } else if mode == UpdateMode::Overwrite {
                Some(ProgressView { done: 0, total: 0 })
            } else {
                Some(v)
            }),
    {
        let note = self.check(tag, dispose);
        if mode == UpdateMode::Overwrite {
            self.reset();
        }
        note
    }

    /// Applies a producer's report to the record, per the configured mode.
    /// When no record is present the report is not applied and the store is
    /// unchanged; the result says whether it was applied.
    pub fn track(&mut self, done: u32, total: u32, mode: UpdateMode) -> (applied: bool)
        requires
            mode == UpdateMode::Accumulate ==> (old(self)@ matches Some(v) ==> v.done + done
                <= u64::MAX && v.total + total <= u64::MAX),
        ensures
            applied == (old(self)@ is Some),
            old(self)@ matches Some(v) ==> final(self)@ == Some(
                apply_update_spec(v, done, total, mode),
            ),
            old(self)@ is None ==> final(self)@ is None,
    {
        match &mut self.record {
            Some(p) => {
                p.apply(done, total, mode);
                true
            },
            None => false,
        }
    }
}

/// A store holding one progress record per subject identifier, all under
/// one tag. Subjects are unique; lookups go by subject.
pub struct KeyedStore {
    entries: Vec<(u64, Progress)>,
}

impl View for KeyedStore {
    type V = Seq<(u64, ProgressView)>;

    closed spec fn view(&self) -> Seq<(u64, ProgressView)> {
        entries_view(self.entries@)
    }
}

impl KeyedStore {
    /// Every store the public operations build keeps subjects unique.
    pub open spec fn wf(&self) -> bool {
        unique_subjects(self@)
    }

    /// Creates an empty store.
    pub fn new() -> (r: Self)
        ensures
            r@ == Seq::<(u64, ProgressView)>::empty(),
            r.wf(),
    {
        let s = KeyedStore { entries: Vec::new() };
        proof {
            assert(s@ =~= Seq::<(u64, ProgressView)>::empty());
        }
        s
    }

    /// Finds the index of a subject's entry.
    fn find(&self, subject: u64) -> (r: Option<usize>)
        requires
            self.wf(),
        ensures
            r matches Some(i) ==> i < self@.len() && self@[i as int].0 == subject && seq_get(
                self@,
                subject,
            ) == Some(self@[i as int].1),
            r is None ==> seq_get(self@, subject) is None,
    {
        let n = self.entries.len();
        let mut i: usize = 0;
        while i < n
            invariant
                self.wf(),
                n == self@.len(),
                i <= n,
                forall|j: int| 0 <= j < i ==> self@[j].0 != subject,
            decreases n - i,
        {
            if self.entries[i].0 == subject {
                proof {
                    lemma_seq_get_present(self@, subject, i as int);
                }
                return Some(i);
            }
            i = i + 1;
        }
        proof {
            lemma_seq_get_absent(self@, subject);
        }
        None
    }

    /// The number of subjects currently tracked.
    pub fn len(&self) -> (r: usize)
        ensures
            r == self@.len(),
    {
        self.entries.len()
    }

    /// Whether any subject is currently tracked under this store's tag.
    pub fn is_tracking(&self) -> (r: bool)
        ensures
            r == (self@.len() > 0),
    {
        self.entries.len() > 0
    }

    /// Whether a record for this subject is present.
    pub fn contains(&self, subject: u64) -> (r: bool)
        requires
            self.wf(),
        ensures
            r == (seq_get(self@, subject) is Some),
    {
        self.find(subject).is_some()
    }

    /// The counters of a subject's record, or `None` when that subject is
    /// not tracked.
    pub fn snapshot(&self, subject: u64) -> (r: Option<(u64, u64)>)
        requires
            self.wf(),
        ensures
            seq_get(self@, subject) matches Some(v) ==> r == Some((v.done, v.total)),
            seq_get(self@, subject) is None ==> r is None,
    {
        match self.find(subject) {
            Some(i) => {
                let p = self.entries[i].1;
                Some(p.work())
            },
            None => None,
        }
    }

    /// Installs a record for a subject, replacing any record it already
    /// had; other subjects are untouched.
    pub fn insert(&mut self, subject: u64, p: Progress) -> (replaced: bool)
        requires
            old(self).wf(),
        ensures
            final(self).wf(),
            seq_get(final(self)@, subject) == Some(p@),
            forall|k: u64| k != subject ==> seq_get(final(self)@, k) == seq_get(old(self)@, k),
            replaced == (seq_get(old(self)@, subject) is Some),
            final(self)@.len() == old(self)@.len() + (if replaced {
                0int
            } else {
                1int
            }),
    {
        match self.find(subject) {
            Some(i) => {
                self.entries[i] = (subject, p);
                proof {
                    let e = (subject, p@);
                    assert(self@ =~= old(self)@.update(i as int, e));
                    lemma_unique_update(old(self)@, i as int, e);
                    assert forall|k: u64| true implies seq_get(
                        old(self)@.update(i as int, e),
                        k,
                    ) == (if k == subject {
                        Some(p@)
                    } else {
                        seq_get(old(self)@, k)
                    }) by {
                        lemma_seq_get_update(old(self)@, i as int, e, k);
                    }
                }
                true
            },
            None => {
                self.entries.push((subject, p));
                proof {
                    let e = (subject, p@);
                    assert(self@ =~= old(self)@.push(e));
                    lemma_unique_push(old(self)@, e);
                    assert forall|k: u64| true implies seq_get(old(self)@.push(e), k) == (if k
                        == subject {
                        Some(p@)
                    } else {
                        seq_get(old(self)@, k)
                    }) by {
                        lemma_seq_get_push(old(self)@, e, k);
                    }
                }
                false
            },
        }
    }

    /// Removes a subject's record, if present; other subjects are
    /// untouched.
    pub fn remove(&mut self, subject: u64) -> (removed: bool)
        requires
            old(self).wf(),
        ensures
            final(self).wf(),
            seq_get(final(self)@, subject) is None,
            forall|k: u64| k != subject ==> seq_get(final(self)@, k) == seq_get(old(self)@, k),
            removed == (seq_get(old(self)@, subject) is Some),
            !removed ==> final(self)@ == old(self)@,
            removed ==> final(self)@.len() == old(self)@.len() - 1,
    {
        match self.find(subject) {
            Some(i) => {
                self.entries.remove(i);
                proof {
                    assert(self@ =~= old(self)@.remove(i as int));
                    lemma_unique_remove(old(self)@, i as int);
                    assert forall|k: u64| true implies seq_get(
                        old(self)@.remove(i as int),
                        k,
                    ) == (if k == subject {
                        None::<ProgressView>
                    } else {
                        seq_get(old(self)@, k)
                    }) by {
                        lemma_seq_get_remove(old(self)@, i as int, k);
                    }
                }
                true
            },
            None => false,
        }
    }

    /// Applies a producer's report to a subject's record, per the
    /// configured mode. When the subject is not tracked the report is not
    /// applied and the store is unchanged; the result says whether it was
    /// applied.
    pub fn track(&mut self, subject: u64, done: u32, total: u32, mode: UpdateMode) -> (applied:
        bool)
        requires
            old(self).wf(),
            mode == UpdateMode::Accumulate ==> (seq_get(old(self)@, subject) matches Some(v)
                ==> v.done + done <= u64::MAX && v.total + total <= u64::MAX),
        ensures
            final(self).wf(),
            applied == (seq_get(old(self)@, subject) is Some),
            seq_get(old(self)@, subject) matches Some(v) ==> seq_get(final(self)@, subject)
                == Some(apply_update_spec(v, done, total, mode)),
            !applied ==> final(self)@ == old(self)@,
            forall|k: u64| k != subject ==> seq_get(final(self)@, k) == seq_get(old(self)@, k),
            final(self)@.len() == old(self)@.len(),
    {
        match self.find(subject) {
            Some(i) => {
                let mut p = self.entries[i].1;
                p.apply(done, total, mode);
                self.entries[i] = (subject, p);
                proof {
                    let e = (subject, p@);
                    assert(self@ =~= old(self)@.update(i as int, e));
                    lemma_unique_update(old(self)@, i as int, e);
                    assert forall|k: u64| true implies seq_get(
                        old(self)@.update(i as int, e),
                        k,
                    ) == (if k == subject {
                        Some(p@)
                    } else {
                        seq_get(old(self)@, k)
                    }) by {
                        lemma_seq_get_update(old(self)@, i as int, e, k);
                    }
                }
                true
            },
            None => false,
        }
    }

    /// The check step: walks every record, and for each complete one emits
    /// exactly one notification targeted at its subject, carrying that
    /// record's reported done-count; completed records are removed when
    /// disposal is configured. Records that are not complete emit nothing
    /// and always survive. An empty store is a no-op.
    pub fn check(&mut self, tag: u64, dispose: bool) -> (notes: Vec<Done>)
        requires
            old(self).wf(),
        ensures
            final(self).wf(),
            notes@ == check_notes(old(self)@, tag),
            final(self)@ == check_survivors(old(self)@, dispose),
    {
        let mut notes: Vec<Done> = Vec::new();
        let mut kept: Vec<(u64, Progress)> = Vec::new();
        let n = self.entries.len();
        let mut i: usize = 0;
        while i < n
            invariant
                self == old(self),
                self.wf(),
                n == self@.len(),
                n == self.entries@.len(),
                i <= n,
                notes@ == check_notes(self@.subrange(0, i as int), tag),
                entries_view(kept@) == check_survivors(self@.subrange(0, i as int), dispose),
            decreases n - i,
        {
            let (k, p) = self.entries[i];
            proof {
                assert(self@.subrange(0, i as int + 1).drop_last() =~= self@.subrange(
                    0,
                    i as int,
                ));
                assert(self@.subrange(0, i as int + 1).last() == self@[i as int]);
                assert(self@[i as int] == (k, p@));
            }
            if p.is_complete() {
                let (d, _t) = p.work();
                notes.push(Done { tag, subject: Some(k), work: d });
                if !dispose {
                    kept.push((k, p));
                }
            } else {
                kept.push((k, p));
            }
            proof {
                assert(notes@ =~= check_notes(self@.subrange(0, i as int + 1), tag));
                assert(entries_view(kept@) =~= check_survivors(
                    self@.subrange(0, i as int + 1),
                    dispose,
                ));
            }
            i = i + 1;
        }
        proof {
            assert(self@.subrange(0, n as int) =~= self@);
            lemma_survivors_get(self@, dispose);
        }
        self.entries = kept;
        notes
    }

    /// The reset step: zeroes both counters of every record still present,
    /// so the next tick starts from nothing. No record appears or
    /// disappears. Records disposed by this tick's check are already absent
    /// and untouched.
    pub fn reset(&mut self)
        requires
            old(self).wf(),
        ensures
            final(self).wf(),
            final(self)@ == reset_all(old(self)@),
    {
        let mut fresh: Vec<(u64, Progress)> = Vec::new();
        let n = self.entries.len();
        let mut i: usize = 0;
        while i < n
            invariant
                self == old(self),
                self.wf(),
                n == self@.len(),
                n == self.entries@.len(),
                i <= n,
                entries_view(fresh@) == reset_all(self@.subrange(0, i as int)),
            decreases n - i,
        {
            let (k, _p) = self.entries[i];
            let zeroed = Progress::new();
            let ghost fresh0 = fresh@;
            proof {
                assert(self@[i as int] == (k, _p@));
            }
            fresh.push((k, zeroed));
            proof {
                let target = reset_all(self@.subrange(0, i as int + 1));
                assert(entries_view(fresh0).len() == i as int);
                assert forall|j: int| 0 <= j < fresh@.len() implies entries_view(fresh@)[j]
                    == target[j] by {
                    assert(entries_view(fresh@)[j] == (fresh@[j].0, fresh@[j].1@));
                    assert(self@.subrange(0, i as int + 1)[j] == self@[j]);
                    assert(target[j] == (self@[j].0, ProgressView { done: 0, total: 0 }));
                    if j < fresh0.len() {
                        assert(fresh@[j] == fresh0[j]);
                        assert(entries_view(fresh0)[j] == (fresh0[j].0, fresh0[j].1@));
                        assert(entries_view(fresh0)[j] == reset_all(
                            self@.subrange(0, i as int),
                        )[j]);
                        assert(reset_all(self@.subrange(0, i as int))[j] == (
                            self@.subrange(0, i as int)[j].0,
                            ProgressView { done: 0, total: 0 },
                        ));
                        assert(self@.subrange(0, i as int)[j] == self@[j]);
                    } else {
                        assert(fresh@[j] == (k, zeroed));
                        assert(self@[i as int].0 == k);
                    }
                }
                assert(entries_view(fresh@) =~= target);
            }
            i = i + 1;
        }
        proof {
            assert(self@.subrange(0, n as int) =~= self@);
            lemma_reset_all_unique(self@);
        }
        self.entries = fresh;
    }

    /// One whole tick's check-then-reset protocol: the check observes every
    /// record as the tick's producers left it and emits all notifications
    /// before the reset zeroes anything, so a record that became complete
    /// during the tick is never lost to the reset. The reset runs only in
    /// tick-scoped (overwrite) configurations; cumulative stores are never
    /// reset.
    pub fn tick(&mut self, tag: u64, mode: UpdateMode, dispose: bool) -> (notes: Vec<Done>)
        requires
            old(self).wf(),
        ensures
            final(self).wf(),
            notes@ == check_notes(old(self)@, tag),
            mode == UpdateMode::Overwrite ==> final(self)@ == reset_all(
                check_survivors(old(self)@, dispose),
            ),
            mode == UpdateMode::Accumulate ==> final(self)@ == check_survivors(
                old(self)@,
                dispose,
            ),
    {
        let notes = self.check(tag, dispose);
        if mode == UpdateMode::Overwrite {
            self.reset();
        }
        notes
    }
}

} // verus!
