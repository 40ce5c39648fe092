//! The aggregable progress state: a `done` counter and a `total` (required)
//! counter, updated either by overwriting (tick-scoped) or by accumulating
//! (cumulative), and a completion predicate over the pair.

use vstd::prelude::*;

verus! {

/// How `track` combines a report with the stored counters.
///
/// The mode is a configuration choice made when a tracker is registered,
/// not a switch flipped during a record's life.
#[derive(Clone, Copy, PartialEq, Eq, Structural, Debug)]
pub enum UpdateMode {
    /// Each report overwrites the stored pair; a reset step zeroes the
    /// record after every check, so counters describe one tick only.
    Overwrite,
    /// Each report is added to running totals; the record is never reset.
    Accumulate,
}

/// The mathematical value of a [`Progress`] record: the two counters.
#[derive(Clone, Copy, PartialEq, Eq, Structural, Debug)]
pub struct ProgressView {
    /// Work reported as finished.
    pub done: u64,
    /// Work reported as required in total.
    pub total: u64,
}

/// A record is complete exactly when some work is required and at least that
/// much is done. A record with `total == 0` is never complete, so no
/// completion can fire before any work is known.
pub open spec fn is_complete_view(v: ProgressView) -> bool {
    v.total > 0 && v.done >= v.total
}

/// One report applied to a record value, per the configured mode.
/// Overwriting installs the reported pair; accumulating adds it.
pub open spec fn apply_update_spec(v: ProgressView, done: u32, total: u32, mode: UpdateMode) -> ProgressView {
    match mode {
        UpdateMode::Overwrite => ProgressView { done: done as u64, total: total as u64 },
        UpdateMode::Accumulate => ProgressView {
            done: (v.done as int + done as int) as u64,
            total: (v.total as int + total as int) as u64,
        },
    }
}

/// A whole tick's worth of reports applied in order.
pub open spec fn apply_all_spec(v: ProgressView, us: Seq<(u32, u32)>, mode: UpdateMode) -> ProgressView
    decreases us.len(),
{
    if us.len() == 0 {
        v
    } else {
        apply_update_spec(apply_all_spec(v, us.drop_last(), mode), us.last().0, us.last().1, mode)
    }
}

/// Sum of the `done` halves of a sequence of reports.
pub open spec fn sum_done(us: Seq<(u32, u32)>) -> int
    decreases us.len(),
{
    if us.len() == 0 {
        0
    } else {
        sum_done(us.drop_last()) + us.last().0
    }
}

/// Sum of the `total` halves of a sequence of reports.
pub open spec fn sum_total(us: Seq<(u32, u32)>) -> int
    decreases us.len(),
{
    if us.len() == 0 {
        0
    } else {
        sum_total(us.drop_last()) + us.last().1
    }
}

/// Under overwrite semantics a whole tick of reports collapses to the last
/// one: the value a check step observes is the last-applied overwrite,
/// whatever was reported before it.
pub proof fn lemma_overwrite_last_wins(v: ProgressView, us: Seq<(u32, u32)>)
    requires
        us.len() > 0,
    ensures
        apply_all_spec(v, us, UpdateMode::Overwrite)
            == (ProgressView { done: us.last().0 as u64, total: us.last().1 as u64 }),
{
}

/// Under overwrite semantics the outcome of a tick is independent of the
/// number and content of intermediate reports: two report sequences with the
/// same final report leave any two records equal.
pub proof fn lemma_overwrite_history_irrelevant(
    v1: ProgressView,
    v2: ProgressView,
    us1: Seq<(u32, u32)>,
    us2: Seq<(u32, u32)>,
)
    requires
        us1.len() > 0,
        us2.len() > 0,
        us1.last() == us2.last(),
    ensures
        apply_all_spec(v1, us1, UpdateMode::Overwrite) == apply_all_spec(v2, us2, UpdateMode::Overwrite),
{
    lemma_overwrite_last_wins(v1, us1);
    lemma_overwrite_last_wins(v2, us2);
}

/// Under cumulative semantics a tick of reports adds exactly the sums of the
/// reported pairs, as long as the totals stay within the counter width.
pub proof fn lemma_accumulate_sums(v: ProgressView, us: Seq<(u32, u32)>)
    requires
        v.done + sum_done(us) <= u64::MAX,
        v.total + sum_total(us) <= u64::MAX,
    ensures
        apply_all_spec(v, us, UpdateMode::Accumulate).done == v.done + sum_done(us),
        apply_all_spec(v, us, UpdateMode::Accumulate).total == v.total + sum_total(us),
    decreases us.len(),
{
    if us.len() > 0 {
        lemma_accumulate_sums(v, us.drop_last());
    }
}

/// Under cumulative semantics the outcome of a tick depends only on the
/// summed reports, not on how many reports delivered them.
pub proof fn lemma_accumulate_history_irrelevant(
    v: ProgressView,
    us1: Seq<(u32, u32)>,
    us2: Seq<(u32, u32)>,
)
    requires
        sum_done(us1) == sum_done(us2),
        sum_total(us1) == sum_total(us2),
        v.done + sum_done(us1) <= u64::MAX,
        v.total + sum_total(us1) <= u64::MAX,
    ensures
        apply_all_spec(v, us1, UpdateMode::Accumulate) == apply_all_spec(v, us2, UpdateMode::Accumulate),
{
    lemma_accumulate_sums(v, us1);
    lemma_accumulate_sums(v, us2);
}

/// A record that requires no work is never complete, whatever is done.
pub proof fn lemma_zero_total_never_complete(v: ProgressView)
    requires
        v.total == 0,
    ensures
        !is_complete_view(v),
{
}

/// Progress state for one tracked subject.
///
/// Held by a store as singleton state (one subject) or keyed state (one
/// record per subject). Producers mutate it through [`Progress::track`]
/// or [`Progress::overwrite`]; the check step reads it; the reset step
/// zeroes it in tick-scoped configurations. Each update runs under the
/// exclusive access the host scheduler hands out, and the scheduler's phase
/// ordering makes every producer's update of a tick happen before that
/// tick's check step; the record itself adds no synchronisation.
#[derive(Clone, Copy, Debug)]
pub struct Progress {
    done: u64,
    total: u64,
}

impl View for Progress {
    type V = ProgressView;

    closed spec fn view(&self) -> ProgressView {
        ProgressView { done: self.done, total: self.total }
    }
}

impl Progress {
    /// Creates a fresh tracker with no work known: both counters zero,
    /// so the record is not complete.
    pub fn new() -> (r: Self)
        ensures
            r@ == (ProgressView { done: 0, total: 0 }),
    {
        Self { done: 0, total: 0 }
    }

    /// Accumulates a report into the running totals (cumulative semantics).
    pub fn track(&mut self, done: u32, total: u32)
        requires
            old(self)@.done + done <= u64::MAX,
            old(self)@.total + total <= u64::MAX,
        ensures
            final(self)@ == apply_update_spec(old(self)@, done, total, UpdateMode::Accumulate),
            final(self)@.done == old(self)@.done + done,
            final(self)@.total == old(self)@.total + total,
    {
        self.done = self.done + done as u64;
        self.total = self.total + total as u64;
    }

    /// Overwrites the stored pair with the report (tick-scoped semantics):
    /// the last writer within a tick wins.
    pub fn overwrite(&mut self, done: u32, total: u32)
        ensures
            final(self)@ == apply_update_spec(old(self)@, done, total, UpdateMode::Overwrite),
            final(self)@.done == done as u64,
            final(self)@.total == total as u64,
    {
        self.done = done as u64;
        self.total = total as u64;
    }

    /// Applies a report per the configured mode.
    pub fn apply(&mut self, done: u32, total: u32, mode: UpdateMode)
        requires
            mode == UpdateMode::Accumulate ==> old(self)@.done + done <= u64::MAX
                && old(self)@.total + total <= u64::MAX,
        ensures
            final(self)@ == apply_update_spec(old(self)@, done, total, mode),
    {
        match mode {
            UpdateMode::Overwrite => self.overwrite(done, total),
            UpdateMode::Accumulate => self.track(done, total),
        }
    }

    /// Returns the work that has been done and the work that is required,
    /// as last observed.
    pub fn work(&self) -> (r: (u64, u64))
        ensures
            r.0 == self@.done,
            r.1 == self@.total,
    {
        (self.done, self.total)
    }

    /// Whether the record satisfies the completion predicate:
    /// `total > 0 && done >= total`. Overshoot (`done > total`) counts as
    /// exactly complete; a record with `total == 0` is never complete.
    pub fn is_complete(&self) -> (r: bool)
        ensures
            r == is_complete_view(self@),
    {
        if self.total == 0 {
            return false;
        }
        self.done >= self.total
    }

    /// Zeroes both counters, rearming a tick-scoped record for the next tick.
    pub fn reset(&mut self)
        ensures
            final(self)@ == (ProgressView { done: 0, total: 0 }),
    {
        self.done = 0;
        self.total = 0;
    }
}

impl Default for Progress {
    fn default() -> (r: Self)
        ensures
            r@ == (ProgressView { done: 0, total: 0 }),
    {
        Self::new()
    }
}

} // verus!
