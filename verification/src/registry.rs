//! Tracker registration: binding a tag to its scheduling phases and its
//! policies. A registry records, per tag, the opaque phase handles the host
//! scheduler will run the check and reset steps in, together with the update
//! mode, the disposal policy and the misuse policy. Registering a tag twice
//! changes nothing, so phase callbacks are never duplicated and completion
//! notifications never double-dispatch.

use vstd::prelude::*;

use crate::record::{UpdateMode, apply_update_spec};
use crate::store::{KeyedStore, SingletonStore, seq_get};

verus! {

/// Configuration choices fixed when a tag is registered.
#[derive(Clone, Copy, PartialEq, Eq, Structural, Debug)]
pub struct TrackerConfig {
    /// Whether reports overwrite (tick-scoped) or accumulate (cumulative).
    pub mode: UpdateMode,
    /// Whether a completed record is removed right after its notification.
    pub dispose_on_done: bool,
    /// Whether a report for an absent record is a halting misuse rather
    /// than silently ignored.
    pub strict: bool,
}

/// The wiring of one tag: the host scheduler's opaque handles for the
/// phases that run the check and the reset steps, and the tag's policies.
/// The reset step must additionally be ordered to run strictly after the
/// check step of the same tag within a tick, whatever the two phases are;
/// the stores' `tick` operation realises exactly that order.
#[derive(Clone, Copy, PartialEq, Eq, Structural, Debug)]
pub struct Registration {
    /// The tag whose tracker this wiring serves.
    pub tag: u64,
    /// Phase handle under which the check step runs.
    pub check_phase: u64,
    /// Phase handle under which the reset step runs; within a tick it is
    /// ordered after the check step for this tag.
    pub reset_phase: u64,
    /// The tag's fixed policies.
    pub config: TrackerConfig,
}

/// Whether some registration in the sequence carries this tag.
pub open spec fn registered(s: Seq<Registration>, tag: u64) -> bool {
    exists|i: int| 0 <= i < s.len() && s[i].tag == tag
}

/// No tag is registered twice.
pub open spec fn unique_tags(s: Seq<Registration>) -> bool {
    forall|i: int, j: int| 0 <= i < j < s.len() ==> s[i].tag != s[j].tag
}

/// What registering does: nothing when the tag is already wired, otherwise
/// the registration is appended.
pub open spec fn register_spec(s: Seq<Registration>, r: Registration) -> Seq<Registration> {
    if registered(s, r.tag) {
        s
    } else {
        s.push(r)
    }
}

/// Registering is idempotent: installing a tag a second time produces the
/// same wiring as installing it once, so no phase callback is duplicated
/// and no notification can be dispatched twice on account of registration.
pub proof fn lemma_register_idempotent(s: Seq<Registration>, r: Registration)
    ensures
        register_spec(register_spec(s, r), r) == register_spec(s, r),
{
    if !registered(s, r.tag) {
        assert(s.push(r)[s.len() as int] == r);
        assert(registered(s.push(r), r.tag));
    }
}

/// The registered trackers, one registration per tag.
pub struct Registry {
    regs: Vec<Registration>,
}

impl View for Registry {
    type V = Seq<Registration>;

    closed spec fn view(&self) -> Seq<Registration> {
        self.regs@
    }
}

impl Registry {
    /// Every registry the public operations build keeps tags unique.
    pub open spec fn wf(&self) -> bool {
        unique_tags(self@)
    }

    /// Creates a registry with nothing registered.
    pub fn new() -> (r: Self)
        ensures
            r@ == Seq::<Registration>::empty(),
            r.wf(),
    {
        Registry { regs: Vec::new() }
    }

    /// The number of registered tags.
    pub fn len(&self) -> (r: usize)
        ensures
            r == self@.len(),
    {
        self.regs.len()
    }

    /// Finds the index of a tag's registration.
    fn find(&self, tag: u64) -> (r: Option<usize>)
        ensures
            r matches Some(i) ==> i < self@.len() && self@[i as int].tag == tag,
            r is None ==> !registered(self@, tag),
    {
        let n = self.regs.len();
        let mut i: usize = 0;
        while i < n
            invariant
                n == self@.len(),
                i <= n,
                forall|j: int| 0 <= j < i ==> self@[j].tag != tag,
            decreases n - i,
        {
            if self.regs[i].tag == tag {
                return Some(i);
            }
            i = i + 1;
        }
        proof {
            if registered(self@, tag) {
                let w = choose|w: int| 0 <= w < self@.len() && self@[w].tag == tag;
                assert(false);
            }
        }
        None
    }

    /// Whether a tag is wired.
    pub fn is_registered(&self, tag: u64) -> (r: bool)
        ensures
            r == registered(self@, tag),
    {
        match self.find(tag) {
            Some(_) => {
                proof {
                    let i = choose|i: int| 0 <= i < self@.len() && self@[i].tag == tag;
                }
                true
            },
            None => false,
        }
    }

    /// A tag's registration, or `None` when it is not wired.
    pub fn registration_of(&self, tag: u64) -> (r: Option<Registration>)
        ensures
            r matches Some(reg) ==> reg.tag == tag && exists|i: int|
                0 <= i < self@.len() && self@[i] == reg,
            r is None ==> !registered(self@, tag),
    {
        match self.find(tag) {
            Some(i) => {
                let reg = self.regs[i];
                proof {
                    assert(self@[i as int] == reg);
                }
                Some(reg)
            },
            None => None,
        }
    }

    /// Wires a tag: appends the registration when the tag is new and
    /// changes nothing when the tag is already wired, whatever the offered
    /// configuration. The result says whether the registration was added.
    pub fn register(&mut self, r: Registration) -> (added: bool)
        requires
            old(self).wf(),
        ensures
            final(self).wf(),
            final(self)@ == register_spec(old(self)@, r),
            added == !registered(old(self)@, r.tag),
    {
        match self.find(r.tag) {
            Some(_) => {
                proof {
                    assert(registered(self@, r.tag));
                }
                false
            },
            None => {
                proof {
                    if registered(self@, r.tag) {
                        let w = choose|w: int| 0 <= w < self@.len() && self@[w].tag == r.tag;
                        assert(false);
                    }
                }
                self.regs.push(r);
                proof {
                    assert forall|i: int, j: int|
                        0 <= i < j < self@.len() implies self@[i].tag != self@[j].tag by {
                        if j + 1 == self@.len() {
                            assert(self@[i] == old(self)@[i]);
                            assert(self@[j] == r);
                        } else {
                            assert(self@[i] == old(self)@[i]);
                            assert(self@[j] == old(self)@[j]);
                        }
                    }
                }
                true
            },
        }
    }
}

/// Why a producer's report was rejected.
#[derive(Clone, Copy, PartialEq, Eq, Structural, Debug)]
pub enum TrackError {
    /// A report arrived for a tag that holds no record while the
    /// registration demands halting on misuse; carries the offending tag
    /// so the failure identifies it.
    Untracked {
        /// The tag whose tracker held no record for the report.
        tag: u64,
    },
}

/// Applies a producer's report to a singleton store under a registration's
/// policies. A present record is updated per the configured mode. A missing
/// record is silently ignored — the legitimate "not currently tracking"
/// state — unless the registration is strict, in which case the misuse is
/// reported with the offending tag; either way nothing is recorded.
pub fn track_singleton(store: &mut SingletonStore, reg: &Registration, done: u32, total: u32) -> (r:
    Result<bool, TrackError>)
    requires
        reg.config.mode == UpdateMode::Accumulate ==> (old(store)@ matches Some(v) ==> v.done
            + done <= u64::MAX && v.total + total <= u64::MAX),
    ensures
        old(store)@ matches Some(v) ==> r == Ok::<bool, TrackError>(true) && final(store)@
            == Some(apply_update_spec(v, done, total, reg.config.mode)),
        old(store)@ is None ==> final(store)@ is None && r == (if reg.config.strict {
            Err::<bool, TrackError>(TrackError::Untracked { tag: reg.tag })
        } else {
            Ok::<bool, TrackError>(false)
        }),
{
    let applied = store.track(done, total, reg.config.mode);
    if applied {
        Ok(true)
    } else if reg.config.strict {
        Err(TrackError::Untracked { tag: reg.tag })
    } else {
        Ok(false)
    }
}

/// Applies a producer's report to one subject of a keyed store under a
/// registration's policies, as [`track_singleton`] does for the singleton
/// shape: an untracked subject is ignored, or reported as a misuse of the
/// offending tag when the registration is strict.
pub fn track_keyed(
    store: &mut KeyedStore,
    reg: &Registration,
    subject: u64,
    done: u32,
    total: u32,
) -> (r: Result<bool, TrackError>)
    requires
        old(store).wf(),
        reg.config.mode == UpdateMode::Accumulate ==> (seq_get(old(store)@, subject) matches Some(
            v,
        ) ==> v.done + done <= u64::MAX && v.total + total <= u64::MAX),
    ensures
        final(store).wf(),
        seq_get(old(store)@, subject) matches Some(v) ==> r == Ok::<bool, TrackError>(true)
            && seq_get(final(store)@, subject) == Some(
            apply_update_spec(v, done, total, reg.config.mode),
        ),
        forall|k: u64| k != subject ==> seq_get(final(store)@, k) == seq_get(old(store)@, k),
        seq_get(old(store)@, subject) is None ==> final(store)@ == old(store)@ && r == (
        if reg.config.strict {
            Err::<bool, TrackError>(TrackError::Untracked { tag: reg.tag })
        } else {
            Ok::<bool, TrackError>(false)
        }),
{
    let applied = store.track(subject, done, total, reg.config.mode);
    if applied {
        Ok(true)
    } else if reg.config.strict {
        Err(TrackError::Untracked { tag: reg.tag })
    } else {
        Ok(false)
    }
}

} // verus!
