use tick_progress::phase::Done;
use tick_progress::record::{Progress, UpdateMode};
use tick_progress::registry::{
    Registration, Registry, TrackError, TrackerConfig, track_keyed, track_singleton,
};
use tick_progress::store::{KeyedStore, SingletonStore};

const CHECK_PHASE: u64 = 1;
const RESET_PHASE: u64 = 2;

fn registration(tag: u64, mode: UpdateMode, dispose_on_done: bool, strict: bool) -> Registration {
    Registration {
        tag,
        check_phase: CHECK_PHASE,
        reset_phase: RESET_PHASE,
        config: TrackerConfig { mode, dispose_on_done, strict },
    }
}

#[test]
fn record_accumulates_reports() {
    let mut p = Progress::new();
    assert_eq!(p.work(), (0, 0));
    p.track(3, 10);
    p.track(4, 10);
    assert_eq!(p.work(), (7, 20));
    assert!(!p.is_complete());
}

#[test]
fn record_overwrite_last_writer_wins() {
    let mut p = Progress::new();
    p.overwrite(3, 10);
    p.overwrite(7, 10);
    let observed = p.work();
    // The check step observes exactly the last-applied pair, never a mix of
    // `done` from one report and `total` from another.
    assert!(observed == (3, 10) || observed == (7, 10));
    assert_eq!(observed, (7, 10));
    assert!(!p.is_complete());
}

#[test]
fn zero_required_is_never_complete() {
    let mut p = Progress::new();
    assert!(!p.is_complete());
    p.track(5, 0);
    assert_eq!(p.work(), (5, 0));
    assert!(!p.is_complete());
}

#[test]
fn overshoot_counts_as_complete() {
    let mut p = Progress::new();
    p.track(10, 3);
    assert!(p.is_complete());
}

#[test]
fn singleton_tick_scoped_scenario() {
    // One producer reports (5000, 5000); the check fires one notification
    // with done == 5000; the reset zeroes the record; the next tick sees
    // required == 0 and fires nothing.
    let tag = 7;
    let mut store = SingletonStore::new();
    store.install(Progress::new());
    assert!(store.track(5000, 5000, UpdateMode::Overwrite));

    let note = store.tick(tag, UpdateMode::Overwrite, false);
    let note = note.expect("completion must fire");
    assert_eq!(note.tag, tag);
    assert_eq!(note.subject, None);
    assert_eq!(note.work(), 5000);
    assert_eq!(store.snapshot(), Some((0, 0)));

    let note2 = store.tick(tag, UpdateMode::Overwrite, false);
    assert!(note2.is_none());
    assert!(store.is_tracking());
}

#[test]
fn singleton_check_without_record_is_no_op() {
    let mut store = SingletonStore::new();
    assert!(store.check(1, true).is_none());
    store.reset();
    assert!(!store.is_tracking());
    assert_eq!(store.snapshot(), None);
}

#[test]
fn singleton_dispose_fires_once() {
    let tag = 4;
    let mut store = SingletonStore::new();
    store.install(Progress::new());
    assert!(store.track(2, 2, UpdateMode::Accumulate));

    let note = store.tick(tag, UpdateMode::Accumulate, true);
    assert_eq!(note.map(|n| n.work()), Some(2));
    assert_eq!(store.snapshot(), None);
    assert!(!store.is_tracking());

    let note2 = store.tick(tag, UpdateMode::Accumulate, true);
    assert!(note2.is_none());
}

#[test]
fn keyed_cumulative_scenario_without_dispose() {
    // Subject A gets track(1,1), then track(0,0) one tick later with no
    // reset between: done stays 1, required stays 1, and without disposal
    // the check of every tick after the first call reports completion.
    let tag = 3;
    let subject_a = 100;
    let mut store = KeyedStore::new();
    store.insert(subject_a, Progress::new());

    assert!(store.track(subject_a, 1, 1, UpdateMode::Accumulate));
    let notes = store.tick(tag, UpdateMode::Accumulate, false);
    assert_eq!(notes.len(), 1);
    assert_eq!(notes[0].tag, tag);
    assert_eq!(notes[0].subject, Some(subject_a));
    assert_eq!(notes[0].work(), 1);
    assert_eq!(store.snapshot(subject_a), Some((1, 1)));

    assert!(store.track(subject_a, 0, 0, UpdateMode::Accumulate));
    assert_eq!(store.snapshot(subject_a), Some((1, 1)));
    let notes2 = store.tick(tag, UpdateMode::Accumulate, false);
    assert_eq!(notes2.len(), 1);
    assert_eq!(notes2[0].subject, Some(subject_a));
    assert_eq!(notes2[0].work(), 1);
}

#[test]
fn keyed_cumulative_scenario_with_dispose() {
    // The same reports with disposal configured: completion fires exactly
    // once, the subject's record is gone afterwards, and later checks stay
    // silent for it.
    let tag = 3;
    let subject_a = 100;
    let mut store = KeyedStore::new();
    store.insert(subject_a, Progress::new());

    assert!(store.track(subject_a, 1, 1, UpdateMode::Accumulate));
    let notes = store.tick(tag, UpdateMode::Accumulate, true);
    assert_eq!(notes.len(), 1);
    assert_eq!(notes[0].subject, Some(subject_a));
    assert_eq!(store.snapshot(subject_a), None);
    assert!(!store.contains(subject_a));

    assert!(!store.track(subject_a, 0, 0, UpdateMode::Accumulate));
    let notes2 = store.tick(tag, UpdateMode::Accumulate, true);
    assert!(notes2.is_empty());
}

#[test]
fn keyed_overwrite_two_producers_same_tick() {
    // Two producers overwrite the same tick-scoped record: the check
    // observes exactly the pair of the report the scheduler ordered last.
    let tag = 9;
    let subject = 1;
    let mut store = KeyedStore::new();
    store.insert(subject, Progress::new());

    assert!(store.track(subject, 3, 10, UpdateMode::Overwrite));
    assert!(store.track(subject, 7, 10, UpdateMode::Overwrite));
    let observed = store.snapshot(subject).unwrap();
    assert!(observed == (3, 10) || observed == (7, 10));
    assert_eq!(observed, (7, 10));

    let notes = store.tick(tag, UpdateMode::Overwrite, false);
    assert!(notes.is_empty());
    assert_eq!(store.snapshot(subject), Some((0, 0)));
}

#[test]
fn keyed_check_is_independent_per_subject() {
    let tag = 5;
    let mut store = KeyedStore::new();
    store.insert(1, Progress::new());
    store.insert(2, Progress::new());
    store.insert(3, Progress::new());

    assert!(store.track(1, 4, 4, UpdateMode::Accumulate));
    assert!(store.track(2, 1, 4, UpdateMode::Accumulate));
    assert!(store.track(3, 9, 8, UpdateMode::Accumulate));

    let notes = store.tick(tag, UpdateMode::Accumulate, true);
    assert_eq!(notes.len(), 2);
    let fired: Vec<(Option<u64>, u64)> = notes.iter().map(|n| (n.subject, n.work())).collect();
    assert!(fired.contains(&(Some(1), 4)));
    assert!(fired.contains(&(Some(3), 9)));

    assert!(!store.contains(1));
    assert_eq!(store.snapshot(2), Some((1, 4)));
    assert!(!store.contains(3));
    assert!(store.is_tracking());
    assert_eq!(store.len(), 1);
}

#[test]
fn keyed_reset_zeroes_survivors_only() {
    let mut store = KeyedStore::new();
    store.insert(1, Progress::new());
    store.insert(2, Progress::new());
    assert!(store.track(1, 2, 2, UpdateMode::Overwrite));
    assert!(store.track(2, 1, 5, UpdateMode::Overwrite));

    let notes = store.tick(8, UpdateMode::Overwrite, true);
    assert_eq!(notes.len(), 1);
    assert_eq!(notes[0].subject, Some(1));
    assert!(!store.contains(1));
    assert_eq!(store.snapshot(2), Some((0, 0)));
}

#[test]
fn keyed_check_without_records_is_no_op() {
    let mut store = KeyedStore::new();
    let notes = store.tick(2, UpdateMode::Overwrite, true);
    assert!(notes.is_empty());
    assert!(!store.is_tracking());
    assert_eq!(store.len(), 0);
}

#[test]
fn keyed_remove_is_explicit_disposal() {
    let mut store = KeyedStore::new();
    store.insert(6, Progress::new());
    assert!(store.remove(6));
    assert!(!store.remove(6));
    assert!(!store.is_tracking());
}

#[test]
fn register_is_idempotent() {
    let mut registry = Registry::new();
    let reg = registration(1, UpdateMode::Overwrite, true, false);
    assert!(registry.register(reg));
    assert!(!registry.register(reg));
    assert_eq!(registry.len(), 1);
    assert!(registry.is_registered(1));
    assert_eq!(registry.registration_of(1), Some(reg));
}

#[test]
fn register_keeps_first_wiring() {
    let mut registry = Registry::new();
    let first = registration(2, UpdateMode::Accumulate, false, true);
    let second = registration(2, UpdateMode::Overwrite, true, false);
    assert!(registry.register(first));
    assert!(!registry.register(second));
    assert_eq!(registry.registration_of(2), Some(first));
    assert_eq!(registry.len(), 1);
}

#[test]
fn registry_unknown_tag() {
    let registry = Registry::new();
    assert!(!registry.is_registered(41));
    assert_eq!(registry.registration_of(41), None);
}

#[test]
fn strict_track_reports_the_offending_tag() {
    let reg = registration(13, UpdateMode::Accumulate, false, true);
    let mut store = SingletonStore::new();
    let r = track_singleton(&mut store, &reg, 1, 1);
    assert_eq!(r, Err(TrackError::Untracked { tag: 13 }));
    assert!(!store.is_tracking());

    let mut keyed = KeyedStore::new();
    let r = track_keyed(&mut keyed, &reg, 55, 1, 1);
    assert_eq!(r, Err(TrackError::Untracked { tag: 13 }));
    assert!(!keyed.is_tracking());
}

#[test]
fn lenient_track_ignores_untracked_reports() {
    let reg = registration(13, UpdateMode::Accumulate, false, false);
    let mut store = SingletonStore::new();
    assert_eq!(track_singleton(&mut store, &reg, 1, 1), Ok(false));
    assert!(!store.is_tracking());

    let mut keyed = KeyedStore::new();
    keyed.insert(7, Progress::new());
    assert_eq!(track_keyed(&mut keyed, &reg, 55, 1, 1), Ok(false));
    assert_eq!(track_keyed(&mut keyed, &reg, 7, 2, 2), Ok(true));
    assert_eq!(keyed.snapshot(7), Some((2, 2)));
}

#[test]
fn notification_reports_overshoot_unclamped() {
    let mut store = SingletonStore::new();
    store.install(Progress::new());
    assert!(store.track(5000, 100, UpdateMode::Overwrite));
    let note: Option<Done> = store.check(2, false);
    assert_eq!(note.map(|n| n.work()), Some(5000));
}
