use rnot::scheduler::{SchedulerAction, SchedulerSignal, SchedulerState};
use rnot::site::WatchedSite;
use rnot::store::Storage;
use rnot::tui::{next_index, previous_index, InputMode};

#[test]
fn reading_an_unwritten_id_yields_empty() {
    let s = Storage::new();
    assert_eq!(s.get_snapshot("nope"), "");
}

#[test]
fn save_then_load_round_trips() {
    let mut s = Storage::new();
    s.save_snapshot("id1", "content one");
    assert_eq!(s.get_snapshot("id1"), "content one");
}

#[test]
fn later_write_fully_replaces_earlier() {
    let mut s = Storage::new();
    s.save_snapshot("id1", "first");
    s.save_snapshot("id1", "second");
    assert_eq!(s.get_snapshot("id1"), "second");
}

#[test]
fn slots_are_independent_per_id() {
    let mut s = Storage::new();
    s.save_snapshot("a", "for a");
    s.save_snapshot("b", "for b");
    s.save_snapshot("a", "for a again");
    assert_eq!(s.get_snapshot("a"), "for a again");
    assert_eq!(s.get_snapshot("b"), "for b");
}

#[test]
fn new_site_record_is_fresh_and_enabled() {
    let s = WatchedSite::new(
        "https://example.test/x".to_string(),
        "X".to_string(),
        Some("#main".to_string()),
    );
    assert_eq!(s.id.len(), 16);
    assert_eq!(s.url, "https://example.test/x");
    assert_eq!(s.name, "X");
    assert!(s.enabled);
    assert!(s.last_hash.is_none());
    assert!(s.last_checked.is_none());
    assert!(s.last_change.is_none());
    assert_eq!(s.css_selector.as_deref(), Some("#main"));
}

#[test]
fn record_ids_are_stable_across_constructions() {
    let a = WatchedSite::new("https://example.test/x".to_string(), "A".to_string(), None);
    let b = WatchedSite::new("https://example.test/x".to_string(), "B".to_string(), None);
    assert_eq!(a.id, b.id);
}

#[test]
fn scheduler_starts_running_and_ticks() {
    let s = SchedulerState::initial();
    let (s, a) = s.step(SchedulerSignal::IntervalElapsed);
    assert_eq!(s, SchedulerState::Running);
    assert_eq!(a, SchedulerAction::CheckAllSites);
}

#[test]
fn scheduler_stops_on_shutdown_and_stays_stopped() {
    let s = SchedulerState::initial();
    let (s, a) = s.step(SchedulerSignal::ShutdownRequested);
    assert_eq!(s, SchedulerState::Stopped);
    assert_eq!(a, SchedulerAction::Exit);
    let (s, a) = s.step(SchedulerSignal::IntervalElapsed);
    assert_eq!(s, SchedulerState::Stopped);
    assert_eq!(a, SchedulerAction::Idle);
}

#[test]
fn selection_wraps_both_ways() {
    assert_eq!(next_index(None, 3), 0);
    assert_eq!(next_index(Some(0), 3), 1);
    assert_eq!(next_index(Some(2), 3), 0);
    assert_eq!(next_index(Some(0), 0), 0);
    assert_eq!(previous_index(None, 3), 0);
    assert_eq!(previous_index(Some(2), 3), 1);
    assert_eq!(previous_index(Some(0), 3), 2);
    assert_eq!(previous_index(Some(0), 0), 0);
}

#[test]
fn input_modes_are_distinct() {
    assert_ne!(InputMode::Normal, InputMode::Help);
    assert_eq!(InputMode::AddUrl, InputMode::AddUrl);
}
