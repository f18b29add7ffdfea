use world_save::autosave::{AutosaveSchedule, AUTOSAVE_INTERVAL};

#[test]
fn timer_fires_once_an_interval_accumulates() {
    let mut s = AutosaveSchedule::new();
    assert!(!s.advance(100));
    assert!(!s.advance(100));
    assert!(!s.advance(99));
    assert!(s.advance(1));
    assert!(!s.advance(299));
    assert!(s.advance(1));
}

#[test]
fn firing_resets_the_timer() {
    let mut s = AutosaveSchedule::new();
    assert!(s.advance(AUTOSAVE_INTERVAL));
    assert_eq!(s.since_last_save, 0);
    assert!(!s.advance(1));
    assert_eq!(s.since_last_save, 1);
}

#[test]
fn a_long_stall_fires_once() {
    let mut s = AutosaveSchedule::new();
    assert!(s.advance(u64::MAX));
    assert_eq!(s.since_last_save, 0);
    assert!(!s.advance(0));
}
