use burdbot::session_tracker::{SpeakingTracker, SpokenTime};

#[test]
fn speaking_time_is_handed_back_when_a_user_stops() {
    let mut tracker = SpeakingTracker::new();
    tracker.on_speaking_state_update(Some(7), 100, 0);
    assert_eq!(tracker.on_speaking_update(false, 100, 2_500), Some(SpokenTime { user_id: 7, seconds: 2 }));
    // stopping again records nothing
    assert_eq!(tracker.on_speaking_update(false, 100, 2_600), None);
    // speaking again is timed from then
    assert_eq!(tracker.on_speaking_update(true, 100, 3_000), None);
    assert_eq!(tracker.on_speaking_update(true, 100, 4_000), None);
    assert_eq!(tracker.on_speaking_update(false, 100, 13_999), Some(SpokenTime { user_id: 7, seconds: 10 }));
}

#[test]
fn unknown_sources_and_events_without_a_user_change_nothing() {
    let mut tracker = SpeakingTracker::new();
    assert_eq!(tracker.on_speaking_update(true, 5, 0), None);
    assert_eq!(tracker.on_speaking_update(false, 5, 1_000), None);
    tracker.on_speaking_state_update(None, 5, 0);
    assert_eq!(tracker.on_speaking_update(false, 5, 1_000), None);
}

#[test]
fn leaving_records_the_time_and_forgets_the_source() {
    let mut tracker = SpeakingTracker::new();
    tracker.on_speaking_state_update(Some(7), 100, 1_000);
    assert_eq!(tracker.on_client_disconnect(7, 8_000), Some(SpokenTime { user_id: 7, seconds: 7 }));
    assert_eq!(tracker.on_speaking_update(true, 100, 9_000), None);
    assert_eq!(tracker.on_speaking_update(false, 100, 10_000), None);
    assert_eq!(tracker.on_client_disconnect(7, 11_000), None);
}

#[test]
fn a_source_taken_by_another_user_changes_hands() {
    let mut tracker = SpeakingTracker::new();
    tracker.on_speaking_state_update(Some(7), 100, 0);
    tracker.on_speaking_state_update(Some(8), 100, 1_000);
    assert_eq!(tracker.on_speaking_update(false, 100, 3_000), Some(SpokenTime { user_id: 8, seconds: 2 }));
    // user 7 is still timed, though no source is theirs now
    assert_eq!(tracker.on_client_disconnect(7, 5_000), Some(SpokenTime { user_id: 7, seconds: 5 }));
}
