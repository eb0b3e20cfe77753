use openbarista::health::{
    check_for_hang, confirm_running_slot_valid, feed, hang_monitor_paused, pause_hang_monitor,
    resume_hang_monitor, stale_for, HealthState,
};

#[test]
fn a_silent_loop_is_restarted_after_a_minute() {
    let mut state = HealthState::new();
    feed(&mut state, 100);
    assert_eq!(stale_for(&state, 160), 60);
    assert!(check_for_hang(&state, 160).is_none());
    assert_eq!(
        check_for_hang(&state, 161).unwrap(),
        "health: main loop stalled for 61s, restarting"
    );
    feed(&mut state, 161);
    assert!(check_for_hang(&state, 200).is_none());
}

#[test]
fn a_paused_monitor_restarts_nothing() {
    let mut state = HealthState::new();
    feed(&mut state, 10);
    pause_hang_monitor(&mut state);
    assert!(hang_monitor_paused(&state));
    assert!(check_for_hang(&state, 1000).is_none());
    resume_hang_monitor(&mut state);
    assert!(!hang_monitor_paused(&state));
    assert!(check_for_hang(&state, 1000).is_some());
}

#[test]
fn the_slot_is_confirmed_once_after_half_a_minute() {
    let mut state = HealthState::new();
    feed(&mut state, 29);
    assert!(!confirm_running_slot_valid(&mut state, 29));
    feed(&mut state, 30);
    assert!(confirm_running_slot_valid(&mut state, 30));
    assert!(!confirm_running_slot_valid(&mut state, 31));
}
