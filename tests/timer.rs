use cube_tui::timer::{Timer, TimerState, FAST_TICK_MS, SLOW_TICK_MS};

#[test]
fn full_cycle_records_exact_elapsed_time() {
    let mut t = Timer::new();
    assert_eq!(t.state, TimerState::Idle);
    assert_eq!(t.on_primary_key_event(1_000), None);
    assert_eq!(t.state, TimerState::Running);
    assert_eq!(t.on_primary_key_event(13_340), Some(12_340));
    assert_eq!(t.state, TimerState::Stopped);
    assert_eq!(t.last_result, Some(12_340));
    assert_eq!(t.on_primary_key_event(20_000), None);
    assert_eq!(t.state, TimerState::Idle);
    assert_eq!(t.last_result, Some(12_340));
}

#[test]
fn tick_updates_display_only_while_running() {
    let mut t = Timer::new();
    t.on_tick(500);
    assert_eq!(t.shown, 0);
    t.on_primary_key_event(1_000);
    t.on_tick(1_750);
    assert_eq!(t.shown, 750);
    assert_eq!(t.state, TimerState::Running);
    assert_eq!(t.last_result, None);
    t.on_primary_key_event(2_000);
    t.on_tick(9_000);
    assert_eq!(t.shown, 1_000);
}

#[test]
fn tick_rate_follows_state() {
    let mut t = Timer::new();
    assert_eq!(t.tick_rate_ms(), SLOW_TICK_MS);
    t.on_primary_key_event(0);
    assert_eq!(t.tick_rate_ms(), FAST_TICK_MS);
    t.on_primary_key_event(10);
    assert_eq!(t.tick_rate_ms(), SLOW_TICK_MS);
}

#[test]
fn clock_sample_before_start_counts_as_zero() {
    let mut t = Timer::new();
    t.on_primary_key_event(5_000);
    assert_eq!(t.on_primary_key_event(4_000), Some(0));
}

