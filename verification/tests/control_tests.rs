use allcast::control::{
    force_keyframe_on_resume, run_step, silence_expired, subscribe_interval_ms, ActiveSession, ActiveStep, BusEvent,
    Recovery, RecoveryAction, RunStep, Throttle, ThrottleConfig,
};

#[test]
fn throttle_backs_off_and_recovers() {
    let mut t = Throttle::new(20_000);
    assert_eq!(t.target, 20_000);
    // First sample only records the drop baseline.
    assert_eq!(t.on_sample(true, 5, false, false, 2_000, 20_000), None);
    assert!(t.have_drops);
    assert_eq!(t.last_drops, 5);
    // Fresh packet loss: 85 %.
    assert_eq!(t.on_sample(true, 9, false, false, 2_000, 20_000), Some(17_000));
    // Headroom: +10 %, capped at the ceiling.
    assert_eq!(t.on_sample(true, 9, false, true, 2_000, 20_000), Some(18_700));
    assert_eq!(t.on_sample(true, 9, false, true, 2_000, 20_000), Some(20_000));
    assert_eq!(t.on_sample(true, 9, false, true, 2_000, 20_000), None);
    // Neither saturated nor with headroom: unchanged.
    assert_eq!(t.on_sample(true, 9, false, false, 2_000, 20_000), None);
    assert_eq!(t.target, 20_000);
}

#[test]
fn throttle_respects_floor_and_inactive_receiver() {
    let mut t = Throttle::new(2_100);
    assert_eq!(t.on_sample(true, 0, true, false, 2_000, 20_000), Some(2_000));
    assert_eq!(t.on_sample(true, 0, true, false, 2_000, 20_000), None);
    assert_eq!(t.target, 2_000);
    // An idle receiver steers nothing, not even the drop baseline.
    let mut u = Throttle::new(10_000);
    assert_eq!(u.on_sample(false, 100, true, false, 2_000, 20_000), None);
    assert_eq!(u.target, 10_000);
    assert!(!u.have_drops);
    assert_eq!(u.last_drops, 0);
}

#[test]
fn throttle_drop_counter_reset_is_not_loss() {
    let mut t = Throttle::new(10_000);
    t.on_sample(true, 50, false, false, 2_000, 20_000);
    // Counter went backwards (receiver restarted): saturating, no back-off.
    assert_eq!(t.on_sample(true, 3, false, false, 2_000, 20_000), None);
    assert_eq!(t.last_drops, 3);
    // A new stream forgets the baseline but keeps the target.
    t.target = 12_000;
    t.start_stream();
    assert_eq!(t.target, 12_000);
    assert!(!t.have_drops);
    assert_eq!(t.on_sample(true, 40, false, false, 2_000, 20_000), None);
}

#[test]
fn throttle_config_holds_tunables() {
    let c = ThrottleConfig {
        receiver_host: "10.0.0.2".to_string(),
        telemetry_port: 5005,
        interval_ms: 250,
        max_bitrate_kbps: 10_000,
        min_bitrate_kbps: 2_000,
    };
    let mut t = Throttle::new(c.max_bitrate_kbps);
    assert_eq!(t.on_sample(true, 0, true, false, c.min_bitrate_kbps, c.max_bitrate_kbps), Some(8_500));
    assert_eq!(c.interval_ms, 250);
}

#[test]
fn recovery_gives_up_after_repeated_fast_failures() {
    let mut r = Recovery::new();
    for n in 1..=5 {
        assert_eq!(r.on_build_failure(), RecoveryAction::RetryAfterMs(500));
        assert_eq!(r.fast_failures, n);
    }
    assert_eq!(r.on_build_failure(), RecoveryAction::GiveUp);
}

#[test]
fn recovery_resets_after_a_long_run() {
    let mut r = Recovery::new();
    assert_eq!(r.on_run_failure(100), RecoveryAction::RetryAfterMs(300));
    assert_eq!(r.on_run_failure(1_999), RecoveryAction::RetryAfterMs(300));
    assert_eq!(r.fast_failures, 2);
    assert_eq!(r.on_run_failure(2_000), RecoveryAction::RetryAfterMs(300));
    assert_eq!(r.fast_failures, 0);
    for _ in 0..5 {
        assert_eq!(r.on_run_failure(10), RecoveryAction::RetryAfterMs(300));
    }
    assert_eq!(r.on_run_failure(10), RecoveryAction::GiveUp);
}

#[test]
fn keyframe_after_static_screen() {
    assert!(!force_keyframe_on_resume(0, 5_000_000_000, 300));
    assert!(!force_keyframe_on_resume(1_000_000_000, 1_300_000_000, 300));
    assert!(force_keyframe_on_resume(1_000_000_000, 1_300_000_001, 300));
    assert!(!force_keyframe_on_resume(1_000_000_000, 1_016_000_000, 300));
}

#[test]
fn receiver_silence() {
    let s = 1_000_000_000u128;
    // Activated at 100 s, no packet yet: silence counts from activation.
    assert!(!silence_expired(100 * s, 0, 103 * s, 3));
    assert!(silence_expired(100 * s, 0, 103 * s + 1, 3));
    // A packet after activation restarts the count.
    assert!(!silence_expired(100 * s, (110 * s) as i64, 113 * s, 3));
    assert!(silence_expired(100 * s, (110 * s) as i64, 113 * s + 1, 3));
    // A stamp older than the activation does not count.
    assert!(silence_expired(100 * s, (50 * s) as i64, 103 * s + 1, 3));
    // A clock behind the newest packet never expires it.
    assert!(!silence_expired(100 * s, (500 * s) as i64, 400 * s, 3));
}

#[test]
fn subscribe_interval_defaults_and_clamps() {
    assert_eq!(subscribe_interval_ms(0), 250);
    assert_eq!(subscribe_interval_ms(10), 50);
    assert_eq!(subscribe_interval_ms(50), 50);
    assert_eq!(subscribe_interval_ms(500), 500);
    assert_eq!(subscribe_interval_ms(2_000), 2_000);
    assert_eq!(subscribe_interval_ms(9_999), 2_000);
}

#[test]
fn run_loop_steps() {
    assert_eq!(run_step(true, BusEvent::Error), RunStep::Finished);
    assert_eq!(run_step(false, BusEvent::Nothing), RunStep::Continue);
    assert_eq!(run_step(false, BusEvent::Other), RunStep::Continue);
    assert_eq!(run_step(false, BusEvent::EndOfStream), RunStep::Finished);
    assert_eq!(run_step(false, BusEvent::Error), RunStep::Failed);
}

#[test]
fn active_session_steps() {
    let s = 1_000_000_000u128;
    let mut a = ActiveSession::new(100 * s);
    assert_eq!(a.activated_ns, 100 * s);
    assert_eq!(a.step(true, BusEvent::Nothing, 0, 100 * s, 3), ActiveStep::Stop);
    assert_eq!(a.step(false, BusEvent::EndOfStream, 0, 100 * s, 3), ActiveStep::EndOfStream);
    assert_eq!(a.step(false, BusEvent::Error, 0, 100 * s, 3), ActiveStep::PipelineError);
    // No packet yet, within the idle timeout: keep going, no heartbeat.
    assert_eq!(a.step(false, BusEvent::Nothing, 0, 102 * s, 3), ActiveStep::Continue);
    // Packets flowing; 31 s after the start a heartbeat is due once.
    assert_eq!(a.step(false, BusEvent::Other, (130 * s) as i64, 131 * s, 3), ActiveStep::Heartbeat);
    assert_eq!(a.last_heartbeat_ns, 131 * s);
    assert_eq!(a.step(false, BusEvent::Nothing, (131 * s) as i64, 132 * s, 3), ActiveStep::Continue);
    // Silence longer than the idle timeout releases the display.
    assert_eq!(a.step(false, BusEvent::Nothing, (131 * s) as i64, 134 * s + 1, 3), ActiveStep::Silent);
    // A clock behind the last packet judges nothing.
    assert_eq!(a.step(false, BusEvent::Nothing, (500 * s) as i64, 400 * s, 3), ActiveStep::Continue);
}

#[test]
fn active_session_released_without_any_packet() {
    let s = 1_000_000_000u128;
    let mut a = ActiveSession::new(100 * s);
    assert_eq!(a.step(false, BusEvent::Nothing, 0, 103 * s, 3), ActiveStep::Continue);
    assert_eq!(a.step(false, BusEvent::Other, 0, 103 * s + 1, 3), ActiveStep::Silent);
}
