use lichess_client::client::{
    decide_admission, throttle_until, Admission, ClientError, RateGate, COOLDOWN_MS,
};

#[test]
fn admission_decisions() {
    assert_eq!(decide_admission(None, 5), Admission::Proceed);
    assert_eq!(decide_admission(Some(10), 5), Admission::Refuse(10));
    assert_eq!(decide_admission(Some(10), 10), Admission::ClearAndProceed);
    assert_eq!(decide_admission(Some(10), 11), Admission::ClearAndProceed);
}

#[test]
fn throttle_sets_sixty_second_cooldown() {
    assert_eq!(COOLDOWN_MS, 60_000);
    assert_eq!(throttle_until(None, 1_000), 61_000);
    assert_eq!(throttle_until(Some(500), 1_000), 61_000);
    assert_eq!(throttle_until(Some(61_000), 2_000), 61_000);
    assert_eq!(throttle_until(None, u64::MAX - 5), u64::MAX);
}

#[test]
fn gate_refuses_until_cooldown_passes() {
    let gate = RateGate::new();
    assert_eq!(gate.before_dispatch(0), Ok(()));
    assert_eq!(gate.after_response(200, 0), Ok(()));
    assert_eq!(gate.after_response(429, 1_000), Err(ClientError::RateLimited(61_000)));
    assert_eq!(gate.before_dispatch(1_000), Err(ClientError::RateLimited(61_000)));
    assert_eq!(gate.before_dispatch(60_999), Err(ClientError::RateLimited(61_000)));
    assert_eq!(gate.before_dispatch(61_000), Ok(()));
    assert_eq!(gate.before_dispatch(61_001), Ok(()));
}

#[test]
fn calls_after_throttle_share_one_instant() {
    let gate = RateGate::new();
    assert_eq!(gate.after_response(429, 1_000), Err(ClientError::RateLimited(61_000)));
    for now in [1_000u64, 1_001, 30_000, 60_999] {
        assert_eq!(gate.before_dispatch(now), Err(ClientError::RateLimited(61_000)));
    }
    assert_eq!(gate.after_response(429, 2_000), Err(ClientError::RateLimited(61_000)));
    assert_eq!(gate.on_throttle(3_000), 61_000);
}

#[test]
fn throttle_after_expiry_starts_fresh_cooldown() {
    let gate = RateGate::new();
    assert_eq!(gate.on_throttle(0), 60_000);
    assert_eq!(gate.on_throttle(70_000), 130_000);
    assert_eq!(gate.before_dispatch(100_000), Err(ClientError::RateLimited(130_000)));
}

#[test]
fn other_status_is_protocol_violation() {
    let gate = RateGate::new();
    assert_eq!(gate.after_response(500, 0), Err(ClientError::ProtocolViolation(500)));
    assert_eq!(gate.after_response(404, 0), Err(ClientError::ProtocolViolation(404)));
    assert_eq!(gate.before_dispatch(0), Ok(()));
}
