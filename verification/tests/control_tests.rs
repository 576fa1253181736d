use shredstream_proxy::config::{validate_config, ConfigError};
use shredstream_proxy::heartbeat::{Session, SessionAction, SessionEvent, SessionState};
use shredstream_proxy::ingress::plan_batch_admit;
use shredstream_proxy::metrics::ShredMetrics;
use shredstream_proxy::{default_metrics_report_interval, default_src_bind_port};

#[test]
fn missing_destinations_is_fatal() {
    // neither static destinations nor discovery
    assert_eq!(
        validate_config(false, false, 0, 0, false),
        Err(ConfigError::NoDestinations)
    );
}

#[test]
fn discovery_url_and_port_must_come_together() {
    assert_eq!(
        validate_config(true, false, 1, 0, false),
        Err(ConfigError::DiscoveryPairIncomplete)
    );
    assert_eq!(
        validate_config(false, true, 1, 0, false),
        Err(ConfigError::DiscoveryPairIncomplete)
    );
    assert_eq!(validate_config(true, true, 0, 0, false), Ok(()));
}

#[test]
fn heartbeat_mode_needs_a_region() {
    assert_eq!(validate_config(false, false, 1, 0, true), Err(ConfigError::NoRegions));
    assert_eq!(validate_config(false, false, 1, 1, true), Ok(()));
    // forward-only mode runs without regions
    assert_eq!(validate_config(false, false, 1, 0, false), Ok(()));
}

#[test]
fn session_authenticates_then_heartbeats() {
    let mut s = Session::new(3);
    assert_eq!(s.state, SessionState::Connecting);
    assert_eq!(s.step(SessionEvent::ConnectOk), SessionAction::SendHeartbeat);
    assert_eq!(s.state, SessionState::Authenticated);
    assert_eq!(s.step(SessionEvent::SendOk), SessionAction::SendHeartbeat);
    assert_eq!(s.step(SessionEvent::SendOk), SessionAction::SendHeartbeat);
    assert_eq!(s.successes, 2);
    assert_eq!(s.failures, 0);
}

#[test]
fn session_reconnects_at_the_failure_threshold() {
    let mut s = Session::new(2);
    s.step(SessionEvent::ConnectOk);
    assert_eq!(s.step(SessionEvent::SendFailed), SessionAction::SendHeartbeat);
    assert_eq!(s.state, SessionState::Authenticated);
    assert_eq!(s.step(SessionEvent::SendFailed), SessionAction::Reconnect);
    assert_eq!(s.state, SessionState::Connecting);
    // a failed reconnection is retried
    assert_eq!(s.step(SessionEvent::ConnectFailed), SessionAction::Reconnect);
    // a success resets the failure count
    s.step(SessionEvent::ConnectOk);
    s.step(SessionEvent::SendOk);
    assert_eq!(s.failures, 0);
}

#[test]
fn shutdown_stops_the_session_in_any_state() {
    // from authenticated
    let mut s = Session::new(3);
    s.step(SessionEvent::ConnectOk);
    assert_eq!(s.step(SessionEvent::Shutdown), SessionAction::Exit);
    assert_eq!(s.state, SessionState::Stopped);
    // a stopped session never acts again
    assert_eq!(s.step(SessionEvent::ConnectOk), SessionAction::Exit);
    assert_eq!(s.state, SessionState::Stopped);
    // from connecting
    let mut s2 = Session::new(3);
    assert_eq!(s2.step(SessionEvent::Shutdown), SessionAction::Exit);
    assert_eq!(s2.state, SessionState::Stopped);
}

#[test]
fn batches_fit_or_shed_their_oldest() {
    // everything fits
    assert_eq!(plan_batch_admit(10, 128, 50), (0, 50));
    // partial room: the overflow is dropped
    assert_eq!(plan_batch_admit(120, 128, 50), (42, 8));
    // full channel: everything is dropped
    assert_eq!(plan_batch_admit(128, 128, 50), (50, 0));
    // occupancy never exceeds capacity
    let (dropped, admitted) = plan_batch_admit(100, 128, 1000);
    assert_eq!(admitted, 28);
    assert_eq!(dropped, 972);
}

#[test]
fn report_publishes_deltas_and_resets_them() {
    let mut m = ShredMetrics::new();
    m.record_forward(100, 25, 150, 2);
    m.record_ingress_dropped(7);
    m.record_refresh_fail();
    let d1 = m.report();
    assert_eq!(d1.received, 100);
    assert_eq!(d1.duplicate, 25);
    assert_eq!(d1.success_forward, 150);
    assert_eq!(d1.fail_forward, 2);
    assert_eq!(d1.ingress_dropped, 7);
    assert_eq!(d1.refresh_fail, 1);
    // nothing new: the next delta is zero, the cumulative counters stand
    let d2 = m.report();
    assert_eq!(d2.received, 0);
    assert_eq!(d2.success_forward, 0);
    assert_eq!(m.received, 100);
    assert_eq!(m.success_forward, 150);
    // growth after a report is the next delta
    m.record_forward(10, 1, 9, 0);
    let d3 = m.report();
    assert_eq!(d3.received, 10);
    assert_eq!(d3.duplicate, 1);
    assert_eq!(d3.success_forward, 9);
}

#[test]
fn counters_saturate_instead_of_wrapping() {
    let mut m = ShredMetrics::new();
    m.record_forward(u64::MAX, 0, 0, 0);
    m.record_forward(5, 0, 0, 0);
    assert_eq!(m.received, u64::MAX);
}

#[test]
fn defaults_match_the_configuration_surface() {
    assert_eq!(default_src_bind_port(), 20_000);
    assert_eq!(default_metrics_report_interval(), 15_000);
}
