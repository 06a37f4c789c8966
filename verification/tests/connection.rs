use telemetry_session::connection::{
    ConnectionManager, ConnectionState, Directive, Event, Timing, TransportError, TransportStage,
};

fn failure(stage: TransportStage, detail: &str) -> TransportError {
    TransportError { stage, detail: detail.to_string() }
}

fn connected() -> ConnectionManager {
    let mut manager = ConnectionManager::new(Timing::standard());
    assert_eq!(
        manager.step(Event::Established),
        Some(Directive::Proceed { wait_ms: 0, report: None })
    );
    manager
}

#[test]
fn standard_timing_is_one_second_two_seconds_ten_records() {
    assert_eq!(Timing::standard(), Timing { interval_ms: 1000, backoff_ms: 2000, report_every: 10 });
}

#[test]
fn a_new_manager_is_disconnected() {
    let manager = ConnectionManager::new(Timing::standard());
    assert_eq!(manager.state(), ConnectionState::Disconnected);
    assert_eq!(manager.sent(), 0);
}

#[test]
fn the_first_connection_starts_sending_at_once() {
    let manager = connected();
    assert_eq!(manager.state(), ConnectionState::Connected);
    assert_eq!(manager.sent(), 0);
}

#[test]
fn a_failed_first_connection_ends_the_agent() {
    let mut manager = ConnectionManager::new(Timing::standard());
    let refusal = failure(TransportStage::Connect, "connection refused");
    assert_eq!(
        manager.step(Event::ConnectFailed(refusal.duplicate())),
        Some(Directive::Terminate { error: refusal })
    );
    assert_eq!(manager.state(), ConnectionState::Disconnected);
}

#[test]
fn each_send_is_counted_and_followed_by_the_interval() {
    let mut manager = connected();
    for count in 1..=9u64 {
        assert_eq!(
            manager.step(Event::Sent),
            Some(Directive::Proceed { wait_ms: 1000, report: None })
        );
        assert_eq!(manager.sent(), count);
        assert_eq!(manager.state(), ConnectionState::Connected);
    }
}

#[test]
fn every_tenth_send_calls_for_a_status_line() {
    let mut manager = connected();
    let mut reports = Vec::new();
    for _ in 0..35 {
        match manager.step(Event::Sent) {
            Some(Directive::Proceed { report: Some(count), .. }) => reports.push(count),
            Some(Directive::Proceed { report: None, .. }) => {}
            other => panic!("unexpected directive: {:?}", other),
        }
    }
    assert_eq!(reports, vec![10, 20, 30]);
}

#[test]
fn no_status_line_is_due_when_reporting_is_off() {
    let mut manager =
        ConnectionManager::new(Timing { interval_ms: 5, backoff_ms: 7, report_every: 0 });
    assert_eq!(manager.step(Event::Established), Some(Directive::Proceed { wait_ms: 0, report: None }));
    for _ in 0..20 {
        assert_eq!(manager.step(Event::Sent), Some(Directive::Proceed { wait_ms: 5, report: None }));
    }
}

#[test]
fn a_failed_send_calls_for_one_reconnection() {
    let mut manager = connected();
    assert!(manager.step(Event::Sent).is_some());
    assert_eq!(
        manager.step(Event::SendFailed(failure(TransportStage::Write, "broken pipe"))),
        Some(Directive::Reconnect { backoff_ms: 2000 })
    );
    assert_eq!(manager.state(), ConnectionState::Reconnecting);
    assert_eq!(manager.sent(), 1);
}

#[test]
fn a_send_that_fails_once_then_reconnects_resumes_sending() {
    let mut manager = connected();
    for _ in 0..3 {
        assert!(manager.step(Event::Sent).is_some());
    }
    assert_eq!(
        manager.step(Event::SendFailed(failure(TransportStage::Flush, "connection reset"))),
        Some(Directive::Reconnect { backoff_ms: 2000 })
    );
    assert_eq!(
        manager.step(Event::Established),
        Some(Directive::Proceed { wait_ms: 1000, report: None })
    );
    assert_eq!(manager.state(), ConnectionState::Connected);
    assert_eq!(manager.sent(), 0);
    assert_eq!(
        manager.step(Event::Sent),
        Some(Directive::Proceed { wait_ms: 1000, report: None })
    );
    assert_eq!(manager.state(), ConnectionState::Connected);
    assert_eq!(manager.sent(), 1);
}

#[test]
fn a_failed_reconnection_ends_the_run_loop_with_the_send_error() {
    let mut manager = connected();
    let first_failure = failure(TransportStage::Write, "broken pipe");
    assert_eq!(
        manager.step(Event::SendFailed(first_failure.duplicate())),
        Some(Directive::Reconnect { backoff_ms: 2000 })
    );
    assert_eq!(
        manager.step(Event::ConnectFailed(failure(TransportStage::Connect, "connection refused"))),
        Some(Directive::Terminate { error: first_failure })
    );
    assert_eq!(manager.state(), ConnectionState::Reconnecting);
}

#[test]
fn a_caller_that_retries_anyway_can_still_recover() {
    let mut manager = connected();
    let first_failure = failure(TransportStage::Write, "broken pipe");
    assert!(manager.step(Event::SendFailed(first_failure.duplicate())).is_some());
    for _ in 0..2 {
        assert_eq!(
            manager.step(Event::ConnectFailed(failure(TransportStage::Connect, "timed out"))),
            Some(Directive::Terminate { error: first_failure.duplicate() })
        );
    }
    assert_eq!(
        manager.step(Event::Established),
        Some(Directive::Proceed { wait_ms: 1000, report: None })
    );
    assert_eq!(manager.state(), ConnectionState::Connected);
}

#[test]
fn events_without_meaning_change_nothing() {
    let mut manager = ConnectionManager::new(Timing::standard());
    assert_eq!(manager.step(Event::Sent), None);
    assert_eq!(manager.step(Event::SendFailed(failure(TransportStage::Write, "x"))), None);
    assert_eq!(manager.state(), ConnectionState::Disconnected);

    let mut manager = connected();
    assert!(manager.step(Event::Sent).is_some());
    assert_eq!(manager.step(Event::Established), None);
    assert_eq!(manager.step(Event::ConnectFailed(failure(TransportStage::Connect, "x"))), None);
    assert_eq!(manager.state(), ConnectionState::Connected);
    assert_eq!(manager.sent(), 1);

    assert!(manager.step(Event::SendFailed(failure(TransportStage::Write, "y"))).is_some());
    assert_eq!(manager.step(Event::Sent), None);
    assert_eq!(manager.step(Event::SendFailed(failure(TransportStage::Write, "z"))), None);
    assert_eq!(manager.state(), ConnectionState::Reconnecting);
}

#[test]
fn a_copy_of_an_error_equals_it() {
    let error = failure(TransportStage::Flush, "would block");
    assert_eq!(error.duplicate(), error);
}
