use arroyo_planner::mqtt::{next_connect_action, poll_error_action, sink_name, ConnectAction, PollAction, PollErrorKind};

#[test]
fn retries_count_up_with_capped_backoff() {
    assert_eq!(next_connect_action(0, false), ConnectAction::Retry { delay_millis: 50, next_attempt: 1 });
    assert_eq!(next_connect_action(3, false), ConnectAction::Retry { delay_millis: 400, next_attempt: 4 });
    assert_eq!(next_connect_action(7, false), ConnectAction::Retry { delay_millis: 5_000, next_attempt: 8 });
    assert_eq!(next_connect_action(18, false), ConnectAction::Retry { delay_millis: 5_000, next_attempt: 19 });
    assert_eq!(next_connect_action(19, false), ConnectAction::GiveUp);
    assert_eq!(next_connect_action(5, true), ConnectAction::Ready);
}

#[test]
fn retry_loop_terminates() {
    let mut attempt = 0u32;
    let mut tries = 0;
    loop {
        tries += 1;
        match next_connect_action(attempt, false) {
            ConnectAction::Retry { next_attempt, .. } => attempt = next_attempt,
            ConnectAction::GiveUp => break,
            ConnectAction::Ready => unreachable!(),
        }
    }
    assert_eq!(tries, 20);
}

#[test]
fn poll_errors() {
    assert_eq!(poll_error_action(PollErrorKind::Timeout), PollAction::Continue);
    assert_eq!(poll_error_action(PollErrorKind::ConnectionReset), PollAction::Continue);
    assert_eq!(poll_error_action(PollErrorKind::ConnectionAborted), PollAction::Continue);
    assert_eq!(poll_error_action(PollErrorKind::Other), PollAction::ReportAndWait { millis: 1_000 });
    assert_eq!(sink_name(&"events".to_string()), "mqtt-producer-events");
}
