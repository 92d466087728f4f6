use skope::analytics::data::{
    classify_request, first_line, response_bytes, should_generate_report, Request, Response, RunnerAction,
    RunnerEvent, RunnerState, DEFAULT_ITERATIONS_THRESHOLD,
};

fn padded(request: &[u8]) -> Vec<u8> {
    let mut buf = vec![0u8; 1024];
    buf[..request.len()].copy_from_slice(request);
    buf
}

#[test]
fn requests_are_classified_by_their_start() {
    assert_eq!(classify_request(&padded(b"GET /start")), Request::Start);
    assert_eq!(classify_request(b"GET /start?name=app HTTP/1.1\r\n"), Request::Start);
    assert_eq!(classify_request(&padded(b"GET /stop")), Request::Stop);
    assert_eq!(classify_request(b"GET /sto"), Request::Unknown);
    assert_eq!(classify_request(b"POST / HTTP/1.1"), Request::Unknown);
    assert_eq!(classify_request(b""), Request::Unknown);
}

#[test]
fn first_line_stops_at_the_first_line_break() {
    assert_eq!(first_line(b"GET /x HTTP/1.1\r\nHost: a\r\n"), b"GET /x HTTP/1.1".to_vec());
    assert_eq!(first_line(b"no line break"), Vec::<u8>::new());
    assert_eq!(first_line(b"\r\nrest"), Vec::<u8>::new());
    assert_eq!(first_line(b"a\rb\r\n"), b"a\rb".to_vec());
}

#[test]
fn responses() {
    assert_eq!(response_bytes(Response::Success), b"HTTP/1.1 200 OK\nContent-Length: 0".to_vec());
    assert_eq!(
        response_bytes(Response::BadRequest),
        b"HTTP/1.1 404 Bad Request\nContent-Length: 0".to_vec()
    );
}

// The runner starts capturing on /start, stops and closes on /stop.
#[test]
fn runner_start_then_stop() {
    let mut state = RunnerState::new();
    assert!(!state.capturing);

    let action = state.handle_event(&RunnerEvent::Received(padded(b"GET /start")));
    assert_eq!(action, RunnerAction::StartCapture);
    assert!(state.capturing, "Should be capturing after /start");
    assert!(!state.should_close_connection(), "Should not be closing after /start");

    let action = state.handle_event(&RunnerEvent::Received(padded(b"GET /stop")));
    assert_eq!(action, RunnerAction::StopCapture { was_capturing: true });
    assert!(!state.capturing, "Should not be capturing after /stop");
    assert!(state.should_close_connection(), "Should be closing after /stop");
}

#[test]
fn runner_reports_redundant_and_unknown_requests() {
    let mut state = RunnerState::new();
    assert_eq!(
        state.handle_event(&RunnerEvent::Received(b"GET /stop".to_vec())),
        RunnerAction::StopCapture { was_capturing: false }
    );
    assert!(state.should_close);

    let mut state = RunnerState::new();
    state.handle_event(&RunnerEvent::Received(b"GET /start".to_vec()));
    let before = state;
    assert_eq!(state.handle_event(&RunnerEvent::Received(b"GET /start".to_vec())), RunnerAction::SkipStart);
    assert_eq!(state, before);
    assert_eq!(
        state.handle_event(&RunnerEvent::Received(b"GET /other HTTP/1.1\r\n".to_vec())),
        RunnerAction::RejectUnknown { first_line: b"GET /other HTTP/1.1".to_vec() }
    );
    assert_eq!(state, before);
    assert_eq!(state.handle_event(&RunnerEvent::Closed), RunnerAction::Ignore);
    assert_eq!(state.handle_event(&RunnerEvent::ReadFailed), RunnerAction::RejectFailedRead);
    assert_eq!(state, before);
}

// With a threshold of 10, ten messages give exactly one report, on the tenth.
#[test]
fn reports_are_written_once_per_threshold() {
    let decisions: Vec<bool> = (0..10).map(|c| should_generate_report(c, DEFAULT_ITERATIONS_THRESHOLD)).collect();
    assert_eq!(decisions.iter().filter(|d| **d).count(), 1);
    assert!(decisions[9]);
    assert!(!decisions[..9].iter().any(|d| *d));
    let in_25 = (0..25).filter(|c| should_generate_report(*c, 10)).count();
    assert_eq!(in_25, 2);
    assert!(should_generate_report(0, 1));
}
