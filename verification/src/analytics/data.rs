//! The decisions of the two receivers: which request came in, how the runner's capture
//! state moves, what is answered, and when the server writes its reports.
use vstd::prelude::*;

use crate::text::{ascii_bytes, ascii_bytes_of, bytes_start_with, starts_with_bytes};

verus! {

/// The request line that starts a capture.
pub open spec fn start_signal() -> Seq<u8> {
    ascii_bytes("GET /start"@)
}

/// The request line that stops a capture.
pub open spec fn stop_signal() -> Seq<u8> {
    ascii_bytes("GET /stop"@)
}

/// What a request asks of the runner.
#[derive(PartialEq, Eq, Structural, Clone, Copy, Debug)]
pub enum Request {
    Start,
    Stop,
    Unknown,
}

/// The request that a buffer received from a client holds.
pub open spec fn classify(buf: Seq<u8>) -> Request {
    if starts_with_bytes(buf, start_signal()) {
        Request::Start
    } else if starts_with_bytes(buf, stop_signal()) {
        Request::Stop
    } else {
        Request::Unknown
    }
}

/// Tells which request a buffer received from a client holds.
pub fn classify_request(buf: &[u8]) -> (r: Request)
    ensures
        r == classify(buf@),
{
    proof {
        reveal_strlit("GET /start");
        reveal_strlit("GET /stop");
    }
    let start = ascii_bytes_of("GET /start");
    if bytes_start_with(buf, &start) {
        return Request::Start;
    }
    let stop = ascii_bytes_of("GET /stop");
    if bytes_start_with(buf, &stop) {
        return Request::Stop;
    }
    Request::Unknown
}

/// Whether a carriage return and a line feed stand at `i` and `i + 1`.
pub open spec fn crlf_at(buf: Seq<u8>, i: int) -> bool {
    0 <= i && i + 1 < buf.len() && buf[i] == 13 && buf[i + 1] == 10
}

/// `line` is what precedes the first line break of `buf`, or is empty if there is none.
pub open spec fn is_first_line(buf: Seq<u8>, line: Seq<u8>) -> bool {
    if exists|i: int| crlf_at(buf, i) {
        exists|i: int|
            crlf_at(buf, i) && (forall|j: int| 0 <= j < i ==> !crlf_at(buf, j)) && line == buf.take(i)
    } else {
        line.len() == 0
    }
}

/// The bytes before the first `\r\n` of `buf`, or nothing when it holds none.
pub fn first_line(buf: &[u8]) -> (r: Vec<u8>)
    ensures
        is_first_line(buf@, r@),
{
    let mut i: usize = 0;
    while i < buf.len()
        invariant
            i <= buf@.len(),
            forall|j: int| 0 <= j < i ==> !crlf_at(buf@, j),
        decreases buf@.len() - i,
    {
        if i + 1 < buf.len() && buf[i] == 13 && buf[i + 1] == 10 {
            let mut r: Vec<u8> = Vec::new();
            let mut k: usize = 0;
            while k < i
                invariant
                    k <= i,
                    i + 1 < buf@.len(),
                    r@ == buf@.take(k as int),
                decreases i - k,
            {
                r.push(buf[k]);
                k = k + 1;
                assert(r@ =~= buf@.take(k as int));
            }
            assert(crlf_at(buf@, i as int));
            return r;
        }
        i = i + 1;
    }
    assert forall|j: int| !crlf_at(buf@, j) by {
        if 0 <= j < i {
        }
    }
    Vec::new()
}

/// The two answers a client can get.
#[derive(PartialEq, Eq, Structural, Clone, Copy, Debug)]
pub enum Response {
    Success,
    BadRequest,
}

/// The bytes sent for each answer.
pub open spec fn response_text(r: Response) -> Seq<char> {
    match r {
        Response::Success => "HTTP/1.1 200 OK\nContent-Length: 0"@,
        Response::BadRequest => "HTTP/1.1 404 Bad Request\nContent-Length: 0"@,
    }
}

/// The bytes sent to a client for the answer `r`.
pub fn response_bytes(r: Response) -> (b: Vec<u8>)
    ensures
        b@ == ascii_bytes(response_text(r)),
{
    proof {
        reveal_strlit("HTTP/1.1 200 OK\nContent-Length: 0");
        reveal_strlit("HTTP/1.1 404 Bad Request\nContent-Length: 0");
    }
    match r {
        Response::Success => ascii_bytes_of("HTTP/1.1 200 OK\nContent-Length: 0"),
        Response::BadRequest => ascii_bytes_of("HTTP/1.1 404 Bad Request\nContent-Length: 0"),
    }
}


/// The capture state of a runner: whether a capture is in progress and whether the runner
/// should stop listening.
#[derive(PartialEq, Eq, Structural, Clone, Copy, Debug)]
pub struct RunnerState {
    pub capturing: bool,
    pub should_close: bool,
}

/// What happened on a runner's connection.
pub enum RunnerEvent {
    /// The client closed the connection without sending anything.
    Closed,
    /// The client sent these bytes.
    Received(Vec<u8>),
    /// Reading from the client failed.
    ReadFailed,
}

/// What the runner does in answer to an event.
#[derive(PartialEq, Eq, Debug)]
pub enum RunnerAction {
    /// Nothing to do.
    Ignore,
    /// Take the first system snapshot and answer [`Response::Success`].
    StartCapture,
    /// A capture is already in progress: report the request as redundant, keep the first
    /// snapshot as it is, and answer [`Response::Success`].
    SkipStart,
    /// Take the final snapshot, compute the difference and answer [`Response::Success`];
    /// `was_capturing` is false when no capture had been started.
    StopCapture { was_capturing: bool },
    /// Answer [`Response::BadRequest`] to a request holding this first line.
    RejectUnknown { first_line: Vec<u8> },
    /// Answer [`Response::BadRequest`] and fail the connection.
    RejectFailedRead,
}

/// The state that follows a request.
pub open spec fn next_state(s: RunnerState, req: Request) -> RunnerState {
    match req {
        Request::Start => RunnerState { capturing: true, should_close: s.should_close },
        Request::Stop => RunnerState { capturing: false, should_close: true },
        Request::Unknown => s,
    }
}

impl RunnerState {
    /// A runner that has not started capturing.
    pub fn new() -> (r: RunnerState)
        ensures
            !r.capturing,
            !r.should_close,
    {
        RunnerState { capturing: false, should_close: false }
    }

    /// Whether the runner should stop listening for connections.
    pub fn should_close_connection(&self) -> (r: bool)
        ensures
            r == self.should_close,
    {
        self.should_close
    }

    /// Moves the state on an event and tells what to do.
    /// This is executed once per connection: the connection is closed when it returns.
    pub fn handle_event(&mut self, event: &RunnerEvent) -> (a: RunnerAction)
        ensures
            match event {
                RunnerEvent::Closed => *final(self) == *old(self) && a == RunnerAction::Ignore,
                RunnerEvent::ReadFailed => *final(self) == *old(self) && a
                    == RunnerAction::RejectFailedRead,
                RunnerEvent::Received(buf) => {
                    &&& *final(self) == next_state(*old(self), classify(buf@))
                    &&& match classify(buf@) {
                        Request::Start => a == if old(self).capturing {
                            RunnerAction::SkipStart
                        } else {
                            RunnerAction::StartCapture
                        },
                        Request::Stop => a == RunnerAction::StopCapture {
                            was_capturing: old(self).capturing,
                        },
                        Request::Unknown => a matches RunnerAction::RejectUnknown { first_line }
                            && is_first_line(buf@, first_line@),
                    }
                },
            },
    {
        match event {
            RunnerEvent::Closed => RunnerAction::Ignore,
            RunnerEvent::ReadFailed => RunnerAction::RejectFailedRead,
            RunnerEvent::Received(buf) => {
                match classify_request(buf.as_slice()) {
                    Request::Start => {
                        if self.capturing {
                            RunnerAction::SkipStart
                        } else {
                            self.capturing = true;
                            RunnerAction::StartCapture
                        }
                    },
                    Request::Stop => {
                        let was = self.capturing;
                        self.capturing = false;
                        self.should_close = true;
                        RunnerAction::StopCapture { was_capturing: was }
                    },
                    Request::Unknown => RunnerAction::RejectUnknown {
                        first_line: first_line(buf.as_slice()),
                    },
                }
            },
        }
    }
}

/// A request is a stop exactly when its bytes begin with `GET /stop` (whatever follows), and a
/// start exactly when they begin with `GET /start`.
pub proof fn lemma_classify_by_prefix(buf: Seq<u8>)
    ensures
        (buf.len() >= 9 && buf.take(9) == seq![71u8, 69, 84, 32, 47, 115, 116, 111, 112])
            <==> classify(buf) == Request::Stop,
        (buf.len() >= 10 && buf.take(10) == seq![71u8, 69, 84, 32, 47, 115, 116, 97, 114, 116])
            <==> classify(buf) == Request::Start,
        classify(buf) == Request::Unknown <==> !(buf.len() >= 9 && buf.take(9) == seq![
            71u8,
            69,
            84,
            32,
            47,
            115,
            116,
            111,
            112,
        ]) && !(buf.len() >= 10 && buf.take(10) == seq![71u8, 69, 84, 32, 47, 115, 116, 97, 114, 116]),
{
    reveal_strlit("GET /stop");
    reveal_strlit("GET /start");
    let stop = seq![71u8, 69, 84, 32, 47, 115, 116, 111, 112];
    let start = seq![71u8, 69, 84, 32, 47, 115, 116, 97, 114, 116];
    assert(stop_signal() =~= stop);
    assert(start_signal() =~= start);
    if buf.len() >= 10 && buf.take(10) == start {
        assert(buf.take(9)[7] == 97);
        assert(buf.take(9) != stop);
    }
    if buf.len() >= 9 && buf.take(9) == stop {
        assert(buf[7] == 111);
        if buf.len() >= 10 {
            assert(buf.take(10)[7] == 111);
            assert(buf.take(10) != start);
        }
    }
}

/// An unknown request changes nothing, whatever the state; only a stop request makes a runner
/// close, and only a start request makes it capture.
pub proof fn lemma_unknown_changes_nothing(s: RunnerState, req: Request)
    ensures
        next_state(s, Request::Unknown) == s,
        next_state(s, req).should_close ==> s.should_close || req == Request::Stop,
        next_state(s, req).capturing ==> s.capturing || req == Request::Start,
{
}

/// A runner closes after a stop request, whatever state it was in.
pub proof fn lemma_stop_closes(s: RunnerState)
    ensures
        next_state(s, Request::Stop).should_close,
        !next_state(s, Request::Stop).capturing,
{
}

/// A start request never makes a runner close, and leaves it capturing; while a capture is in
/// progress it changes nothing.
pub proof fn lemma_start_keeps_open(s: RunnerState)
    ensures
        next_state(s, Request::Start).capturing,
        next_state(s, Request::Start).should_close == s.should_close,
        s.capturing ==> next_state(s, Request::Start) == s,
{
}

/// From a fresh runner, a start request followed by a stop request ends the capture and
/// closes the runner; any unknown requests in between change nothing.
pub proof fn lemma_start_then_stop(n: nat)
    ensures
        ({
            let fresh = RunnerState { capturing: false, should_close: false };
            let started = next_state(fresh, Request::Start);
            let waited = unknown_requests(started, n);
            &&& started.capturing && !started.should_close
            &&& waited == started
            &&& !next_state(waited, Request::Stop).capturing
            &&& next_state(waited, Request::Stop).should_close
        }),
    decreases n,
{
    if n > 0 {
        lemma_start_then_stop((n - 1) as nat);
    }
}

/// The state after `n` unknown requests.
pub open spec fn unknown_requests(s: RunnerState, n: nat) -> RunnerState
    decreases n,
{
    if n == 0 {
        s
    } else {
        next_state(unknown_requests(s, (n - 1) as nat), Request::Unknown)
    }
}

/// How many messages the server takes between two writes of its reports.
pub const DEFAULT_ITERATIONS_THRESHOLD: usize = 10;

/// Whether the message counted `counter` (counting from zero) completes a group of
/// `threshold` messages.
pub open spec fn is_report_turn(counter: nat, threshold: nat) -> bool {
    (counter + 1) % threshold == 0
}

/// Whether the server writes its reports after processing the message counted `counter`.
pub fn should_generate_report(counter: usize, iterations_threshold: usize) -> (r: bool)
    requires
        iterations_threshold > 0,
        counter < usize::MAX,
    ensures
        r == is_report_turn(counter as nat, iterations_threshold as nat),
{
    (counter + 1) % iterations_threshold == 0
}

/// The number of report writes among the messages counted `0 .. n`.
pub open spec fn reports_in_first(n: nat, threshold: nat) -> nat
    decreases n,
{
    if n == 0 {
        0
    } else {
        reports_in_first((n - 1) as nat, threshold) + if is_report_turn((n - 1) as nat, threshold) {
            1nat
        } else {
            0nat
        }
    }
}

/// Over the first `n` messages, the reports are written `n / threshold` times: once per full
/// group of `threshold` messages, and never early.
pub proof fn lemma_reports_in_first(n: nat, threshold: nat)
    requires
        threshold > 0,
    ensures
        reports_in_first(n, threshold) == n / threshold,
    decreases n,
{
    if n > 0 {
        lemma_reports_in_first((n - 1) as nat, threshold);
        let m = (n - 1) as int;
        let t = threshold as int;
        let q = m / t;
        let r = m % t;
        vstd::arithmetic::div_mod::lemma_fundamental_div_mod(m, t);
        assert(0 <= r < t);
        if r + 1 < t {
            assert(m + 1 == q * t + (r + 1));
            vstd::arithmetic::div_mod::lemma_fundamental_div_mod_converse_div(m + 1, t, q, r + 1);
            vstd::arithmetic::div_mod::lemma_fundamental_div_mod_converse_mod(m + 1, t, q, r + 1);
        } else {
            assert(m + 1 == (q + 1) * t + 0) by (nonlinear_arith)
                requires
                    m == t * q + r,
                    r + 1 == t,
            ;
            vstd::arithmetic::div_mod::lemma_fundamental_div_mod_converse_div(m + 1, t, q + 1, 0);
            vstd::arithmetic::div_mod::lemma_fundamental_div_mod_converse_mod(m + 1, t, q + 1, 0);
        }
    }
}

} // verus!
