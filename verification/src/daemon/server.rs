//! The decisions of the daemon's connection server: what becomes of a
//! request line before and after the router did its work. Sockets, the
//! reading of lines and the race against the clock are the program's part.

use crate::daemon::protocol::{
    DaemonRequest, DaemonResponse, DaemonResponseView, ErrorCode, ErrorResponse, PredictRequest,
    PredictRequestView, PredictResponse, RequestBody, ResponseBody, ResponseBodyView,
};
use crate::text::{blank, decimal, decimal_string, is_blank};
use vstd::prelude::*;
use vstd::string::StringExecFns;

verus! {

/// The time that a prediction may take: the greater of the server's limit
/// and the request's budget, and at least one millisecond.
pub open spec fn timeout_for(server_timeout_ms: u64, latency_budget_ms: u64) -> u64 {
    let longer = if server_timeout_ms >= latency_budget_ms {
        server_timeout_ms
    } else {
        latency_budget_ms
    };
    if longer >= 1 {
        longer
    } else {
        1
    }
}

/// The message of the error that reports a prediction that took too long.
pub open spec fn timeout_message(timeout_ms: u64) -> Seq<char> {
    "prediction exceeded "@ + decimal(timeout_ms as nat) + "ms"@
}

/// The message of the error that reports a line that is no request.
pub open spec fn invalid_message(detail: Seq<char>) -> Seq<char> {
    "invalid JSON payload: "@ + detail
}

/// The time that a prediction may take.
pub fn effective_timeout_ms(server_timeout_ms: u64, latency_budget_ms: u64) -> (t: u64)
    ensures
        t == timeout_for(server_timeout_ms, latency_budget_ms),
        t >= 1,
        t >= server_timeout_ms,
        t >= latency_budget_ms,
{
    let longer = if server_timeout_ms >= latency_budget_ms {
        server_timeout_ms
    } else {
        latency_budget_ms
    };
    if longer >= 1 {
        longer
    } else {
        1
    }
}

/// What the server does with a request.
#[derive(Debug)]
pub enum RequestPlan {
    /// The response is known.
    Reply(DaemonResponse),
    /// The router has to predict, within `timeout_ms` milliseconds.
    Predict { id: String, request: PredictRequest, timeout_ms: u64 },
}

/// The view of a [`RequestPlan`].
pub enum RequestPlanView {
    Reply(DaemonResponseView),
    Predict { id: Seq<char>, request: PredictRequestView, timeout_ms: u64 },
}

impl View for RequestPlan {
    type V = RequestPlanView;

    open spec fn view(&self) -> RequestPlanView {
        match self {
            RequestPlan::Reply(r) => RequestPlanView::Reply(r@),
            RequestPlan::Predict { id, request, timeout_ms } => RequestPlanView::Predict {
                id: id@,
                request: request@,
                timeout_ms: *timeout_ms,
            },
        }
    }
}

/// The response to a line that could not be read as a request: an error
/// without an id.
pub fn invalid_request(detail: &str) -> (r: DaemonResponse)
    ensures
        r@ == (DaemonResponseView {
            id: Seq::<char>::empty(),
            body: ResponseBodyView::Error {
                code: ErrorCode::InvalidRequest,
                message: invalid_message(detail@),
            },
        }),
{
    let mut message = "invalid JSON payload: ".to_owned();
    message.append(detail);
    DaemonResponse {
        id: String::new(),
        body: ResponseBody::Error(ErrorResponse { code: ErrorCode::InvalidRequest, message }),
    }
}

/// Decides what to do with a request: a ping is answered at once with a
/// pong under the same id; a prediction goes to the router with its time
/// limit.
pub fn plan_request(request: DaemonRequest, timeout_ms: u64) -> (plan: RequestPlan)
    ensures
        plan@ == (match request.body {
            RequestBody::Ping => RequestPlanView::Reply(
                DaemonResponseView { id: request.id@, body: ResponseBodyView::Pong },
            ),
            RequestBody::Predict(p) => RequestPlanView::Predict {
                id: request.id@,
                request: p@,
                timeout_ms: timeout_for(timeout_ms, p.latency_budget_ms),
            },
        }),
{
    let id = request.id;
    match request.body {
        RequestBody::Ping => RequestPlan::Reply(DaemonResponse { id, body: ResponseBody::Pong }),
        RequestBody::Predict(predict_request) => {
            let effective = effective_timeout_ms(timeout_ms, predict_request.latency_budget_ms);
            RequestPlan::Predict { id, request: predict_request, timeout_ms: effective }
        },
    }
}

/// Decides what to do with a line that was read: a line that is no request
/// gets an error response, a request is planned.
pub fn plan_line(parsed: Result<DaemonRequest, String>, timeout_ms: u64) -> (plan: RequestPlan)
    ensures
        match parsed {
            Ok(request) => plan@ == (match request.body {
                RequestBody::Ping => RequestPlanView::Reply(
                    DaemonResponseView { id: request.id@, body: ResponseBodyView::Pong },
                ),
                RequestBody::Predict(p) => RequestPlanView::Predict {
                    id: request.id@,
                    request: p@,
                    timeout_ms: timeout_for(timeout_ms, p.latency_budget_ms),
                },
            }),
            Err(detail) => plan@ == RequestPlanView::Reply(
                DaemonResponseView {
                    id: Seq::<char>::empty(),
                    body: ResponseBodyView::Error {
                        code: ErrorCode::InvalidRequest,
                        message: invalid_message(detail@),
                    },
                },
            ),
        },
{
    match parsed {
        Ok(request) => plan_request(request, timeout_ms),
        Err(detail) => RequestPlan::Reply(invalid_request(detail.as_str())),
    }
}

/// The response to a prediction request: the prediction where the router
/// delivered one in time, a timeout error that names the limit where it did
/// not. Either way the response carries the id of the request.
pub fn conclude_request(id: String, outcome: Option<PredictResponse>, timeout_ms: u64) -> (r:
    DaemonResponse)
    ensures
        r@.id == id@,
        r@.body == (match outcome {
            Some(prediction) => ResponseBodyView::Predict(prediction@),
            None => ResponseBodyView::Error {
                code: ErrorCode::Timeout,
                message: timeout_message(timeout_ms),
            },
        }),
{
    match outcome {
        Some(prediction) => DaemonResponse { id, body: ResponseBody::Predict(prediction) },
        None => {
            let mut message = "prediction exceeded ".to_owned();
            message.append(decimal_string(timeout_ms).as_str());
            message.append("ms");
            DaemonResponse {
                id,
                body: ResponseBody::Error(ErrorResponse { code: ErrorCode::Timeout, message }),
            }
        },
    }
}

/// The lines that ask for a response: those that are not blank, in the
/// order in which they came.
pub open spec fn request_lines(lines: Seq<Seq<char>>) -> Seq<Seq<char>>
    decreases lines.len(),
{
    if lines.len() == 0 {
        Seq::<Seq<char>>::empty()
    } else if blank(lines.last()) {
        request_lines(lines.drop_last())
    } else {
        request_lines(lines.drop_last()).push(lines.last())
    }
}

/// What stands on the wire after the payloads were written in order: each
/// payload, ended by a line feed.
pub open spec fn wire(payloads: Seq<Seq<char>>) -> Seq<char>
    decreases payloads.len(),
{
    if payloads.len() == 0 {
        Seq::<char>::empty()
    } else {
        wire(payloads.drop_last()) + payloads.last() + seq!['\n']
    }
}

/// One connection between two requests: every request line that was read
/// has its response.
pub struct Connection {
    lines: Ghost<Seq<Seq<char>>>,
    payloads: Ghost<Seq<Seq<char>>>,
}

/// One connection while a request awaits its response. The next line can
/// only be read once the response was written.
pub struct PendingRequest {
    lines: Ghost<Seq<Seq<char>>>,
    payloads: Ghost<Seq<Seq<char>>>,
}

/// What becomes of a line that was read.
pub enum LineStep {
    /// The line is blank and is passed over.
    Skip(Connection),
    /// The line is a request and has to be answered.
    Answer(PendingRequest),
}

impl Connection {
    /// There are as many responses as request lines.
    #[verifier::type_invariant]
    pub closed spec fn wf(self) -> bool {
        self.payloads@.len() == request_lines(self.lines@).len()
    }

    /// The lines that were read, in order.
    pub closed spec fn lines(self) -> Seq<Seq<char>> {
        self.lines@
    }

    /// The payloads of the responses that were written, in order.
    pub closed spec fn payloads(self) -> Seq<Seq<char>> {
        self.payloads@
    }

    /// Between two requests there is one response for each line that is not
    /// blank: the responses are as many as the request lines, so the
    /// response at a position answers the request line at that position.
    pub proof fn lemma_one_response_per_request(self)
        requires
            self.wf(),
        ensures
            self.payloads().len() == request_lines(self.lines()).len(),
    {
    }

    /// A connection on which nothing was read or written.
    pub fn new() -> (c: Connection)
        ensures
            c.wf(),
            c.lines() == Seq::<Seq<char>>::empty(),
            c.payloads() == Seq::<Seq<char>>::empty(),
    {
        Connection { lines: Ghost(Seq::empty()), payloads: Ghost(Seq::empty()) }
    }

    /// Takes the next line that was read: a blank line is passed over, any
    /// other line is a request that awaits its response.
    pub fn take_line(self, line: &str) -> (step: LineStep)
        ensures
            match step {
                LineStep::Skip(c) => {
                    &&& blank(line@)
                    &&& c.wf()
                    &&& c.lines() == self.lines().push(line@)
                    &&& c.payloads() == self.payloads()
                    &&& request_lines(c.lines()) == request_lines(self.lines())
                },
                LineStep::Answer(p) => {
                    &&& !blank(line@)
                    &&& p.wf()
                    &&& p.lines() == self.lines().push(line@)
                    &&& p.payloads() == self.payloads()
                    &&& request_lines(p.lines()) == request_lines(self.lines()).push(line@)
                },
            },
    {
        proof {
            use_type_invariant(&self);
            assert(self.lines@.push(line@).drop_last() =~= self.lines@);
        }
        if is_blank(line) {
            LineStep::Skip(
                Connection { lines: Ghost(self.lines@.push(line@)), payloads: self.payloads },
            )
        } else {
            LineStep::Answer(
                PendingRequest { lines: Ghost(self.lines@.push(line@)), payloads: self.payloads },
            )
        }
    }
}

impl PendingRequest {
    /// The last line is a request, and it is the only one without a response.
    #[verifier::type_invariant]
    pub closed spec fn wf(self) -> bool {
        &&& self.lines@.len() > 0
        &&& !blank(self.lines@.last())
        &&& self.payloads@.len() + 1 == request_lines(self.lines@).len()
    }

    /// The lines that were read, in order; the last is the request that
    /// awaits its response.
    pub closed spec fn lines(self) -> Seq<Seq<char>> {
        self.lines@
    }

    /// The payloads of the responses that were written, in order.
    pub closed spec fn payloads(self) -> Seq<Seq<char>> {
        self.payloads@
    }

    /// Writes the response to the request that awaits it: the payload goes
    /// on the wire, ended by a line feed. It is the response of the same
    /// position as the request among the request lines, and after it every
    /// request line has its response.
    pub fn respond(self, payload: &str) -> (r: (Connection, String))
        ensures
            r.1@ == payload@ + seq!['\n'],
            r.0.wf(),
            r.0.lines() == self.lines(),
            r.0.payloads() == self.payloads().push(payload@),
            self.lines().len() > 0,
            self.payloads().len() + 1 == request_lines(self.lines()).len(),
            request_lines(self.lines())[self.payloads().len() as int] == self.lines().last(),
            wire(r.0.payloads()) == wire(self.payloads()) + r.1@,
    {
        proof {
            use_type_invariant(&self);
            assert(self.payloads@.push(payload@).drop_last() =~= self.payloads@);
            assert(wire(self.payloads@) + payload@ + seq!['\n'] =~= wire(self.payloads@) + (payload@
                + seq!['\n']));
        }
        let framed = frame_response(payload);
        (Connection { lines: self.lines, payloads: Ghost(self.payloads@.push(payload@)) }, framed)
    }
}

/// A response as it goes on the wire: its encoding, ended by a line feed.
pub fn frame_response(payload: &str) -> (line: String)
    ensures
        line@ == payload@ + seq!['\n'],
{
    let mut line = payload.to_owned();
    line.push('\n');
    assert(payload@.push('\n') =~= payload@ + seq!['\n']);
    line
}

} // verus!
