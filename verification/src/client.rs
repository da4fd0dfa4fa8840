//! The client's request engine: sends a batch of requests over one
//! connection, follows each response, counts the requests that complete and
//! closes the connection with the last one.

use crate::h3::{
    duplicate_headers, header_views, outcome, setup_h3, Cause, Event, Failure, Header, HeaderView,
    TransportError,
};
use crate::transport::{
    close, elapsed_nanos, is_timed_out, local_error, local_error_on, peer_error, peer_error_on,
    poll, recv_body, send_request, timed_out, to_error,
};
use crate::metrics::{all_timed, total_results, totals_of, Totals};
use crate::{H3_NO_ERROR, ROUNDS};
use vstd::prelude::*;

verus! {

/// What a request is, for the purposes of contracts.
pub struct PartialRequestView {
    pub hdrs: Seq<HeaderView>,
    pub stream_id: Option<u64>,
    pub received_header_instant: Option<u64>,
    pub received_body_instant: Option<u64>,
    pub received_body_bytes: nat,
}

/// One request of a batch, with what has been observed of its response.
/// Instants are nanoseconds on a monotonic clock of the caller's choosing.
#[derive(Debug, PartialEq, Eq)]
pub struct PartialRequest {
    /// The header list to send.
    pub hdrs: Vec<Header>,
    /// The stream the request went out on; `None` until the transport has
    /// accepted it.
    pub stream_id: Option<u64>,
    /// When the response headers arrived.
    pub received_header_instant: Option<u64>,
    /// When the response body was complete.
    pub received_body_instant: Option<u64>,
    /// How many body bytes have been read so far.
    pub received_body_bytes: usize,
}

impl View for PartialRequest {
    type V = PartialRequestView;

    open spec fn view(&self) -> PartialRequestView {
        PartialRequestView {
            hdrs: header_views(self.hdrs@),
            stream_id: self.stream_id,
            received_header_instant: self.received_header_instant,
            received_body_instant: self.received_body_instant,
            received_body_bytes: self.received_body_bytes as nat,
        }
    }
}

/// A request that has not been sent yet.
pub open spec fn fresh_request(hdrs: Seq<HeaderView>) -> PartialRequestView {
    PartialRequestView {
        hdrs,
        stream_id: None,
        received_header_instant: None,
        received_body_instant: None,
        received_body_bytes: 0,
    }
}

impl PartialRequest {
    /// A request with a copy of `hdrs`, not yet sent.
    pub fn new(hdrs: &[Header]) -> (r: PartialRequest)
        ensures
            r@ == fresh_request(header_views(hdrs@)),
    {
        PartialRequest {
            hdrs: duplicate_headers(hdrs),
            stream_id: None,
            received_header_instant: None,
            received_body_instant: None,
            received_body_bytes: 0,
        }
    }
}

/// The views of a list of requests, in order.
pub open spec fn request_views(reqs: Seq<PartialRequest>) -> Seq<PartialRequestView> {
    reqs.map_values(|r: PartialRequest| r@)
}

/// How many of `reqs` have received their whole body.
pub open spec fn finished_count(reqs: Seq<PartialRequestView>) -> nat
    decreases reqs.len(),
{
    if reqs.len() == 0 {
        0
    } else {
        finished_count(reqs.drop_last()) + if reqs.last().received_body_instant is Some {
            1nat
        } else {
            0nat
        }
    }
}

/// A list never holds more finished requests than requests.
pub proof fn lemma_finished_count_bound(reqs: Seq<PartialRequestView>)
    ensures
        finished_count(reqs) <= reqs.len(),
    decreases reqs.len(),
{
    if reqs.len() > 0 {
        lemma_finished_count_bound(reqs.drop_last());
    }
}

/// Replacing one request changes the count by what that request contributes.
pub proof fn lemma_finished_count_update(
    reqs: Seq<PartialRequestView>,
    i: int,
    r: PartialRequestView,
)
    requires
        0 <= i < reqs.len(),
    ensures
        finished_count(reqs.update(i, r)) + (if reqs[i].received_body_instant is Some {
            1nat
        } else {
            0nat
        }) == finished_count(reqs) + (if r.received_body_instant is Some {
            1nat
        } else {
            0nat
        }),
    decreases reqs.len(),
{
    let upd = reqs.update(i, r);
    if i == reqs.len() - 1 {
        assert(upd.drop_last() =~= reqs.drop_last());
    } else {
        assert(upd.drop_last() =~= reqs.drop_last().update(i, r));
        lemma_finished_count_update(reqs.drop_last(), i, r);
    }
}

/// Every request is finished exactly when the count equals the length.
pub proof fn lemma_finished_count_full(reqs: Seq<PartialRequestView>)
    ensures
        finished_count(reqs) == reqs.len() <==> forall|i: int|
            0 <= i < reqs.len() ==> (#[trigger] reqs[i]).received_body_instant is Some,
    decreases reqs.len(),
{
    if reqs.len() > 0 {
        let front = reqs.drop_last();
        lemma_finished_count_full(front);
        lemma_finished_count_bound(front);
        if finished_count(reqs) == reqs.len() {
            assert forall|i: int| 0 <= i < reqs.len() implies (#[trigger] reqs[i]).received_body_instant is Some by {
                if i < reqs.len() - 1 {
                    assert(front[i] == reqs[i]);
                }
            }
        }
        if forall|i: int| 0 <= i < reqs.len() ==> (#[trigger] reqs[i]).received_body_instant is Some {
            assert forall|i: int| 0 <= i < front.len() implies (#[trigger] front[i]).received_body_instant is Some by {
                assert(front[i] == reqs[i]);
            }
            assert(reqs.last() == reqs[reqs.len() - 1]);
        }
    }
}

/// State shared by every connection of a client endpoint.
#[derive(Debug, Clone, Copy, PartialEq, Eq, Structural)]
pub struct AppData {
    /// Which connection of the endpoint carries the batch.
    pub conn_id: usize,
    /// Whether a connection is forgotten as soon as its batch is complete,
    /// without waiting for the close handshake.
    pub silent_close: bool,
    /// How many requests have completed on the endpoint.
    pub reqs_complete: usize,
}

impl AppData {
    /// The state of an endpoint on which nothing has completed yet.
    pub fn new(conn_id: usize, silent_close: bool) -> (a: AppData)
        ensures
            a == (AppData { conn_id, silent_close, reqs_complete: 0 }),
    {
        AppData { conn_id, silent_close, reqs_complete: 0 }
    }

    /// Whether the connection is to be dropped from the endpoint right away:
    /// only once its batch has closed it, and only where silent close was
    /// asked for.
    pub fn forget_connection(&self, closed: bool) -> (forget: bool)
        ensures
            forget == (closed && self.silent_close),
    {
        closed && self.silent_close
    }
}

/// Why the engine gave up on a connection.
#[derive(Debug, Clone, Copy, PartialEq, Eq, Structural)]
pub enum EngineError {
    /// The transport failed in a way the engine does not recover from.
    Transport,
    /// An event arrived that a plain GET never causes: a reset, a priority
    /// update or a go-away.
    UnexpectedEvent,
    /// An event names a stream on which no request went out.
    UnknownStream,
    /// A stream finished before any response headers arrived on it.
    MissingHeaders,
    /// A stream finished twice.
    AlreadyFinished,
    /// A counter would pass the largest value it can hold.
    CounterOverflow,
}

/// What the caller does after the engine has handled one poll result.
#[derive(Debug, Clone, Copy, PartialEq, Eq, Structural)]
pub enum Step {
    /// Poll for the next event.
    Continue,
    /// Body data is waiting on the stream: read it chunk by chunk, report
    /// each read with `record_body`, then poll again.
    ReadBody { stream_id: u64 },
    /// The last request has completed: take the totals of the batch, then
    /// close the connection with this error code, as the application's or
    /// the transport's, and stop polling.
    Close { app: bool, error_code: u64 },
    /// No event is pending; the pass is over.
    Done,
}

/// What a connection's request state is, for the purposes of contracts.
pub struct ConnView {
    /// The requests of the batch, in the order in which they are sent.
    pub reqs: Seq<PartialRequestView>,
    /// How many of them have been sent.
    pub hdrs_sent: nat,
    /// How many of them have completed.
    pub complete: nat,
}

impl ConnView {
    /// What holds of every connection state: exactly the first `hdrs_sent`
    /// requests have a stream, a finished request has seen its headers, and
    /// `complete` counts the finished requests.
    pub open spec fn wf(self) -> bool {
        &&& self.hdrs_sent <= self.reqs.len()
        &&& forall|i: int|
            0 <= i < self.reqs.len() ==> ((#[trigger] self.reqs[i]).stream_id is Some <==> i
                < self.hdrs_sent)
        &&& forall|i: int|
            0 <= i < self.reqs.len() && (#[trigger] self.reqs[i]).received_body_instant is Some
                ==> self.reqs[i].received_header_instant is Some
        &&& self.complete == finished_count(self.reqs)
    }
}

/// Whether `i` is the first request that went out on `stream_id`.
pub open spec fn serves(reqs: Seq<PartialRequestView>, i: int, stream_id: u64) -> bool {
    &&& 0 <= i < reqs.len()
    &&& reqs[i].stream_id == Some(stream_id)
    &&& forall|j: int| 0 <= j < i ==> (#[trigger] reqs[j]).stream_id != Some(stream_id)
}

/// The request that events on `stream_id` belong to, if there is one.
pub open spec fn request_of(reqs: Seq<PartialRequestView>, stream_id: u64) -> Option<int> {
    if exists|i: int| serves(reqs, i, stream_id) {
        Some(choose|i: int| serves(reqs, i, stream_id))
    } else {
        None
    }
}

/// At most one request serves a stream.
pub proof fn lemma_serves_unique(reqs: Seq<PartialRequestView>, i: int, stream_id: u64)
    requires
        serves(reqs, i, stream_id),
    ensures
        request_of(reqs, stream_id) == Some(i),
{
    let k = choose|k: int| serves(reqs, k, stream_id);
    if k < i {
        assert(reqs[k].stream_id != Some(stream_id));
    }
    if i < k {
        assert(reqs[i].stream_id != Some(stream_id));
    }
}

/// The headers of the next request to send, if any is left.
pub open spec fn pending(s: ConnView) -> Option<Seq<HeaderView>> {
    if s.hdrs_sent < s.reqs.len() {
        Some(s.reqs[s.hdrs_sent as int].hdrs)
    } else {
        None
    }
}

/// The state after the transport has answered the attempt to send the
/// pending request, and whether to go on sending in this pass. A new stream
/// is recorded on the request; a stream limit leaves everything as it was and
/// ends the pass; with nothing pending, nothing changes.
pub open spec fn sent(s: ConnView, result: Result<u64, TransportError>) -> Result<
    (ConnView, bool),
    EngineError,
> {
    if s.hdrs_sent >= s.reqs.len() {
        Ok((s, false))
    } else {
        match result {
            Ok(stream_id) => {
                let i = s.hdrs_sent as int;
                let req = PartialRequestView { stream_id: Some(stream_id), ..s.reqs[i] };
                Ok((ConnView { reqs: s.reqs.update(i, req), hdrs_sent: s.hdrs_sent + 1, ..s }, true))
            },
            Err(TransportError::StreamLimit) => Ok((s, false)),
            Err(_) => Err(EngineError::Transport),
        }
    }
}

/// The state after one attempt to read body data from `stream_id`, and
/// whether to read again. Bytes that were read are added to the request's
/// count; `Done` ends the reading and changes nothing.
pub open spec fn body_read(s: ConnView, stream_id: u64, result: Result<usize, TransportError>)
    -> Result<(ConnView, bool), EngineError> {
    match result {
        Err(TransportError::Done) => Ok((s, false)),
        Err(_) => Err(EngineError::Transport),
        Ok(read) => match request_of(s.reqs, stream_id) {
            None => Err(EngineError::UnknownStream),
            Some(i) => if s.reqs[i].received_body_bytes + read > usize::MAX {
                Err(EngineError::CounterOverflow)
            } else {
                let req = PartialRequestView {
                    received_body_bytes: s.reqs[i].received_body_bytes + read as nat,
                    ..s.reqs[i]
                };
                Ok((ConnView { reqs: s.reqs.update(i, req), ..s }, true))
            },
        },
    }
}

/// The state, the endpoint's count of completed requests and the next step
/// after one poll result, the clock reading `now`.
///
/// Headers stamp the request with `now`. Data asks for the body to be read.
/// A finished stream stamps the request with `now` and counts it, once; when
/// it was the last one outstanding, the step is to close with
/// `H3_NO_ERROR`. `Done` ends the pass. Everything else is an error, and an
/// error changes nothing.
pub open spec fn handled(
    s: ConnView,
    total: usize,
    polled: Result<(u64, Event), TransportError>,
    now: u64,
) -> Result<(ConnView, usize, Step), EngineError> {
    match polled {
        Err(TransportError::Done) => Ok((s, total, Step::Done)),
        Err(_) => Err(EngineError::Transport),
        Ok((_, Event::Reset(_))) => Err(EngineError::UnexpectedEvent),
        Ok((_, Event::PriorityUpdate)) => Err(EngineError::UnexpectedEvent),
        Ok((_, Event::GoAway)) => Err(EngineError::UnexpectedEvent),
        Ok((stream_id, event)) => match request_of(s.reqs, stream_id) {
            None => Err(EngineError::UnknownStream),
            Some(i) => match event {
                Event::Headers { .. } => {
                    let req = PartialRequestView { received_header_instant: Some(now), ..s.reqs[i] };
                    Ok((ConnView { reqs: s.reqs.update(i, req), ..s }, total, Step::Continue))
                },
                Event::Data => Ok((s, total, Step::ReadBody { stream_id })),
                Event::Finished => if s.reqs[i].received_body_instant is Some {
                    Err(EngineError::AlreadyFinished)
                } else if s.reqs[i].received_header_instant is None {
                    Err(EngineError::MissingHeaders)
                } else if total == usize::MAX {
                    Err(EngineError::CounterOverflow)
                } else {
                    let req = PartialRequestView { received_body_instant: Some(now), ..s.reqs[i] };
                    let complete = s.complete + 1;
                    Ok(
                        (
                            ConnView { reqs: s.reqs.update(i, req), complete, ..s },
                            (total + 1) as usize,
                            if complete == s.reqs.len() {
                                Step::Close { app: true, error_code: H3_NO_ERROR }
                            } else {
                                Step::Continue
                            },
                        ),
                    )
                },
                _ => Err(EngineError::UnexpectedEvent),
            },
        },
    }
}

/// One thing that can happen to the request state of a connection.
pub enum Input {
    /// The transport answered the attempt to send the pending request.
    Sent(Result<u64, TransportError>),
    /// One read of body data from the stream returned.
    Read(u64, Result<usize, TransportError>),
    /// Polling returned, the clock reading as given.
    Polled(Result<(u64, Event), TransportError>, u64),
}

/// The state and the endpoint's count of completed requests after `input`,
/// and whether the engine asked for the connection to be closed. An input
/// that is refused changes nothing.
pub open spec fn after(s: ConnView, total: usize, input: Input) -> (ConnView, usize, bool) {
    match input {
        Input::Sent(result) => match sent(s, result) {
            Ok((conn, _)) => (conn, total, false),
            Err(_) => (s, total, false),
        },
        Input::Read(stream_id, result) => match body_read(s, stream_id, result) {
            Ok((conn, _)) => (conn, total, false),
            Err(_) => (s, total, false),
        },
        Input::Polled(polled, now) => match handled(s, total, polled, now) {
            Ok((conn, count, step)) => (conn, count, step is Close),
            Err(_) => (s, total, false),
        },
    }
}

/// The state and the endpoint's count after `inputs`, one after the other,
/// and how many times the engine asked for the connection to be closed.
pub open spec fn run(s: ConnView, total: usize, inputs: Seq<Input>) -> (ConnView, usize, nat)
    decreases inputs.len(),
{
    if inputs.len() == 0 {
        (s, total, 0)
    } else {
        let (conn, count, closes) = run(s, total, inputs.drop_last());
        let (last, sum, closed) = after(conn, count, inputs.last());
        (last, sum, closes + if closed {
            1nat
        } else {
            0nat
        })
    }
}

/// Whether a pass over the requests to send goes on after `input`: whether
/// it is an answer that puts a request on its way.
pub open spec fn sends_on(s: ConnView, input: Input) -> bool {
    &&& input matches Input::Sent(result)
    &&& sent(s, result) matches Ok((_, go_on))
    &&& go_on
}

/// Whether a pass over the requests to send goes on after each of `inputs`.
pub open spec fn all_send_on(s: ConnView, inputs: Seq<Input>) -> bool
    decreases inputs.len(),
{
    inputs.len() == 0 || (all_send_on(s, inputs.drop_last()) && sends_on(
        run(s, 0, inputs.drop_last()).0,
        inputs.last(),
    ))
}

/// Whether `inputs` and `r` are a pass over the requests to send. With
/// nothing pending nothing is sent and the pass ends well. Otherwise every
/// answer but the last puts a request on its way; the last one ends the pass
/// with its error where it is refused, and well where it is a stream limit
/// or leaves nothing pending.
pub open spec fn send_pass(s: ConnView, inputs: Seq<Input>, r: Result<(), EngineError>) -> bool {
    if inputs.len() == 0 {
        pending(s) is None && r is Ok
    } else {
        &&& all_send_on(s, inputs.drop_last())
        &&& inputs.last() matches Input::Sent(result)
        &&& match sent(run(s, 0, inputs.drop_last()).0, result) {
            Err(e) => r == Err::<(), EngineError>(e),
            Ok((after, go_on)) => r is Ok && (go_on ==> pending(after) is None),
        }
    }
}

/// How many of `inputs` are poll results.
pub open spec fn polled_count(inputs: Seq<Input>) -> nat
    decreases inputs.len(),
{
    if inputs.len() == 0 {
        0
    } else {
        polled_count(inputs.drop_last()) + if inputs.last() is Polled {
            1nat
        } else {
            0nat
        }
    }
}

/// Whether a pass over the responses goes on after `input`: after an event
/// that is handled and neither ends the events nor the batch, and after a
/// read that is recorded.
pub open spec fn responds_on(s: ConnView, total: usize, input: Input) -> bool {
    match input {
        Input::Polled(polled, now) => {
            &&& handled(s, total, polled, now) matches Ok((_, _, step))
            &&& step is Continue || step is ReadBody
        },
        Input::Read(stream_id, result) => body_read(s, stream_id, result) is Ok,
        Input::Sent(_) => false,
    }
}

/// Whether a pass over the responses goes on after each of `inputs`.
pub open spec fn all_respond_on(s: ConnView, total: usize, inputs: Seq<Input>) -> bool
    decreases inputs.len(),
{
    inputs.len() == 0 || (all_respond_on(s, total, inputs.drop_last()) && responds_on(
        run(s, total, inputs.drop_last()).0,
        run(s, total, inputs.drop_last()).1,
        inputs.last(),
    ))
}

/// Whether `r` is how a pass over the responses ends with `last`, the state
/// and the endpoint's count as they were before it. An event or a read that
/// is refused ends the pass with that error. The end of the events ends it
/// without totals. The event that completes the batch ends it with the
/// totals of the batch, or with a transport error where the connection
/// cannot be closed. A pass that has polled `ROUNDS` times (`full`) ends
/// without totals whatever came last.
pub open spec fn responses_end(
    s: ConnView,
    total: usize,
    last: Input,
    full: bool,
    r: Result<Option<Totals>, EngineError>,
) -> bool {
    match last {
        Input::Polled(polled, now) => match handled(s, total, polled, now) {
            Err(e) => r == Err::<Option<Totals>, EngineError>(e),
            Ok((_, _, Step::Done)) => r == Ok::<Option<Totals>, EngineError>(None),
            Ok((after, _, Step::Close { .. })) => r == Ok::<Option<Totals>, EngineError>(
                Some(totals_of(after.reqs)),
            ) || r == Err::<Option<Totals>, EngineError>(EngineError::Transport),
            Ok(_) => full && r == Ok::<Option<Totals>, EngineError>(None),
        },
        Input::Read(stream_id, result) => match body_read(s, stream_id, result) {
            Err(e) => r == Err::<Option<Totals>, EngineError>(e),
            Ok(_) => full && r == Ok::<Option<Totals>, EngineError>(None),
        },
        Input::Sent(_) => false,
    }
}

/// Whether `inputs` and `r` are a pass over the responses: at least one
/// event is polled for, every input but the last lets the pass go on, and
/// the last one ends it with `r`.
pub open spec fn response_pass(
    s: ConnView,
    total: usize,
    inputs: Seq<Input>,
    r: Result<Option<Totals>, EngineError>,
) -> bool {
    &&& inputs.len() >= 1
    &&& polled_count(inputs) <= ROUNDS
    &&& all_respond_on(s, total, inputs.drop_last())
    &&& responses_end(
        run(s, total, inputs.drop_last()).0,
        run(s, total, inputs.drop_last()).1,
        inputs.last(),
        polled_count(inputs) == ROUNDS,
        r,
    )
}

/// Whether `input` is a finished stream that the engine accepts.
pub open spec fn finishes(s: ConnView, total: usize, input: Input) -> bool {
    match input {
        Input::Polled(Ok((stream_id, Event::Finished)), now) => handled(
            s,
            total,
            Ok((stream_id, Event::Finished)),
            now,
        ) is Ok,
        _ => false,
    }
}

/// Completion accounting, one input at a time. Whatever happens to a
/// well-formed state leaves it well-formed with the same number of requests.
/// The count of completed requests never falls, and rises by one exactly
/// when a stream is accepted as finished; the endpoint's count rises with
/// it. The engine asks for the close exactly when the count reaches the
/// number of requests.
pub proof fn lemma_completion_step(s: ConnView, total: usize, input: Input)
    requires
        s.wf(),
    ensures
        ({
            let (conn, count, closed) = after(s, total, input);
            &&& conn.wf()
            &&& conn.reqs.len() == s.reqs.len()
            &&& conn.complete <= conn.reqs.len()
            &&& conn.complete == s.complete || conn.complete == s.complete + 1
            &&& count - total == conn.complete - s.complete
            &&& conn.complete == s.complete + 1 <==> finishes(s, total, input)
            &&& closed <==> conn.complete == s.complete + 1 && conn.complete == conn.reqs.len()
        }),
{
    lemma_finished_count_bound(s.reqs);
    match input {
        Input::Sent(result) => {
            if let Ok((conn, _)) = sent(s, result) {
                if conn != s {
                    let i = s.hdrs_sent as int;
                    lemma_finished_count_update(s.reqs, i, conn.reqs[i]);
                }
            }
        },
        Input::Read(stream_id, result) => {
            if let Ok((conn, _)) = body_read(s, stream_id, result) {
                if conn != s {
                    let i = request_of(s.reqs, stream_id)->0;
                    lemma_finished_count_update(s.reqs, i, conn.reqs[i]);
                }
            }
        },
        Input::Polled(polled, now) => {
            if let Ok((conn, _, _)) = handled(s, total, polled, now) {
                if conn != s {
                    let i = request_of(s.reqs, polled->Ok_0.0)->0;
                    lemma_finished_count_update(s.reqs, i, conn.reqs[i]);
                    lemma_finished_count_bound(conn.reqs);
                }
            }
        },
    }
}

/// Completion accounting over any sequence of inputs. The engine asks for
/// the close at most once: exactly once where the batch was incomplete
/// before and is complete after, and never otherwise. The endpoint's count
/// gains what the connection's count gains.
pub proof fn lemma_close_exactly_once(s: ConnView, total: usize, inputs: Seq<Input>)
    requires
        s.wf(),
    ensures
        ({
            let (last, sum, closes) = run(s, total, inputs);
            &&& last.wf()
            &&& last.reqs.len() == s.reqs.len()
            &&& s.complete <= last.complete <= last.reqs.len()
            &&& sum - total == last.complete - s.complete
            &&& closes <= 1
            &&& closes == 1 <==> s.complete < s.reqs.len() && last.complete == s.reqs.len()
        }),
    decreases inputs.len(),
{
    lemma_finished_count_bound(s.reqs);
    if inputs.len() > 0 {
        lemma_close_exactly_once(s, total, inputs.drop_last());
        let (conn, count, _) = run(s, total, inputs.drop_last());
        lemma_completion_step(conn, count, inputs.last());
    }
}

/// A stream limit changes nothing: the same request is still pending, and
/// whatever answer comes next has the effect it would have had at once.
pub proof fn lemma_stream_limit_retry(s: ConnView, later: Result<u64, TransportError>)
    ensures
        sent(s, Err(TransportError::StreamLimit)) == Ok::<(ConnView, bool), EngineError>(
            (s, false),
        ),
        pending(sent(s, Err(TransportError::StreamLimit))->Ok_0.0) == pending(s),
        sent(sent(s, Err(TransportError::StreamLimit))->Ok_0.0, later) == sent(s, later),
{
}

/// The requests of one connection and how far the batch has come.
pub struct ConnAppData {
    reqs: Vec<PartialRequest>,
    reqs_hdrs_sent: usize,
    reqs_complete: usize,
}

impl View for ConnAppData {
    type V = ConnView;

    closed spec fn view(&self) -> ConnView {
        ConnView {
            reqs: request_views(self.reqs@),
            hdrs_sent: self.reqs_hdrs_sent as nat,
            complete: self.reqs_complete as nat,
        }
    }
}

impl ConnAppData {
    #[verifier::type_invariant]
    spec fn inv(&self) -> bool {
        self@.wf()
    }

    /// A batch of `streams` requests that all carry a copy of `hdrs`, none
    /// of them sent.
    pub fn new(hdrs: &[Header], streams: usize) -> (c: ConnAppData)
        ensures
            c@.reqs == Seq::new(streams as nat, |i: int| fresh_request(header_views(hdrs@))),
            c@.hdrs_sent == 0,
            c@.complete == 0,
            c@.wf(),
    {
        let mut reqs: Vec<PartialRequest> = Vec::new();
        let mut i: usize = 0;
        while i < streams
            invariant
                i <= streams,
                reqs.len() == i,
                forall|j: int| 0 <= j < i ==> (#[trigger] reqs@[j])@ == fresh_request(header_views(hdrs@)),
                finished_count(request_views(reqs@)) == 0,
            decreases streams - i,
        {
            let ghost before = request_views(reqs@);
            reqs.push(PartialRequest::new(hdrs));
            i += 1;
            proof {
                assert(request_views(reqs@).drop_last() =~= before);
            }
        }
        let c = ConnAppData { reqs, reqs_hdrs_sent: 0, reqs_complete: 0 };
        assert(c@.reqs =~= Seq::new(streams as nat, |i: int| fresh_request(header_views(hdrs@))));
        c
    }

    /// The requests, in the order in which they are sent.
    pub fn reqs(&self) -> (r: &[PartialRequest])
        ensures
            request_views(r@) == self@.reqs,
            self@.wf(),
    {
        proof {
            use_type_invariant(self);
        }
        self.reqs.as_slice()
    }

    /// How many requests have been sent.
    pub fn reqs_hdrs_sent(&self) -> (n: usize)
        ensures
            n == self@.hdrs_sent,
            n <= self@.reqs.len(),
    {
        proof {
            use_type_invariant(self);
        }
        self.reqs_hdrs_sent
    }

    /// How many requests have completed.
    pub fn reqs_complete(&self) -> (n: usize)
        ensures
            n == self@.complete,
            n == finished_count(self@.reqs),
            n <= self@.reqs.len(),
    {
        proof {
            use_type_invariant(self);
            lemma_finished_count_bound(self@.reqs);
        }
        self.reqs_complete
    }

    /// The headers of the next request to send, and whether they end the
    /// stream: they always do, a request has no body. `None` once every
    /// request has been sent.
    pub fn next_request(&self) -> (r: Option<(&Vec<Header>, bool)>)
        ensures
            match r {
                Some((h, fin)) => pending(self@) == Some(header_views(h@)) && fin,
                None => pending(self@) is None,
            },
    {
        proof {
            use_type_invariant(self);
        }
        if self.reqs_hdrs_sent < self.reqs.len() {
            Some((&self.reqs[self.reqs_hdrs_sent].hdrs, true))
        } else {
            None
        }
    }

    /// Takes the transport's answer to the attempt to send the pending
    /// request. `Ok(true)`: the request is on its way, look for the next one.
    /// `Ok(false)`: stop sending in this pass and try again in a later one.
    pub fn request_result(&mut self, result: Result<u64, TransportError>) -> (r: Result<
        bool,
        EngineError,
    >)
        ensures
            match sent(old(self)@, result) {
                Ok((conn, go_on)) => r == Ok::<bool, EngineError>(go_on) && final(self)@ == conn,
                Err(e) => r == Err::<bool, EngineError>(e) && final(self)@ == old(self)@,
            },
            final(self)@.wf(),
    {
        proof {
            use_type_invariant(&*self);
        }
        if self.reqs_hdrs_sent >= self.reqs.len() {
            return Ok(false);
        }
        match result {
            Ok(stream_id) => {
                let ghost before = self@;
                let (mut reqs, i, complete) = self.take();
                reqs[i].stream_id = Some(stream_id);
                proof {
                    let req = PartialRequestView { stream_id: Some(stream_id), ..before.reqs[i as int] };
                    assert(request_views(reqs@) =~= before.reqs.update(i as int, req));
                    lemma_finished_count_update(before.reqs, i as int, req);
                }
                *self = ConnAppData { reqs, reqs_hdrs_sent: i + 1, reqs_complete: complete };
                Ok(true)
            },
            Err(TransportError::StreamLimit) => Ok(false),
            Err(_) => Err(EngineError::Transport),
        }
    }

    /// Takes the result of one read of body data from `stream_id`.
    /// `Ok(true)`: read again. `Ok(false)`: nothing more is waiting.
    pub fn record_body(&mut self, stream_id: u64, result: Result<usize, TransportError>) -> (r:
        Result<bool, EngineError>)
        ensures
            match body_read(old(self)@, stream_id, result) {
                Ok((conn, go_on)) => r == Ok::<bool, EngineError>(go_on) && final(self)@ == conn,
                Err(e) => r == Err::<bool, EngineError>(e) && final(self)@ == old(self)@,
            },
            final(self)@.wf(),
    {
        proof {
            use_type_invariant(&*self);
        }
        let read: usize = match result {
            Ok(read) => read,
            Err(TransportError::Done) => {
                return Ok(false);
            },
            Err(_) => {
                return Err(EngineError::Transport);
            },
        };
        let i: usize = match self.find(stream_id) {
            Some(i) => i,
            None => {
                return Err(EngineError::UnknownStream);
            },
        };
        let sum: usize = match self.reqs[i].received_body_bytes.checked_add(read) {
            Some(sum) => sum,
            None => {
                return Err(EngineError::CounterOverflow);
            },
        };
        let ghost before = self@;
        assert(before.reqs[i as int] == self.reqs@[i as int]@);
        let (mut reqs, hdrs_sent, complete) = self.take();
        reqs[i].received_body_bytes = sum;
        proof {
            let req = PartialRequestView { received_body_bytes: sum as nat, ..before.reqs[i as int] };
            assert(request_views(reqs@) =~= before.reqs.update(i as int, req));
            lemma_finished_count_update(before.reqs, i as int, req);
        }
        *self = ConnAppData { reqs, reqs_hdrs_sent: hdrs_sent, reqs_complete: complete };
        Ok(true)
    }

    /// Handles one result of polling the HTTP/3 layer; `now` is the clock
    /// reading at the time of the call.
    pub fn handle_h3_response(
        &mut self,
        app_data: &mut AppData,
        polled: Result<(u64, Event), TransportError>,
        now: u64,
    ) -> (r: Result<Step, EngineError>)
        ensures
            match handled(old(self)@, old(app_data).reqs_complete, polled, now) {
                Ok((conn, total, step)) => {
                    &&& r == Ok::<Step, EngineError>(step)
                    &&& final(self)@ == conn
                    &&& *final(app_data) == (AppData { reqs_complete: total, ..*old(app_data) })
                },
                Err(e) => {
                    &&& r == Err::<Step, EngineError>(e)
                    &&& final(self)@ == old(self)@
                    &&& *final(app_data) == *old(app_data)
                },
            },
            final(self)@.wf(),
    {
        proof {
            use_type_invariant(&*self);
        }
        let (stream_id, event) = match polled {
            Ok(pair) => pair,
            Err(TransportError::Done) => {
                return Ok(Step::Done);
            },
            Err(_) => {
                return Err(EngineError::Transport);
            },
        };
        match event {
            Event::Reset(_) | Event::PriorityUpdate | Event::GoAway => {
                return Err(EngineError::UnexpectedEvent);
            },
            _ => {},
        }
        let i: usize = match self.find(stream_id) {
            Some(i) => i,
            None => {
                return Err(EngineError::UnknownStream);
            },
        };
        let ghost before = self@;
        assert(before.reqs[i as int] == self.reqs@[i as int]@);
        match event {
            Event::Headers { .. } => {
                let (mut reqs, hdrs_sent, complete) = self.take();
                reqs[i].received_header_instant = Some(now);
                proof {
                    let req = PartialRequestView {
                        received_header_instant: Some(now),
                        ..before.reqs[i as int]
                    };
                    assert(request_views(reqs@) =~= before.reqs.update(i as int, req));
                    lemma_finished_count_update(before.reqs, i as int, req);
                }
                *self = ConnAppData { reqs, reqs_hdrs_sent: hdrs_sent, reqs_complete: complete };
                Ok(Step::Continue)
            },
            Event::Data => Ok(Step::ReadBody { stream_id }),
            Event::Finished => {
                if self.reqs[i].received_body_instant.is_some() {
                    return Err(EngineError::AlreadyFinished);
                }
                if self.reqs[i].received_header_instant.is_none() {
                    return Err(EngineError::MissingHeaders);
                }
                if app_data.reqs_complete == usize::MAX {
                    return Err(EngineError::CounterOverflow);
                }
                let (mut reqs, hdrs_sent, complete) = self.take();
                reqs[i].received_body_instant = Some(now);
                proof {
                    let req = PartialRequestView {
                        received_body_instant: Some(now),
                        ..before.reqs[i as int]
                    };
                    assert(request_views(reqs@) =~= before.reqs.update(i as int, req));
                    lemma_finished_count_update(before.reqs, i as int, req);
                    lemma_finished_count_bound(before.reqs.update(i as int, req));
                }
                let last: bool = complete + 1 == reqs.len();
                *self = ConnAppData { reqs, reqs_hdrs_sent: hdrs_sent, reqs_complete: complete + 1 };
                app_data.reqs_complete = app_data.reqs_complete + 1;
                if last {
                    Ok(Step::Close { app: true, error_code: H3_NO_ERROR })
                } else {
                    Ok(Step::Continue)
                }
            },
            _ => Err(EngineError::UnexpectedEvent),
        }
    }

    /// Takes the state apart, leaving an empty batch behind: the requests,
    /// how many were sent and how many have completed.
    fn take(&mut self) -> (parts: (Vec<PartialRequest>, usize, usize))
        ensures
            request_views(parts.0@) == old(self)@.reqs,
            parts.1 == old(self)@.hdrs_sent,
            parts.2 == old(self)@.complete,
    {
        let mut conn = ConnAppData { reqs: Vec::new(), reqs_hdrs_sent: 0, reqs_complete: 0 };
        core::mem::swap(&mut conn, self);
        let ConnAppData { reqs, reqs_hdrs_sent, reqs_complete } = conn;
        (reqs, reqs_hdrs_sent, reqs_complete)
    }

    /// The index of the request that went out on `stream_id`.
    fn find(&self, stream_id: u64) -> (r: Option<usize>)
        ensures
            match r {
                Some(i) => request_of(self@.reqs, stream_id) == Some(i as int) && i < self.reqs.len(),
                None => request_of(self@.reqs, stream_id) is None,
            },
    {
        let mut i: usize = 0;
        while i < self.reqs.len()
            invariant
                i <= self.reqs.len(),
                forall|j: int| 0 <= j < i ==> (#[trigger] self@.reqs[j]).stream_id != Some(stream_id),
            decreases self.reqs.len() - i,
        {
            let found = match self.reqs[i].stream_id {
                Some(id) => id == stream_id,
                None => false,
            };
            if found {
                proof {
                    assert(self@.reqs[i as int] == self.reqs@[i as int]@);
                    lemma_serves_unique(self@.reqs, i as int, stream_id);
                }
                return Some(i);
            }
            assert(self@.reqs[i as int] == self.reqs@[i as int]@);
            i += 1;
        }
        assert forall|k: int| !serves(self@.reqs, k, stream_id) by {
            if 0 <= k < self@.reqs.len() {
                assert(self@.reqs[k].stream_id != Some(stream_id));
            }
        }
        None
    }
}

/// Why the transport closed a connection, as it reports it.
#[derive(Debug, PartialEq, Eq)]
pub struct ConnectionError {
    /// Whether the error came from the application rather than from the
    /// transport.
    pub is_app: bool,
    /// The error code.
    pub error_code: u64,
    /// The reason given, if any.
    pub reason: Vec<u8>,
}

/// How a connection came to its end.
#[derive(Debug, Clone, Copy, PartialEq, Eq, Structural)]
pub enum Closure {
    /// The peer closed it with an error: worth an error message.
    PeerError,
    /// This side closed it with an error: worth an error message.
    LocalError,
    /// This side closed it after its batch, with `H3_NO_ERROR`.
    Graceful,
    /// It idled out: the benchmark has failed.
    TimedOut,
    /// Nothing is on record about it.
    Unremarkable,
}

/// What an error on record is, for the purposes of contracts: whether it is
/// the application's, its code and its reason.
pub open spec fn error_on_record(error: Option<&ConnectionError>) -> Option<(bool, u64, Seq<u8>)> {
    match error {
        Some(e) => Some((e.is_app, e.error_code, e.reason@)),
        None => None,
    }
}

/// How a connection came to its end, given what is on record about it. An
/// error of the peer counts before one of this side, and either before a
/// timeout. Closing with `H3_NO_ERROR` from the application is no error.
pub open spec fn closure(
    peer_error: Option<(bool, u64, Seq<u8>)>,
    local_error: Option<(bool, u64, Seq<u8>)>,
    is_timed_out: bool,
) -> Closure {
    match (peer_error, local_error) {
        (Some(_), _) => Closure::PeerError,
        (None, Some((is_app, error_code, _))) => if !is_app || error_code != H3_NO_ERROR {
            Closure::LocalError
        } else {
            Closure::Graceful
        },
        (None, None) => if is_timed_out {
            Closure::TimedOut
        } else {
            Closure::Unremarkable
        },
    }
}

/// Tells how a connection came to its end, from what the transport has on
/// record.
pub fn classify_close(
    peer_error: Option<&ConnectionError>,
    local_error: Option<&ConnectionError>,
    is_timed_out: bool,
) -> (c: Closure)
    ensures
        c == closure(error_on_record(peer_error), error_on_record(local_error), is_timed_out),
{
    if peer_error.is_some() {
        return Closure::PeerError;
    }
    match local_error {
        Some(err) => if !err.is_app || err.error_code != H3_NO_ERROR {
            Closure::LocalError
        } else {
            Closure::Graceful
        },
        None => if is_timed_out {
            Closure::TimedOut
        } else {
            Closure::Unremarkable
        },
    }
}

/// Tells how a connection came to its end, from what it has on record: its
/// peer's error, its own error, and whether it timed out.
pub fn on_close(quic_conn: &quiche::Connection) -> (c: Closure)
    ensures
        c == closure(peer_error_on(quic_conn), local_error_on(quic_conn), timed_out(quic_conn)),
{
    let peer = peer_error(quic_conn);
    let local = local_error(quic_conn);
    classify_close(peer.as_ref(), local.as_ref(), is_timed_out(quic_conn))
}

/// The reason that goes with closing a connection after its batch: none.
pub fn no_reason() -> (reason: &'static [u8])
    ensures
        reason@.len() == 0,
{
    let reason: &'static [u8] = "".as_bytes();
    proof {
        reveal_strlit("");
        vstd::string::is_ascii_spec_bytes("");
    }
    reason
}

/// Sends the requests that have not gone out yet, in their order, until
/// none is left or the transport allows no further stream for now. What
/// becomes of the requests is what the transport's answers make of them, one
/// after the other. The pass ends well where nothing is left to send and
/// with a stream limit, and with an error where an answer is refused.
pub fn send_requests(
    h3_conn: &mut quiche::h3::Connection,
    quic_conn: &mut quiche::Connection,
    conn: &mut ConnAppData,
) -> (r: Result<(), Failure<EngineError>>)
    ensures
        exists|inputs: Seq<Input>|
            {
                &&& final(conn)@ == (#[trigger] run(old(conn)@, 0, inputs)).0
                &&& forall|i: int| 0 <= i < inputs.len() ==> (#[trigger] inputs[i]) is Sent
                &&& send_pass(old(conn)@, inputs, outcome(r))
            },
        final(conn)@.wf(),
        pending(old(conn)@) is None ==> r is Ok && final(conn)@ == old(conn)@,
        r matches Err(failure) ==> (failure.cause is Refused <==> failure.error
            != EngineError::Transport),
{
    let ghost mut inputs: Seq<Input> = Seq::empty();
    let mut left: usize = conn.reqs().len() - conn.reqs_hdrs_sent();
    while left > 0
        invariant
            conn@ == run(old(conn)@, 0, inputs).0,
            forall|i: int| 0 <= i < inputs.len() ==> (#[trigger] inputs[i]) is Sent,
            all_send_on(old(conn)@, inputs),
            inputs.len() == 0 ==> conn@ == old(conn)@,
            conn@.wf(),
            left == conn@.reqs.len() - conn@.hdrs_sent,
            pending(old(conn)@) is None ==> left == 0 && conn@ == old(conn)@,
        decreases left,
    {
        let (result, cause) = match conn.next_request() {
            Some((hdrs, fin)) => match send_request(h3_conn, quic_conn, hdrs, fin) {
                Ok(stream_id) => (Ok(stream_id), Cause::Refused),
                Err(e) => (Err(to_error(&e)), Cause::H3(e)),
            },
            None => {
                return Ok(());
            },
        };
        proof {
            let ghost before = inputs;
            inputs = inputs.push(Input::Sent(result));
            assert(inputs.drop_last() =~= before);
            assert(inputs.last() == Input::Sent(result));
        }
        match conn.request_result(result) {
            Ok(true) => {
                left = left - 1;
            },
            Ok(false) => {
                assert(conn@ == run(old(conn)@, 0, inputs).0);
                return Ok(());
            },
            Err(error) => {
                assert(conn@ == run(old(conn)@, 0, inputs).0);
                return Err(Failure { error, cause });
            },
        }
    }
    assert(conn@ == run(old(conn)@, 0, inputs).0);
    Ok(())
}

/// Takes the events that the HTTP/3 layer has for the client, until it has
/// no more or the batch is complete (and polls `ROUNDS` times at most):
/// stamps the requests whose headers arrive, reads the body data that is
/// waiting, and counts the streams that finish. With the last of them the
/// totals of the batch are taken, the connection is closed with
/// `H3_NO_ERROR`, and the totals are the answer: the connection may be torn
/// down. What becomes of the requests and of the endpoint's count is what
/// the poll results and the reads make of them, one after the other. The
/// pass ends with an error where one of them is refused or the connection
/// cannot be closed. Instants are nanoseconds since `start`.
pub fn handle_h3_responses(
    h3_conn: &mut quiche::h3::Connection,
    quic_conn: &mut quiche::Connection,
    conn: &mut ConnAppData,
    app_data: &mut AppData,
    buf: &mut [u8],
    start: &std::time::Instant,
) -> (r: Result<Option<Totals>, Failure<EngineError>>)
    ensures
        exists|inputs: Seq<Input>|
            {
                let end = #[trigger] run(old(conn)@, old(app_data).reqs_complete, inputs);
                &&& final(conn)@ == end.0
                &&& *final(app_data) == (AppData { reqs_complete: end.1, ..*old(app_data) })
                &&& r is Ok ==> (r->Ok_0 is Some <==> end.2 == 1)
                &&& r is Ok ==> end.2 <= 1
                &&& forall|i: int| 0 <= i < inputs.len() ==> !((#[trigger] inputs[i]) is Sent)
                &&& response_pass(old(conn)@, old(app_data).reqs_complete, inputs, outcome(r))
            },
        final(conn)@.wf(),
        r matches Err(failure) ==> (failure.cause is Refused <==> failure.error
            != EngineError::Transport),
{
    let ghost mut inputs: Seq<Input> = Seq::empty();
    let mut rounds: usize = ROUNDS;
    proof {
        use_type_invariant(&*conn);
    }
    while rounds > 0
        invariant
            (conn@, app_data.reqs_complete, 0nat) == run(
                old(conn)@,
                old(app_data).reqs_complete,
                inputs,
            ),
            *app_data == (AppData { reqs_complete: app_data.reqs_complete, ..*old(app_data) }),
            forall|i: int| 0 <= i < inputs.len() ==> !((#[trigger] inputs[i]) is Sent),
            all_respond_on(old(conn)@, old(app_data).reqs_complete, inputs),
            polled_count(inputs) == ROUNDS - rounds,
            rounds < ROUNDS ==> inputs.len() >= 1,
            conn@.wf(),
        decreases rounds,
    {
        rounds = rounds - 1;
        let (polled, cause) = match poll(h3_conn, quic_conn) {
            Ok(event) => (Ok(event), Cause::Refused),
            Err(e) => (Err(to_error(&e)), Cause::H3(e)),
        };
        let now: u64 = elapsed_nanos(start);
        let ghost earlier = (conn@, app_data.reqs_complete);
        proof {
            let ghost before = inputs;
            inputs = inputs.push(Input::Polled(polled, now));
            assert(inputs.drop_last() =~= before);
            assert(inputs.last() == Input::Polled(polled, now));
            assert(run(old(conn)@, old(app_data).reqs_complete, inputs) == ({
                let (last, sum, closed) = after(earlier.0, earlier.1, inputs.last());
                (last, sum, if closed {
                    1nat
                } else {
                    0nat
                })
            }));
        }
        match conn.handle_h3_response(app_data, polled, now) {
            Ok(Step::Continue) => {},
            Ok(Step::ReadBody { stream_id }) => {
                let mut reads: usize = ROUNDS;
                let mut go_on = true;
                while go_on && reads > 0
                    invariant
                        (conn@, app_data.reqs_complete, 0nat) == run(
                            old(conn)@,
                            old(app_data).reqs_complete,
                            inputs,
                        ),
                        *app_data == (AppData {
                            reqs_complete: app_data.reqs_complete,
                            ..*old(app_data)
                        }),
                        forall|i: int| 0 <= i < inputs.len() ==> !((#[trigger] inputs[i]) is Sent),
                        all_respond_on(old(conn)@, old(app_data).reqs_complete, inputs),
                        polled_count(inputs) == ROUNDS - rounds,
                        inputs.len() >= 1,
                        conn@.wf(),
                    decreases reads,
                {
                    reads = reads - 1;
                    let (result, read_cause) = match recv_body(h3_conn, quic_conn, stream_id, buf) {
                        Ok(read) => (Ok(read), Cause::Refused),
                        Err(e) => (Err(to_error(&e)), Cause::H3(e)),
                    };
                    proof {
                        let ghost before = inputs;
                        inputs = inputs.push(Input::Read(stream_id, result));
                        assert(inputs.drop_last() =~= before);
                        assert(inputs.last() == Input::Read(stream_id, result));
                    }
                    match conn.record_body(stream_id, result) {
                        Ok(more) => {
                            go_on = more;
                        },
                        Err(error) => {
                            assert((conn@, app_data.reqs_complete, 0nat) == run(
                                old(conn)@,
                                old(app_data).reqs_complete,
                                inputs,
                            ));
                            return Err(Failure { error, cause: read_cause });
                        },
                    }
                }
            },
            Ok(Step::Close { app, error_code }) => {
                proof {
                    use_type_invariant(&*conn);
                    lemma_finished_count_full(conn@.reqs);
                }
                let totals = match total_results(conn.reqs()) {
                    Some(totals) => totals,
                    None => {
                        assert(all_timed(conn@.reqs));
                        vstd::pervasive::unreached()
                    },
                };
                match close(quic_conn, app, error_code, no_reason()) {
                    Ok(_) => {
                        return Ok(Some(totals));
                    },
                    Err(e) => {
                        return Err(
                            Failure { error: EngineError::Transport, cause: Cause::Quic(e) },
                        );
                    },
                }
            },
            Ok(Step::Done) => {
                return Ok(None);
            },
            Err(error) => {
                return Err(Failure { error, cause });
            },
        }
    }
    Ok(None)
}

/// How a pass left the batch of a connection.
#[derive(Debug, Clone, Copy, PartialEq, Eq, Structural)]
pub enum Pass {
    /// The batch is under way, or the connection not ready for it yet.
    Open,
    /// The batch is complete and the connection is closing: here are its
    /// totals.
    Closed { totals: Totals },
    /// The batch is complete and the connection is closing, and it is to be
    /// dropped from the endpoint at once: here are its totals.
    Forget { totals: Totals },
}

/// Whether `first`, `second` and `r` are a pass over a connection: a pass
/// over its responses and then, unless that fails or the connection is to be
/// forgotten, a pass over its requests to send. Without inputs at all the
/// connection was not ready for HTTP/3, or its HTTP/3 layer could not be
/// created.
pub open spec fn connection_pass(
    s: ConnView,
    total: usize,
    silent_close: bool,
    first: Seq<Input>,
    second: Seq<Input>,
    r: Result<Pass, EngineError>,
) -> bool {
    let mid = run(s, total, first).0;
    if first.len() == 0 {
        second.len() == 0 && (r == Ok::<Pass, EngineError>(Pass::Open) || r == Err::<
            Pass,
            EngineError,
        >(EngineError::Transport))
    } else {
        match r {
            Err(e) => (response_pass(s, total, first, Err(e)) && second.len() == 0) || exists|
                closed: Option<Totals>,
            |
                {
                    &&& #[trigger] response_pass(s, total, first, Ok(closed))
                    &&& !(closed is Some && silent_close)
                    &&& send_pass(mid, second, Err(e))
                },
            Ok(Pass::Open) => response_pass(s, total, first, Ok(None)) && send_pass(
                mid,
                second,
                Ok(()),
            ),
            Ok(Pass::Closed { totals }) => !silent_close && response_pass(
                s,
                total,
                first,
                Ok(Some(totals)),
            ) && send_pass(mid, second, Ok(())),
            Ok(Pass::Forget { totals }) => silent_close && response_pass(
                s,
                total,
                first,
                Ok(Some(totals)),
            ) && second.len() == 0,
        }
    }
}

/// Drives one connection for one pass: sees to its HTTP/3 layer, takes the
/// events that have arrived, and then sends the requests that are still to
/// go out. A connection that is not ready for HTTP/3 is left alone, and one
/// that is to be forgotten gets no further requests. What becomes of the
/// requests and of the endpoint's count is what the poll results and the
/// reads, and then the answers to send attempts, make of them, one after the
/// other. The first error ends the pass.
pub fn post_handle_recvs(
    h3_conn: &mut Option<quiche::h3::Connection>,
    quic_conn: &mut quiche::Connection,
    conn: &mut ConnAppData,
    app_data: &mut AppData,
    h3_config: &quiche::h3::Config,
    buf: &mut [u8],
    start: &std::time::Instant,
) -> (r: Result<Pass, Failure<EngineError>>)
    ensures
        exists|first: Seq<Input>, second: Seq<Input>|
            {
                let mid = run(old(conn)@, old(app_data).reqs_complete, first);
                &&& #[trigger] connection_pass(
                    old(conn)@,
                    old(app_data).reqs_complete,
                    old(app_data).silent_close,
                    first,
                    second,
                    outcome(r),
                )
                &&& final(conn)@ == run(mid.0, 0, second).0
                &&& *final(app_data) == (AppData { reqs_complete: mid.1, ..*old(app_data) })
                &&& r matches Ok(pass) ==> (pass != Pass::Open <==> mid.2 == 1)
                &&& first.len() == 0 ==> (*old(h3_conn)) is None
            },
        final(conn)@.wf(),
        (*old(h3_conn)) is Some ==> (*final(h3_conn)) is Some,
        r matches Err(failure) ==> (failure.cause is Refused <==> failure.error
            != EngineError::Transport),
{
    let ghost none: Seq<Input> = Seq::empty();
    proof {
        use_type_invariant(&*conn);
        assert(run(conn@, app_data.reqs_complete, none) == (conn@, app_data.reqs_complete, 0nat));
        assert(run(conn@, 0, none).0 == conn@);
    }
    match setup_h3(h3_conn, quic_conn, h3_config) {
        Ok(true) => {},
        Ok(false) => {
            assert(connection_pass(
                old(conn)@,
                old(app_data).reqs_complete,
                old(app_data).silent_close,
                none,
                none,
                Ok(Pass::Open),
            ));
            return Ok(Pass::Open);
        },
        Err(e) => {
            assert(connection_pass(
                old(conn)@,
                old(app_data).reqs_complete,
                old(app_data).silent_close,
                none,
                none,
                Err(EngineError::Transport),
            ));
            return Err(Failure { error: EngineError::Transport, cause: Cause::H3(e) });
        },
    }
    match h3_conn {
        Some(h3) => {
            let responses = handle_h3_responses(h3, quic_conn, conn, app_data, buf, start);
            let ghost between = (conn@, app_data.reqs_complete);
            let ghost first = choose|inputs: Seq<Input>|
                {
                    let end = #[trigger] run(old(conn)@, old(app_data).reqs_complete, inputs);
                    &&& between.0 == end.0
                    &&& between.1 == end.1
                    &&& responses is Ok ==> (responses->Ok_0 is Some <==> end.2 == 1)
                    &&& responses is Ok ==> end.2 <= 1
                    &&& response_pass(
                        old(conn)@,
                        old(app_data).reqs_complete,
                        inputs,
                        outcome(responses),
                    )
                };
            proof {
                assert(run(between.0, 0, none).0 == between.0);
            }
            let closed = match responses {
                Ok(closed) => closed,
                Err(failure) => {
                    assert(connection_pass(
                        old(conn)@,
                        old(app_data).reqs_complete,
                        old(app_data).silent_close,
                        first,
                        none,
                        Err(failure.error),
                    ));
                    return Err(failure);
                },
            };
            if app_data.forget_connection(closed.is_some()) {
                match closed {
                    Some(totals) => {
                        assert(connection_pass(
                            old(conn)@,
                            old(app_data).reqs_complete,
                            old(app_data).silent_close,
                            first,
                            none,
                            Ok(Pass::Forget { totals }),
                        ));
                        return Ok(Pass::Forget { totals });
                    },
                    None => {},
                }
            }
            let sent = send_requests(h3, quic_conn, conn);
            let ghost second = choose|inputs: Seq<Input>|
                {
                    &&& conn@ == (#[trigger] run(between.0, 0, inputs)).0
                    &&& send_pass(between.0, inputs, outcome(sent))
                };
            let r = match sent {
                Ok(_) => match closed {
                    Some(totals) => Ok(Pass::Closed { totals }),
                    None => Ok(Pass::Open),
                },
                Err(failure) => Err(failure),
            };
            proof {
                if sent is Err {
                    assert(response_pass(
                        old(conn)@,
                        old(app_data).reqs_complete,
                        first,
                        Ok(closed),
                    ));
                }
                assert(connection_pass(
                    old(conn)@,
                    old(app_data).reqs_complete,
                    old(app_data).silent_close,
                    first,
                    second,
                    outcome(r),
                ));
            }
            r
        },
        None => Ok(Pass::Open),
    }
}

} // verus!
