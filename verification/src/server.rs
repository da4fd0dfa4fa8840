//! The server's response multiplexer: computes the response to each
//! request and writes the responses out, stream by stream, as far as the
//! transport takes them.

use crate::body::{BodyView, ResponseBody, ZeroBuffer};
use crate::h3::{
    bytes_eq, header_views, outcome, setup_h3, Cause, Event, Failure, Header, HeaderView,
    TransportError,
};
use crate::size::{decimal_digits, decimal_text, mem_size, MemRequest};
use crate::transport::{poll, send_body, send_response, stream_shutdown_write, to_error, writable};
use std::collections::HashMap;
use crate::ROUNDS;
use vstd::prelude::*;
use vstd::string::StringSliceAdditionalSpecFns;

verus! {

/// Why a request is turned away without a response.
#[derive(Debug, Clone, Copy, PartialEq, Eq, Structural)]
pub enum Rejection {
    /// The request names more than one path.
    DuplicatePath,
    /// The request is no GET, or not over https.
    Protocol,
}

impl Rejection {
    /// The HTTP/3 error code with which the stream is shut down: the code
    /// of a connect error for a second path, that of a general protocol
    /// error otherwise.
    pub open spec fn code(self) -> u64 {
        match self {
            Rejection::DuplicatePath => 0x10f,
            Rejection::Protocol => 0x101,
        }
    }

    /// The HTTP/3 error code with which the stream is shut down.
    pub fn error_code(&self) -> (c: u64)
        ensures
            c == self.code(),
    {
        match self {
            Rejection::DuplicatePath => 0x10f,
            Rejection::Protocol => 0x101,
        }
    }
}

/// Whether a header field gives the request's path.
pub open spec fn is_path(h: HeaderView) -> bool {
    h.name == ":path".spec_bytes()
}

/// What is wrong with the `i`-th field of a request, if anything: a path
/// after an earlier one, a method other than GET, a scheme other than https.
pub open spec fn offence(hs: Seq<HeaderView>, i: int) -> Option<Rejection> {
    let h = hs[i];
    if is_path(h) {
        if exists|j: int| 0 <= j < i && is_path(#[trigger] hs[j]) {
            Some(Rejection::DuplicatePath)
        } else {
            None
        }
    } else if h.name == ":method".spec_bytes() {
        if h.value == "GET".spec_bytes() {
            None
        } else {
            Some(Rejection::Protocol)
        }
    } else if h.name == ":scheme".spec_bytes() {
        if h.value == "https".spec_bytes() {
            None
        } else {
            Some(Rejection::Protocol)
        }
    } else {
        None
    }
}

/// Whether the `i`-th field is the first one that something is wrong with.
pub open spec fn is_first_offence(hs: Seq<HeaderView>, i: int) -> bool {
    &&& 0 <= i < hs.len()
    &&& offence(hs, i) is Some
    &&& forall|j: int| 0 <= j < i ==> (#[trigger] offence(hs, j)) is None
}

/// Why a request is turned away: for what is wrong with the first field
/// that anything is wrong with. `None` for a request that is served.
pub open spec fn rejection(hs: Seq<HeaderView>) -> Option<Rejection> {
    if exists|i: int| is_first_offence(hs, i) {
        offence(hs, choose|i: int| is_first_offence(hs, i))
    } else {
        None
    }
}

/// Whether the `i`-th field is the first one that gives a path.
pub open spec fn is_first_path(hs: Seq<HeaderView>, i: int) -> bool {
    &&& 0 <= i < hs.len()
    &&& is_path(hs[i])
    &&& forall|j: int| 0 <= j < i ==> !is_path(#[trigger] hs[j])
}

/// The path that a request asks for; empty where it gives none.
pub open spec fn requested_path(hs: Seq<HeaderView>) -> Seq<u8> {
    if exists|i: int| is_first_path(hs, i) {
        hs[choose|i: int| is_first_path(hs, i)].value
    } else {
        Seq::empty()
    }
}

/// The body of the response to a path that names no resource.
pub open spec fn not_found_text() -> Seq<u8> {
    "404 Not Found; try e.g. /mem/1MB instead".spec_bytes()
}

/// The header list of a response with the given status and body length.
pub open spec fn response_headers(status: Seq<u8>, length: nat) -> Seq<HeaderView> {
    seq![
        HeaderView { name: ":status".spec_bytes(), value: status },
        HeaderView { name: "server".spec_bytes(), value: "quiche".spec_bytes() },
        HeaderView { name: "content-length".spec_bytes(), value: decimal_text(length) },
    ]
}

/// What a response in progress is, for the purposes of contracts.
pub struct PartialResponseView {
    /// How many bytes of the body the transport has taken.
    pub written: nat,
    /// The header list, for as long as it has not been sent.
    pub headers: Option<Seq<HeaderView>>,
    /// The body.
    pub body: BodyView,
}

impl PartialResponseView {
    /// What holds of every response in progress: no more is out than the
    /// body holds, and nothing of the body is out before the headers are.
    pub open spec fn wf(self) -> bool {
        &&& self.written <= self.body.len()
        &&& self.headers is Some ==> self.written == 0
    }

    /// The part of the body that the transport has taken so far.
    pub open spec fn sent(self) -> Seq<u8> {
        self.body.bytes().take(self.written as int)
    }
}

/// What there is to hand to the transport next, for the purposes of
/// contracts.
pub enum WriteView {
    Nothing,
    Headers { list: Seq<HeaderView>, fin: bool },
    Body { chunk: Seq<u8>, fin: bool },
}

/// What came of an attempt to write part of a body.
#[derive(Debug, Clone, Copy, PartialEq, Eq, Structural)]
pub enum Progress {
    /// The transport took something and the body is not out yet: write on.
    More,
    /// The transport has no room for now: the response waits as it is.
    Wait,
    /// The response is over: the body is out, or the write failed for good.
    Over,
}

/// What to hand to the transport next for a response: its header list
/// while that is pending, then its body chunk by chunk, through a transmit
/// buffer of `capacity` bytes.
pub open spec fn next_write(r: PartialResponseView, capacity: nat) -> WriteView {
    match r.headers {
        Some(h) => WriteView::Headers { list: h, fin: false },
        None => WriteView::Body {
            chunk: r.body.chunk(r.written, capacity),
            fin: r.body.fin(r.written, capacity),
        },
    }
}

/// The response after the transport has answered the attempt to send its
/// header list, and whether to go on to the body in this pass. Only a
/// success changes anything: the header list is no longer pending.
pub open spec fn after_headers(r: PartialResponseView, result: Result<(), TransportError>) -> (
    PartialResponseView,
    bool,
) {
    match result {
        Ok(_) => (PartialResponseView { headers: None, ..r }, true),
        Err(_) => (r, false),
    }
}

/// What comes of the transport's answer to the attempt to write the next
/// chunk of the body. A write that brings the body to its end ends the
/// response; one that takes nothing of it shows that the transport has no
/// room, as `Done` does. While the header list is pending no body write
/// counts.
pub open spec fn progress(r: PartialResponseView, result: Result<usize, TransportError>)
    -> Progress {
    if r.headers is Some {
        Progress::Wait
    } else {
        match result {
            Ok(n) => if r.written + n >= r.body.len() {
                Progress::Over
            } else if n == 0 {
                Progress::Wait
            } else {
                Progress::More
            },
            Err(TransportError::Done) => Progress::Wait,
            Err(_) => Progress::Over,
        }
    }
}

/// The response after that answer: the bytes that the transport took are
/// out. Nothing else changes it.
pub open spec fn after_body(r: PartialResponseView, result: Result<usize, TransportError>)
    -> PartialResponseView {
    match result {
        Ok(n) if progress(r, result) == Progress::More => PartialResponseView {
            written: r.written + n as nat,
            ..r
        },
        _ => r,
    }
}

/// The response to a request for `path`, nothing of it sent: where the path
/// asks for a byte count, status 200 and as many zeros; where it does not,
/// status 404 and a fixed text.
pub open spec fn response_for(path: Seq<u8>) -> PartialResponseView {
    let size = mem_size(path);
    if size is Some && size->0 <= usize::MAX {
        PartialResponseView {
            written: 0,
            headers: Some(response_headers("200".spec_bytes(), size->0)),
            body: BodyView::Zeros(size->0),
        }
    } else {
        PartialResponseView {
            written: 0,
            headers: Some(response_headers("404".spec_bytes(), not_found_text().len())),
            body: BodyView::Static(not_found_text()),
        }
    }
}

/// A response in progress on one stream: how much of it is out, and what
/// is still to go.
#[derive(Debug, PartialEq, Eq)]
pub struct PartialResponse {
    written: usize,
    headers: Option<Vec<Header>>,
    body: ResponseBody,
}

impl View for PartialResponse {
    type V = PartialResponseView;

    closed spec fn view(&self) -> PartialResponseView {
        PartialResponseView {
            written: self.written as nat,
            headers: match self.headers {
                Some(h) => Some(header_views(h@)),
                None => None,
            },
            body: self.body@,
        }
    }
}

impl PartialResponse {
    #[verifier::type_invariant]
    spec fn inv(&self) -> bool {
        self@.wf()
    }

    /// A response of which nothing is out yet.
    pub fn new(headers: Vec<Header>, body: ResponseBody) -> (r: PartialResponse)
        ensures
            r@ == (PartialResponseView {
                written: 0,
                headers: Some(header_views(headers@)),
                body: body@,
            }),
    {
        PartialResponse { written: 0, headers: Some(headers), body }
    }

    /// How many bytes of the body the transport has taken. Never more than
    /// the body holds.
    pub fn written(&self) -> (w: usize)
        ensures
            w == self@.written,
            w <= self@.body.len(),
            self@.wf(),
    {
        proof {
            use_type_invariant(self);
        }
        self.written
    }

    /// The header list, for as long as it has not been sent.
    pub fn headers(&self) -> (h: Option<&Vec<Header>>)
        ensures
            match h {
                Some(list) => self@.headers == Some(header_views(list@)),
                None => self@.headers is None,
            },
    {
        self.headers.as_ref()
    }

    /// The body.
    pub fn body(&self) -> (b: &ResponseBody)
        ensures
            b@ == self@.body,
    {
        &self.body
    }
}

/// What to hand to the transport next for a stream.
#[derive(Debug, PartialEq, Eq)]
pub enum Write<'a> {
    /// Nothing: no response is in progress on the stream.
    Nothing,
    /// The header list of the response, and whether it ends the stream:
    /// it never does, the body is still to come.
    Headers { list: &'a Vec<Header>, fin: bool },
    /// The next chunk of the body, and whether it is the last.
    Body { chunk: &'a [u8], fin: bool },
}

impl<'a> View for Write<'a> {
    type V = WriteView;

    open spec fn view(&self) -> WriteView {
        match self {
            Write::Nothing => WriteView::Nothing,
            Write::Headers { list, fin } => WriteView::Headers {
                list: header_views(list@),
                fin: *fin,
            },
            Write::Body { chunk, fin } => WriteView::Body { chunk: chunk@, fin: *fin },
        }
    }
}

impl PartialResponse {
    /// What to hand to the transport next. Zeros are lent from `buf`.
    pub fn next_write<'a>(&'a self, buf: &'a ZeroBuffer) -> (w: Write<'a>)
        ensures
            w@ == next_write(self@, buf.capacity()),
    {
        proof {
            use_type_invariant(self);
        }
        match &self.headers {
            Some(h) => Write::Headers { list: h, fin: false },
            None => {
                let (chunk, fin) = self.body.chunk(self.written, buf);
                Write::Body { chunk, fin }
            },
        }
    }

    /// Takes the transport's answer to the attempt to send the header list.
    /// `true`: go on to the body in this pass.
    pub fn headers_result(&mut self, result: Result<(), TransportError>) -> (go_on: bool)
        ensures
            (final(self)@, go_on) == after_headers(old(self)@, result),
            final(self)@.wf(),
    {
        proof {
            use_type_invariant(&*self);
        }
        match result {
            Ok(_) => {
                self.headers = None;
                true
            },
            Err(_) => false,
        }
    }

    /// Takes the transport's answer to the attempt to write the next chunk
    /// of the body.
    pub fn body_result(&mut self, result: Result<usize, TransportError>) -> (p: Progress)
        ensures
            p == progress(old(self)@, result),
            final(self)@ == after_body(old(self)@, result),
            final(self)@.wf(),
            p == Progress::More ==> final(self)@.written < final(self)@.body.len(),
    {
        proof {
            use_type_invariant(&*self);
        }
        if self.headers.is_some() {
            return Progress::Wait;
        }
        match result {
            Ok(n) => {
                if n >= self.body.len() - self.written {
                    Progress::Over
                } else if n == 0 {
                    Progress::Wait
                } else {
                    self.written = self.written + n;
                    Progress::More
                }
            },
            Err(TransportError::Done) => Progress::Wait,
            Err(_) => Progress::Over,
        }
    }
}

/// Computes the response to a request from its header list. A request is
/// turned away for the first field that something is wrong with; fields
/// with other names than path, method and scheme are passed over.
pub fn build_h3_response(request: &[Header]) -> (r: Result<PartialResponse, Rejection>)
    ensures
        match rejection(header_views(request@)) {
            Some(why) => r == Err::<PartialResponse, Rejection>(why),
            None => r matches Ok(response) && response@ == response_for(
                requested_path(header_views(request@)),
            ),
        },
{
    let ghost hs = header_views(request@);
    let mut path: Option<&[u8]> = None;
    let mut i: usize = 0;
    while i < request.len()
        invariant
            i <= request.len(),
            hs == header_views(request@),
            forall|j: int| 0 <= j < i ==> (#[trigger] offence(hs, j)) is None,
            match path {
                Some(p) => exists|k: int| k < i && is_first_path(hs, k) && p@ == hs[k].value,
                None => forall|j: int| 0 <= j < i ==> !is_path(#[trigger] hs[j]),
            },
        decreases request.len() - i,
    {
        let hdr = &request[i];
        assert(hs[i as int] == hdr@);
        let name = hdr.name();
        if bytes_eq(name, ":path".as_bytes()) {
            if path.is_some() {
                proof {
                    let k = choose|k: int| k < i && is_first_path(hs, k) && path->0@ == hs[k].value;
                    assert(is_path(hs[k]));
                    assert(is_first_offence(hs, i as int));
                    lemma_first_offence_unique(hs, i as int);
                }
                return Err(Rejection::DuplicatePath);
            }
            path = Some(hdr.value());
            assert(is_first_path(hs, i as int));
        } else if bytes_eq(name, ":method".as_bytes()) {
            if !bytes_eq(hdr.value(), "GET".as_bytes()) {
                proof {
                    assert(is_first_offence(hs, i as int));
                    lemma_first_offence_unique(hs, i as int);
                }
                return Err(Rejection::Protocol);
            }
        } else if bytes_eq(name, ":scheme".as_bytes()) {
            if !bytes_eq(hdr.value(), "https".as_bytes()) {
                proof {
                    assert(is_first_offence(hs, i as int));
                    lemma_first_offence_unique(hs, i as int);
                }
                return Err(Rejection::Protocol);
            }
        }
        i += 1;
    }
    proof {
        assert forall|k: int| !is_first_offence(hs, k) by {
            if 0 <= k < hs.len() {
                assert(offence(hs, k) is None);
            }
        }
    }
    let empty: Vec<u8> = Vec::new();
    let wanted: &[u8] = match path {
        Some(p) => {
            proof {
                let k = choose|k: int| k < i && is_first_path(hs, k) && p@ == hs[k].value;
                lemma_first_path_unique(hs, k);
            }
            p
        },
        None => {
            proof {
                assert forall|k: int| !is_first_path(hs, k) by {
                    if 0 <= k < hs.len() {
                        assert(!is_path(hs[k]));
                    }
                }
            }
            empty.as_slice()
        },
    };
    assert(wanted@ == requested_path(hs));
    match MemRequest::from_bytes(wanted) {
        Ok(mem_request) => {
            let length = decimal_digits(mem_request.0);
            let mut headers: Vec<Header> = Vec::new();
            headers.push(Header::new(":status".as_bytes(), "200".as_bytes()));
            headers.push(Header::new("server".as_bytes(), "quiche".as_bytes()));
            headers.push(Header::new("content-length".as_bytes(), length.as_slice()));
            assert(header_views(headers@) =~= response_headers(
                "200".spec_bytes(),
                mem_request.0 as nat,
            ));
            Ok(PartialResponse::new(headers, ResponseBody::Zeros(mem_request.0)))
        },
        Err(_) => {
            let body: &'static [u8] = "404 Not Found; try e.g. /mem/1MB instead".as_bytes();
            let length = decimal_digits(body.len());
            let mut headers: Vec<Header> = Vec::new();
            headers.push(Header::new(":status".as_bytes(), "404".as_bytes()));
            headers.push(Header::new("server".as_bytes(), "quiche".as_bytes()));
            headers.push(Header::new("content-length".as_bytes(), length.as_slice()));
            assert(header_views(headers@) =~= response_headers(
                "404".spec_bytes(),
                not_found_text().len(),
            ));
            Ok(PartialResponse::new(headers, ResponseBody::Static(body)))
        },
    }
}

/// At most one field is the first that something is wrong with.
pub proof fn lemma_first_offence_unique(hs: Seq<HeaderView>, i: int)
    requires
        is_first_offence(hs, i),
    ensures
        rejection(hs) == offence(hs, i),
{
    let k = choose|k: int| is_first_offence(hs, k);
    if k < i {
        assert(offence(hs, k) is None);
    }
    if i < k {
        assert(offence(hs, i) is None);
    }
}

/// At most one field is the first that gives a path.
pub proof fn lemma_first_path_unique(hs: Seq<HeaderView>, i: int)
    requires
        is_first_path(hs, i),
    ensures
        requested_path(hs) == hs[i].value,
{
    let k = choose|k: int| is_first_path(hs, k);
    if k < i {
        assert(!is_path(hs[k]));
    }
    if i < k {
        assert(!is_path(hs[i]));
    }
}

/// Why the server gave up on a connection.
#[derive(Debug, Clone, Copy, PartialEq, Eq, Structural)]
pub enum ServerError {
    /// The transport failed in a way the server does not recover from.
    Transport,
    /// An event arrived that a plain GET never causes: body data, a reset
    /// or a go-away.
    UnexpectedEvent,
}

/// What the caller does after the server has handled one poll result.
#[derive(Debug, Clone, Copy, PartialEq, Eq, Structural)]
pub enum RequestStep {
    /// Poll for the next event.
    Continue,
    /// Shut the write side of the stream down with this error code, then
    /// poll for the next event.
    ShutdownWrite { stream_id: u64, error_code: u64 },
    /// No event is pending; go on to the writable streams.
    Done,
}

/// The responses in progress of a connection, by stream.
pub type Responses = Map<u64, PartialResponseView>;

/// What holds of the responses of every connection.
pub open spec fn responses_wf(t: Responses) -> bool {
    forall|id: u64| t.contains_key(id) ==> (#[trigger] t[id]).wf()
}

/// The responses in progress and the next step after one poll result.
///
/// A header list that is served starts a response on its stream, in place
/// of one that was in progress there. One that is turned away starts none,
/// and has the stream shut down. A finished stream and a priority update
/// change nothing. `Done` ends the polling. Everything else is an error,
/// and an error changes nothing.
pub open spec fn requested(t: Responses, polled: Result<(u64, Event), TransportError>) -> Result<
    (Responses, RequestStep),
    ServerError,
> {
    match polled {
        Err(TransportError::Done) => Ok((t, RequestStep::Done)),
        Err(_) => Err(ServerError::Transport),
        Ok((stream_id, Event::Headers { list, .. })) => match rejection(header_views(list@)) {
            Some(why) => Ok(
                (t, RequestStep::ShutdownWrite { stream_id, error_code: why.code() }),
            ),
            None => Ok(
                (
                    t.insert(stream_id, response_for(requested_path(header_views(list@)))),
                    RequestStep::Continue,
                ),
            ),
        },
        Ok((_, Event::Finished)) => Ok((t, RequestStep::Continue)),
        Ok((_, Event::PriorityUpdate)) => Ok((t, RequestStep::Continue)),
        Ok(_) => Err(ServerError::UnexpectedEvent),
    }
}

/// What to hand to the transport next for a stream that has become
/// writable: nothing where no response is in progress on it.
pub open spec fn stream_write(t: Responses, stream_id: u64, capacity: nat) -> WriteView {
    if t.contains_key(stream_id) {
        next_write(t[stream_id], capacity)
    } else {
        WriteView::Nothing
    }
}

/// The responses in progress after the transport has answered the attempt to
/// send the header list on a stream, and whether to go on to the body.
pub open spec fn headers_answered(t: Responses, stream_id: u64, result: Result<(), TransportError>)
    -> (Responses, bool) {
    if t.contains_key(stream_id) {
        let (r, go_on) = after_headers(t[stream_id], result);
        (t.insert(stream_id, r), go_on)
    } else {
        (t, false)
    }
}

/// The responses in progress after the transport has answered the attempt to
/// write a chunk of the body on a stream, and whether to write on. A
/// response that is over leaves the connection.
pub open spec fn body_answered(t: Responses, stream_id: u64, result: Result<usize, TransportError>)
    -> (Responses, bool) {
    if t.contains_key(stream_id) {
        match progress(t[stream_id], result) {
            Progress::More => (t.insert(stream_id, after_body(t[stream_id], result)), true),
            Progress::Wait => (t, false),
            Progress::Over => (t.remove(stream_id), false),
        }
    } else {
        (t, false)
    }
}

/// One thing that can happen to the responses of a connection.
pub enum Answer {
    /// Polling returned.
    Polled(Result<(u64, Event), TransportError>),
    /// The transport answered the attempt to send the header list on the
    /// stream.
    Headers(u64, Result<(), TransportError>),
    /// The transport answered the attempt to write a chunk of the body on
    /// the stream.
    Body(u64, Result<usize, TransportError>),
}

/// The responses in progress after `answer`.
pub open spec fn answered(t: Responses, answer: Answer) -> Responses {
    match answer {
        Answer::Polled(polled) => match requested(t, polled) {
            Ok((responses, _)) => responses,
            Err(_) => t,
        },
        Answer::Headers(stream_id, result) => headers_answered(t, stream_id, result).0,
        Answer::Body(stream_id, result) => body_answered(t, stream_id, result).0,
    }
}

/// How many more writes on a stream can succeed at most: one for the
/// header list, and one for each byte of the body that is not out.
pub open spec fn writes_left(t: Responses, stream_id: u64) -> nat {
    if t.contains_key(stream_id) {
        let r = t[stream_id];
        (if r.headers is Some {
            1nat
        } else {
            0nat
        }) + (if r.written <= r.body.len() {
            (r.body.len() - r.written) as nat
        } else {
            0nat
        })
    } else {
        0
    }
}

/// The responses in progress after `answers`, one after the other.
pub open spec fn answered_all(t: Responses, answers: Seq<Answer>) -> Responses
    decreases answers.len(),
{
    if answers.len() == 0 {
        t
    } else {
        answered(answered_all(t, answers.drop_last()), answers.last())
    }
}

/// Whether a pass over the requests goes on after `answer`: whether it is a
/// poll result that is handled and is not the end of the events.
pub open spec fn polls_on(t: Responses, answer: Answer) -> bool {
    &&& answer matches Answer::Polled(polled)
    &&& requested(t, polled) matches Ok((_, step))
    &&& step != RequestStep::Done
}

/// Whether a pass over the requests goes on after each of `answers`.
pub open spec fn all_poll_on(t: Responses, answers: Seq<Answer>) -> bool
    decreases answers.len(),
{
    answers.len() == 0 || (all_poll_on(t, answers.drop_last()) && polls_on(
        answered_all(t, answers.drop_last()),
        answers.last(),
    ))
}

/// Whether `r` is how a pass over the requests ends with the poll result
/// `last`, the responses as they were before it. A poll result that is
/// refused ends the pass with that error; the end of the events ends it well;
/// a stream that cannot be shut down ends it with a transport error. A pass
/// that has handled `ROUNDS` events (`full`) ends well whatever the last was.
pub open spec fn requests_end(t: Responses, last: Answer, full: bool, r: Result<(), ServerError>)
    -> bool {
    &&& last matches Answer::Polled(polled)
    &&& match requested(t, polled) {
        Err(e) => r == Err::<(), ServerError>(e),
        Ok((_, RequestStep::Done)) => r is Ok,
        Ok((_, RequestStep::ShutdownWrite { .. })) => r == Err::<(), ServerError>(
            ServerError::Transport,
        ) || (full && r is Ok),
        Ok((_, RequestStep::Continue)) => full && r is Ok,
    }
}

/// Whether `answers` and `r` are a pass over the requests: at least one
/// event is polled for, every poll result but the last lets the pass go on,
/// and the last one ends it with `r`.
pub open spec fn request_pass(t: Responses, answers: Seq<Answer>, r: Result<(), ServerError>)
    -> bool {
    &&& 1 <= answers.len() <= ROUNDS
    &&& all_poll_on(t, answers.drop_last())
    &&& requests_end(
        answered_all(t, answers.drop_last()),
        answers.last(),
        answers.len() == ROUNDS,
        r,
    )
}

/// Whatever happens over any number of answers, no response has more out
/// than its body holds, and none has any of its body out before its headers.
pub proof fn lemma_written_bounded_all(t: Responses, answers: Seq<Answer>)
    requires
        responses_wf(t),
    ensures
        responses_wf(answered_all(t, answers)),
    decreases answers.len(),
{
    if answers.len() > 0 {
        lemma_written_bounded_all(t, answers.drop_last());
        lemma_written_bounded(answered_all(t, answers.drop_last()), answers.last());
    }
}

/// Whatever happens, no response has more out than its body holds, and
/// none has any of its body out before its headers.
pub proof fn lemma_written_bounded(t: Responses, answer: Answer)
    requires
        responses_wf(t),
    ensures
        responses_wf(answered(t, answer)),
{
    let after = answered(t, answer);
    assert forall|id: u64| after.contains_key(id) implies (#[trigger] after[id]).wf() by {
        if t.contains_key(id) {
            assert(t[id].wf());
        }
    }
}

/// A response whose body is out leaves the connection, and is not come
/// back to: after any answer to a body write, a response still in progress
/// on the stream has bytes left to write; and for a stream without a
/// response there is nothing to write, and no answer about it changes
/// anything.
pub proof fn lemma_complete_is_removed(
    t: Responses,
    stream_id: u64,
    result: Result<usize, TransportError>,
    headers: Result<(), TransportError>,
    capacity: nat,
)
    requires
        responses_wf(t),
    ensures
        ({
            let after = body_answered(t, stream_id, result).0;
            &&& result is Ok && t.contains_key(stream_id) && t[stream_id].headers is None
                && after.contains_key(stream_id) ==> after[stream_id].written
                < after[stream_id].body.len()
            &&& t.contains_key(stream_id) && t[stream_id].headers is None && result is Ok
                && t[stream_id].written + result->Ok_0 >= t[stream_id].body.len()
                ==> !after.contains_key(stream_id)
        }),
        !t.contains_key(stream_id) ==> {
            &&& stream_write(t, stream_id, capacity) == WriteView::Nothing
            &&& body_answered(t, stream_id, result) == (t, false)
            &&& headers_answered(t, stream_id, headers) == (t, false)
        },
{
}

/// Backpressure changes nothing. A header list that the stream is blocked
/// for stays pending, a chunk that the transport has no room for stays to be
/// written; the same write comes up again, and whatever answer it gets then
/// has the effect that it would have had at once.
pub proof fn lemma_backpressure(
    t: Responses,
    stream_id: u64,
    capacity: nat,
    later_headers: Result<(), TransportError>,
    later_body: Result<usize, TransportError>,
)
    ensures
        ({
            let blocked = headers_answered(t, stream_id, Err(TransportError::StreamBlocked));
            &&& blocked == (t, false)
            &&& stream_write(blocked.0, stream_id, capacity) == stream_write(t, stream_id, capacity)
            &&& headers_answered(blocked.0, stream_id, later_headers) == headers_answered(
                t,
                stream_id,
                later_headers,
            )
        }),
        ({
            let full = body_answered(t, stream_id, Err(TransportError::Done));
            &&& full == (t, false)
            &&& stream_write(full.0, stream_id, capacity) == stream_write(t, stream_id, capacity)
            &&& body_answered(full.0, stream_id, later_body) == body_answered(
                t,
                stream_id,
                later_body,
            )
        }),
{
    if t.contains_key(stream_id) {
        assert(t.insert(stream_id, t[stream_id]) =~= t);
    }
}

/// What goes out is the body, byte for byte. Whatever part of a chunk the
/// transport takes, what is out afterwards is what was out before and that
/// part; and with the write that ends the response, all of the body is out.
pub proof fn lemma_stream_is_body(r: PartialResponseView, capacity: nat, taken: usize)
    requires
        r.wf(),
        r.headers is None,
        taken <= r.body.chunk_len(r.written, capacity),
    ensures
        ({
            let chunk = r.body.chunk(r.written, capacity);
            &&& chunk.len() == r.body.chunk_len(r.written, capacity)
            &&& progress(r, Ok(taken)) == Progress::More ==> after_body(r, Ok(taken)).sent()
                == r.sent() + chunk.take(taken as int)
            &&& progress(r, Ok(taken)) == Progress::Over ==> r.sent() + chunk.take(taken as int)
                == r.body.bytes()
            &&& progress(r, Ok(taken)) == Progress::Wait ==> taken == 0
        }),
{
    let chunk = r.body.chunk(r.written, capacity);
    if progress(r, Ok(taken)) == Progress::More {
        assert(after_body(r, Ok(taken)).sent() =~= r.sent() + chunk.take(taken as int));
    } else if progress(r, Ok(taken)) == Progress::Over {
        assert(r.sent() + chunk.take(taken as int) =~= r.body.bytes());
    }
}

/// The length that a response announces is the length of its body.
pub proof fn lemma_content_length(path: Seq<u8>)
    ensures
        ({
            let r = response_for(path);
            &&& r.wf()
            &&& r.headers is Some
            &&& r.headers->0.len() == 3
            &&& r.headers->0[2].name == "content-length".spec_bytes()
            &&& r.headers->0[2].value == decimal_text(r.body.len())
            &&& crate::size::decimal_value(r.headers->0[2].value) == r.body.len()
        }),
{
    crate::size::lemma_decimal_round_trip(response_for(path).body.len());
}

/// The state that a server keeps for one connection: the responses in
/// progress, one per stream at most.
pub struct ConnAppData {
    partial_responses: HashMap<u64, PartialResponse>,
}

impl View for ConnAppData {
    type V = Responses;

    closed spec fn view(&self) -> Responses {
        self.partial_responses@.map_values(|r: PartialResponse| r@)
    }
}

impl ConnAppData {
    #[verifier::type_invariant]
    spec fn inv(&self) -> bool {
        responses_wf(self@)
    }

    /// The state of a connection on which no response is in progress.
    pub fn new() -> (c: ConnAppData)
        ensures
            c@ == Map::<u64, PartialResponseView>::empty(),
    {
        let c = ConnAppData { partial_responses: HashMap::new() };
        assert(c@ =~= Map::<u64, PartialResponseView>::empty());
        c
    }

    /// Takes the responses out, leaving none behind.
    fn take(&mut self) -> (responses: HashMap<u64, PartialResponse>)
        ensures
            responses@.map_values(|r: PartialResponse| r@) == old(self)@,
            final(self)@ == Map::<u64, PartialResponseView>::empty(),
    {
        let mut conn = ConnAppData::new();
        core::mem::swap(&mut conn, self);
        let ConnAppData { partial_responses } = conn;
        partial_responses
    }

    /// How many responses are in progress.
    pub fn len(&self) -> (n: usize)
        ensures
            n == self@.len(),
            responses_wf(self@),
    {
        proof {
            use_type_invariant(self);
        }
        broadcast use vstd::std_specs::hash::group_hash_axioms;

        assert(self@.dom() =~= self.partial_responses@.dom());
        self.partial_responses.len()
    }

    /// The response in progress on a stream.
    pub fn get(&self, stream_id: u64) -> (r: Option<&PartialResponse>)
        ensures
            match r {
                Some(response) => self@.contains_key(stream_id) && response@ == self@[stream_id]
                    && response@.wf(),
                None => !self@.contains_key(stream_id),
            },
    {
        broadcast use vstd::std_specs::hash::group_hash_axioms;

        proof {
            use_type_invariant(self);
        }
        self.partial_responses.get(&stream_id)
    }

    /// Handles one result of polling the HTTP/3 layer.
    pub fn handle_h3_request(&mut self, polled: Result<(u64, Event), TransportError>) -> (r:
        Result<RequestStep, ServerError>)
        ensures
            match requested(old(self)@, polled) {
                Ok((responses, step)) => r == Ok::<RequestStep, ServerError>(step) && final(self)@
                    == responses,
                Err(e) => r == Err::<RequestStep, ServerError>(e) && final(self)@ == old(self)@,
            },
            responses_wf(final(self)@),
    {
        proof {
            use_type_invariant(&*self);
        }
        broadcast use vstd::std_specs::hash::group_hash_axioms;

        match polled {
            Err(TransportError::Done) => Ok(RequestStep::Done),
            Err(_) => Err(ServerError::Transport),
            Ok((stream_id, Event::Headers { list, more_frames: _ })) => {
                match build_h3_response(list.as_slice()) {
                    Ok(response) => {
                        let ghost before = self@;
                        let ghost view = response@;
                        proof {
                            use_type_invariant(&response);
                        }
                        let mut responses = self.take();
                        responses.insert(stream_id, response);
                        assert(responses@.map_values(|r: PartialResponse| r@) =~= before.insert(
                            stream_id,
                            view,
                        ));
                        *self = ConnAppData { partial_responses: responses };
                        Ok(RequestStep::Continue)
                    },
                    Err(why) => Ok(
                        RequestStep::ShutdownWrite { stream_id, error_code: why.error_code() },
                    ),
                }
            },
            Ok((_, Event::Finished)) => Ok(RequestStep::Continue),
            Ok((_, Event::PriorityUpdate)) => Ok(RequestStep::Continue),
            Ok(_) => Err(ServerError::UnexpectedEvent),
        }
    }

    /// What to hand to the transport next for a stream that has become
    /// writable. Zeros are lent from `buf`.
    pub fn next_write<'a>(&'a self, stream_id: u64, buf: &'a ZeroBuffer) -> (w: Write<'a>)
        ensures
            w@ == stream_write(self@, stream_id, buf.capacity()),
    {
        match self.get(stream_id) {
            Some(response) => response.next_write(buf),
            None => Write::Nothing,
        }
    }

    /// Takes the transport's answer to the attempt to send the header list
    /// on a stream. `true`: go on to the body in this pass.
    pub fn headers_result(&mut self, stream_id: u64, result: Result<(), TransportError>) -> (go_on:
        bool)
        ensures
            (final(self)@, go_on) == headers_answered(old(self)@, stream_id, result),
            responses_wf(final(self)@),
    {
        broadcast use vstd::std_specs::hash::group_hash_axioms;

        let ghost before = self@;
        proof {
            use_type_invariant(&*self);
        }
        let mut responses = self.take();
        let go_on = match responses.remove(&stream_id) {
            Some(response) => {
                let mut response = response;
                let go_on = response.headers_result(result);
                let ghost view = response@;
                responses.insert(stream_id, response);
                assert(responses@.map_values(|r: PartialResponse| r@) =~= before.insert(
                    stream_id,
                    view,
                ));
                go_on
            },
            None => {
                assert(responses@.map_values(|r: PartialResponse| r@) =~= before);
                false
            },
        };
        *self = ConnAppData { partial_responses: responses };
        go_on
    }

    /// Takes the transport's answer to the attempt to write a chunk of the
    /// body on a stream. `true`: write on in this pass.
    pub fn body_result(&mut self, stream_id: u64, result: Result<usize, TransportError>) -> (go_on:
        bool)
        ensures
            (final(self)@, go_on) == body_answered(old(self)@, stream_id, result),
            responses_wf(final(self)@),
    {
        broadcast use vstd::std_specs::hash::group_hash_axioms;

        let ghost before = self@;
        proof {
            use_type_invariant(&*self);
        }
        let mut responses = self.take();
        let go_on = match responses.remove(&stream_id) {
            Some(response) => {
                let mut response = response;
                match response.body_result(result) {
                    Progress::More => {
                        let ghost view = response@;
                        responses.insert(stream_id, response);
                        assert(responses@.map_values(|r: PartialResponse| r@) =~= before.insert(
                            stream_id,
                            view,
                        ));
                        true
                    },
                    Progress::Wait => {
                        responses.insert(stream_id, response);
                        assert(responses@.map_values(|r: PartialResponse| r@) =~= before);
                        false
                    },
                    Progress::Over => {
                        assert(responses@.map_values(|r: PartialResponse| r@) =~= before.remove(
                            stream_id,
                        ));
                        false
                    },
                }
            },
            None => {
                assert(responses@.map_values(|r: PartialResponse| r@) =~= before);
                false
            },
        };
        *self = ConnAppData { partial_responses: responses };
        go_on
    }
}

/// Takes the events that the HTTP/3 layer has for the server, until it has
/// no more (and `ROUNDS` of them at most): starts the responses to the
/// requests among them, and shuts down the streams of the requests that are
/// turned away. What becomes of the responses in progress is what the poll
/// results make of them, one after the other. The pass ends well with the
/// end of the events, and with an error where a poll result is refused or a
/// stream cannot be shut down.
pub fn handle_h3_requests(
    h3_conn: &mut quiche::h3::Connection,
    quic_conn: &mut quiche::Connection,
    partial_responses: &mut ConnAppData,
) -> (r: Result<(), Failure<ServerError>>)
    ensures
        exists|answers: Seq<Answer>|
            {
                &&& final(partial_responses)@ == #[trigger] answered_all(
                    old(partial_responses)@,
                    answers,
                )
                &&& request_pass(old(partial_responses)@, answers, outcome(r))
            },
        responses_wf(final(partial_responses)@),
        r matches Err(failure) ==> (failure.cause is Refused <==> failure.error
            != ServerError::Transport),
{
    let ghost mut answers: Seq<Answer> = Seq::empty();
    let mut rounds: usize = ROUNDS;
    proof {
        use_type_invariant(&*partial_responses);
    }
    while rounds > 0
        invariant
            partial_responses@ == answered_all(old(partial_responses)@, answers),
            all_poll_on(old(partial_responses)@, answers),
            answers.len() == ROUNDS - rounds,
            responses_wf(partial_responses@),
        decreases rounds,
    {
        rounds = rounds - 1;
        let (polled, cause) = match poll(h3_conn, quic_conn) {
            Ok(event) => (Ok(event), Cause::Refused),
            Err(e) => (Err(to_error(&e)), Cause::H3(e)),
        };
        proof {
            let ghost before = answers;
            answers = answers.push(Answer::Polled(polled));
            assert(answers.drop_last() =~= before);
            assert(answers.last() == Answer::Polled(polled));
        }
        match partial_responses.handle_h3_request(polled) {
            Ok(RequestStep::Continue) => {},
            Ok(RequestStep::ShutdownWrite { stream_id, error_code }) => {
                match stream_shutdown_write(quic_conn, stream_id, error_code) {
                    Ok(_) => {},
                    Err(e) => {
                        assert(partial_responses@ == answered_all(
                            old(partial_responses)@,
                            answers,
                        ));
                        return Err(
                            Failure { error: ServerError::Transport, cause: Cause::Quic(e) },
                        );
                    },
                }
            },
            Ok(RequestStep::Done) => {
                assert(partial_responses@ == answered_all(old(partial_responses)@, answers));
                return Ok(());
            },
            Err(error) => {
                assert(partial_responses@ == answered_all(old(partial_responses)@, answers));
                return Err(Failure { error, cause });
            },
        }
    }
    assert(partial_responses@ == answered_all(old(partial_responses)@, answers));
    Ok(())
}

/// Writes to every stream that the transport reports as writable, in its
/// order: the header list of the response on it, then its body for as long
/// as the transport takes any. A stream without a response is passed over.
/// What becomes of the responses in progress is what the transport's answers
/// make of them, one after the other: no response is started, none gets
/// another body, and none falls back. Every write that lets the loop go on
/// brings a response forward, so the writing on a stream comes to an end.
pub fn handle_h3_writable(
    quic_conn: &mut quiche::Connection,
    h3_conn: &mut quiche::h3::Connection,
    partial_responses: &mut ConnAppData,
    buf: &ZeroBuffer,
)
    ensures
        exists|answers: Seq<Answer>|
            {
                &&& final(partial_responses)@ == #[trigger] answered_all(
                    old(partial_responses)@,
                    answers,
                )
                &&& forall|i: int| 0 <= i < answers.len() ==> !((#[trigger] answers[i]) is Polled)
            },
        responses_wf(final(partial_responses)@),
        final(partial_responses)@.dom().subset_of(old(partial_responses)@.dom()),
        forall|id: u64| #[trigger]
            final(partial_responses)@.contains_key(id) ==> final(partial_responses)@[id].body == old(
                partial_responses,
            )@[id].body && final(partial_responses)@[id].written >= old(
                partial_responses,
            )@[id].written,
{
    let ghost mut answers: Seq<Answer> = Seq::empty();
    let stream_ids = writable(quic_conn);
    let mut k: usize = 0;
    proof {
        use_type_invariant(&*partial_responses);
    }
    while k < stream_ids.len()
        invariant
            partial_responses@ == answered_all(old(partial_responses)@, answers),
            forall|i: int| 0 <= i < answers.len() ==> !((#[trigger] answers[i]) is Polled),
            responses_wf(partial_responses@),
            partial_responses@.dom().subset_of(old(partial_responses)@.dom()),
            forall|id: u64| #[trigger]
                partial_responses@.contains_key(id) ==> partial_responses@[id].body == old(
                    partial_responses,
                )@[id].body && partial_responses@[id].written >= old(partial_responses)@[id].written,
        decreases stream_ids.len() - k,
    {
        let stream_id: u64 = stream_ids[k];
        let mut go_on = true;
        while go_on
            invariant
                partial_responses@ == answered_all(old(partial_responses)@, answers),
                forall|i: int| 0 <= i < answers.len() ==> !((#[trigger] answers[i]) is Polled),
                responses_wf(partial_responses@),
                partial_responses@.dom().subset_of(old(partial_responses)@.dom()),
                forall|id: u64| #[trigger]
                    partial_responses@.contains_key(id) ==> partial_responses@[id].body == old(
                        partial_responses,
                    )@[id].body && partial_responses@[id].written >= old(
                        partial_responses,
                    )@[id].written,
            decreases
                    if go_on {
                        writes_left(partial_responses@, stream_id) + 1
                    } else {
                        0
                    },
        {
            let sent = match partial_responses.next_write(stream_id, buf) {
                Write::Nothing => Sent::Nothing,
                Write::Headers { list, fin } => match send_response(
                    h3_conn,
                    quic_conn,
                    stream_id,
                    list,
                    fin,
                ) {
                    Ok(_) => Sent::Headers(Ok(())),
                    Err(e) => Sent::Headers(Err(to_error(&e))),
                },
                Write::Body { chunk, fin } => match send_body(
                    h3_conn,
                    quic_conn,
                    stream_id,
                    chunk,
                    fin,
                ) {
                    Ok(written) => Sent::Body(Ok(written)),
                    Err(e) => Sent::Body(Err(to_error(&e))),
                },
            };
            let ghost before = answers;
            match sent {
                Sent::Nothing => {
                    go_on = false;
                },
                Sent::Headers(result) => {
                    go_on = partial_responses.headers_result(stream_id, result);
                    proof {
                        answers = answers.push(Answer::Headers(stream_id, result));
                        assert(answers.drop_last() =~= before);
                    }
                },
                Sent::Body(result) => {
                    go_on = partial_responses.body_result(stream_id, result);
                    proof {
                        answers = answers.push(Answer::Body(stream_id, result));
                        assert(answers.drop_last() =~= before);
                    }
                },
            }
        }
        k += 1;
    }
}

/// What the transport made of one write.
enum Sent {
    Nothing,
    Headers(Result<(), TransportError>),
    Body(Result<usize, TransportError>),
}

/// Serves one connection for one pass: sees to its HTTP/3 layer, takes the
/// requests that have arrived and then writes to the streams that are
/// writable. A connection that is not ready for HTTP/3 is left alone. What
/// becomes of the responses in progress is what the poll results and then
/// the answers to the writes make of them, one after the other. The result
/// is that of the pass over the requests; after an error nothing is written.
/// Without an HTTP/3 layer the pass fails only where the layer cannot be
/// created.
pub fn post_handle_recvs(
    h3_conn: &mut Option<quiche::h3::Connection>,
    quic_conn: &mut quiche::Connection,
    partial_responses: &mut ConnAppData,
    h3_config: &quiche::h3::Config,
    h3_buf: &ZeroBuffer,
) -> (r: Result<(), Failure<ServerError>>)
    ensures
        exists|polls: Seq<Answer>, writes: Seq<Answer>|
            {
                &&& final(partial_responses)@ == #[trigger] answered_all(
                    answered_all(old(partial_responses)@, polls),
                    writes,
                )
                &&& forall|i: int| 0 <= i < writes.len() ==> !((#[trigger] writes[i]) is Polled)
                &&& if polls.len() == 0 {
                    &&& writes.len() == 0
                    &&& (*old(h3_conn)) is None
                    &&& r is Ok || outcome(r) == Err::<(), ServerError>(ServerError::Transport)
                } else {
                    &&& request_pass(old(partial_responses)@, polls, outcome(r))
                    &&& r is Err ==> writes.len() == 0
                }
            },
        responses_wf(final(partial_responses)@),
        (*old(h3_conn)) is Some ==> (*final(h3_conn)) is Some,
        r matches Err(failure) ==> (failure.cause is Refused <==> failure.error
            != ServerError::Transport),
{
    let ghost none: Seq<Answer> = Seq::empty();
    proof {
        use_type_invariant(&*partial_responses);
        assert(partial_responses@ == answered_all(answered_all(partial_responses@, none), none));
    }
    match setup_h3(h3_conn, quic_conn, h3_config) {
        Ok(true) => {},
        Ok(false) => {
            return Ok(());
        },
        Err(e) => {
            return Err(Failure { error: ServerError::Transport, cause: Cause::H3(e) });
        },
    }
    match h3_conn {
        Some(h3) => {
            let requests = handle_h3_requests(h3, quic_conn, partial_responses);
            let ghost between = partial_responses@;
            let ghost polls = choose|answers: Seq<Answer>|
                {
                    &&& between == #[trigger] answered_all(old(partial_responses)@, answers)
                    &&& request_pass(old(partial_responses)@, answers, outcome(requests))
                };
            if requests.is_err() {
                assert(between == answered_all(answered_all(old(partial_responses)@, polls), none));
                return requests;
            }
            handle_h3_writable(quic_conn, h3, partial_responses, h3_buf);
            proof {
                let writes = choose|answers: Seq<Answer>|
                    {
                        &&& partial_responses@ == #[trigger] answered_all(between, answers)
                        &&& forall|i: int|
                            0 <= i < answers.len() ==> !((#[trigger] answers[i]) is Polled)
                    };
                assert(partial_responses@ == answered_all(
                    answered_all(old(partial_responses)@, polls),
                    writes,
                ));
            }
            Ok(())
        },
        None => Ok(()),
    }
}

} // verus!
