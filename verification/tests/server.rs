use quiche_perf::body::{ResponseBody, ZeroBuffer};
use quiche_perf::h3::{Event, Header, TransportError};
use quiche_perf::server::{
    build_h3_response, ConnAppData, PartialResponse, Progress, Rejection, RequestStep,
    ServerError, Write,
};

fn get(path: &[u8]) -> Vec<Header> {
    vec![
        Header::new(b":method", b"GET"),
        Header::new(b":scheme", b"https"),
        Header::new(b":authority", b"localhost:4433"),
        Header::new(b":path", path),
        Header::new(b"user-agent", b"quiche"),
    ]
}

fn headers_event(stream_id: u64, list: Vec<Header>) -> Result<(u64, Event), TransportError> {
    Ok((stream_id, Event::Headers { list, more_frames: false }))
}

fn response_headers(status: &[u8], length: &[u8]) -> Vec<Header> {
    vec![
        Header::new(b":status", status),
        Header::new(b"server", b"quiche"),
        Header::new(b"content-length", length),
    ]
}

#[test]
fn a_size_directive_gets_zeros() {
    let response = build_h3_response(&get(b"/mem/1000000")).unwrap();
    assert_eq!(response.written(), 0);
    assert_eq!(response.headers(), Some(&response_headers(b"200", b"1000000")));
    assert_eq!(*response.body(), ResponseBody::Zeros(1_000_000));
}

#[test]
fn a_unit_is_worked_into_the_length() {
    let response = build_h3_response(&get(b"/mem/10kB")).unwrap();
    assert_eq!(response.headers(), Some(&response_headers(b"200", b"10000")));
    assert_eq!(*response.body(), ResponseBody::Zeros(10_000));
}

#[test]
fn an_unknown_path_gets_the_not_found_text() {
    let response = build_h3_response(&get(b"/unknown")).unwrap();
    assert_eq!(response.written(), 0);
    assert_eq!(response.headers(), Some(&response_headers(b"404", b"40")));
    assert_eq!(
        *response.body(),
        ResponseBody::Static(b"404 Not Found; try e.g. /mem/1MB instead")
    );
    assert_eq!(response.body().len(), 40);
}

#[test]
fn a_path_with_text_after_the_directive_gets_the_not_found_text() {
    for path in [&b"/mem/1MB/extra"[..], b"/mem/5?x=1", b"/x/mem/5", b"/mem/5kB "] {
        let response = build_h3_response(&get(path)).unwrap();
        assert_eq!(response.headers(), Some(&response_headers(b"404", b"40")));
        assert_eq!(
            *response.body(),
            ResponseBody::Static(b"404 Not Found; try e.g. /mem/1MB instead")
        );
    }
}

#[test]
fn a_request_without_a_path_gets_the_not_found_text() {
    let request = vec![Header::new(b":method", b"GET"), Header::new(b":scheme", b"https")];
    let response = build_h3_response(&request).unwrap();
    assert_eq!(response.headers(), Some(&response_headers(b"404", b"40")));
    let response = build_h3_response(&[]).unwrap();
    assert_eq!(response.headers(), Some(&response_headers(b"404", b"40")));
}

#[test]
fn a_count_beyond_usize_gets_the_not_found_text() {
    let response = build_h3_response(&get(b"/mem/99999999999999999999999999")).unwrap();
    assert_eq!(response.headers(), Some(&response_headers(b"404", b"40")));
}

#[test]
fn headers_with_other_names_are_passed_over() {
    let mut request = get(b"/mem/5");
    request.insert(0, Header::new(b"accept", b"*/*"));
    request.push(Header::new(b"x-\xff", b"\xfe"));
    request.push(Header::new(b":Path", b"/mem/6"));
    let response = build_h3_response(&request).unwrap();
    assert_eq!(*response.body(), ResponseBody::Zeros(5));
}

#[test]
fn a_second_path_is_turned_away() {
    let mut request = get(b"/mem/5");
    request.push(Header::new(b":path", b"/mem/6"));
    assert_eq!(build_h3_response(&request), Err(Rejection::DuplicatePath));
    let twice = vec![Header::new(b":path", b"/a"), Header::new(b":path", b"/a")];
    assert_eq!(build_h3_response(&twice), Err(Rejection::DuplicatePath));
}

#[test]
fn another_method_is_turned_away() {
    let mut request = get(b"/mem/5");
    request[0] = Header::new(b":method", b"POST");
    assert_eq!(build_h3_response(&request), Err(Rejection::Protocol));
    request[0] = Header::new(b":method", b"get");
    assert_eq!(build_h3_response(&request), Err(Rejection::Protocol));
    request[0] = Header::new(b":method", b"GET\xff");
    assert_eq!(build_h3_response(&request), Err(Rejection::Protocol));
}

#[test]
fn another_scheme_is_turned_away() {
    let mut request = get(b"/mem/5");
    request[1] = Header::new(b":scheme", b"http");
    assert_eq!(build_h3_response(&request), Err(Rejection::Protocol));
}

#[test]
fn the_first_fault_decides() {
    let request = vec![
        Header::new(b":path", b"/mem/1"),
        Header::new(b":path", b"/mem/2"),
        Header::new(b":method", b"POST"),
    ];
    assert_eq!(build_h3_response(&request), Err(Rejection::DuplicatePath));
    let request = vec![
        Header::new(b":path", b"/mem/1"),
        Header::new(b":method", b"POST"),
        Header::new(b":path", b"/mem/2"),
    ];
    assert_eq!(build_h3_response(&request), Err(Rejection::Protocol));
}

#[test]
fn error_codes_of_rejections() {
    assert_eq!(Rejection::DuplicatePath.error_code(), 0x10f);
    assert_eq!(Rejection::Protocol.error_code(), 0x101);
}

#[test]
fn a_response_sends_headers_before_body() {
    let buf = ZeroBuffer::new(4);
    let mut response = PartialResponse::new(response_headers(b"200", b"10"), ResponseBody::Zeros(10));
    assert_eq!(response.next_write(&buf), Write::Headers { list: &response_headers(b"200", b"10"), fin: false });
    assert_eq!(response.body_result(Ok(4)), Progress::Wait);
    assert_eq!(response.written(), 0);
    assert!(response.headers_result(Ok(())));
    assert_eq!(response.headers(), None);
    assert_eq!(response.next_write(&buf), Write::Body { chunk: &[0, 0, 0, 0], fin: false });
}

#[test]
fn a_blocked_header_list_stays_pending() {
    let buf = ZeroBuffer::new(4);
    let mut response = PartialResponse::new(response_headers(b"200", b"10"), ResponseBody::Zeros(10));
    assert!(!response.headers_result(Err(TransportError::StreamBlocked)));
    assert_eq!(response.next_write(&buf), Write::Headers { list: &response_headers(b"200", b"10"), fin: false });
    assert!(!response.headers_result(Err(TransportError::Other)));
    assert_eq!(response.next_write(&buf), Write::Headers { list: &response_headers(b"200", b"10"), fin: false });
    assert!(!response.headers_result(Err(TransportError::Done)));
    assert_eq!(response.headers(), Some(&response_headers(b"200", b"10")));
    assert!(response.headers_result(Ok(())));
    assert!(response.headers_result(Ok(())));
    assert_eq!(response.headers(), None);
}

#[test]
fn a_body_advances_by_what_the_transport_takes() {
    let buf = ZeroBuffer::new(4);
    let mut response = PartialResponse::new(Vec::new(), ResponseBody::Zeros(10));
    assert!(response.headers_result(Ok(())));
    assert_eq!(response.body_result(Ok(3)), Progress::More);
    assert_eq!(response.written(), 3);
    assert_eq!(response.next_write(&buf), Write::Body { chunk: &[0, 0, 0, 0], fin: false });
    assert_eq!(response.body_result(Ok(0)), Progress::Wait);
    assert_eq!(response.written(), 3);
    assert_eq!(response.body_result(Err(TransportError::Done)), Progress::Wait);
    assert_eq!(response.written(), 3);
    assert_eq!(response.body_result(Ok(4)), Progress::More);
    assert_eq!(response.written(), 7);
    assert_eq!(response.next_write(&buf), Write::Body { chunk: &[0, 0, 0], fin: true });
    assert_eq!(response.body_result(Ok(2)), Progress::More);
    assert_eq!(response.written(), 9);
    assert_eq!(response.next_write(&buf), Write::Body { chunk: &[0], fin: true });
    assert_eq!(response.body_result(Ok(1)), Progress::Over);
}

#[test]
fn a_failed_body_write_ends_the_response() {
    let mut response = PartialResponse::new(Vec::new(), ResponseBody::Zeros(10));
    assert!(response.headers_result(Ok(())));
    assert_eq!(response.body_result(Err(TransportError::Other)), Progress::Over);
    assert_eq!(response.body_result(Err(TransportError::StreamBlocked)), Progress::Over);
    assert_eq!(response.body_result(Err(TransportError::StreamLimit)), Progress::Over);
    assert_eq!(response.written(), 0);
}

#[test]
fn a_transport_that_claims_too_much_ends_the_response() {
    let mut response = PartialResponse::new(Vec::new(), ResponseBody::Zeros(10));
    assert!(response.headers_result(Ok(())));
    assert_eq!(response.body_result(Ok(11)), Progress::Over);
    assert_eq!(response.written(), 0);
    assert_eq!(response.body_result(Ok(usize::MAX)), Progress::Over);
    assert_eq!(response.written(), 0);
}

#[test]
fn an_empty_body_ends_with_its_first_write() {
    let buf = ZeroBuffer::new(4);
    let mut response = PartialResponse::new(Vec::new(), ResponseBody::Zeros(0));
    assert!(response.headers_result(Ok(())));
    assert_eq!(response.next_write(&buf), Write::Body { chunk: &[], fin: true });
    assert_eq!(response.body_result(Ok(0)), Progress::Over);
}

#[test]
fn a_new_connection_has_no_responses() {
    let buf = ZeroBuffer::new(4);
    let conn = ConnAppData::new();
    assert_eq!(conn.len(), 0);
    assert_eq!(conn.get(0), None);
    assert_eq!(conn.next_write(0, &buf), Write::Nothing);
}

#[test]
fn a_request_starts_a_response_on_its_stream() {
    let mut conn = ConnAppData::new();
    assert_eq!(
        conn.handle_h3_request(headers_event(4, get(b"/mem/1000000"))),
        Ok(RequestStep::Continue)
    );
    assert_eq!(conn.len(), 1);
    assert_eq!(conn.get(0), None);
    let response = conn.get(4).unwrap();
    assert_eq!(response.written(), 0);
    assert_eq!(response.headers(), Some(&response_headers(b"200", b"1000000")));
    assert_eq!(*response.body(), ResponseBody::Zeros(1_000_000));
}

#[test]
fn a_second_request_on_a_stream_replaces_the_first() {
    let mut conn = ConnAppData::new();
    assert_eq!(conn.handle_h3_request(headers_event(4, get(b"/mem/10"))), Ok(RequestStep::Continue));
    assert!(conn.headers_result(4, Ok(())));
    assert!(conn.body_result(4, Ok(3)));
    assert_eq!(conn.handle_h3_request(headers_event(4, get(b"/mem/20"))), Ok(RequestStep::Continue));
    assert_eq!(conn.len(), 1);
    let response = conn.get(4).unwrap();
    assert_eq!(response.written(), 0);
    assert_eq!(response.headers(), Some(&response_headers(b"200", b"20")));
}

#[test]
fn a_request_that_is_turned_away_starts_no_response() {
    let mut conn = ConnAppData::new();
    let mut request = get(b"/mem/5");
    request.push(Header::new(b":path", b"/mem/6"));
    assert_eq!(
        conn.handle_h3_request(headers_event(8, request)),
        Ok(RequestStep::ShutdownWrite { stream_id: 8, error_code: 0x10f })
    );
    assert_eq!(conn.len(), 0);
    let mut request = get(b"/mem/5");
    request[0] = Header::new(b":method", b"PUT");
    assert_eq!(
        conn.handle_h3_request(headers_event(12, request)),
        Ok(RequestStep::ShutdownWrite { stream_id: 12, error_code: 0x101 })
    );
    assert_eq!(conn.len(), 0);
}

#[test]
fn a_request_that_is_turned_away_leaves_a_response_in_progress_alone() {
    let mut conn = ConnAppData::new();
    assert_eq!(conn.handle_h3_request(headers_event(4, get(b"/mem/10"))), Ok(RequestStep::Continue));
    let mut request = get(b"/mem/5");
    request[1] = Header::new(b":scheme", b"http");
    assert_eq!(
        conn.handle_h3_request(headers_event(4, request)),
        Ok(RequestStep::ShutdownWrite { stream_id: 4, error_code: 0x101 })
    );
    assert_eq!(conn.get(4).unwrap().headers(), Some(&response_headers(b"200", b"10")));
}

#[test]
fn events_that_change_nothing() {
    let mut conn = ConnAppData::new();
    assert_eq!(conn.handle_h3_request(headers_event(4, get(b"/mem/10"))), Ok(RequestStep::Continue));
    assert_eq!(conn.handle_h3_request(Ok((4, Event::Finished))), Ok(RequestStep::Continue));
    assert_eq!(conn.handle_h3_request(Ok((4, Event::PriorityUpdate))), Ok(RequestStep::Continue));
    assert_eq!(conn.handle_h3_request(Err(TransportError::Done)), Ok(RequestStep::Done));
    assert_eq!(conn.len(), 1);
    assert_eq!(conn.get(4).unwrap().written(), 0);
}

#[test]
fn events_that_the_server_gives_up_on() {
    let mut conn = ConnAppData::new();
    assert_eq!(conn.handle_h3_request(headers_event(4, get(b"/mem/10"))), Ok(RequestStep::Continue));
    assert_eq!(conn.handle_h3_request(Ok((4, Event::Data))), Err(ServerError::UnexpectedEvent));
    assert_eq!(conn.handle_h3_request(Ok((4, Event::Reset(7)))), Err(ServerError::UnexpectedEvent));
    assert_eq!(conn.handle_h3_request(Ok((0, Event::GoAway))), Err(ServerError::UnexpectedEvent));
    assert_eq!(conn.handle_h3_request(Err(TransportError::Other)), Err(ServerError::Transport));
    assert_eq!(
        conn.handle_h3_request(Err(TransportError::StreamBlocked)),
        Err(ServerError::Transport)
    );
    assert_eq!(conn.handle_h3_request(Err(TransportError::StreamLimit)), Err(ServerError::Transport));
    assert_eq!(conn.len(), 1);
}

#[test]
fn a_writable_stream_without_a_response_is_no_error() {
    let buf = ZeroBuffer::new(4);
    let mut conn = ConnAppData::new();
    assert_eq!(conn.handle_h3_request(headers_event(4, get(b"/mem/10"))), Ok(RequestStep::Continue));
    assert_eq!(conn.next_write(8, &buf), Write::Nothing);
    assert!(!conn.headers_result(8, Ok(())));
    assert!(!conn.body_result(8, Ok(3)));
    assert!(!conn.body_result(8, Err(TransportError::Other)));
    assert_eq!(conn.len(), 1);
    assert_eq!(conn.get(4).unwrap().written(), 0);
    assert_eq!(conn.get(4).unwrap().headers(), Some(&response_headers(b"200", b"10")));
}

#[test]
fn backpressure_on_the_headers_changes_nothing() {
    let buf = ZeroBuffer::new(4);
    let mut conn = ConnAppData::new();
    assert_eq!(conn.handle_h3_request(headers_event(4, get(b"/mem/10"))), Ok(RequestStep::Continue));
    assert!(!conn.headers_result(4, Err(TransportError::StreamBlocked)));
    assert_eq!(conn.next_write(4, &buf), Write::Headers { list: &response_headers(b"200", b"10"), fin: false });
    assert!(!conn.headers_result(4, Err(TransportError::Other)));
    assert_eq!(conn.next_write(4, &buf), Write::Headers { list: &response_headers(b"200", b"10"), fin: false });
    assert!(conn.headers_result(4, Ok(())));
    assert_eq!(conn.next_write(4, &buf), Write::Body { chunk: &[0, 0, 0, 0], fin: false });
}

#[test]
fn backpressure_on_the_body_changes_nothing() {
    let buf = ZeroBuffer::new(4);
    let mut conn = ConnAppData::new();
    assert_eq!(conn.handle_h3_request(headers_event(4, get(b"/mem/10"))), Ok(RequestStep::Continue));
    assert!(conn.headers_result(4, Ok(())));
    assert!(conn.body_result(4, Ok(4)));
    assert!(!conn.body_result(4, Err(TransportError::Done)));
    assert_eq!(conn.get(4).unwrap().written(), 4);
    assert_eq!(conn.next_write(4, &buf), Write::Body { chunk: &[0, 0, 0, 0], fin: false });
    assert!(conn.body_result(4, Ok(4)));
    assert_eq!(conn.next_write(4, &buf), Write::Body { chunk: &[0, 0], fin: true });
}

#[test]
fn a_response_that_is_out_leaves_the_connection() {
    let buf = ZeroBuffer::new(4);
    let mut conn = ConnAppData::new();
    assert_eq!(conn.handle_h3_request(headers_event(4, get(b"/mem/10"))), Ok(RequestStep::Continue));
    assert_eq!(conn.handle_h3_request(headers_event(8, get(b"/mem/3"))), Ok(RequestStep::Continue));
    assert!(conn.headers_result(4, Ok(())));
    assert!(conn.body_result(4, Ok(4)));
    assert!(conn.body_result(4, Ok(4)));
    assert!(!conn.body_result(4, Ok(2)));
    assert_eq!(conn.get(4), None);
    assert_eq!(conn.len(), 1);
    assert_eq!(conn.next_write(4, &buf), Write::Nothing);
    assert!(!conn.body_result(4, Ok(1)));
    assert_eq!(conn.len(), 1);
    assert_eq!(conn.get(8).unwrap().written(), 0);
}

#[test]
fn a_failed_body_write_removes_the_response() {
    let mut conn = ConnAppData::new();
    assert_eq!(conn.handle_h3_request(headers_event(4, get(b"/mem/10"))), Ok(RequestStep::Continue));
    assert_eq!(conn.handle_h3_request(headers_event(8, get(b"/mem/10"))), Ok(RequestStep::Continue));
    assert!(conn.headers_result(4, Ok(())));
    assert!(conn.body_result(4, Ok(4)));
    assert!(!conn.body_result(4, Err(TransportError::Other)));
    assert_eq!(conn.get(4), None);
    assert_eq!(conn.len(), 1);
}

#[test]
fn a_body_write_before_the_headers_does_not_count() {
    let mut conn = ConnAppData::new();
    assert_eq!(conn.handle_h3_request(headers_event(4, get(b"/mem/10"))), Ok(RequestStep::Continue));
    assert!(!conn.body_result(4, Ok(4)));
    assert!(!conn.body_result(4, Err(TransportError::Other)));
    assert_eq!(conn.get(4).unwrap().written(), 0);
    assert_eq!(conn.get(4).unwrap().headers(), Some(&response_headers(b"200", b"10")));
}

#[test]
fn the_not_found_text_goes_out_whole_or_in_parts() {
    let buf = ZeroBuffer::new(4);
    let mut conn = ConnAppData::new();
    assert_eq!(conn.handle_h3_request(headers_event(0, get(b"/unknown"))), Ok(RequestStep::Continue));
    assert!(conn.headers_result(0, Ok(())));
    assert_eq!(
        conn.next_write(0, &buf),
        Write::Body { chunk: b"404 Not Found; try e.g. /mem/1MB instead", fin: true }
    );
    assert!(conn.body_result(0, Ok(14)));
    assert_eq!(conn.next_write(0, &buf), Write::Body { chunk: b" try e.g. /mem/1MB instead", fin: true });
    assert!(!conn.body_result(0, Ok(26)));
    assert_eq!(conn.len(), 0);
}

#[test]
fn streams_make_progress_in_any_order() {
    let buf = ZeroBuffer::new(4);
    let mut conn = ConnAppData::new();
    for id in [0u64, 4, 8] {
        assert_eq!(
            conn.handle_h3_request(headers_event(id, get(b"/mem/6"))),
            Ok(RequestStep::Continue)
        );
    }
    let order = [8u64, 0, 4, 4, 8, 0, 0, 8, 4, 4, 0, 8];
    let mut sent = [0usize; 3];
    for id in order {
        let (len, is_headers) = match conn.next_write(id, &buf) {
            Write::Nothing => continue,
            Write::Headers { .. } => (0, true),
            Write::Body { chunk, .. } => (chunk.len().min(2), false),
        };
        if is_headers {
            assert!(conn.headers_result(id, Ok(())));
        } else {
            sent[(id / 4) as usize] += len;
            conn.body_result(id, Ok(len));
        }
    }
    assert_eq!(sent, [6, 6, 6]);
    assert_eq!(conn.len(), 0);
}
