use quiche_perf::body::ZeroBuffer;
use quiche_perf::client::{AppData, ConnAppData as ClientConn, Step};
use quiche_perf::h3::{Event, Header, TransportError};
use quiche_perf::metrics::{total_results, Totals};
use quiche_perf::request::url_request;
use quiche_perf::server::{ConnAppData as ServerConn, RequestStep, Write};

/// One stream of the stand-in transport.
struct Stream {
    id: u64,
    /// Whether the stream has refused the response headers once already.
    blocked_once: bool,
    /// The response headers, once the server has sent them.
    headers: Option<Vec<Header>>,
    headers_reported: bool,
    /// The body bytes that have arrived, and how many the client has not
    /// read yet.
    body: Vec<u8>,
    unread: usize,
    fin: bool,
    finished_reported: bool,
}

/// What a run of the stand-in transport came to.
struct Outcome {
    closes: usize,
    close_code: Option<u64>,
    stream_limit_hits: usize,
    blocked_headers: usize,
    full_streams: usize,
    passes: usize,
    streams: Vec<Stream>,
    client: ClientConn,
    app: AppData,
    server_left: usize,
    totals: Option<Totals>,
}

enum Action {
    Nothing,
    Headers(Vec<Header>),
    Body(Vec<u8>, bool),
}

/// Plays the transport between one client and one server in memory. At most
/// `stream_limit` streams are open at a time, a stream takes at most `window`
/// body bytes in a pass and refuses its response headers once, the server
/// writes through a buffer of `capacity` bytes, and the client reads at most
/// `scratch` bytes at a time.
fn run(
    url: &str,
    requests: usize,
    stream_limit: usize,
    window: usize,
    capacity: usize,
    scratch: usize,
) -> Outcome {
    let hdrs = url_request(url).unwrap();
    let mut client = ClientConn::new(&hdrs, requests);
    let mut app = AppData::new(0, false);
    let mut server = ServerConn::new();
    let buf = ZeroBuffer::new(capacity);
    let mut streams: Vec<Stream> = Vec::new();
    let mut to_server: Vec<(u64, Event)> = Vec::new();
    let mut open = 0;
    let mut now: u64 = 1_000;
    let mut outcome_closes = 0;
    let mut close_code = None;
    let mut stream_limit_hits = 0;
    let mut blocked_headers = 0;
    let mut full_streams = 0;
    let mut passes = 0;
    let mut totals = None;

    while outcome_closes == 0 {
        passes += 1;
        assert!(passes < 100_000, "the batch does not complete");

        // The client sends what it may.
        while let Some((list, fin)) = client.next_request() {
            assert!(fin);
            let result = if open < stream_limit {
                let id = 4 * streams.len() as u64;
                let list = list.iter().map(|h| h.duplicate()).collect();
                to_server.push((id, Event::Headers { list, more_frames: false }));
                streams.push(Stream {
                    id,
                    blocked_once: false,
                    headers: None,
                    headers_reported: false,
                    body: Vec::new(),
                    unread: 0,
                    fin: false,
                    finished_reported: false,
                });
                open += 1;
                Ok(id)
            } else {
                stream_limit_hits += 1;
                Err(TransportError::StreamLimit)
            };
            if !client.request_result(result).unwrap() {
                break;
            }
        }

        // The server takes the requests.
        loop {
            let polled = if to_server.is_empty() {
                Err(TransportError::Done)
            } else {
                Ok(to_server.remove(0))
            };
            match server.handle_h3_request(polled).unwrap() {
                RequestStep::Continue => {},
                RequestStep::ShutdownWrite { .. } => panic!("a request was turned away"),
                RequestStep::Done => break,
            }
        }

        // The server writes to every stream, the latest first.
        for stream in streams.iter_mut().rev() {
            let mut room = window;
            loop {
                let action = match server.next_write(stream.id, &buf) {
                    Write::Nothing => Action::Nothing,
                    Write::Headers { list, fin } => {
                        assert!(!fin);
                        Action::Headers(list.iter().map(|h| h.duplicate()).collect())
                    },
                    Write::Body { chunk, fin } => Action::Body(chunk.to_vec(), fin),
                };
                match action {
                    Action::Nothing => break,
                    Action::Headers(list) => {
                        let result = if stream.blocked_once {
                            assert!(stream.headers.is_none());
                            stream.headers = Some(list);
                            Ok(())
                        } else {
                            stream.blocked_once = true;
                            blocked_headers += 1;
                            Err(TransportError::StreamBlocked)
                        };
                        if !server.headers_result(stream.id, result) {
                            break;
                        }
                    },
                    Action::Body(chunk, fin) => {
                        assert!(stream.headers.is_some());
                        assert!(!stream.fin);
                        let result = if room == 0 && !chunk.is_empty() {
                            full_streams += 1;
                            Err(TransportError::Done)
                        } else {
                            let taken = chunk.len().min(room);
                            room -= taken;
                            stream.body.extend_from_slice(&chunk[..taken]);
                            stream.unread += taken;
                            stream.fin = fin && taken == chunk.len();
                            Ok(taken)
                        };
                        if !server.body_result(stream.id, result) {
                            break;
                        }
                    },
                }
            }
        }

        // The client takes what has arrived.
        'poll: loop {
            now += 1_000;
            let mut polled = Err(TransportError::Done);
            for stream in streams.iter_mut() {
                if stream.headers.is_some() && !stream.headers_reported {
                    stream.headers_reported = true;
                    let list = stream.headers.as_ref().unwrap().iter().map(|h| h.duplicate());
                    polled = Ok((
                        stream.id,
                        Event::Headers { list: list.collect(), more_frames: true },
                    ));
                    break;
                }
                if stream.unread > 0 {
                    polled = Ok((stream.id, Event::Data));
                    break;
                }
                if stream.fin && !stream.finished_reported {
                    stream.finished_reported = true;
                    open -= 1;
                    polled = Ok((stream.id, Event::Finished));
                    break;
                }
            }
            match client.handle_h3_response(&mut app, polled, now).unwrap() {
                Step::Continue => {},
                Step::ReadBody { stream_id } => {
                    let stream = streams.iter_mut().find(|s| s.id == stream_id).unwrap();
                    loop {
                        let result = if stream.unread == 0 {
                            Err(TransportError::Done)
                        } else {
                            let read = stream.unread.min(scratch);
                            stream.unread -= read;
                            Ok(read)
                        };
                        if !client.record_body(stream_id, result).unwrap() {
                            break;
                        }
                    }
                },
                Step::Close { app, error_code } => {
                    assert!(app);
                    outcome_closes += 1;
                    close_code = Some(error_code);
                    totals = total_results(client.reqs());
                    break 'poll;
                },
                Step::Done => break,
            }
        }
    }

    // Nothing that comes after the close makes the client close again.
    for stream in streams.iter() {
        if let Ok(Step::Close { .. }) =
            client.handle_h3_response(&mut app, Ok((stream.id, Event::Finished)), now)
        {
            outcome_closes += 1;
        }
    }

    Outcome {
        closes: outcome_closes,
        close_code,
        stream_limit_hits,
        blocked_headers,
        full_streams,
        passes,
        streams,
        server_left: server.len(),
        client,
        app,
        totals,
    }
}

fn response_headers(status: &[u8], length: &[u8]) -> Vec<Header> {
    vec![
        Header::new(b":status", status),
        Header::new(b"server", b"quiche"),
        Header::new(b"content-length", length),
    ]
}

#[test]
fn a_million_bytes_over_one_stream() {
    let outcome = run("https://localhost:4433/mem/1000000", 1, 100, 150_000, 65_535 * 8, 65_535);
    assert_eq!(outcome.closes, 1);
    assert_eq!(outcome.close_code, Some(0x100));
    assert_eq!(outcome.streams.len(), 1);
    let stream = &outcome.streams[0];
    assert_eq!(stream.headers, Some(response_headers(b"200", b"1000000")));
    assert_eq!(stream.body.len(), 1_000_000);
    assert!(stream.body.iter().all(|b| *b == 0));
    assert!(stream.fin);
    assert!(outcome.full_streams > 0);
    assert_eq!(outcome.blocked_headers, 1);
    assert_eq!(outcome.server_left, 0);

    let req = &outcome.client.reqs()[0];
    assert_eq!(req.received_body_bytes, 1_000_000);
    assert_eq!(outcome.client.reqs_complete(), 1);
    assert_eq!(outcome.app.reqs_complete, 1);

    let totals = outcome.totals.unwrap();
    let from = req.received_header_instant.unwrap();
    let to = req.received_body_instant.unwrap();
    assert_eq!(totals, Totals { requests: 1, bytes: 1_000_000, earliest: from, latest: to });
    let nanos = (to - from) as u128;
    assert_eq!(totals.duration_nanos(), Some(to - from));
    assert_eq!(totals.goodput_bps(), Some(1_000_000 * 8 * 1_000_000_000 / nanos));
    assert_eq!(req.goodput_bps(), totals.goodput_bps());
}

#[test]
fn an_unknown_path_over_one_stream() {
    let outcome = run("https://localhost:4433/unknown", 1, 100, 16, 1_024, 7);
    assert_eq!(outcome.closes, 1);
    let stream = &outcome.streams[0];
    assert_eq!(stream.headers, Some(response_headers(b"404", b"40")));
    assert_eq!(stream.body, b"404 Not Found; try e.g. /mem/1MB instead");
    assert_eq!(stream.body.len(), 40);
    assert_eq!(outcome.client.reqs()[0].received_body_bytes, 40);
    assert_eq!(outcome.server_left, 0);
}

#[test]
fn four_requests_under_a_stream_limit_of_two() {
    let outcome = run("https://localhost:4433/mem/10kB", 4, 2, 3_000, 4_096, 1_350);
    assert_eq!(outcome.closes, 1);
    assert_eq!(outcome.close_code, Some(0x100));
    assert!(outcome.stream_limit_hits > 0);
    assert_eq!(outcome.blocked_headers, 4);
    assert_eq!(outcome.streams.len(), 4);
    for stream in &outcome.streams {
        assert_eq!(stream.headers, Some(response_headers(b"200", b"10000")));
        assert_eq!(stream.body.len(), 10_000);
        assert!(stream.body.iter().all(|b| *b == 0));
    }
    assert_eq!(outcome.client.reqs().len(), 4);
    for (i, req) in outcome.client.reqs().iter().enumerate() {
        assert_eq!(req.stream_id, Some(4 * i as u64));
        assert_eq!(req.received_body_bytes, 10_000);
        assert!(req.received_header_instant.unwrap() < req.received_body_instant.unwrap());
    }
    assert_eq!(outcome.client.reqs_hdrs_sent(), 4);
    assert_eq!(outcome.client.reqs_complete(), 4);
    assert_eq!(outcome.app.reqs_complete, 4);
    assert_eq!(outcome.server_left, 0);
    let totals = outcome.totals.unwrap();
    assert_eq!(totals.requests, 4);
    assert_eq!(totals.bytes, 40_000);
}

#[test]
fn a_stream_limit_of_one_serves_the_requests_one_by_one() {
    let outcome = run("https://localhost:4433/mem/1kB", 5, 1, 400, 300, 64);
    assert_eq!(outcome.closes, 1);
    assert!(outcome.stream_limit_hits >= 4);
    for req in outcome.client.reqs() {
        assert_eq!(req.received_body_bytes, 1_000);
    }
    let reqs = outcome.client.reqs();
    for pair in reqs.windows(2) {
        assert!(pair[0].received_body_instant.unwrap() < pair[1].received_header_instant.unwrap());
    }
    assert_eq!(outcome.app.reqs_complete, 5);
}

#[test]
fn a_window_of_one_byte_still_gets_the_body_through() {
    let outcome = run("https://localhost:4433/mem/50", 2, 2, 1, 8, 3);
    assert_eq!(outcome.closes, 1);
    assert!(outcome.passes >= 50);
    for stream in &outcome.streams {
        assert_eq!(stream.body, vec![0u8; 50]);
    }
}

#[test]
fn empty_bodies_complete() {
    let outcome = run("https://localhost:4433/mem/0", 3, 2, 10, 10, 10);
    assert_eq!(outcome.closes, 1);
    for stream in &outcome.streams {
        assert_eq!(stream.headers, Some(response_headers(b"200", b"0")));
        assert!(stream.body.is_empty());
        assert!(stream.fin);
    }
    assert_eq!(outcome.app.reqs_complete, 3);
}
