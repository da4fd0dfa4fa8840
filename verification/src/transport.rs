//! The calls into `quiche`. Nothing in this file is proved: each function
//! makes one call and copies values, and claims nothing of what comes back.

use crate::client::ConnectionError;
use crate::h3::{Event, Header, TransportError};
use quiche::h3::NameValue;
use vstd::prelude::*;

verus! {

/// A QUIC connection of `quiche`, carried through as it is: nothing is known of what it
/// holds.
#[verifier::external_type_specification]
#[verifier::external_body]
pub struct ExConnection(quiche::Connection);

/// A transport error of `quiche`, carried through as it is: nothing is known of what it
/// holds.
#[verifier::external_type_specification]
#[verifier::external_body]
pub struct ExError(quiche::Error);

/// An HTTP/3 connection of `quiche`, carried through as it is: nothing is known of what it
/// holds.
#[verifier::external_type_specification]
#[verifier::external_body]
pub struct ExH3Connection(quiche::h3::Connection);

/// An HTTP/3 configuration of `quiche`, carried through as it is: nothing is known of what it
/// holds.
#[verifier::external_type_specification]
#[verifier::external_body]
pub struct ExH3Config(quiche::h3::Config);

/// An HTTP/3 error of `quiche`, carried through as it is: nothing is known of what it
/// holds.
#[verifier::external_type_specification]
#[verifier::external_body]
pub struct ExH3Error(quiche::h3::Error);

/// An instant of the standard clock, carried through as it is: nothing is known of what it
/// holds.
#[verifier::external_type_specification]
#[verifier::external_body]
pub struct ExInstant(std::time::Instant);

/// Calls `quiche::Connection::is_established`. Nothing is claimed of the
/// answer.
#[verifier::external_body]
pub(crate) fn is_established(quic_conn: &quiche::Connection) -> (established: bool) {
    quic_conn.is_established()
}

/// Calls `quiche::Connection::is_in_early_data`. Nothing is claimed of the
/// answer.
#[verifier::external_body]
pub(crate) fn is_in_early_data(quic_conn: &quiche::Connection) -> (early: bool) {
    quic_conn.is_in_early_data()
}

/// What `quiche::Connection::is_timed_out` tells of a connection.
pub uninterp spec fn timed_out(quic_conn: &quiche::Connection) -> bool;

/// What `quiche::Connection::peer_error` finds on a connection: whether
/// the error is the application's, its code and its reason.
pub uninterp spec fn peer_error_on(quic_conn: &quiche::Connection) -> Option<(bool, u64, Seq<u8>)>;

/// What `quiche::Connection::local_error` finds on a connection: whether
/// the error is the application's, its code and its reason.
pub uninterp spec fn local_error_on(quic_conn: &quiche::Connection) -> Option<(bool, u64, Seq<u8>)>;

/// Calls `quiche::Connection::is_timed_out`, which reads the connection's
/// record. All that is claimed is that the answer depends on the connection
/// alone.
#[verifier::external_body]
pub(crate) fn is_timed_out(quic_conn: &quiche::Connection) -> (is_timed_out: bool)
    ensures
        is_timed_out == timed_out(quic_conn),
{
    quic_conn.is_timed_out()
}

/// Calls `quiche::Connection::peer_error`, which reads the connection's
/// record, and copies what it finds. All that is claimed is that it depends
/// on the connection alone.
#[verifier::external_body]
pub(crate) fn peer_error(quic_conn: &quiche::Connection) -> (error: Option<ConnectionError>)
    ensures
        match error {
            Some(e) => peer_error_on(quic_conn) == Some((e.is_app, e.error_code, e.reason@)),
            None => peer_error_on(quic_conn) is None,
        },
{
    quic_conn.peer_error().map(
        |e| ConnectionError { is_app: e.is_app, error_code: e.error_code, reason: e.reason.clone() },
    )
}

/// Calls `quiche::Connection::local_error`, which reads the connection's
/// record, and copies what it finds. All that is claimed is that it depends
/// on the connection alone.
#[verifier::external_body]
pub(crate) fn local_error(quic_conn: &quiche::Connection) -> (error: Option<ConnectionError>)
    ensures
        match error {
            Some(e) => local_error_on(quic_conn) == Some((e.is_app, e.error_code, e.reason@)),
            None => local_error_on(quic_conn) is None,
        },
{
    quic_conn.local_error().map(
        |e| ConnectionError { is_app: e.is_app, error_code: e.error_code, reason: e.reason.clone() },
    )
}

/// Calls `quiche::Connection::writable` and collects the stream ids that
/// it gives out, in its order. Nothing is claimed of them.
#[verifier::external_body]
pub(crate) fn writable(quic_conn: &quiche::Connection) -> (stream_ids: Vec<u64>) {
    quic_conn.writable().collect()
}

/// Calls `quiche::Connection::stream_shutdown` for the write side of the
/// stream. Nothing is claimed of the outcome.
#[verifier::external_body]
pub(crate) fn stream_shutdown_write(
    quic_conn: &mut quiche::Connection,
    stream_id: u64,
    error_code: u64,
) -> (r: Result<(), quiche::Error>) {
    quic_conn.stream_shutdown(stream_id, quiche::Shutdown::Write, error_code)
}

/// Calls `quiche::Connection::close`. Nothing is claimed of the outcome.
#[verifier::external_body]
pub(crate) fn close(quic_conn: &mut quiche::Connection, app: bool, err: u64, reason: &[u8]) -> (r:
    Result<(), quiche::Error>) {
    quic_conn.close(app, err, reason)
}

/// Calls `quiche::h3::Connection::with_transport`. Nothing is claimed of
/// the outcome.
#[verifier::external_body]
pub(crate) fn with_transport(
    quic_conn: &mut quiche::Connection,
    h3_config: &quiche::h3::Config,
) -> (r: Result<quiche::h3::Connection, quiche::h3::Error>) {
    quiche::h3::Connection::with_transport(quic_conn, h3_config)
}

/// Calls `quiche::h3::Connection::poll` and copies the event that it
/// gives out, variant for variant. Nothing is claimed of the outcome.
#[verifier::external_body]
pub(crate) fn poll(h3_conn: &mut quiche::h3::Connection, quic_conn: &mut quiche::Connection) -> (r:
    Result<(u64, Event), quiche::h3::Error>) {
    let (stream_id, event) = h3_conn.poll(quic_conn)?;
    let copy = |h: &quiche::h3::Header| Header { name: h.name().to_vec(), value: h.value().to_vec() };
    let event = match event {
        quiche::h3::Event::Headers { list, has_body } => {
            Event::Headers { list: list.iter().map(copy).collect(), more_frames: has_body }
        },
        quiche::h3::Event::Data => Event::Data,
        quiche::h3::Event::Finished => Event::Finished,
        quiche::h3::Event::Reset(code) => Event::Reset(code),
        quiche::h3::Event::PriorityUpdate => Event::PriorityUpdate,
        quiche::h3::Event::GoAway => Event::GoAway,
    };
    Ok((stream_id, event))
}

/// Tells the variants of `quiche::h3::Error` apart that the library treats
/// differently. Nothing is claimed of the result.
#[verifier::external_body]
pub(crate) fn to_error(error: &quiche::h3::Error) -> (e: TransportError) {
    match error {
        quiche::h3::Error::Done => TransportError::Done,
        quiche::h3::Error::StreamBlocked => TransportError::StreamBlocked,
        quiche::h3::Error::TransportError(quiche::Error::StreamLimit) => TransportError::StreamLimit,
        _ => TransportError::Other,
    }
}

/// Calls `quiche::h3::Connection::send_request` with the header list.
/// Nothing is claimed of the outcome.
#[verifier::external_body]
pub(crate) fn send_request(
    h3_conn: &mut quiche::h3::Connection,
    quic_conn: &mut quiche::Connection,
    headers: &Vec<Header>,
    fin: bool,
) -> (r: Result<u64, quiche::h3::Error>) {
    let list: Vec<_> = headers.iter().map(|h| quiche::h3::HeaderRef::new(&h.name, &h.value)).collect();
    h3_conn.send_request(quic_conn, &list, fin)
}

/// Calls `quiche::h3::Connection::send_response` with the header list.
/// Nothing is claimed of the outcome.
#[verifier::external_body]
pub(crate) fn send_response(
    h3_conn: &mut quiche::h3::Connection,
    quic_conn: &mut quiche::Connection,
    stream_id: u64,
    headers: &Vec<Header>,
    fin: bool,
) -> (r: Result<(), quiche::h3::Error>) {
    let list: Vec<_> = headers.iter().map(|h| quiche::h3::HeaderRef::new(&h.name, &h.value)).collect();
    h3_conn.send_response(quic_conn, stream_id, &list, fin)
}

/// Calls `quiche::h3::Connection::send_body`. Nothing is claimed of the
/// outcome.
#[verifier::external_body]
pub(crate) fn send_body(
    h3_conn: &mut quiche::h3::Connection,
    quic_conn: &mut quiche::Connection,
    stream_id: u64,
    body: &[u8],
    fin: bool,
) -> (r: Result<usize, quiche::h3::Error>) {
    h3_conn.send_body(quic_conn, stream_id, body, fin)
}

/// Calls `quiche::h3::Connection::recv_body`. Nothing is claimed of the
/// outcome, nor of what is left in `out`.
#[verifier::external_body]
pub(crate) fn recv_body(
    h3_conn: &mut quiche::h3::Connection,
    quic_conn: &mut quiche::Connection,
    stream_id: u64,
    out: &mut [u8],
) -> (r: Result<usize, quiche::h3::Error>) {
    h3_conn.recv_body(quic_conn, stream_id, out)
}

/// Reads the clock: the nanoseconds that `Instant::elapsed` gives since
/// `start`. Nothing is claimed of the reading.
#[verifier::external_body]
pub(crate) fn elapsed_nanos(start: &std::time::Instant) -> (nanos: u64) {
    start.elapsed().as_nanos() as u64
}

} // verus!
