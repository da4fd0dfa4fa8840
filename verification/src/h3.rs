//! The values that the HTTP/3 layer and this library pass to each other:
//! header fields, events, and the ways in which a call can fail.

use crate::transport::{is_established, is_in_early_data, with_transport};
use vstd::prelude::*;
use vstd::utf8::{decode_utf8, valid_utf8};

verus! {

/// What a header field is: the bytes of its name and of its value.
pub struct HeaderView {
    pub name: Seq<u8>,
    pub value: Seq<u8>,
}

/// One HTTP/3 header field. Names and values are byte strings; nothing
/// requires them to be UTF-8.
#[derive(Debug, PartialEq, Eq)]
pub struct Header {
    pub(crate) name: Vec<u8>,
    pub(crate) value: Vec<u8>,
}

impl View for Header {
    type V = HeaderView;

    closed spec fn view(&self) -> HeaderView {
        HeaderView { name: self.name@, value: self.value@ }
    }
}

impl Header {
    /// A header field holding copies of `name` and `value`.
    pub fn new(name: &[u8], value: &[u8]) -> (h: Header)
        ensures
            h@.name == name@,
            h@.value == value@,
    {
        Header { name: vstd::slice::slice_to_vec(name), value: vstd::slice::slice_to_vec(value) }
    }

    /// The name of the field.
    pub fn name(&self) -> (n: &[u8])
        ensures
            n@ == self@.name,
    {
        self.name.as_slice()
    }

    /// The value of the field.
    pub fn value(&self) -> (v: &[u8])
        ensures
            v@ == self@.value,
    {
        self.value.as_slice()
    }

    /// An independent copy of this field.
    pub fn duplicate(&self) -> (h: Header)
        ensures
            h@ == self@,
    {
        Header::new(self.name(), self.value())
    }
}

/// The fields of a header list, in order.
pub open spec fn header_views(hdrs: Seq<Header>) -> Seq<HeaderView> {
    hdrs.map_values(|h: Header| h@)
}

/// Copies a header list field by field.
pub fn duplicate_headers(hdrs: &[Header]) -> (copy: Vec<Header>)
    ensures
        header_views(copy@) == header_views(hdrs@),
{
    let mut copy: Vec<Header> = Vec::new();
    let mut i: usize = 0;
    while i < hdrs.len()
        invariant
            i <= hdrs.len(),
            copy.len() == i,
            forall|j: int| 0 <= j < i ==> copy@[j]@ == hdrs@[j]@,
        decreases hdrs.len() - i,
    {
        copy.push(hdrs[i].duplicate());
        i += 1;
    }
    assert(header_views(copy@) =~= header_views(hdrs@));
    copy
}

/// Whether two byte strings hold the same bytes.
pub fn bytes_eq(a: &[u8], b: &[u8]) -> (same: bool)
    ensures
        same == (a@ == b@),
{
    if a.len() != b.len() {
        return false;
    }
    let mut i: usize = 0;
    while i < a.len()
        invariant
            i <= a.len(),
            a.len() == b.len(),
            forall|j: int| 0 <= j < i ==> a@[j] == b@[j],
        decreases a.len() - i,
    {
        if a[i] != b[i] {
            return false;
        }
        i += 1;
    }
    assert(a@ =~= b@);
    true
}

/// Why a call into the transport did not succeed.
#[derive(Debug, Clone, Copy, PartialEq, Eq, Structural)]
pub enum TransportError {
    /// Nothing to do for now: no event is pending, no data is waiting, or
    /// the stream has no capacity left.
    Done,
    /// The stream cannot take the data yet.
    StreamBlocked,
    /// The peer does not allow another stream to be opened yet.
    StreamLimit,
    /// Any other failure.
    Other,
}

/// An event that the HTTP/3 layer reports for a stream.
#[derive(Debug, PartialEq, Eq)]
pub enum Event {
    /// A complete header list has arrived.
    Headers { list: Vec<Header>, more_frames: bool },
    /// Body data is waiting to be read.
    Data,
    /// The peer has finished the stream.
    Finished,
    /// The peer has reset the stream with this error code.
    Reset(u64),
    /// A priority update has arrived.
    PriorityUpdate,
    /// The peer is going away.
    GoAway,
}

/// What is to be done about the HTTP/3 layer of a connection before its
/// events can be handled.
#[derive(Debug, Clone, Copy, PartialEq, Eq, Structural)]
pub enum Setup {
    /// The handshake has not come far enough: leave the connection alone.
    Wait,
    /// The connection has become usable: create its HTTP/3 layer, then go on.
    Create,
    /// The HTTP/3 layer exists: go on.
    Proceed,
}

/// Decides whether a connection's HTTP/3 layer is to be created now. It is
/// created once, as soon as the connection is established or takes early
/// data, and never looked at before that.
pub fn h3_setup(has_h3: bool, is_established: bool, is_in_early_data: bool) -> (s: Setup)
    ensures
        s == if has_h3 {
            Setup::Proceed
        } else if is_established || is_in_early_data {
            Setup::Create
        } else {
            Setup::Wait
        },
{
    if has_h3 {
        Setup::Proceed
    } else if is_established || is_in_early_data {
        Setup::Create
    } else {
        Setup::Wait
    }
}

/// The error of the transport behind a failure, kept as it came.
#[derive(Debug, Clone, Copy, PartialEq, Eq)]
pub enum Cause {
    /// No error of the transport: the library itself refused to go on.
    Refused,
    /// An error of the HTTP/3 layer.
    H3(quiche::h3::Error),
    /// An error of the QUIC connection.
    Quic(quiche::Error),
}

/// Why a pass over a connection failed: the error as the library tells it,
/// and the error of the transport behind it, where there is one.
#[derive(Debug, Clone, Copy, PartialEq, Eq)]
pub struct Failure<E> {
    pub error: E,
    pub cause: Cause,
}

/// How a pass ended, without the cause of a failure.
pub open spec fn outcome<T, E>(r: Result<T, Failure<E>>) -> Result<T, E> {
    match r {
        Ok(v) => Ok(v),
        Err(failure) => Err(failure.error),
    }
}

/// Sees to it that a connection has its HTTP/3 layer before its events are
/// handled: creates the layer once, as soon as the connection is established
/// or takes early data. `Ok(true)`: the layer is there. `Ok(false)`: the
/// connection is not ready for it. An error: the layer could not be
/// created; it is not tried again in this call.
pub fn setup_h3(
    h3_conn: &mut Option<quiche::h3::Connection>,
    quic_conn: &mut quiche::Connection,
    h3_config: &quiche::h3::Config,
) -> (r: Result<bool, quiche::h3::Error>)
    ensures
        r matches Ok(ready) && ready <==> (*final(h3_conn)) is Some,
        (*old(h3_conn)) is Some ==> *final(h3_conn) == *old(h3_conn),
{
    match h3_setup(h3_conn.is_some(), is_established(quic_conn), is_in_early_data(quic_conn)) {
        Setup::Wait => Ok(false),
        Setup::Proceed => Ok(true),
        Setup::Create => match with_transport(quic_conn, h3_config) {
            Ok(h3) => {
                *h3_conn = Some(h3);
                Ok(true)
            },
            Err(e) => Err(e),
        },
    }
}

/// The text that `String::from_utf8_lossy` makes of a byte string.
pub uninterp spec fn utf8_lossy(bytes: Seq<u8>) -> Seq<char>;

/// Calls `String::from_utf8_lossy` and keeps the text. That text depends
/// on the bytes alone; and bytes that are valid UTF-8 come back as the text
/// that they encode, which is all that is claimed of it here.
#[verifier::external_body]
fn from_utf8_lossy(bytes: &[u8]) -> (text: String)
    ensures
        text@ == utf8_lossy(bytes@),
        valid_utf8(bytes@) ==> text@ == decode_utf8(bytes@),
{
    String::from_utf8_lossy(bytes).into_owned()
}

/// The names and values of a header list as text, for a log or a message.
/// Bytes that are no UTF-8 are replaced as `String::from_utf8_lossy` does it.
pub fn hdrs_to_strings(hdrs: &[Header]) -> (texts: Vec<(String, String)>)
    ensures
        texts@.len() == hdrs@.len(),
        forall|i: int|
            0 <= i < hdrs@.len() ==> (#[trigger] texts@[i]).0@ == utf8_lossy(hdrs@[i]@.name)
                && texts@[i].1@ == utf8_lossy(hdrs@[i]@.value),
        forall|i: int|
            0 <= i < hdrs@.len() && valid_utf8(hdrs@[i]@.name) ==> (#[trigger] texts@[i]).0@
                == decode_utf8(hdrs@[i]@.name),
        forall|i: int|
            0 <= i < hdrs@.len() && valid_utf8(hdrs@[i]@.value) ==> (#[trigger] texts@[i]).1@
                == decode_utf8(hdrs@[i]@.value),
{
    let mut texts: Vec<(String, String)> = Vec::new();
    let mut i: usize = 0;
    while i < hdrs.len()
        invariant
            i <= hdrs.len(),
            texts@.len() == i,
            forall|j: int|
                0 <= j < i ==> (#[trigger] texts@[j]).0@ == utf8_lossy(hdrs@[j]@.name)
                    && texts@[j].1@ == utf8_lossy(hdrs@[j]@.value),
            forall|j: int|
                0 <= j < i && valid_utf8(hdrs@[j]@.name) ==> (#[trigger] texts@[j]).0@
                    == decode_utf8(hdrs@[j]@.name),
            forall|j: int|
                0 <= j < i && valid_utf8(hdrs@[j]@.value) ==> (#[trigger] texts@[j]).1@
                    == decode_utf8(hdrs@[j]@.value),
        decreases hdrs.len() - i,
    {
        let name = from_utf8_lossy(hdrs[i].name());
        let value = from_utf8_lossy(hdrs[i].value());
        texts.push((name, value));
        i += 1;
    }
    texts
}

} // verus!
