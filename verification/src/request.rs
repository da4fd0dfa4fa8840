//! The header list of the request for a URL.

use crate::h3::{header_views, Header, HeaderView};
use crate::size::{decimal_digits, decimal_text};
use vstd::prelude::*;
use vstd::string::StringSliceAdditionalSpecFns;
use vstd::utf8::encode_utf8;

verus! {

/// What the `url` crate reads in a string: nothing where `Url::parse`
/// refuses it, otherwise the host as `host_str` gives it, the port as `port`
/// gives it, and the text from `Position::BeforePath` to the end.
pub uninterp spec fn url_parts(input: Seq<char>) -> Option<(Option<Seq<char>>, Option<u16>, Seq<char>)>;

/// The parts of a URL that a request is made from.
#[derive(Debug, PartialEq, Eq)]
pub struct Target {
    /// The host, where the URL has one.
    pub host: Option<String>,
    /// The port, where the URL gives one that is not the default of its
    /// scheme.
    pub port: Option<u16>,
    /// The path with all that follows it.
    pub path: String,
}

/// What a target is, for the purposes of contracts.
pub struct TargetView {
    pub host: Option<Seq<char>>,
    pub port: Option<u16>,
    pub path: Seq<char>,
}

impl View for Target {
    type V = TargetView;

    open spec fn view(&self) -> TargetView {
        TargetView {
            host: match self.host {
                Some(h) => Some(h@),
                None => None,
            },
            port: self.port,
            path: self.path@,
        }
    }
}

/// Calls `Url::parse` and reads the result back through `host_str`, `port`
/// and the slice from `Position::BeforePath`. Nothing is claimed of what
/// comes back but that it depends on the string alone.
#[verifier::external_body]
fn parse_url(input: &str) -> (target: Option<Target>)
    ensures
        match target {
            Some(t) => url_parts(input@) == Some((t@.host, t@.port, t@.path)),
            None => url_parts(input@) is None,
        },
{
    let url = url::Url::parse(input).ok()?;
    Some(
        Target {
            host: url.host_str().map(|h| h.to_string()),
            port: url.port(),
            path: url[url::Position::BeforePath..].to_string(),
        },
    )
}

/// The authority of a request: the host, and after a colon the port where
/// one is given.
pub open spec fn authority(host: Seq<u8>, port: Option<u16>) -> Seq<u8> {
    match port {
        Some(p) => host + ":".spec_bytes() + decimal_text(p as nat),
        None => host,
    }
}

/// The header list of a GET over https.
pub open spec fn get_headers(authority: Seq<u8>, path: Seq<u8>) -> Seq<HeaderView> {
    seq![
        HeaderView { name: ":method".spec_bytes(), value: "GET".spec_bytes() },
        HeaderView { name: ":scheme".spec_bytes(), value: "https".spec_bytes() },
        HeaderView { name: ":authority".spec_bytes(), value: authority },
        HeaderView { name: ":path".spec_bytes(), value: path },
        HeaderView { name: "user-agent".spec_bytes(), value: "quiche".spec_bytes() },
    ]
}

/// The header list of the request for a target: that of a GET over https.
pub open spec fn target_headers(t: TargetView) -> Option<Seq<HeaderView>> {
    match t.host {
        Some(host) => Some(get_headers(authority(encode_utf8(host), t.port), encode_utf8(t.path))),
        None => None,
    }
}

/// Makes the header list of the request for a target. `None` for a target
/// without a host.
pub fn request_headers(target: &Target) -> (r: Option<Vec<Header>>)
    ensures
        match r {
            Some(hdrs) => target_headers(target@) == Some(header_views(hdrs@)),
            None => target_headers(target@) is None,
        },
{
    let host: &str = match &target.host {
        Some(h) => h.as_str(),
        None => {
            return None;
        },
    };
    let mut name: Vec<u8> = Vec::new();
    name.extend_from_slice(host.as_bytes());
    assert(name@ =~= encode_utf8(host@));
    match target.port {
        Some(port) => {
            let colon = ":".as_bytes();
            let digits = decimal_digits(port as usize);
            let ghost before = name@;
            name.extend_from_slice(colon);
            assert(name@ =~= before + colon@);
            let ghost with_colon = name@;
            name.extend_from_slice(digits.as_slice());
            assert(name@ =~= with_colon + digits@);
        },
        None => {},
    }
    assert(name@ == authority(encode_utf8(host@), target.port));
    let mut hdrs: Vec<Header> = Vec::new();
    hdrs.push(Header::new(":method".as_bytes(), "GET".as_bytes()));
    hdrs.push(Header::new(":scheme".as_bytes(), "https".as_bytes()));
    hdrs.push(Header::new(":authority".as_bytes(), name.as_slice()));
    hdrs.push(Header::new(":path".as_bytes(), target.path.as_str().as_bytes()));
    hdrs.push(Header::new("user-agent".as_bytes(), "quiche".as_bytes()));
    assert(header_views(hdrs@) =~= target_headers(target@)->0);
    Some(hdrs)
}

/// Makes the header list of the request for a URL. `None` for a string that
/// is no URL, and for a URL without a host.
pub fn url_request(url: &str) -> (r: Option<Vec<Header>>)
    ensures
        match url_parts(url@) {
            Some((host, port, path)) => match r {
                Some(hdrs) => target_headers(TargetView { host, port, path }) == Some(
                    header_views(hdrs@),
                ),
                None => host is None,
            },
            None => r is None,
        },
{
    match parse_url(url) {
        Some(target) => request_headers(&target),
        None => None,
    }
}

} // verus!
