use quiche_perf::h3::Header;
use quiche_perf::request::{request_headers, url_request, Target};

fn get(authority: &[u8], path: &[u8]) -> Vec<Header> {
    vec![
        Header::new(b":method", b"GET"),
        Header::new(b":scheme", b"https"),
        Header::new(b":authority", authority),
        Header::new(b":path", path),
        Header::new(b"user-agent", b"quiche"),
    ]
}

#[test]
fn a_target_with_a_port() {
    let target =
        Target { host: Some("example.org".to_string()), port: Some(4433), path: "/mem/1MB".to_string() };
    assert_eq!(request_headers(&target), Some(get(b"example.org:4433", b"/mem/1MB")));
}

#[test]
fn a_target_without_a_port() {
    let target = Target { host: Some("example.org".to_string()), port: None, path: "/".to_string() };
    assert_eq!(request_headers(&target), Some(get(b"example.org", b"/")));
}

#[test]
fn ports_are_written_in_decimal() {
    for (port, text) in [(0u16, "h:0"), (1, "h:1"), (80, "h:80"), (65_535, "h:65535")] {
        let target = Target { host: Some("h".to_string()), port: Some(port), path: "".to_string() };
        assert_eq!(request_headers(&target), Some(get(text.as_bytes(), b"")));
    }
}

#[test]
fn a_target_without_a_host_makes_no_request() {
    let target = Target { host: None, port: Some(1), path: "/mem/1".to_string() };
    assert_eq!(request_headers(&target), None);
}

#[test]
fn text_goes_out_as_utf8() {
    let target =
        Target { host: Some("b\u{fc}cher".to_string()), port: None, path: "/caf\u{e9}".to_string() };
    assert_eq!(request_headers(&target), Some(get(b"b\xc3\xbccher", b"/caf\xc3\xa9")));
}

#[test]
fn a_url_with_a_port() {
    assert_eq!(
        url_request("https://127.0.0.1:4433/mem/1000000"),
        Some(get(b"127.0.0.1:4433", b"/mem/1000000"))
    );
}

#[test]
fn a_url_with_the_port_of_its_scheme() {
    assert_eq!(url_request("https://example.org/mem/10kB"), Some(get(b"example.org", b"/mem/10kB")));
    assert_eq!(
        url_request("https://example.org:443/mem/10kB"),
        Some(get(b"example.org", b"/mem/10kB"))
    );
}

#[test]
fn a_url_without_a_path_asks_for_the_root() {
    assert_eq!(url_request("https://example.org"), Some(get(b"example.org", b"/")));
}

#[test]
fn query_and_fragment_stay_with_the_path() {
    assert_eq!(
        url_request("https://example.org:8443/mem/1MB?a=b#c"),
        Some(get(b"example.org:8443", b"/mem/1MB?a=b#c"))
    );
}

#[test]
fn the_host_is_normalised() {
    assert_eq!(url_request("HTTPS://EXAMPLE.org:1/A"), Some(get(b"example.org:1", b"/A")));
    assert_eq!(url_request("https://[::1]:4433/mem/1"), Some(get(b"[::1]:4433", b"/mem/1")));
}

#[test]
fn what_is_no_url_makes_no_request() {
    assert_eq!(url_request(""), None);
    assert_eq!(url_request("/mem/1MB"), None);
    assert_eq!(url_request("example.org/mem/1MB"), None);
    assert_eq!(url_request("https://"), None);
    assert_eq!(url_request("https://example.org:99999/"), None);
}

#[test]
fn a_url_without_a_host_makes_no_request() {
    assert_eq!(url_request("mailto:someone@example.org"), None);
    assert_eq!(url_request("data:text/plain,hello"), None);
}
