use httpd_core::flatten::{HTTPRequest, Version};
use httpd_core::parser::Parser;
use httpd_core::peekable_bufreader::PeekableBufReader;
use httpd_core::rule::Method;

fn parse(input: &[u8]) -> Option<HTTPRequest> {
    Parser::new(PeekableBufReader::new(input.to_vec())).parse()
}

#[test]
fn end_to_end() {
    let request = parse(b"GET /foo/bar?x=1 HTTP/1.1\r\nHost: h\r\n\r\n").unwrap();
    assert_eq!(request.method, Method::GET);
    assert_eq!(request.version, Version::Http1_1);
    assert_eq!(
        request.requested_path,
        vec!["foo".to_string(), "bar".to_string()]
    );
    assert_eq!(request.headers.get("Host").unwrap(), &b"h".to_vec());
}

#[test]
fn method_boundary_get_parses() {
    let request = parse(b"GET /a HTTP/1.1\r\n\r\n").unwrap();
    assert_eq!(request.method, Method::GET);
    assert_eq!(request.requested_path, vec!["a".to_string()]);
}

#[test]
fn method_boundary_patch_fails() {
    assert!(parse(b"PATCH /a HTTP/1.1\r\n\r\n").is_none());
}

#[test]
fn non_get_methods_parse() {
    assert_eq!(
        parse(b"DELETE /a HTTP/1.1\r\n\r\n").unwrap().method,
        Method::DELETE
    );
    assert_eq!(
        parse(b"OPTIONS /a HTTP/1.1\r\n\r\n").unwrap().method,
        Method::OPTIONS
    );
}

#[test]
fn version_boundary() {
    assert_eq!(
        parse(b"GET /a HTTP/1.1\r\n\r\n").unwrap().version,
        Version::Http1_1
    );
    assert_eq!(
        parse(b"GET /a HTTP/1.0\r\n\r\n").unwrap().version,
        Version::Http1_0
    );
    assert_eq!(
        parse(b"GET /a HTTP/0.9\r\n\r\n").unwrap().version,
        Version::Http0_9
    );
    assert!(parse(b"GET /a HTTP/2.0\r\n\r\n").is_none());
    assert!(parse(b"GET /a HTTP/1.2\r\n\r\n").is_none());
}

#[test]
fn percent_decoding_round_trip() {
    let request = parse(b"GET /%41%42 HTTP/1.1\r\n\r\n").unwrap();
    assert_eq!(request.requested_path, vec!["AB".to_string()]);
}

#[test]
fn percent_decoding_incomplete_fails() {
    assert!(parse(b"GET /%4 HTTP/1.1\r\n\r\n").is_none());
}

#[test]
fn percent_decoding_non_hex_fails() {
    assert!(parse(b"GET /%GZ HTTP/1.1\r\n\r\n").is_none());
}

#[test]
fn percent_decoding_high_byte_is_latin1() {
    let request = parse(b"GET /%FF HTTP/1.1\r\n\r\n").unwrap();
    assert_eq!(request.requested_path, vec!["\u{FF}".to_string()]);
}

#[test]
fn encoded_slash_stays_in_segment() {
    let request = parse(b"GET /a%2Fb HTTP/1.1\r\n\r\n").unwrap();
    assert_eq!(request.requested_path, vec!["a/b".to_string()]);
}

#[test]
fn header_folding() {
    let request = parse(b"GET /a HTTP/1.1\r\nX-A:  foo   bar  \r\n\r\n").unwrap();
    assert_eq!(request.headers.get("X-A").unwrap(), &b"foo bar".to_vec());
}

#[test]
fn header_trailing_whitespace_stripped() {
    let request = parse(b"GET /a HTTP/1.1\r\nX-A: a \r\n\r\n").unwrap();
    assert_eq!(request.headers.get("X-A").unwrap(), &b"a".to_vec());
}

#[test]
fn header_empty_value() {
    let request = parse(b"GET /a HTTP/1.1\r\nX-A:\r\n\r\n").unwrap();
    assert_eq!(request.headers.get("X-A").unwrap(), &b"".to_vec());
}

#[test]
fn duplicate_headers_later_wins() {
    let request =
        parse(b"GET /a HTTP/1.1\r\nX-A: first\r\nX-A: second\r\n\r\n").unwrap();
    assert_eq!(request.headers.get("X-A").unwrap(), &b"second".to_vec());
}

#[test]
fn header_names_case_sensitive() {
    let request = parse(b"GET /a HTTP/1.1\r\nHost: h\r\n\r\n").unwrap();
    assert!(request.headers.get("host").is_none());
    assert!(request.headers.get("Host").is_some());
}

#[test]
fn root_path_is_one_empty_segment() {
    let request = parse(b"GET / HTTP/1.1\r\n\r\n").unwrap();
    assert_eq!(request.requested_path, vec!["".to_string()]);
}

#[test]
fn trailing_slash_gives_empty_segment() {
    let request = parse(b"GET /a/ HTTP/1.1\r\n\r\n").unwrap();
    assert_eq!(request.requested_path, vec!["a".to_string(), "".to_string()]);
}

#[test]
fn query_is_parsed_but_dropped() {
    let request = parse(b"GET /a?k=v&x=%20 HTTP/1.1\r\n\r\n").unwrap();
    assert_eq!(request.requested_path, vec!["a".to_string()]);
}

#[test]
fn malformed_query_fails() {
    assert!(parse(b"GET /a?%G HTTP/1.1\r\n\r\n").is_none());
}

#[test]
fn missing_path_fails() {
    assert!(parse(b"GET  HTTP/1.1\r\n\r\n").is_none());
}

#[test]
fn truncated_input_fails() {
    assert!(parse(b"GET /a HTTP/1.1\r\nHost: h").is_none());
    assert!(parse(b"GET /a HTTP/1.1\r\nHost: h\r\n").is_none());
    assert!(parse(b"GET /a HTTP/1.1\r\n").is_none());
    assert!(parse(b"GET /a HTTP/1.1").is_none());
    assert!(parse(b"").is_none());
}

#[test]
fn bare_lf_fails() {
    assert!(parse(b"GET /a HTTP/1.1\n\n").is_none());
}

#[test]
fn trailing_bytes_are_ignored() {
    let request = parse(b"GET /a HTTP/1.1\r\n\r\nleftover body bytes").unwrap();
    assert_eq!(request.requested_path, vec!["a".to_string()]);
}

#[test]
fn single_space_words_beyond_pair_fail() {
    // field-content pairs at most two visible characters around one
    // whitespace run, so a third single-character word cannot start a new
    // unit and the field fails to terminate.
    assert!(parse(b"GET /a HTTP/1.1\r\nX-A: a b c\r\n\r\n").is_none());
}
