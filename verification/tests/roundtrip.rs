use httpd_core::flatten::{HTTPRequest, Version};
use httpd_core::parser::Parser;
use httpd_core::peekable_bufreader::PeekableBufReader;
use httpd_core::rule::Method;
use httpd_core::serialize::serialize_request_line;

fn parse(input: &[u8]) -> Option<HTTPRequest> {
    Parser::new(PeekableBufReader::new(input.to_vec())).parse()
}

fn reparse_serialized(request: &HTTPRequest) -> HTTPRequest {
    // the serialised request-line plus an empty header section is a whole
    // message again
    let mut bytes = serialize_request_line(request);
    bytes.extend_from_slice(b"\r\n");
    parse(&bytes).unwrap()
}

#[test]
fn request_line_round_trip_plain() {
    let request = parse(b"GET /foo/bar HTTP/1.1\r\n\r\n").unwrap();
    let again = reparse_serialized(&request);
    assert_eq!(again.method, Method::GET);
    assert_eq!(again.version, Version::Http1_1);
    assert_eq!(again.requested_path, request.requested_path);
}

#[test]
fn request_line_round_trip_decoded_specials() {
    // the decoded slash and space survive the round trip because the
    // serialiser re-encodes every path character
    let request = parse(b"DELETE /a%2Fb/%20x HTTP/1.0\r\n\r\n").unwrap();
    assert_eq!(
        request.requested_path,
        vec!["a/b".to_string(), " x".to_string()]
    );
    let again = reparse_serialized(&request);
    assert_eq!(again.method, Method::DELETE);
    assert_eq!(again.version, Version::Http1_0);
    assert_eq!(again.requested_path, request.requested_path);
}

#[test]
fn request_line_round_trip_drops_query() {
    let request = parse(b"GET /p?q=1 HTTP/0.9\r\n\r\n").unwrap();
    let again = reparse_serialized(&request);
    assert_eq!(again.method, Method::GET);
    assert_eq!(again.version, Version::Http0_9);
    assert_eq!(again.requested_path, vec!["p".to_string()]);
}

#[test]
fn serialized_request_line_bytes() {
    let request = parse(b"GET /ab HTTP/1.1\r\n\r\n").unwrap();
    let bytes = serialize_request_line(&request);
    assert_eq!(bytes, b"GET /%61%62 HTTP/1.1\r\n".to_vec());
}
