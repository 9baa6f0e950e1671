use httpd_core::chunked_bufreader::ChunkedBufReader;
use httpd_core::paths::{any_segment_contains_slash, is_path_ancestor_of};
use httpd_core::peekable_bufreader::PeekableBufReader;
use httpd_core::response::Response;
use httpd_core::rule::Method;

#[test]
fn cursor_peek_then_next_returns_same_byte() {
    let mut cursor = PeekableBufReader::new(vec![10, 20, 30]);
    assert_eq!(cursor.peek(), Some(10));
    assert_eq!(cursor.peek(), Some(10));
    assert_eq!(cursor.next(), Some(10));
    assert_eq!(cursor.next(), Some(20));
    assert_eq!(cursor.peek(), Some(30));
    assert_eq!(cursor.next(), Some(30));
    assert_eq!(cursor.peek(), None);
    assert_eq!(cursor.next(), None);
}

#[test]
fn cursor_empty_source() {
    let mut cursor = PeekableBufReader::new(Vec::new());
    assert_eq!(cursor.peek(), None);
    assert_eq!(cursor.next(), None);
}

#[test]
fn method_from_string_recognises_all_eight() {
    assert_eq!(Method::from_string("GET"), Some(Method::GET));
    assert_eq!(Method::from_string("HEAD"), Some(Method::HEAD));
    assert_eq!(Method::from_string("POST"), Some(Method::POST));
    assert_eq!(Method::from_string("PUT"), Some(Method::PUT));
    assert_eq!(Method::from_string("DELETE"), Some(Method::DELETE));
    assert_eq!(Method::from_string("CONNECT"), Some(Method::CONNECT));
    assert_eq!(Method::from_string("OPTIONS"), Some(Method::OPTIONS));
    assert_eq!(Method::from_string("TRACE"), Some(Method::TRACE));
}

#[test]
fn method_from_string_rejects_others() {
    assert_eq!(Method::from_string("PATCH"), None);
    assert_eq!(Method::from_string("get"), None);
    assert_eq!(Method::from_string(""), None);
    assert_eq!(Method::from_string("GETX"), None);
}

#[test]
fn chunked_reader_splits_at_chunk_size() {
    // a source of exactly 4096 * 2 + 10 bytes yields chunks of 4096,
    // 4096 and 10 bytes, then terminates
    let source = vec![7u8; 4096 * 2 + 10];
    let mut reader = ChunkedBufReader::new(source);
    assert_eq!(reader.next_chunk().unwrap().len(), 4096);
    assert_eq!(reader.next_chunk().unwrap().len(), 4096);
    assert_eq!(reader.next_chunk().unwrap().len(), 10);
    assert!(reader.next_chunk().is_none());
    assert!(reader.next_chunk().is_none());
}

#[test]
fn chunked_reader_empty_source_yields_no_chunks() {
    let mut reader = ChunkedBufReader::new(Vec::new());
    assert!(reader.next_chunk().is_none());
}

#[test]
fn chunked_reader_preserves_bytes_in_order() {
    let source: Vec<u8> = (0..10000u32).map(|i| (i % 251) as u8).collect();
    let mut reader = ChunkedBufReader::new(source.clone());
    let mut gathered = Vec::new();
    while let Some(chunk) = reader.next_chunk() {
        assert!(chunk.len() <= 4096);
        gathered.extend_from_slice(&chunk);
    }
    assert_eq!(gathered, source);
}

#[test]
fn response_status_lines() {
    assert_eq!(Response::Success.status_line(), "HTTP/1.1 200 OK\r\n\r\n");
    assert_eq!(
        Response::BadRequest.status_line(),
        "HTTP/1.1 400 Bad Request\r\n\r\n"
    );
    assert_eq!(
        Response::NotFound.status_line(),
        "HTTP/1.1 404 Not Found\r\n\r\n"
    );
    assert_eq!(
        Response::NotImplemented.status_line(),
        "HTTP/1.1 501 Not Implemented\r\n\r\n"
    );
    assert_eq!(
        Response::InternalServerError.status_line(),
        "HTTP/1.1 500 InternalServerError\r\n\r\n"
    );
}

#[test]
fn path_ancestor_prefix_holds() {
    let root = vec!["srv".to_string(), "www".to_string()];
    let child = vec!["srv".to_string(), "www".to_string(), "index".to_string()];
    assert!(is_path_ancestor_of(&root, &child));
    assert!(is_path_ancestor_of(&root, &root));
    assert!(!is_path_ancestor_of(&child, &root));
}

#[test]
fn path_ancestor_mismatch_fails() {
    let root = vec!["srv".to_string(), "www".to_string()];
    let other = vec!["srv".to_string(), "mail".to_string(), "x".to_string()];
    assert!(!is_path_ancestor_of(&root, &other));
}

#[test]
fn segment_slash_detection() {
    assert!(!any_segment_contains_slash(&vec![
        "a".to_string(),
        "b".to_string()
    ]));
    assert!(any_segment_contains_slash(&vec![
        "a".to_string(),
        "b/c".to_string()
    ]));
    assert!(!any_segment_contains_slash(&Vec::new()));
}
