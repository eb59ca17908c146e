use bytes::BytesMut;
use std::collections::HashMap;

use http_request::{decode, span_at, DecodeError, Request, StringMap};

fn buffer(text: &[u8]) -> BytesMut {
    BytesMut::from(text)
}

fn decode_one(text: &[u8]) -> Request {
    let mut buf = buffer(text);
    decode(&mut buf).unwrap().unwrap()
}

fn key(s: &str) -> String {
    s.to_string()
}

#[test]
fn partial_request_needs_more_data() {
    let text = b"GET /foo HTTP/1.1\r\nHost: example.com\r\n";
    let mut buf = buffer(text);
    assert!(matches!(decode(&mut buf), Ok(None)));
    assert_eq!(&buf[..], &text[..]);
}

#[test]
fn every_prefix_of_a_request_needs_more_data() {
    let text = b"POST /submit HTTP/1.1\r\nHost: a\r\nContent-Length: 0\r\n\r\n";
    for n in 0..text.len() {
        let mut buf = buffer(&text[..n]);
        assert!(matches!(decode(&mut buf), Ok(None)), "prefix of {} bytes", n);
        assert_eq!(&buf[..], &text[..n]);
    }
}

#[test]
fn empty_buffer_needs_more_data() {
    let mut buf = BytesMut::new();
    assert!(matches!(decode(&mut buf), Ok(None)));
    assert_eq!(buf.len(), 0);
}

#[test]
fn request_line_round_trips() {
    let req = decode_one(b"GET /foo/bar HTTP/1.1\r\nHost: x\r\n\r\n");
    assert_eq!(req.method(), "GET");
    assert_eq!(req.path(), "/foo/bar");
    assert_eq!(req.version(), 1);
}

#[test]
fn http_1_0_has_version_zero() {
    let req = decode_one(b"DELETE /item/7 HTTP/1.0\r\n\r\n");
    assert_eq!(req.method(), "DELETE");
    assert_eq!(req.path(), "/item/7");
    assert_eq!(req.version(), 0);
}

#[test]
fn complete_request_takes_the_whole_buffer() {
    let text = b"GET /a HTTP/1.1\r\nHost: x\r\n\r\nGET /b HTTP/1.1\r\n\r\n";
    let mut buf = buffer(text);
    let req = decode(&mut buf).unwrap().unwrap();
    assert_eq!(req.method(), "GET");
    assert_eq!(req.path(), "/a");
    assert_eq!(buf.len(), 0);
    assert!(req.body_is_text());
    assert_eq!(req.raw_body(), "GET /b HTTP/1.1\r\n\r\n");
    assert!(matches!(decode(&mut buf), Ok(None)));
}

#[test]
fn body_runs_from_header_end() {
    let req = decode_one(b"POST /p HTTP/1.1\r\nContent-Length: 7\r\n\r\n{\"a\":1}");
    assert_eq!(req.raw_body(), "{\"a\":1}");
}

#[test]
fn empty_body_when_nothing_follows_headers() {
    let req = decode_one(b"GET / HTTP/1.1\r\n\r\n");
    assert_eq!(req.raw_body(), "");
    assert_eq!(req.path(), "/");
}

#[test]
fn duplicate_header_last_wins() {
    let req = decode_one(b"GET / HTTP/1.1\r\nX-A: 1\r\nX-A: 2\r\n\r\n");
    assert!(req.headers_are_text());
    let headers = req.headers();
    assert_eq!(headers.len(), 1);
    assert_eq!(headers.get(&key("X-A")), Some(&key("2")));
}

#[test]
fn headers_map_names_to_values() {
    let req = decode_one(b"GET / HTTP/1.1\r\nHost: example.com\r\nAccept: */*\r\n\r\n");
    let headers = req.headers();
    assert_eq!(headers.len(), 2);
    assert_eq!(headers.get(&key("Host")), Some(&key("example.com")));
    assert_eq!(headers.get(&key("Accept")), Some(&key("*/*")));
    assert_eq!(headers.get(&key("Missing")), None);
}

#[test]
fn no_headers_gives_empty_map() {
    let req = decode_one(b"GET / HTTP/1.1\r\n\r\n");
    assert!(req.headers().is_empty());
}

#[test]
fn non_utf8_header_value_is_reported() {
    let req = decode_one(b"GET / HTTP/1.1\r\nX-Bin: a\xffb\r\n\r\n");
    assert!(!req.headers_are_text());
}

#[test]
fn non_utf8_body_is_reported() {
    let req = decode_one(b"POST / HTTP/1.1\r\n\r\n\xfe\xff");
    assert!(!req.body_is_text());
}

fn request_with_headers(count: usize) -> Vec<u8> {
    let mut text = b"GET / HTTP/1.1\r\n".to_vec();
    for i in 0..count {
        text.extend_from_slice(format!("X-H{}: v{}\r\n", i, i).as_bytes());
    }
    text.extend_from_slice(b"\r\n");
    text
}

#[test]
fn seventeen_headers_are_malformed() {
    let text = request_with_headers(17);
    let mut buf = buffer(&text);
    match decode(&mut buf) {
        Err(DecodeError::MalformedRequest(msg)) => assert!(msg.contains("TooManyHeaders")),
        other => panic!("expected a malformed request, got {:?}", other.map(|r| r.is_some())),
    }
    assert_eq!(&buf[..], &text[..]);
}

#[test]
fn sixteen_headers_fit() {
    let req = decode_one(&request_with_headers(16));
    let headers = req.headers();
    assert_eq!(headers.len(), 16);
    assert_eq!(headers.get(&key("X-H15")), Some(&key("v15")));
}

#[test]
fn bad_request_line_is_malformed() {
    let mut buf = buffer(b"GET /x HTTP/9.9\r\n\r\n");
    assert!(matches!(decode(&mut buf), Err(DecodeError::MalformedRequest(_))));
    let mut buf = buffer(b"G\x01T / HTTP/1.1\r\n\r\n");
    assert!(matches!(decode(&mut buf), Err(DecodeError::MalformedRequest(_))));
}

#[test]
fn params_start_empty() {
    let req = decode_one(b"GET /user/42 HTTP/1.1\r\n\r\n");
    assert!(req.params().is_empty());
    assert_eq!(req.params().len(), 0);
    assert!(req.query_params().is_empty());
}

#[test]
fn set_params_round_trips() {
    let mut req = decode_one(b"GET /user/42 HTTP/1.1\r\n\r\n");
    let mut params = StringMap::new();
    params.insert(key("id"), key("42"));
    req.set_params(params);
    assert_eq!(req.params().len(), 1);
    assert_eq!(req.params().get(&key("id")), Some(&key("42")));
    assert!(req.query_params().is_empty());
}

#[test]
fn set_query_params_round_trips() {
    let mut req = decode_one(b"GET /search?q=rust&page=2 HTTP/1.1\r\n\r\n");
    let mut query = StringMap::new();
    query.insert(key("q"), key("rust"));
    query.insert(key("page"), key("2"));
    req.set_query_params(query);
    assert_eq!(req.query_params().len(), 2);
    assert_eq!(req.query_params().get(&key("q")), Some(&key("rust")));
    assert_eq!(req.query_params().get(&key("page")), Some(&key("2")));
    assert!(req.params().is_empty());
}

#[test]
fn body_as_reads_matching_json() {
    let req = decode_one(b"POST /p HTTP/1.1\r\n\r\n{\"a\": 1, \"b\": 2}");
    let value: HashMap<String, i64> = req.body_as(req.raw_body()).unwrap();
    let mut expected = HashMap::new();
    expected.insert(key("a"), 1);
    expected.insert(key("b"), 2);
    assert_eq!(value, expected);
}

#[test]
fn body_as_reports_mismatched_json() {
    let req = decode_one(b"POST /p HTTP/1.1\r\n\r\n[1, 2, 3]");
    let value: Result<HashMap<String, i64>, _> = req.body_as(req.raw_body());
    assert!(value.is_err());
    let value: Result<Vec<i64>, _> = req.body_as("not json");
    assert!(value.is_err());
}

#[test]
fn describe_names_method_and_path() {
    let req = decode_one(b"PUT /things/1 HTTP/1.1\r\n\r\n");
    assert_eq!(req.describe(), "<HTTP Request PUT /things/1>");
}

#[test]
fn span_at_finds_matching_bytes() {
    assert_eq!(span_at(b"hello world", b"world", 6), Some((6, 11)));
    assert_eq!(span_at(b"hello world", b"", 11), Some((11, 11)));
    assert_eq!(span_at(b"hello world", b"world", 5), None);
    assert_eq!(span_at(b"hello world", b"world", 7), None);
    assert_eq!(span_at(b"hello", b"hello", 0), Some((0, 5)));
    assert_eq!(span_at(b"hello", b"x", 6), None);
}

#[test]
fn string_map_insert_replaces() {
    let mut m = StringMap::new();
    assert!(m.is_empty());
    m.insert(key("k"), key("1"));
    m.insert(key("j"), key("2"));
    m.insert(key("k"), key("3"));
    assert_eq!(m.len(), 2);
    assert_eq!(m.get(&key("k")), Some(&key("3")));
    assert_eq!(m.get(&key("j")), Some(&key("2")));
    assert!(!m.is_empty());
}

#[test]
fn leading_empty_lines_are_skipped() {
    let req = decode_one(b"\r\nGET /late HTTP/1.1\r\n\r\n");
    assert_eq!(req.method(), "GET");
    assert_eq!(req.path(), "/late");
}
