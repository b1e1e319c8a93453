use http_core::http::Method;
use http_core::http::header::Headers;
use http_core::http::request::ReadStep;
use http_core::http::request::RequestError;
use http_core::http::request::RequestParser;

#[test]
fn request_path() {
    let mut parser = RequestParser::new();
    parser.put(
        &b"GET /index.html HTTP/1.1\r\nHost: localhost:4221\r\nUser-Agent: curl/7.64.1\r\n\r\n"[..],
    );
    let metadata = parser.metadata_from_buffer().unwrap();
    assert_eq!(metadata.path, b"/index.html".to_vec());
}

#[test]
fn no_headers() {
    let mut parser = RequestParser::new();
    parser.put(&b"GET /index.html HTTP/1.1\r\n\r\n"[..]);
    let metadata = parser.metadata_from_buffer().unwrap();
    assert!(metadata.headers.is_empty());
}

#[test]
fn get_with_host_header() {
    let mut parser = RequestParser::new();
    parser.put(b"GET /index.html HTTP/1.1\r\nHost: x\r\n\r\n");
    let request = parser.try_parse().unwrap();
    assert_eq!(request.metadata.method, Method::GET);
    assert_eq!(request.metadata.path, b"/index.html".to_vec());
    assert_eq!(request.metadata.headers.pair_count(), 1);
    assert_eq!(
        request.metadata.headers.get(&b"Host".to_vec()),
        Some(&b"x".to_vec())
    );
    assert!(request.body.is_none());
    assert!(parser.buffer_is_empty());
}

#[test]
fn post_body_waits_for_content_length_bytes() {
    let mut parser = RequestParser::new();
    parser.put(b"POST /files/a HTTP/1.1\r\nContent-Length: 5\r\n\r\n");
    parser.put(b"abc");
    match parser.try_parse() {
        Err(RequestError::Incomplete) => {}
        other => panic!("expected Incomplete before the body is buffered: {:?}", other),
    }
    parser.put(b"de");
    let request = parser.try_parse().unwrap();
    assert_eq!(request.metadata.method, Method::POST);
    let body = request.body.expect("a POST carries a body");
    assert_eq!(body.data, b"abcde".to_vec());
    assert!(parser.buffer_is_empty());
}

#[test]
fn chunk_boundaries_do_not_matter() {
    let raw = b"POST /files/a HTTP/1.1\r\nContent-Length: 5\r\n\r\nhello";
    let mut whole = RequestParser::new();
    whole.put(raw);
    let expected = whole.try_parse().unwrap();

    // feed the same bytes one at a time
    let mut chunked = RequestParser::new();
    for b in raw.iter() {
        chunked.put(&[*b]);
    }
    let request = chunked.try_parse().unwrap();

    assert_eq!(request.metadata.method, expected.metadata.method);
    assert_eq!(request.metadata.path, expected.metadata.path);
    assert_eq!(
        request.metadata.headers.get(&b"Content-Length".to_vec()),
        expected.metadata.headers.get(&b"Content-Length".to_vec())
    );
    assert_eq!(request.body.unwrap().data, expected.body.unwrap().data);
    assert!(chunked.buffer_is_empty() && whole.buffer_is_empty());
}

#[test]
fn incomplete_until_blank_line() {
    let mut parser = RequestParser::new();
    parser.put(b"GET /index.html HTTP/1.1\r\nHost: x\r\n");
    match parser.try_parse() {
        Err(RequestError::Incomplete) => {}
        other => panic!("expected Incomplete without a blank line: {:?}", other),
    }
    parser.put(b"\r\n");
    assert!(parser.try_parse().is_ok());
}

#[test]
fn unknown_method_is_invalid() {
    let mut parser = RequestParser::new();
    parser.put(b"PUT /index.html HTTP/1.1\r\n\r\n");
    match parser.try_parse() {
        Err(RequestError::Invalid) => {}
        other => panic!("expected Invalid for an unrecognized method: {:?}", other),
    }
}

#[test]
fn missing_path_is_invalid() {
    let mut parser = RequestParser::new();
    parser.put(b"GET\r\n\r\n");
    match parser.try_parse() {
        Err(RequestError::Invalid) => {}
        other => panic!("expected Invalid without a path token: {:?}", other),
    }
}

#[test]
fn header_without_colon_is_invalid() {
    let mut parser = RequestParser::new();
    parser.put(b"GET / HTTP/1.1\r\nbroken header line\r\n\r\n");
    match parser.try_parse() {
        Err(RequestError::Invalid) => {}
        other => panic!("expected Invalid for a colonless header: {:?}", other),
    }
}

#[test]
fn post_without_content_length_is_invalid() {
    let mut parser = RequestParser::new();
    parser.put(b"POST /files/a HTTP/1.1\r\nHost: x\r\n\r\n");
    match parser.try_parse() {
        Err(RequestError::Invalid) => {}
        other => panic!("expected Invalid for POST without Content-Length: {:?}", other),
    }
}

#[test]
fn non_numeric_content_length_is_invalid() {
    let mut parser = RequestParser::new();
    parser.put(b"POST /files/a HTTP/1.1\r\nContent-Length: five\r\n\r\n");
    match parser.try_parse() {
        Err(RequestError::Invalid) => {}
        other => panic!("expected Invalid for a non-numeric Content-Length: {:?}", other),
    }
}

#[test]
fn header_names_match_case_insensitively() {
    let mut parser = RequestParser::new();
    parser.put(b"POST /files/a HTTP/1.1\r\ncOnTeNt-LeNgTh: 2\r\n\r\nok");
    let request = parser.try_parse().unwrap();
    assert_eq!(request.body.unwrap().data, b"ok".to_vec());
    assert_eq!(
        request.metadata.headers.get(&b"CONTENT-LENGTH".to_vec()),
        Some(&b"2".to_vec())
    );
}

#[test]
fn header_values_are_trimmed() {
    let mut parser = RequestParser::new();
    parser.put(b"GET / HTTP/1.1\r\nHost:   spaced out \r\n\r\n");
    let request = parser.try_parse().unwrap();
    assert_eq!(
        request.metadata.headers.get(&b"Host".to_vec()),
        Some(&b"spaced out".to_vec())
    );
}

#[test]
fn repeated_header_keeps_last_value() {
    let mut parser = RequestParser::new();
    parser.put(b"GET / HTTP/1.1\r\nHost: one\r\nHost: two\r\n\r\n");
    let request = parser.try_parse().unwrap();
    assert_eq!(
        request.metadata.headers.get(&b"Host".to_vec()),
        Some(&b"two".to_vec())
    );
}

#[test]
fn pipelined_bytes_stay_buffered() {
    let mut parser = RequestParser::new();
    parser.put(b"GET /a HTTP/1.1\r\n\r\nGET /b HTTP/1.1\r\n\r\n");
    let first = parser.try_parse().unwrap();
    assert_eq!(first.metadata.path, b"/a".to_vec());
    assert!(!parser.buffer_is_empty());
    let second = parser.try_parse().unwrap();
    assert_eq!(second.metadata.path, b"/b".to_vec());
    assert!(parser.buffer_is_empty());
}

#[test]
fn disconnect_classification() {
    // peer closes with nothing buffered: a clean shutdown
    let mut parser = RequestParser::new();
    assert_eq!(parser.on_read(b""), ReadStep::CleanClose);

    // peer closes mid-request: the request was truncated
    let mut parser = RequestParser::new();
    assert_eq!(parser.on_read(b"GET / HT"), ReadStep::Retry);
    assert_eq!(parser.on_read(b""), ReadStep::TruncatedClose);
}

#[test]
fn headers_insert_overwrites_case_insensitively() {
    let mut headers = Headers::new();
    headers.insert(b"Content-Type".to_vec(), b"text/plain".to_vec());
    headers.insert(b"content-type".to_vec(), b"text/html".to_vec());
    assert_eq!(headers.pair_count(), 1);
    // the first spelling of the name is kept, the value is replaced
    assert_eq!(headers.key_at(0), &b"Content-Type".to_vec());
    assert_eq!(headers.value_at(0), &b"text/html".to_vec());
    assert_eq!(
        headers.get(&b"CONTENT-TYPE".to_vec()),
        Some(&b"text/html".to_vec())
    );
}

#[test]
fn headers_insert_header_line_splits_and_trims() {
    let mut headers = Headers::new();
    headers.insert_header_line(&b"Accept-Encoding:  gzip, br ".to_vec());
    assert_eq!(
        headers.get(&b"accept-encoding".to_vec()),
        Some(&b"gzip, br".to_vec())
    );
}
