use std::io::Read;

use http_core::http::Body;
use http_core::http::Method;
use http_core::http::State;
use http_core::http::encoders::EncoderKind;
use http_core::http::encoders::gzip_encoder;
use http_core::http::handlers::FileReadOutcome;
use http_core::http::handlers::HandlerKind;
use http_core::http::handlers::file_get_response;
use http_core::http::handlers::file_post_response;
use http_core::http::header::Headers;
use http_core::http::middleware::Middleware;
use http_core::http::middleware::apply_pipeline;
use http_core::http::middleware::content_encoding;
use http_core::http::middleware::content_length;
use http_core::http::request::RequestParser;
use http_core::http::response::Response;
use http_core::http::router::Dispatch;
use http_core::http::router::Router;
use http_core::http::status::StatusCode;

fn demo_state() -> State {
    State::builder()
        .encoding(b"gzip".to_vec(), EncoderKind::Gzip)
        .build()
}

fn demo_router() -> Router {
    Router::builder()
        .add_pre_middleware(Middleware::ContentEncoding)
        .add_pre_middleware(Middleware::ContentLength)
        .exact_route(b"/".to_vec(), Method::GET, HandlerKind::AlwaysOk)
        .exact_route(b"/user-agent".to_vec(), Method::GET, HandlerKind::UserAgent)
        .starts_with_route(b"/echo/".to_vec(), Method::GET, HandlerKind::Echo)
        .build()
}

fn parse_one(raw: &[u8]) -> http_core::http::request::Request {
    let mut parser = RequestParser::new();
    parser.put(raw);
    parser.try_parse().unwrap()
}

fn contains(haystack: &[u8], needle: &[u8]) -> bool {
    haystack.windows(needle.len()).any(|w| w == needle)
}

#[test]
fn as_int() {
    assert_eq!(StatusCode::OK.code(), 200);
}

#[test]
fn status_text_lines() {
    assert_eq!(StatusCode::OK.text(), b"200 OK".to_vec());
    assert_eq!(StatusCode::Created.text(), b"201 Created".to_vec());
    assert_eq!(StatusCode::NotFound.text(), b"404 Not Found".to_vec());
    assert_eq!(
        StatusCode::MethodNotAllowed.text(),
        b"405 Method Not Allowed".to_vec()
    );
    assert_eq!(
        StatusCode::Internal.text(),
        b"500 Internal Server Error".to_vec()
    );
}

#[test]
fn router_rules() {
    let state = demo_state();
    let router = Router::builder()
        .exact_route(b"/".to_vec(), Method::GET, HandlerKind::AlwaysOk)
        .exact_route(b"/a".to_vec(), Method::GET, HandlerKind::UserAgent)
        .starts_with_route(b"/b/".to_vec(), Method::GET, HandlerKind::Echo)
        .build();

    // a trailing slash matches the exact route for /a: the user-agent
    // handler answers with an empty body, unlike the ok handler
    let request = parse_one(b"GET /a/ HTTP/1.1\r\n\r\n");
    match router.handle(&request, &state) {
        Dispatch::Done(resp) => {
            assert_eq!(resp.status.code(), 200);
            assert_eq!(resp.body.unwrap().data, b"".to_vec());
        }
        _ => panic!("expected a finished response"),
    }

    // wrong method on a known path: method-not-allowed, not not-found
    let request = parse_one(b"POST /a HTTP/1.1\r\nContent-Length: 0\r\n\r\n");
    match router.handle(&request, &state) {
        Dispatch::Done(resp) => assert_eq!(resp.status.code(), 405),
        _ => panic!("expected a finished response"),
    }

    // unknown path: not-found
    let request = parse_one(b"GET /c HTTP/1.1\r\n\r\n");
    match router.handle(&request, &state) {
        Dispatch::Done(resp) => assert_eq!(resp.status.code(), 404),
        _ => panic!("expected a finished response"),
    }

    // the root path keeps its slash
    let request = parse_one(b"GET / HTTP/1.1\r\n\r\n");
    match router.handle(&request, &state) {
        Dispatch::Done(resp) => {
            assert_eq!(resp.status.code(), 200);
            assert_eq!(resp.body.unwrap().data, b"200 OK".to_vec());
        }
        _ => panic!("expected a finished response"),
    }
}

#[test]
fn prefix_routes_in_registration_order() {
    let state = demo_state();
    let router = Router::builder()
        .starts_with_route(b"/e/".to_vec(), Method::POST, HandlerKind::AlwaysOk)
        .starts_with_route(b"/e/".to_vec(), Method::GET, HandlerKind::UserAgent)
        .build();
    // the first prefix entry has the wrong method; the scan goes on
    let request = parse_one(b"GET /e/x HTTP/1.1\r\n\r\n");
    match router.handle(&request, &state) {
        Dispatch::Done(resp) => {
            assert_eq!(resp.status.code(), 200);
            assert_eq!(resp.body.unwrap().data, b"".to_vec());
        }
        _ => panic!("expected a finished response"),
    }
}

#[test]
fn end_to_end_echo() {
    let state = demo_state();
    let router = demo_router();
    let request = parse_one(b"GET /echo/abc HTTP/1.1\r\n\r\n");
    let resp = match router.handle(&request, &state) {
        Dispatch::Done(resp) => resp,
        _ => panic!("expected a finished response"),
    };
    let wire = resp.to_bytes();
    assert!(wire.starts_with(b"HTTP/1.1 200 OK\r\n"));
    assert!(contains(&wire, b"Content-Length: 3\r\n"));
    assert!(wire.ends_with(b"\r\n\r\nabc"));
}

#[test]
fn user_agent_route_echoes_header() {
    let state = demo_state();
    let router = demo_router();
    let request = parse_one(b"GET /user-agent HTTP/1.1\r\nUser-Agent: foobar/1.2.3\r\n\r\n");
    let resp = match router.handle(&request, &state) {
        Dispatch::Done(resp) => resp,
        _ => panic!("expected a finished response"),
    };
    let wire = resp.to_bytes();
    assert!(wire.starts_with(b"HTTP/1.1 200 OK\r\n"));
    assert!(contains(&wire, b"Content-Length: 12\r\n"));
    assert!(wire.ends_with(b"\r\n\r\nfoobar/1.2.3"));
}

#[test]
fn content_length_counts_encoded_body() {
    let state = demo_state();
    let router = demo_router();
    let request = parse_one(b"GET /echo/banana HTTP/1.1\r\nAccept-Encoding: gzip\r\n\r\n");
    let resp = match router.handle(&request, &state) {
        Dispatch::Done(resp) => resp,
        _ => panic!("expected a finished response"),
    };
    let body = resp.body.as_ref().unwrap().data.clone();
    assert_ne!(body, b"banana".to_vec(), "the body must be compressed");
    let headers = resp.headers.as_ref().unwrap();
    assert_eq!(
        headers.get(&b"Content-Encoding".to_vec()),
        Some(&b"gzip".to_vec())
    );
    // Content-Length names the compressed length, never the original
    let cl = headers.get(&b"Content-Length".to_vec()).unwrap().clone();
    assert_eq!(cl, body.len().to_string().into_bytes());
    assert_ne!(cl, b"6".to_vec());
    // and the compressed bytes decode back to the original
    let mut decoder = flate2::read::GzDecoder::new(&body[..]);
    let mut plain = Vec::new();
    decoder.read_to_end(&mut plain).unwrap();
    assert_eq!(plain, b"banana".to_vec());
}

#[test]
fn accept_encoding_picks_first_supported_token() {
    let state = demo_state();
    let router = demo_router();
    let request =
        parse_one(b"GET /echo/zz HTTP/1.1\r\nAccept-Encoding: br, gzip , deflate\r\n\r\n");
    let resp = match router.handle(&request, &state) {
        Dispatch::Done(resp) => resp,
        _ => panic!("expected a finished response"),
    };
    let headers = resp.headers.as_ref().unwrap();
    assert_eq!(
        headers.get(&b"Content-Encoding".to_vec()),
        Some(&b"gzip".to_vec())
    );
}

#[test]
fn content_encoding_without_header_is_identity() {
    let state = demo_state();
    let before = Response::from_data(StatusCode::OK, Headers::new(), b"payload".to_vec());
    let expected = before.to_bytes();
    let headers = Headers::new();
    let after = content_encoding(&headers, &state, before);
    assert_eq!(after.to_bytes(), expected);
}

#[test]
fn content_encoding_with_unsupported_tokens_is_identity() {
    let state = demo_state();
    let before = Response::from_data(StatusCode::OK, Headers::new(), b"payload".to_vec());
    let expected = before.to_bytes();
    let mut headers = Headers::new();
    headers.insert(b"Accept-Encoding".to_vec(), b"br, deflate".to_vec());
    let after = content_encoding(&headers, &state, before);
    assert_eq!(after.to_bytes(), expected);
}

#[test]
fn content_length_skips_empty_bodies() {
    let with_body = content_length(Response::from_data(
        StatusCode::OK,
        Headers::new(),
        b"12345678901".to_vec(),
    ));
    assert_eq!(
        with_body.headers.unwrap().get(&b"Content-Length".to_vec()),
        Some(&b"11".to_vec())
    );

    let empty = content_length(Response::from_data(
        StatusCode::OK,
        Headers::new(),
        Vec::new(),
    ));
    assert_eq!(empty.headers.unwrap().get(&b"Content-Length".to_vec()), None);
}

#[test]
fn gzip_round_trip() {
    let plain = b"hello hello hello hello".to_vec();
    let encoded = gzip_encoder(Body { data: plain.clone() }).unwrap();
    assert_ne!(encoded.data, plain);
    assert_eq!(&encoded.data[0..2], &[0x1f, 0x8b]);
    let mut decoder = flate2::read::GzDecoder::new(&encoded.data[..]);
    let mut out = Vec::new();
    decoder.read_to_end(&mut out).unwrap();
    assert_eq!(out, plain);
}

#[test]
fn file_routes_delegate_to_the_driver() {
    let state = State::builder()
        .encoding(b"gzip".to_vec(), EncoderKind::Gzip)
        .file_dir("/srv/files".to_string())
        .build();
    let router = Router::builder()
        .add_pre_middleware(Middleware::ContentEncoding)
        .add_pre_middleware(Middleware::ContentLength)
        .starts_with_route(b"/files/".to_vec(), Method::GET, HandlerKind::FileGet)
        .starts_with_route(b"/files/".to_vec(), Method::POST, HandlerKind::FilePost)
        .build();
    assert_eq!(state.file_dir(), Some("/srv/files"));

    let request = parse_one(b"GET /files/notes.txt HTTP/1.1\r\n\r\n");
    let (name, pipeline) = match router.handle(&request, &state) {
        Dispatch::FileRead { name, pipeline } => (name, pipeline),
        _ => panic!("expected a file read"),
    };
    assert_eq!(name, b"notes.txt".to_vec());

    // the driver found the file; the response goes back through the pipeline
    let resp = apply_pipeline(
        &pipeline,
        &request.metadata.headers,
        &state,
        file_get_response(FileReadOutcome::Found(b"file-content".to_vec())),
    );
    let wire = resp.to_bytes();
    assert!(wire.starts_with(b"HTTP/1.1 200 OK\r\n"));
    assert!(contains(&wire, b"Content-Type: application/octet-stream\r\n"));
    assert!(contains(&wire, b"Content-Length: 12\r\n"));
    assert!(wire.ends_with(b"\r\n\r\nfile-content"));

    // a file that would not open maps to 404
    assert_eq!(
        file_get_response(FileReadOutcome::Missing).status.code(),
        404
    );
    // one that failed mid-read maps to 500
    assert_eq!(
        file_get_response(FileReadOutcome::Failed).status.code(),
        500
    );

    let request = parse_one(b"POST /files/up.txt HTTP/1.1\r\nContent-Length: 4\r\n\r\ndata");
    let (name, data, _pipeline) = match router.handle(&request, &state) {
        Dispatch::FileWrite { name, data, pipeline } => (name, data, pipeline),
        _ => panic!("expected a file write"),
    };
    assert_eq!(name, b"up.txt".to_vec());
    assert_eq!(data, b"data".to_vec());
    assert_eq!(file_post_response(true).status.code(), 201);
    assert_eq!(file_post_response(false).status.code(), 500);
}

#[test]
fn file_routes_without_a_directory_degrade_to_500() {
    let state = demo_state();
    let router = Router::builder()
        .starts_with_route(b"/files/".to_vec(), Method::GET, HandlerKind::FileGet)
        .build();
    let request = parse_one(b"GET /files/x HTTP/1.1\r\n\r\n");
    match router.handle(&request, &state) {
        Dispatch::Done(resp) => assert_eq!(resp.status.code(), 500),
        _ => panic!("expected a finished response"),
    }
}

#[test]
fn serialization_shape() {
    let resp = Response::from_status(StatusCode::NotFound);
    assert_eq!(
        resp.to_bytes(),
        b"HTTP/1.1 404 Not Found\r\nContent-Type: text/plain\r\n\r\n404 Not Found".to_vec()
    );
}

#[test]
fn state_encoder_registry() {
    let state = demo_state();
    assert!(state.supported_encoding(&b"gzip".to_vec()));
    assert!(!state.supported_encoding(&b"br".to_vec()));
    assert_eq!(state.encoder(&b"gzip".to_vec()), Some(EncoderKind::Gzip));
    assert_eq!(state.encoder(&b"br".to_vec()), None);
    assert_eq!(state.file_dir(), None);
}
