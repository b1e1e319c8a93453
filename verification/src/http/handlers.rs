//! The handlers routes can dispatch to. Pure ones build their response
//! here; the file handlers compute what the file-system collaborator
//! must do and turn its outcome back into a response. A handler that
//! cannot serve its request recovers locally with a 500-equivalent
//! response rather than failing the connection.

use vstd::prelude::*;
use crate::http::SpecState;
use crate::http::State;
use crate::http::header::Headers;
use crate::http::helpers::ascii_bytes;
use crate::http::helpers::copy_range;
use crate::http::helpers::lit_bytes;
use crate::http::helpers::spec_lower_seq;
use crate::http::helpers::starts_with_bytes;
use crate::http::request::Request;
use crate::http::request::SpecRequest;
use crate::http::response::Response;
use crate::http::response::SpecResponse;
use crate::http::response::spec_from_status;
use crate::http::status::StatusCode;

verus! {

/// The handlers a route entry can name.
#[derive(PartialEq, Eq, Structural, Clone, Copy, Debug)]
pub enum HandlerKind {
    AlwaysOk,
    Echo,
    UserAgent,
    NotFound,
    MethodNotAllowed,
    InternalError,
    FileGet,
    FilePost,
}

/// The request header echoed by the user-agent route, normalized.
pub open spec fn user_agent_key() -> Seq<u8> {
    ascii_bytes("user-agent"@)
}

/// The path prefix the echo route strips.
pub open spec fn echo_prefix() -> Seq<u8> {
    ascii_bytes("/echo/"@)
}

/// The path prefix the file routes strip.
pub open spec fn files_prefix() -> Seq<u8> {
    ascii_bytes("/files/"@)
}

/// The header pair of a plain-text response.
pub open spec fn text_plain_headers() -> Seq<(Seq<u8>, Seq<u8>)> {
    Seq::<(Seq<u8>, Seq<u8>)>::empty().push(
        (ascii_bytes("Content-Type"@), ascii_bytes("text/plain"@)),
    )
}

/// The header pair of a file download response.
pub open spec fn octet_stream_headers() -> Seq<(Seq<u8>, Seq<u8>)> {
    Seq::<(Seq<u8>, Seq<u8>)>::empty().push(
        (ascii_bytes("Content-Type"@), ascii_bytes("application/octet-stream"@)),
    )
}

pub proof fn lemma_user_agent_key_folded()
    ensures
        spec_lower_seq(user_agent_key()) == user_agent_key(),
{
    reveal_strlit("user-agent");
    assert(spec_lower_seq(user_agent_key()) =~= user_agent_key());
}

/// The echo route's response: the path with the echo prefix stripped,
/// as plain text; a path without the prefix is answered with a 500.
pub open spec fn spec_echo(req: SpecRequest) -> SpecResponse {
    if echo_prefix().is_prefix_of(req.path) {
        SpecResponse {
            status: StatusCode::OK,
            headers: Some(text_plain_headers()),
            body: Some(req.path.skip(echo_prefix().len() as int)),
        }
    } else {
        spec_from_status(StatusCode::Internal)
    }
}

/// The user-agent route's response: the request's `User-Agent` value,
/// or an empty body when the header is absent.
pub open spec fn spec_user_agent(req: SpecRequest) -> SpecResponse {
    SpecResponse {
        status: StatusCode::OK,
        headers: Some(text_plain_headers()),
        body: Some(
            if req.headers.contains_key(user_agent_key()) {
                req.headers[user_agent_key()]
            } else {
                Seq::empty()
            },
        ),
    }
}

pub fn ok_handler(_request: &Request, _state: &State) -> (r: Response)
    ensures
        r@ == spec_from_status(StatusCode::OK),
{
    Response::from_status(StatusCode::OK)
}

pub fn not_found_handler(_request: &Request, _state: &State) -> (r: Response)
    ensures
        r@ == spec_from_status(StatusCode::NotFound),
{
    Response::from_status(StatusCode::NotFound)
}

pub fn internal_error_handler(_request: &Request, _state: &State) -> (r: Response)
    ensures
        r@ == spec_from_status(StatusCode::Internal),
{
    Response::from_status(StatusCode::Internal)
}

pub fn method_not_allowed_handler(_request: &Request, _state: &State) -> (r: Response)
    ensures
        r@ == spec_from_status(StatusCode::MethodNotAllowed),
{
    Response::from_status(StatusCode::MethodNotAllowed)
}

fn plain_text_headers() -> (r: Headers)
    ensures
        r.pairs() == text_plain_headers(),
{
    let mut headers = Headers::new();
    proof {
        reveal_strlit("Content-Type");
        reveal_strlit("text/plain");
    }
    headers.insert(lit_bytes("Content-Type"), lit_bytes("text/plain"));
    proof {
        assert(headers.pairs() =~= text_plain_headers());
    }
    headers
}

/// Echo the remainder of the path after `/echo/` as plain text.
pub fn echo_handler(request: &Request, _state: &State) -> (r: Response)
    ensures
        r@ == spec_echo(request@),
{
    proof {
        reveal_strlit("/echo/");
    }
    let prefix = lit_bytes("/echo/");
    let path = &request.metadata.path;
    if starts_with_bytes(path, &prefix) {
        let body = copy_range(path, prefix.len(), path.len());
        proof {
            assert(body@ =~= request@.path.skip(echo_prefix().len() as int));
        }
        Response::from_data(StatusCode::OK, plain_text_headers(), body)
    } else {
        Response::from_status(StatusCode::Internal)
    }
}

/// Echo the request's `User-Agent` header as plain text.
pub fn user_agent_handler(request: &Request, _state: &State) -> (r: Response)
    ensures
        r@ == spec_user_agent(request@),
{
    proof {
        reveal_strlit("user-agent");
        lemma_user_agent_key_folded();
    }
    let key = lit_bytes("user-agent");
    let body: Vec<u8> = match request.metadata.headers.get(&key) {
        Some(v) => {
            let b = copy_range(v, 0, v.len());
            proof {
                assert(b@ =~= v@);
            }
            b
        },
        None => Vec::new(),
    };
    Response::from_data(StatusCode::OK, plain_text_headers(), body)
}

/// What a file handler asks of the driver: a finished response, or the
/// file work that only the file-system collaborator can do.
pub enum HandlerOutcome {
    Respond(Response),
    ReadFile(Vec<u8>),
    WriteFile(Vec<u8>, Vec<u8>),
}

/// Model of a handler's outcome.
pub enum SpecHandlerOutcome {
    Respond(SpecResponse),
    ReadFile(Seq<u8>),
    WriteFile(Seq<u8>, Seq<u8>),
}

impl View for HandlerOutcome {
    type V = SpecHandlerOutcome;

    open spec fn view(&self) -> SpecHandlerOutcome {
        match self {
            HandlerOutcome::Respond(resp) => SpecHandlerOutcome::Respond(resp@),
            HandlerOutcome::ReadFile(name) => SpecHandlerOutcome::ReadFile(name@),
            HandlerOutcome::WriteFile(name, data) => SpecHandlerOutcome::WriteFile(name@, data@),
        }
    }
}

/// What the GET file handler decides: the file name to read, or a 500
/// when the path has no `/files/` prefix or no directory is configured.
pub open spec fn spec_file_get(req: SpecRequest, st: SpecState) -> SpecHandlerOutcome {
    if !files_prefix().is_prefix_of(req.path) {
        SpecHandlerOutcome::Respond(spec_from_status(StatusCode::Internal))
    } else if st.file_dir is None {
        SpecHandlerOutcome::Respond(spec_from_status(StatusCode::Internal))
    } else {
        SpecHandlerOutcome::ReadFile(req.path.skip(files_prefix().len() as int))
    }
}

/// What the POST file handler decides: the file name and body bytes to
/// write, or a 500 when the prefix, the directory or the body is
/// missing.
pub open spec fn spec_file_post(req: SpecRequest, st: SpecState) -> SpecHandlerOutcome {
    if !files_prefix().is_prefix_of(req.path) {
        SpecHandlerOutcome::Respond(spec_from_status(StatusCode::Internal))
    } else if st.file_dir is None {
        SpecHandlerOutcome::Respond(spec_from_status(StatusCode::Internal))
    } else {
        match req.body {
            None => SpecHandlerOutcome::Respond(spec_from_status(StatusCode::Internal)),
            Some(data) => SpecHandlerOutcome::WriteFile(
                req.path.skip(files_prefix().len() as int),
                data,
            ),
        }
    }
}

/// Decide the file read a GET under `/files/` requires.
pub fn file_get_handler(request: &Request, state: &State) -> (r: HandlerOutcome)
    ensures
        r@ == spec_file_get(request@, state@),
{
    proof {
        reveal_strlit("/files/");
    }
    let prefix = lit_bytes("/files/");
    let path = &request.metadata.path;
    if !starts_with_bytes(path, &prefix) {
        return HandlerOutcome::Respond(Response::from_status(StatusCode::Internal));
    }
    match state.file_dir() {
        None => HandlerOutcome::Respond(Response::from_status(StatusCode::Internal)),
        Some(_) => {
            let name = copy_range(path, prefix.len(), path.len());
            proof {
                assert(name@ =~= request@.path.skip(files_prefix().len() as int));
            }
            HandlerOutcome::ReadFile(name)
        },
    }
}

/// Decide the file write a POST under `/files/` requires.
pub fn file_post_handler(request: &Request, state: &State) -> (r: HandlerOutcome)
    ensures
        r@ == spec_file_post(request@, state@),
{
    proof {
        reveal_strlit("/files/");
    }
    let prefix = lit_bytes("/files/");
    let path = &request.metadata.path;
    if !starts_with_bytes(path, &prefix) {
        return HandlerOutcome::Respond(Response::from_status(StatusCode::Internal));
    }
    match state.file_dir() {
        None => {
            return HandlerOutcome::Respond(Response::from_status(StatusCode::Internal));
        },
        Some(_) => {},
    }
    match &request.body {
        None => HandlerOutcome::Respond(Response::from_status(StatusCode::Internal)),
        Some(b) => {
            let name = copy_range(path, prefix.len(), path.len());
            let data = copy_range(&b.data, 0, b.data.len());
            proof {
                assert(name@ =~= request@.path.skip(files_prefix().len() as int));
                assert(data@ =~= b@);
            }
            HandlerOutcome::WriteFile(name, data)
        },
    }
}

/// Outcome of the driver's attempt to read the named file.
pub enum FileReadOutcome {
    /// The file was opened and read whole.
    Found(Vec<u8>),
    /// The file could not be opened.
    Missing,
    /// The file opened but reading it failed.
    Failed,
}

/// Model of a read attempt's outcome.
pub enum SpecFileReadOutcome {
    Found(Seq<u8>),
    Missing,
    Failed,
}

impl View for FileReadOutcome {
    type V = SpecFileReadOutcome;

    open spec fn view(&self) -> SpecFileReadOutcome {
        match self {
            FileReadOutcome::Found(data) => SpecFileReadOutcome::Found(data@),
            FileReadOutcome::Missing => SpecFileReadOutcome::Missing,
            FileReadOutcome::Failed => SpecFileReadOutcome::Failed,
        }
    }
}

/// The response a finished file read maps to.
pub open spec fn spec_file_get_response(o: SpecFileReadOutcome) -> SpecResponse {
    match o {
        SpecFileReadOutcome::Found(data) => SpecResponse {
            status: StatusCode::OK,
            headers: Some(octet_stream_headers()),
            body: Some(data),
        },
        SpecFileReadOutcome::Missing => spec_from_status(StatusCode::NotFound),
        SpecFileReadOutcome::Failed => spec_from_status(StatusCode::Internal),
    }
}

/// Turn the driver's file-read outcome into the route's response: the
/// bytes as a download, a 404 for a file that would not open, a 500
/// for one that failed mid-read.
pub fn file_get_response(outcome: FileReadOutcome) -> (r: Response)
    ensures
        r@ == spec_file_get_response(outcome@),
{
    match outcome {
        FileReadOutcome::Found(data) => {
            let mut headers = Headers::new();
            proof {
                reveal_strlit("Content-Type");
                reveal_strlit("application/octet-stream");
            }
            headers.insert(lit_bytes("Content-Type"), lit_bytes("application/octet-stream"));
            proof {
                assert(headers.pairs() =~= octet_stream_headers());
            }
            Response::from_data(StatusCode::OK, headers, data)
        },
        FileReadOutcome::Missing => Response::from_status(StatusCode::NotFound),
        FileReadOutcome::Failed => Response::from_status(StatusCode::Internal),
    }
}

/// Turn the driver's file-write outcome into the route's response: a
/// 201 when the bytes were written, a 500 otherwise.
pub fn file_post_response(success: bool) -> (r: Response)
    ensures
        success ==> r@ == spec_from_status(StatusCode::Created),
        !success ==> r@ == spec_from_status(StatusCode::Internal),
{
    if success {
        Response::from_status(StatusCode::Created)
    } else {
        Response::from_status(StatusCode::Internal)
    }
}

} // verus!
