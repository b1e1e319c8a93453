//! The incremental request parser: a validation pass frames a complete
//! head (request line and headers up to the blank line), a parse pass
//! turns it into metadata, and a body of `Content-Length` bytes is
//! awaited for POST. All of it is specified against a functional model
//! of the grammar, so the outcome depends only on the buffered bytes.

use vstd::prelude::*;
use crate::http::Body;
use crate::http::Method;
use crate::http::header::Headers;
use crate::http::helpers::COLON;
use crate::http::helpers::SP;
use crate::http::helpers::CursorError;
use crate::http::helpers::all_digits;
use crate::http::helpers::ascii_bytes;
use crate::http::helpers::bytes_eq;
use crate::http::helpers::copy_range;
use crate::http::helpers::find_byte;
use crate::http::helpers::get_until_crlf;
use crate::http::helpers::lemma_first_crlf;
use crate::http::helpers::lit_bytes;
use crate::http::helpers::parse_dec;
use crate::http::helpers::spec_dec_val;
use crate::http::helpers::spec_find_byte;
use crate::http::helpers::spec_first_crlf;
use crate::http::helpers::spec_lower_seq;
use crate::http::helpers::spec_trim;

verus! {

/// Model of parsed request metadata.
pub struct SpecMetadata {
    pub method: Method,
    pub path: Seq<u8>,
    pub headers: Map<Seq<u8>, Seq<u8>>,
}

/// Model of a parsed request.
pub struct SpecRequest {
    pub method: Method,
    pub path: Seq<u8>,
    pub headers: Map<Seq<u8>, Seq<u8>>,
    pub body: Option<Seq<u8>>,
}

/// Outcome of the metadata grammar on a buffer.
pub enum SpecParseMeta {
    Incomplete,
    Invalid,
    Done(SpecMetadata, int),
}

/// Outcome of the full request grammar on a buffer.
pub enum SpecParse {
    Incomplete,
    Invalid,
    Done(SpecRequest, int),
}

/// Position just past the blank line that ends the head, scanning
/// CRLF-terminated lines from `i`; `None` while the head is incomplete.
pub open spec fn spec_head_end(s: Seq<u8>, i: int) -> Option<int>
    decreases s.len() - i,
    via spec_head_end_dec
{
    if i < 0 {
        None
    } else {
        match spec_first_crlf(s, i) {
            None => None,
            Some(j) => if j == i {
                Some(i + 2)
            } else {
                spec_head_end(s, j + 2)
            },
        }
    }
}

#[via_fn]
proof fn spec_head_end_dec(s: Seq<u8>, i: int) {
    if i >= 0 {
        lemma_first_crlf(s, i);
    }
}

pub proof fn lemma_head_end_bounds(s: Seq<u8>, i: int)
    requires
        0 <= i,
    ensures
        match spec_head_end(s, i) {
            Some(e) => i + 2 <= e <= s.len(),
            None => true,
        },
    decreases s.len() - i,
{
    lemma_first_crlf(s, i);
    match spec_first_crlf(s, i) {
        Some(j) => {
            if j != i {
                lemma_head_end_bounds(s, j + 2);
            }
        },
        None => {},
    }
}

/// End of the token that starts at `from`: the next space, or the end
/// of the line.
pub open spec fn spec_token_end(line: Seq<u8>, from: int) -> int {
    match spec_find_byte(line, SP, from) {
        Some(p) => p,
        None => line.len() as int,
    }
}

/// The request line split on spaces: a recognized method token and a
/// non-empty path token, or nothing if either is missing.
pub open spec fn spec_parse_request_line(line: Seq<u8>) -> Option<(Method, Seq<u8>)> {
    let p = spec_token_end(line, 0);
    let tok = line.subrange(0, p);
    let method: Option<Method> = if tok == ascii_bytes("GET"@) {
        Some(Method::GET)
    } else if tok == ascii_bytes("POST"@) {
        Some(Method::POST)
    } else {
        None
    };
    match method {
        None => None,
        Some(m) => {
            if p == line.len() {
                None
            } else {
                let q = spec_token_end(line, p + 1);
                let path = line.subrange(p + 1, q);
                if path.len() == 0 {
                    None
                } else {
                    Some((m, path))
                }
            }
        },
    }
}

/// Walk header lines from `i`, accumulating the denoted mapping, until
/// the blank line; `None` when a line has no colon (or no line ends).
pub open spec fn spec_parse_headers(s: Seq<u8>, i: int, acc: Map<Seq<u8>, Seq<u8>>) -> Option<
    (Map<Seq<u8>, Seq<u8>>, int),
>
    decreases s.len() - i,
    via spec_parse_headers_dec
{
    if i < 0 {
        None
    } else {
        match spec_first_crlf(s, i) {
            None => None,
            Some(j) => if j == i {
                Some((acc, i + 2))
            } else {
                let line = s.subrange(i, j);
                match spec_find_byte(line, COLON, 0) {
                    None => None,
                    Some(c) => spec_parse_headers(
                        s,
                        j + 2,
                        acc.insert(
                            spec_lower_seq(line.subrange(0, c)),
                            spec_trim(line.subrange(c + 1, line.len() as int)),
                        ),
                    ),
                }
            },
        }
    }
}

#[via_fn]
proof fn spec_parse_headers_dec(s: Seq<u8>, i: int, acc: Map<Seq<u8>, Seq<u8>>) {
    if i >= 0 {
        lemma_first_crlf(s, i);
    }
}

/// The metadata grammar: incomplete until a blank line arrives, then
/// either invalid or a parsed head and the position just past it.
pub open spec fn spec_parse_metadata(s: Seq<u8>) -> SpecParseMeta {
    match spec_head_end(s, 0) {
        None => SpecParseMeta::Incomplete,
        Some(end) => match spec_first_crlf(s, 0) {
            None => SpecParseMeta::Incomplete,
            Some(j0) => match spec_parse_request_line(s.subrange(0, j0)) {
                None => SpecParseMeta::Invalid,
                Some(mp) => match spec_parse_headers(s, j0 + 2, Map::empty()) {
                    None => SpecParseMeta::Invalid,
                    Some(hm) => SpecParseMeta::Done(
                        SpecMetadata { method: mp.0, path: mp.1, headers: hm.0 },
                        hm.1,
                    ),
                },
            },
        },
    }
}

/// The header name whose value declares a POST body's length, in its
/// normalized lower-case form.
pub open spec fn content_length_key() -> Seq<u8> {
    ascii_bytes("content-length"@)
}

/// The full request grammar. A GET is done at the head's end; a POST
/// needs a numeric `Content-Length` and that many further bytes.
pub open spec fn spec_try_parse(s: Seq<u8>) -> SpecParse {
    match spec_parse_metadata(s) {
        SpecParseMeta::Incomplete => SpecParse::Incomplete,
        SpecParseMeta::Invalid => SpecParse::Invalid,
        SpecParseMeta::Done(md, end) => {
            if md.method == Method::GET {
                SpecParse::Done(
                    SpecRequest {
                        method: md.method,
                        path: md.path,
                        headers: md.headers,
                        body: None,
                    },
                    end,
                )
            } else if !md.headers.contains_key(content_length_key()) {
                SpecParse::Invalid
            } else {
                let v = md.headers[content_length_key()];
                if v.len() == 0 || !all_digits(v) || spec_dec_val(v) > usize::MAX {
                    SpecParse::Invalid
                } else if s.len() >= end + spec_dec_val(v) {
                    SpecParse::Done(
                        SpecRequest {
                            method: md.method,
                            path: md.path,
                            headers: md.headers,
                            body: Some(s.subrange(end, end + spec_dec_val(v))),
                        },
                        end + spec_dec_val(v),
                    )
                } else {
                    SpecParse::Incomplete
                }
            }
        },
    }
}

/// Folding the normalized `Content-Length` name changes nothing: it is
/// already lower case.
pub proof fn lemma_content_length_key_folded()
    ensures
        spec_lower_seq(content_length_key()) == content_length_key(),
{
    reveal_strlit("content-length");
    assert(spec_lower_seq(content_length_key()) =~= content_length_key());
}

/// Errors of one parse attempt over the buffered bytes.
#[derive(PartialEq, Eq, Structural, Clone, Copy, Debug)]
pub enum RequestError {
    /// The buffer does not yet hold a complete request; read more.
    Incomplete,
    /// The bytes cannot form a request; the connection is torn down.
    Invalid,
}

impl core::convert::From<CursorError> for RequestError {
    fn from(err: CursorError) -> (r: RequestError) {
        match err {
            CursorError::Invalid => RequestError::Invalid,
            CursorError::Incomplete => RequestError::Incomplete,
        }
    }
}

impl vstd::std_specs::convert::FromSpecImpl<CursorError> for RequestError {
    open spec fn obeys_from_spec() -> bool {
        true
    }

    open spec fn from_spec(err: CursorError) -> RequestError {
        match err {
            CursorError::Invalid => RequestError::Invalid,
            CursorError::Incomplete => RequestError::Incomplete,
        }
    }
}

/// Errors of reading a whole request from a connection: the driver maps
/// transport failures onto these around `RequestParser`.
#[derive(PartialEq, Eq, Structural, Clone, Copy, Debug)]
pub enum RequestParserError {
    /// The peer closed while a request was still incomplete.
    Disconnect,
    /// The transport failed.
    Io,
    /// The bytes themselves were at fault.
    RequestError(RequestError),
}

/// Parsed request metadata: method, raw path, headers.
#[derive(Debug)]
pub struct Metadata {
    pub method: Method,
    pub path: Vec<u8>,
    pub headers: Headers,
}

impl View for Metadata {
    type V = SpecMetadata;

    open spec fn view(&self) -> SpecMetadata {
        SpecMetadata { method: self.method, path: self.path@, headers: self.headers@ }
    }
}

/// A parsed request; the body is present only for POST.
#[derive(Debug)]
pub struct Request {
    pub metadata: Metadata,
    pub body: Option<Body>,
}

impl View for Request {
    type V = SpecRequest;

    open spec fn view(&self) -> SpecRequest {
        SpecRequest {
            method: self.metadata.method,
            path: self.metadata.path@,
            headers: self.metadata.headers@,
            body: match self.body {
                Some(b) => Some(b@),
                None => None,
            },
        }
    }
}

impl Metadata {
    pub fn new(method: Method, path: Vec<u8>, headers: Headers) -> (r: Metadata)
        ensures
            r.method == method,
            r.path@ == path@,
            r.headers == headers,
    {
        Metadata { method, path, headers }
    }

    /// Validation pass: scan for the blank line that ends the head.
    /// Consumes nothing; `Err` always means more bytes are needed.
    pub fn validate(buf: &Vec<u8>) -> (r: Result<usize, RequestError>)
        ensures
            match r {
                Ok(e) => spec_head_end(buf@, 0) == Some(e as int) && e <= buf@.len(),
                Err(err) => err == RequestError::Incomplete && spec_head_end(buf@, 0) is None,
            },
    {
        let buf_len = buf.len();
        let mut pos: usize = 0;
        loop
            invariant
                buf_len == buf@.len(),
                0 <= pos <= buf@.len(),
                spec_head_end(buf@, 0) == spec_head_end(buf@, pos as int),
            decreases buf@.len() - pos,
        {
            match get_until_crlf(buf, pos) {
                Err(_) => {
                    return Err(RequestError::Incomplete);
                },
                Ok(j) => {
                    if j == pos {
                        return Ok(pos + 2);
                    }
                    proof {
                        lemma_first_crlf(buf@, pos as int);
                    }
                    pos = j + 2;
                },
            }
        }
    }

    /// Parse pass over a validated head: the request line, then each
    /// header line, up to the blank line. Returns the metadata and the
    /// position just past the head.
    pub fn parse(buf: &Vec<u8>) -> (r: Result<(Metadata, usize), RequestError>)
        ensures
            match r {
                Ok(p) => spec_parse_metadata(buf@) == SpecParseMeta::Done(p.0@, p.1 as int) && p.1
                    <= buf@.len(),
                Err(e) => match e {
                    RequestError::Incomplete => spec_parse_metadata(buf@) is Incomplete,
                    RequestError::Invalid => spec_parse_metadata(buf@) is Invalid,
                },
            },
    {
        let end = match Self::validate(buf) {
            Ok(e) => e,
            Err(e) => {
                return Err(e);
            },
        };
        let j0 = match get_until_crlf(buf, 0) {
            Ok(j) => j,
            Err(_) => {
                proof {
                    assert(false);
                }
                return Err(RequestError::Incomplete);
            },
        };
        // request line
        let line = copy_range(buf, 0, j0);
        let p = match find_byte(&line, SP, 0) {
            Some(p) => p,
            None => line.len(),
        };
        let tok = copy_range(&line, 0, p);
        proof {
            reveal_strlit("GET");
            reveal_strlit("POST");
        }
        let get_tok = lit_bytes("GET");
        let post_tok = lit_bytes("POST");
        let method: Method = if bytes_eq(&tok, &get_tok) {
            Method::GET
        } else if bytes_eq(&tok, &post_tok) {
            Method::POST
        } else {
            return Err(RequestError::Invalid);
        };
        if p == line.len() {
            return Err(RequestError::Invalid);
        }
        let q = match find_byte(&line, SP, p + 1) {
            Some(q) => q,
            None => line.len(),
        };
        let path = copy_range(&line, p + 1, q);
        if path.len() == 0 {
            return Err(RequestError::Invalid);
        }
        proof {
            assert(spec_parse_request_line(buf@.subrange(0, j0 as int)) == Some(
                (method, path@),
            ));
        }
        // header lines
        let buf_len = buf.len();
        let mut headers = Headers::new();
        let mut pos: usize = j0 + 2;
        proof {
            lemma_head_end_bounds(buf@, pos as int);
        }
        loop
            invariant
                j0 + 2 <= pos,
                pos + 2 <= end,
                end <= buf@.len(),
                spec_head_end(buf@, 0) == Some(end as int),
                spec_first_crlf(buf@, 0) == Some(j0 as int),
                spec_parse_request_line(buf@.subrange(0, j0 as int)) == Some((method, path@)),
                spec_head_end(buf@, pos as int) == Some(end as int),
                spec_parse_headers(buf@, j0 + 2, Map::<Seq<u8>, Seq<u8>>::empty())
                    == spec_parse_headers(buf@, pos as int, headers@),
            ensures
                spec_parse_metadata(buf@) == SpecParseMeta::Done(
                    SpecMetadata { method, path: path@, headers: headers@ },
                    end as int,
                ),
            decreases end - pos,
        {
            match get_until_crlf(buf, pos) {
                Err(_) => {
                    proof {
                        assert(false);
                    }
                    return Err(RequestError::Incomplete);
                },
                Ok(j) => {
                    if j == pos {
                        break ;
                    }
                    let line2 = copy_range(buf, pos, j);
                    match find_byte(&line2, COLON, 0) {
                        None => {
                            return Err(RequestError::Invalid);
                        },
                        Some(c) => {
                            headers.insert_header_line(&line2);
                            proof {
                                assert(buf@.subrange(pos as int, j as int).subrange(0, c as int)
                                    =~= line2@.subrange(0, c as int));
                                assert(buf@.subrange(pos as int, j as int).subrange(
                                    c + 1,
                                    line2@.len() as int,
                                ) =~= line2@.subrange(c + 1, line2@.len() as int));
                                lemma_head_end_bounds(buf@, j as int + 2);
                            }
                            pos = j + 2;
                        },
                    }
                },
            }
        }
        let md = Metadata::new(method, path, headers);
        Ok((md, end))
    }
}

/// Owns the growable receive buffer of one connection and frames
/// requests out of it.
pub struct RequestParser {
    buf: Vec<u8>,
}

impl RequestParser {
    /// The bytes buffered and not yet consumed.
    pub closed spec fn buffer(&self) -> Seq<u8> {
        self.buf@
    }

    pub fn new() -> (r: RequestParser)
        ensures
            r.buffer() == Seq::<u8>::empty(),
    {
        RequestParser { buf: Vec::with_capacity(2 * 1024) }
    }

    /// Append freshly read bytes to the buffer.
    pub fn put(&mut self, src: &[u8])
        ensures
            final(self).buffer() == old(self).buffer() + src@,
    {
        crate::http::helpers::append_bytes(&mut self.buf, src);
    }

    /// Whether nothing is buffered: at a disconnect this distinguishes
    /// a clean close from a truncated request.
    pub fn buffer_is_empty(&self) -> (r: bool)
        ensures
            r == (self.buffer().len() == 0),
    {
        self.buf.len() == 0
    }

    /// Drop the first `k` consumed bytes.
    fn consume(&mut self, k: usize)
        requires
            k <= old(self).buffer().len(),
        ensures
            final(self).buffer() == old(self).buffer().skip(k as int),
    {
        let len = self.buf.len();
        let rest = copy_range(&self.buf, k, len);
        self.buf = rest;
        proof {
            assert(self.buffer() =~= old(self).buffer().skip(k as int));
        }
    }

    /// Frame and parse one head from the buffer, consuming its bytes on
    /// success and nothing otherwise.
    pub fn metadata_from_buffer(&mut self) -> (r: Result<Metadata, RequestError>)
        ensures
            match spec_parse_metadata(old(self).buffer()) {
                SpecParseMeta::Done(m, end) => match r {
                    Ok(md) => md@ == m && final(self).buffer() == old(self).buffer().skip(end),
                    Err(_) => false,
                },
                SpecParseMeta::Incomplete => r == Err::<Metadata, RequestError>(
                    RequestError::Incomplete,
                ) && final(self).buffer() == old(self).buffer(),
                SpecParseMeta::Invalid => r == Err::<Metadata, RequestError>(
                    RequestError::Invalid,
                ) && final(self).buffer() == old(self).buffer(),
            },
    {
        match Metadata::parse(&self.buf) {
            Ok((md, end)) => {
                self.consume(end);
                Ok(md)
            },
            Err(e) => Err(e),
        }
    }

    /// One non-blocking parse attempt over the current buffer: a whole
    /// request (its bytes are consumed), or `Incomplete` (read more and
    /// retry; nothing is consumed), or `Invalid` (give the connection
    /// up).
    pub fn try_parse(&mut self) -> (r: Result<Request, RequestError>)
        ensures
            match spec_try_parse(old(self).buffer()) {
                SpecParse::Done(req, consumed) => match r {
                    Ok(request) => request@ == req && final(self).buffer() == old(
                        self,
                    ).buffer().skip(consumed),
                    Err(_) => false,
                },
                SpecParse::Incomplete => r == Err::<Request, RequestError>(
                    RequestError::Incomplete,
                ) && final(self).buffer() == old(self).buffer(),
                SpecParse::Invalid => r == Err::<Request, RequestError>(RequestError::Invalid)
                    && final(self).buffer() == old(self).buffer(),
            },
    {
        let (md, end) = match Metadata::parse(&self.buf) {
            Ok(p) => p,
            Err(e) => {
                return Err(e);
            },
        };
        if md.method == Method::GET {
            self.consume(end);
            return Ok(Request { metadata: md, body: None });
        }
        proof {
            reveal_strlit("content-length");
            lemma_content_length_key_folded();
        }
        let cl_key = lit_bytes("content-length");
        let n: usize = match md.headers.get(&cl_key) {
            None => {
                return Err(RequestError::Invalid);
            },
            Some(v) => match parse_dec(v) {
                None => {
                    return Err(RequestError::Invalid);
                },
                Some(n) => n,
            },
        };
        if self.buf.len() - end >= n {
            let data = copy_range(&self.buf, end, end + n);
            self.consume(end + n);
            Ok(Request { metadata: md, body: Some(Body { data }) })
        } else {
            Err(RequestError::Incomplete)
        }
    }
}

/// What the driver must do after a socket read made while a request
/// was still incomplete.
#[derive(PartialEq, Eq, Structural, Clone, Copy, Debug)]
pub enum ReadStep {
    /// Bytes arrived; attempt another parse.
    Retry,
    /// The peer closed with nothing buffered: a clean shutdown.
    CleanClose,
    /// The peer closed mid-request: the request was truncated.
    TruncatedClose,
}

impl RequestParser {
    /// Absorb the outcome of one socket read made while a request was
    /// incomplete: an empty read means the peer closed — cleanly if
    /// nothing was buffered, truncating a request otherwise; anything
    /// read is buffered for the next parse attempt.
    pub fn on_read(&mut self, chunk: &[u8]) -> (r: ReadStep)
        ensures
            final(self).buffer() == old(self).buffer() + chunk@,
            r == (if chunk@.len() > 0 {
                ReadStep::Retry
            } else if old(self).buffer().len() == 0 {
                ReadStep::CleanClose
            } else {
                ReadStep::TruncatedClose
            }),
    {
        if chunk.len() == 0 {
            proof {
                assert(self.buffer() + chunk@ =~= self.buffer());
            }
            if self.buffer_is_empty() {
                ReadStep::CleanClose
            } else {
                ReadStep::TruncatedClose
            }
        } else {
            self.put(chunk);
            ReadStep::Retry
        }
    }
}

/// The concatenation of a sequence of chunks.
pub open spec fn concat_chunks(chunks: Seq<Seq<u8>>) -> Seq<u8>
    decreases chunks.len(),
{
    if chunks.len() == 0 {
        Seq::empty()
    } else {
        concat_chunks(chunks.drop_last()) + chunks.last()
    }
}

/// The buffer contents that feeding each chunk in turn leaves behind,
/// as `put` appends them.
pub open spec fn buffer_after_feeds(init: Seq<u8>, chunks: Seq<Seq<u8>>) -> Seq<u8>
    decreases chunks.len(),
{
    if chunks.len() == 0 {
        init
    } else {
        buffer_after_feeds(init, chunks.drop_last()) + chunks.last()
    }
}

/// Chunk-boundary independence: however a byte stream is split into
/// chunks, feeding them one at a time fills the buffer with exactly the
/// whole stream, so `try_parse` — a function of the buffer alone —
/// returns the same outcome as when the stream is fed at once.
pub proof fn lemma_chunk_boundary_independence(chunks: Seq<Seq<u8>>)
    ensures
        buffer_after_feeds(Seq::empty(), chunks) == concat_chunks(chunks),
        spec_try_parse(buffer_after_feeds(Seq::empty(), chunks)) == spec_try_parse(
            concat_chunks(chunks),
        ),
    decreases chunks.len(),
{
    if chunks.len() > 0 {
        lemma_chunk_boundary_independence(chunks.drop_last());
    }
}

} // verus!
