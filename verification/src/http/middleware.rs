//! Middleware: transforms applied to a handler's response in
//! registration order. Content negotiation rewrites the body through a
//! registered encoder; content-length bookkeeping runs after it and so
//! always names the final body's length.

use vstd::prelude::*;
use crate::http::SpecState;
use crate::http::State;
use crate::http::Body;
use crate::http::encoders::EncoderKind;
use crate::http::encoders::apply_encoder;
use crate::http::encoders::spec_encode;
use crate::http::header::Headers;
use crate::http::header::map_of_pairs;
use crate::http::header::lemma_header_insert_map;
use crate::http::header::spec_header_insert;
use crate::http::helpers::COMMA;
use crate::http::helpers::ascii_bytes;
use crate::http::helpers::dec_bytes;
use crate::http::helpers::find_byte;
use crate::http::helpers::lemma_find_byte;
use crate::http::helpers::lit_bytes;
use crate::http::helpers::spec_assoc_find;
use crate::http::helpers::spec_dec_digits;
use crate::http::helpers::spec_find_byte;
use crate::http::helpers::spec_lower_seq;
use crate::http::helpers::spec_trim;
use crate::http::helpers::trim_copy;
use crate::http::response::Response;
use crate::http::response::SpecResponse;
use crate::http::status::StatusCode;

verus! {

/// The transforms a pipeline can hold, applied in registration order.
#[derive(PartialEq, Eq, Structural, Clone, Copy, Debug)]
pub enum Middleware {
    ContentEncoding,
    ContentLength,
}

/// The header a client proposes encodings in, normalized.
pub open spec fn accept_encoding_key() -> Seq<u8> {
    ascii_bytes("accept-encoding"@)
}

/// The response header naming the encoding applied, as written.
pub open spec fn content_encoding_name() -> Seq<u8> {
    ascii_bytes("Content-Encoding"@)
}

/// The response header naming the body length, as written.
pub open spec fn content_length_name() -> Seq<u8> {
    ascii_bytes("Content-Length"@)
}

pub proof fn lemma_accept_encoding_key_folded()
    ensures
        spec_lower_seq(accept_encoding_key()) == accept_encoding_key(),
{
    reveal_strlit("accept-encoding");
    assert(spec_lower_seq(accept_encoding_key()) =~= accept_encoding_key());
}

/// The encoding chosen from a comma-separated header value, scanning
/// tokens from `i`: the first trimmed token with a registered encoder.
pub open spec fn spec_select_from(v: Seq<u8>, i: int, encs: Seq<(Seq<u8>, EncoderKind)>) -> Option<
    (Seq<u8>, EncoderKind),
>
    decreases v.len() - i,
    via spec_select_from_dec
{
    if i < 0 {
        None
    } else {
        let end = match spec_find_byte(v, COMMA, i) {
            Some(c) => c,
            None => v.len() as int,
        };
        let tok = spec_trim(v.subrange(i, end));
        match spec_assoc_find(encs, tok) {
            Some(k) => Some((tok, k)),
            None => if end == v.len() {
                None
            } else {
                spec_select_from(v, end + 1, encs)
            },
        }
    }
}

#[via_fn]
proof fn spec_select_from_dec(v: Seq<u8>, i: int, encs: Seq<(Seq<u8>, EncoderKind)>) {
    if i >= 0 {
        lemma_find_byte(v, COMMA, i);
    }
}

/// The encoding the content-encoding middleware selects for a request:
/// the first supported token of `Accept-Encoding`, if any.
pub open spec fn spec_select_encoding(h: Map<Seq<u8>, Seq<u8>>, st: SpecState) -> Option<
    (Seq<u8>, EncoderKind),
> {
    if !h.contains_key(accept_encoding_key()) {
        None
    } else {
        spec_select_from(h[accept_encoding_key()], 0, st.encodings)
    }
}

/// What the content-length middleware does: a non-empty body gets its
/// byte length recorded under `Content-Length`; anything else passes
/// through untouched.
pub open spec fn spec_content_length(r: SpecResponse) -> SpecResponse {
    match r.body {
        Some(b) => if b.len() > 0 {
            SpecResponse {
                status: r.status,
                headers: Some(
                    spec_header_insert(
                        match r.headers {
                            Some(ps) => ps,
                            None => Seq::empty(),
                        },
                        content_length_name(),
                        spec_dec_digits(b.len() as int),
                    ),
                ),
                body: r.body,
            }
        } else {
            r
        },
        None => r,
    }
}

/// What the content-encoding middleware does: no selected encoding or
/// no body passes the response through untouched; otherwise the body is
/// replaced by its encoding and the encoding's name recorded. The
/// registered encoders never fail; a failing one would degrade the
/// response to a 500 instead.
pub open spec fn spec_content_encoding(
    h: Map<Seq<u8>, Seq<u8>>,
    st: SpecState,
    resp: SpecResponse,
) -> SpecResponse {
    match spec_select_encoding(h, st) {
        None => resp,
        Some(sel) => match resp.body {
            None => resp,
            Some(b) => SpecResponse {
                status: resp.status,
                headers: Some(
                    spec_header_insert(
                        match resp.headers {
                            Some(ps) => ps,
                            None => Seq::empty(),
                        },
                        content_encoding_name(),
                        sel.0,
                    ),
                ),
                body: Some(spec_encode(sel.1, b)),
            },
        },
    }
}

/// One middleware step.
pub open spec fn spec_apply_middleware(
    m: Middleware,
    h: Map<Seq<u8>, Seq<u8>>,
    st: SpecState,
    resp: SpecResponse,
) -> SpecResponse {
    match m {
        Middleware::ContentEncoding => spec_content_encoding(h, st, resp),
        Middleware::ContentLength => spec_content_length(resp),
    }
}

/// A pipeline applied in registration order: the first-registered
/// transform reshapes the handler's response first.
pub open spec fn spec_apply_pipeline(
    ms: Seq<Middleware>,
    h: Map<Seq<u8>, Seq<u8>>,
    st: SpecState,
    resp: SpecResponse,
) -> SpecResponse
    decreases ms.len(),
{
    if ms.len() == 0 {
        resp
    } else {
        spec_apply_middleware(ms.last(), h, st, spec_apply_pipeline(ms.drop_last(), h, st, resp))
    }
}

/// Find the first supported encoding named by the request, with its
/// registered encoder.
fn select_encoding(req_headers: &Headers, state: &State) -> (r: Option<(Vec<u8>, EncoderKind)>)
    ensures
        match r {
            Some(sel) => spec_select_encoding(req_headers@, state@) == Some((sel.0@, sel.1)),
            None => spec_select_encoding(req_headers@, state@) is None,
        },
{
    proof {
        reveal_strlit("accept-encoding");
        lemma_accept_encoding_key_folded();
    }
    let key = lit_bytes("accept-encoding");
    let v = match req_headers.get(&key) {
        None => {
            return None;
        },
        Some(v) => v,
    };
    let n = v.len();
    let mut i: usize = 0;
    loop
        invariant
            0 <= i <= n,
            n == v@.len(),
            req_headers@.contains_key(accept_encoding_key()),
            v@ == req_headers@[accept_encoding_key()],
            spec_select_from(v@, 0, state@.encodings) == spec_select_from(
                v@,
                i as int,
                state@.encodings,
            ),
        decreases n - i,
    {
        let end = match find_byte(v, COMMA, i) {
            Some(c) => c,
            None => n,
        };
        let tok = trim_copy(v, i, end);
        match state.encoder(&tok) {
            Some(k) => {
                return Some((tok, k));
            },
            None => {
                if end == n {
                    return None;
                }
                i = end + 1;
            },
        }
    }
}

/// Content-length middleware: record the final body's byte length.
pub fn content_length(resp: Response) -> (r: Response)
    ensures
        r@ == spec_content_length(resp@),
{
    let Response { status, headers, body } = resp;
    match body {
        Some(b) => {
            let len = b.data.len();
            if len > 0 {
                let mut hs = match headers {
                    Some(h) => h,
                    None => Headers::new(),
                };
                proof {
                    reveal_strlit("Content-Length");
                }
                hs.insert(lit_bytes("Content-Length"), dec_bytes(len));
                Response { status, headers: Some(hs), body: Some(b) }
            } else {
                Response { status, headers, body: Some(b) }
            }
        },
        None => Response { status, headers, body: None },
    }
}

/// Content-encoding middleware: if the request accepts a registered
/// encoding, encode the body and name the encoding. Without an
/// acceptable encoding the response passes through byte for byte. An
/// encoder failure would degrade the response to a 500, but no
/// registered encoder fails.
pub fn content_encoding(req_headers: &Headers, state: &State, resp: Response) -> (r: Response)
    ensures
        r@ == spec_content_encoding(req_headers@, state@, resp@),
        spec_select_encoding(req_headers@, state@) is None ==> r@ == resp@,
{
    let ghost resp0 = resp@;
    match select_encoding(req_headers, state) {
        None => resp,
        Some((name, kind)) => {
            let Response { status, headers, body } = resp;
            match body {
                None => Response { status, headers, body: None },
                Some(b) => {
                    match apply_encoder(kind, b) {
                        Ok(encoded) => {
                            let mut hs = match headers {
                                Some(h) => h,
                                None => Headers::new(),
                            };
                            proof {
                                reveal_strlit("Content-Encoding");
                            }
                            hs.insert(lit_bytes("Content-Encoding"), name);
                            let r = Response {
                                status,
                                headers: Some(hs),
                                body: Some(Body { data: encoded.data }),
                            };
                            proof {
                                assert(r@ == spec_content_encoding(req_headers@, state@, resp0));
                            }
                            r
                        },
                        Err(_) => {
                            proof {
                                assert(false);
                            }
                            Response::from_status(StatusCode::Internal)
                        },
                    }
                },
            }
        },
    }
}

/// Apply a registered pipeline to a handler's response, first transform
/// first.
pub fn apply_pipeline(
    pipeline: &Vec<Middleware>,
    req_headers: &Headers,
    state: &State,
    resp: Response,
) -> (r: Response)
    ensures
        r@ == spec_apply_pipeline(pipeline@, req_headers@, state@, resp@),
{
    let ghost resp0 = resp@;
    let mut cur = resp;
    let mut i: usize = 0;
    while i < pipeline.len()
        invariant
            0 <= i <= pipeline@.len(),
            cur@ == spec_apply_pipeline(pipeline@.take(i as int), req_headers@, state@, resp0),
        decreases pipeline@.len() - i,
    {
        let ghost prev = cur@;
        let m = pipeline[i];
        match m {
            Middleware::ContentEncoding => {
                cur = content_encoding(req_headers, state, cur);
            },
            Middleware::ContentLength => {
                cur = content_length(cur);
            },
        }
        proof {
            assert(cur@ == spec_apply_middleware(pipeline@[i as int], req_headers@, state@, prev));
            assert(pipeline@.take(i as int + 1).drop_last() =~= pipeline@.take(i as int));
            assert(pipeline@.take(i as int + 1).last() == pipeline@[i as int]);
            assert(cur@ == spec_apply_pipeline(
                pipeline@.take(i as int + 1),
                req_headers@,
                state@,
                resp0,
            ));
        }
        i = i + 1;
    }
    proof {
        assert(pipeline@.take(pipeline@.len() as int) =~= pipeline@);
    }
    cur
}

/// Idempotence of content negotiation: a request without an
/// `Accept-Encoding` header leaves the middleware's output identical to
/// its input, byte for byte.
pub proof fn lemma_content_encoding_noop(
    h: Map<Seq<u8>, Seq<u8>>,
    st: SpecState,
    resp: SpecResponse,
)
    requires
        !h.contains_key(accept_encoding_key()),
    ensures
        spec_content_encoding(h, st, resp) == resp,
{
}

/// Middleware ordering: when content-encoding stands before
/// content-length in the pipeline, the final `Content-Length` names the
/// length of the final body — and that body is the encoding of the
/// handler's body whenever an encoding was selected, so the recorded
/// length is the encoded one, never the handler's.
pub proof fn lemma_pipeline_content_length(
    h: Map<Seq<u8>, Seq<u8>>,
    st: SpecState,
    resp: SpecResponse,
)
    ensures
        ({
            let out = spec_apply_pipeline(
                seq![Middleware::ContentEncoding, Middleware::ContentLength],
                h,
                st,
                resp,
            );
            &&& match out.body {
                Some(b) => b.len() > 0 ==> match out.headers {
                    Some(ps) => map_of_pairs(ps).contains_key(
                        spec_lower_seq(content_length_name()),
                    ) && map_of_pairs(ps)[spec_lower_seq(content_length_name())]
                        == spec_dec_digits(b.len() as int),
                    None => false,
                },
                None => true,
            }
            &&& match (spec_select_encoding(h, st), resp.body) {
                (Some(sel), Some(b0)) => out.body == Some(spec_encode(sel.1, b0)),
                _ => true,
            }
        }),
{
    let ms = seq![Middleware::ContentEncoding, Middleware::ContentLength];
    let one = seq![Middleware::ContentEncoding];
    assert(ms.last() == Middleware::ContentLength);
    assert(ms.drop_last() =~= one);
    assert(one.last() == Middleware::ContentEncoding);
    assert(one.drop_last() =~= Seq::<Middleware>::empty());
    let mid = spec_content_encoding(h, st, resp);
    assert(spec_apply_pipeline(one.drop_last(), h, st, resp) == resp);
    assert(spec_apply_pipeline(one, h, st, resp) == mid);
    assert(spec_apply_pipeline(ms, h, st, resp) == spec_content_length(mid));
    match mid.body {
        Some(b) => {
            if b.len() > 0 {
                lemma_header_insert_map(
                    match mid.headers {
                        Some(ps) => ps,
                        None => Seq::empty(),
                    },
                    content_length_name(),
                    spec_dec_digits(b.len() as int),
                );
            }
        },
        None => {},
    }
}

} // verus!
