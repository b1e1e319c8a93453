//! Responses handed back to the transport, and their wire serialization.

use vstd::prelude::*;
use crate::http::Body;
use crate::http::header::Headers;
use crate::http::helpers::CR;
use crate::http::helpers::LF;
use crate::http::helpers::COLON;
use crate::http::helpers::SP;
use crate::http::helpers::append_bytes;
use crate::http::helpers::ascii_bytes;
use crate::http::helpers::lit_bytes;
use crate::http::status::StatusCode;
use crate::http::status::spec_status_text;

verus! {

/// Model of a response: status, header pairs in order, body bytes.
pub struct SpecResponse {
    pub status: StatusCode,
    pub headers: Option<Seq<(Seq<u8>, Seq<u8>)>>,
    pub body: Option<Seq<u8>>,
}

/// Response built by a handler and reshaped by middleware on its way to
/// the transport.
pub struct Response {
    pub status: StatusCode,
    pub headers: Option<Headers>,
    pub body: Option<Body>,
}

impl View for Response {
    type V = SpecResponse;

    open spec fn view(&self) -> SpecResponse {
        SpecResponse {
            status: self.status,
            headers: match self.headers {
                Some(h) => Some(h.pairs()),
                None => None,
            },
            body: match self.body {
                Some(b) => Some(b@),
                None => None,
            },
        }
    }
}

/// The response `from_status` builds: a plain-text body holding the
/// status line itself.
pub open spec fn spec_from_status(status: StatusCode) -> SpecResponse {
    SpecResponse {
        status,
        headers: Some(
            Seq::<(Seq<u8>, Seq<u8>)>::empty().push(
                (ascii_bytes("Content-Type"@), ascii_bytes("text/plain"@)),
            ),
        ),
        body: Some(spec_status_text(status)),
    }
}

/// One serialized header line: `name: value` and CRLF.
pub open spec fn spec_header_block(ps: Seq<(Seq<u8>, Seq<u8>)>) -> Seq<u8>
    decreases ps.len(),
{
    if ps.len() == 0 {
        Seq::empty()
    } else {
        spec_header_block(ps.drop_last()) + ps.last().0 + seq![COLON, SP] + ps.last().1 + seq![
            CR,
            LF,
        ]
    }
}

/// The wire bytes of a response: status line, header lines, blank line,
/// body.
pub open spec fn spec_serialize_response(r: SpecResponse) -> Seq<u8> {
    ascii_bytes("HTTP/1.1 "@) + spec_status_text(r.status) + seq![CR, LF] + (match r.headers {
        Some(ps) => spec_header_block(ps),
        None => Seq::empty(),
    }) + seq![CR, LF] + (match r.body {
        Some(b) => b,
        None => Seq::empty(),
    })
}

impl Response {
    /// A response with the given status, headers and body bytes.
    pub fn from_data(status: StatusCode, headers: Headers, data: Vec<u8>) -> (r: Response)
        ensures
            r@ == (SpecResponse {
                status,
                headers: Some(headers.pairs()),
                body: Some(data@),
            }),
    {
        Response { status, headers: Some(headers), body: Some(Body { data }) }
    }

    /// A plain-text response that carries the status line as its body.
    pub fn from_status(status: StatusCode) -> (r: Response)
        ensures
            r@ == spec_from_status(status),
    {
        let mut headers = Headers::new();
        proof {
            reveal_strlit("Content-Type");
            reveal_strlit("text/plain");
        }
        headers.insert(lit_bytes("Content-Type"), lit_bytes("text/plain"));
        proof {
            assert(headers.pairs() =~= spec_from_status(status).headers.unwrap());
        }
        let data = status.text();
        Response { status, headers: Some(headers), body: Some(Body { data }) }
    }

    /// Serialize for the wire: status line, each header line in stored
    /// order, a blank line, then the body if any.
    pub fn to_bytes(&self) -> (out: Vec<u8>)
        ensures
            out@ == spec_serialize_response(self@),
    {
        proof {
            reveal_strlit("HTTP/1.1 ");
        }
        let mut out = lit_bytes("HTTP/1.1 ");
        let text = self.status.text();
        append_bytes(&mut out, text.as_slice());
        out.push(CR);
        out.push(LF);
        let ghost start = ascii_bytes("HTTP/1.1 "@) + spec_status_text(self.status) + seq![CR, LF];
        proof {
            assert(out@ =~= start);
        }
        match &self.headers {
            Some(h) => {
                let n = h.pair_count();
                let mut i: usize = 0;
                proof {
                    assert(out@ =~= start + spec_header_block(h.pairs().take(0)));
                }
                while i < n
                    invariant
                        0 <= i <= n,
                        n == h.pairs().len(),
                        self.headers == Some(*h),
                        out@ == start + spec_header_block(h.pairs().take(i as int)),
                        start == ascii_bytes("HTTP/1.1 "@) + spec_status_text(self.status) + seq![
                            CR,
                            LF,
                        ],
                    decreases n - i,
                {
                    let key = h.key_at(i);
                    append_bytes(&mut out, key.as_slice());
                    out.push(COLON);
                    out.push(SP);
                    let value = h.value_at(i);
                    append_bytes(&mut out, value.as_slice());
                    out.push(CR);
                    out.push(LF);
                    proof {
                        assert(h.pairs().take(i as int + 1).drop_last() =~= h.pairs().take(
                            i as int,
                        ));
                        assert(out@ =~= start + spec_header_block(h.pairs().take(i as int + 1)));
                    }
                    i = i + 1;
                }
                proof {
                    assert(h.pairs().take(n as int) =~= h.pairs());
                }
            },
            None => {},
        }
        out.push(CR);
        out.push(LF);
        match &self.body {
            Some(b) => {
                append_bytes(&mut out, b.data.as_slice());
            },
            None => {},
        }
        proof {
            assert(out@ =~= spec_serialize_response(self@));
        }
        out
    }
}

} // verus!
