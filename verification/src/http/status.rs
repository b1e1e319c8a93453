//! Response status codes and their wire text.

use vstd::prelude::*;
use crate::http::helpers::ascii_bytes;
use crate::http::helpers::lit_bytes;

verus! {

/// Status codes produced by the core.
#[derive(PartialEq, Eq, Structural, Clone, Copy, Debug)]
pub enum StatusCode {
    OK,
    Created,
    NotFound,
    MethodNotAllowed,
    Internal,
}

/// The status-line text of a code: the number and its canonical reason
/// phrase.
pub open spec fn spec_status_text(s: StatusCode) -> Seq<u8> {
    match s {
        StatusCode::OK => ascii_bytes("200 OK"@),
        StatusCode::Created => ascii_bytes("201 Created"@),
        StatusCode::NotFound => ascii_bytes("404 Not Found"@),
        StatusCode::MethodNotAllowed => ascii_bytes("405 Method Not Allowed"@),
        StatusCode::Internal => ascii_bytes("500 Internal Server Error"@),
    }
}

impl StatusCode {
    /// The numeric value of the code.
    pub open spec fn spec_code(&self) -> u16 {
        match self {
            StatusCode::OK => 200,
            StatusCode::Created => 201,
            StatusCode::NotFound => 404,
            StatusCode::MethodNotAllowed => 405,
            StatusCode::Internal => 500,
        }
    }

    /// The numeric value of the code.
    pub fn code(&self) -> (r: u16)
        ensures
            r == self.spec_code(),
    {
        match self {
            StatusCode::OK => 200,
            StatusCode::Created => 201,
            StatusCode::NotFound => 404,
            StatusCode::MethodNotAllowed => 405,
            StatusCode::Internal => 500,
        }
    }

    /// The status-line text, e.g. the bytes of `200 OK`.
    pub fn text(&self) -> (r: Vec<u8>)
        ensures
            r@ == spec_status_text(*self),
    {
        match self {
            StatusCode::OK => {
                proof {
                    reveal_strlit("200 OK");
                }
                lit_bytes("200 OK")
            },
            StatusCode::Created => {
                proof {
                    reveal_strlit("201 Created");
                }
                lit_bytes("201 Created")
            },
            StatusCode::NotFound => {
                proof {
                    reveal_strlit("404 Not Found");
                }
                lit_bytes("404 Not Found")
            },
            StatusCode::MethodNotAllowed => {
                proof {
                    reveal_strlit("405 Method Not Allowed");
                }
                lit_bytes("405 Method Not Allowed")
            },
            StatusCode::Internal => {
                proof {
                    reveal_strlit("500 Internal Server Error");
                }
                lit_bytes("500 Internal Server Error")
            },
        }
    }
}

} // verus!
