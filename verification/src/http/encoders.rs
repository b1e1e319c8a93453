//! Response-body encoders available to the content-encoding middleware.

use vstd::prelude::*;
use std::io::Write;
use flate2::Compression;
use flate2::write::GzEncoder;
use crate::http::Body;

verus! {

/// Failure of a response-body encoder.
#[derive(PartialEq, Eq, Structural, Clone, Copy, Debug)]
pub enum EncodeError {
    Failed,
}

/// The encoders a registry entry can name.
#[derive(PartialEq, Eq, Structural, Clone, Copy, Debug)]
pub enum EncoderKind {
    Gzip,
}

/// The gzip stream flate2 produces for a byte sequence. flate2 writes a
/// fixed header (zero modification time, operating-system byte 255), so
/// the stream is a function of the input bytes alone.
pub uninterp spec fn gzip_of(data: Seq<u8>) -> Seq<u8>;

/// What the encoder `kind` names returns on success.
pub open spec fn spec_encode(kind: EncoderKind, data: Seq<u8>) -> Seq<u8> {
    match kind {
        EncoderKind::Gzip => gzip_of(data),
    }
}

/// Relies on flate2's `write::GzEncoder` at the default compression
/// level: writing all of `data` and finishing yields the gzip stream of
/// `data`. The call cannot fail — `write`, `flush` and `finish` error
/// only when the inner sink errors, and a `Vec` sink never does, or on
/// compressor states this fixed call sequence never reaches — and the
/// stream is never empty, as the fixed ten-byte header is always
/// written.
#[verifier::external_body]
fn gzip_compress(data: &Vec<u8>) -> (r: Result<Vec<u8>, EncodeError>)
    ensures
        match r {
            Ok(v) => v@ == gzip_of(data@) && v@.len() > 0,
            Err(_) => false,
        },
{
    let mut encoder = GzEncoder::new(Vec::new(), Compression::default());
    if encoder.write_all(data.as_slice()).is_err() {
        return Err(EncodeError::Failed);
    }
    if encoder.flush().is_err() {
        return Err(EncodeError::Failed);
    }
    match encoder.finish() {
        Ok(v) => Ok(v),
        Err(_) => Err(EncodeError::Failed),
    }
}

/// Compress a body with gzip, replacing its bytes by their non-empty
/// gzip stream; compression never fails.
pub fn gzip_encoder(body: Body) -> (r: Result<Body, EncodeError>)
    ensures
        match r {
            Ok(b) => b@ == gzip_of(body@) && b@.len() > 0,
            Err(_) => false,
        },
{
    match gzip_compress(&body.data) {
        Ok(data) => Ok(Body { data }),
        Err(e) => Err(e),
    }
}

/// Run the encoder `kind` names on a body; every registered encoder
/// succeeds and returns a non-empty stream.
pub fn apply_encoder(kind: EncoderKind, body: Body) -> (r: Result<Body, EncodeError>)
    ensures
        match r {
            Ok(b) => b@ == spec_encode(kind, body@) && b@.len() > 0,
            Err(_) => false,
        },
{
    match kind {
        EncoderKind::Gzip => gzip_encoder(body),
    }
}

} // verus!
