//! Content decoding: the response's `Content-Encoding` selects gzip,
//! deflate or no transform; the decompression is the `flate2` crate's.

use vstd::prelude::*;
use crate::headers::{Headers, opt_bytes, header_value, eq_ignore_case, bytes_eq_ignore_case};

verus! {

/// What `flate2::read::GzDecoder` reads out of `b`, or `None` where it fails.
pub uninterp spec fn gzip_decoded(b: Seq<u8>) -> Option<Seq<u8>>;

/// What `flate2::read::DeflateDecoder` reads out of `b`, or `None` where it
/// fails.
pub uninterp spec fn deflate_decoded(b: Seq<u8>) -> Option<Seq<u8>>;

/// Relies on `flate2::read::GzDecoder`, read to the end: the gzip member
/// decompressed.
#[verifier::external_body]
fn gunzip(b: &[u8]) -> (r: Option<Vec<u8>>)
    ensures
        opt_bytes(r) == gzip_decoded(b@),
{
    let mut out = Vec::new();
    match std::io::Read::read_to_end(&mut flate2::read::GzDecoder::new(b), &mut out) {
        Ok(_) => Some(out),
        Err(_) => None,
    }
}

/// Relies on `flate2::read::DeflateDecoder`, read to the end: the raw
/// deflate stream decompressed.
#[verifier::external_body]
fn inflate(b: &[u8]) -> (r: Option<Vec<u8>>)
    ensures
        opt_bytes(r) == deflate_decoded(b@),
{
    let mut out = Vec::new();
    match std::io::Read::read_to_end(&mut flate2::read::DeflateDecoder::new(b), &mut out) {
        Ok(_) => Some(out),
        Err(_) => None,
    }
}

/// The transform that a response body went through.
#[derive(Clone, Copy, Debug, PartialEq, Eq, Structural)]
pub enum ContentCoding {
    Gzip,
    Deflate,
    Identity,
}

/// `content-encoding`.
pub open spec fn content_encoding_name() -> Seq<u8> {
    seq![99u8, 111, 110, 116, 101, 110, 116, 45, 101, 110, 99, 111, 100, 105, 110, 103]
}

pub open spec fn gzip_token() -> Seq<u8> {
    seq![103u8, 122, 105, 112]
}

pub open spec fn deflate_token() -> Seq<u8> {
    seq![100u8, 101, 102, 108, 97, 116, 101]
}

/// The coding that the first `Content-Encoding` field names (any case);
/// any other value, or none, is the identity.
pub open spec fn coding_of(h: Seq<(Seq<u8>, Seq<u8>)>) -> ContentCoding {
    match header_value(h, content_encoding_name()) {
        Some(v) => if eq_ignore_case(v, gzip_token()) {
            ContentCoding::Gzip
        } else if eq_ignore_case(v, deflate_token()) {
            ContentCoding::Deflate
        } else {
            ContentCoding::Identity
        },
        None => ContentCoding::Identity,
    }
}

/// The body once the coding is undone; `None` where the decoder fails.
pub open spec fn decoded(c: ContentCoding, body: Seq<u8>) -> Option<Seq<u8>> {
    match c {
        ContentCoding::Gzip => gzip_decoded(body),
        ContentCoding::Deflate => deflate_decoded(body),
        ContentCoding::Identity => Some(body),
    }
}

/// The coding that `headers` announce.
pub fn content_coding(headers: &Headers) -> (r: ContentCoding)
    ensures
        r == coding_of(headers@),
{
    let name: Vec<u8> = vec![99u8, 111, 110, 116, 101, 110, 116, 45, 101, 110, 99, 111, 100, 105, 110, 103];
    assert(name@ =~= content_encoding_name());
    match headers.get(name.as_slice()) {
        Some(v) => {
            let gz: Vec<u8> = vec![103u8, 122, 105, 112];
            let df: Vec<u8> = vec![100u8, 101, 102, 108, 97, 116, 101];
            assert(gz@ =~= gzip_token());
            assert(df@ =~= deflate_token());
            if bytes_eq_ignore_case(v.as_slice(), gz.as_slice()) {
                ContentCoding::Gzip
            } else if bytes_eq_ignore_case(v.as_slice(), df.as_slice()) {
                ContentCoding::Deflate
            } else {
                ContentCoding::Identity
            }
        },
        None => ContentCoding::Identity,
    }
}

/// Undoes the coding `c` on `body`.
pub fn decode(c: ContentCoding, body: Vec<u8>) -> (r: Option<Vec<u8>>)
    ensures
        opt_bytes(r) == decoded(c, body@),
{
    match c {
        ContentCoding::Gzip => gunzip(body.as_slice()),
        ContentCoding::Deflate => inflate(body.as_slice()),
        ContentCoding::Identity => Some(body),
    }
}

/// Undoes the coding that `headers` announce on `body`.
pub fn decode_body(headers: &Headers, body: Vec<u8>) -> (r: Option<Vec<u8>>)
    ensures
        opt_bytes(r) == decoded(coding_of(headers@), body@),
{
    let c = content_coding(headers);
    decode(c, body)
}

} // verus!
