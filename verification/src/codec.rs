//! Digests, hexadecimal text and compression, as the outside crates compute
//! them. Nothing in this file is proved: each contract states what the
//! outside function is taken to do.

use vstd::prelude::*;
use crate::text::digit_char;
use std::io::Read;
use std::io::Write;

verus! {

/// The SHA-512 digest of a byte sequence.
pub uninterp spec fn sha512_digest(data: Seq<u8>) -> Seq<u8>;

/// The gzip stream that the compressor, at its highest level, writes for a
/// byte sequence; `None` where it reports an error.
pub uninterp spec fn gzip_bytes(data: Seq<u8>) -> Option<Seq<u8>>;

/// The text that a gzip stream decompresses to; `None` where the stream is
/// damaged or what it holds is not UTF-8.
pub uninterp spec fn gunzip_text(data: Seq<u8>) -> Option<Seq<char>>;

/// The lower-case hexadecimal digit of a value from 0 to 15.
pub open spec fn hex_digit(v: int) -> char {
    if v < 10 {
        digit_char(v)
    } else if v == 10 {
        'a'
    } else if v == 11 {
        'b'
    } else if v == 12 {
        'c'
    } else if v == 13 {
        'd'
    } else if v == 14 {
        'e'
    } else {
        'f'
    }
}

/// Two lower-case hexadecimal digits for each byte, the high half first.
pub open spec fn hex_lower(data: Seq<u8>) -> Seq<char> {
    Seq::new(
        2 * data.len(),
        |i: int|
            if i % 2 == 0 {
                hex_digit(data[i / 2] as int / 16)
            } else {
                hex_digit(data[i / 2] as int % 16)
            },
    )
}

/// Calls `sha2::Sha512::digest`. The contract names the digest and takes
/// from the algorithm's output size that it has 64 bytes.
#[verifier::external_body]
pub(crate) fn sha512(data: &[u8]) -> (r: Vec<u8>)
    ensures
        r@ == sha512_digest(data@),
        r@.len() == 64,
{
    <sha2::Sha512 as sha2::Digest>::digest(data).to_vec()
}

/// Calls `hex::encode`. The contract states its documented result: each
/// byte becomes two lower-case hexadecimal digits.
#[verifier::external_body]
pub(crate) fn hex_encode(data: &[u8]) -> (r: String)
    ensures
        r@ == hex_lower(data@),
{
    hex::encode(data)
}

/// Runs `flate2::write::GzEncoder` at level 9 over `data` into memory. The
/// contract names the stream that comes out.
#[verifier::external_body]
pub(crate) fn gzip(data: &[u8]) -> (r: Option<Vec<u8>>)
    ensures
        r is Some <==> gzip_bytes(data@) is Some,
        r is Some ==> r->0@ == gzip_bytes(data@)->0,
{
    let mut encoder = flate2::write::GzEncoder::new(Vec::new(), flate2::Compression::new(9));
    match encoder.write_all(data) {
        Ok(()) => match encoder.finish() {
            Ok(bytes) => Some(bytes),
            Err(_) => None,
        },
        Err(_) => None,
    }
}

/// Runs `flate2::read::GzDecoder` over `data` and reads the result as text.
/// The contract names the text that comes out.
#[verifier::external_body]
pub(crate) fn gunzip(data: &[u8]) -> (r: Option<String>)
    ensures
        r is Some <==> gunzip_text(data@) is Some,
        r is Some ==> r->0@ == gunzip_text(data@)->0,
{
    let mut decoder = flate2::read::GzDecoder::new(data);
    let mut text = String::new();
    match decoder.read_to_string(&mut text) {
        Ok(_) => Some(text),
        Err(_) => None,
    }
}

} // verus!
