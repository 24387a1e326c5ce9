//! The sync-key codec: a text (the JSON of a dataset snapshot) is gzipped at
//! the best compression level and written in URL-safe base64; reading a key
//! undoes both steps and tells the failures apart.
use base64::Engine;
use std::io::Read;
use std::io::Write;
use vstd::prelude::*;

verus! {

/// Why a sync key could not be made or read.
#[derive(Clone, Copy, Debug, PartialEq, Eq, Structural)]
pub enum CodecError {
    /// The compressed text is too long to encode.
    Compress,
    /// The key is not URL-safe base64.
    Base64,
    /// The decoded bytes are not a gzip stream of UTF-8 text.
    Decompress,
    /// The text is not the JSON of a snapshot.
    Deserialize,
}

/// The gzip stream, at the best compression level, of the UTF-8 bytes of `s`.
pub uninterp spec fn gzip_of(s: Seq<char>) -> Seq<u8>;

/// The text that a gzip stream inflates to, where it is one and the result is
/// UTF-8.
pub uninterp spec fn gunzip_text(b: Seq<u8>) -> Option<Seq<char>>;

/// URL-safe base64, with padding, of `b`.
pub uninterp spec fn base64_url(b: Seq<u8>) -> Seq<char>;

/// A character of the URL-safe base64 alphabet, or the padding `=`.
pub open spec fn is_base64_url_char(c: char) -> bool {
    ('A' <= c <= 'Z') || ('a' <= c <= 'z') || ('0' <= c <= '9') || c == '-' || c == '_' || c == '='
}

/// The length of padded base64 for `n` bytes: four characters per started
/// group of three bytes.
pub open spec fn base64_padded_len(n: nat) -> nat {
    4 * ((n + 2) / 3)
}

/// The bytes that a URL-safe base64 text (with padding) decodes to.
pub uninterp spec fn base64_url_bytes(s: Seq<char>) -> Option<Seq<u8>>;

/// What reading the key `k` gives.
pub open spec fn key_contents(k: Seq<char>) -> Result<Seq<char>, CodecError> {
    match base64_url_bytes(k) {
        None => Err(CodecError::Base64),
        Some(b) => match gunzip_text(b) {
            None => Err(CodecError::Decompress),
            Some(t) => Ok(t),
        },
    }
}

/// Relies on flate2's `GzEncoder` at `Compression::best()` (`write_all`, then
/// `finish`), whose output `GzDecoder` inflates back to the input. Writing
/// into a `Vec` sink does not fail.
#[verifier::external_body]
fn gzip_best(data: &str) -> (r: Option<Vec<u8>>)
    ensures
        r is Some,
        r is Some ==> r->Some_0@ == gzip_of(data@),
        r is Some ==> gunzip_text(r->Some_0@) == Some(data@),
{
    let mut encoder = flate2::write::GzEncoder::new(Vec::new(), flate2::Compression::best());
    match encoder.write_all(data.as_bytes()) {
        Ok(()) => encoder.finish().ok(),
        Err(_) => None,
    }
}

/// Relies on flate2's `GzDecoder` and `Read::read_to_string`: the text that a
/// gzip stream inflates to, refused where it is not gzip or not UTF-8.
#[verifier::external_body]
fn gunzip_to_string(bytes: &[u8]) -> (r: Option<String>)
    ensures
        r is Some <==> gunzip_text(bytes@) is Some,
        r is Some ==> gunzip_text(bytes@) == Some(r->Some_0@),
{
    let mut decoder = flate2::read::GzDecoder::new(bytes);
    let mut text = String::new();
    match decoder.read_to_string(&mut text) {
        Ok(_) => Some(text),
        Err(_) => None,
    }
}

/// Relies on base64's `general_purpose::URL_SAFE.encode`, which the same
/// engine's `decode` inverts. It panics where the output length overflows.
#[verifier::external_body]
fn base64_url_encode(bytes: &[u8]) -> (r: String)
    requires
        bytes@.len() <= usize::MAX / 2,
    ensures
        r@ == base64_url(bytes@),
        base64_url_bytes(r@) == Some(bytes@),
        r@.len() == base64_padded_len(bytes@.len()),
        forall|i: int| 0 <= i < r@.len() ==> is_base64_url_char(#[trigger] r@[i]),
{
    base64::engine::general_purpose::URL_SAFE.encode(bytes)
}

/// Relies on base64's `general_purpose::URL_SAFE.decode`.
#[verifier::external_body]
fn base64_url_decode(text: &str) -> (r: Option<Vec<u8>>)
    ensures
        r is Some <==> base64_url_bytes(text@) is Some,
        r is Some ==> base64_url_bytes(text@) == Some(r->Some_0@),
{
    base64::engine::general_purpose::URL_SAFE.decode(text).ok()
}

/// Makes a sync key of `data`: gzip at the best level, then URL-safe base64.
/// A key is made whenever the compressed text is short enough to encode;
/// reading it gives `data` back.
pub fn compress_and_encode(data: &str) -> (r: Result<String, CodecError>)
    ensures
        r is Ok <==> gzip_of(data@).len() <= usize::MAX / 2,
        r is Ok ==> r->Ok_0@ == base64_url(gzip_of(data@)),
        r is Ok ==> key_contents(r->Ok_0@) == Ok::<Seq<char>, CodecError>(data@),
        r is Ok ==> r->Ok_0@.len() == base64_padded_len(gzip_of(data@).len()),
        r is Ok ==> forall|i: int| 0 <= i < r->Ok_0@.len() ==> is_base64_url_char(#[trigger] r->Ok_0@[i]),
        r is Err ==> r == Err::<String, CodecError>(CodecError::Compress),
{
    match gzip_best(data) {
        None => Err(CodecError::Compress),
        Some(compressed) => {
            if compressed.len() > usize::MAX / 2 {
                Err(CodecError::Compress)
            } else {
                Ok(base64_url_encode(compressed.as_slice()))
            }
        },
    }
}

/// Reads a sync key back into its text: URL-safe base64, then gunzip.
pub fn decode_and_decompress(encoded: &str) -> (r: Result<String, CodecError>)
    ensures
        match r {
            Ok(t) => key_contents(encoded@) == Ok::<Seq<char>, CodecError>(t@),
            Err(e) => key_contents(encoded@) == Err::<Seq<char>, CodecError>(e),
        },
{
    match base64_url_decode(encoded) {
        None => Err(CodecError::Base64),
        Some(bytes) => match gunzip_to_string(bytes.as_slice()) {
            None => Err(CodecError::Decompress),
            Some(t) => Ok(t),
        },
    }
}

} // verus!
