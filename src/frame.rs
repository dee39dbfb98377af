use vstd::prelude::*;
use base64::Engine;
use std::io::Read;

verus! {

/// The bytes that standard-alphabet, padded base64 decoding gives for `s`,
/// or none where `s` is not such an encoding.
pub uninterp spec fn base64_standard(s: Seq<char>) -> Option<Seq<u8>>;

/// The UTF-8 text that gzip decompression gives for `b`, or none where `b`
/// is not a gzip stream of UTF-8 text.
pub uninterp spec fn gunzip_text(b: Seq<u8>) -> Option<Seq<char>>;

/// Relies on `base64::engine::general_purpose::STANDARD.decode`: the
/// result depends on the input alone.
#[verifier::external_body]
fn decode_base64(s: &str) -> (r: Option<Vec<u8>>)
    ensures
        match r {
            Some(v) => base64_standard(s@) == Some(v@),
            None => base64_standard(s@) is None,
        },
{
    base64::engine::general_purpose::STANDARD.decode(s).ok()
}

/// Relies on `flate2::read::GzDecoder` read to a string: the result depends
/// on the input alone.
#[verifier::external_body]
fn decompress_gzip_text(b: &Vec<u8>) -> (r: Option<String>)
    ensures
        match r {
            Some(t) => gunzip_text(b@) == Some(t@),
            None => gunzip_text(b@) is None,
        },
{
    let mut decoder = flate2::read::GzDecoder::new(&b[..]);
    let mut text = String::new();
    decoder.read_to_string(&mut text).ok().map(|_| text)
}

/// The text a feed frame carries: base64, then gzip, then UTF-8.
pub open spec fn frame_text(encoded: Seq<char>) -> Option<Seq<char>> {
    match base64_standard(encoded) {
        Some(b) => gunzip_text(b),
        None => None,
    }
}

/// Decodes one feed frame to its JSON text; none where either layer fails.
pub fn decode_bus_data(encoded: &str) -> (r: Option<String>)
    ensures
        match r {
            Some(t) => frame_text(encoded@) == Some(t@),
            None => frame_text(encoded@) is None,
        },
{
    match decode_base64(encoded) {
        Some(bytes) => decompress_gzip_text(&bytes),
        None => None,
    }
}

} // verus!
