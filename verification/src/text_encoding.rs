//! Turning the bytes of a TJA file into text: the file's encoding is
//! guessed from its bytes, and the file is accepted only if it decodes in
//! that encoding without errors.
use chardetng::EncodingDetector;
use encoding_rs::Encoding;
use vstd::prelude::*;

verus! {

#[verifier::external_type_specification]
#[verifier::external_body]
pub struct ExEncoding(encoding_rs::Encoding);

/// Whether `bytes` start with a byte order mark (UTF-8, UTF-16LE or UTF-16BE).
pub open spec fn has_byte_order_mark(bytes: Seq<u8>) -> bool {
    ||| bytes.len() >= 3 && bytes[0] == 0xEF && bytes[1] == 0xBB && bytes[2] == 0xBF
    ||| bytes.len() >= 2 && bytes[0] == 0xFF && bytes[1] == 0xFE
    ||| bytes.len() >= 2 && bytes[0] == 0xFE && bytes[1] == 0xFF
}

/// The encoding `chardetng` guesses for a whole file of `bytes`.
pub uninterp spec fn guessed_encoding(bytes: Seq<u8>) -> &'static Encoding;

/// What `encoding_rs` gives when decoding `bytes` with `encoding`: the
/// text, the encoding actually used and whether anything was malformed.
pub uninterp spec fn decoded(encoding: &'static Encoding, bytes: Seq<u8>) -> (
    Seq<char>,
    &'static Encoding,
    bool,
);

/// Guesses the encoding of a whole file with `chardetng`: a fresh
/// `EncodingDetector::new()` is fed all of `bytes` as the last buffer
/// (`feed(bytes, true)`, the only call made on it, so `feed` cannot panic)
/// and asked `guess(None, true)` (no top-level domain, UTF-8 allowed; `None`
/// cannot make `guess` panic).  Claimed: the guess depends on the bytes
/// alone; which encoding it is, is not described.
#[verifier::external_body]
fn guess_encoding(bytes: &[u8]) -> (r: &'static Encoding)
    ensures
        r == guessed_encoding(bytes@),
{
    let mut detector = EncodingDetector::new();
    detector.feed(bytes, true);
    detector.guess(None, true)
}

/// `encoding_rs::Encoding::decode`: decodes all of `bytes` with BOM
/// sniffing, replacing malformed sequences.  Returns the text, the encoding
/// actually used and whether anything was malformed.  Claimed: without a
/// byte order mark the encoding used is `encoding` itself (the source only
/// switches encodings on a BOM), and the result depends on the encoding
/// and the bytes alone.  The text itself is not described.
#[verifier::external_body]
fn decode_with(encoding: &'static Encoding, bytes: &[u8]) -> (r: (String, &'static Encoding, bool))
    ensures
        (r.0@, r.1, r.2) == decoded(encoding, bytes@),
        !has_byte_order_mark(bytes@) ==> r.1 == encoding,
{
    let (text, used, malformed) = encoding.decode(bytes);
    (text.into_owned(), used, malformed)
}

/// `<Encoding as PartialEq>::eq`, which compares addresses.  Claimed: the
/// result is whether the two are the same encoding (every encoding is a
/// distinct static with its own name, so the same encoding means the same
/// address).
#[verifier::external_body]
fn same_encoding(a: &'static Encoding, b: &'static Encoding) -> (r: bool)
    ensures
        r == (a == b),
{
    a == b
}

/// Why the bytes of a file were not accepted as text.
#[derive(Debug)]
pub enum DecodingError {
    /// A byte order mark chose another encoding than the one guessed.
    AnotherEncodingWasUsed { detected: &'static Encoding, used: &'static Encoding },
    /// The bytes are not valid in the guessed encoding.
    MalformedByteSequenceFound(&'static Encoding),
}

/// What decoding with the guessed encoding `detected` leads to, given the
/// decoder's text, the encoding it used and whether anything was malformed.
pub open spec fn decoding_outcome(
    detected: &'static Encoding,
    text: String,
    used: &'static Encoding,
    malformed: bool,
) -> Result<String, DecodingError> {
    if detected != used {
        Err(DecodingError::AnotherEncodingWasUsed { detected, used })
    } else if malformed {
        Err(DecodingError::MalformedByteSequenceFound(detected))
    } else {
        Ok(text)
    }
}

/// Accepts the decoder's result for the guessed encoding `detected`: the
/// text when the decoder used that encoding and found nothing malformed,
/// the reason otherwise.
pub fn check_decoding(
    detected: &'static Encoding,
    decoded: (String, &'static Encoding, bool),
) -> (r: Result<String, DecodingError>)
    ensures
        r == decoding_outcome(detected, decoded.0, decoded.1, decoded.2),
{
    let (text, used, malformed) = decoded;
    if !same_encoding(detected, used) {
        Err(DecodingError::AnotherEncodingWasUsed { detected, used })
    } else if malformed {
        Err(DecodingError::MalformedByteSequenceFound(detected))
    } else {
        Ok(text)
    }
}

/// The text of a TJA file's bytes, decoded in the encoding guessed from
/// them: refused when a byte order mark chose another encoding, or when
/// the bytes are malformed in the guessed one.  A file without a byte order
/// mark is never refused for another encoding having been used.
pub fn decode_tja(bytes: &[u8]) -> (r: Result<String, DecodingError>)
    ensures
        ({
            let detected = guessed_encoding(bytes@);
            let (text, used, malformed) = decoded(detected, bytes@);
            match r {
                Ok(t) => detected == used && !malformed && t@ == text,
                Err(DecodingError::AnotherEncodingWasUsed { detected: d, used: u }) => detected
                    != used && d == detected && u == used,
                Err(DecodingError::MalformedByteSequenceFound(e)) => detected == used && malformed
                    && e == detected,
            }
        }),
        !has_byte_order_mark(bytes@) ==> !(r matches Err(
            DecodingError::AnotherEncodingWasUsed { .. },
        )),
{
    let detected = guess_encoding(bytes);
    let decoded = decode_with(detected, bytes);
    check_decoding(detected, decoded)
}

} // verus!
