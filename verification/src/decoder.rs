//! Payload decoding: a payload is either one compressed frame or plain text.

use vstd::prelude::*;
use vstd::utf8::{decode_utf8, encode_utf8, valid_utf8};

verus! {

/// Why a payload could not be turned into text.
#[derive(Clone, Copy, Debug, PartialEq, Eq, Structural)]
pub enum DecodeError {
    /// The payload starts like a compressed frame but does not decompress.
    CorruptFrame,
    /// The frame decompressed to bytes that are not UTF-8.
    InvalidText,
}

/// The payload starts with the four bytes that open a compressed frame.
pub open spec fn is_compressed(bytes: Seq<u8>) -> bool {
    &&& bytes.len() >= 4
    &&& bytes[0] == 0x28
    &&& bytes[1] == 0xB5
    &&& bytes[2] == 0x2F
    &&& bytes[3] == 0xFD
}

/// What `zstd::decode_all` makes of a buffer: the decompressed bytes, or
/// nothing where it reports an error.
pub uninterp spec fn zstd_decompressed(frame: Seq<u8>) -> Option<Seq<u8>>;

/// The text that `String::from_utf8_lossy` reads from a buffer.
pub uninterp spec fn utf8_lossy(bytes: Seq<u8>) -> Seq<char>;

/// The text of a frame, given what decompression made of it.
pub open spec fn frame_text(decompressed: Option<Seq<u8>>) -> Result<Seq<char>, DecodeError> {
    match decompressed {
        None => Err(DecodeError::CorruptFrame),
        Some(raw) => if valid_utf8(raw) {
            Ok(decode_utf8(raw))
        } else {
            Err(DecodeError::InvalidText)
        },
    }
}

/// The text of a payload: that of the frame where the payload is one, else
/// the payload itself read as text, with a substitute for every byte
/// sequence that is not UTF-8.
pub open spec fn decoded(bytes: Seq<u8>) -> Result<Seq<char>, DecodeError> {
    if is_compressed(bytes) {
        frame_text(zstd_decompressed(bytes))
    } else {
        Ok(utf8_lossy(bytes))
    }
}

/// A decoding result with the text taken by its characters.
pub open spec fn text_view(r: Result<String, DecodeError>) -> Result<Seq<char>, DecodeError> {
    match r {
        Ok(text) => Ok(text@),
        Err(e) => Err(e),
    }
}

/// Decompression failures of the outside decoder arrive as I/O errors.
#[verifier::external_type_specification]
#[verifier::external_body]
pub struct ExIoError(std::io::Error);

/// The error of `String::from_utf8`.
#[verifier::external_type_specification]
#[verifier::external_body]
pub struct ExFromUtf8Error(std::string::FromUtf8Error);

/// Calls `zstd::decode_all` on the buffer. The contract only names the
/// outcome: success and the bytes handed back are those of
/// `zstd_decompressed`.
#[verifier::external_body]
fn zstd_decode_all(frame: &[u8]) -> (r: Result<Vec<u8>, std::io::Error>)
    ensures
        r is Ok <==> zstd_decompressed(frame@) is Some,
        r matches Ok(raw) ==> zstd_decompressed(frame@) == Some(raw@),
{
    zstd::decode_all(frame)
}

/// Calls `String::from_utf8`: it succeeds exactly on well-formed UTF-8, and
/// the string then holds the characters that the bytes encode.
#[verifier::external_body]
fn string_from_utf8(bytes: Vec<u8>) -> (r: Result<String, std::string::FromUtf8Error>)
    ensures
        r is Ok <==> valid_utf8(bytes@),
        r matches Ok(text) ==> text@ == decode_utf8(bytes@),
{
    String::from_utf8(bytes)
}

/// Calls `String::from_utf8_lossy` and takes the text as an owned string.
/// The text is named `utf8_lossy`; for well-formed UTF-8 it is the text
/// that the bytes encode, as the function's documentation says.
#[verifier::external_body]
fn string_from_utf8_lossy(bytes: &[u8]) -> (r: String)
    ensures
        r@ == utf8_lossy(bytes@),
        valid_utf8(bytes@) ==> r@ == decode_utf8(bytes@),
{
    String::from_utf8_lossy(bytes).into_owned()
}

/// Whether the payload starts with the magic number of a compressed frame.
pub fn is_compressed_frame(bytes: &[u8]) -> (r: bool)
    ensures
        r == is_compressed(bytes@),
{
    bytes.len() >= 4 && bytes[0] == 0x28 && bytes[1] == 0xB5 && bytes[2] == 0x2F && bytes[3]
        == 0xFD
}

/// The text of a frame, given the outcome of its decompression: the bytes
/// must be UTF-8, and nothing is substituted.
pub fn text_of_frame(decompressed: Result<Vec<u8>, std::io::Error>) -> (r: Result<
    String,
    DecodeError,
>)
    ensures
        text_view(r) == frame_text(
            match decompressed {
                Ok(raw) => Some(raw@),
                Err(_) => None,
            },
        ),
{
    match decompressed {
        Err(_) => Err(DecodeError::CorruptFrame),
        Ok(raw) => match string_from_utf8(raw) {
            Ok(text) => Ok(text),
            Err(_) => Err(DecodeError::InvalidText),
        },
    }
}

/// Turns a payload into text. A payload that starts with the magic number
/// is decompressed as a whole and must hold UTF-8; any other payload is read
/// as text directly and never fails.
pub fn decode(bytes: &[u8]) -> (r: Result<String, DecodeError>)
    ensures
        text_view(r) == decoded(bytes@),
        !is_compressed(bytes@) && valid_utf8(bytes@) ==> text_view(r) == Ok::<
            Seq<char>,
            DecodeError,
        >(decode_utf8(bytes@)),
{
    if is_compressed_frame(bytes) {
        text_of_frame(zstd_decode_all(bytes))
    } else {
        Ok(string_from_utf8_lossy(bytes))
    }
}

/// A frame that decompresses to the UTF-8 encoding of a text decodes to
/// that text.
pub proof fn lemma_frame_yields_its_text(frame: Seq<u8>, text: Seq<char>)
    requires
        is_compressed(frame),
        zstd_decompressed(frame) == Some(encode_utf8(text)),
    ensures
        decoded(frame) == Ok::<Seq<char>, DecodeError>(text),
{
    vstd::utf8::encode_utf8_valid_utf8(text);
    vstd::utf8::encode_utf8_decode_utf8(text);
}

/// A payload shorter than the magic number is never taken for a frame.
pub proof fn lemma_short_payload_is_plain(bytes: Seq<u8>)
    requires
        bytes.len() < 4,
    ensures
        decoded(bytes) == Ok::<Seq<char>, DecodeError>(utf8_lossy(bytes)),
{
}

} // verus!
