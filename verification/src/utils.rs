//! Small shared helpers: I/O error values, the clock, and URL-safe Base64;
//! and the stream adapters' decisions.
pub mod prepend_io;
pub mod metered_stream;
pub mod connector;

use vstd::prelude::*;
use crate::crypto::{base64_decode_url_safe, base64_url_safe_decoding};
use vstd::utf8::{valid_utf8, decode_utf8};

verus! {

/// The I/O failures that the stream adapters report.
#[derive(Debug, Clone)]
pub enum IoError {
    /// The peer closed the stream before a complete message arrived.
    UnexpectedEof,
    /// Any other failure, with its message.
    Other(String),
}

/// The error of a stream that ended too early.
pub fn eof() -> (e: IoError)
    ensures
        e is UnexpectedEof,
{
    IoError::UnexpectedEof
}

/// The error of a failed encryption or decryption.
pub fn crypto_error() -> (e: IoError)
    ensures
        e matches IoError::Other(m) && m@ == "crypto error"@,
{
    io_other_error("crypto error")
}

/// An error of kind "other" with the given message.
pub fn io_other_error(message: &str) -> (e: IoError)
    ensures
        e matches IoError::Other(m) && m@ == message@,
{
    IoError::Other(message.to_owned())
}

/// The clock is set before the Unix epoch.
#[derive(Debug, Clone, Copy, PartialEq, Eq, Structural)]
pub struct ClockError;

/// `SystemTime::now().duration_since(UNIX_EPOCH)`, in whole seconds.
/// Nothing is stated of the value: it is the time.
#[verifier::external_body]
fn seconds_since_epoch() -> (r: Result<u64, ClockError>) {
    match std::time::SystemTime::now().duration_since(std::time::UNIX_EPOCH) {
        Ok(d) => Ok(d.as_secs()),
        Err(_) => Err(ClockError),
    }
}

/// The current Unix time in seconds, or an error where the clock is set
/// before 1970.
pub fn unix_ts() -> (r: Result<u64, ClockError>) {
    seconds_since_epoch()
}

/// `String::from_utf8`: the text that `bytes` encode, if they are valid UTF-8.
#[verifier::external_body]
pub fn utf8_text(bytes: Vec<u8>) -> (r: Option<String>)
    ensures
        r matches Some(s) ==> valid_utf8(bytes@) && s@ == decode_utf8(bytes@),
        r is None ==> !valid_utf8(bytes@),
{
    String::from_utf8(bytes).ok()
}

/// What `String::from_utf8_lossy` makes of `bytes`: the text they encode,
/// each invalid sequence replaced by U+FFFD.
pub uninterp spec fn lossy_text(bytes: Seq<u8>) -> Seq<char>;

/// `String::from_utf8_lossy`: the text of `bytes`, invalid sequences
/// replaced by U+FFFD; valid UTF-8 is decoded as it is.
#[verifier::external_body]
pub fn utf8_lossy(bytes: &[u8]) -> (r: String)
    ensures
        r@ == lossy_text(bytes@),
        valid_utf8(bytes@) ==> r@ == decode_utf8(bytes@),
{
    String::from_utf8_lossy(bytes).into_owned()
}

/// Why a URL-safe Base64 string could not be decoded to text.
#[derive(Debug, Clone, Copy, PartialEq, Eq, Structural)]
pub enum DecodeError {
    /// The input is not valid URL-safe Base64.
    Base64,
    /// The decoded bytes are not valid UTF-8.
    Utf8,
}

/// The text that URL-safe Base64 `input` encodes, or why there is none.
pub open spec fn spec_urlsafe_base64_decode_string(input: Seq<u8>) -> Result<Seq<char>, DecodeError> {
    match base64_url_safe_decoding(input) {
        None => Err(DecodeError::Base64),
        Some(bytes) => if valid_utf8(bytes) {
            Ok(decode_utf8(bytes))
        } else {
            Err(DecodeError::Utf8)
        },
    }
}

/// Decodes URL-safe Base64 into a UTF-8 string.
pub fn urlsafe_base64_decode_string(input: &[u8]) -> (r: Result<String, DecodeError>)
    ensures
        match spec_urlsafe_base64_decode_string(input@) {
            Ok(s) => r matches Ok(t) && t@ == s,
            Err(e) => r == Err::<String, DecodeError>(e),
        },
{
    match base64_decode_url_safe(input) {
        None => Err(DecodeError::Base64),
        Some(bytes) => match utf8_text(bytes) {
            Some(s) => Ok(s),
            None => Err(DecodeError::Utf8),
        },
    }
}

} // verus!
