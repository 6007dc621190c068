//! Encoding functions: base64 in both directions and URL percent-encoding.

use super::{spec_base64, spec_base64_decode, spec_type_name, spec_url_escape, FunctionArg,
    FunctionError};
use base64::Engine;
use crate::{ValModel, Value};
use vstd::prelude::*;

verus! {

/// The standard base64 encoding of a byte sequence.
pub uninterp spec fn base64_of(bytes: Seq<u8>) -> Seq<char>;

/// Relies on base64's standard-alphabet engine: the encoding is a function
/// of the bytes alone, and decoding it yields the bytes back.
#[verifier::external_body]
fn base64_encode_bytes(b: &[u8]) -> (r: String)
    ensures
        r@ == base64_of(b@),
        base64_decoded(r@) == Some(b@),
{
    base64::engine::general_purpose::STANDARD.encode(b)
}

/// The standard base64 decoding of a character sequence; `None` on text
/// that is not valid base64.
pub uninterp spec fn base64_decoded(s: Seq<char>) -> Option<Seq<u8>>;

/// Relies on base64's standard-alphabet engine: decoding is a function of
/// the text alone, failing exactly on invalid input.
#[verifier::external_body]
fn base64_decode_str(s: &str) -> (r: Option<Vec<u8>>)
    ensures
        r matches Some(v) ==> base64_decoded(s@) == Some(v@),
        r is None ==> base64_decoded(s@) is None,
{
    base64::engine::general_purpose::STANDARD.decode(s.as_bytes()).ok()
}

/// Relies on String::from_utf8: `Some` exactly on valid UTF-8, and then the
/// string is its decoding.
#[verifier::external_body]
fn bytes_to_string(v: Vec<u8>) -> (r: Option<String>)
    ensures
        r matches Some(s) ==> vstd::utf8::valid_utf8(v@) && s@ == vstd::utf8::decode_utf8(v@),
        r is None ==> !vstd::utf8::valid_utf8(v@),
{
    String::from_utf8(v).ok()
}

/// Whether a byte stays bare in percent-encoding: ASCII alphanumerics and
/// `-`, `.`, `_`, `~`.
pub open spec fn url_unreserved(b: u8) -> bool {
    (48 <= b <= 57) || (65 <= b <= 90) || (97 <= b <= 122) || b == 45 || b == 46 || b == 95 || b
        == 126
}

/// One uppercase hexadecimal digit.
pub open spec fn hex_upper_char(d: int) -> char {
    if d < 10 {
        ((48 + d) as u8) as char
    } else {
        ((55 + d) as u8) as char
    }
}

/// The percent-encoded form of a byte sequence: unreserved bytes bare,
/// every other byte as `%` and two uppercase hex digits.
pub open spec fn url_escape_bytes(bytes: Seq<u8>) -> Seq<char>
    decreases bytes.len(),
{
    if bytes.len() == 0 {
        Seq::empty()
    } else {
        (if url_unreserved(bytes[0]) {
            seq![bytes[0] as char]
        } else {
            seq![
                '%',
                hex_upper_char(bytes[0] as int / 16),
                hex_upper_char(bytes[0] as int % 16),
            ]
        }) + url_escape_bytes(bytes.skip(1))
    }
}

/// The percent-encoded form of a character sequence's UTF-8 bytes.
pub open spec fn url_escaped(s: Seq<char>) -> Seq<char> {
    url_escape_bytes(vstd::utf8::encode_utf8(s))
}

/// Relies on urlencoding::encode: the byte-wise percent-encoding that
/// `url_escape_bytes` states.
#[verifier::external_body]
fn url_escape_str(s: &str) -> (r: String)
    ensures
        r@ == url_escaped(s@),
{
    urlencoding::encode(s).into_owned()
}

/// Encodes a string value's UTF-8 bytes as standard base64.
pub struct Base64Encode {}

impl Base64Encode {
    /// The name under which the function is called.
    pub fn name(&self) -> (r: &'static str)
        ensures
            r@ == "base64"@,
    {
        "base64"
    }

    /// `base64` itself: defined exactly on strings, a type error otherwise.
    /// Decoding the result yields the input back: the round trip is part of
    /// the contract.
    pub fn execute(&self, value: Value, args: &[FunctionArg]) -> (r: Result<Value, FunctionError>)
        ensures
            r matches Ok(v) ==> spec_base64(value@) == Some(v@),
            r matches Ok(v) ==> spec_base64_decode(v@) == Some(value@),
            r is Err ==> spec_base64(value@) is None,
            r matches Err(e) ==> e matches FunctionError::UnsupportedType { function, got }
                && function@ == "base64"@ && got@ == spec_type_name(value@),
    {
        match value {
            Value::String(s) => {
                let encoded = base64_encode_bytes(s.as_str().as_bytes());
                proof {
                    vstd::utf8::encode_utf8_valid_utf8(s@);
                    vstd::utf8::encode_utf8_decode_utf8(s@);
                }
                Ok(Value::String(encoded))
            },
            other => Err(
                FunctionError::UnsupportedType {
                    function: self.name().to_owned(),
                    got: super::value_type_name(&other),
                },
            ),
        }
    }
}

/// Decodes a base64 string value back to UTF-8 text.
pub struct Base64Decode {}

impl Base64Decode {
    /// The name under which the function is called.
    pub fn name(&self) -> (r: &'static str)
        ensures
            r@ == "base64_decode"@,
    {
        "base64_decode"
    }

    /// `base64_decode` itself: the decoded text on valid base64 holding valid
    /// UTF-8; an execution error on bad base64 or bad UTF-8, a type error on
    /// any non-string.
    pub fn execute(&self, value: Value, args: &[FunctionArg]) -> (r: Result<Value, FunctionError>)
        ensures
            r matches Ok(v) ==> spec_base64_decode(value@) == Some(v@),
            r is Err ==> spec_base64_decode(value@) is None,
            r matches Err(e) ==> (match e {
                FunctionError::ExecutionError { function, .. } => value@ is Str && function@
                    == "base64_decode"@,
                FunctionError::UnsupportedType { function, got } => !(value@ is Str) && function@
                    == "base64_decode"@ && got@ == spec_type_name(value@),
                _ => false,
            }),
    {
        match value {
            Value::String(s) => {
                match base64_decode_str(s.as_str()) {
                    Some(decoded) => {
                        match bytes_to_string(decoded) {
                            Some(text) => Ok(Value::String(text)),
                            None => Err(
                                FunctionError::ExecutionError {
                                    function: self.name().to_owned(),
                                    message: String::from_str("decoded bytes are not valid UTF-8"),
                                },
                            ),
                        }
                    },
                    None => Err(
                        FunctionError::ExecutionError {
                            function: self.name().to_owned(),
                            message: String::from_str("invalid base64"),
                        },
                    ),
                }
            },
            other => Err(
                FunctionError::UnsupportedType {
                    function: self.name().to_owned(),
                    got: super::value_type_name(&other),
                },
            ),
        }
    }
}

/// Percent-encodes a string value.
pub struct UrlEscape {}

impl UrlEscape {
    /// The name under which the function is called.
    pub fn name(&self) -> (r: &'static str)
        ensures
            r@ == "url_escape"@,
    {
        "url_escape"
    }

    /// `url_escape` itself: defined exactly on strings, a type error otherwise.
    pub fn execute(&self, value: Value, args: &[FunctionArg]) -> (r: Result<Value, FunctionError>)
        ensures
            r matches Ok(v) ==> spec_url_escape(value@) == Some(v@),
            r is Err ==> spec_url_escape(value@) is None,
            r matches Err(e) ==> e matches FunctionError::UnsupportedType { function, got }
                && function@ == "url_escape"@ && got@ == spec_type_name(value@),
    {
        match value {
            Value::String(s) => Ok(Value::String(url_escape_str(s.as_str()))),
            other => Err(
                FunctionError::UnsupportedType {
                    function: self.name().to_owned(),
                    got: super::value_type_name(&other),
                },
            ),
        }
    }
}

} // verus!
