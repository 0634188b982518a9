//! Decoding the responses of the Kubernetes API with `k8s_openapi`.

use std::marker::PhantomData;

use vstd::prelude::*;

use crate::{DecodeError, Decoded, Outcome};

verus! {

/// `http::StatusCode`, which the decoder hands to the parser as it gets it.
#[verifier::external_type_specification]
#[verifier::external_body]
pub struct ExStatusCode(::k8s_openapi::http::StatusCode);

/// `std::str::Utf8Error`, which the decoder hands on as it gets it.
#[verifier::external_type_specification]
#[verifier::external_body]
pub struct ExUtf8Error(std::str::Utf8Error);

/// `k8s_openapi::ResponseError`, with its three variants.
#[verifier::external_type_specification]
pub struct ExResponseError(::k8s_openapi::ResponseError);

/// The status code that `http::StatusCode::from_u16` makes of `number`.
pub uninterp spec fn status(number: u16) -> ::k8s_openapi::http::StatusCode;

/// The way to parse a `T`: the `try_from_parts` of this response type.
///
/// Trusted: whoever holds one holds what [`parser_of`] has made, and nothing
/// else makes one.
#[derive(Debug)]
#[verifier::external_body]
#[verifier::reject_recursive_types(T)]
struct Parser<T> {
    parse: fn(::k8s_openapi::http::StatusCode, &[u8]) -> Result<
        (T, usize),
        ::k8s_openapi::ResponseError,
    >,
}

/// The decoder for the responses of type `T`.
#[derive(Debug)]
#[verifier::reject_recursive_types(T)]
pub struct Decoder<T> {
    /// The marker for data type to decode.
    pub data_type: PhantomData<T>,
    /// The status code to present to the parser.
    pub status_code: ::k8s_openapi::http::StatusCode,
    /// The way to parse a `T`.
    parser: Parser<T>,
}

/// The error that can occur when decoding a response.
#[derive(Debug)]
pub enum ResponseDecodeError {
    /// An error while deserializing the HTTP response as a JSON value,
    /// indicating the response is malformed.
    Json(::serde_json::Error),
    /// An error while deserializing the HTTP response as a string, indicating
    /// that the response data is not UTF-8.
    Utf8(std::str::Utf8Error),
}

/// The line feed, which may stand before and after a response.
pub const NEWLINE: u8 = 0x0a;

/// How many bytes a response takes that the parser has read from the first
/// `used` bytes of `view`: one more if a line feed follows at once.
pub open spec fn taken(view: Seq<u8>, used: usize) -> int {
    if used < view.len() && view[used as int] == NEWLINE {
        used + 1
    } else {
        used as int
    }
}

/// What the decoder answers to `view` when the parser has given `parsed`.
///
/// A view that begins with a line feed is never shown to the parser: the
/// line feed is skipped. A response is answered with the bytes that it takes,
/// and the parser's errors are answered as they are. The decoder waits for
/// data where the parser asks for more, and also where the response would
/// take no byte or more than the view holds.
pub open spec fn settled<T>(
    view: Seq<u8>,
    parsed: Result<(T, usize), ::k8s_openapi::ResponseError>,
) -> Outcome<T, ResponseDecodeError> {
    match parsed {
        Ok((value, used)) => if 1 <= taken(view, used) <= view.len() {
            Ok(Decoded { value, consumed_bytes: taken(view, used) as usize })
        } else {
            Err(DecodeError::NeedMoreData)
        },
        Err(::k8s_openapi::ResponseError::NeedMoreData) => Err(DecodeError::NeedMoreData),
        Err(::k8s_openapi::ResponseError::Json(error)) => Err(
            DecodeError::Other(ResponseDecodeError::Json(error)),
        ),
        Err(::k8s_openapi::ResponseError::Utf8(error)) => Err(
            DecodeError::Other(ResponseDecodeError::Utf8(error)),
        ),
    }
}

/// Whether the first byte of the view is a line feed.
pub open spec fn starts_with_newline(view: Seq<u8>) -> bool {
    view.len() > 0 && view[0] == NEWLINE
}

/// Turns what the parser has given for `view` into the decoder's answer.
pub fn settle<T>(view: &[u8], parsed: Result<(T, usize), ::k8s_openapi::ResponseError>) -> (outcome:
    Outcome<T, ResponseDecodeError>)
    ensures
        outcome == settled(view@, parsed),
{
    match parsed {
        Ok((value, used)) => {
            let len = view.len();
            let consumed = if used < len && view[used] == NEWLINE {
                used + 1
            } else {
                used
            };
            if 1 <= consumed && consumed <= len {
                Ok(Decoded { value, consumed_bytes: consumed })
            } else {
                Err(DecodeError::NeedMoreData)
            }
        },
        Err(::k8s_openapi::ResponseError::NeedMoreData) => Err(DecodeError::NeedMoreData),
        Err(::k8s_openapi::ResponseError::Json(error)) => Err(
            DecodeError::Other(ResponseDecodeError::Json(error)),
        ),
        Err(::k8s_openapi::ResponseError::Utf8(error)) => Err(
            DecodeError::Other(ResponseDecodeError::Utf8(error)),
        ),
    }
}

/// Makes the parser for `T`, which is
/// `<T as k8s_openapi::Response>::try_from_parts`.
#[verifier::external_body]
fn parser_of<T: ::k8s_openapi::Response>() -> Parser<T> {
    Parser { parse: T::try_from_parts }
}

/// Parses a `T` from the start of `buf` with the parser, that is by
/// `k8s_openapi::Response::try_from_parts`. Nothing is claimed of what comes
/// back.
#[verifier::external_body]
fn parse_with<T>(
    parser: &Parser<T>,
    status_code: ::k8s_openapi::http::StatusCode,
    buf: &[u8],
) -> Result<(T, usize), ::k8s_openapi::ResponseError> {
    (parser.parse)(status_code, buf)
}

/// Makes a status code of a number with `http::StatusCode::from_u16`.
///
/// Trusted: the numbers from 100 to 999 are status codes and no others, as
/// the function's documentation says.
#[verifier::external_body]
fn status_from(number: u16) -> (status_code: Option<::k8s_openapi::http::StatusCode>)
    ensures
        status_code is Some <==> 100 <= number < 1000,
        status_code matches Some(made) ==> made == status(number),
{
    ::k8s_openapi::http::StatusCode::from_u16(number).ok()
}

impl<T> Decoder<T> {
    /// The status code that the decoder presents to the parser.
    pub closed spec fn presents(&self) -> ::k8s_openapi::http::StatusCode {
        self.status_code
    }

    /// Create a [`Decoder`] with the specified status code.
    pub fn with_status_code(status_code: ::k8s_openapi::http::StatusCode) -> (decoder: Self) where
        T: ::k8s_openapi::Response,

        ensures
            decoder.presents() == status_code,
    {
        Decoder { data_type: PhantomData, status_code, parser: parser_of::<T>() }
    }

    /// Create a [`Decoder`] with the status code 200, `OK`.
    pub fn new() -> (decoder: Self) where T: ::k8s_openapi::Response
        ensures
            decoder.presents() == status(200),
    {
        match status_from(200) {
            Some(status_code) => Self::with_status_code(status_code),
            None => vstd::pervasive::unreached(),
        }
    }
}

impl ResponseDecodeError {
    /// The parser's error that this error was made of.
    pub open spec fn as_response_error(self) -> ::k8s_openapi::ResponseError {
        match self {
            ResponseDecodeError::Json(error) => ::k8s_openapi::ResponseError::Json(error),
            ResponseDecodeError::Utf8(error) => ::k8s_openapi::ResponseError::Utf8(error),
        }
    }
}

impl From<ResponseDecodeError> for ::k8s_openapi::ResponseError {
    fn from(value: ResponseDecodeError) -> (error: Self) {
        match value {
            ResponseDecodeError::Json(error) => ::k8s_openapi::ResponseError::Json(error),
            ResponseDecodeError::Utf8(error) => ::k8s_openapi::ResponseError::Utf8(error),
        }
    }
}

impl vstd::std_specs::convert::FromSpecImpl<ResponseDecodeError> for ::k8s_openapi::ResponseError {
    open spec fn obeys_from_spec() -> bool {
        true
    }

    open spec fn from_spec(value: ResponseDecodeError) -> Self {
        value.as_response_error()
    }
}

impl<T> crate::Decoder for Decoder<T> {
    type Value = T;

    type Error = ResponseDecodeError;

    /// A line feed at the start of the view is skipped, and nothing else is.
    open spec fn admits(&self, view: Seq<u8>, outcome: Outcome<T, ResponseDecodeError>) -> bool {
        if starts_with_newline(view) {
            outcome == Err::<Decoded<T>, DecodeError<ResponseDecodeError>>(DecodeError::SkipData(1))
        } else {
            !(outcome matches Err(DecodeError::SkipData(_)))
        }
    }

    fn decode(&mut self, input: &[u8]) -> (outcome: Outcome<T, ResponseDecodeError>) {
        if input.len() > 0 && input[0] == NEWLINE {
            return Err(DecodeError::SkipData(1));
        }
        let parsed = parse_with(&self.parser, self.status_code, input);
        settle(input, parsed)
    }
}

} // verus!
