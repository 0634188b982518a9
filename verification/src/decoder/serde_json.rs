//! Decoding a stream of JSON values with `serde_json`.

use std::marker::PhantomData;

use vstd::prelude::*;

use crate::{DecodeError, Decoded, Outcome};

verus! {

/// `serde_json::Error`, which the decoder hands on as it gets it.
#[verifier::external_type_specification]
#[verifier::external_body]
pub struct ExError(::serde_json::Error);

/// The way to read a `T`: `serde_json`'s stream deserializer for this type.
///
/// Trusted: whoever holds one holds what [`reader_of`] has made, and nothing
/// else makes one.
#[derive(Debug)]
#[verifier::external_body]
#[verifier::reject_recursive_types(T)]
struct Reader<T> {
    read: fn(&[u8]) -> (Option<Result<T, ::serde_json::Error>>, usize),
}

/// The decoder that reads each value as a `T`.
#[derive(Debug)]
#[verifier::reject_recursive_types(T)]
pub struct Decoder<T> {
    /// The marker for data type to decode.
    pub data_type: PhantomData<T>,
    /// The way to read a `T`.
    reader: Reader<T>,
}

/// Whether a byte is white space between JSON values.
pub open spec fn is_blank(byte: u8) -> bool {
    byte == 0x20 || byte == 0x0a || byte == 0x09 || byte == 0x0d
}

/// Whether a view holds nothing but white space.
pub open spec fn all_blank(view: Seq<u8>) -> bool {
    forall|at: int| 0 <= at < view.len() ==> is_blank(#[trigger] view[at])
}

/// What the decoder answers to a view of `len` bytes when the deserializer
/// has given `item` and has come as far as `offset`, where `eof` says whether
/// an error in `item` is that the input ended too early.
///
/// A value is answered with the bytes up to `offset`, an error is answered as
/// it is, unless it is that the input ended too early. In all other cases the
/// decoder waits for data: also where the deserializer has given a value and
/// `offset` is zero or beyond the view.
pub open spec fn settled<T, E>(
    len: nat,
    item: Option<Result<T, E>>,
    offset: usize,
    eof: bool,
) -> Outcome<T, E> {
    match item {
        Some(Ok(value)) if 1 <= offset <= len => Ok(Decoded { value, consumed_bytes: offset }),
        Some(Err(error)) if !eof => Err(DecodeError::Other(error)),
        _ => Err(DecodeError::NeedMoreData),
    }
}

/// Turns what the deserializer has given for a view of `len` bytes into the
/// decoder's answer.
pub fn settle<T, E>(len: usize, item: Option<Result<T, E>>, offset: usize, eof: bool) -> (outcome:
    Outcome<T, E>)
    ensures
        outcome == settled(len as nat, item, offset, eof),
{
    match item {
        Some(Ok(value)) => {
            if 1 <= offset && offset <= len {
                Ok(Decoded { value, consumed_bytes: offset })
            } else {
                Err(DecodeError::NeedMoreData)
            }
        },
        Some(Err(error)) => {
            if eof {
                Err(DecodeError::NeedMoreData)
            } else {
                Err(DecodeError::Other(error))
            }
        },
        None => Err(DecodeError::NeedMoreData),
    }
}

/// Reads the first value of `buf` as a `T` with `serde_json`'s stream
/// deserializer: `Deserializer::from_slice(buf)`, `into_iter::<T>()`, one
/// `next()`, and the `byte_offset()` that the stream has then reached.
#[verifier::external_body]
fn read_value<T: for <'de>serde::de::Deserialize<'de>>(buf: &[u8]) -> (
    Option<Result<T, ::serde_json::Error>>,
    usize,
) {
    let mut stream = ::serde_json::Deserializer::from_slice(buf).into_iter::<T>();
    let item = stream.next();
    (item, stream.byte_offset())
}

/// Makes the reader for `T`, which is [`read_value`] for this type.
#[verifier::external_body]
fn reader_of<T: for <'de>serde::de::Deserialize<'de>>() -> Reader<T> {
    Reader { read: read_value::<T> }
}

/// Reads the first value of `buf` with the reader, that is by
/// [`read_value`].
///
/// Trusted: a `buf` that holds nothing but white space gives no item, since
/// `serde_json`'s stream deserializer passes over white space before it reads
/// a value and ends where the input ends. Nothing is claimed of the value, of
/// the error or of the offset.
#[verifier::external_body]
fn read_with<T>(reader: &Reader<T>, buf: &[u8]) -> (read: (
    Option<Result<T, ::serde_json::Error>>,
    usize,
))
    ensures
        all_blank(buf@) ==> read.0 is None,
{
    (reader.read)(buf)
}

/// Asks `serde_json::Error::is_eof` whether the error is that the input
/// ended too early. Nothing is claimed of the answer.
#[verifier::external_body]
fn ended_early(error: &::serde_json::Error) -> (eof: bool) {
    error.is_eof()
}

impl<T> Decoder<T> {
    /// Create a new [`Decoder`].
    pub fn new() -> (decoder: Self) where T: for <'de>serde::de::Deserialize<'de> {
        Decoder { data_type: PhantomData, reader: reader_of::<T>() }
    }
}

impl<T> crate::Decoder for Decoder<T> {
    type Value = T;

    type Error = ::serde_json::Error;

    /// The decoder never skips, and it waits for data when all that it is
    /// shown is white space.
    open spec fn admits(&self, view: Seq<u8>, outcome: Outcome<T, ::serde_json::Error>) -> bool {
        &&& !(outcome matches Err(DecodeError::SkipData(_)))
        &&& all_blank(view) ==> outcome matches Err(DecodeError::NeedMoreData)
    }

    fn decode(&mut self, input: &[u8]) -> (outcome: Outcome<T, ::serde_json::Error>) {
        let (item, offset) = read_with(&self.reader, input);
        let eof = match &item {
            Some(Err(error)) => ended_early(error),
            _ => false,
        };
        settle(input.len(), item, offset, eof)
    }
}

} // verus!
