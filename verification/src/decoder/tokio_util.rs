//! Decoding with a frame codec of `tokio_util`.

use vstd::prelude::*;

use crate::{DecodeError, Decoded, Outcome};

verus! {

/// The decoder that wraps a codec.
#[derive(Debug, Clone, PartialEq, Eq)]
pub struct Decoder<T> {
    /// The inner decoder type.
    pub inner: T,
}

impl<T> Decoder<T> {
    /// Create a new [`Decoder`] with a given codec.
    pub fn new(inner: T) -> (decoder: Self)
        ensures
            decoder.inner == inner,
    {
        Decoder { inner }
    }
}

/// What the decoder answers when the codec, shown a copy of a view of
/// `before` bytes, has given `framed` and has left `after` bytes of the copy.
///
/// A frame is answered with the bytes that the codec has taken, and the
/// codec's error is answered as it is. The decoder waits for data where the
/// codec has given no frame, and also where it has given one without taking
/// any byte.
pub open spec fn settled<I, E>(framed: Result<Option<I>, E>, before: usize, after: usize) -> Outcome<
    I,
    E,
> {
    match framed {
        Ok(Some(value)) if after < before => Ok(
            Decoded { value, consumed_bytes: (before - after) as usize },
        ),
        Ok(_) => Err(DecodeError::NeedMoreData),
        Err(error) => Err(DecodeError::Other(error)),
    }
}

/// Turns what the codec has given into the decoder's answer.
pub fn settle<I, E>(framed: Result<Option<I>, E>, before: usize, after: usize) -> (outcome: Outcome<
    I,
    E,
>)
    ensures
        outcome == settled(framed, before, after),
        crate::model::fits(outcome, before as nat),
        !(outcome matches Err(DecodeError::SkipData(_))),
{
    match framed {
        Ok(Some(value)) => {
            if after < before {
                Ok(Decoded { value, consumed_bytes: before - after })
            } else {
                Err(DecodeError::NeedMoreData)
            }
        },
        Ok(None) => Err(DecodeError::NeedMoreData),
        Err(error) => Err(DecodeError::Other(error)),
    }
}

} // verus!
