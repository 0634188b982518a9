//! The decisions of a driver that pulls chunks from a source, decodes what
//! each of them completes and checks at the end that nothing is left over.
//!
//! The driver itself does no reading. Whoever runs it asks it what to do
//! next, performs the read when it is asked to, and hands back what the
//! source gave.

use vstd::prelude::*;

use crate::buffer::Buffer;
use crate::model::{appends, steps};
use crate::{AvailableIter, Decoder, State};

verus! {

/// Errors that can occur while decoding the data stream.
#[derive(Debug)]
pub enum StreamError<R, E, B> {
    /// An error has occurred while reading the data.
    Reading(R),
    /// An error has occurred while decoding the values.
    Decoding(E),
    /// After all the data was read and the decoding was complete there is
    /// still some data in the state buffer.
    UndecodedDataLeftUponCompletion {
        /// The buffer containing the leftover data.
        data: B,
    },
}

/// What the source gave when it was asked for the next chunk.
pub enum Answer<'chunk, R> {
    /// More data.
    Chunk(&'chunk [u8]),
    /// The source is exhausted.
    End,
    /// The source has failed.
    Failure(R),
}

/// What the one who runs the driver is to do next.
pub enum Action<V, R, E, B> {
    /// Ask the source for the next chunk and hand the answer to
    /// [`Driver::handle`].
    Read,
    /// Give this value to the consumer.
    Yield(V),
    /// Give this error to the consumer, as the last item.
    Fail(StreamError<R, E, B>),
    /// Nothing more comes.
    Finish,
}

/// The driver, in one of its four states.
pub enum Driver<D, B> {
    /// The next chunk is awaited.
    Reading(State<D, B>),
    /// The values that the chunks so far complete are being produced.
    Draining(State<D, B>),
    /// The source has ended and nothing was left over.
    Finished,
    /// An error was given out.
    Failed,
}

/// Whether a request for the next value can make the state report `error`.
pub open spec fn breaks<D: Decoder, B: Buffer>(state: State<D, B>, error: D::Error) -> bool {
    exists|after: State<D, B>| steps(state, Some(Err(error)), after)
}

/// Whether the driver can go from `before` to `after` with `action` when it
/// is asked what to do next.
pub open spec fn advances<D: Decoder, B: Buffer, R>(
    before: Driver<D, B>,
    after: Driver<D, B>,
    action: Action<D::Value, R, D::Error, B>,
) -> bool {
    match before {
        Driver::Reading(state) => after == before && action is Read,
        Driver::Draining(state) => match action {
            Action::Yield(value) => after matches Driver::Draining(next) && steps(
                state,
                Some(Ok(value)),
                next,
            ),
            Action::Read => after matches Driver::Reading(next) && steps(state, None, next),
            Action::Fail(failure) => {
                &&& after is Failed
                &&& failure matches StreamError::Decoding(error)
                &&& breaks(state, error)
            },
            Action::Finish => false,
        },
        Driver::Finished => after is Finished && action is Finish,
        Driver::Failed => after is Failed && action is Finish,
    }
}

/// Whether the driver goes from `before` to `after` and gives out `failure`
/// when the source gives `answer`. An answer that comes while the driver
/// awaits none changes nothing.
pub open spec fn receives<D: Decoder, B: Buffer, R>(
    before: Driver<D, B>,
    answer: Answer<'_, R>,
    after: Driver<D, B>,
    failure: Option<StreamError<R, D::Error, B>>,
) -> bool {
    match before {
        Driver::Reading(state) => match answer {
            Answer::Chunk(chunk) => {
                &&& failure is None
                &&& after matches Driver::Draining(next)
                &&& appends(state, chunk@, next)
            },
            Answer::End => if state.pending().len() == 0 {
                failure is None && after is Finished
            } else {
                after is Failed && failure == Some(
                    StreamError::<R, D::Error, B>::UndecodedDataLeftUponCompletion {
                        data: state.carried(),
                    },
                )
            },
            Answer::Failure(error) => after is Failed && failure == Some(
                StreamError::<R, D::Error, B>::Reading(error),
            ),
        },
        _ => failure is None && after == before,
    }
}

impl<D: Decoder, B: Buffer> Driver<D, B> {
    /// A driver that awaits the first chunk.
    pub fn new(state: State<D, B>) -> (driver: Self)
        ensures
            driver == Driver::Reading(state),
    {
        Driver::Reading(state)
    }

    /// Says what to do next.
    ///
    /// While it drains, the driver gives out the values that the buffered data
    /// holds, one at each call. A decoding error ends the run. When no value
    /// is left the driver asks for the next chunk.
    pub fn poll<R>(self) -> (next: (Self, Action<D::Value, R, D::Error, B>))
        ensures
            advances(self, next.0, next.1),
    {
        match self {
            Driver::Reading(state) => (Driver::Reading(state), Action::Read),
            Driver::Draining(state) => {
                let mut state = state;
                let mut iter = AvailableIter { state: &mut state };
                let item = iter.next();
                match item {
                    Some(Ok(value)) => (Driver::Draining(state), Action::Yield(value)),
                    Some(Err(error)) => (Driver::Failed, Action::Fail(StreamError::Decoding(error))),
                    None => (Driver::Reading(state), Action::Read),
                }
            },
            Driver::Finished => (Driver::Finished, Action::Finish),
            Driver::Failed => (Driver::Failed, Action::Finish),
        }
    }

    /// Takes what the source gave in answer to [`Action::Read`]. An answer
    /// that comes while the driver awaits none is left aside.
    ///
    /// A chunk is taken into the buffer, and the driver starts to drain. At
    /// the end of the source the run finishes if the buffer is empty; if it is
    /// not, the run fails and the buffer is handed out. An error of the
    /// source ends the run at once.
    pub fn handle<R>(self, answer: Answer<'_, R>) -> (next: (
        Self,
        Option<StreamError<R, D::Error, B>>,
    ))
        ensures
            receives(self, answer, next.0, next.1),
    {
        match self {
            Driver::Reading(state) => {
                match answer {
                    Answer::Chunk(chunk) => {
                        let mut state = state;
                        let _ = state.process_next_chunk(chunk);
                        (Driver::Draining(state), None)
                    },
                    Answer::End => {
                        match state.finish() {
                            Ok(()) => (Driver::Finished, None),
                            Err(data) => (
                                Driver::Failed,
                                Some(StreamError::UndecodedDataLeftUponCompletion { data }),
                            ),
                        }
                    },
                    Answer::Failure(error) => (Driver::Failed, Some(StreamError::Reading(error))),
                }
            },
            other => (other, None),
        }
    }
}

} // verus!
