//! Incremental decoding of values out of a byte stream that arrives in
//! arbitrarily split chunks.
//!
//! A [`State`] pairs a [`Buffer`], which keeps the bytes that arrived and were
//! not consumed yet, with a [`Decoder`], which tries to recognise one value at
//! the start of those bytes. Each chunk is handed to
//! [`State::process_next_chunk`]; the [`AvailableIter`] that it returns
//! decodes what the bytes collected so far hold.

use vstd::prelude::*;

pub mod buffer;
pub mod decoder;
pub mod driver;
pub mod laws;
pub mod model;
pub mod reader;

pub use buffer::Buffer;

use model::{appends, drained, exhausts, steps};

verus! {

/// The ways in which a decoder can decline to produce a value.
pub enum DecodeError<T> {
    /// More data is required for successful decoding.
    NeedMoreData,
    /// The start of the data is to be dropped: discard this many bytes and
    /// try again.
    SkipData(usize),
    /// The data is invalid and decoding cannot continue.
    Other(T),
}

/// The results of the successful decoding.
pub struct Decoded<T> {
    /// The decoded value.
    pub value: T,
    /// The amount of bytes that the value took from the start of the data.
    pub consumed_bytes: usize,
}

/// What one attempt to decode gives.
pub type Outcome<V, E> = Result<Decoded<V>, DecodeError<E>>;

/// The ability to recognise a value at the start of the buffered data.
pub trait Decoder: Sized {
    /// The value to decode.
    type Value;

    /// The error that can occur while decoding the value.
    type Error;

    /// Whether the decoder may answer `outcome` when it is shown `view`.
    ///
    /// A decoder that says nothing of itself admits every outcome. A decoder
    /// whose answer is a function of the view admits exactly one outcome for
    /// each view.
    open spec fn admits(&self, view: Seq<u8>, outcome: Outcome<Self::Value, Self::Error>) -> bool {
        true
    }

    /// Try to decode one value from the start of `input`.
    ///
    /// The answer is one that the decoder admits for this input; a decoded
    /// value takes, and a skip drops, at least one byte and no more than
    /// `input` holds. Whatever the decoder keeps between calls, the outcomes
    /// that it admits stay the same.
    fn decode(&mut self, input: &[u8]) -> (outcome: Outcome<Self::Value, Self::Error>)
        ensures
            old(self).admits(input@, outcome),
            model::fits(outcome, input@.len()),
            forall|view: Seq<u8>, other: Outcome<Self::Value, Self::Error>|
                old(self).admits(view, other) == #[trigger] final(self).admits(view, other),
    ;
}

/// The managed decoding state for the stream of data.
#[derive(Debug)]
pub struct State<D, B> {
    /// The decoder to use for processing the data.
    pub decoder: D,
    /// The buffer containing carried data from the previously decoded chunks.
    pub buffer: B,
    /// Whether the decoder has reported invalid data.
    failed: bool,
}

impl<D: Decoder, B: Buffer> State<D, B> {
    /// The decoder of this state.
    pub closed spec fn policy(&self) -> D {
        self.decoder
    }

    /// The bytes that were taken in and not consumed by the decoder.
    pub closed spec fn pending(&self) -> Seq<u8> {
        self.buffer.contents()
    }

    /// The buffer of this state.
    pub closed spec fn carried(&self) -> B {
        self.buffer
    }

    /// Whether the decoder has reported invalid data. From then on the state
    /// decodes nothing.
    pub closed spec fn short_circuited(&self) -> bool {
        self.failed
    }

    /// A run of `skips` skips that ends with `item` is one step of the state.
    proof fn lemma_steps(
        self,
        skips: nat,
        item: Option<Result<D::Value, D::Error>>,
        after: Self,
    )
        requires
            !self.failed,
            model::yields(self.decoder, self.buffer.contents(), skips, item, after.buffer.contents()),
            model::same_policy(self.decoder, after.decoder),
            after.failed == (item matches Some(Err(_))),
        ensures
            steps(self, item, after),
    {
        assert(model::yields(self.policy(), self.pending(), skips, item, after.pending()));
    }

    /// Whether a drain that began in `self` and has given `seen` so far can
    /// go on from `now`: whatever a drain of `now` gives, the drain of `self`
    /// gives after `seen`.
    spec fn resumes(self, seen: Seq<D::Value>, now: Self) -> bool {
        if self.failed {
            now == self && seen.len() == 0
        } else {
            &&& !now.failed
            &&& model::same_policy(self.decoder, now.decoder)
            &&& forall|tail: Seq<D::Value>, failure: Option<D::Error>, rest: Seq<u8>|
                #[trigger] model::drains(self.decoder, now.buffer.contents(), tail, failure, rest)
                    ==> model::drains(
                    self.decoder,
                    self.buffer.contents(),
                    seen + tail,
                    failure,
                    rest,
                )
        }
    }

    /// A drain can go on from where it begins.
    proof fn lemma_resumes_at_start(self)
        ensures
            self.resumes(Seq::empty(), self),
    {
        assert forall|tail: Seq<D::Value>| Seq::<D::Value>::empty() + tail == tail by {
            assert(Seq::<D::Value>::empty() + tail =~= tail);
        }
    }

    /// One more request for a value either ends the drain or lets it go on
    /// with less data.
    proof fn lemma_resumes_after_step(
        self,
        seen: Seq<D::Value>,
        before: Self,
        item: Option<Result<D::Value, D::Error>>,
        now: Self,
    )
        requires
            self.resumes(seen, before),
            steps(before, item, now),
        ensures
            match item {
                Some(Ok(value)) => self.resumes(seen.push(value), now)
                    && now.buffer.contents().len() < before.buffer.contents().len(),
                Some(Err(error)) => exhausts(self, seen, Some(error), now),
                None => exhausts(self, seen, None, now),
            },
            item matches Some(Err(error)) ==> drained(self, Some(error), now),
            item is None ==> drained(self, None, now),
    {
        if !self.failed {
            let skips = choose|skips: nat|
                model::yields(before.policy(), before.pending(), skips, item, now.pending());
            let view = before.buffer.contents();
            let rest = now.buffer.contents();
            model::lemma_yields_by_policy(before.decoder, self.decoder, view, skips, item, rest);
            model::lemma_yields_consumes(self.decoder, view, skips, item, rest);
            match item {
                Some(Ok(value)) => {
                    assert forall|tail: Seq<D::Value>, failure: Option<D::Error>, end: Seq<u8>|
                        #[trigger] model::drains(
                            self.decoder,
                            rest,
                            tail,
                            failure,
                            end,
                        ) implies model::drains(
                        self.decoder,
                        self.buffer.contents(),
                        seen.push(value) + tail,
                        failure,
                        end,
                    ) by {
                        model::lemma_drains_after_value(
                            self.decoder,
                            view,
                            skips,
                            value,
                            rest,
                            tail,
                            failure,
                            end,
                        );
                        assert(seen + (seq![value] + tail) =~= seen.push(value) + tail);
                    }
                },
                Some(Err(error)) => {
                    let none = Seq::<D::Value>::empty();
                    assert(model::drains(self.decoder, view, none, Some(error), rest));
                    assert(seen + none =~= seen);
                },
                None => {
                    let none = Seq::<D::Value>::empty();
                    assert(model::drains(self.decoder, view, none, None, rest));
                    assert(seen + none =~= seen);
                },
            }
        }
    }

    /// A state that has decoded nothing yet.
    pub fn new(decoder: D, buffer: B) -> (state: Self)
        ensures
            state.policy() == decoder,
            state.carried() == buffer,
            state.pending() == buffer.contents(),
            !state.short_circuited(),
    {
        State { decoder, buffer, failed: false }
    }

    /// Take the next chunk of data and return the iterator over the values
    /// available with this new data.
    pub fn process_next_chunk(&mut self, chunk: &[u8]) -> (iter: AvailableIter<'_, D, B>)
        ensures
            appends(*old(self), chunk@, *iter.state),
            *final(self) == *final(iter.state),
    {
        self.buffer.append(chunk);
        AvailableIter::new(self)
    }

    /// Returns `true` if there is no buffered data.
    pub fn is_empty(&self) -> (empty: bool)
        ensures
            empty == (self.pending().len() == 0),
    {
        self.buffer.view().len() == 0
    }

    /// Finish the processing.
    ///
    /// Returns `Ok(())` if no buffered data is left, otherwise returns an
    /// `Err` with the buffer containing the unhandled data.
    pub fn finish(self) -> (leftover: Result<(), B>)
        ensures
            match leftover {
                Ok(()) => self.pending().len() == 0,
                Err(buffer) => buffer == self.carried() && buffer.contents() == self.pending()
                    && self.pending().len() > 0,
            },
    {
        if self.is_empty() {
            return Ok(());
        }
        Err(self.buffer)
    }
}

/// Iterates over the data readily available in the state, decoding the values
/// on the fly.
pub struct AvailableIter<'state, D: Decoder, B: Buffer> {
    /// The state that is being drained. Nothing else can touch it while the
    /// iterator lives.
    pub state: &'state mut State<D, B>,
}

impl<'state, D: Decoder, B: Buffer> AvailableIter<'state, D, B> {
    /// Create a new [`Self`] for a given state.
    fn new(state: &'state mut State<D, B>) -> (iter: Self)
        ensures
            *iter.state == *old(state),
            *final(state) == *final(iter.state),
    {
        AvailableIter { state }
    }

    /// View access to the state buffer.
    pub fn buffer(&self) -> (buffer: &B)
        ensures
            *buffer == old(self.state).carried(),
    {
        &self.state.buffer
    }

    /// Decode the next value that the buffered data holds.
    ///
    /// Data that the decoder asks to skip is dropped on the way. `None` means
    /// that the decoder needs more data, or that it has reported invalid data
    /// before. An `Err` is the last item that the state ever gives.
    pub fn next(&mut self) -> (item: Option<Result<D::Value, D::Error>>)
        ensures
            steps(*old(self).state, item, *final(self).state),
            *final(final(self).state) == *final(old(self).state),
    {
        if self.state.failed {
            return None;
        }
        let ghost origin = *self.state;
        let ghost mut skips: nat = 0;
        loop
            invariant
                !self.state.failed,
                *final(self.state) == *final(old(self).state),
                origin == *old(self).state,
                !origin.failed,
                model::same_policy(origin.decoder, self.state.decoder),
                forall|more: nat, item: Option<Result<D::Value, D::Error>>, rest: Seq<u8>|
                    #[trigger] model::yields(
                        origin.decoder,
                        self.state.buffer.contents(),
                        more,
                        item,
                        rest,
                    ) ==> model::yields(
                        origin.decoder,
                        origin.buffer.contents(),
                        skips + more,
                        item,
                        rest,
                    ),
            decreases self.state.buffer.contents().len(),
        {
            let ghost view = self.state.buffer.contents();
            let outcome = self.state.decoder.decode(self.state.buffer.view());
            assert(origin.decoder.admits(view, outcome));
            match outcome {
                Ok(decoded) => {
                    self.state.buffer.advance(decoded.consumed_bytes);
                    let item = Some(Ok(decoded.value));
                    proof {
                        let rest = self.state.buffer.contents();
                        assert(model::yields(origin.decoder, view, 0, item, rest));
                        assert(model::yields(origin.decoder, origin.buffer.contents(), skips, item, rest));
                        origin.lemma_steps(skips, item, *self.state);
                    }
                    return item;
                },
                Err(DecodeError::NeedMoreData) => {
                    proof {
                        assert(model::yields(origin.decoder, view, 0, None, view));
                        assert(model::yields(origin.decoder, origin.buffer.contents(), skips, None, view));
                        origin.lemma_steps(skips, None, *self.state);
                    }
                    return None;
                },
                Err(DecodeError::SkipData(bytes)) => {
                    self.state.buffer.advance(bytes);
                    proof {
                        assert forall|more: nat, item: Option<Result<D::Value, D::Error>>, rest: Seq<u8>|
                            #[trigger] model::yields(
                                origin.decoder,
                                self.state.buffer.contents(),
                                more,
                                item,
                                rest,
                            ) implies model::yields(
                            origin.decoder,
                            origin.buffer.contents(),
                            skips + 1 + more,
                            item,
                            rest,
                        ) by {
                            assert(model::yields(origin.decoder, view, more + 1, item, rest));
                            assert(skips + (more + 1) == skips + 1 + more);
                        }
                        skips = skips + 1;
                    }
                },
                Err(DecodeError::Other(error)) => {
                    self.state.failed = true;
                    let item = Some(Err(error));
                    proof {
                        assert(model::yields(origin.decoder, view, 0, item, view));
                        assert(model::yields(origin.decoder, origin.buffer.contents(), skips, item, view));
                        origin.lemma_steps(skips, item, *self.state);
                    }
                    return item;
                },
            }
        }
    }

    /// Decode and drop all available data, or fail with the first encountered
    /// decoding error.
    pub fn try_drain(self) -> (done: Result<(), D::Error>)
        ensures
            match done {
                Ok(()) => drained(*old(self.state), None, *final(self.state)),
                Err(error) => drained(*old(self.state), Some(error), *final(self.state)),
            },
    {
        let mut iter = self;
        let ghost origin = *iter.state;
        let ghost mut seen = Seq::<D::Value>::empty();
        proof {
            origin.lemma_resumes_at_start();
        }
        loop
            invariant
                *final(iter.state) == *final(self.state),
                origin == *old(self.state),
                origin.resumes(seen, *iter.state),
            decreases iter.state.buffer.contents().len(),
        {
            let ghost before = *iter.state;
            let item = iter.next();
            proof {
                origin.lemma_resumes_after_step(seen, before, item, *iter.state);
            }
            match item {
                None => {
                    return Ok(());
                },
                Some(Ok(value)) => {
                    proof {
                        seen = seen.push(value);
                    }
                },
                Some(Err(error)) => {
                    return Err(error);
                },
            }
        }
    }

    /// Decode and collect all available data, or fail with the first
    /// encountered decoding error.
    pub fn try_collect(self) -> (collected: Result<Vec<D::Value>, D::Error>)
        ensures
            match collected {
                Ok(values) => exhausts(*old(self.state), values@, None, *final(self.state)),
                Err(error) => drained(*old(self.state), Some(error), *final(self.state)),
            },
    {
        let mut iter = self;
        let mut values: Vec<D::Value> = Vec::new();
        let ghost origin = *iter.state;
        proof {
            origin.lemma_resumes_at_start();
        }
        loop
            invariant
                *final(iter.state) == *final(self.state),
                origin == *old(self.state),
                origin.resumes(values@, *iter.state),
            decreases iter.state.buffer.contents().len(),
        {
            let ghost before = *iter.state;
            let item = iter.next();
            proof {
                origin.lemma_resumes_after_step(values@, before, item, *iter.state);
            }
            match item {
                None => {
                    return Ok(values);
                },
                Some(Ok(value)) => {
                    values.push(value);
                },
                Some(Err(error)) => {
                    return Err(error);
                },
            }
        }
    }
}

} // verus!
