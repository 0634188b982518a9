//! What holds of decoding whatever the decoder is, and what holds of it for
//! the decoders whose answer depends on the view alone.

use vstd::prelude::*;

use crate::buffer::Buffer;
use crate::model::{
    appends, concludes, drains, ending, exhausts, fits, lemma_yields_by_policy, same_policy, steps,
    yields,
};
use crate::{DecodeError, Decoder, Outcome, State};

verus! {

/// Whether the decoder admits one outcome at most for each view.
pub open spec fn functional<D: Decoder>(decoder: D) -> bool {
    forall|view: Seq<u8>, one: Outcome<D::Value, D::Error>, other: Outcome<D::Value, D::Error>|
        #[trigger] decoder.admits(view, one) && #[trigger] decoder.admits(view, other) ==> one
            == other
}

/// Whether more data at the end of a view leaves every outcome in place but
/// the wish for more data.
pub open spec fn stable<D: Decoder>(decoder: D) -> bool {
    forall|view: Seq<u8>, more: Seq<u8>, outcome: Outcome<D::Value, D::Error>|
        decoder.admits(view, outcome) && !(outcome matches Err(DecodeError::NeedMoreData))
            ==> #[trigger] decoder.admits(view + more, outcome)
}

/// Whether `after` is `before` with all of `chunks` taken in, one after the
/// other.
pub open spec fn takes_in<D: Decoder, B: Buffer>(
    before: State<D, B>,
    chunks: Seq<Seq<u8>>,
    after: State<D, B>,
) -> bool
    decreases chunks.len(),
{
    if chunks.len() == 0 {
        after == before
    } else {
        exists|next: State<D, B>|
            #[trigger] appends(before, chunks[0], next) && takes_in(
                next,
                chunks.drop_first(),
                after,
            )
    }
}

/// Whether taking in the chunks one by one, with a drain after each, can give
/// `values` in all, end with `failure` and leave `rest`. After a failure the
/// chunks that follow pile up and nothing is decoded.
pub open spec fn chunked<D: Decoder>(
    decoder: D,
    pending: Seq<u8>,
    chunks: Seq<Seq<u8>>,
    values: Seq<D::Value>,
    failure: Option<D::Error>,
    rest: Seq<u8>,
) -> bool
    decreases chunks.len(),
{
    if chunks.len() == 0 {
        values.len() == 0 && failure is None && rest == pending
    } else if chunks.len() == 1 {
        drains(decoder, pending + chunks[0], values, failure, rest)
    } else {
        exists|first: Seq<D::Value>, stop: Option<D::Error>, mid: Seq<u8>|
            #![trigger drains(decoder, pending + chunks[0], first, stop, mid)]
            drains(decoder, pending + chunks[0], first, stop, mid) && match stop {
                Some(error) => values == first && failure == stop && rest == mid
                    + chunks.drop_first().flatten(),
                None => chunked(
                    decoder,
                    mid,
                    chunks.drop_first(),
                    values.skip(first.len() as int),
                    failure,
                    rest,
                ) && first.len() <= values.len() && values.take(first.len() as int) == first,
            }
    }
}

/// Finality of a fatal error: a request for a value that gives an error
/// leaves the state short-circuited, and a short-circuited state gives
/// nothing and stays as it is, however many chunks it takes in before it is
/// asked.
pub proof fn law_error_is_final<D: Decoder, B: Buffer>(
    before: State<D, B>,
    error: D::Error,
    failed: State<D, B>,
    chunks: Seq<Seq<u8>>,
    fed: State<D, B>,
    item: Option<Result<D::Value, D::Error>>,
    after: State<D, B>,
)
    requires
        steps(before, Some(Err(error)), failed),
        takes_in(failed, chunks, fed),
        steps(fed, item, after),
    ensures
        failed.short_circuited(),
        fed.short_circuited(),
        fed.pending() == failed.pending() + chunks.flatten(),
        item is None,
        after == fed,
{
    lemma_takes_in(failed, chunks, fed);
}

/// Taking chunks in appends them all and changes nothing else.
pub proof fn lemma_takes_in<D: Decoder, B: Buffer>(
    before: State<D, B>,
    chunks: Seq<Seq<u8>>,
    after: State<D, B>,
)
    requires
        takes_in(before, chunks, after),
    ensures
        after.pending() == before.pending() + chunks.flatten(),
        after.policy() == before.policy(),
        after.short_circuited() == before.short_circuited(),
    decreases chunks.len(),
{
    if chunks.len() == 0 {
        assert(after == before);
        assert(chunks.flatten() =~= Seq::<u8>::empty());
        assert(before.pending() + chunks.flatten() =~= before.pending());
    } else {
        let next = choose|next: State<D, B>|
            #[trigger] appends(before, chunks[0], next) && takes_in(
                next,
                chunks.drop_first(),
                after,
            );
        lemma_takes_in(next, chunks.drop_first(), after);
        assert(chunks.flatten() == chunks[0] + chunks.drop_first().flatten());
        assert(before.pending() + chunks.flatten() =~= (before.pending() + chunks[0])
            + chunks.drop_first().flatten());
    }
}

/// Termination of skipping: a request for a value skips no more often than
/// the bytes that it drops, which are no more than the view holds.
pub proof fn law_skips_are_bounded<D: Decoder>(
    decoder: D,
    view: Seq<u8>,
    skips: nat,
    item: Option<Result<D::Value, D::Error>>,
    rest: Seq<u8>,
)
    requires
        yields(decoder, view, skips, item, rest),
    ensures
        rest.len() <= view.len(),
        skips <= view.len() - rest.len(),
        skips <= view.len(),
{
    crate::model::lemma_yields_consumes(decoder, view, skips, item, rest);
}

/// A drain gives no more values than the bytes that it takes, and what it
/// leaves is the end of what was there.
pub proof fn law_drain_takes_from_the_front<D: Decoder>(
    decoder: D,
    view: Seq<u8>,
    values: Seq<D::Value>,
    failure: Option<D::Error>,
    rest: Seq<u8>,
)
    requires
        drains(decoder, view, values, failure, rest),
    ensures
        rest.len() + values.len() <= view.len(),
        rest == view.skip(view.len() - rest.len()),
    decreases values.len(),
{
    if values.len() == 0 {
        let skips = choose|skips: nat| #[trigger]
            yields(decoder, view, skips, ending(failure), rest);
        crate::model::lemma_yields_consumes(decoder, view, skips, ending(failure), rest);
    } else {
        let (skips, next) = choose|skips: nat, next: Seq<u8>|
            #[trigger] yields(decoder, view, skips, Some(Ok(values[0])), next) && drains(
                decoder,
                next,
                values.drop_first(),
                failure,
                rest,
            );
        crate::model::lemma_yields_consumes(decoder, view, skips, Some(Ok(values[0])), next);
        law_drain_takes_from_the_front(decoder, next, values.drop_first(), failure, rest);
        assert(rest =~= view.skip(view.len() - rest.len()));
    }
}

/// More data at the end of the view does not change a value or an error
/// that a stable decoder yields.
pub proof fn lemma_item_outlasts_more_data<D: Decoder>(
    decoder: D,
    view: Seq<u8>,
    more: Seq<u8>,
    skips: nat,
    item: Option<Result<D::Value, D::Error>>,
    rest: Seq<u8>,
)
    requires
        stable(decoder),
        yields(decoder, view, skips, item, rest),
        item is Some,
    ensures
        yields(decoder, view + more, skips, item, rest + more),
    decreases skips,
{
    if skips == 0 {
        let outcome = choose|outcome: Outcome<D::Value, D::Error>|
            #[trigger] decoder.admits(view, outcome) && fits(outcome, view.len()) && concludes(
                view,
                outcome,
                item,
                rest,
            );
        assert(decoder.admits(view + more, outcome));
        match outcome {
            Ok(decoded) => {
                assert((view + more).skip(decoded.consumed_bytes as int) =~= view.skip(
                    decoded.consumed_bytes as int,
                ) + more);
            },
            Err(_) => {},
        }
        assert(concludes(view + more, outcome, item, rest + more));
    } else {
        let bytes = choose|bytes: usize|
            #[trigger] decoder.admits(view, Err(DecodeError::SkipData(bytes))) && 1 <= bytes
                <= view.len() && yields(
                decoder,
                view.skip(bytes as int),
                (skips - 1) as nat,
                item,
                rest,
            );
        let skip: Outcome<D::Value, D::Error> = Err(DecodeError::SkipData(bytes));
        assert(decoder.admits(view + more, skip));
        lemma_item_outlasts_more_data(
            decoder,
            view.skip(bytes as int),
            more,
            (skips - 1) as nat,
            item,
            rest,
        );
        assert((view + more).skip(bytes as int) =~= view.skip(bytes as int) + more);
    }
}

/// Where a stable decoder waits for data, decoding goes on with the data
/// that comes as if it had been there from the start.
pub proof fn lemma_waiting_resumes<D: Decoder>(
    decoder: D,
    view: Seq<u8>,
    more: Seq<u8>,
    skips: nat,
    rest: Seq<u8>,
    further: nat,
    item: Option<Result<D::Value, D::Error>>,
    end: Seq<u8>,
)
    requires
        stable(decoder),
        yields(decoder, view, skips, None, rest),
        yields(decoder, rest + more, further, item, end),
    ensures
        yields(decoder, view + more, skips + further, item, end),
    decreases skips,
{
    if skips == 0 {
        let outcome = choose|outcome: Outcome<D::Value, D::Error>|
            #[trigger] decoder.admits(view, outcome) && fits(outcome, view.len()) && concludes(
                view,
                outcome,
                None,
                rest,
            );
        assert(rest == view);
        assert(skips + further == further);
    } else {
        let bytes = choose|bytes: usize|
            #[trigger] decoder.admits(view, Err(DecodeError::SkipData(bytes))) && 1 <= bytes
                <= view.len() && yields(
                decoder,
                view.skip(bytes as int),
                (skips - 1) as nat,
                None,
                rest,
            );
        let skip: Outcome<D::Value, D::Error> = Err(DecodeError::SkipData(bytes));
        assert(decoder.admits(view + more, skip));
        lemma_waiting_resumes(
            decoder,
            view.skip(bytes as int),
            more,
            (skips - 1) as nat,
            rest,
            further,
            item,
            end,
        );
        assert((view + more).skip(bytes as int) =~= view.skip(bytes as int) + more);
        assert((skips + further - 1) as nat == (skips - 1) as nat + further);
    }
}

/// A drain that ends for want of data, followed by a drain of what it left
/// and the data that came, is a drain of all the data at once.
pub proof fn lemma_drain_resumes<D: Decoder>(
    decoder: D,
    view: Seq<u8>,
    more: Seq<u8>,
    first: Seq<D::Value>,
    mid: Seq<u8>,
    second: Seq<D::Value>,
    failure: Option<D::Error>,
    rest: Seq<u8>,
)
    requires
        stable(decoder),
        drains(decoder, view, first, None, mid),
        drains(decoder, mid + more, second, failure, rest),
    ensures
        drains(decoder, view + more, first + second, failure, rest),
    decreases first.len(),
{
    let all = first + second;
    if first.len() == 0 {
        assert(all =~= second);
        let skips = choose|skips: nat| #[trigger]
            yields(decoder, view, skips, ending::<D::Value, D::Error>(None), mid);
        if second.len() == 0 {
            let further = choose|further: nat| #[trigger]
                yields(decoder, mid + more, further, ending(failure), rest);
            lemma_waiting_resumes(
                decoder,
                view,
                more,
                skips,
                mid,
                further,
                ending(failure),
                rest,
            );
        } else {
            let (further, next) = choose|further: nat, next: Seq<u8>|
                #[trigger] yields(decoder, mid + more, further, Some(Ok(second[0])), next)
                    && drains(decoder, next, second.drop_first(), failure, rest);
            lemma_waiting_resumes(
                decoder,
                view,
                more,
                skips,
                mid,
                further,
                Some(Ok(second[0])),
                next,
            );
        }
    } else {
        let (skips, next) = choose|skips: nat, next: Seq<u8>|
            #[trigger] yields(decoder, view, skips, Some(Ok(first[0])), next) && drains(
                decoder,
                next,
                first.drop_first(),
                None,
                mid,
            );
        lemma_item_outlasts_more_data(decoder, view, more, skips, Some(Ok(first[0])), next);
        lemma_drain_resumes(
            decoder,
            next,
            more,
            first.drop_first(),
            mid,
            second,
            failure,
            rest,
        );
        assert(all[0] == first[0]);
        assert(all.drop_first() =~= first.drop_first() + second);
    }
}

/// A drain that ends with an error ends with it as well when more data
/// stands behind the view, and leaves that data in place.
pub proof fn lemma_failure_outlasts_more_data<D: Decoder>(
    decoder: D,
    view: Seq<u8>,
    more: Seq<u8>,
    values: Seq<D::Value>,
    error: D::Error,
    rest: Seq<u8>,
)
    requires
        stable(decoder),
        drains(decoder, view, values, Some(error), rest),
    ensures
        drains(decoder, view + more, values, Some(error), rest + more),
    decreases values.len(),
{
    if values.len() == 0 {
        let skips = choose|skips: nat| #[trigger]
            yields(decoder, view, skips, ending::<D::Value, D::Error>(Some(error)), rest);
        lemma_item_outlasts_more_data(decoder, view, more, skips, Some(Err(error)), rest);
    } else {
        let (skips, next) = choose|skips: nat, next: Seq<u8>|
            #[trigger] yields(decoder, view, skips, Some(Ok(values[0])), next) && drains(
                decoder,
                next,
                values.drop_first(),
                Some(error),
                rest,
            );
        lemma_item_outlasts_more_data(decoder, view, more, skips, Some(Ok(values[0])), next);
        lemma_failure_outlasts_more_data(
            decoder,
            next,
            more,
            values.drop_first(),
            error,
            rest,
        );
    }
}

/// With a decoder whose answer depends on the view alone, a request for a
/// value has one result.
pub proof fn lemma_yields_once<D: Decoder>(
    decoder: D,
    view: Seq<u8>,
    skips: nat,
    item: Option<Result<D::Value, D::Error>>,
    rest: Seq<u8>,
    other_skips: nat,
    other_item: Option<Result<D::Value, D::Error>>,
    other_rest: Seq<u8>,
)
    requires
        functional(decoder),
        yields(decoder, view, skips, item, rest),
        yields(decoder, view, other_skips, other_item, other_rest),
    ensures
        skips == other_skips,
        item == other_item,
        rest == other_rest,
    decreases skips,
{
    if skips == 0 {
        let outcome = choose|outcome: Outcome<D::Value, D::Error>|
            #[trigger] decoder.admits(view, outcome) && fits(outcome, view.len()) && concludes(
                view,
                outcome,
                item,
                rest,
            );
        if other_skips == 0 {
            let other = choose|other: Outcome<D::Value, D::Error>|
                #[trigger] decoder.admits(view, other) && fits(other, view.len()) && concludes(
                    view,
                    other,
                    other_item,
                    other_rest,
                );
            assert(outcome == other);
        } else {
            let bytes = choose|bytes: usize|
                #[trigger] decoder.admits(view, Err(DecodeError::SkipData(bytes))) && 1 <= bytes
                    <= view.len() && yields(
                    decoder,
                    view.skip(bytes as int),
                    (other_skips - 1) as nat,
                    other_item,
                    other_rest,
                );
            let skip: Outcome<D::Value, D::Error> = Err(DecodeError::SkipData(bytes));
            assert(outcome == skip);
        }
    } else {
        let bytes = choose|bytes: usize|
            #[trigger] decoder.admits(view, Err(DecodeError::SkipData(bytes))) && 1 <= bytes
                <= view.len() && yields(
                decoder,
                view.skip(bytes as int),
                (skips - 1) as nat,
                item,
                rest,
            );
        let skip: Outcome<D::Value, D::Error> = Err(DecodeError::SkipData(bytes));
        if other_skips == 0 {
            let other = choose|other: Outcome<D::Value, D::Error>|
                #[trigger] decoder.admits(view, other) && fits(other, view.len()) && concludes(
                    view,
                    other,
                    other_item,
                    other_rest,
                );
            assert(other == skip);
        } else {
            let other_bytes = choose|other_bytes: usize|
                #[trigger] decoder.admits(view, Err(DecodeError::SkipData(other_bytes))) && 1
                    <= other_bytes <= view.len() && yields(
                    decoder,
                    view.skip(other_bytes as int),
                    (other_skips - 1) as nat,
                    other_item,
                    other_rest,
                );
            let other_skip: Outcome<D::Value, D::Error> = Err(DecodeError::SkipData(other_bytes));
            assert(skip == other_skip);
            lemma_yields_once(
                decoder,
                view.skip(bytes as int),
                (skips - 1) as nat,
                item,
                rest,
                (other_skips - 1) as nat,
                other_item,
                other_rest,
            );
        }
    }
}

/// With a decoder whose answer depends on the view alone, a drain has one
/// result.
pub proof fn lemma_drains_once<D: Decoder>(
    decoder: D,
    view: Seq<u8>,
    values: Seq<D::Value>,
    failure: Option<D::Error>,
    rest: Seq<u8>,
    other_values: Seq<D::Value>,
    other_failure: Option<D::Error>,
    other_rest: Seq<u8>,
)
    requires
        functional(decoder),
        drains(decoder, view, values, failure, rest),
        drains(decoder, view, other_values, other_failure, other_rest),
    ensures
        values == other_values,
        failure == other_failure,
        rest == other_rest,
    decreases values.len(),
{
    if values.len() == 0 {
        let skips = choose|skips: nat| #[trigger]
            yields(decoder, view, skips, ending(failure), rest);
        if other_values.len() == 0 {
            let other_skips = choose|other_skips: nat| #[trigger]
                yields(decoder, view, other_skips, ending(other_failure), other_rest);
            lemma_yields_once(
                decoder,
                view,
                skips,
                ending(failure),
                rest,
                other_skips,
                ending(other_failure),
                other_rest,
            );
            assert(values =~= other_values);
        } else {
            let (other_skips, next) = choose|other_skips: nat, next: Seq<u8>|
                #[trigger] yields(decoder, view, other_skips, Some(Ok(other_values[0])), next)
                    && drains(decoder, next, other_values.drop_first(), other_failure, other_rest);
            lemma_yields_once(
                decoder,
                view,
                skips,
                ending(failure),
                rest,
                other_skips,
                Some(Ok(other_values[0])),
                next,
            );
        }
    } else {
        let (skips, next) = choose|skips: nat, next: Seq<u8>|
            #[trigger] yields(decoder, view, skips, Some(Ok(values[0])), next) && drains(
                decoder,
                next,
                values.drop_first(),
                failure,
                rest,
            );
        if other_values.len() == 0 {
            let other_skips = choose|other_skips: nat| #[trigger]
                yields(decoder, view, other_skips, ending(other_failure), other_rest);
            lemma_yields_once(
                decoder,
                view,
                skips,
                Some(Ok(values[0])),
                next,
                other_skips,
                ending(other_failure),
                other_rest,
            );
        } else {
            let (other_skips, other_next) = choose|other_skips: nat, other_next: Seq<u8>|
                #[trigger] yields(
                    decoder,
                    view,
                    other_skips,
                    Some(Ok(other_values[0])),
                    other_next,
                ) && drains(
                    decoder,
                    other_next,
                    other_values.drop_first(),
                    other_failure,
                    other_rest,
                );
            lemma_yields_once(
                decoder,
                view,
                skips,
                Some(Ok(values[0])),
                next,
                other_skips,
                Some(Ok(other_values[0])),
                other_next,
            );
            lemma_drains_once(
                decoder,
                next,
                values.drop_first(),
                failure,
                rest,
                other_values.drop_first(),
                other_failure,
                other_rest,
            );
            assert(values =~= seq![values[0]] + values.drop_first());
            assert(other_values =~= seq![other_values[0]] + other_values.drop_first());
        }
    }
}

/// With a stable decoder, what the chunks give one by one is what all their
/// data gives at once.
pub proof fn lemma_chunked_drains<D: Decoder>(
    decoder: D,
    pending: Seq<u8>,
    chunks: Seq<Seq<u8>>,
    values: Seq<D::Value>,
    failure: Option<D::Error>,
    rest: Seq<u8>,
)
    requires
        stable(decoder),
        chunks.len() >= 1,
        chunked(decoder, pending, chunks, values, failure, rest),
    ensures
        drains(decoder, pending + chunks.flatten(), values, failure, rest),
    decreases chunks.len(),
{
    let tail = chunks.drop_first();
    assert(chunks.flatten() == chunks[0] + tail.flatten());
    assert(pending + chunks.flatten() =~= (pending + chunks[0]) + tail.flatten());
    if chunks.len() == 1 {
        assert(tail.flatten() =~= Seq::<u8>::empty());
        assert((pending + chunks[0]) + tail.flatten() =~= pending + chunks[0]);
    } else {
        let (first, stop, mid) = choose|first: Seq<D::Value>, stop: Option<D::Error>, mid: Seq<u8>|
            #![trigger drains(decoder, pending + chunks[0], first, stop, mid)]
            drains(decoder, pending + chunks[0], first, stop, mid) && match stop {
                Some(error) => values == first && failure == stop && rest == mid
                    + chunks.drop_first().flatten(),
                None => chunked(
                    decoder,
                    mid,
                    chunks.drop_first(),
                    values.skip(first.len() as int),
                    failure,
                    rest,
                ) && first.len() <= values.len() && values.take(first.len() as int) == first,
            };
        match stop {
            Some(error) => {
                lemma_failure_outlasts_more_data(
                    decoder,
                    pending + chunks[0],
                    tail.flatten(),
                    first,
                    error,
                    mid,
                );
            },
            None => {
                let second = values.skip(first.len() as int);
                lemma_chunked_drains(decoder, mid, tail, second, failure, rest);
                lemma_drain_resumes(
                    decoder,
                    pending + chunks[0],
                    tail.flatten(),
                    first,
                    mid,
                    second,
                    failure,
                    rest,
                );
                assert(first + second =~= values);
            },
        }
    }
}

/// Whether a state can go from `before` to `after` by taking in the chunks
/// one by one, with a drain after each, and give `values` in all and
/// `failure` as the error that ended the decoding, if one did.
pub open spec fn runs<D: Decoder, B: Buffer>(
    before: State<D, B>,
    chunks: Seq<Seq<u8>>,
    values: Seq<D::Value>,
    failure: Option<D::Error>,
    after: State<D, B>,
) -> bool
    decreases chunks.len(),
{
    if chunks.len() == 0 {
        values.len() == 0 && failure is None && after == before
    } else {
        exists|fed: State<D, B>, first: Seq<D::Value>, stop: Option<D::Error>, mid: State<D, B>|
            #![trigger appends(before, chunks[0], fed), exhausts(fed, first, stop, mid)]
            {
                &&& appends(before, chunks[0], fed)
                &&& exhausts(fed, first, stop, mid)
                &&& first.len() <= values.len()
                &&& values.take(first.len() as int) == first
                &&& stop is Some ==> failure == stop
                &&& runs(
                    mid,
                    chunks.drop_first(),
                    values.skip(first.len() as int),
                    if stop is Some {
                        None
                    } else {
                        failure
                    },
                    after,
                )
            }
    }
}

/// Decoders that admit the same outcomes drain the same.
pub proof fn lemma_drains_by_policy<D: Decoder>(
    a: D,
    b: D,
    view: Seq<u8>,
    values: Seq<D::Value>,
    failure: Option<D::Error>,
    rest: Seq<u8>,
)
    requires
        same_policy(a, b),
        drains(a, view, values, failure, rest),
    ensures
        drains(b, view, values, failure, rest),
    decreases values.len(),
{
    if values.len() == 0 {
        let skips = choose|skips: nat| #[trigger] yields(a, view, skips, ending(failure), rest);
        lemma_yields_by_policy(a, b, view, skips, ending(failure), rest);
    } else {
        let (skips, next) = choose|skips: nat, next: Seq<u8>|
            #[trigger] yields(a, view, skips, Some(Ok(values[0])), next) && drains(
                a,
                next,
                values.drop_first(),
                failure,
                rest,
            );
        lemma_yields_by_policy(a, b, view, skips, Some(Ok(values[0])), next);
        lemma_drains_by_policy(a, b, next, values.drop_first(), failure, rest);
    }
}

/// Decoders that admit the same outcomes give the same for the chunks.
pub proof fn lemma_chunked_by_policy<D: Decoder>(
    a: D,
    b: D,
    pending: Seq<u8>,
    chunks: Seq<Seq<u8>>,
    values: Seq<D::Value>,
    failure: Option<D::Error>,
    rest: Seq<u8>,
)
    requires
        same_policy(a, b),
        chunked(a, pending, chunks, values, failure, rest),
    ensures
        chunked(b, pending, chunks, values, failure, rest),
    decreases chunks.len(),
{
    if chunks.len() == 0 {
    } else if chunks.len() == 1 {
        lemma_drains_by_policy(a, b, pending + chunks[0], values, failure, rest);
    } else {
        let (first, stop, mid) = choose|first: Seq<D::Value>, stop: Option<D::Error>, mid: Seq<u8>|
            #![trigger drains(a, pending + chunks[0], first, stop, mid)]
            drains(a, pending + chunks[0], first, stop, mid) && match stop {
                Some(error) => values == first && failure == stop && rest == mid
                    + chunks.drop_first().flatten(),
                None => chunked(
                    a,
                    mid,
                    chunks.drop_first(),
                    values.skip(first.len() as int),
                    failure,
                    rest,
                ) && first.len() <= values.len() && values.take(first.len() as int) == first,
            };
        lemma_drains_by_policy(a, b, pending + chunks[0], first, stop, mid);
        if stop is None {
            lemma_chunked_by_policy(
                a,
                b,
                mid,
                chunks.drop_first(),
                values.skip(first.len() as int),
                failure,
                rest,
            );
        }
    }
}

/// A short-circuited state that takes chunks in, with a drain after each,
/// gives nothing and keeps them all.
pub proof fn lemma_run_after_failure<D: Decoder, B: Buffer>(
    before: State<D, B>,
    chunks: Seq<Seq<u8>>,
    values: Seq<D::Value>,
    failure: Option<D::Error>,
    after: State<D, B>,
)
    requires
        before.short_circuited(),
        runs(before, chunks, values, failure, after),
    ensures
        values.len() == 0,
        failure is None,
        after.short_circuited(),
        after.pending() == before.pending() + chunks.flatten(),
    decreases chunks.len(),
{
    if chunks.len() == 0 {
        assert(before.pending() + chunks.flatten() =~= before.pending());
    } else {
        let (fed, first, stop, mid) = choose|
            fed: State<D, B>,
            first: Seq<D::Value>,
            stop: Option<D::Error>,
            mid: State<D, B>,
        |
            #![trigger appends(before, chunks[0], fed), exhausts(fed, first, stop, mid)]
            {
                &&& appends(before, chunks[0], fed)
                &&& exhausts(fed, first, stop, mid)
                &&& first.len() <= values.len()
                &&& values.take(first.len() as int) == first
                &&& stop is Some ==> failure == stop
                &&& runs(
                    mid,
                    chunks.drop_first(),
                    values.skip(first.len() as int),
                    if stop is Some {
                        None
                    } else {
                        failure
                    },
                    after,
                )
            };
        lemma_run_after_failure(
            mid,
            chunks.drop_first(),
            values.skip(first.len() as int),
            failure,
            after,
        );
        assert(values =~= values.skip(first.len() as int));
        assert(chunks.flatten() == chunks[0] + chunks.drop_first().flatten());
        assert(before.pending() + chunks.flatten() =~= (before.pending() + chunks[0])
            + chunks.drop_first().flatten());
    }
}

/// What a state gives for chunks that it takes in one by one is what its
/// decoder gives for them, from the data that the state held.
pub proof fn lemma_run_is_chunked<D: Decoder, B: Buffer>(
    before: State<D, B>,
    chunks: Seq<Seq<u8>>,
    values: Seq<D::Value>,
    failure: Option<D::Error>,
    after: State<D, B>,
)
    requires
        !before.short_circuited(),
        chunks.len() >= 1,
        runs(before, chunks, values, failure, after),
    ensures
        chunked(before.policy(), before.pending(), chunks, values, failure, after.pending()),
    decreases chunks.len(),
{
    let decoder = before.policy();
    let tail = chunks.drop_first();
    let (fed, first, stop, mid) = choose|
        fed: State<D, B>,
        first: Seq<D::Value>,
        stop: Option<D::Error>,
        mid: State<D, B>,
    |
        #![trigger appends(before, chunks[0], fed), exhausts(fed, first, stop, mid)]
        {
            &&& appends(before, chunks[0], fed)
            &&& exhausts(fed, first, stop, mid)
            &&& first.len() <= values.len()
            &&& values.take(first.len() as int) == first
            &&& stop is Some ==> failure == stop
            &&& runs(
                mid,
                chunks.drop_first(),
                values.skip(first.len() as int),
                if stop is Some {
                    None
                } else {
                    failure
                },
                after,
            )
        };
    let more = values.skip(first.len() as int);
    assert(values =~= first + more);
    assert(drains(decoder, before.pending() + chunks[0], first, stop, mid.pending()));
    if stop is Some {
        lemma_run_after_failure(mid, tail, more, None, after);
        assert(values =~= first);
        if chunks.len() == 1 {
            assert(tail.flatten() =~= Seq::<u8>::empty());
            assert(mid.pending() + tail.flatten() =~= mid.pending());
        }
    } else if chunks.len() == 1 {
        assert(values =~= first);
    } else {
        lemma_run_is_chunked(mid, tail, more, failure, after);
        lemma_chunked_by_policy(mid.policy(), decoder, mid.pending(), tail, more, failure,
            after.pending());
    }
}

/// Independence of the chunk boundaries: with a decoder whose answer depends
/// on the view alone and does not change when more data follows, unless it is
/// the wish for more data, the values, the error and the leftover are the
/// same however the data is split into chunks.
pub proof fn law_chunk_boundaries_do_not_matter<D: Decoder>(
    decoder: D,
    pending: Seq<u8>,
    chunks: Seq<Seq<u8>>,
    values: Seq<D::Value>,
    failure: Option<D::Error>,
    rest: Seq<u8>,
    whole_values: Seq<D::Value>,
    whole_failure: Option<D::Error>,
    whole_rest: Seq<u8>,
)
    requires
        functional(decoder),
        stable(decoder),
        chunks.len() >= 1,
        chunked(decoder, pending, chunks, values, failure, rest),
        drains(decoder, pending + chunks.flatten(), whole_values, whole_failure, whole_rest),
    ensures
        values == whole_values,
        failure == whole_failure,
        rest == whole_rest,
{
    lemma_chunked_drains(decoder, pending, chunks, values, failure, rest);
    lemma_drains_once(
        decoder,
        pending + chunks.flatten(),
        values,
        failure,
        rest,
        whole_values,
        whole_failure,
        whole_rest,
    );
}

/// Independence of the chunk boundaries, for a state: with such a decoder,
/// what the state gives for chunks that it takes in one by one, and what it
/// is left with, is what a drain of all the data at once gives and leaves.
pub proof fn law_state_ignores_chunk_boundaries<D: Decoder, B: Buffer>(
    before: State<D, B>,
    chunks: Seq<Seq<u8>>,
    values: Seq<D::Value>,
    failure: Option<D::Error>,
    after: State<D, B>,
    whole_values: Seq<D::Value>,
    whole_failure: Option<D::Error>,
    whole_rest: Seq<u8>,
)
    requires
        functional(before.policy()),
        stable(before.policy()),
        !before.short_circuited(),
        chunks.len() >= 1,
        runs(before, chunks, values, failure, after),
        drains(
            before.policy(),
            before.pending() + chunks.flatten(),
            whole_values,
            whole_failure,
            whole_rest,
        ),
    ensures
        values == whole_values,
        failure == whole_failure,
        after.pending() == whole_rest,
{
    lemma_run_is_chunked(before, chunks, values, failure, after);
    law_chunk_boundaries_do_not_matter(
        before.policy(),
        before.pending(),
        chunks,
        values,
        failure,
        after.pending(),
        whole_values,
        whole_failure,
        whole_rest,
    );
}

} // verus!
