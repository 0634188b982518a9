//! The mathematical model of decoding: what a state yields from the bytes
//! that it holds, for the outcomes that its decoder admits.

use vstd::prelude::*;

use crate::buffer::Buffer;
use crate::{DecodeError, Decoder, Outcome, State};

verus! {

/// Whether an outcome is in keeping with a view of `len` bytes: a decoded
/// value takes, and a skip drops, at least one byte and at most `len`.
pub open spec fn fits<V, E>(outcome: Outcome<V, E>, len: nat) -> bool {
    match outcome {
        Ok(decoded) => 1 <= decoded.consumed_bytes <= len,
        Err(DecodeError::SkipData(bytes)) => 1 <= bytes <= len,
        Err(_) => true,
    }
}

/// Whether two decoders admit the same outcomes for every view.
pub open spec fn same_policy<D: Decoder>(a: D, b: D) -> bool {
    forall|view: Seq<u8>, outcome: Outcome<D::Value, D::Error>|
        a.admits(view, outcome) == #[trigger] b.admits(view, outcome)
}

/// Whether `outcome`, given for `view`, ends a decoding attempt with `item`
/// and leaves `rest` in the buffer. A skip ends nothing.
pub open spec fn concludes<V, E>(
    view: Seq<u8>,
    outcome: Outcome<V, E>,
    item: Option<Result<V, E>>,
    rest: Seq<u8>,
) -> bool {
    match outcome {
        Ok(decoded) => item == Some(Ok::<V, E>(decoded.value)) && rest == view.skip(
            decoded.consumed_bytes as int,
        ),
        Err(DecodeError::NeedMoreData) => item is None && rest == view,
        Err(DecodeError::SkipData(_)) => false,
        Err(DecodeError::Other(error)) => item == Some(Err::<V, E>(error)) && rest == view,
    }
}

/// Whether a decoding attempt on `view` can give `item` and leave `rest`
/// after exactly `skips` skips.
pub open spec fn yields<D: Decoder>(
    decoder: D,
    view: Seq<u8>,
    skips: nat,
    item: Option<Result<D::Value, D::Error>>,
    rest: Seq<u8>,
) -> bool
    decreases skips,
{
    if skips == 0 {
        exists|outcome: Outcome<D::Value, D::Error>|
            #[trigger] decoder.admits(view, outcome) && fits(outcome, view.len()) && concludes(
                view,
                outcome,
                item,
                rest,
            )
    } else {
        exists|bytes: usize|
            #[trigger] decoder.admits(view, Err(DecodeError::SkipData(bytes))) && 1 <= bytes
                <= view.len() && yields(
                decoder,
                view.skip(bytes as int),
                (skips - 1) as nat,
                item,
                rest,
            )
    }
}

/// What ends a drain: nothing more for now, or the error that the decoder
/// reported.
pub open spec fn ending<V, E>(failure: Option<E>) -> Option<Result<V, E>> {
    match failure {
        None => None,
        Some(error) => Some(Err(error)),
    }
}

/// Whether decoding `view` until nothing more comes can give `values`, in
/// this order, end with `failure` and leave `rest`.
pub open spec fn drains<D: Decoder>(
    decoder: D,
    view: Seq<u8>,
    values: Seq<D::Value>,
    failure: Option<D::Error>,
    rest: Seq<u8>,
) -> bool
    decreases values.len(),
{
    if values.len() == 0 {
        exists|skips: nat| #[trigger] yields(decoder, view, skips, ending(failure), rest)
    } else {
        exists|skips: nat, mid: Seq<u8>|
            #[trigger] yields(decoder, view, skips, Some(Ok(values[0])), mid) && drains(
                decoder,
                mid,
                values.drop_first(),
                failure,
                rest,
            )
    }
}

/// Whether `after` is `before` with `chunk` taken in.
pub open spec fn appends<D: Decoder, B: Buffer>(
    before: State<D, B>,
    chunk: Seq<u8>,
    after: State<D, B>,
) -> bool {
    &&& after.pending() == before.pending() + chunk
    &&& after.policy() == before.policy()
    &&& after.short_circuited() == before.short_circuited()
}

/// Whether one request for the next value can take a state from `before` to
/// `after` and give `item`.
pub open spec fn steps<D: Decoder, B: Buffer>(
    before: State<D, B>,
    item: Option<Result<D::Value, D::Error>>,
    after: State<D, B>,
) -> bool {
    if before.short_circuited() {
        item is None && after == before
    } else {
        &&& exists|skips: nat| yields(before.policy(), before.pending(), skips, item, after.pending())
        &&& same_policy(before.policy(), after.policy())
        &&& after.short_circuited() == (item matches Some(Err(_)))
    }
}

/// Whether draining can take a state from `before` to `after`, give `values`
/// in this order and end with `failure`.
pub open spec fn exhausts<D: Decoder, B: Buffer>(
    before: State<D, B>,
    values: Seq<D::Value>,
    failure: Option<D::Error>,
    after: State<D, B>,
) -> bool {
    if before.short_circuited() {
        values.len() == 0 && failure is None && after == before
    } else {
        &&& drains(before.policy(), before.pending(), values, failure, after.pending())
        &&& same_policy(before.policy(), after.policy())
        &&& after.short_circuited() == failure is Some
    }
}

/// Whether draining can take a state from `before` to `after` and end with
/// `failure`, whatever values it gives on the way.
pub open spec fn drained<D: Decoder, B: Buffer>(
    before: State<D, B>,
    failure: Option<D::Error>,
    after: State<D, B>,
) -> bool {
    exists|values: Seq<D::Value>| exhausts(before, values, failure, after)
}

/// Every skip drops at least one byte, a value takes at least one more, and
/// what is left is the end of the view.
pub proof fn lemma_yields_consumes<D: Decoder>(
    decoder: D,
    view: Seq<u8>,
    skips: nat,
    item: Option<Result<D::Value, D::Error>>,
    rest: Seq<u8>,
)
    requires
        yields(decoder, view, skips, item, rest),
    ensures
        rest.len() + skips <= view.len(),
        item matches Some(Ok(_)) ==> rest.len() + skips + 1 <= view.len(),
        rest == view.skip(view.len() - rest.len()),
    decreases skips,
{
    if skips == 0 {
        let outcome = choose|outcome: Outcome<D::Value, D::Error>|
            #[trigger] decoder.admits(view, outcome) && fits(outcome, view.len()) && concludes(
                view,
                outcome,
                item,
                rest,
            );
        assert(rest =~= view.skip(view.len() - rest.len()));
    } else {
        let bytes = choose|bytes: usize|
            #[trigger] decoder.admits(view, Err(DecodeError::SkipData(bytes))) && 1 <= bytes
                <= view.len() && yields(
                decoder,
                view.skip(bytes as int),
                (skips - 1) as nat,
                item,
                rest,
            );
        lemma_yields_consumes(decoder, view.skip(bytes as int), (skips - 1) as nat, item, rest);
        assert(rest =~= view.skip(view.len() - rest.len()));
    }
}

/// Decoders that admit the same outcomes yield the same.
pub proof fn lemma_yields_by_policy<D: Decoder>(
    a: D,
    b: D,
    view: Seq<u8>,
    skips: nat,
    item: Option<Result<D::Value, D::Error>>,
    rest: Seq<u8>,
)
    requires
        same_policy(a, b),
        yields(a, view, skips, item, rest),
    ensures
        yields(b, view, skips, item, rest),
    decreases skips,
{
    if skips == 0 {
        let outcome = choose|outcome: Outcome<D::Value, D::Error>|
            #[trigger] a.admits(view, outcome) && fits(outcome, view.len()) && concludes(
                view,
                outcome,
                item,
                rest,
            );
        assert(b.admits(view, outcome));
    } else {
        let bytes = choose|bytes: usize|
            #[trigger] a.admits(view, Err(DecodeError::SkipData(bytes))) && 1 <= bytes
                <= view.len() && yields(a, view.skip(bytes as int), (skips - 1) as nat, item, rest);
        lemma_yields_by_policy(a, b, view.skip(bytes as int), (skips - 1) as nat, item, rest);
        assert(b.admits(view, Err(DecodeError::SkipData(bytes))));
    }
}

/// A value that is yielded first, followed by a drain of what it left, is a
/// drain of the whole.
pub proof fn lemma_drains_after_value<D: Decoder>(
    decoder: D,
    view: Seq<u8>,
    skips: nat,
    value: D::Value,
    mid: Seq<u8>,
    values: Seq<D::Value>,
    failure: Option<D::Error>,
    rest: Seq<u8>,
)
    requires
        yields(decoder, view, skips, Some(Ok(value)), mid),
        drains(decoder, mid, values, failure, rest),
    ensures
        drains(decoder, view, seq![value] + values, failure, rest),
{
    let all = seq![value] + values;
    assert(all[0] == value);
    assert(all.drop_first() =~= values);
}

} // verus!
