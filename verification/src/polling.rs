//! One pass over a snapshot of images: where it starts, in what order it goes
//! round, and how the fragment limit is spent on the way.

use crate::recorder::{PollCall, PollRecorder};
use vstd::prelude::*;

verus! {

/// Where a pass over `length` items starts when the round-robin index stands
/// at `index`.
pub open spec fn start_of(index: nat, length: nat) -> nat {
    if index >= length {
        0
    } else {
        index
    }
}

/// The round-robin index that such a pass leaves behind.
pub open spec fn index_after(index: nat, length: nat) -> nat {
    if index >= length {
        0
    } else {
        index + 1
    }
}

/// The item that comes in `step`-th place, counted from zero, when a pass over
/// `length` items starts at `start`: up to the end, then on from the front.
pub open spec fn visited(start: int, length: int, step: int) -> int {
    if start + step < length {
        start + step
    } else {
        start + step - length
    }
}

/// What the counts that `calls` returned add up to.
pub open spec fn total<T>(calls: Seq<PollCall<T>>) -> int
    decreases calls.len(),
{
    if calls.len() == 0 {
        0
    } else {
        total(calls.drop_last()) + calls.last().count
    }
}

/// The call in `step`-th place was made while the limit was not used up, on the
/// item whose turn it was, and was allowed what was left of the limit.
pub open spec fn comes_in_turn<T>(
    items: Seq<T>,
    start: int,
    limit: i32,
    calls: Seq<PollCall<T>>,
    step: int,
) -> bool {
    let before = total(calls.take(step));
    &&& before < limit
    &&& calls[step].item == items[visited(start, items.len() as int, step)]
    &&& calls[step].left == limit - before
}

/// The call in `step`-th place came in turn and was one of `kind`.
pub open spec fn is_turn<T, F: FnMut(&T, i32) -> i32>(
    items: Seq<T>,
    start: int,
    limit: i32,
    kind: F,
    calls: Seq<PollCall<T>>,
    step: int,
) -> bool {
    let call = calls[step];
    &&& comes_in_turn(items, start, limit, calls, step)
    &&& call_ensures(kind, (&call.item, call.left), call.count)
}

/// `calls` are the first calls of a pass, in order.
pub open spec fn pass_begun<T, F: FnMut(&T, i32) -> i32>(
    items: Seq<T>,
    start: int,
    limit: i32,
    kind: F,
    calls: Seq<PollCall<T>>,
) -> bool {
    &&& calls.len() <= items.len()
    &&& forall|step: int|
        0 <= step < calls.len() ==> #[trigger] is_turn(items, start, limit, kind, calls, step)
}

/// A pass is over once the limit is used up or every item has had its turn.
pub open spec fn pass_over<T>(length: nat, limit: i32, calls: Seq<PollCall<T>>) -> bool {
    total(calls) >= limit || calls.len() == length
}

/// `calls` go once round, in order, for as long as the limit is not used up, and
/// `read` is what they read together, whatever functions they called.
pub open spec fn is_round<T>(
    items: Seq<T>,
    start: int,
    limit: i32,
    calls: Seq<PollCall<T>>,
    read: i32,
) -> bool {
    &&& calls.len() <= items.len()
    &&& forall|step: int|
        0 <= step < calls.len() ==> #[trigger] comes_in_turn(items, start, limit, calls, step)
    &&& pass_over(items.len(), limit, calls)
    &&& read == total(calls)
}

/// `calls` are all the calls of one pass, in order, and `read` is what they
/// read together.
pub open spec fn is_pass<T, F: FnMut(&T, i32) -> i32>(
    items: Seq<T>,
    start: int,
    limit: i32,
    kind: F,
    calls: Seq<PollCall<T>>,
    read: i32,
) -> bool {
    &&& pass_begun(items, start, limit, kind, calls)
    &&& pass_over(items.len(), limit, calls)
    &&& read == total(calls)
}

/// A pass goes once round.
pub proof fn lemma_pass_is_round<T, F: FnMut(&T, i32) -> i32>(
    items: Seq<T>,
    start: int,
    limit: i32,
    kind: F,
    calls: Seq<PollCall<T>>,
    read: i32,
)
    requires
        is_pass(items, start, limit, kind, calls, read),
    ensures
        is_round(items, start, limit, calls, read),
{
    assert forall|step: int| 0 <= step < calls.len() implies #[trigger] comes_in_turn(
        items,
        start,
        limit,
        calls,
        step,
    ) by {
        assert(is_turn(items, start, limit, kind, calls, step));
    }
}

/// After `calls`, the next call of the pass is allowed, and neither what is
/// left for it nor the sum that it makes runs out of `i32`.
pub open spec fn turn_fits<T, F: FnMut(&T, i32) -> i32>(
    items: Seq<T>,
    start: int,
    limit: i32,
    kind: F,
    calls: Seq<PollCall<T>>,
) -> bool {
    let item = items[visited(start, items.len() as int, calls.len() as int)];
    let left = limit - total(calls);
    &&& left <= i32::MAX
    &&& call_requires(kind, (&item, left as i32))
    &&& forall|count: i32| #[trigger]
        call_ensures(kind, (&item, left as i32), count) ==> i32::MIN <= total(calls) + count
            <= i32::MAX
}

/// Every call with something left of the limit is allowed, and returns no
/// negative count, nor one that carries the sum past `i32::MAX`.
pub open spec fn counts_fit<T, F: FnMut(&T, i32) -> i32>(
    items: Seq<T>,
    limit: i32,
    kind: F,
) -> bool {
    &&& forall|i: int, left: i32|
        0 <= i < items.len() && 0 < left <= limit ==> #[trigger] call_requires(
            kind,
            (&items[i], left),
        )
    &&& forall|i: int, left: i32, count: i32|
        0 <= i < items.len() && 0 < left <= limit && #[trigger] call_ensures(
            kind,
            (&items[i], left),
            count,
        ) ==> 0 <= count <= i32::MAX - (limit - left)
}

/// However a pass goes, each of its calls is allowed and no sum overflows.
/// Where the counts fit one by one, that holds of itself.
pub open spec fn pass_fits<T, F: FnMut(&T, i32) -> i32>(
    items: Seq<T>,
    start: int,
    limit: i32,
    kind: F,
) -> bool {
    ||| counts_fit(items, limit, kind)
    ||| forall|calls: Seq<PollCall<T>>| #[trigger]
        pass_begun(items, start, limit, kind, calls) && !pass_over(items.len(), limit, calls)
            ==> turn_fits(items, start, limit, kind, calls)
}

proof fn lemma_pass_shorter<T, F: FnMut(&T, i32) -> i32>(
    items: Seq<T>,
    start: int,
    limit: i32,
    kind: F,
    calls: Seq<PollCall<T>>,
)
    requires
        pass_begun(items, start, limit, kind, calls),
        calls.len() > 0,
    ensures
        pass_begun(items, start, limit, kind, calls.drop_last()),
        is_turn(items, start, limit, kind, calls, calls.len() - 1),
        calls.take(calls.len() - 1) == calls.drop_last(),
{
    let shorter = calls.drop_last();
    assert forall|step: int| 0 <= step < shorter.len() implies #[trigger] is_turn(
        items,
        start,
        limit,
        kind,
        shorter,
        step,
    ) by {
        assert(is_turn(items, start, limit, kind, calls, step));
        assert(shorter.take(step) =~= calls.take(step));
    }
    assert(calls.take(calls.len() - 1) =~= shorter);
}

/// Where the counts fit one by one, the sum of a pass is never negative.
proof fn lemma_total_not_negative<T, F: FnMut(&T, i32) -> i32>(
    items: Seq<T>,
    start: int,
    limit: i32,
    kind: F,
    calls: Seq<PollCall<T>>,
)
    requires
        0 <= start <= items.len(),
        counts_fit(items, limit, kind),
        pass_begun(items, start, limit, kind, calls),
    ensures
        0 <= total(calls),
    decreases calls.len(),
{
    if calls.len() > 0 {
        let last = calls.len() - 1;
        lemma_pass_shorter(items, start, limit, kind, calls);
        lemma_total_not_negative(items, start, limit, kind, calls.drop_last());
        let i = visited(start, items.len() as int, last);
        assert(call_ensures(kind, (&items[i], calls[last].left), calls[last].count));
    }
}

proof fn lemma_turn_fits<T, F: FnMut(&T, i32) -> i32>(
    items: Seq<T>,
    start: int,
    limit: i32,
    kind: F,
    calls: Seq<PollCall<T>>,
)
    requires
        0 <= start <= items.len(),
        pass_fits(items, start, limit, kind),
        pass_begun(items, start, limit, kind, calls),
        !pass_over(items.len(), limit, calls),
    ensures
        turn_fits(items, start, limit, kind, calls),
{
    if counts_fit(items, limit, kind) {
        lemma_total_not_negative(items, start, limit, kind, calls);
        let i = visited(start, items.len() as int, calls.len() as int);
        let left = (limit - total(calls)) as i32;
        assert(call_requires(kind, (&items[i], left)));
    }
}

proof fn lemma_pass_push<T, F: FnMut(&T, i32) -> i32>(
    items: Seq<T>,
    start: int,
    limit: i32,
    kind: F,
    calls: Seq<PollCall<T>>,
    call: PollCall<T>,
)
    requires
        pass_begun(items, start, limit, kind, calls),
        !pass_over(items.len(), limit, calls),
        call.item == items[visited(start, items.len() as int, calls.len() as int)],
        call.left == limit - total(calls),
        call_ensures(kind, (&call.item, call.left), call.count),
    ensures
        pass_begun(items, start, limit, kind, calls.push(call)),
        total(calls.push(call)) == total(calls) + call.count,
{
    let longer = calls.push(call);
    assert forall|step: int| 0 <= step < longer.len() implies #[trigger] is_turn(
        items,
        start,
        limit,
        kind,
        longer,
        step,
    ) by {
        if step < calls.len() {
            assert(longer.take(step) =~= calls.take(step));
            assert(is_turn(items, start, limit, kind, calls, step));
        } else {
            assert(longer.take(step) =~= calls);
        }
    }
    assert(longer.drop_last() =~= calls);
}

/// Takes the next turn of the round-robin index: gives the place where a pass
/// over `length` items starts, and the index to keep for the pass after it.
pub fn begin_pass(index: usize, length: usize) -> (r: (usize, usize))
    ensures
        r.0 == start_of(index as nat, length as nat),
        r.1 == index_after(index as nat, length as nat),
{
    if index >= length {
        (0, 0)
    } else {
        (index, index + 1)
    }
}

/// Goes once round `items`, from `start` to the end and on from the front, and
/// calls `poll_kind` on each for as long as `fragment_limit` is not used up.
/// Makes no other call of it. Returns the sum of what the calls returned.
pub fn poll_from<T, F: FnMut(&T, i32) -> i32>(
    items: &Vec<T>,
    start: usize,
    fragment_limit: i32,
    poll_kind: &mut PollRecorder<T, F>,
) -> (fragments_read: i32)
    requires
        start <= items@.len(),
        pass_fits(items@, start as int, fragment_limit, old(poll_kind).kind()),
    ensures
        final(poll_kind).kind() == old(poll_kind).kind(),
        exists|made: Seq<PollCall<T>>|
            {
                &&& final(poll_kind).calls() == old(poll_kind).calls() + made
                &&& #[trigger] is_pass(
                    items@,
                    start as int,
                    fragment_limit,
                    old(poll_kind).kind(),
                    made,
                    fragments_read,
                )
            },
{
    let ghost kind = poll_kind.kind();
    let ghost before = poll_kind.calls();
    let ghost mut made: Seq<PollCall<T>> = Seq::empty();
    assert(before + made =~= before);

    let length: usize = items.len();
    let until_end: usize = length - start;
    let mut fragments_read: i32 = 0;
    let mut step: usize = 0;
    while step < length
        invariant
            length == items@.len(),
            start <= length,
            until_end == length - start,
            step <= length,
            poll_kind.kind() == kind,
            poll_kind.calls() == before + made,
            fragments_read == total(made),
            pass_fits(items@, start as int, fragment_limit, kind),
            pass_begun(items@, start as int, fragment_limit, kind, made),
            total(made) >= fragment_limit || made.len() == step,
        decreases length - step,
    {
        if fragments_read < fragment_limit {
            let index: usize = if step < until_end {
                start + step
            } else {
                step - until_end
            };
            proof {
                lemma_turn_fits(items@, start as int, fragment_limit, kind, made);
            }
            let left: i32 = fragment_limit - fragments_read;
            let count: i32 = poll_kind.call(&items[index], left);
            proof {
                let call = PollCall { item: items@[index as int], left, count };
                lemma_pass_push(items@, start as int, fragment_limit, kind, made, call);
                assert(before + made.push(call) =~= (before + made).push(call));
                made = made.push(call);
            }
            fragments_read += count;
        }
        step += 1;
    }
    assert(is_pass(items@, start as int, fragment_limit, kind, made, fragments_read));
    fragments_read
}

} // verus!
