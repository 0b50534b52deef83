//! What each operation does, stated of what is handed in and what comes back.
//!
//! A law here takes the arguments and the result of a call, and says of them, by
//! the fields of the state and the entries of the record, what the operation is
//! for.

use crate::channel::ChannelUri;
use crate::conductor::{channel_status, destination, ChannelStatus, ConductorRequest};
use crate::error::{AeronError, GenericError, IllegalStateError};
use crate::image::{position_by_correlation_id, position_by_session_id, Image, Index};
use crate::polling::{begin_pass, poll_from};
use crate::recorder::{
    PollCall, PollRecorder, ProbeCall, ProbeRecorder, ReportEvent, ReportRecorder,
};
use crate::snapshot::{appended, position_of, report_each, sum_over, without};
use crate::subscription::{Subscription, SubscriptionView};
use std::sync::Arc;
use vstd::prelude::*;

verus! {

proof fn lemma_goes_round(start: int, length: int, step: int)
    requires
        0 <= start <= length,
        0 <= step < length,
    ensures
        crate::polling::visited(start, length, step) == (start + step) % length,
{
    if start + step < length {
        vstd::arithmetic::div_mod::lemma_fundamental_div_mod_converse(
            start + step,
            length,
            0,
            start + step,
        );
    } else {
        vstd::arithmetic::div_mod::lemma_fundamental_div_mod_converse(
            start + step,
            length,
            1,
            start + step - length,
        );
    }
}

proof fn lemma_pass<T, F: FnMut(&T, i32) -> i32>(
    items: Seq<T>,
    start: int,
    limit: i32,
    kind: F,
    calls: Seq<PollCall<T>>,
    read: i32,
)
    requires
        0 <= start <= items.len(),
        crate::polling::is_pass(items, start, limit, kind, calls, read),
    ensures
        ({
            let made = calls;
            let length = items.len() as int;
            let first = start;
            &&& made.len() <= length
            &&& forall|k: int|
                0 <= k < made.len() ==> {
                    &&& (#[trigger] made[k]).item == items[(first + k) % length]
                    &&& made[k].left > 0
                    &&& call_ensures(kind, (&made[k].item, made[k].left), made[k].count)
                }
            &&& made.len() > 0 ==> made[0].left == limit
            &&& forall|k: int, next: int|
                0 <= k < made.len() - 1 && next == k + 1 ==> (#[trigger] made[next]).left == (
                #[trigger] made[k]).left - made[k].count
            &&& made.len() == 0 ==> read == 0
            &&& made.len() > 0 ==> read == limit - made.last().left + made.last().count
            &&& read < limit ==> made.len() == length
        }),
{
    assert forall|k: int| 0 <= k < calls.len() implies {
        &&& (#[trigger] calls[k]).item == items[(start + k) % (items.len() as int)]
        &&& calls[k].left > 0
        &&& calls[k].left == limit - crate::polling::total(calls.take(k))
        &&& call_ensures(kind, (&calls[k].item, calls[k].left), calls[k].count)
    } by {
        assert(crate::polling::is_turn(items, start, limit, kind, calls, k));
        lemma_goes_round(start, items.len() as int, k);
    }
    assert forall|k: int, next: int| 0 <= k < calls.len() - 1 && next == k + 1 implies (
    #[trigger] calls[next]).left == (#[trigger] calls[k]).left - calls[k].count by {
        assert(calls.take(next).drop_last() =~= calls.take(k));
    }
    if calls.len() > 0 {
        assert(calls.take(0) =~= Seq::empty());
        assert(calls.take(calls.len() - 1) =~= calls.drop_last());
    }
}

/// A pass over a list goes round it from `start`, no further than once: the call
/// in `k`-th place is on the item `k` places on, past the end from the front. The
/// first call is allowed the whole limit, and each one after it what the one
/// before left over, which is always something. The pass reads what the calls
/// used up, and ends early only where that has reached the limit.
pub proof fn law_poll_from<T, F: FnMut(&T, i32) -> i32>(
    items: &Vec<T>,
    start: usize,
    fragment_limit: i32,
    poll_kind: &mut PollRecorder<T, F>,
    fragments_read: i32,
)
    requires
        start <= items@.len(),
        call_ensures(poll_from, (items, start, fragment_limit, poll_kind), fragments_read),
    ensures
        final(poll_kind).kind() == old(poll_kind).kind(),
        old(poll_kind).calls().is_prefix_of(final(poll_kind).calls()),
        ({
            let made = final(poll_kind).calls().skip(old(poll_kind).calls().len() as int);
            let length = items@.len() as int;
            let first = start as int;
            &&& made.len() <= length
            &&& forall|k: int|
                0 <= k < made.len() ==> {
                    &&& (#[trigger] made[k]).item == items@[(first + k) % length]
                    &&& made[k].left > 0
                    &&& call_ensures(
                        old(poll_kind).kind(),
                        (&made[k].item, made[k].left),
                        made[k].count,
                    )
                }
            &&& made.len() > 0 ==> made[0].left == fragment_limit
            &&& forall|k: int, next: int|
                0 <= k < made.len() - 1 && next == k + 1 ==> (#[trigger] made[next]).left == (
                #[trigger] made[k]).left - made[k].count
            &&& made.len() == 0 ==> fragments_read == 0
            &&& made.len() > 0 ==> fragments_read == fragment_limit - made.last().left
                + made.last().count
            &&& fragments_read < fragment_limit ==> made.len() == length
        }),
{
    let made = choose|made: Seq<PollCall<T>>|
        {
            &&& final(poll_kind).calls() == old(poll_kind).calls() + made
            &&& #[trigger] crate::polling::is_pass(
                items@,
                start as int,
                fragment_limit,
                old(poll_kind).kind(),
                made,
                fragments_read,
            )
        };
    assert(final(poll_kind).calls().skip(old(poll_kind).calls().len() as int) =~= made);
    lemma_pass(
        items@,
        start as int,
        fragment_limit,
        old(poll_kind).kind(),
        made,
        fragments_read,
    );
}

/// A poll goes round the images, no further than once, from the one that the
/// round-robin index points at, or from the first where it points past the end,
/// and turns the index on; it changes nothing else. The first call is allowed the
/// whole limit, and each one after it what the one before left over, which is
/// always something. The poll reads what the calls used up, and ends early only
/// where that has reached the limit.
pub proof fn law_poll<F: FnMut(&Image, i32) -> i32>(
    subscription: &mut Subscription,
    image_poll: &mut PollRecorder<Image, F>,
    fragment_limit: i32,
    fragments_read: i32,
)
    requires
        call_ensures(
            Subscription::poll,
            (subscription, image_poll, fragment_limit),
            fragments_read,
        ),
    ensures
        final(subscription)@ == (SubscriptionView {
            round_robin_index: if old(subscription)@.round_robin_index
                < old(subscription)@.images.len() {
                old(subscription)@.round_robin_index + 1
            } else {
                0
            },
            ..old(subscription)@
        }),
        final(image_poll).kind() == old(image_poll).kind(),
        old(image_poll).calls().is_prefix_of(final(image_poll).calls()),
        ({
            let made = final(image_poll).calls().skip(old(image_poll).calls().len() as int);
            let length = old(subscription)@.images.len() as int;
            let first = if old(subscription)@.round_robin_index < length {
                old(subscription)@.round_robin_index as int
            } else {
                0
            };
            &&& made.len() <= length
            &&& forall|k: int|
                0 <= k < made.len() ==> {
                    &&& (#[trigger] made[k]).item == old(subscription)@.images[(first + k) % length]
                    &&& made[k].left > 0
                    &&& call_ensures(
                        old(image_poll).kind(),
                        (&made[k].item, made[k].left),
                        made[k].count,
                    )
                }
            &&& made.len() > 0 ==> made[0].left == fragment_limit
            &&& forall|k: int, next: int|
                0 <= k < made.len() - 1 && next == k + 1 ==> (#[trigger] made[next]).left == (
                #[trigger] made[k]).left - made[k].count
            &&& made.len() == 0 ==> fragments_read == 0
            &&& made.len() > 0 ==> fragments_read == fragment_limit - made.last().left
                + made.last().count
            &&& fragments_read < fragment_limit ==> made.len() == length
        }),
{
    let state = old(subscription)@;
    let made = choose|made: Seq<PollCall<Image>>|
        {
            &&& final(image_poll).calls() == old(image_poll).calls() + made
            &&& #[trigger] state.passed(
                fragment_limit,
                old(image_poll).kind(),
                made,
                fragments_read,
            )
        };
    assert(final(image_poll).calls().skip(old(image_poll).calls().len() as int) =~= made);
    lemma_pass(
        state.images,
        state.start(),
        fragment_limit,
        old(image_poll).kind(),
        made,
        fragments_read,
    );
}

/// A controlled poll does as a poll does.
pub proof fn law_controlled_poll<F: FnMut(&Image, i32) -> i32>(
    subscription: &mut Subscription,
    image_poll: &mut PollRecorder<Image, F>,
    fragment_limit: i32,
    fragments_read: i32,
)
    requires
        call_ensures(
            Subscription::controlled_poll,
            (subscription, image_poll, fragment_limit),
            fragments_read,
        ),
    ensures
        final(subscription)@ == (SubscriptionView {
            round_robin_index: if old(subscription)@.round_robin_index
                < old(subscription)@.images.len() {
                old(subscription)@.round_robin_index + 1
            } else {
                0
            },
            ..old(subscription)@
        }),
        final(image_poll).kind() == old(image_poll).kind(),
        old(image_poll).calls().is_prefix_of(final(image_poll).calls()),
        ({
            let made = final(image_poll).calls().skip(old(image_poll).calls().len() as int);
            let length = old(subscription)@.images.len() as int;
            let first = if old(subscription)@.round_robin_index < length {
                old(subscription)@.round_robin_index as int
            } else {
                0
            };
            &&& made.len() <= length
            &&& forall|k: int|
                0 <= k < made.len() ==> {
                    &&& (#[trigger] made[k]).item == old(subscription)@.images[(first + k) % length]
                    &&& made[k].left > 0
                    &&& call_ensures(
                        old(image_poll).kind(),
                        (&made[k].item, made[k].left),
                        made[k].count,
                    )
                }
            &&& made.len() > 0 ==> made[0].left == fragment_limit
            &&& forall|k: int, next: int|
                0 <= k < made.len() - 1 && next == k + 1 ==> (#[trigger] made[next]).left == (
                #[trigger] made[k]).left - made[k].count
            &&& made.len() == 0 ==> fragments_read == 0
            &&& made.len() > 0 ==> fragments_read == fragment_limit - made.last().left
                + made.last().count
            &&& fragments_read < fragment_limit ==> made.len() == length
        }),
{
    let state = old(subscription)@;
    let made = choose|made: Seq<PollCall<Image>>|
        {
            &&& final(image_poll).calls() == old(image_poll).calls() + made
            &&& #[trigger] state.passed(
                fragment_limit,
                old(image_poll).kind(),
                made,
                fragments_read,
            )
        };
    assert(final(image_poll).calls().skip(old(image_poll).calls().len() as int) =~= made);
    lemma_pass(
        state.images,
        state.start(),
        fragment_limit,
        old(image_poll).kind(),
        made,
        fragments_read,
    );
}

/// A pass starts where the index points, or at the front where it points past
/// the end; the index then goes on by one, or back to the front.
pub proof fn law_begin_pass(index: usize, length: usize, r: (usize, usize))
    requires
        call_ensures(begin_pass, (index, length), r),
    ensures
        index < length ==> r.0 == index && r.1 == index + 1,
        index >= length ==> r.0 == 0 && r.1 == 0,
{
}

proof fn lemma_total_is_sum<T>(calls: Seq<PollCall<T>>)
    ensures
        crate::polling::total(calls) == calls.fold_left(
            0int,
            |sum: int, call: PollCall<T>| sum + call.count,
        ),
    decreases calls.len(),
{
    if calls.len() > 0 {
        lemma_total_is_sum(calls.drop_last());
    }
}

/// A sum over a list calls on every item once, in order, each with the whole
/// limit, and is the sum of what the calls returned.
pub proof fn law_sum_over<T, F: FnMut(&T, i32) -> i32>(
    items: &Vec<T>,
    limit: i32,
    measure: &mut PollRecorder<T, F>,
    sum: i64,
)
    requires
        call_ensures(sum_over, (items, limit, measure), sum),
    ensures
        final(measure).kind() == old(measure).kind(),
        old(measure).calls().is_prefix_of(final(measure).calls()),
        ({
            let made = final(measure).calls().skip(old(measure).calls().len() as int);
            &&& made.len() == items@.len()
            &&& forall|i: int|
                0 <= i < items@.len() ==> {
                    &&& (#[trigger] made[i]).item == items@[i]
                    &&& made[i].left == limit
                    &&& call_ensures(old(measure).kind(), (&items@[i], limit), made[i].count)
                }
            &&& sum == made.fold_left(0int, |sum: int, call: PollCall<T>| sum + call.count)
        }),
{
    let kind = old(measure).kind();
    let made = choose|made: Seq<PollCall<T>>|
        {
            &&& final(measure).calls() == old(measure).calls() + made
            &&& #[trigger] crate::snapshot::measured(items@, limit, kind, made)
            &&& made.len() == items@.len()
            &&& sum == crate::polling::total(made)
        };
    assert(final(measure).calls().skip(old(measure).calls().len() as int) =~= made);
    assert forall|i: int| 0 <= i < items@.len() implies {
        &&& (#[trigger] made[i]).item == items@[i]
        &&& made[i].left == limit
        &&& call_ensures(kind, (&items@[i], limit), made[i].count)
    } by {
        assert(crate::snapshot::is_measure(items@, limit, kind, made, i));
    }
    lemma_total_is_sum(made);
}

/// A block poll calls on every image once, in order, each with the whole limit,
/// and returns the sum of the lengths that the calls returned.
pub proof fn law_block_poll<F: FnMut(&Image, i32) -> i32>(
    subscription: &Subscription,
    image_block_poll: &mut PollRecorder<Image, F>,
    block_length_limit: i32,
    bytes_consumed: i64,
)
    requires
        call_ensures(
            Subscription::block_poll,
            (subscription, image_block_poll, block_length_limit),
            bytes_consumed,
        ),
    ensures
        final(image_block_poll).kind() == old(image_block_poll).kind(),
        old(image_block_poll).calls().is_prefix_of(final(image_block_poll).calls()),
        ({
            let made = final(image_block_poll).calls().skip(
                old(image_block_poll).calls().len() as int,
            );
            let images = subscription@.images;
            &&& made.len() == images.len()
            &&& forall|i: int|
                0 <= i < images.len() ==> {
                    &&& (#[trigger] made[i]).item == images[i]
                    &&& made[i].left == block_length_limit
                    &&& call_ensures(
                        old(image_block_poll).kind(),
                        (&images[i], block_length_limit),
                        made[i].count,
                    )
                }
            &&& bytes_consumed == made.fold_left(
                0int,
                |sum: int, call: PollCall<Image>| sum + call.count,
            )
        }),
{
    let kind = old(image_block_poll).kind();
    let images = subscription@.images;
    let made = choose|made: Seq<PollCall<Image>>|
        {
            &&& final(image_block_poll).calls() == old(image_block_poll).calls() + made
            &&& #[trigger] crate::snapshot::measured(images, block_length_limit, kind, made)
            &&& made.len() == images.len()
            &&& bytes_consumed == crate::polling::total(made)
        };
    assert(final(image_block_poll).calls().skip(old(image_block_poll).calls().len() as int)
        =~= made);
    assert forall|i: int| 0 <= i < images.len() implies {
        &&& (#[trigger] made[i]).item == images[i]
        &&& made[i].left == block_length_limit
        &&& call_ensures(kind, (&images[i], block_length_limit), made[i].count)
    } by {
        assert(crate::snapshot::is_measure(images, block_length_limit, kind, made, i));
    }
    lemma_total_is_sum(made);
}

/// A search asks one item after the other, from the front, and ends at the first
/// that gives the wanted answer, whose place it returns; where it returns none it
/// has asked every item and got the other answer of each.
pub proof fn law_position_of<T, F: FnMut(&T) -> bool>(
    items: &Vec<T>,
    probe: &mut ProbeRecorder<T, F>,
    answer: bool,
    position: Option<usize>,
)
    requires
        call_ensures(position_of, (items, probe, answer), position),
    ensures
        final(probe).probe() == old(probe).probe(),
        old(probe).calls().is_prefix_of(final(probe).calls()),
        ({
            let made = final(probe).calls().skip(old(probe).calls().len() as int);
            &&& made.len() == match position {
                Some(index) => index + 1,
                None => items@.len() as int,
            }
            &&& made.len() <= items@.len()
            &&& forall|i: int|
                0 <= i < made.len() ==> {
                    &&& (#[trigger] made[i]).item == items@[i]
                    &&& made[i].answer == (answer == (position == Some(i as usize)))
                    &&& call_ensures(old(probe).probe(), (&items@[i],), made[i].answer)
                }
        }),
{
    let question = old(probe).probe();
    let made = choose|made: Seq<ProbeCall<T>>|
        {
            &&& final(probe).calls() == old(probe).calls() + made
            &&& #[trigger] crate::snapshot::is_search(
                items@,
                question,
                answer,
                made,
                crate::snapshot::place(position),
            )
        };
    assert(final(probe).calls().skip(old(probe).calls().len() as int) =~= made);
    assert forall|i: int| 0 <= i < made.len() implies {
        &&& (#[trigger] made[i]).item == items@[i]
        &&& call_ensures(question, (&items@[i],), made[i].answer)
    } by {
        assert(crate::snapshot::is_question(items@, question, made, i));
    }
}

/// A subscription is connected exactly where an image answered that it is not
/// closed. The images are asked one after the other, from the front, and none
/// after that one.
pub proof fn law_is_connected<F: FnMut(&Image) -> bool>(
    subscription: &Subscription,
    is_image_closed: &mut ProbeRecorder<Image, F>,
    connected: bool,
)
    requires
        call_ensures(Subscription::is_connected, (subscription, is_image_closed), connected),
    ensures
        final(is_image_closed).probe() == old(is_image_closed).probe(),
        old(is_image_closed).calls().is_prefix_of(final(is_image_closed).calls()),
        ({
            let made = final(is_image_closed).calls().skip(
                old(is_image_closed).calls().len() as int,
            );
            let images = subscription@.images;
            &&& made.len() <= images.len()
            &&& forall|i: int|
                0 <= i < made.len() ==> {
                    &&& (#[trigger] made[i]).item == images[i]
                    &&& made[i].answer == !(connected && i == made.len() - 1)
                    &&& call_ensures(
                        old(is_image_closed).probe(),
                        (&images[i],),
                        made[i].answer,
                    )
                }
            &&& if connected {
                made.len() > 0
            } else {
                made.len() == images.len()
            }
        }),
{
    let probe = old(is_image_closed).probe();
    let images = subscription@.images;
    let (made, position) = choose|made: Seq<ProbeCall<Image>>, position: Option<int>|
        {
            &&& final(is_image_closed).calls() == old(is_image_closed).calls() + made
            &&& #[trigger] crate::snapshot::is_search(images, probe, false, made, position)
            &&& connected == position is Some
        };
    assert(final(is_image_closed).calls().skip(old(is_image_closed).calls().len() as int)
        =~= made);
    assert forall|i: int| 0 <= i < made.len() implies {
        &&& (#[trigger] made[i]).item == images[i]
        &&& call_ensures(probe, (&images[i],), made[i].answer)
    } by {
        assert(crate::snapshot::is_question(images, probe, made, i));
    }
}

/// The questions among `events`, in order.
pub open spec fn questions<T>(events: Seq<ReportEvent<T>>) -> Seq<ProbeCall<T>> {
    events.filter_map(
        |event: ReportEvent<T>| match event {
            ReportEvent::Asked { item, answer } => Some(ProbeCall { item, answer }),
            ReportEvent::Told { .. } => None,
        },
    )
}

/// The items that `events` told of, in order.
pub open spec fn words<T>(events: Seq<ReportEvent<T>>) -> Seq<T> {
    events.filter_map(
        |event: ReportEvent<T>| match event {
            ReportEvent::Asked { .. } => None,
            ReportEvent::Told { item } => Some(item),
        },
    )
}

/// The items of `calls` that answered `true`, in order.
pub open spec fn answered_true<T>(calls: Seq<ProbeCall<T>>) -> Seq<T> {
    calls.filter(|call: ProbeCall<T>| call.answer).map_values(|call: ProbeCall<T>| call.item)
}

proof fn lemma_questions_push<T>(events: Seq<ReportEvent<T>>, event: ReportEvent<T>)
    ensures
        questions(events.push(event)) == match event {
            ReportEvent::Asked { item, answer } => questions(events).push(
                ProbeCall { item, answer },
            ),
            ReportEvent::Told { .. } => questions(events),
        },
        words(events.push(event)) == match event {
            ReportEvent::Asked { .. } => words(events),
            ReportEvent::Told { item } => words(events).push(item),
        },
{
    assert(events.push(event).drop_last() =~= events);
}

proof fn lemma_answered_true_push<T>(calls: Seq<ProbeCall<T>>, call: ProbeCall<T>)
    ensures
        answered_true(calls.push(call)) == if call.answer {
            answered_true(calls).push(call.item)
        } else {
            answered_true(calls)
        },
{
    reveal(Seq::filter);
    assert(calls.push(call).drop_last() =~= calls);
    assert(answered_true(calls.push(call)) =~= if call.answer {
        answered_true(calls).push(call.item)
    } else {
        answered_true(calls)
    });
}

proof fn lemma_report<T>(asked: Seq<ProbeCall<T>>)
    ensures
        ({
            let made = crate::snapshot::report_of(asked);
            &&& questions(made) == asked
            &&& words(made) == answered_true(asked)
            &&& crate::snapshot::affirmed(asked) == answered_true(asked)
            &&& forall|k: int|
                0 <= k < made.len() ==> (#[trigger] made[k] matches ReportEvent::Told { item } ==> k
                    > 0 && made[k - 1] == (ReportEvent::Asked { item, answer: true }))
        }),
    decreases asked.len(),
{
    if asked.len() > 0 {
        let last = asked.last();
        let before = asked.drop_last();
        let events = crate::snapshot::report_of(before);
        let question = ReportEvent::Asked { item: last.item, answer: last.answer };
        let word = ReportEvent::Told { item: last.item };
        lemma_report(before);
        assert(before.push(last) =~= asked);
        lemma_answered_true_push(before, last);
        lemma_questions_push(events, question);
        lemma_questions_push(events.push(question), word);
    } else {
        reveal(Seq::filter);
        assert(asked =~= Seq::empty());
        assert(answered_true(asked) =~= Seq::empty());
    }
}

/// A report asks every item once, in order. It tells of exactly the items that
/// answered `true`, in order, of each right after its answer, and counts them.
pub proof fn law_report_each<T, F: FnMut(&T) -> bool, H: FnMut(&T)>(
    items: &Vec<T>,
    report: &mut ReportRecorder<T, F, H>,
    count: usize,
)
    requires
        call_ensures(report_each, (items, report), count),
    ensures
        final(report).probe() == old(report).probe(),
        final(report).handler() == old(report).handler(),
        old(report).events().is_prefix_of(final(report).events()),
        ({
            let made = final(report).events().skip(old(report).events().len() as int);
            let asked = questions(made);
            let told = words(made);
            &&& asked.len() == items@.len()
            &&& forall|i: int|
                0 <= i < asked.len() ==> {
                    &&& (#[trigger] asked[i]).item == items@[i]
                    &&& call_ensures(old(report).probe(), (&items@[i],), asked[i].answer)
                }
            &&& told == answered_true(asked)
            &&& forall|i: int|
                0 <= i < told.len() ==> #[trigger] call_ensures(
                    old(report).handler(),
                    (&told[i],),
                    (),
                )
            &&& count == answered_true(asked).len()
            &&& forall|k: int|
                0 <= k < made.len() ==> (#[trigger] made[k] matches ReportEvent::Told { item } ==> k
                    > 0 && made[k - 1] == (ReportEvent::Asked { item, answer: true }))
        }),
{
    let items = items@;
    let asked = choose|asked: Seq<ProbeCall<T>>|
        {
            &&& final(report).events() == old(report).events() + crate::snapshot::report_of(asked)
            &&& #[trigger] crate::snapshot::is_report(
                items,
                old(report).probe(),
                old(report).handler(),
                asked,
            )
            &&& count == crate::snapshot::affirmed(asked).len()
        };
    assert(final(report).events().skip(old(report).events().len() as int)
        =~= crate::snapshot::report_of(asked));
    lemma_report(asked);
    assert forall|i: int| 0 <= i < asked.len() implies {
        &&& (#[trigger] asked[i]).item == items[i]
        &&& call_ensures(old(report).probe(), (&items[i],), asked[i].answer)
    } by {
        assert(crate::snapshot::is_question(items, old(report).probe(), asked, i));
    }
}

/// A poll for ends of streams asks every image once, in order. It tells of
/// exactly the images that answered `true`, in order, of each right after its
/// answer, and counts them, in the low bits that an `i32` holds.
pub proof fn law_poll_end_of_streams<F: FnMut(&Image) -> bool, H: FnMut(&Image)>(
    subscription: &Subscription,
    report: &mut ReportRecorder<Image, F, H>,
    count: i32,
)
    requires
        call_ensures(Subscription::poll_end_of_streams, (subscription, report), count),
    ensures
        final(report).probe() == old(report).probe(),
        final(report).handler() == old(report).handler(),
        old(report).events().is_prefix_of(final(report).events()),
        ({
            let made = final(report).events().skip(old(report).events().len() as int);
            let asked = questions(made);
            let told = words(made);
            &&& asked.len() == subscription@.images.len()
            &&& forall|i: int|
                0 <= i < asked.len() ==> {
                    &&& (#[trigger] asked[i]).item == subscription@.images[i]
                    &&& call_ensures(
                        old(report).probe(),
                        (&subscription@.images[i],),
                        asked[i].answer,
                    )
                }
            &&& told == answered_true(asked)
            &&& forall|i: int|
                0 <= i < told.len() ==> #[trigger] call_ensures(
                    old(report).handler(),
                    (&told[i],),
                    (),
                )
            &&& count == answered_true(asked).len() as i32
            &&& forall|k: int|
                0 <= k < made.len() ==> (#[trigger] made[k] matches ReportEvent::Told { item } ==> k
                    > 0 && made[k - 1] == (ReportEvent::Asked { item, answer: true }))
        }),
{
    let items = subscription@.images;
    let asked = choose|asked: Seq<ProbeCall<Image>>|
        {
            &&& final(report).events() == old(report).events() + crate::snapshot::report_of(asked)
            &&& #[trigger] crate::snapshot::is_report(
                items,
                old(report).probe(),
                old(report).handler(),
                asked,
            )
            &&& count == crate::snapshot::affirmed(asked).len() as i32
        };
    assert(final(report).events().skip(old(report).events().len() as int)
        =~= crate::snapshot::report_of(asked));
    lemma_report(asked);
    assert forall|i: int| 0 <= i < asked.len() implies {
        &&& (#[trigger] asked[i]).item == items[i]
        &&& call_ensures(old(report).probe(), (&items[i],), asked[i].answer)
    } by {
        assert(crate::snapshot::is_question(items, old(report).probe(), asked, i));
    }
}

/// The image found for a session is of that session, with none of that session
/// before it; where none is found, no image is of that session.
pub proof fn law_image_by_session_id(
    subscription: &Subscription,
    session_id: i32,
    image: Option<Image>,
)
    requires
        call_ensures(Subscription::image_by_session_id, (subscription, session_id), image),
    ensures
        ({
            let images = subscription@.images;
            match image {
                Some(found) => exists|index: int|
                    {
                        &&& 0 <= index < images.len()
                        &&& #[trigger] images[index] == found
                        &&& found.session_id == session_id
                        &&& forall|i: int|
                            0 <= i < index ==> (#[trigger] images[i]).session_id != session_id
                    },
                None => forall|i: int|
                    0 <= i < images.len() ==> (#[trigger] images[i]).session_id != session_id,
            }
        }),
{
    crate::laws::law_session_lookup(subscription@, session_id);
}

/// The place found for a session is that of the first item of that session;
/// where none is found, no item is of that session.
pub proof fn law_position_by_session_id(
    images: &Vec<Image>,
    session_id: i32,
    position: Option<usize>,
)
    requires
        call_ensures(position_by_session_id, (images, session_id), position),
    ensures
        match position {
            Some(index) => {
                &&& index < images@.len()
                &&& images@[index as int].session_id == session_id
                &&& forall|i: int|
                    0 <= i < index ==> (#[trigger] images@[i]).session_id != session_id
            },
            None => forall|i: int|
                0 <= i < images@.len() ==> (#[trigger] images@[i]).session_id != session_id,
        },
{
    let ids = crate::image::session_ids(images@);
    ids.index_of_first_ensures(session_id);
    assert forall|i: int| 0 <= i < images@.len() implies (#[trigger] images@[i]).session_id
        == ids[i] by {}
}

/// The place found for a correlation id is that of the first item with that id;
/// where none is found, no item has that id.
pub proof fn law_position_by_correlation_id(
    images: &Vec<Image>,
    correlation_id: i64,
    position: Option<usize>,
)
    requires
        call_ensures(position_by_correlation_id, (images, correlation_id), position),
    ensures
        match position {
            Some(index) => {
                &&& index < images@.len()
                &&& images@[index as int].correlation_id == correlation_id
                &&& forall|i: int|
                    0 <= i < index ==> (#[trigger] images@[i]).correlation_id != correlation_id
            },
            None => forall|i: int|
                0 <= i < images@.len() ==> (#[trigger] images@[i]).correlation_id
                    != correlation_id,
        },
{
    let ids = crate::image::correlation_ids(images@);
    ids.index_of_first_ensures(correlation_id);
    assert forall|i: int| 0 <= i < images@.len() implies (#[trigger] images@[i]).correlation_id
        == ids[i] by {}
}

/// An image is there exactly where one with its id is attached.
pub proof fn law_has_image(subscription: &Subscription, correlation_id: i64, found: bool)
    requires
        call_ensures(Subscription::has_image, (subscription, correlation_id), found),
    ensures
        found <==> exists|i: int|
            0 <= i < subscription@.images.len() && (
            #[trigger] subscription@.images[i]).correlation_id == correlation_id,
{
    let images = subscription@.images;
    let ids = crate::image::correlation_ids(images);
    assert forall|i: int| 0 <= i < images.len() implies (#[trigger] images[i]).correlation_id
        == ids[i] by {}
    if found {
        let i = choose|i: int| 0 <= i < ids.len() && ids[i] == correlation_id;
        assert(images[i].correlation_id == correlation_id);
    }
}

/// The images can be counted, listed and taken by their place in the list.
pub proof fn law_listing(
    subscription: &Subscription,
    count: usize,
    images: Arc<Vec<Image>>,
    index: usize,
    image: Option<Image>,
)
    requires
        call_ensures(Subscription::image_count, (subscription,), count),
        call_ensures(Subscription::images, (subscription,), images),
        call_ensures(Subscription::image_by_index, (subscription, index), image),
    ensures
        count == subscription@.images.len(),
        images@ == subscription@.images,
        image is Some <==> index < count,
        image is Some ==> image == Some(images@[index as int]),
{
}

/// An image that is added comes last, and nothing else changes. The images as
/// they were are returned.
pub proof fn law_add_image(
    subscription: &mut Subscription,
    image: Image,
    old_images: Vec<Image>,
)
    requires
        call_ensures(Subscription::add_image, (subscription, image), old_images),
    ensures
        old_images@ == old(subscription)@.images,
        final(subscription)@ == (SubscriptionView {
            images: old(subscription)@.images + seq![image],
            ..old(subscription)@
        }),
{
    assert(old(subscription)@.images.push(image) =~= old(subscription)@.images + seq![image]);
}

/// A removal takes out the first image with the id, and it alone, closes that
/// image, and returns the images as they were with its place. Where no image has
/// the id nothing changes.
pub proof fn law_remove_image<C: FnOnce(&Image)>(
    subscription: &mut Subscription,
    correlation_id: i64,
    close_image: C,
    removed: Option<(Vec<Image>, Index)>,
)
    requires
        call_ensures(
            Subscription::remove_image,
            (subscription, correlation_id, close_image),
            removed,
        ),
    ensures
        ({
            let images = old(subscription)@.images;
            match removed {
                Some((old_images, place)) => exists|index: int|
                    {
                        &&& 0 <= index < images.len()
                        &&& (#[trigger] images[index]).correlation_id == correlation_id
                        &&& forall|i: int|
                            0 <= i < index ==> (#[trigger] images[i]).correlation_id
                                != correlation_id
                        &&& call_ensures(close_image, (&images[index],), ())
                        &&& old_images@ == images
                        &&& place == index as i32
                        &&& final(subscription)@ == (SubscriptionView {
                            images: images.take(index) + images.skip(index + 1),
                            ..old(subscription)@
                        })
                    },
                None => {
                    &&& forall|i: int|
                        0 <= i < images.len() ==> (#[trigger] images[i]).correlation_id
                            != correlation_id
                    &&& final(subscription)@ == old(subscription)@
                },
            }
        }),
{
    let state = old(subscription)@;
    let images = state.images;
    let ids = crate::image::correlation_ids(images);
    ids.index_of_first_ensures(correlation_id);
    assert forall|i: int| 0 <= i < images.len() implies (#[trigger] images[i]).correlation_id
        == ids[i] by {}
    if let Some(index) = state.removal_index(correlation_id) {
        assert(images[index].correlation_id == correlation_id);
        assert(images.remove(index) =~= images.take(index) + images.skip(index + 1));
    }
}

/// The call that closes an open subscription gets its images, and leaves it
/// closed and without images. Any later one gets none and changes nothing.
pub proof fn law_close_and_remove_images(
    subscription: &mut Subscription,
    old_images: Option<Vec<Image>>,
)
    requires
        call_ensures(Subscription::close_and_remove_images, (subscription,), old_images),
    ensures
        if old(subscription)@.closed {
            old_images is None && final(subscription)@ == old(subscription)@
        } else {
            &&& old_images matches Some(images) && images@ == old(subscription)@.images
            &&& final(subscription)@ == (SubscriptionView {
                images: Seq::empty(),
                closed: true,
                ..old(subscription)@
            })
        },
{
}

/// A subscription that is let go of hands all its images over under its own id
/// and is left without any.
pub proof fn law_release(subscription: &mut Subscription, request: ConductorRequest)
    requires
        call_ensures(Subscription::release, (subscription,), request),
    ensures
        request matches ConductorRequest::ReleaseSubscription { registration_id, images }
            && registration_id == old(subscription)@.registration_id && images@
            == old(subscription)@.images,
        final(subscription)@ == (SubscriptionView {
            images: Seq::empty(),
            ..old(subscription)@
        }),
{
}

/// A new subscription is what it was made with, is open and has no images, and
/// its first pass starts at the front.
pub proof fn law_new(
    registration_id: i64,
    channel: ChannelUri,
    stream_id: i32,
    channel_status_id: i32,
    subscription: Subscription,
)
    requires
        call_ensures(
            Subscription::new,
            (registration_id, channel, stream_id, channel_status_id),
            subscription,
        ),
    ensures
        forall|id: i64|
            call_ensures(Subscription::registration_id, (&subscription,), id) ==> id
                == registration_id,
        forall|c: ChannelUri|
            call_ensures(Subscription::channel, (&subscription,), c) ==> c@ == channel@,
        forall|id: i32|
            call_ensures(Subscription::stream_id, (&subscription,), id) ==> id == stream_id,
        forall|id: i32|
            call_ensures(Subscription::channel_status_id, (&subscription,), id) ==> id
                == channel_status_id,
        forall|closed: bool|
            call_ensures(Subscription::is_closed, (&subscription,), closed) ==> !closed,
        subscription@.images.len() == 0,
        subscription@.round_robin_index == 0,
{
}

/// What a subscription was made with, and whether it is closed, can be read back
/// at any time.
pub proof fn law_getters(
    subscription: &Subscription,
    registration_id: i64,
    channel: ChannelUri,
    stream_id: i32,
    channel_status_id: i32,
    closed: bool,
)
    requires
        call_ensures(Subscription::registration_id, (subscription,), registration_id),
        call_ensures(Subscription::channel, (subscription,), channel),
        call_ensures(Subscription::stream_id, (subscription,), stream_id),
        call_ensures(Subscription::channel_status_id, (subscription,), channel_status_id),
        call_ensures(Subscription::is_closed, (subscription,), closed),
    ensures
        registration_id == subscription@.registration_id,
        channel@ == subscription@.channel,
        stream_id == subscription@.stream_id,
        channel_status_id == subscription@.channel_status_id,
        closed == subscription@.closed,
{
}

/// A destination is refused to a closed subscription, and else exactly where one
/// of its characters is NUL. One that is not refused is named by its UTF-8 form.
pub proof fn law_destination(
    closed: bool,
    endpoint_channel: String,
    r: Result<ChannelUri, AeronError>,
)
    requires
        call_ensures(destination, (closed, endpoint_channel), r),
    ensures
        closed ==> r == Err::<ChannelUri, AeronError>(
            AeronError::IllegalState(IllegalStateError::SubscriptionClosed),
        ),
        !closed ==> (r is Ok <==> forall|i: int|
            0 <= i < endpoint_channel@.len() ==> #[trigger] endpoint_channel@[i] != '\0'),
        !closed && r is Err ==> r == Err::<ChannelUri, AeronError>(
            AeronError::Generic(GenericError::StringToCStringConversionFailed),
        ),
        r matches Ok(channel) ==> channel@ == vstd::utf8::encode_utf8(endpoint_channel@),
{
}

/// A destination is added under the subscription's own id, unless it is refused:
/// to a closed subscription, and else exactly where one of its characters is NUL.
pub proof fn law_add_destination(
    subscription: &Subscription,
    endpoint_channel: String,
    r: Result<ConductorRequest, AeronError>,
)
    requires
        call_ensures(Subscription::add_destination, (subscription, endpoint_channel), r),
    ensures
        subscription@.closed ==> r == Err::<ConductorRequest, AeronError>(
            AeronError::IllegalState(IllegalStateError::SubscriptionClosed),
        ),
        !subscription@.closed ==> (r is Ok <==> forall|i: int|
            0 <= i < endpoint_channel@.len() ==> #[trigger] endpoint_channel@[i] != '\0'),
        !subscription@.closed && r is Err ==> r == Err::<ConductorRequest, AeronError>(
            AeronError::Generic(GenericError::StringToCStringConversionFailed),
        ),
        r matches Ok(request) ==> (request matches ConductorRequest::AddRcvDestination {
            registration_id,
            channel,
        } && registration_id == subscription@.registration_id && channel@
            == vstd::utf8::encode_utf8(endpoint_channel@)),
{
}

/// A destination is removed under the subscription's own id, unless it is
/// refused: to a closed subscription, and else exactly where one of its
/// characters is NUL.
pub proof fn law_remove_destination(
    subscription: &Subscription,
    endpoint_channel: String,
    r: Result<ConductorRequest, AeronError>,
)
    requires
        call_ensures(Subscription::remove_destination, (subscription, endpoint_channel), r),
    ensures
        subscription@.closed ==> r == Err::<ConductorRequest, AeronError>(
            AeronError::IllegalState(IllegalStateError::SubscriptionClosed),
        ),
        !subscription@.closed ==> (r is Ok <==> forall|i: int|
            0 <= i < endpoint_channel@.len() ==> #[trigger] endpoint_channel@[i] != '\0'),
        !subscription@.closed && r is Err ==> r == Err::<ConductorRequest, AeronError>(
            AeronError::Generic(GenericError::StringToCStringConversionFailed),
        ),
        r matches Ok(request) ==> (request matches ConductorRequest::RemoveRcvDestination {
            registration_id,
            channel,
        } && registration_id == subscription@.registration_id && channel@
            == vstd::utf8::encode_utf8(endpoint_channel@)),
{
}

/// What became of a destination request is asked for by its own id.
pub proof fn law_find_destination_response(
    subscription: &Subscription,
    correlation_id: i64,
    request: ConductorRequest,
)
    requires
        call_ensures(
            Subscription::find_destination_response,
            (subscription, correlation_id),
            request,
        ),
    ensures
        request == (ConductorRequest::FindDestinationResponse { correlation_id }),
{
}

/// The status of an open subscription is asked of the conductor, under the
/// subscription's own counter id; that of a closed one is -1.
pub proof fn law_channel_status(subscription: &Subscription, status: ChannelStatus)
    requires
        call_ensures(Subscription::channel_status, (subscription,), status),
    ensures
        subscription@.closed ==> (status matches ChannelStatus::Known(value) && value == -1),
        !subscription@.closed ==> status == ChannelStatus::Ask(
            ConductorRequest::ChannelStatus { channel_status_id: subscription@.channel_status_id },
        ),
{
}

/// While a subscription is open its status is asked of the conductor, under the
/// counter id that is given; once it is closed the status is -1.
pub proof fn law_status_by_counter(closed: bool, channel_status_id: i32, status: ChannelStatus)
    requires
        call_ensures(channel_status, (closed, channel_status_id), status),
    ensures
        closed ==> (status matches ChannelStatus::Known(value) && value == -1),
        !closed ==> status == ChannelStatus::Ask(
            ConductorRequest::ChannelStatus { channel_status_id },
        ),
{
}

/// The next list with an item more holds a clone of each item in its place, and
/// the new item behind them.
pub proof fn law_appended<T: Clone>(items: &Vec<T>, item: T, next: Vec<T>)
    requires
        call_ensures(appended::<T>, (items, item), next),
    ensures
        next@.len() == items@.len() + 1,
        next@.last() == item,
        forall|i: int| 0 <= i < items@.len() ==> cloned(items@[i], #[trigger] next@[i]),
{
}

/// The next list with an item less holds a clone of each other item: of those
/// before it in their place, of those behind it one place further to the front.
pub proof fn law_without<T: Clone>(items: &Vec<T>, index: usize, next: Vec<T>)
    requires
        index < items@.len(),
        call_ensures(without::<T>, (items, index), next),
    ensures
        next@.len() == items@.len() - 1,
        forall|i: int| 0 <= i < index ==> cloned(items@[i], #[trigger] next@[i]),
        forall|i: int| index <= i < next@.len() ==> cloned(items@[i + 1], #[trigger] next@[i]),
{
    assert forall|i: int| index <= i < next@.len() implies cloned(
        items@[i + 1],
        #[trigger] next@[i],
    ) by {
        assert(items@.remove(index as int)[i] == items@[i + 1]);
    }
    assert forall|i: int| 0 <= i < index implies cloned(items@[i], #[trigger] next@[i]) by {
        assert(items@.remove(index as int)[i] == items@[i]);
    }
}

/// Bytes make an address exactly where none of them is zero, and the address
/// keeps them.
pub proof fn law_channel_from_bytes(bytes: Vec<u8>, r: Option<ChannelUri>)
    requires
        call_ensures(ChannelUri::from_bytes, (bytes,), r),
    ensures
        r is Some <==> forall|i: int| 0 <= i < bytes@.len() ==> #[trigger] bytes@[i] != 0,
        r matches Some(channel) ==> channel@ == bytes@,
{
}

/// A string makes an address exactly where none of its characters is NUL, and
/// the address keeps the UTF-8 form of the string.
pub proof fn law_channel_from_string(uri: String, r: Option<ChannelUri>)
    requires
        call_ensures(ChannelUri::new, (uri,), r),
    ensures
        r is Some <==> forall|i: int| 0 <= i < uri@.len() ==> #[trigger] uri@[i] != '\0',
        r matches Some(channel) ==> channel@ == vstd::utf8::encode_utf8(uri@),
{
}

/// The bytes of an address can be read back, from it and from its clones.
pub proof fn law_channel_read_back(
    channel: &ChannelUri,
    bytes: &[u8],
    clone: ChannelUri,
    bytes_of_clone: &[u8],
)
    requires
        call_ensures(ChannelUri::as_bytes, (channel,), bytes),
        call_ensures(ChannelUri::clone, (channel,), clone),
        call_ensures(ChannelUri::as_bytes, (&clone,), bytes_of_clone),
    ensures
        bytes@ == channel@,
        bytes_of_clone@ == bytes@,
{
}

/// The images may be polled with every function that may be called on each of
/// them and returns no more than it is allowed, nor less than zero.
pub proof fn law_polls_may_be_made<F: FnMut(&Image, i32) -> i32>(
    subscription: &mut Subscription,
    image_poll: &mut PollRecorder<Image, F>,
    fragment_limit: i32,
)
    requires
        forall|i: int, left: i32|
            0 <= i < old(subscription)@.images.len() && 0 < left <= fragment_limit
                ==> #[trigger] call_requires(
                old(image_poll).kind(),
                (&old(subscription)@.images[i], left),
            ),
        forall|i: int, left: i32, count: i32|
            0 <= i < old(subscription)@.images.len() && 0 < left <= fragment_limit
                && #[trigger] call_ensures(
                old(image_poll).kind(),
                (&old(subscription)@.images[i], left),
                count,
            ) ==> 0 <= count <= left,
    ensures
        call_requires(Subscription::poll, (subscription, image_poll, fragment_limit)),
        call_requires(Subscription::controlled_poll, (subscription, image_poll, fragment_limit)),
{
    assert(crate::polling::counts_fit(
        old(subscription)@.images,
        fragment_limit,
        old(image_poll).kind(),
    ));
}

/// Up to 2^32 images may be polled for blocks with every function that may be
/// called on each of them.
pub proof fn law_block_poll_may_be_made<F: FnMut(&Image, i32) -> i32>(
    subscription: &Subscription,
    image_block_poll: &mut PollRecorder<Image, F>,
    block_length_limit: i32,
)
    requires
        subscription@.images.len() <= 0x1_0000_0000,
        forall|i: int|
            0 <= i < subscription@.images.len() ==> #[trigger] call_requires(
                old(image_block_poll).kind(),
                (&subscription@.images[i], block_length_limit),
            ),
    ensures
        call_requires(
            Subscription::block_poll,
            (subscription, image_block_poll, block_length_limit),
        ),
{
    assert(crate::snapshot::measure_allowed(
        subscription@.images,
        block_length_limit,
        old(image_block_poll).kind(),
    ));
}

/// The images may be asked, for being closed or for the end of their stream,
/// with every function that may be called on each of them.
pub proof fn law_images_may_be_asked<F: FnMut(&Image) -> bool, H: FnMut(&Image)>(
    subscription: &Subscription,
    is_image_closed: &mut ProbeRecorder<Image, F>,
    report: &mut ReportRecorder<Image, F, H>,
)
    requires
        forall|i: int|
            0 <= i < subscription@.images.len() ==> #[trigger] call_requires(
                old(is_image_closed).probe(),
                (&subscription@.images[i],),
            ),
        forall|i: int|
            0 <= i < subscription@.images.len() ==> #[trigger] call_requires(
                old(report).probe(),
                (&subscription@.images[i],),
            ),
        forall|i: int|
            0 <= i < subscription@.images.len() ==> #[trigger] call_requires(
                old(report).handler(),
                (&subscription@.images[i],),
            ),
    ensures
        call_requires(Subscription::is_connected, (subscription, is_image_closed)),
        call_requires(Subscription::poll_end_of_streams, (subscription, report)),
{
    assert(crate::snapshot::probe_allowed(subscription@.images, old(is_image_closed).probe()));
    assert(crate::snapshot::probe_allowed(subscription@.images, old(report).probe()));
    assert(crate::snapshot::handler_allowed(
        subscription@.images,
        old(report).probe(),
        old(report).handler(),
    ));
}

/// The subscription can be read, asked for requests and changed in any state.
pub proof fn law_may_be_called_in_any_state<C: FnOnce(&Image)>(
    subscription: &mut Subscription,
    endpoint_channel: String,
    image: Image,
    session_id: i32,
    correlation_id: i64,
    index: usize,
    close_image: C,
)
    requires
        forall|image: &Image| #[trigger] call_requires(close_image, (image,)),
    ensures
        call_requires(Subscription::add_destination, (&*old(subscription), endpoint_channel)),
        call_requires(Subscription::remove_destination, (&*old(subscription), endpoint_channel)),
        call_requires(
            Subscription::find_destination_response,
            (&*old(subscription), correlation_id),
        ),
        call_requires(Subscription::channel_status, (&*old(subscription),)),
        call_requires(Subscription::image_count, (&*old(subscription),)),
        call_requires(Subscription::images, (&*old(subscription),)),
        call_requires(Subscription::image_by_session_id, (&*old(subscription), session_id)),
        call_requires(Subscription::image_by_index, (&*old(subscription), index)),
        call_requires(Subscription::has_image, (&*old(subscription), correlation_id)),
        call_requires(Subscription::add_image, (subscription, image)),
        call_requires(Subscription::remove_image, (subscription, correlation_id, close_image)),
        call_requires(Subscription::close_and_remove_images, (subscription,)),
        call_requires(Subscription::release, (subscription,)),
{
}

/// A call of a function through its recorder is what the record grows by.
pub proof fn law_poll_call_is_recorded<T, F: FnMut(&T, i32) -> i32>(
    recorder: &mut PollRecorder<T, F>,
    item: &T,
    left: i32,
    count: i32,
)
    requires
        call_ensures(PollRecorder::<T, F>::call, (recorder, item, left), count),
    ensures
        call_ensures(old(recorder).kind(), (item, left), count),
        final(recorder).kind() == old(recorder).kind(),
        final(recorder).calls() == old(recorder).calls() + seq![
            PollCall { item: *item, left, count },
        ],
{
    assert(final(recorder).calls() =~= old(recorder).calls() + seq![
        PollCall { item: *item, left, count },
    ]);
}

/// A question put through its recorder is what the record grows by.
pub proof fn law_probe_call_is_recorded<T, F: FnMut(&T) -> bool>(
    recorder: &mut ProbeRecorder<T, F>,
    item: &T,
    answer: bool,
)
    requires
        call_ensures(ProbeRecorder::<T, F>::call, (recorder, item), answer),
    ensures
        call_ensures(old(recorder).probe(), (item,), answer),
        final(recorder).probe() == old(recorder).probe(),
        final(recorder).calls() == old(recorder).calls() + seq![
            ProbeCall { item: *item, answer },
        ],
{
    assert(final(recorder).calls() =~= old(recorder).calls() + seq![
        ProbeCall { item: *item, answer },
    ]);
}

/// A question put through the recorder of a report is what its record grows by.
pub proof fn law_report_question_is_recorded<T, F: FnMut(&T) -> bool, H: FnMut(&T)>(
    recorder: &mut ReportRecorder<T, F, H>,
    item: &T,
    answer: bool,
)
    requires
        call_ensures(ReportRecorder::<T, F, H>::ask, (recorder, item), answer),
    ensures
        call_ensures(old(recorder).probe(), (item,), answer),
        final(recorder).probe() == old(recorder).probe(),
        final(recorder).handler() == old(recorder).handler(),
        final(recorder).events() == old(recorder).events() + seq![
            (ReportEvent::Asked { item: *item, answer }),
        ],
{
    assert(final(recorder).events() =~= old(recorder).events() + seq![
        ReportEvent::Asked { item: *item, answer },
    ]);
}

/// Word given through the recorder of a report is what its record grows by.
pub proof fn law_report_word_is_recorded<T, F: FnMut(&T) -> bool, H: FnMut(&T)>(
    recorder: &mut ReportRecorder<T, F, H>,
    item: &T,
)
    requires
        call_ensures(ReportRecorder::<T, F, H>::tell, (recorder, item), ()),
    ensures
        call_ensures(old(recorder).handler(), (item,), ()),
        final(recorder).probe() == old(recorder).probe(),
        final(recorder).handler() == old(recorder).handler(),
        final(recorder).events() == old(recorder).events() + seq![
            (ReportEvent::Told { item: *item }),
        ],
{
    assert(final(recorder).events() =~= old(recorder).events() + seq![
        ReportEvent::Told { item: *item },
    ]);
}

/// An addition is the step of a run that stands for it.
pub proof fn law_addition_is_a_step(
    subscription: &mut Subscription,
    image: Image,
    old_images: Vec<Image>,
)
    requires
        call_ensures(Subscription::add_image, (subscription, image), old_images),
    ensures
        ({
            let step = crate::laws::Step::Add { image };
            &&& crate::laws::is_step(old(subscription)@, step)
            &&& final(subscription)@ == crate::laws::after(old(subscription)@, step)
        }),
{
}

/// A removal is the step of a run that stands for it.
pub proof fn law_removal_is_a_step<C: FnOnce(&Image)>(
    subscription: &mut Subscription,
    correlation_id: i64,
    close_image: C,
    removed: Option<(Vec<Image>, Index)>,
)
    requires
        call_ensures(
            Subscription::remove_image,
            (subscription, correlation_id, close_image),
            removed,
        ),
    ensures
        ({
            let step = crate::laws::Step::Remove { correlation_id, found: removed is Some };
            &&& crate::laws::is_step(old(subscription)@, step)
            &&& final(subscription)@ == crate::laws::after(old(subscription)@, step)
        }),
{
}

/// A closing is the step of a run that stands for it.
pub proof fn law_closing_is_a_step(
    subscription: &mut Subscription,
    old_images: Option<Vec<Image>>,
)
    requires
        call_ensures(Subscription::close_and_remove_images, (subscription,), old_images),
    ensures
        ({
            let step = crate::laws::Step::Close {
                given_out: match old_images {
                    Some(images) => Some(images@),
                    None => None,
                },
            };
            &&& crate::laws::is_step(old(subscription)@, step)
            &&& final(subscription)@ == crate::laws::after(old(subscription)@, step)
        }),
{
}

/// A release is the step of a run that stands for it.
pub proof fn law_release_is_a_step(
    subscription: &mut Subscription,
    request: ConductorRequest,
)
    requires
        call_ensures(Subscription::release, (subscription,), request),
    ensures
        ({
            let step = crate::laws::Step::Release;
            &&& crate::laws::is_step(old(subscription)@, step)
            &&& final(subscription)@ == crate::laws::after(old(subscription)@, step)
        }),
{
}

/// A poll, in a controlled manner or not, is the step of a run whose calls the
/// record grows by.
pub proof fn law_polls_are_steps<F: FnMut(&Image, i32) -> i32>(
    subscription: &mut Subscription,
    image_poll: &mut PollRecorder<Image, F>,
    fragment_limit: i32,
    fragments_read: i32,
)
    requires
        call_ensures(
            Subscription::poll,
            (subscription, image_poll, fragment_limit),
            fragments_read,
        ) || call_ensures(
            Subscription::controlled_poll,
            (subscription, image_poll, fragment_limit),
            fragments_read,
        ),
    ensures
        ({
            let calls = final(image_poll).calls().skip(old(image_poll).calls().len() as int);
            let step = crate::laws::Step::Poll { fragment_limit, calls, fragments_read };
            &&& crate::laws::is_step(old(subscription)@, step)
            &&& final(subscription)@ == crate::laws::after(old(subscription)@, step)
        }),
{
    let state = old(subscription)@;
    let kind = old(image_poll).kind();
    let made = choose|made: Seq<PollCall<Image>>|
        {
            &&& final(image_poll).calls() == old(image_poll).calls() + made
            &&& #[trigger] state.passed(fragment_limit, kind, made, fragments_read)
        };
    assert(final(image_poll).calls().skip(old(image_poll).calls().len() as int) =~= made);
    crate::laws::law_poll_is_a_step(state, fragment_limit, kind, made, fragments_read);
}

} // verus!
