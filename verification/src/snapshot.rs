//! Steps on a snapshot that is never changed in place: a search through it,
//! the next list made from it, and questions put to each of its items in turn.

use crate::recorder::{
    PollCall, PollRecorder, ProbeCall, ProbeRecorder, ReportEvent, ReportRecorder,
};
use vstd::prelude::*;

verus! {

/// `next` is `items` with `item` put behind it, each item of `items` cloned.
pub open spec fn is_appended<T: Clone>(items: Seq<T>, item: T, next: Seq<T>) -> bool {
    &&& next.len() == items.len() + 1
    &&& next[items.len() as int] == item
    &&& forall|i: int| 0 <= i < items.len() ==> cloned(items[i], #[trigger] next[i])
}

/// `next` is `items` without the one at `index`, the others cloned and in the
/// order they had.
pub open spec fn is_without<T: Clone>(items: Seq<T>, index: int, next: Seq<T>) -> bool {
    &&& next.len() == items.len() - 1
    &&& forall|i: int|
        0 <= i < next.len() ==> cloned(items.remove(index)[i], #[trigger] next[i])
}

/// The list that follows `items` when `item` comes in.
pub fn appended<T: Clone>(items: &Vec<T>, item: T) -> (next: Vec<T>)
    ensures
        is_appended(items@, item, next@),
{
    let mut next = items.clone();
    next.push(item);
    next
}

/// The list that follows `items` when the one at `index` leaves.
pub fn without<T: Clone>(items: &Vec<T>, index: usize) -> (next: Vec<T>)
    requires
        index < items@.len(),
    ensures
        is_without(items@, index as int, next@),
{
    let mut next = items.clone();
    next.remove(index);
    next
}

/// `probe` may be asked of every item.
pub open spec fn probe_allowed<T, F: FnMut(&T) -> bool>(items: Seq<T>, probe: F) -> bool {
    forall|i: int| 0 <= i < items.len() ==> #[trigger] call_requires(probe, (&items[i],))
}

/// The question in `i`-th place was put to the `i`-th item.
pub open spec fn is_question<T, F: FnMut(&T) -> bool>(
    items: Seq<T>,
    probe: F,
    calls: Seq<ProbeCall<T>>,
    i: int,
) -> bool {
    &&& calls[i].item == items[i]
    &&& call_ensures(probe, (&items[i],), calls[i].answer)
}

/// `calls` put `probe` to the first items, one after the other.
pub open spec fn is_survey<T, F: FnMut(&T) -> bool>(
    items: Seq<T>,
    probe: F,
    calls: Seq<ProbeCall<T>>,
) -> bool {
    &&& calls.len() <= items.len()
    &&& forall|i: int|
        0 <= i < calls.len() ==> #[trigger] is_question(items, probe, calls, i)
}

/// `calls` put `probe` to one item after the other, up to the one at
/// `position`, the first on which it gave `answer`; or to every item, where it
/// gave that answer on none and `position` is `None`.
pub open spec fn is_search<T, F: FnMut(&T) -> bool>(
    items: Seq<T>,
    probe: F,
    answer: bool,
    calls: Seq<ProbeCall<T>>,
    position: Option<int>,
) -> bool {
    &&& is_survey(items, probe, calls)
    &&& match position {
        Some(index) => {
            &&& 0 <= index
            &&& calls.len() == index + 1
            &&& calls[index].answer == answer
            &&& forall|i: int| 0 <= i < index ==> (#[trigger] calls[i]).answer != answer
        },
        None => {
            &&& calls.len() == items.len()
            &&& forall|i: int| 0 <= i < calls.len() ==> (#[trigger] calls[i]).answer != answer
        },
    }
}

/// The position, as a number without bound.
pub open spec fn place(position: Option<usize>) -> Option<int> {
    match position {
        Some(index) => Some(index as int),
        None => None,
    }
}

proof fn lemma_survey_push<T, F: FnMut(&T) -> bool>(
    items: Seq<T>,
    probe: F,
    calls: Seq<ProbeCall<T>>,
    call: ProbeCall<T>,
)
    requires
        is_survey(items, probe, calls),
        calls.len() < items.len(),
        call.item == items[calls.len() as int],
        call_ensures(probe, (&call.item,), call.answer),
    ensures
        is_survey(items, probe, calls.push(call)),
{
    let longer = calls.push(call);
    assert forall|i: int| 0 <= i < longer.len() implies #[trigger] is_question(
        items,
        probe,
        longer,
        i,
    ) by {
        if i < calls.len() {
            assert(is_question(items, probe, calls, i));
        }
    }
}

/// Asks `probe` of one item after the other, up to the first on which it gives
/// `answer`, and returns the place of that one. Makes no other call of it.
pub fn position_of<T, F: FnMut(&T) -> bool>(
    items: &Vec<T>,
    probe: &mut ProbeRecorder<T, F>,
    answer: bool,
) -> (position: Option<usize>)
    requires
        probe_allowed(items@, old(probe).probe()),
    ensures
        final(probe).probe() == old(probe).probe(),
        position matches Some(index) ==> index < items@.len(),
        exists|made: Seq<ProbeCall<T>>|
            {
                &&& final(probe).calls() == old(probe).calls() + made
                &&& #[trigger] is_search(
                    items@,
                    old(probe).probe(),
                    answer,
                    made,
                    place(position),
                )
            },
{
    let ghost question = probe.probe();
    let ghost before = probe.calls();
    let ghost mut made: Seq<ProbeCall<T>> = Seq::empty();
    assert(before + made =~= before);

    let mut position: Option<usize> = None;
    let mut i: usize = 0;
    while i < items.len() && position.is_none()
        invariant
            i <= items@.len(),
            probe.probe() == question,
            probe.calls() == before + made,
            probe_allowed(items@, question),
            is_survey(items@, question, made),
            made.len() == i,
            position is None ==> forall|j: int|
                0 <= j < i ==> (#[trigger] made[j]).answer != answer,
            position is Some ==> position->0 < i && is_search(
                items@,
                question,
                answer,
                made,
                place(position),
            ),
        decreases items@.len() - i,
    {
        let given = probe.call(&items[i]);
        proof {
            let call = ProbeCall { item: items@[i as int], answer: given };
            lemma_survey_push(items@, question, made, call);
            assert(before + made.push(call) =~= (before + made).push(call));
            made = made.push(call);
        }
        if given == answer {
            position = Some(i);
        }
        i += 1;
    }
    assert(is_search(items@, question, answer, made, place(position)));
    position
}

/// A search with a probe that answers whether an item has the id `id` ends at
/// the first place where that id stands.
pub proof fn lemma_search_by_id<T, K, F: FnMut(&T) -> bool>(
    items: Seq<T>,
    ids: Seq<K>,
    id: K,
    probe: F,
    calls: Seq<ProbeCall<T>>,
    position: Option<int>,
)
    requires
        ids.len() == items.len(),
        forall|i: int, answer: bool|
            0 <= i < items.len() && #[trigger] call_ensures(probe, (&items[i],), answer) ==> (answer
                <==> ids[i] == id),
        is_search(items, probe, true, calls, position),
    ensures
        ids.index_of_first(id) == position,
{
    ids.index_of_first_ensures(id);
    assert forall|i: int| 0 <= i < calls.len() implies (#[trigger] calls[i]).answer == (ids[i]
        == id) by {
        assert(is_question(items, probe, calls, i));
        assert(call_ensures(probe, (&items[i],), calls[i].answer));
    }
    if let Some(index) = position {
        assert(calls[index].answer);
        assert(ids.contains(id));
        let first = ids.index_of_first(id)->0;
        if first < index {
            assert(!calls[first].answer);
        }
    } else if ids.contains(id) {
        let i = choose|i: int| 0 <= i < ids.len() && ids[i] == id;
        assert(!calls[i].answer);
    }
}

/// The call in `i`-th place took the measure of the `i`-th item.
pub open spec fn is_measure<T, F: FnMut(&T, i32) -> i32>(
    items: Seq<T>,
    limit: i32,
    measure: F,
    calls: Seq<PollCall<T>>,
    i: int,
) -> bool {
    &&& calls[i].item == items[i]
    &&& calls[i].left == limit
    &&& call_ensures(measure, (&items[i], limit), calls[i].count)
}

/// `calls` took `measure` of the first items, one after the other, each with
/// the whole `limit`.
pub open spec fn measured<T, F: FnMut(&T, i32) -> i32>(
    items: Seq<T>,
    limit: i32,
    measure: F,
    calls: Seq<PollCall<T>>,
) -> bool {
    &&& calls.len() <= items.len()
    &&& forall|i: int|
        0 <= i < calls.len() ==> #[trigger] is_measure(items, limit, measure, calls, i)
}

/// `measure` may be taken of every item with `limit`.
pub open spec fn measure_allowed<T, F: FnMut(&T, i32) -> i32>(
    items: Seq<T>,
    limit: i32,
    measure: F,
) -> bool {
    forall|i: int| 0 <= i < items.len() ==> #[trigger] call_requires(measure, (&items[i], limit))
}

/// A number of `i32` counts that always adds up within `i64`.
pub const SAFE_SUMMANDS: u64 = 0x1_0000_0000;

/// Whatever `measure` gives, the running sum stays within `i64`. That holds of
/// itself up to `SAFE_SUMMANDS` items.
pub open spec fn sum_fits<T, F: FnMut(&T, i32) -> i32>(
    items: Seq<T>,
    limit: i32,
    measure: F,
) -> bool {
    ||| items.len() <= SAFE_SUMMANDS
    ||| forall|calls: Seq<PollCall<T>>| #[trigger]
        measured(items, limit, measure, calls) ==> i64::MIN <= crate::polling::total(calls)
            <= i64::MAX
}

proof fn lemma_total_bounds<T>(calls: Seq<PollCall<T>>)
    ensures
        calls.len() * i32::MIN <= crate::polling::total(calls) <= calls.len() * i32::MAX,
    decreases calls.len(),
{
    if calls.len() > 0 {
        let n = calls.len() as int;
        lemma_total_bounds(calls.drop_last());
        assert((n - 1) * i32::MIN + i32::MIN == n * i32::MIN) by (nonlinear_arith);
        assert((n - 1) * i32::MAX + i32::MAX == n * i32::MAX) by (nonlinear_arith);
    }
}

/// Takes `measure` of every item in turn, each with `limit`, and adds up what
/// it gives. Makes no other call of it.
pub fn sum_over<T, F: FnMut(&T, i32) -> i32>(
    items: &Vec<T>,
    limit: i32,
    measure: &mut PollRecorder<T, F>,
) -> (sum: i64)
    requires
        measure_allowed(items@, limit, old(measure).kind()),
        sum_fits(items@, limit, old(measure).kind()),
    ensures
        final(measure).kind() == old(measure).kind(),
        exists|made: Seq<PollCall<T>>|
            {
                &&& final(measure).calls() == old(measure).calls() + made
                &&& #[trigger] measured(items@, limit, old(measure).kind(), made)
                &&& made.len() == items@.len()
                &&& sum == crate::polling::total(made)
            },
{
    let ghost kind = measure.kind();
    let ghost before = measure.calls();
    let ghost mut made: Seq<PollCall<T>> = Seq::empty();
    assert(before + made =~= before);

    let mut sum: i64 = 0;
    let mut i: usize = 0;
    while i < items.len()
        invariant
            i <= items@.len(),
            measure.kind() == kind,
            measure.calls() == before + made,
            made.len() == i,
            sum == crate::polling::total(made),
            measured(items@, limit, kind, made),
            measure_allowed(items@, limit, kind),
            sum_fits(items@, limit, kind),
        decreases items@.len() - i,
    {
        let count: i32 = measure.call(&items[i], limit);
        proof {
            let call = PollCall { item: items@[i as int], left: limit, count };
            let longer = made.push(call);
            assert forall|j: int| 0 <= j < longer.len() implies #[trigger] is_measure(
                items@,
                limit,
                kind,
                longer,
                j,
            ) by {
                if j < made.len() {
                    assert(is_measure(items@, limit, kind, made, j));
                }
            }
            assert(measured(items@, limit, kind, longer));
            assert(longer.drop_last() =~= made);
            lemma_total_bounds(longer);
            assert(before + longer =~= (before + made).push(call));
            made = longer;
        }
        sum += count as i64;
        i += 1;
    }
    sum
}

/// The items of which the answer was `true`, in order.
pub open spec fn affirmed<T>(calls: Seq<ProbeCall<T>>) -> Seq<T>
    decreases calls.len(),
{
    if calls.len() == 0 {
        Seq::empty()
    } else if calls.last().answer {
        affirmed(calls.drop_last()).push(calls.last().item)
    } else {
        affirmed(calls.drop_last())
    }
}

/// The calls that a report makes where `asked` are its questions: each question
/// is followed by word of its item where the answer was `true`.
pub open spec fn report_of<T>(asked: Seq<ProbeCall<T>>) -> Seq<ReportEvent<T>>
    decreases asked.len(),
{
    if asked.len() == 0 {
        Seq::empty()
    } else {
        let last = asked.last();
        let upto = report_of(asked.drop_last()).push(
            ReportEvent::Asked { item: last.item, answer: last.answer },
        );
        if last.answer {
            upto.push(ReportEvent::Told { item: last.item })
        } else {
            upto
        }
    }
}

/// `handler` may be called on every item of which `probe` may give `true`.
pub open spec fn handler_allowed<T, F: FnMut(&T) -> bool, H: FnMut(&T)>(
    items: Seq<T>,
    probe: F,
    handler: H,
) -> bool {
    forall|i: int|
        0 <= i < items.len() && #[trigger] call_ensures(probe, (&items[i],), true)
            ==> call_requires(handler, (&items[i],))
}

/// `handler` was called on each of `items`.
pub open spec fn handled<T, H: FnMut(&T)>(items: Seq<T>, handler: H) -> bool {
    forall|i: int| 0 <= i < items.len() ==> #[trigger] call_ensures(handler, (&items[i],), ())
}

/// `asked` put `probe` to every item, one after the other, and `handler` was
/// called on those of which the answer was `true`.
pub open spec fn is_report<T, F: FnMut(&T) -> bool, H: FnMut(&T)>(
    items: Seq<T>,
    probe: F,
    handler: H,
    asked: Seq<ProbeCall<T>>,
) -> bool {
    &&& is_survey(items, probe, asked)
    &&& asked.len() == items.len()
    &&& handled(affirmed(asked), handler)
}

/// Puts the question of `report` to every item in turn, gives word of each right
/// after it has answered `true`, and counts those. Makes no other call.
pub fn report_each<T, F: FnMut(&T) -> bool, H: FnMut(&T)>(
    items: &Vec<T>,
    report: &mut ReportRecorder<T, F, H>,
) -> (count: usize)
    requires
        probe_allowed(items@, old(report).probe()),
        handler_allowed(items@, old(report).probe(), old(report).handler()),
    ensures
        final(report).probe() == old(report).probe(),
        final(report).handler() == old(report).handler(),
        exists|asked: Seq<ProbeCall<T>>|
            {
                &&& final(report).events() == old(report).events() + report_of(asked)
                &&& #[trigger] is_report(
                    items@,
                    old(report).probe(),
                    old(report).handler(),
                    asked,
                )
                &&& count == affirmed(asked).len()
            },
{
    let ghost probe = report.probe();
    let ghost handler = report.handler();
    let ghost before = report.events();
    let ghost mut asked: Seq<ProbeCall<T>> = Seq::empty();
    assert(before + report_of(asked) =~= before);

    let mut count: usize = 0;
    let mut i: usize = 0;
    while i < items.len()
        invariant
            i <= items@.len(),
            report.probe() == probe,
            report.handler() == handler,
            report.events() == before + report_of(asked),
            probe_allowed(items@, probe),
            handler_allowed(items@, probe, handler),
            is_survey(items@, probe, asked),
            handled(affirmed(asked), handler),
            asked.len() == i,
            count == affirmed(asked).len(),
            count <= i,
        decreases items@.len() - i,
    {
        let answer = report.ask(&items[i]);
        if answer {
            report.tell(&items[i]);
            count += 1;
        }
        proof {
            let call = ProbeCall { item: items@[i as int], answer };
            let longer = asked.push(call);
            lemma_survey_push(items@, probe, asked, call);
            assert(longer.drop_last() =~= asked);
            assert(report.events() =~= before + report_of(longer));
            assert forall|j: int| 0 <= j < affirmed(longer).len() implies #[trigger] call_ensures(
                handler,
                (&affirmed(longer)[j],),
                (),
            ) by {
                if j < affirmed(asked).len() {
                    assert(call_ensures(handler, (&affirmed(asked)[j],), ()));
                }
            }
            asked = longer;
        }
        i += 1;
    }
    assert(is_report(items@, probe, handler, asked));
    count
}

} // verus!
