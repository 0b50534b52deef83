//! What holds of a subscription over several calls, stated over the spec
//! functions in which the contracts of those calls are written.

use crate::image::Image;
use crate::recorder::{PollCall, ProbeCall, ReportEvent};
use crate::subscription::SubscriptionView;
use vstd::prelude::*;

verus! {

/// An image that was added is found, under its own id and at the end of the
/// list; every image that was there before stays where it was, and no other id
/// becomes known.
pub proof fn law_added_image_is_found(state: SubscriptionView, image: Image, correlation_id: i64)
    ensures
        state.added(image).images.len() == state.images.len() + 1,
        state.added(image).images.last() == image,
        forall|i: int|
            0 <= i < state.images.len() ==> #[trigger] state.added(image).images[i]
                == state.images[i],
        crate::image::correlation_ids(state.added(image).images).contains(correlation_id) <==> (
        crate::image::correlation_ids(state.images).contains(correlation_id) || correlation_id
            == image.correlation_id),
{
    let before = crate::image::correlation_ids(state.images);
    let after = crate::image::correlation_ids(state.added(image).images);
    assert(after =~= before.push(image.correlation_id));
    if before.contains(correlation_id) {
        let i = choose|i: int| 0 <= i < before.len() && before[i] == correlation_id;
        assert(after[i] == correlation_id);
    }
    assert(after[before.len() as int] == image.correlation_id);
}

/// An image that comes with an id of its own leaves all ids distinct.
pub proof fn law_ids_stay_distinct(state: SubscriptionView, image: Image)
    requires
        crate::image::correlation_ids(state.images).no_duplicates(),
        !crate::image::correlation_ids(state.images).contains(image.correlation_id),
    ensures
        crate::image::correlation_ids(state.added(image).images).no_duplicates(),
{
    let before = crate::image::correlation_ids(state.images);
    assert(crate::image::correlation_ids(state.added(image).images) =~= before.push(
        image.correlation_id,
    ));
}

/// The image found for a session is one of that session, with none of that
/// session before it; where none is found, no image is of that session.
pub proof fn law_session_lookup(state: SubscriptionView, session_id: i32)
    ensures
        match state.image_of_session(session_id) {
            Some(image) => exists|index: int|
                {
                    &&& 0 <= index < state.images.len()
                    &&& #[trigger] state.images[index] == image
                    &&& image.session_id == session_id
                    &&& forall|i: int|
                        0 <= i < index ==> (#[trigger] state.images[i]).session_id != session_id
                },
            None => forall|i: int|
                0 <= i < state.images.len() ==> (#[trigger] state.images[i]).session_id
                    != session_id,
        },
{
    let ids = crate::image::session_ids(state.images);
    ids.index_of_first_ensures(session_id);
    match ids.index_of_first(session_id) {
        Some(index) => {
            assert(state.images[index].session_id == ids[index]);
            assert forall|i: int| 0 <= i < index implies (#[trigger] state.images[i]).session_id
                != session_id by {
                assert(ids[i] != session_id);
            }
        },
        None => {
            assert forall|i: int| 0 <= i < state.images.len() implies (
            #[trigger] state.images[i]).session_id != session_id by {
                assert(ids[i] == state.images[i].session_id);
            }
        },
    }
}

/// An image that comes in is found for its session only where none was found
/// before; for every other session the same image is found as before.
pub proof fn law_session_lookup_after_addition(
    state: SubscriptionView,
    image: Image,
    session_id: i32,
)
    ensures
        state.added(image).image_of_session(session_id) == match state.image_of_session(
            session_id,
        ) {
            Some(found) => Some(found),
            None => if image.session_id == session_id {
                Some(image)
            } else {
                None
            },
        },
{
    let before = crate::image::session_ids(state.images);
    let after = crate::image::session_ids(state.added(image).images);
    assert(after =~= before.push(image.session_id));
    before.index_of_first_ensures(session_id);
    after.index_of_first_ensures(session_id);
    if let Some(index) = before.index_of_first(session_id) {
        assert(after[index] == session_id);
    } else if image.session_id == session_id {
        assert(after[before.len() as int] == session_id);
    }
}

/// A removal finds an image exactly where one with that id is attached.
pub proof fn law_removal_finds_what_is_there(state: SubscriptionView, correlation_id: i64)
    ensures
        state.removal_index(correlation_id) is Some <==> crate::image::correlation_ids(
            state.images,
        ).contains(correlation_id),
        state.removal_index(correlation_id) is None ==> state.removed(correlation_id) == state,
{
    crate::image::correlation_ids(state.images).index_of_first_ensures(correlation_id);
}

/// A removal takes out one image, one with the id that was asked for, and no
/// other image before it had that id; the images on either side stay in order.
pub proof fn law_removal_takes_one(state: SubscriptionView, correlation_id: i64)
    requires
        crate::image::correlation_ids(state.images).contains(correlation_id),
    ensures
        ({
            let index = state.removal_index(correlation_id)->0;
            let after = state.removed(correlation_id).images;
            &&& 0 <= index < state.images.len()
            &&& state.images[index].correlation_id == correlation_id
            &&& forall|i: int|
                0 <= i < index ==> (#[trigger] state.images[i]).correlation_id != correlation_id
            &&& after.len() == state.images.len() - 1
            &&& forall|i: int| 0 <= i < index ==> #[trigger] after[i] == state.images[i]
            &&& forall|i: int|
                index <= i < after.len() ==> #[trigger] after[i] == state.images[i + 1]
        }),
{
    let ids = crate::image::correlation_ids(state.images);
    ids.index_of_first_ensures(correlation_id);
    let index = state.removal_index(correlation_id)->0;
    assert(ids[index] == correlation_id);
    assert forall|i: int| 0 <= i < index implies (#[trigger] state.images[i]).correlation_id
        != correlation_id by {
        assert(ids[i] != correlation_id);
    }
}

/// A removal leaves every image with another id attached.
pub proof fn law_removal_spares_the_others(
    state: SubscriptionView,
    correlation_id: i64,
    other: i64,
)
    requires
        other != correlation_id,
    ensures
        crate::image::correlation_ids(state.removed(correlation_id).images).contains(other)
            <==> crate::image::correlation_ids(state.images).contains(other),
{
    let before = crate::image::correlation_ids(state.images);
    let after = crate::image::correlation_ids(state.removed(correlation_id).images);
    law_removal_finds_what_is_there(state, correlation_id);
    if before.contains(correlation_id) {
        law_removal_takes_one(state, correlation_id);
        let index = state.removal_index(correlation_id)->0;
        if before.contains(other) {
            let i = choose|i: int| 0 <= i < before.len() && before[i] == other;
            if i < index {
                assert(after[i] == other);
            } else {
                assert(after[i - 1] == other);
            }
        }
        if after.contains(other) {
            let i = choose|i: int| 0 <= i < after.len() && after[i] == other;
            if i < index {
                assert(before[i] == other);
            } else {
                assert(before[i + 1] == other);
            }
        }
    }
}

/// Where no two images have the same id, an image that was removed is no
/// longer found.
pub proof fn law_removed_image_is_gone(state: SubscriptionView, correlation_id: i64)
    requires
        crate::image::correlation_ids(state.images).no_duplicates(),
    ensures
        !crate::image::correlation_ids(state.removed(correlation_id).images).contains(
            correlation_id,
        ),
        crate::image::correlation_ids(state.removed(correlation_id).images).no_duplicates(),
{
    let before = crate::image::correlation_ids(state.images);
    let after = crate::image::correlation_ids(state.removed(correlation_id).images);
    law_removal_finds_what_is_there(state, correlation_id);
    if before.contains(correlation_id) {
        law_removal_takes_one(state, correlation_id);
        let index = state.removal_index(correlation_id)->0;
        assert(after =~= before.remove(index));
        assert(before[index] == correlation_id);
    }
}

/// The removal of an image undoes its addition, where no image had its id.
pub proof fn law_removal_undoes_addition(state: SubscriptionView, image: Image)
    requires
        !crate::image::correlation_ids(state.images).contains(image.correlation_id),
    ensures
        state.added(image).removed(image.correlation_id) == state,
{
    let added = state.added(image);
    let ids = crate::image::correlation_ids(added.images);
    law_added_image_is_found(state, image, image.correlation_id);
    law_removal_takes_one(added, image.correlation_id);
    let index = added.removal_index(image.correlation_id)->0;
    if index < state.images.len() {
        assert(crate::image::correlation_ids(state.images)[index] == image.correlation_id);
    }
    assert(added.images.remove(index) =~= state.images);
}

/// The state once each of `correlation_ids` has been removed in turn.
pub open spec fn after_removals(
    state: SubscriptionView,
    correlation_ids: Seq<i64>,
) -> SubscriptionView
    decreases correlation_ids.len(),
{
    if correlation_ids.len() == 0 {
        state
    } else {
        after_removals(state.removed(correlation_ids[0]), correlation_ids.drop_first())
    }
}

/// Once every image that is attached has been removed, by its id, none is left.
pub proof fn law_removals_drain(state: SubscriptionView)
    ensures
        after_removals(state, crate::image::correlation_ids(state.images)).images.len() == 0,
    decreases state.images.len(),
{
    let ids = crate::image::correlation_ids(state.images);
    if state.images.len() > 0 {
        assert(ids[0] == state.images[0].correlation_id);
        assert(ids.contains(ids[0]));
        law_removal_takes_one(state, ids[0]);
        let rest = state.removed(ids[0]);
        assert(state.removal_index(ids[0])->0 == 0);
        assert(crate::image::correlation_ids(rest.images) =~= ids.drop_first());
        law_removals_drain(rest);
    }
}

/// Closing twice is closing once; a subscription that has been closed refuses
/// every destination and reports the status that stands for no counter.
pub proof fn law_closed_refuses(state: SubscriptionView, endpoint: Seq<char>)
    ensures
        state.shut().closed,
        state.shut().shut() == state.shut(),
        !state.closed ==> state.shut().images.len() == 0,
        crate::conductor::status_of(state.shut().closed, state.shut().channel_status_id)
            == crate::conductor::ChannelStatus::Known(crate::conductor::NO_ID_ALLOCATED as i64),
        state.shut().refusal(endpoint) == Some(
            crate::error::AeronError::IllegalState(
                crate::error::IllegalStateError::SubscriptionClosed,
            ),
        ),
{
}

/// A call that changes a subscription, with what it returned as far as the laws
/// speak of it.
pub enum Step {
    /// An image was added.
    Add { image: Image },
    /// The image with an id was removed, where one was found.
    Remove { correlation_id: i64, found: bool },
    /// The subscription was closed, and its images were given out or were not.
    Close { given_out: Option<Seq<Image>> },
    /// The subscription was let go of.
    Release,
    /// The images were polled, in a controlled manner or not, by `calls`.
    Poll { fragment_limit: i32, calls: Seq<PollCall<Image>>, fragments_read: i32 },
}

/// The state after `step`.
pub open spec fn after(state: SubscriptionView, step: Step) -> SubscriptionView {
    match step {
        Step::Add { image } => state.added(image),
        Step::Remove { correlation_id, .. } => state.removed(correlation_id),
        Step::Close { .. } => state.shut(),
        Step::Release => state.released(),
        Step::Poll { .. } => state.after_pass(),
    }
}

/// What the contracts say that `step`, taken in `state`, returned and called.
pub open spec fn is_step(state: SubscriptionView, step: Step) -> bool {
    match step {
        Step::Remove { correlation_id, found } => found == state.removal_index(
            correlation_id,
        ) is Some,
        Step::Close { given_out } => given_out == if state.closed {
            None
        } else {
            Some(state.images)
        },
        Step::Poll { fragment_limit, calls, fragments_read } => crate::polling::is_round(
            state.images,
            state.start(),
            fragment_limit,
            calls,
            fragments_read,
        ),
        _ => true,
    }
}

/// The state after all of `steps`.
pub open spec fn after_all(state: SubscriptionView, steps: Seq<Step>) -> SubscriptionView
    decreases steps.len(),
{
    if steps.len() == 0 {
        state
    } else {
        after(after_all(state, steps.drop_last()), steps.last())
    }
}

/// `steps` were taken one after the other, the first of them in `state`.
pub open spec fn is_run(state: SubscriptionView, steps: Seq<Step>) -> bool
    decreases steps.len(),
{
    steps.len() > 0 ==> {
        &&& is_run(state, steps.drop_last())
        &&& is_step(after_all(state, steps.drop_last()), steps.last())
    }
}

/// A poll is a step of a run, whatever function it polled with.
pub proof fn law_poll_is_a_step<F: FnMut(&Image, i32) -> i32>(
    state: SubscriptionView,
    fragment_limit: i32,
    image_poll: F,
    calls: Seq<PollCall<Image>>,
    fragments_read: i32,
)
    requires
        state.passed(fragment_limit, image_poll, calls, fragments_read),
    ensures
        is_step(state, (Step::Poll { fragment_limit, calls, fragments_read })),
{
    crate::polling::lemma_pass_is_round(
        state.images,
        state.start(),
        fragment_limit,
        image_poll,
        calls,
        fragments_read,
    );
}

/// No run opens a closed subscription again, and none changes what it was made
/// with.
pub proof fn law_runs_keep(state: SubscriptionView, steps: Seq<Step>)
    ensures
        state.closed ==> after_all(state, steps).closed,
        after_all(state, steps).registration_id == state.registration_id,
        after_all(state, steps).channel == state.channel,
        after_all(state, steps).stream_id == state.stream_id,
        after_all(state, steps).channel_status_id == state.channel_status_id,
    decreases steps.len(),
{
    if steps.len() > 0 {
        law_runs_keep(state, steps.drop_last());
    }
}

/// How many of `steps` closed the subscription.
pub open spec fn closings(steps: Seq<Step>) -> nat
    decreases steps.len(),
{
    if steps.len() == 0 {
        0
    } else if steps.last() is Close {
        closings(steps.drop_last()) + 1
    } else {
        closings(steps.drop_last())
    }
}

/// How many of `steps` closed the subscription and got its images for it.
pub open spec fn images_given_out(steps: Seq<Step>) -> nat
    decreases steps.len(),
{
    if steps.len() == 0 {
        0
    } else if steps.last() matches Step::Close { given_out } && given_out is Some {
        images_given_out(steps.drop_last()) + 1
    } else {
        images_given_out(steps.drop_last())
    }
}

/// However often a subscription is closed, and whatever is done in between, the
/// images are given out once: a call that closes it gets them exactly where no
/// call has closed it before. A subscription that was closed to begin with gives
/// out none.
pub proof fn law_closed_once(state: SubscriptionView, steps: Seq<Step>)
    requires
        is_run(state, steps),
    ensures
        images_given_out(steps) == if !state.closed && closings(steps) > 0 {
            1nat
        } else {
            0nat
        },
        after_all(state, steps).closed == (state.closed || closings(steps) > 0),
        steps.len() > 0 && steps.last() is Close ==> (steps.last()->given_out is Some <==> (
        !state.closed && closings(steps.drop_last()) == 0)),
    decreases steps.len(),
{
    if steps.len() > 0 {
        law_closed_once(state, steps.drop_last());
    }
}

/// The calls that the polls among `steps` made, in order.
pub open spec fn all_calls(steps: Seq<Step>) -> Seq<PollCall<Image>>
    decreases steps.len(),
{
    if steps.len() == 0 {
        Seq::empty()
    } else if let Step::Poll { calls, .. } = steps.last() {
        all_calls(steps.drop_last()) + calls
    } else {
        all_calls(steps.drop_last())
    }
}

/// What the polls among `steps` returned, added up.
pub open spec fn all_read(steps: Seq<Step>) -> int
    decreases steps.len(),
{
    if steps.len() == 0 {
        0
    } else if let Step::Poll { fragments_read, .. } = steps.last() {
        all_read(steps.drop_last()) + fragments_read
    } else {
        all_read(steps.drop_last())
    }
}

proof fn lemma_total_adds<T>(first: Seq<PollCall<T>>, second: Seq<PollCall<T>>)
    ensures
        crate::polling::total(first + second) == crate::polling::total(first)
            + crate::polling::total(second),
    decreases second.len(),
{
    if second.len() == 0 {
        assert(first + second =~= first);
    } else {
        assert((first + second).drop_last() =~= first + second.drop_last());
        lemma_total_adds(first, second.drop_last());
    }
}

/// However images come and go between polls, what the polls return adds up to
/// the counts of all the calls that they made: no count is left out and none is
/// added twice.
pub proof fn law_churn_counts_every_call(state: SubscriptionView, steps: Seq<Step>)
    requires
        is_run(state, steps),
    ensures
        all_read(steps) == crate::polling::total(all_calls(steps)),
    decreases steps.len(),
{
    if steps.len() > 0 {
        law_churn_counts_every_call(state, steps.drop_last());
        if let Step::Poll { calls, .. } = steps.last() {
            lemma_total_adds(all_calls(steps.drop_last()), calls);
        }
    }
}

/// The place in the log of its image, counted in fragments read, up to which the
/// image with `correlation_id` has been read by `calls`.
pub open spec fn read_up_to(calls: Seq<PollCall<Image>>, correlation_id: i64) -> int
    decreases calls.len(),
{
    if calls.len() == 0 {
        0
    } else if calls.last().item.correlation_id == correlation_id {
        read_up_to(calls.drop_last(), correlation_id) + calls.last().count
    } else {
        read_up_to(calls.drop_last(), correlation_id)
    }
}

/// How much of their logs `calls` have read, added up over the images with one of `correlation_ids`.
pub open spec fn read_from(calls: Seq<PollCall<Image>>, correlation_ids: Seq<i64>) -> int
    decreases correlation_ids.len(),
{
    if correlation_ids.len() == 0 {
        0
    } else {
        read_from(calls, correlation_ids.drop_last()) + read_up_to(calls, correlation_ids.last())
    }
}

proof fn lemma_read_from_none(correlation_ids: Seq<i64>)
    ensures
        read_from(Seq::empty(), correlation_ids) == 0,
    decreases correlation_ids.len(),
{
    if correlation_ids.len() > 0 {
        lemma_read_from_none(correlation_ids.drop_last());
    }
}

proof fn lemma_read_from_last(calls: Seq<PollCall<Image>>, correlation_ids: Seq<i64>)
    requires
        calls.len() > 0,
        correlation_ids.no_duplicates(),
    ensures
        read_from(calls, correlation_ids) == read_from(calls.drop_last(), correlation_ids) + if (
        correlation_ids.contains(calls.last().item.correlation_id)) {
            calls.last().count as int
        } else {
            0
        },
    decreases correlation_ids.len(),
{
    if correlation_ids.len() > 0 {
        let id = calls.last().item.correlation_id;
        let fewer = correlation_ids.drop_last();
        let last = correlation_ids.len() - 1;
        lemma_read_from_last(calls, fewer);
        if fewer.contains(id) {
            let i = choose|i: int| 0 <= i < fewer.len() && fewer[i] == id;
            assert(correlation_ids[i] == id);
        }
        if correlation_ids.contains(id) && correlation_ids[last] != id {
            let i = choose|i: int| 0 <= i < correlation_ids.len() && correlation_ids[i] == id;
            assert(fewer[i] == id);
        }
        if correlation_ids[last] == id {
            assert(correlation_ids.contains(id));
        }
    }
}

proof fn lemma_read_from_total(calls: Seq<PollCall<Image>>, correlation_ids: Seq<i64>)
    requires
        correlation_ids.no_duplicates(),
        forall|step: int|
            0 <= step < calls.len() ==> correlation_ids.contains(
                (#[trigger] calls[step]).item.correlation_id,
            ),
    ensures
        read_from(calls, correlation_ids) == crate::polling::total(calls),
    decreases calls.len(),
{
    if calls.len() == 0 {
        assert(calls =~= Seq::empty());
        lemma_read_from_none(correlation_ids);
    } else {
        let last = calls.len() - 1;
        assert(correlation_ids.contains(calls[last].item.correlation_id));
        assert forall|step: int| 0 <= step < last implies correlation_ids.contains(
            (#[trigger] calls.drop_last()[step]).item.correlation_id,
        ) by {
            assert(calls.drop_last()[step] == calls[step]);
        }
        lemma_read_from_total(calls.drop_last(), correlation_ids);
        lemma_read_from_last(calls, correlation_ids);
    }
}

/// However images come and go between polls, what the polls return adds up to
/// what was read of each image that was called on.
pub proof fn law_churn_adds_up_over_images(
    state: SubscriptionView,
    steps: Seq<Step>,
    correlation_ids: Seq<i64>,
)
    requires
        is_run(state, steps),
        correlation_ids.no_duplicates(),
        forall|step: int|
            0 <= step < all_calls(steps).len() ==> correlation_ids.contains(
                (#[trigger] all_calls(steps)[step]).item.correlation_id,
            ),
    ensures
        all_read(steps) == read_from(all_calls(steps), correlation_ids),
{
    law_churn_counts_every_call(state, steps);
    lemma_read_from_total(all_calls(steps), correlation_ids);
}

/// Where each call on an image reads on from where the one before it ended, the
/// call in `step`-th place read the `fragment`-th fragment of the image with
/// `correlation_id`.
pub open spec fn delivers(
    calls: Seq<PollCall<Image>>,
    correlation_id: i64,
    step: int,
    fragment: int,
) -> bool {
    let before = read_up_to(calls.take(step), correlation_id);
    &&& 0 <= step < calls.len()
    &&& calls[step].item.correlation_id == correlation_id
    &&& before <= fragment < before + calls[step].count
}

/// One of `calls` read the `fragment`-th fragment of the image with
/// `correlation_id`.
pub open spec fn is_delivered(
    calls: Seq<PollCall<Image>>,
    correlation_id: i64,
    fragment: int,
) -> bool {
    exists|step: int| #[trigger] delivers(calls, correlation_id, step, fragment)
}

/// No call of `calls` returned a negative count.
pub open spec fn counts_not_negative(calls: Seq<PollCall<Image>>) -> bool {
    forall|step: int| 0 <= step < calls.len() ==> 0 <= (#[trigger] calls[step]).count
}

proof fn lemma_read_climbs(
    calls: Seq<PollCall<Image>>,
    correlation_id: i64,
    first: int,
    second: int,
)
    requires
        counts_not_negative(calls),
        0 <= first <= second <= calls.len(),
    ensures
        0 <= read_up_to(calls.take(first), correlation_id) <= read_up_to(
            calls.take(second),
            correlation_id,
        ),
    decreases second,
{
    if second > 0 {
        assert(calls.take(second).drop_last() =~= calls.take(second - 1));
        if first < second {
            lemma_read_climbs(calls, correlation_id, first, second - 1);
        } else {
            lemma_read_climbs(calls, correlation_id, first - 1, first - 1);
        }
    }
}

proof fn lemma_fragment_delivered(
    calls: Seq<PollCall<Image>>,
    correlation_id: i64,
    fragment: int,
    upto: int,
) -> (step: int)
    requires
        0 <= upto <= calls.len(),
        0 <= fragment < read_up_to(calls.take(upto), correlation_id),
    ensures
        delivers(calls, correlation_id, step, fragment),
    decreases upto,
{
    if upto == 0 {
        0
    } else {
        assert(calls.take(upto).drop_last() =~= calls.take(upto - 1));
        if fragment < read_up_to(calls.take(upto - 1), correlation_id) {
            lemma_fragment_delivered(calls, correlation_id, fragment, upto - 1)
        } else {
            upto - 1
        }
    }
}

/// The call that stands in `index`-th place among all calls of the run `steps`
/// was made by the poll in `poll`-th place, on an image that was attached when
/// that poll began.
pub open spec fn is_made_by(
    state: SubscriptionView,
    steps: Seq<Step>,
    index: int,
    poll: int,
) -> bool {
    &&& 0 <= poll < steps.len()
    &&& steps[poll] is Poll
    &&& all_calls(steps.take(poll)).len() <= index < all_calls(steps.take(poll + 1)).len()
    &&& after_all(state, steps.take(poll)).images.contains(all_calls(steps)[index].item)
}

/// The call that stands in `index`-th place among all calls of the run `steps`
/// was made by one of its polls, on an image that was attached when that poll
/// began.
pub open spec fn is_made_on_attached(
    state: SubscriptionView,
    steps: Seq<Step>,
    index: int,
) -> bool {
    exists|poll: int| #[trigger] is_made_by(state, steps, index, poll)
}

proof fn lemma_made_on_attached(state: SubscriptionView, steps: Seq<Step>, index: int)
    requires
        is_run(state, steps),
        0 <= index < all_calls(steps).len(),
    ensures
        is_made_on_attached(state, steps, index),
    decreases steps.len(),
{
    let before = steps.drop_last();
    let last = steps.len() - 1;
    if index < all_calls(before).len() {
        lemma_made_on_attached(state, before, index);
        let poll = choose|poll: int| #[trigger] is_made_by(state, before, index, poll);
        assert(before.take(poll) =~= steps.take(poll));
        assert(before.take(poll + 1) =~= steps.take(poll + 1));
        assert(is_made_by(state, steps, index, poll));
    } else if let Step::Poll { fragment_limit, calls, fragments_read } = steps.last() {
        let current = after_all(state, before);
        let call = index - all_calls(before).len();
        law_poll_stays_within_the_list(current, fragment_limit, calls, fragments_read);
        assert(calls[call] == all_calls(steps)[index]);
        assert(steps.take(last) =~= before);
        assert(steps.take(last + 1) =~= steps);
        assert(is_made_by(state, steps, index, last));
    }
}

/// However images come and go between polls, where each call on an image reads
/// on from where the one before it ended, no fragment of an image is lost and
/// none is delivered twice, and they come in order: of the fragments up to the
/// place that an image has been read up to, each was read by one call, by one
/// only, and a later fragment never by an earlier call. Every call was made by
/// one of the polls, on an image that was attached when that poll began.
pub proof fn law_churn_delivers_each_fragment_once(
    state: SubscriptionView,
    steps: Seq<Step>,
    correlation_id: i64,
)
    requires
        is_run(state, steps),
        counts_not_negative(all_calls(steps)),
    ensures
        forall|fragment: int| #[trigger]
            is_delivered(all_calls(steps), correlation_id, fragment) <==> 0 <= fragment
                < read_up_to(all_calls(steps), correlation_id),
        forall|step: int, other: int, fragment: int, later: int|
            #![trigger delivers(all_calls(steps), correlation_id, step, fragment), delivers(
                all_calls(steps),
                correlation_id,
                other,
                later,
            )]
            delivers(all_calls(steps), correlation_id, step, fragment) && delivers(
                all_calls(steps),
                correlation_id,
                other,
                later,
            ) ==> {
                &&& fragment == later ==> step == other
                &&& fragment < later ==> step <= other
            },
        forall|index: int|
            0 <= index < all_calls(steps).len() ==> #[trigger] is_made_on_attached(
                state,
                steps,
                index,
            ),
{
    let calls = all_calls(steps);
    assert forall|index: int| 0 <= index < calls.len() implies #[trigger] is_made_on_attached(
        state,
        steps,
        index,
    ) by {
        lemma_made_on_attached(state, steps, index);
    }
    assert(calls.take(calls.len() as int) =~= calls);
    assert forall|fragment: int| #[trigger]
        is_delivered(calls, correlation_id, fragment) <==> 0 <= fragment < read_up_to(
            calls,
            correlation_id,
        ) by {
        if 0 <= fragment < read_up_to(calls, correlation_id) {
            let step = lemma_fragment_delivered(
                calls,
                correlation_id,
                fragment,
                calls.len() as int,
            );
        }
        if is_delivered(calls, correlation_id, fragment) {
            let step = choose|step: int|
                #[trigger] delivers(calls, correlation_id, step, fragment);
            assert(calls.take(step + 1).drop_last() =~= calls.take(step));
            lemma_read_climbs(calls, correlation_id, step, step);
            lemma_read_climbs(calls, correlation_id, step + 1, calls.len() as int);
        }
    }
    assert forall|step: int, other: int, fragment: int, later: int|
        #![trigger delivers(calls, correlation_id, step, fragment), delivers(
            calls,
            correlation_id,
            other,
            later,
        )]
        delivers(calls, correlation_id, step, fragment) && delivers(
            calls,
            correlation_id,
            other,
            later,
        ) implies {
        &&& fragment == later ==> step == other
        &&& fragment < later ==> step <= other
    } by {
        if step < other {
            assert(calls.take(step + 1).drop_last() =~= calls.take(step));
            lemma_read_climbs(calls, correlation_id, step + 1, other);
        } else if other < step {
            assert(calls.take(other + 1).drop_last() =~= calls.take(other));
            lemma_read_climbs(calls, correlation_id, other + 1, step);
        }
    }
}

/// A poll calls on attached images only, and on no place in the list twice.
pub proof fn law_poll_stays_within_the_list(
    state: SubscriptionView,
    fragment_limit: i32,
    calls: Seq<PollCall<Image>>,
    fragments_read: i32,
)
    requires
        is_step(state, (Step::Poll { fragment_limit, calls, fragments_read })),
    ensures
        forall|step: int|
            0 <= step < calls.len() ==> {
                let place = crate::polling::visited(
                    state.start(),
                    state.images.len() as int,
                    step,
                );
                0 <= place < state.images.len() && (#[trigger] calls[step]).item
                    == state.images[place]
            },
        forall|a: int, b: int|
            0 <= a < b < calls.len() ==> #[trigger] crate::polling::visited(
                state.start(),
                state.images.len() as int,
                a,
            ) != #[trigger] crate::polling::visited(
                state.start(),
                state.images.len() as int,
                b,
            ),
{
    assert forall|step: int| 0 <= step < calls.len() implies {
        let place = crate::polling::visited(state.start(), state.images.len() as int, step);
        0 <= place < state.images.len() && (#[trigger] calls[step]).item == state.images[place]
    } by {
        assert(crate::polling::comes_in_turn(
            state.images,
            state.start(),
            fragment_limit,
            calls,
            step,
        ));
    }
}

/// A pass changes nothing but the place where the next one starts.
pub proof fn law_pass_keeps_images(state: SubscriptionView)
    ensures
        state.after_pass() == (SubscriptionView {
            round_robin_index: state.after_pass().round_robin_index,
            ..state
        }),
{
}

/// The state once the round-robin index has been set to `index`.
pub open spec fn with_index(state: SubscriptionView, index: nat) -> SubscriptionView {
    SubscriptionView { round_robin_index: index, ..state }
}

/// None of `steps` is a poll.
pub open spec fn has_no_poll(steps: Seq<Step>) -> bool {
    forall|i: int| 0 <= i < steps.len() ==> !(#[trigger] steps[i] is Poll)
}

/// Steps that are no polls neither read the round-robin index nor change it: it
/// makes no difference, to the state or to what the steps return, whether the
/// index is set before all of them or after.
pub proof fn law_changes_pass_by_the_index(
    state: SubscriptionView,
    steps: Seq<Step>,
    index: nat,
)
    requires
        has_no_poll(steps),
    ensures
        with_index(after_all(state, steps), index) == after_all(with_index(state, index), steps),
        is_run(state, steps) <==> is_run(with_index(state, index), steps),
    decreases steps.len(),
{
    if steps.len() > 0 {
        let before = steps.drop_last();
        assert forall|i: int| 0 <= i < before.len() implies !(#[trigger] before[i] is Poll) by {
            assert(before[i] == steps[i]);
        }
        assert(!(steps[steps.len() - 1] is Poll));
        law_changes_pass_by_the_index(state, before, index);
    }
}

/// However often the list is changed between the moment at which a pass takes
/// its snapshot and index and the moment at which it sets the next index, the
/// state is in the end the one that the changes make after the whole pass, and
/// the changes return what they return then: neither undoes what the other did.
pub proof fn law_changes_during_a_pass(state: SubscriptionView, steps: Seq<Step>)
    requires
        has_no_poll(steps),
    ensures
        with_index(after_all(state, steps), state.after_pass().round_robin_index) == after_all(
            state.after_pass(),
            steps,
        ),
        is_run(state, steps) <==> is_run(state.after_pass(), steps),
{
    law_changes_pass_by_the_index(state, steps, state.after_pass().round_robin_index);
}

/// None of `steps` takes all images away at once.
pub open spec fn has_no_sweep(steps: Seq<Step>) -> bool {
    forall|i: int|
        0 <= i < steps.len() ==> !(#[trigger] steps[i] is Close) && !(steps[i] is Release)
}

/// How many of `steps` added an image.
pub open spec fn additions(steps: Seq<Step>) -> nat
    decreases steps.len(),
{
    if steps.len() == 0 {
        0
    } else if steps.last() is Add {
        additions(steps.drop_last()) + 1
    } else {
        additions(steps.drop_last())
    }
}

/// How many of `steps` removed an image that they found.
pub open spec fn removals(steps: Seq<Step>) -> nat
    decreases steps.len(),
{
    if steps.len() == 0 {
        0
    } else if steps.last() matches Step::Remove { found, .. } && found {
        removals(steps.drop_last()) + 1
    } else {
        removals(steps.drop_last())
    }
}

/// However polls, additions and removals follow on one another, the image count
/// is the first one, plus the additions, minus the removals that found an image.
pub proof fn law_churn_image_count(state: SubscriptionView, steps: Seq<Step>)
    requires
        is_run(state, steps),
        has_no_sweep(steps),
    ensures
        after_all(state, steps).images.len() == state.images.len() + additions(steps) - removals(
            steps,
        ),
    decreases steps.len(),
{
    if steps.len() > 0 {
        let before = steps.drop_last();
        assert forall|i: int| 0 <= i < before.len() implies !(#[trigger] before[i] is Close) && !(
        before[i] is Release) by {
            assert(before[i] == steps[i]);
        }
        law_churn_image_count(state, before);
        let last = steps[steps.len() - 1];
        assert(!(last is Close) && !(last is Release));
        if let Step::Remove { correlation_id, .. } = last {
            let current = after_all(state, before);
            law_removal_finds_what_is_there(current, correlation_id);
            if current.removal_index(correlation_id) is Some {
                law_removal_takes_one(current, correlation_id);
            }
        }
    }
}

/// An image with `correlation_id` comes in with the step in `place`-th place, or
/// is there to begin with where `place` is -1.
pub open spec fn comes_in(
    state: SubscriptionView,
    steps: Seq<Step>,
    correlation_id: i64,
    place: int,
) -> bool {
    ||| place == -1 && crate::image::correlation_ids(state.images).contains(correlation_id)
    ||| 0 <= place < steps.len() && (steps[place] matches Step::Add { image }
        && image.correlation_id == correlation_id)
}

/// The step in `place`-th place removes the id `correlation_id`.
pub open spec fn removes(steps: Seq<Step>, correlation_id: i64, place: int) -> bool {
    0 <= place < steps.len() && (steps[place] matches Step::Remove { correlation_id: id, .. }
        && id == correlation_id)
}

/// A step behind the one in `place`-th place removes the id `correlation_id`.
pub open spec fn removed_behind(steps: Seq<Step>, correlation_id: i64, place: int) -> bool {
    exists|later: int| place < later && #[trigger] removes(steps, correlation_id, later)
}

/// An image with `correlation_id` comes in and is not removed after that.
pub open spec fn stays_in(
    state: SubscriptionView,
    steps: Seq<Step>,
    correlation_id: i64,
) -> bool {
    exists|place: int|
        #[trigger] comes_in(state, steps, correlation_id, place) && !removed_behind(
            steps,
            correlation_id,
            place,
        )
}

/// No id comes in twice.
pub open spec fn ids_come_in_once(state: SubscriptionView, steps: Seq<Step>) -> bool {
    &&& crate::image::correlation_ids(state.images).no_duplicates()
    &&& forall|correlation_id: i64, a: int, b: int| #[trigger]
        comes_in(state, steps, correlation_id, a) && #[trigger] comes_in(
            state,
            steps,
            correlation_id,
            b,
        ) ==> a == b
}

proof fn lemma_stays_in_step(state: SubscriptionView, steps: Seq<Step>, correlation_id: i64)
    requires
        steps.len() > 0,
    ensures
        stays_in(state, steps, correlation_id) <==> {
            ||| comes_in(state, steps, correlation_id, steps.len() - 1)
            ||| stays_in(state, steps.drop_last(), correlation_id) && !removes(
                steps,
                correlation_id,
                steps.len() - 1,
            )
        },
{
    let before = steps.drop_last();
    let last = steps.len() - 1;
    assert forall|place: int| place != last implies (#[trigger] comes_in(
        state,
        steps,
        correlation_id,
        place,
    ) <==> comes_in(state, before, correlation_id, place)) by {}
    assert forall|place: int| place != last implies (#[trigger] removes(
        steps,
        correlation_id,
        place,
    ) <==> removes(before, correlation_id, place)) by {}
    if stays_in(state, steps, correlation_id) {
        let place = choose|place: int|
            #[trigger] comes_in(state, steps, correlation_id, place) && !removed_behind(
                steps,
                correlation_id,
                place,
            );
        if place != last {
            assert(comes_in(state, before, correlation_id, place));
            if removed_behind(before, correlation_id, place) {
                let later = choose|later: int|
                    place < later && #[trigger] removes(before, correlation_id, later);
                assert(removes(steps, correlation_id, later));
            }
        }
    }
    if stays_in(state, before, correlation_id) && !removes(steps, correlation_id, last) {
        let place = choose|place: int|
            #[trigger] comes_in(state, before, correlation_id, place) && !removed_behind(
                before,
                correlation_id,
                place,
            );
        assert(comes_in(state, steps, correlation_id, place));
        if removed_behind(steps, correlation_id, place) {
            let later = choose|later: int|
                place < later && #[trigger] removes(steps, correlation_id, later);
            assert(removes(before, correlation_id, later));
        }
    }
    if comes_in(state, steps, correlation_id, last) {
        assert(!removed_behind(steps, correlation_id, last));
    }
}

/// However polls, additions and removals follow on one another, where no id
/// comes in twice, an image is attached in the end exactly where it came in and
/// was not removed after that, and no two have the same id. Where all images are
/// also taken away at once on the way, no others are attached.
pub proof fn law_churn_leaves_what_stays_in(state: SubscriptionView, steps: Seq<Step>)
    requires
        ids_come_in_once(state, steps),
    ensures
        crate::image::correlation_ids(after_all(state, steps).images).no_duplicates(),
        forall|correlation_id: i64| #[trigger]
            crate::image::correlation_ids(after_all(state, steps).images).contains(correlation_id)
                ==> stays_in(state, steps, correlation_id),
        has_no_sweep(steps) ==> forall|correlation_id: i64| #[trigger]
            stays_in(state, steps, correlation_id) ==> crate::image::correlation_ids(
                after_all(state, steps).images,
            ).contains(correlation_id),
    decreases steps.len(),
{
    let ids = crate::image::correlation_ids(after_all(state, steps).images);
    if steps.len() == 0 {
        assert forall|correlation_id: i64| #[trigger] ids.contains(correlation_id) implies stays_in(
            state,
            steps,
            correlation_id,
        ) by {
            assert(comes_in(state, steps, correlation_id, -1));
        }
    } else {
        let before = steps.drop_last();
        let last = steps.len() - 1;
        let current = after_all(state, before);
        let current_ids = crate::image::correlation_ids(current.images);
        assert forall|correlation_id: i64, place: int| #[trigger]
            comes_in(state, before, correlation_id, place) implies comes_in(
            state,
            steps,
            correlation_id,
            place,
        ) by {}
        law_churn_leaves_what_stays_in(state, before);
        match steps.last() {
            Step::Add { image } => {
                let id = image.correlation_id;
                assert(comes_in(state, steps, id, last));
                if current_ids.contains(id) {
                    let place = choose|place: int|
                        #[trigger] comes_in(state, before, id, place) && !removed_behind(
                            before,
                            id,
                            place,
                        );
                    assert(comes_in(state, steps, id, place));
                }
                law_ids_stay_distinct(current, image);
            },
            Step::Remove { correlation_id, .. } => {
                law_removed_image_is_gone(current, correlation_id);
            },
            _ => {},
        }
        assert forall|correlation_id: i64| true implies {
            &&& #[trigger] ids.contains(correlation_id) ==> stays_in(state, steps, correlation_id)
            &&& has_no_sweep(steps) && stays_in(state, steps, correlation_id) ==> ids.contains(
                correlation_id,
            )
        } by {
            lemma_stays_in_step(state, steps, correlation_id);
            match steps.last() {
                Step::Add { image } => {
                    law_added_image_is_found(current, image, correlation_id);
                },
                Step::Remove { correlation_id: id, .. } => {
                    if id != correlation_id {
                        law_removal_spares_the_others(current, id, correlation_id);
                    }
                },
                _ => {},
            }
            if has_no_sweep(steps) {
                assert(!(steps[last] is Close) && !(steps[last] is Release));
                assert forall|i: int| 0 <= i < before.len() implies !(#[trigger] before[i] is Close)
                    && !(before[i] is Release) by {
                    assert(before[i] == steps[i]);
                }
            }
        }
    }
}

/// However polls, additions and removals follow on one another, the image count
/// comes down to zero once every image, each with an id of its own, was removed
/// after it had come in.
pub proof fn law_churn_converges(state: SubscriptionView, steps: Seq<Step>)
    requires
        ids_come_in_once(state, steps),
        forall|correlation_id: i64, place: int| #[trigger]
            comes_in(state, steps, correlation_id, place) ==> removed_behind(
                steps,
                correlation_id,
                place,
            ),
    ensures
        after_all(state, steps).images.len() == 0,
{
    let ids = crate::image::correlation_ids(after_all(state, steps).images);
    law_churn_leaves_what_stays_in(state, steps);
    if ids.len() > 0 {
        assert(ids.contains(ids[0]));
        assert(stays_in(state, steps, ids[0]));
    }
}

/// Wherever the round-robin index stands, a pass starts within the list, also
/// after the list has shrunk, and leaves the index at most one past its end.
pub proof fn law_pass_starts_within(index: nat, length: nat)
    ensures
        length > 0 ==> crate::polling::start_of(index, length) < length,
        length == 0 ==> crate::polling::start_of(index, length) == 0,
        crate::polling::index_after(index, length) <= length,
{
}

/// The step of a pass over `length` items from `start` that comes to `item`.
pub open spec fn turn_of(start: int, length: int, item: int) -> int {
    if item >= start {
        item - start
    } else {
        item - start + length
    }
}

/// A pass that goes all the way round comes to every item once, and to none
/// twice.
pub proof fn law_pass_visits_each_once(start: int, length: int)
    requires
        0 <= start <= length,
    ensures
        forall|step: int|
            0 <= step < length ==> 0 <= #[trigger] crate::polling::visited(start, length, step)
                < length,
        forall|a: int, b: int|
            0 <= a < b < length ==> #[trigger] crate::polling::visited(start, length, a)
                != #[trigger] crate::polling::visited(start, length, b),
        forall|item: int|
            0 <= item < length ==> 0 <= #[trigger] turn_of(start, length, item) < length
                && crate::polling::visited(start, length, turn_of(start, length, item)) == item,
{
}

/// Without a limit above zero no item is called, and nothing is read.
pub proof fn law_no_limit_no_calls<T>(
    items: Seq<T>,
    start: int,
    limit: i32,
    calls: Seq<PollCall<T>>,
    read: i32,
)
    requires
        limit <= 0,
        crate::polling::is_round(items, start, limit, calls, read),
    ensures
        calls.len() == 0,
        read == 0,
{
    if calls.len() > 0 {
        assert(crate::polling::comes_in_turn(items, start, limit, calls, 0));
        assert(calls.take(0) =~= Seq::<PollCall<T>>::empty());
    }
}

proof fn lemma_total_within_limit<T>(
    items: Seq<T>,
    start: int,
    limit: i32,
    calls: Seq<PollCall<T>>,
    read: i32,
    upto: int,
)
    requires
        limit >= 0,
        crate::polling::is_round(items, start, limit, calls, read),
        forall|step: int|
            0 <= step < calls.len() ==> 0 <= (#[trigger] calls[step]).count <= calls[step].left,
        0 <= upto <= calls.len(),
    ensures
        0 <= crate::polling::total(calls.take(upto)) <= limit,
    decreases upto,
{
    if upto > 0 {
        lemma_total_within_limit(items, start, limit, calls, read, upto - 1);
        assert(calls.take(upto).drop_last() =~= calls.take(upto - 1));
        assert(crate::polling::comes_in_turn(items, start, limit, calls, upto - 1));
    }
}

/// Where no call returns more than it was allowed, nor less than zero, a pass
/// reads no more than its limit.
pub proof fn law_pass_within_limit<T>(
    items: Seq<T>,
    start: int,
    limit: i32,
    calls: Seq<PollCall<T>>,
    read: i32,
)
    requires
        limit >= 0,
        crate::polling::is_round(items, start, limit, calls, read),
        forall|step: int|
            0 <= step < calls.len() ==> 0 <= (#[trigger] calls[step]).count <= calls[step].left,
    ensures
        0 <= read <= limit,
{
    lemma_total_within_limit(items, start, limit, calls, read, calls.len() as int);
    assert(calls.take(calls.len() as int) =~= calls);
}

/// A pass that ends below its limit has called every item: a short count on one
/// item keeps no other from its turn.
pub proof fn law_pass_below_limit_reaches_all<T>(
    items: Seq<T>,
    start: int,
    limit: i32,
    calls: Seq<PollCall<T>>,
    read: i32,
    item: int,
)
    requires
        0 <= start <= items.len(),
        crate::polling::is_round(items, start, limit, calls, read),
        read < limit,
        0 <= item < items.len(),
    ensures
        calls.len() == items.len(),
        calls[turn_of(start, items.len() as int, item)].item == items[item],
{
    law_pass_visits_each_once(start, items.len() as int);
    let step = turn_of(start, items.len() as int, item);
    assert(crate::polling::comes_in_turn(items, start, limit, calls, step));
}

/// The round-robin index after a number of passes over `length` items.
pub open spec fn index_after_passes(index: nat, length: nat, passes: nat) -> nat
    decreases passes,
{
    if passes == 0 {
        index
    } else {
        crate::polling::index_after(index_after_passes(index, length, (passes - 1) as nat), length)
    }
}

/// Where nothing but polls follow on one another, the images stay as they are
/// and each poll turns the round-robin index on by one pass.
pub proof fn law_polls_turn_the_index(state: SubscriptionView, steps: Seq<Step>)
    requires
        forall|i: int| 0 <= i < steps.len() ==> #[trigger] steps[i] is Poll,
    ensures
        after_all(state, steps) == with_index(
            state,
            index_after_passes(state.round_robin_index, state.images.len(), steps.len()),
        ),
    decreases steps.len(),
{
    if steps.len() > 0 {
        let before = steps.drop_last();
        assert forall|i: int| 0 <= i < before.len() implies #[trigger] before[i] is Poll by {
            assert(before[i] == steps[i]);
        }
        assert(steps[steps.len() - 1] is Poll);
        law_polls_turn_the_index(state, before);
    }
}

proof fn lemma_passes_climb(index: nat, length: nat, passes: nat)
    requires
        index + passes <= length,
    ensures
        index_after_passes(index, length, passes) == index + passes,
    decreases passes,
{
    if passes > 0 {
        lemma_passes_climb(index, length, (passes - 1) as nat);
    }
}

proof fn lemma_passes_add(index: nat, length: nat, first: nat, second: nat)
    ensures
        index_after_passes(index, length, first + second) == index_after_passes(
            index_after_passes(index, length, first),
            length,
            second,
        ),
    decreases second,
{
    if second > 0 {
        lemma_passes_add(index, length, first, (second - 1) as nat);
    }
}

/// While the list stays as long as it is, every item leads a pass within one
/// more passes than there are items, wherever the round-robin index stands.
pub proof fn law_every_item_leads(index: nat, length: nat, item: nat)
    requires
        item < length,
    ensures
        exists|passes: nat|
            passes <= length && crate::polling::start_of(
                #[trigger] index_after_passes(index, length, passes),
                length,
            ) == item,
{
    if index <= item {
        let passes = (item - index) as nat;
        lemma_passes_climb(index, length, passes);
        assert(crate::polling::start_of(index_after_passes(index, length, passes), length) == item);
    } else if item == 0 && index < length {
        let passes = (length - index) as nat;
        lemma_passes_climb(index, length, passes);
        assert(crate::polling::start_of(index_after_passes(index, length, passes), length) == item);
    } else {
        let wrap = if index < length {
            (length - index + 1) as nat
        } else {
            1
        };
        if index < length {
            lemma_passes_climb(index, length, (wrap - 1) as nat);
        }
        reveal_with_fuel(index_after_passes, 2);
        assert(index_after_passes(index, length, wrap) == 0);
        lemma_passes_climb(0, length, item);
        lemma_passes_add(index, length, wrap, item);
        assert(crate::polling::start_of(index_after_passes(index, length, wrap + item), length)
            == item);
    }
}

/// A poll with a limit above zero calls first on the image that the round-robin
/// index points at, or on the first image where it points past the end, and
/// allows it the whole limit.
pub proof fn law_poll_leads_at_the_index(
    state: SubscriptionView,
    fragment_limit: i32,
    calls: Seq<PollCall<Image>>,
    fragments_read: i32,
)
    requires
        is_step(state, (Step::Poll { fragment_limit, calls, fragments_read })),
        fragment_limit > 0,
        state.images.len() > 0,
    ensures
        calls.len() > 0,
        calls[0].left == fragment_limit,
        state.round_robin_index < state.images.len() ==> calls[0].item
            == state.images[state.round_robin_index as int],
        state.round_robin_index >= state.images.len() ==> calls[0].item == state.images[0],
{
    assert(calls.take(0) =~= Seq::empty());
    if calls.len() == 0 {
        assert(crate::polling::total(calls) == 0);
    }
    assert(crate::polling::comes_in_turn(state.images, state.start(), fragment_limit, calls, 0));
}

proof fn lemma_run_step(state: SubscriptionView, steps: Seq<Step>, place: int)
    requires
        is_run(state, steps),
        0 <= place < steps.len(),
    ensures
        is_step(after_all(state, steps.take(place)), steps[place]),
    decreases steps.len(),
{
    let before = steps.drop_last();
    if place < before.len() {
        lemma_run_step(state, before, place);
        assert(before.take(place) =~= steps.take(place));
    } else {
        assert(steps.take(place) =~= before);
    }
}

/// The step in `place`-th place is a poll that called first on `image`.
pub open spec fn is_led_by(steps: Seq<Step>, place: int, image: Image) -> bool {
    &&& 0 <= place < steps.len()
    &&& steps[place] matches Step::Poll { calls, .. } && calls.len() > 0 && calls[0].item == image
}

/// Of as many polls as there are images and one more, with nothing between them
/// and each with a limit above zero, every image is the first to be called in
/// one: none is starved, whatever the others have to read.
pub proof fn law_polls_starve_no_image(state: SubscriptionView, steps: Seq<Step>, place: int)
    requires
        is_run(state, steps),
        steps.len() == state.images.len() + 1,
        forall|i: int|
            0 <= i < steps.len() ==> (#[trigger] steps[i] matches Step::Poll {
                fragment_limit,
                ..
            } && fragment_limit > 0),
        0 <= place < state.images.len(),
    ensures
        exists|poll: int| #[trigger] is_led_by(steps, poll, state.images[place]),
{
    let index = state.round_robin_index;
    let length = state.images.len();
    law_every_item_leads(index, length, place as nat);
    let passes = choose|passes: nat|
        passes <= length && crate::polling::start_of(
            #[trigger] index_after_passes(index, length, passes),
            length,
        ) == place;
    let poll = passes as int;
    let before = steps.take(poll);
    assert forall|i: int| 0 <= i < before.len() implies #[trigger] before[i] is Poll by {
        assert(before[i] == steps[i]);
    }
    law_polls_turn_the_index(state, before);
    lemma_run_step(state, steps, poll);
    assert(steps[poll] is Poll);
    if let Step::Poll { fragment_limit, calls, fragments_read } = steps[poll] {
        law_poll_leads_at_the_index(
            after_all(state, before),
            fragment_limit,
            calls,
            fragments_read,
        );
    }
    assert(is_led_by(steps, poll, state.images[place]));
}

/// A search for an open item, where each item either always answers that it is
/// closed or always that it is not, finds one exactly where there is one.
pub proof fn law_found_where_there_is_one<T, F: FnMut(&T) -> bool>(
    items: Seq<T>,
    probe: F,
    is_closed: spec_fn(T) -> bool,
    calls: Seq<ProbeCall<T>>,
    position: Option<int>,
)
    requires
        forall|i: int, answer: bool|
            0 <= i < items.len() && #[trigger] call_ensures(probe, (&items[i],), answer) ==> answer
                == is_closed(items[i]),
        crate::snapshot::is_search(items, probe, false, calls, position),
    ensures
        position is Some <==> exists|i: int| 0 <= i < items.len() && !is_closed(#[trigger] items[i]),
{
    assert forall|i: int| 0 <= i < calls.len() implies (#[trigger] calls[i]).answer == is_closed(
        items[i],
    ) by {
        assert(crate::snapshot::is_question(items, probe, calls, i));
    }
    if let Some(index) = position {
        assert(!calls[index].answer);
        assert(!is_closed(items[index]));
    } else {
        assert forall|i: int| 0 <= i < items.len() implies is_closed(#[trigger] items[i]) by {
            assert(calls[i].answer);
        }
    }
}

/// The items that word was given of, in order.
pub open spec fn told<T>(events: Seq<ReportEvent<T>>) -> Seq<T>
    decreases events.len(),
{
    if events.len() == 0 {
        Seq::empty()
    } else if let ReportEvent::Told { item } = events.last() {
        told(events.drop_last()).push(item)
    } else {
        told(events.drop_last())
    }
}

/// Word is given of exactly the items that answered `true`, in the order in
/// which they were asked, and so of no more than were asked.
pub proof fn law_report_tells_the_affirmed<T>(asked: Seq<ProbeCall<T>>)
    ensures
        told(crate::snapshot::report_of(asked)) == crate::snapshot::affirmed(asked),
        crate::snapshot::affirmed(asked).len() <= asked.len(),
    decreases asked.len(),
{
    if asked.len() > 0 {
        let before = asked.drop_last();
        let events = crate::snapshot::report_of(before);
        let question = ReportEvent::Asked { item: asked.last().item, answer: asked.last().answer };
        law_report_tells_the_affirmed(before);
        assert(events.push(question).drop_last() =~= events);
        assert(events.push(question).push(
            ReportEvent::Told { item: asked.last().item },
        ).drop_last() =~= events.push(question));
        reveal_with_fuel(told, 3);
    }
}

} // verus!
