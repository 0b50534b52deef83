//! The subscription itself.

use crate::channel::ChannelUri;
use crate::conductor::{channel_status, destination, ChannelStatus, ConductorRequest};
use crate::error::AeronError;
use crate::image::{position_by_correlation_id, position_by_session_id, Image, Index};
use crate::image_list::{unwrap_or_clone, ImageList};
use crate::polling::{begin_pass, poll_from};
use crate::recorder::{PollCall, PollRecorder, ProbeCall, ProbeRecorder, ReportRecorder};
use crate::snapshot::{appended, position_of, report_each, sum_over, without};
use std::sync::Arc;
use vstd::prelude::*;

verus! {

/// A subscription to one stream of one channel.
///
/// It has one owner: what changes in it changes through `&mut self`, and every
/// contract says how. The steps that it is made of, in [`crate::conductor`],
/// [`crate::polling`] and [`crate::snapshot`], take a snapshot and plain values
/// and so serve as well where a list is shared between threads.
pub struct Subscription {
    channel: ChannelUri,
    channel_status_id: i32,
    round_robin_index: usize,
    registration_id: i64,
    stream_id: i32,
    image_list: ImageList,
    is_closed: bool,
}

/// The state of a subscription.
#[verifier::ext_equal]
pub struct SubscriptionView {
    pub registration_id: i64,
    pub channel: Seq<u8>,
    pub stream_id: i32,
    pub channel_status_id: i32,
    /// The attached images, in the order in which they came.
    pub images: Seq<Image>,
    /// Where the next pass over the images is to start.
    pub round_robin_index: nat,
    pub closed: bool,
}

impl SubscriptionView {
    /// Why a request for the destination `endpoint` is refused, if it is.
    pub open spec fn refusal(self, endpoint: Seq<char>) -> Option<AeronError> {
        crate::conductor::refusal(self.closed, endpoint)
    }

    /// The first image of the session `session_id`, if there is one.
    pub open spec fn image_of_session(self, session_id: i32) -> Option<Image> {
        match crate::image::session_ids(self.images).index_of_first(session_id) {
            Some(index) => Some(self.images[index]),
            None => None,
        }
    }

    /// Where the image that a removal of `correlation_id` takes out stands.
    pub open spec fn removal_index(self, correlation_id: i64) -> Option<int> {
        crate::image::correlation_ids(self.images).index_of_first(correlation_id)
    }

    /// The state once `image` has been added.
    pub open spec fn added(self, image: Image) -> SubscriptionView {
        SubscriptionView { images: self.images.push(image), ..self }
    }

    /// The state once the first image with `correlation_id`, if there is one,
    /// has been removed.
    pub open spec fn removed(self, correlation_id: i64) -> SubscriptionView {
        match self.removal_index(correlation_id) {
            Some(index) => SubscriptionView { images: self.images.remove(index), ..self },
            None => self,
        }
    }

    /// The state once the subscription has been closed, which takes its images
    /// away the first time and changes nothing after that.
    pub open spec fn shut(self) -> SubscriptionView {
        if self.closed {
            self
        } else {
            SubscriptionView { images: Seq::empty(), closed: true, ..self }
        }
    }

    /// The state once the subscription has been let go of.
    pub open spec fn released(self) -> SubscriptionView {
        SubscriptionView { images: Seq::empty(), ..self }
    }

    /// The state once a pass over the images has been made.
    pub open spec fn after_pass(self) -> SubscriptionView {
        SubscriptionView {
            round_robin_index: crate::polling::index_after(
                self.round_robin_index,
                self.images.len(),
            ),
            ..self
        }
    }

    /// Where the next pass over the images starts.
    pub open spec fn start(self) -> int {
        crate::polling::start_of(self.round_robin_index, self.images.len()) as int
    }

    /// However a pass over the images with `poll_kind` goes, each of its calls
    /// is allowed and no sum overflows.
    pub open spec fn pass_fits<F: FnMut(&Image, i32) -> i32>(
        self,
        fragment_limit: i32,
        poll_kind: F,
    ) -> bool {
        crate::polling::pass_fits(self.images, self.start(), fragment_limit, poll_kind)
    }

    /// `calls` are all the calls of one pass over the images with `poll_kind`,
    /// in order, from where the round-robin index points, and read
    /// `fragments_read` fragments together.
    pub open spec fn passed<F: FnMut(&Image, i32) -> i32>(
        self,
        fragment_limit: i32,
        poll_kind: F,
        calls: Seq<PollCall<Image>>,
        fragments_read: i32,
    ) -> bool {
        crate::polling::is_pass(
            self.images,
            self.start(),
            fragment_limit,
            poll_kind,
            calls,
            fragments_read,
        )
    }
}

impl View for Subscription {
    type V = SubscriptionView;

    closed spec fn view(&self) -> SubscriptionView {
        SubscriptionView {
            registration_id: self.registration_id,
            channel: self.channel@,
            stream_id: self.stream_id,
            channel_status_id: self.channel_status_id,
            images: crate::image_list::contents(self.image_list),
            round_robin_index: self.round_robin_index as nat,
            closed: self.is_closed,
        }
    }
}

impl Subscription {
    /// A subscription without images, open, whose first pass starts at the
    /// front.
    pub fn new(
        registration_id: i64,
        channel: ChannelUri,
        stream_id: i32,
        channel_status_id: i32,
    ) -> (subscription: Self)
        ensures
            subscription@ == (SubscriptionView {
                registration_id,
                channel: channel@,
                stream_id,
                channel_status_id,
                images: Seq::empty(),
                round_robin_index: 0,
                closed: false,
            }),
    {
        Subscription {
            channel,
            channel_status_id,
            round_robin_index: 0,
            registration_id,
            stream_id,
            image_list: ImageList::from_pointee(Vec::new()),
            is_closed: false,
        }
    }

    /// Media address for delivery to the channel.
    pub fn channel(&self) -> (channel: ChannelUri)
        ensures
            channel@ == self@.channel,
    {
        self.channel.clone()
    }

    /// Stream identity for scoping within the channel media address.
    pub fn stream_id(&self) -> (stream_id: i32)
        ensures
            stream_id == self@.stream_id,
    {
        self.stream_id
    }

    /// The identity under which this subscription was added.
    pub fn registration_id(&self) -> (registration_id: i64)
        ensures
            registration_id == self@.registration_id,
    {
        self.registration_id
    }

    /// The counter id used to represent the channel status.
    pub fn channel_status_id(&self) -> (channel_status_id: i32)
        ensures
            channel_status_id == self@.channel_status_id,
    {
        self.channel_status_id
    }

    /// The request that adds a destination to receive from. A closed
    /// subscription takes none, and no address is taken that holds a NUL.
    pub fn add_destination(&self, endpoint_channel: String) -> (r: Result<
        ConductorRequest,
        AeronError,
    >)
        ensures
            match r {
                Ok(request) => {
                    &&& self@.refusal(endpoint_channel@) is None
                    &&& request matches ConductorRequest::AddRcvDestination {
                        registration_id,
                        channel,
                    } && registration_id == self@.registration_id && channel@
                        == vstd::utf8::encode_utf8(endpoint_channel@)
                },
                Err(error) => self@.refusal(endpoint_channel@) == Some(error),
            },
    {
        match destination(self.is_closed(), endpoint_channel) {
            Ok(channel) => Ok(
                ConductorRequest::AddRcvDestination {
                    registration_id: self.registration_id,
                    channel,
                },
            ),
            Err(error) => Err(error),
        }
    }

    /// The request that removes a destination, refused as adding one is.
    pub fn remove_destination(&self, endpoint_channel: String) -> (r: Result<
        ConductorRequest,
        AeronError,
    >)
        ensures
            match r {
                Ok(request) => {
                    &&& self@.refusal(endpoint_channel@) is None
                    &&& request matches ConductorRequest::RemoveRcvDestination {
                        registration_id,
                        channel,
                    } && registration_id == self@.registration_id && channel@
                        == vstd::utf8::encode_utf8(endpoint_channel@)
                },
                Err(error) => self@.refusal(endpoint_channel@) == Some(error),
            },
    {
        match destination(self.is_closed(), endpoint_channel) {
            Ok(channel) => Ok(
                ConductorRequest::RemoveRcvDestination {
                    registration_id: self.registration_id,
                    channel,
                },
            ),
            Err(error) => Err(error),
        }
    }

    /// The request that finds out whether the driver has answered the
    /// destination request `correlation_id`.
    pub fn find_destination_response(&self, correlation_id: i64) -> (request: ConductorRequest)
        ensures
            request == (ConductorRequest::FindDestinationResponse { correlation_id }),
    {
        ConductorRequest::FindDestinationResponse { correlation_id }
    }

    /// The status of the channel: fixed once the subscription is closed, else
    /// to be read from the status counter.
    pub fn channel_status(&self) -> (status: ChannelStatus)
        ensures
            status == crate::conductor::status_of(self@.closed, self@.channel_status_id),
    {
        channel_status(self.is_closed(), self.channel_status_id)
    }

    /// Polls the images for having reached the end of their stream.
    ///
    /// Each image is asked once, in order, with the question of `report`, whether
    /// it has reached it; `report` is told of each that has, right after it has
    /// answered. Returns how many have, in the low bits that an `i32` holds.
    pub fn poll_end_of_streams<F: FnMut(&Image) -> bool, H: FnMut(&Image)>(
        &self,
        report: &mut ReportRecorder<Image, F, H>,
    ) -> (count: i32)
        requires
            crate::snapshot::probe_allowed(self@.images, old(report).probe()),
            crate::snapshot::handler_allowed(
                self@.images,
                old(report).probe(),
                old(report).handler(),
            ),
        ensures
            final(report).probe() == old(report).probe(),
            final(report).handler() == old(report).handler(),
            exists|asked: Seq<ProbeCall<Image>>|
                {
                    &&& final(report).events() == old(report).events()
                        + crate::snapshot::report_of(asked)
                    &&& #[trigger] crate::snapshot::is_report(
                        self@.images,
                        old(report).probe(),
                        old(report).handler(),
                        asked,
                    )
                    &&& count == crate::snapshot::affirmed(asked).len() as i32
                },
    {
        let image_list = self.image_list.load_full();
        let count: usize = report_each(&image_list, report);
        #[verifier::truncate]
        (count as i32)
    }

    /// One pass over the images, from where the round-robin index points.
    fn poll_inner<F: FnMut(&Image, i32) -> i32>(
        &mut self,
        fragment_limit: i32,
        poll_kind: &mut PollRecorder<Image, F>,
    ) -> (fragments_read: i32)
        requires
            old(self)@.pass_fits(fragment_limit, old(poll_kind).kind()),
        ensures
            final(self)@ == old(self)@.after_pass(),
            final(poll_kind).kind() == old(poll_kind).kind(),
            exists|made: Seq<PollCall<Image>>|
                {
                    &&& final(poll_kind).calls() == old(poll_kind).calls() + made
                    &&& #[trigger] old(self)@.passed(
                        fragment_limit,
                        old(poll_kind).kind(),
                        made,
                        fragments_read,
                    )
                },
    {
        let image_list = self.image_list.load_full();
        let (starting_index, next_index) = begin_pass(self.round_robin_index, image_list.len());
        self.round_robin_index = next_index;
        let fragments_read: i32 = poll_from(
            &image_list,
            starting_index,
            fragment_limit,
            poll_kind,
        );
        proof {
            let made = choose|made: Seq<PollCall<Image>>|
                {
                    &&& poll_kind.calls() == old(poll_kind).calls() + made
                    &&& #[trigger] crate::polling::is_pass(
                        image_list@,
                        starting_index as int,
                        fragment_limit,
                        old(poll_kind).kind(),
                        made,
                        fragments_read,
                    )
                };
            assert(old(self)@.passed(
                fragment_limit,
                old(poll_kind).kind(),
                made,
                fragments_read,
            ));
        }
        fragments_read
    }

    /// Polls the images for available message fragments.
    ///
    /// `image_poll` polls one image for at most as many fragments as it is
    /// told and returns how many it read. The images take turns in being first.
    /// Each place in the list is polled at most once, in order, and none once
    /// `fragment_limit` fragments have been read.
    pub fn poll<F: FnMut(&Image, i32) -> i32>(
        &mut self,
        image_poll: &mut PollRecorder<Image, F>,
        fragment_limit: i32,
    ) -> (fragments_read: i32)
        requires
            old(self)@.pass_fits(fragment_limit, old(image_poll).kind()),
        ensures
            final(self)@ == old(self)@.after_pass(),
            final(image_poll).kind() == old(image_poll).kind(),
            exists|made: Seq<PollCall<Image>>|
                {
                    &&& final(image_poll).calls() == old(image_poll).calls() + made
                    &&& #[trigger] old(self)@.passed(
                        fragment_limit,
                        old(image_poll).kind(),
                        made,
                        fragments_read,
                    )
                },
    {
        self.poll_inner(fragment_limit, image_poll)
    }

    /// Polls the images in a controlled manner: `image_controlled_poll` may end
    /// the polling of its image early, which ends that of no other image.
    /// Otherwise as [`Subscription::poll`].
    pub fn controlled_poll<F: FnMut(&Image, i32) -> i32>(
        &mut self,
        image_controlled_poll: &mut PollRecorder<Image, F>,
        fragment_limit: i32,
    ) -> (fragments_read: i32)
        requires
            old(self)@.pass_fits(fragment_limit, old(image_controlled_poll).kind()),
        ensures
            final(self)@ == old(self)@.after_pass(),
            final(image_controlled_poll).kind() == old(image_controlled_poll).kind(),
            exists|made: Seq<PollCall<Image>>|
                {
                    &&& final(image_controlled_poll).calls() == old(image_controlled_poll).calls() + made
                    &&& #[trigger] old(self)@.passed(
                        fragment_limit,
                        old(image_controlled_poll).kind(),
                        made,
                        fragments_read,
                    )
                },
    {
        self.poll_inner(fragment_limit, image_controlled_poll)
    }

    /// Polls every image once, in order, for a block of fragments.
    ///
    /// `image_block_poll` takes one block of at most `block_length_limit` bytes
    /// from an image and returns its length. Returns the number of bytes
    /// consumed.
    pub fn block_poll<F: FnMut(&Image, i32) -> i32>(
        &self,
        image_block_poll: &mut PollRecorder<Image, F>,
        block_length_limit: i32,
    ) -> (bytes_consumed: i64)
        requires
            crate::snapshot::measure_allowed(
                self@.images,
                block_length_limit,
                old(image_block_poll).kind(),
            ),
            crate::snapshot::sum_fits(
                self@.images,
                block_length_limit,
                old(image_block_poll).kind(),
            ),
        ensures
            final(image_block_poll).kind() == old(image_block_poll).kind(),
            exists|made: Seq<PollCall<Image>>|
                {
                    &&& final(image_block_poll).calls() == old(image_block_poll).calls() + made
                    &&& #[trigger] crate::snapshot::measured(
                        self@.images,
                        block_length_limit,
                        old(image_block_poll).kind(),
                        made,
                    )
                    &&& made.len() == self@.images.len()
                    &&& bytes_consumed == crate::polling::total(made)
                },
    {
        let image_list = self.image_list.load_full();
        sum_over(&image_list, block_length_limit, image_block_poll)
    }

    /// Whether at least one image is open, as `is_image_closed` tells it. The
    /// images are asked in order, up to the first that is open.
    pub fn is_connected<F: FnMut(&Image) -> bool>(
        &self,
        is_image_closed: &mut ProbeRecorder<Image, F>,
    ) -> (connected: bool)
        requires
            crate::snapshot::probe_allowed(self@.images, old(is_image_closed).probe()),
        ensures
            final(is_image_closed).probe() == old(is_image_closed).probe(),
            exists|made: Seq<ProbeCall<Image>>, position: Option<int>|
                {
                    &&& final(is_image_closed).calls() == old(is_image_closed).calls() + made
                    &&& #[trigger] crate::snapshot::is_search(
                        self@.images,
                        old(is_image_closed).probe(),
                        false,
                        made,
                        position,
                    )
                    &&& connected == position is Some
                },
    {
        let image_list = self.image_list.load_full();
        let position = position_of(&image_list, is_image_closed, false);
        position.is_some()
    }

    /// Count of images associated with this subscription.
    pub fn image_count(&self) -> (count: usize)
        ensures
            count == self@.images.len(),
    {
        self.image_list.load_full().len()
    }

    /// The first image of the session `session_id`, or `None` if no image
    /// exists.
    pub fn image_by_session_id(&self, session_id: i32) -> (image: Option<Image>)
        ensures
            image == self@.image_of_session(session_id),
    {
        let image_list = self.image_list.load_full();
        match position_by_session_id(&image_list, session_id) {
            Some(index) => Some(image_list[index]),
            None => None,
        }
    }

    /// The image at `index`, or `None` if out of range.
    pub fn image_by_index(&self, index: usize) -> (image: Option<Image>)
        ensures
            image == if index < self@.images.len() {
                Some(self@.images[index as int])
            } else {
                None
            },
    {
        let image_list = self.image_list.load_full();
        if index < image_list.len() {
            Some(image_list[index])
        } else {
            None
        }
    }

    /// A snapshot of the images. It does not change: images added or removed
    /// afterwards do not show up in it.
    pub fn images(&self) -> (images: Arc<Vec<Image>>)
        ensures
            images@ == self@.images,
    {
        self.image_list.load_full()
    }

    /// Has this object been closed and should no longer be used?
    pub fn is_closed(&self) -> (closed: bool)
        ensures
            closed == self@.closed,
    {
        self.is_closed
    }

    /// Whether an image with `correlation_id` is attached.
    pub fn has_image(&self, correlation_id: i64) -> (found: bool)
        ensures
            found == crate::image::correlation_ids(self@.images).contains(correlation_id),
    {
        let image_list = self.image_list.load_full();
        let position = position_by_correlation_id(&image_list, correlation_id);
        proof {
            crate::image::correlation_ids(self@.images).index_of_first_ensures(correlation_id);
        }
        position.is_some()
    }

    /// Adds an image and returns the images as they were just before.
    pub fn add_image(&mut self, image: Image) -> (old_images: Vec<Image>)
        ensures
            final(self)@ == old(self)@.added(image),
            old_images@ == old(self)@.images,
    {
        let old_image_list = self.image_list.load_full();
        let new_image_list = appended(&old_image_list, image);
        assert(new_image_list@ =~= old_image_list@.push(image));
        self.image_list.store(Arc::new(new_image_list));
        unwrap_or_clone(old_image_list)
    }

    /// Removes the first image with `correlation_id` and closes it with
    /// `close_image`. Returns the images as of before the removal and the place
    /// of the removed one, or `None` if there is no such image.
    pub fn remove_image<C: FnOnce(&Image)>(
        &mut self,
        correlation_id: i64,
        close_image: C,
    ) -> (removed: Option<(Vec<Image>, Index)>)
        requires
            old(self)@.removal_index(correlation_id) matches Some(index) ==> call_requires(
                close_image,
                (&old(self)@.images[index],),
            ),
        ensures
            final(self)@ == old(self)@.removed(correlation_id),
            match old(self)@.removal_index(correlation_id) {
                Some(index) => {
                    &&& call_ensures(close_image, (&old(self)@.images[index],), ())
                    &&& removed matches Some((old_images, place)) && old_images@
                        == old(self)@.images && place == index as i32
                },
                None => removed is None,
            },
    {
        let old_image_list = self.image_list.load_full();
        let index: usize = match position_by_correlation_id(&old_image_list, correlation_id) {
            Some(index) => index,
            None => {
                return None;
            },
        };
        close_image(&old_image_list[index]);

        let new_image_list = without(&old_image_list, index);
        assert(new_image_list@ =~= old_image_list@.remove(index as int));
        self.image_list.store(Arc::new(new_image_list));
        let old_images = unwrap_or_clone(old_image_list);
        #[verifier::truncate]
        let place: Index = index as Index;
        Some((old_images, place))
    }

    /// Closes the subscription, removes all images and returns them, or `None`
    /// if it was closed before.
    pub fn close_and_remove_images(&mut self) -> (old_images: Option<Vec<Image>>)
        ensures
            final(self)@ == old(self)@.shut(),
            match old_images {
                Some(images) => !old(self)@.closed && images@ == old(self)@.images,
                None => old(self)@.closed,
            },
    {
        if self.is_closed {
            return None;
        }
        self.is_closed = true;
        let old_image_list = self.image_list.swap(Arc::new(Vec::new()));
        Some(unwrap_or_clone(old_image_list))
    }

    /// The request that goes out when the subscription is let go of: it hands
    /// over all images, closed or not.
    pub fn release(&mut self) -> (request: ConductorRequest)
        ensures
            final(self)@ == old(self)@.released(),
            request matches ConductorRequest::ReleaseSubscription { registration_id, images }
                && registration_id == old(self)@.registration_id && images@ == old(self)@.images,
    {
        let old_image_list = self.image_list.swap(Arc::new(Vec::new()));
        let images = unwrap_or_clone(old_image_list);
        ConductorRequest::ReleaseSubscription { registration_id: self.registration_id, images }
    }
}

} // verus!
