//! What a subscription knows of an image.

use crate::recorder::ProbeRecorder;
use crate::snapshot::position_of;
use vstd::prelude::*;

verus! {

/// A place in a list of images, in the width that the media driver uses.
pub type Index = i32;

/// One publisher's stream of fragments, as a subscription tells it from the
/// others. Two copies stand for the same log buffer.
#[derive(Clone, Copy, Debug, PartialEq, Eq, Structural)]
pub struct Image {
    /// The session that the publisher sends under.
    pub session_id: i32,
    /// The identity under which the media driver registered the image.
    pub correlation_id: i64,
}

/// The correlation ids of `images`, in order.
pub open spec fn correlation_ids(images: Seq<Image>) -> Seq<i64> {
    images.map_values(|image: Image| image.correlation_id)
}

/// The session ids of `images`, in order.
pub open spec fn session_ids(images: Seq<Image>) -> Seq<i32> {
    images.map_values(|image: Image| image.session_id)
}

/// The place of the first of `images` with `session_id`.
pub fn position_by_session_id(images: &Vec<Image>, session_id: i32) -> (position: Option<usize>)
    ensures
        session_ids(images@).index_of_first(session_id) == crate::snapshot::place(position),
        position matches Some(index) ==> index < images@.len(),
{
    let is_wanted = |image: &Image| -> (wanted: bool)
        ensures
            wanted <==> image.session_id == session_id,
    {
        image.session_id == session_id
    };
    let mut search = ProbeRecorder::new(is_wanted);
    let position = position_of(images, &mut search, true);
    proof {
        crate::snapshot::lemma_search_by_id(
            images@,
            session_ids(images@),
            session_id,
            is_wanted,
            search.calls(),
            crate::snapshot::place(position),
        );
    }
    position
}

/// The place of the first of `images` with `correlation_id`.
pub fn position_by_correlation_id(images: &Vec<Image>, correlation_id: i64) -> (position: Option<
    usize,
>)
    ensures
        correlation_ids(images@).index_of_first(correlation_id) == crate::snapshot::place(position),
        position matches Some(index) ==> index < images@.len(),
{
    let is_wanted = |image: &Image| -> (wanted: bool)
        ensures
            wanted <==> image.correlation_id == correlation_id,
    {
        image.correlation_id == correlation_id
    };
    let mut search = ProbeRecorder::new(is_wanted);
    let position = position_of(images, &mut search, true);
    proof {
        crate::snapshot::lemma_search_by_id(
            images@,
            correlation_ids(images@),
            correlation_id,
            is_wanted,
            search.calls(),
            crate::snapshot::place(position),
        );
    }
    position
}

} // verus!
