//! What a subscription asks of the client conductor, which holds the lines to
//! the media driver.

use crate::channel::ChannelUri;
use crate::error::{AeronError, GenericError, IllegalStateError};
use crate::image::Image;
use vstd::prelude::*;

verus! {

/// The channel status that stands for a subscription without a status counter.
pub const NO_ID_ALLOCATED: i32 = -1;

/// A request for the client conductor. Its reply goes to the caller unchanged.
#[derive(Debug, PartialEq, Eq)]
pub enum ConductorRequest {
    /// Have the subscription receive from `channel` as well.
    AddRcvDestination { registration_id: i64, channel: ChannelUri },
    /// Have the subscription no longer receive from `channel`.
    RemoveRcvDestination { registration_id: i64, channel: ChannelUri },
    /// Tell whether the driver has answered the request `correlation_id`.
    FindDestinationResponse { correlation_id: i64 },
    /// Read the status counter `channel_status_id`.
    ChannelStatus { channel_status_id: i32 },
    /// Let go of the subscription and of the images that it held.
    ReleaseSubscription { registration_id: i64, images: Vec<Image> },
}

/// A channel status that is known, or the request that finds it out.
#[derive(Debug, PartialEq, Eq)]
pub enum ChannelStatus {
    Known(i64),
    Ask(ConductorRequest),
}

/// Why a subscription, closed or not, refuses a request for the destination
/// `endpoint`, if it does.
pub open spec fn refusal(closed: bool, endpoint: Seq<char>) -> Option<AeronError> {
    if closed {
        Some(AeronError::IllegalState(IllegalStateError::SubscriptionClosed))
    } else if crate::channel::holds_nul(endpoint) {
        Some(AeronError::Generic(GenericError::StringToCStringConversionFailed))
    } else {
        None
    }
}

/// The channel status to answer with, or the request to answer by.
pub open spec fn status_of(closed: bool, channel_status_id: i32) -> ChannelStatus {
    if closed {
        ChannelStatus::Known(NO_ID_ALLOCATED as i64)
    } else {
        ChannelStatus::Ask(ConductorRequest::ChannelStatus { channel_status_id })
    }
}

/// The address that a destination request is to name, unless the request is
/// refused: a closed subscription takes none, and no address is taken that
/// holds a NUL.
pub fn destination(closed: bool, endpoint_channel: String) -> (r: Result<ChannelUri, AeronError>)
    ensures
        match r {
            Ok(channel) => {
                &&& refusal(closed, endpoint_channel@) is None
                &&& channel@ == vstd::utf8::encode_utf8(endpoint_channel@)
            },
            Err(error) => refusal(closed, endpoint_channel@) == Some(error),
        },
{
    if closed {
        return Err(AeronError::IllegalState(IllegalStateError::SubscriptionClosed));
    }
    match ChannelUri::new(endpoint_channel) {
        Some(channel) => Ok(channel),
        None => Err(AeronError::Generic(GenericError::StringToCStringConversionFailed)),
    }
}

/// The status of a subscription's channel: fixed once the subscription is
/// closed, else to be read from the status counter.
pub fn channel_status(closed: bool, channel_status_id: i32) -> (status: ChannelStatus)
    ensures
        status == status_of(closed, channel_status_id),
{
    if closed {
        return ChannelStatus::Known(NO_ID_ALLOCATED as i64);
    }
    ChannelStatus::Ask(ConductorRequest::ChannelStatus { channel_status_id })
}

} // verus!
