use aeron_subscription::channel::ChannelUri;
use aeron_subscription::conductor::{
    channel_status, destination, ChannelStatus, ConductorRequest, NO_ID_ALLOCATED,
};
use aeron_subscription::error::{AeronError, GenericError, IllegalStateError};
use aeron_subscription::recorder::PollRecorder;
use aeron_subscription::{Image, Subscription};

fn uri(text: &str) -> ChannelUri {
    ChannelUri::new(String::from(text)).unwrap()
}

fn subscription() -> Subscription {
    Subscription::new(-42, uri("aeron:ipc"), 7, 3)
}

#[test]
fn a_channel_keeps_the_bytes_of_its_text() {
    assert_eq!(uri("").as_bytes(), b"");
    assert_eq!(uri("aeron:ipc").as_bytes(), b"aeron:ipc");
    assert_eq!(uri("a\u{e9}\u{20ac}\u{1f600}").as_bytes(), "a\u{e9}\u{20ac}\u{1f600}".as_bytes());
    assert_eq!(uri("aeron:ipc").clone(), uri("aeron:ipc"));
}

#[test]
fn a_channel_holds_no_nul() {
    assert!(ChannelUri::new(String::from("\0")).is_none());
    assert!(ChannelUri::new(String::from("aeron\0ipc")).is_none());
    assert!(ChannelUri::new(String::from("aeron:ipc\0")).is_none());
    // Characters beyond ASCII bring no zero byte with them.
    assert!(ChannelUri::new(String::from("\u{100}\u{1000}\u{10000}")).is_some());
}

#[test]
fn a_destination_request_names_the_subscription_and_the_channel() {
    let subscription = subscription();
    assert_eq!(
        subscription.add_destination(String::from("aeron:udp?endpoint=a:1")),
        Ok(ConductorRequest::AddRcvDestination {
            registration_id: -42,
            channel: uri("aeron:udp?endpoint=a:1"),
        })
    );
    assert_eq!(
        subscription.remove_destination(String::from("aeron:udp?endpoint=b:2")),
        Ok(ConductorRequest::RemoveRcvDestination {
            registration_id: -42,
            channel: uri("aeron:udp?endpoint=b:2"),
        })
    );
}

#[test]
fn a_destination_with_a_nul_is_refused() {
    let subscription = subscription();
    let refused = Err(AeronError::Generic(GenericError::StringToCStringConversionFailed));
    assert_eq!(subscription.add_destination(String::from("a\0b")), refused);
    assert_eq!(
        subscription.remove_destination(String::from("a\0b")),
        Err(AeronError::Generic(GenericError::StringToCStringConversionFailed))
    );
}

#[test]
fn a_closed_subscription_refuses_destinations() {
    let mut subscription = subscription();
    subscription.close_and_remove_images();
    for text in ["aeron:ipc", "a\0b"] {
        assert_eq!(
            subscription.add_destination(String::from(text)),
            Err(AeronError::IllegalState(IllegalStateError::SubscriptionClosed))
        );
        assert_eq!(
            subscription.remove_destination(String::from(text)),
            Err(AeronError::IllegalState(IllegalStateError::SubscriptionClosed))
        );
    }
}

#[test]
fn a_destination_response_is_asked_for_open_or_closed() {
    let mut subscription = subscription();
    let request = ConductorRequest::FindDestinationResponse { correlation_id: 99 };
    assert_eq!(subscription.find_destination_response(99), request);
    subscription.close_and_remove_images();
    assert_eq!(subscription.find_destination_response(99), request);
}

#[test]
fn the_channel_status_is_read_until_closed() {
    let mut subscription = subscription();
    assert_eq!(
        subscription.channel_status(),
        ChannelStatus::Ask(ConductorRequest::ChannelStatus { channel_status_id: 3 })
    );
    subscription.close_and_remove_images();
    assert_eq!(subscription.channel_status(), ChannelStatus::Known(-1));
    assert_eq!(NO_ID_ALLOCATED, -1);
}

#[test]
fn release_hands_all_images_over() {
    let mut subscription = subscription();
    subscription.add_image(Image { session_id: 1, correlation_id: 10 });
    subscription.add_image(Image { session_id: 2, correlation_id: 20 });
    assert_eq!(
        subscription.release(),
        ConductorRequest::ReleaseSubscription {
            registration_id: -42,
            images: vec![
                Image { session_id: 1, correlation_id: 10 },
                Image { session_id: 2, correlation_id: 20 },
            ],
        }
    );
    assert_eq!(subscription.image_count(), 0);
    assert!(!subscription.is_closed());
    assert_eq!(
        subscription.release(),
        ConductorRequest::ReleaseSubscription { registration_id: -42, images: vec![] }
    );
}

#[test]
fn nothing_changes_what_a_subscription_was_made_with() {
    let mut subscription = subscription();
    subscription.add_image(Image { session_id: 1, correlation_id: 10 });
    subscription.poll(&mut PollRecorder::new(|_: &Image, _: i32| 0), 5);
    subscription.remove_image(10, |_: &Image| {});
    subscription.close_and_remove_images();
    subscription.add_image(Image { session_id: 1, correlation_id: 11 });
    subscription.release();
    assert_eq!(subscription.registration_id(), -42);
    assert_eq!(subscription.stream_id(), 7);
    assert_eq!(subscription.channel_status_id(), 3);
    assert_eq!(subscription.channel(), uri("aeron:ipc"));
    assert!(subscription.is_closed());
}

#[test]
fn what_is_refused_rests_on_the_flag_and_the_text() {
    let closed = AeronError::IllegalState(IllegalStateError::SubscriptionClosed);
    let nul = AeronError::Generic(GenericError::StringToCStringConversionFailed);
    assert_eq!(destination(false, String::from("x")), Ok(uri("x")));
    assert_eq!(destination(false, String::from("x\0")), Err(nul));
    assert_eq!(destination(true, String::from("x")), Err(closed));
    assert_eq!(destination(true, String::from("x\0")), Err(closed));
    assert_eq!(channel_status(true, 8), ChannelStatus::Known(-1));
    assert_eq!(
        channel_status(false, 8),
        ChannelStatus::Ask(ConductorRequest::ChannelStatus { channel_status_id: 8 })
    );
}

#[test]
fn a_channel_may_be_made_of_any_bytes_but_zero() {
    let channel = ChannelUri::from_bytes(vec![0xff, 0xfe, 0x80]).unwrap();
    assert_eq!(channel.as_bytes(), &[0xff, 0xfe, 0x80]);
    assert_eq!(Subscription::new(1, channel, 2, 3).channel().as_bytes(), &[0xff, 0xfe, 0x80]);
    assert_eq!(ChannelUri::from_bytes(vec![]).unwrap().as_bytes(), b"");
    assert_eq!(ChannelUri::from_bytes(b"aeron:ipc".to_vec()), Some(uri("aeron:ipc")));
    assert_eq!(ChannelUri::from_bytes(vec![0]), None);
    assert_eq!(ChannelUri::from_bytes(b"aeron\0ipc".to_vec()), None);
}
