use std::cell::RefCell;

use aeron_subscription::channel::ChannelUri;
use aeron_subscription::recorder::{PollRecorder, ProbeRecorder, ReportRecorder};
use aeron_subscription::{Image, Subscription};

fn image(session_id: i32, correlation_id: i64) -> Image {
    Image { session_id, correlation_id }
}

fn subscription() -> Subscription {
    let channel = ChannelUri::new(String::from("aeron:udp?endpoint=localhost:40123")).unwrap();
    Subscription::new(77, channel, 1001, 5)
}

fn subscription_with(images: &[Image]) -> Subscription {
    let mut subscription = subscription();
    for image in images {
        subscription.add_image(*image);
    }
    subscription
}

#[test]
fn new_subscription_is_open_and_empty() {
    let subscription = subscription();
    assert_eq!(subscription.registration_id(), 77);
    assert_eq!(subscription.stream_id(), 1001);
    assert_eq!(subscription.channel_status_id(), 5);
    assert_eq!(subscription.channel().as_bytes(), b"aeron:udp?endpoint=localhost:40123");
    assert_eq!(subscription.image_count(), 0);
    assert!(subscription.images().is_empty());
    assert!(!subscription.is_closed());
    assert!(!subscription.is_connected(&mut ProbeRecorder::new(|_: &Image| false)));
    assert!(!subscription.has_image(0));
    assert_eq!(subscription.image_by_index(0), None);
    assert_eq!(subscription.image_by_session_id(0), None);
}

#[test]
fn added_images_are_found_in_order() {
    let subscription = subscription_with(&[image(1, 10), image(2, 20), image(3, 30)]);
    assert_eq!(subscription.image_count(), 3);
    assert!(subscription.has_image(10));
    assert!(subscription.has_image(20));
    assert!(subscription.has_image(30));
    assert!(!subscription.has_image(40));
    assert_eq!(subscription.image_by_index(0), Some(image(1, 10)));
    assert_eq!(subscription.image_by_index(2), Some(image(3, 30)));
    assert_eq!(subscription.image_by_index(3), None);
    assert_eq!(*subscription.images(), vec![image(1, 10), image(2, 20), image(3, 30)]);
}

#[test]
fn add_image_returns_the_images_before() {
    let mut subscription = subscription();
    assert_eq!(subscription.add_image(image(1, 10)), vec![]);
    assert_eq!(subscription.add_image(image(2, 20)), vec![image(1, 10)]);
    // A pointer to the old list is still held, so the old list is copied.
    let held = subscription.images();
    assert_eq!(subscription.add_image(image(3, 30)), vec![image(1, 10), image(2, 20)]);
    assert_eq!(*held, vec![image(1, 10), image(2, 20)]);
}

#[test]
fn the_first_image_of_a_session_is_found() {
    let subscription = subscription_with(&[image(1, 10), image(2, 20), image(2, 21)]);
    assert_eq!(subscription.image_by_session_id(2), Some(image(2, 20)));
    assert_eq!(subscription.image_by_session_id(1), Some(image(1, 10)));
    assert_eq!(subscription.image_by_session_id(3), None);
}

#[test]
fn session_lookup_keeps_what_it_found_when_an_image_comes() {
    let mut subscription = subscription_with(&[image(1, 10)]);
    subscription.add_image(image(1, 11));
    assert_eq!(subscription.image_by_session_id(1), Some(image(1, 10)));
    subscription.add_image(image(4, 40));
    assert_eq!(subscription.image_by_session_id(4), Some(image(4, 40)));
    assert_eq!(subscription.image_by_session_id(1), Some(image(1, 10)));
}

#[test]
fn a_snapshot_does_not_change() {
    let mut subscription = subscription_with(&[image(1, 10), image(2, 20)]);
    let snapshot = subscription.images();
    subscription.add_image(image(3, 30));
    subscription.remove_image(10, |_: &Image| {});
    subscription.close_and_remove_images();
    assert_eq!(*snapshot, vec![image(1, 10), image(2, 20)]);
    assert_eq!(subscription.image_count(), 0);
}

#[test]
fn remove_image_takes_out_the_first_match_and_closes_it() {
    let mut subscription =
        subscription_with(&[image(1, 10), image(2, 20), image(3, 20), image(4, 40)]);
    let closed = RefCell::new(Vec::new());
    let removed = subscription.remove_image(20, |image: &Image| closed.borrow_mut().push(*image));
    assert_eq!(
        removed,
        Some((vec![image(1, 10), image(2, 20), image(3, 20), image(4, 40)], 1))
    );
    assert_eq!(*closed.borrow(), vec![image(2, 20)]);
    assert_eq!(*subscription.images(), vec![image(1, 10), image(3, 20), image(4, 40)]);
    // Another image had the same id.
    assert!(subscription.has_image(20));
}

#[test]
fn remove_image_copies_a_list_that_is_still_held() {
    let mut subscription = subscription_with(&[image(1, 10), image(2, 20)]);
    let held = subscription.images();
    let removed = subscription.remove_image(10, |_: &Image| {});
    assert_eq!(removed, Some((vec![image(1, 10), image(2, 20)], 0)));
    assert_eq!(held.len(), 2);
    assert_eq!(*subscription.images(), vec![image(2, 20)]);
}

#[test]
fn remove_image_without_a_match_changes_nothing() {
    let mut subscription = subscription_with(&[image(1, 10)]);
    let removed = subscription.remove_image(11, |_: &Image| panic!("nothing to close"));
    assert_eq!(removed, None);
    assert_eq!(*subscription.images(), vec![image(1, 10)]);
}

#[test]
fn the_others_stay_when_one_is_removed() {
    let mut subscription = subscription_with(&[image(1, 10), image(2, 20), image(3, 30)]);
    subscription.remove_image(20, |_: &Image| {});
    assert!(subscription.has_image(10));
    assert!(!subscription.has_image(20));
    assert!(subscription.has_image(30));
}

#[test]
fn removal_undoes_addition() {
    let mut subscription = subscription_with(&[image(1, 10), image(2, 20)]);
    let before = subscription.images();
    subscription.add_image(image(3, 30));
    subscription.remove_image(30, |_: &Image| {});
    assert_eq!(*subscription.images(), *before);
}

#[test]
fn removing_every_image_leaves_none() {
    let mut subscription = subscription_with(&[image(1, 10), image(2, 20), image(3, 10)]);
    for id in [10, 20, 10] {
        assert!(subscription.remove_image(id, |_: &Image| {}).is_some());
    }
    assert_eq!(subscription.image_count(), 0);
}

#[test]
fn closing_hands_the_images_over_once() {
    let mut subscription = subscription_with(&[image(1, 10), image(2, 20)]);
    assert_eq!(
        subscription.close_and_remove_images(),
        Some(vec![image(1, 10), image(2, 20)])
    );
    assert!(subscription.is_closed());
    assert_eq!(subscription.image_count(), 0);
    assert_eq!(subscription.close_and_remove_images(), None);
    assert!(subscription.is_closed());
}

#[test]
fn an_image_that_comes_after_closing_stays_through_a_second_close() {
    let mut subscription = subscription_with(&[image(1, 10)]);
    subscription.close_and_remove_images();
    assert_eq!(subscription.add_image(image(2, 20)), vec![]);
    assert_eq!(subscription.close_and_remove_images(), None);
    assert_eq!(*subscription.images(), vec![image(2, 20)]);
}

#[test]
fn connected_means_that_one_image_is_open() {
    let subscription = subscription_with(&[image(1, 10), image(2, 20), image(3, 30)]);
    assert!(!subscription.is_connected(&mut ProbeRecorder::new(|_: &Image| true)));
    assert!(subscription.is_connected(&mut ProbeRecorder::new(|image: &Image| {
        image.correlation_id != 30
    })));
    let mut asked = Vec::new();
    assert!(subscription.is_connected(&mut ProbeRecorder::new(|image: &Image| {
        asked.push(image.correlation_id);
        image.correlation_id == 10
    })));
    assert_eq!(asked, vec![10, 20]);
}

#[test]
fn end_of_streams_are_handled_and_counted() {
    let subscription = subscription_with(&[image(1, 10), image(2, 20), image(3, 30)]);
    let mut handled = Vec::new();
    let mut report = ReportRecorder::new(
        |image: &Image| image.session_id != 2,
        |image: &Image| handled.push(image.correlation_id),
    );
    assert_eq!(subscription.poll_end_of_streams(&mut report), 2);
    assert_eq!(handled, vec![10, 30]);
    let mut report = ReportRecorder::new(|_: &Image| false, |_: &Image| panic!("no end"));
    assert_eq!(subscription.poll_end_of_streams(&mut report), 0);
}

#[test]
fn each_end_of_stream_is_handled_before_the_next_image_is_asked() {
    let subscription = subscription_with(&[image(1, 10), image(2, 20), image(3, 30)]);
    let events = RefCell::new(Vec::new());
    let mut report = ReportRecorder::new(
        |image: &Image| {
            events.borrow_mut().push((image.correlation_id, "asked"));
            image.session_id != 1
        },
        |image: &Image| events.borrow_mut().push((image.correlation_id, "told")),
    );
    assert_eq!(subscription.poll_end_of_streams(&mut report), 2);
    assert_eq!(
        *events.borrow(),
        vec![(10, "asked"), (20, "asked"), (20, "told"), (30, "asked"), (30, "told")]
    );
}

#[test]
fn of_many_closings_one_is_given_the_images() {
    let mut subscription = subscription_with(&[image(1, 10)]);
    let mut given_out = Vec::new();
    for id in 0..5i64 {
        subscription.add_image(image(2, id));
        subscription.poll(&mut PollRecorder::new(|_: &Image, left: i32| left), 3);
        subscription.remove_image(id - 1, |_: &Image| {});
        given_out.extend(subscription.close_and_remove_images());
    }
    assert_eq!(given_out, vec![vec![image(1, 10), image(2, 0)]]);
    assert!(subscription.is_closed());
}

#[test]
fn ids_stay_distinct_while_images_come_and_go() {
    let mut subscription = subscription_with(&[image(1, 10), image(2, 20)]);
    subscription.add_image(image(1, 30));
    subscription.remove_image(10, |_: &Image| {});
    subscription.add_image(image(4, 10));
    let ids: Vec<i64> = subscription.images().iter().map(|image| image.correlation_id).collect();
    assert_eq!(ids, vec![20, 30, 10]);
}

#[test]
fn a_pass_leaves_the_images_as_they_are() {
    let mut subscription = subscription_with(&[image(1, 10), image(2, 20)]);
    let before = subscription.images();
    subscription.poll(&mut PollRecorder::new(|_: &Image, left: i32| left), 3);
    subscription.controlled_poll(&mut PollRecorder::new(|_: &Image, _: i32| 1), 3);
    assert_eq!(*subscription.images(), *before);
}
