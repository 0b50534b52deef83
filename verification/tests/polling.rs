use std::collections::HashMap;

use aeron_subscription::channel::ChannelUri;
use aeron_subscription::polling::{begin_pass, poll_from};
use aeron_subscription::recorder::{PollRecorder, ProbeRecorder, ReportRecorder};
use aeron_subscription::snapshot::{appended, position_of, report_each, sum_over, without};
use aeron_subscription::{Image, Subscription};

fn subscription_with(count: i64) -> Subscription {
    let channel = ChannelUri::new(String::from("aeron:ipc")).unwrap();
    let mut subscription = Subscription::new(1, channel, 2, 3);
    for id in 0..count {
        subscription.add_image(Image { session_id: id as i32, correlation_id: id });
    }
    subscription
}

/// Polls with images that have nothing to read, and tells the order in which
/// they were asked.
fn order_of_pass(subscription: &mut Subscription) -> Vec<i64> {
    let mut order = Vec::new();
    let read = subscription.poll(
        &mut PollRecorder::new(|image: &Image, _: i32| {
            order.push(image.correlation_id);
            0
        }),
        10,
    );
    assert_eq!(read, 0);
    order
}

#[test]
fn passes_start_one_further_each_time() {
    let mut subscription = subscription_with(3);
    assert_eq!(order_of_pass(&mut subscription), vec![0, 1, 2]);
    assert_eq!(order_of_pass(&mut subscription), vec![1, 2, 0]);
    assert_eq!(order_of_pass(&mut subscription), vec![2, 0, 1]);
    // The index stands past the end: it goes back to the front, and stays
    // there for the pass after.
    assert_eq!(order_of_pass(&mut subscription), vec![0, 1, 2]);
    assert_eq!(order_of_pass(&mut subscription), vec![0, 1, 2]);
    assert_eq!(order_of_pass(&mut subscription), vec![1, 2, 0]);
}

#[test]
fn every_image_leads_within_one_pass_more_than_there_are() {
    for moved in 0..6 {
        let mut subscription = subscription_with(4);
        for _ in 0..moved {
            order_of_pass(&mut subscription);
        }
        let mut leaders: Vec<i64> = (0..5).map(|_| order_of_pass(&mut subscription)[0]).collect();
        leaders.sort();
        leaders.dedup();
        assert_eq!(leaders, vec![0, 1, 2, 3]);
    }
}

#[test]
fn begin_pass_gives_the_start_and_the_next_index() {
    assert_eq!(begin_pass(0, 0), (0, 0));
    assert_eq!(begin_pass(5, 0), (0, 0));
    assert_eq!(begin_pass(0, 3), (0, 1));
    assert_eq!(begin_pass(2, 3), (2, 3));
    assert_eq!(begin_pass(3, 3), (0, 0));
    assert_eq!(begin_pass(usize::MAX, 3), (0, 0));
    assert_eq!(begin_pass(usize::MAX - 1, usize::MAX), (usize::MAX - 1, usize::MAX));
}

#[test]
fn the_limit_is_handed_on_and_ends_the_pass() {
    let mut subscription = subscription_with(4);
    let mut calls = Vec::new();
    let read = subscription.poll(
        &mut PollRecorder::new(|image: &Image, left: i32| {
            calls.push((image.correlation_id, left));
            if left < 3 { left } else { 3 }
        }),
        8,
    );
    assert_eq!(read, 8);
    assert_eq!(calls, vec![(0, 8), (1, 5), (2, 2)]);
}

#[test]
fn the_limit_is_spent_on_round_the_end_of_the_list() {
    let mut subscription = subscription_with(3);
    order_of_pass(&mut subscription);
    order_of_pass(&mut subscription);
    let mut calls = Vec::new();
    let read = subscription.poll(
        &mut PollRecorder::new(|image: &Image, left: i32| {
            calls.push((image.correlation_id, left));
            4
        }),
        10,
    );
    assert_eq!(read, 12);
    assert_eq!(calls, vec![(2, 10), (0, 6), (1, 2)]);
}

#[test]
fn no_limit_no_polls() {
    let mut subscription = subscription_with(2);
    let mut poll = PollRecorder::new(|_: &Image, _: i32| panic!("no limit"));
    assert_eq!(subscription.poll(&mut poll, 0), 0);
    assert_eq!(subscription.poll(&mut poll, -5), 0);
    // The passes moved the index on all the same.
    assert_eq!(order_of_pass(&mut subscription), vec![0, 1]);
    assert_eq!(order_of_pass(&mut subscription), vec![0, 1]);
    assert_eq!(order_of_pass(&mut subscription), vec![1, 0]);
}

#[test]
fn an_empty_subscription_reads_nothing() {
    let mut subscription = subscription_with(0);
    let mut poll = PollRecorder::new(|_: &Image, _: i32| panic!("no image"));
    assert_eq!(subscription.poll(&mut poll, 10), 0);
    assert_eq!(subscription.block_poll(&mut poll, 10), 0);
}

#[test]
fn the_largest_limit_is_used_up_without_overflow() {
    let mut subscription = subscription_with(2);
    let read = subscription.poll(&mut PollRecorder::new(|_: &Image, left: i32| left), i32::MAX);
    assert_eq!(read, i32::MAX);
}

#[test]
fn a_list_that_has_shrunk_is_polled_from_the_front() {
    let mut subscription = subscription_with(3);
    order_of_pass(&mut subscription);
    order_of_pass(&mut subscription);
    subscription.remove_image(1, |_: &Image| {});
    subscription.remove_image(2, |_: &Image| {});
    assert_eq!(order_of_pass(&mut subscription), vec![0]);
}

#[test]
fn an_early_end_on_one_image_keeps_no_other_from_its_turn() {
    let mut subscription = subscription_with(3);
    let mut polled = Vec::new();
    let read = subscription.controlled_poll(
        &mut PollRecorder::new(|image: &Image, _: i32| {
            polled.push(image.correlation_id);
            if image.correlation_id == 0 { 1 } else { 2 }
        }),
        10,
    );
    assert_eq!(read, 5);
    assert_eq!(polled, vec![0, 1, 2]);
    assert_eq!(order_of_pass(&mut subscription), vec![1, 2, 0]);
}

#[test]
fn blocks_are_polled_in_order_and_added_up() {
    let subscription = subscription_with(3);
    let mut calls = Vec::new();
    let bytes = subscription.block_poll(
        &mut PollRecorder::new(|image: &Image, limit: i32| {
            calls.push((image.correlation_id, limit));
            i32::MAX - image.session_id
        }),
        4096,
    );
    assert_eq!(bytes, 3 * i64::from(i32::MAX) - 3);
    assert_eq!(calls, vec![(0, 4096), (1, 4096), (2, 4096)]);
}

#[test]
fn images_that_come_and_go_lose_and_repeat_nothing() {
    let mut subscription = subscription_with(0);
    let mut unread: HashMap<i64, Vec<i64>> = HashMap::new();
    let mut received: HashMap<i64, Vec<i64>> = HashMap::new();
    for cycle in 0..50i64 {
        subscription.add_image(Image { session_id: cycle as i32, correlation_id: cycle });
        unread.insert(cycle, (0..100).rev().collect());
        for _ in 0..30 {
            subscription.poll(
                &mut PollRecorder::new(|image: &Image, left: i32| {
                    let fragments = unread.get_mut(&image.correlation_id).unwrap();
                    let mut read = 0;
                    while read < left {
                        match fragments.pop() {
                            Some(sequence) => {
                                received.entry(image.correlation_id).or_default().push(sequence)
                            }
                            None => break,
                        }
                        read += 1;
                    }
                    read
                }),
                20,
            );
        }
        if cycle >= 3 {
            assert!(subscription.remove_image(cycle - 3, |_: &Image| {}).is_some());
        }
    }
    assert_eq!(received.len(), 50);
    for sequence in received.values() {
        assert_eq!(*sequence, (0..100).collect::<Vec<i64>>());
    }
    for cycle in 47..50 {
        assert!(subscription.remove_image(cycle, |_: &Image| {}).is_some());
    }
    assert_eq!(subscription.image_count(), 0);
}

#[test]
fn the_steps_serve_any_kind_of_item() {
    let items = vec![String::from("a"), String::from("bb"), String::from("ccc")];
    assert_eq!(appended(&items, String::from("d")).concat(), "abbcccd");
    assert_eq!(without(&items, 1).concat(), "accc");
    assert_eq!(without(&items, 2).concat(), "abb");
    let find = |probe: fn(&String) -> bool, answer: bool| {
        position_of(&items, &mut ProbeRecorder::new(probe), answer)
    };
    assert_eq!(find(|item: &String| item.len() > 1, true), Some(1));
    assert_eq!(find(|item: &String| item.len() < 3, false), Some(2));
    assert_eq!(find(|item: &String| item.is_empty(), true), None);
    let mut measure = PollRecorder::new(|item: &String, limit: i32| item.len() as i32 - limit);
    assert_eq!(sum_over(&items, 10, &mut measure), -24);
    let mut told = String::new();
    let mut report = ReportRecorder::new(
        |item: &String| item.len() != 2,
        |item: &String| told.push_str(item),
    );
    assert_eq!(report_each(&items, &mut report), 2);
    assert_eq!(told, "accc");
    let mut order = String::new();
    let mut poll = PollRecorder::new(|item: &String, _: i32| {
        order.push_str(item);
        item.len() as i32
    });
    assert_eq!(poll_from(&items, 1, 5, &mut poll), 5);
    assert_eq!(order, "bbccc");
    let mut poll = PollRecorder::new(|item: &String, _: i32| item.len() as i32);
    assert_eq!(poll_from(&items, 3, 1, &mut poll), 1);
}

#[test]
fn a_change_during_a_pass_shows_only_in_the_next() {
    let mut subscription = subscription_with(2);
    // A pass takes its snapshot and its index, then the list changes under it.
    let snapshot = subscription.images();
    let (start, next) = begin_pass(0, snapshot.len());
    subscription.add_image(Image { session_id: 2, correlation_id: 2 });
    subscription.remove_image(0, |_: &Image| {});
    let mut order = Vec::new();
    let mut poll = PollRecorder::new(|image: &Image, _: i32| {
        order.push(image.correlation_id);
        0
    });
    poll_from(&snapshot, start, 10, &mut poll);
    assert_eq!(order, vec![0, 1]);
    // The next pass starts from the index that this one left.
    let list = subscription.images();
    assert_eq!(begin_pass(next, list.len()), (1, 2));
    let ids: Vec<i64> = list.iter().map(|image| image.correlation_id).collect();
    assert_eq!(ids, vec![1, 2]);
}

#[test]
fn one_recorder_serves_many_polls() {
    let mut subscription = subscription_with(3);
    let mut calls = Vec::new();
    let mut poll = PollRecorder::new(|image: &Image, left: i32| {
        calls.push((image.correlation_id, left));
        3
    });
    // The index stands at the second image for the second pass.
    assert_eq!(subscription.poll(&mut poll, 7), 9);
    assert_eq!(subscription.controlled_poll(&mut poll, 7), 9);
    subscription.remove_image(1, |_: &Image| {});
    // It stands past the end of the shorter list for the third.
    assert_eq!(subscription.poll(&mut poll, 4), 6);
    assert_eq!(
        calls,
        vec![(0, 7), (1, 4), (2, 1), (1, 7), (2, 4), (0, 1), (0, 4), (2, 1)]
    );
}

#[test]
fn results_add_up_to_the_counts_of_all_calls() {
    let mut subscription = subscription_with(0);
    let mut counted: i64 = 0;
    let mut read_of: HashMap<i64, i64> = HashMap::new();
    let mut poll = PollRecorder::new(|image: &Image, left: i32| {
        let count = left.min((image.correlation_id % 4) as i32);
        counted += i64::from(count);
        *read_of.entry(image.correlation_id).or_default() += i64::from(count);
        count
    });
    let mut returned: i64 = 0;
    for id in 0..20i64 {
        subscription.add_image(Image { session_id: 0, correlation_id: id });
        returned += i64::from(subscription.poll(&mut poll, 5));
        if id % 3 == 0 {
            subscription.remove_image(id / 2, |_: &Image| {});
        }
        returned += i64::from(subscription.controlled_poll(&mut poll, 2));
    }
    assert!(returned > 0);
    assert_eq!(returned, counted);
    assert_eq!(returned, read_of.values().sum::<i64>());
}

#[test]
fn a_negative_count_gives_back_to_the_limit() {
    let mut subscription = subscription_with(3);
    let mut calls = Vec::new();
    let read = subscription.poll(
        &mut PollRecorder::new(|image: &Image, left: i32| {
            calls.push((image.correlation_id, left));
            if image.correlation_id == 0 { -2 } else { 4 }
        }),
        5,
    );
    assert_eq!(read, 6);
    assert_eq!(calls, vec![(0, 5), (1, 7), (2, 3)]);
}

#[test]
fn the_same_image_twice_in_the_list_is_polled_at_both_places() {
    let mut subscription = subscription_with(0);
    for id in [7, 8, 7] {
        subscription.add_image(Image { session_id: 1, correlation_id: id });
    }
    assert_eq!(order_of_pass(&mut subscription), vec![7, 8, 7]);
    assert_eq!(order_of_pass(&mut subscription), vec![8, 7, 7]);
}

#[test]
fn a_search_asks_no_further_than_it_must() {
    let items = vec![1, 2, 3, 4];
    let mut asked = Vec::new();
    let mut probe = ProbeRecorder::new(|item: &i32| {
        asked.push(*item);
        *item > 2
    });
    assert_eq!(position_of(&items, &mut probe, true), Some(2));
    assert_eq!(position_of(&items, &mut probe, false), Some(0));
    assert_eq!(asked, vec![1, 2, 3, 1]);
}

#[test]
fn many_changes_during_a_pass_end_as_if_made_after_it() {
    fn change(subscription: &mut Subscription) -> Vec<bool> {
        let mut found = Vec::new();
        for id in 10..13i64 {
            subscription.add_image(Image { session_id: 0, correlation_id: id });
            found.push(subscription.remove_image(id - 10, |_: &Image| {}).is_some());
            found.push(subscription.remove_image(id + 1, |_: &Image| {}).is_some());
        }
        found
    }
    let mut during = subscription_with(3);
    let (_, next) = begin_pass(0, during.image_count());
    let found = change(&mut during);

    let mut after = subscription_with(3);
    order_of_pass(&mut after);
    assert_eq!(change(&mut after), found);
    assert_eq!(found, vec![true, false, true, false, true, false]);
    assert_eq!(*during.images(), *after.images());
    let (start, _) = begin_pass(next, during.image_count());
    assert_eq!(during.images()[start].correlation_id, order_of_pass(&mut after)[0]);
}

#[test]
fn the_image_count_follows_what_comes_and_goes() {
    let mut subscription = subscription_with(2);
    let mut additions = 0;
    let mut removals = 0;
    for id in 2..30i64 {
        subscription.add_image(Image { session_id: 0, correlation_id: id });
        additions += 1;
        order_of_pass(&mut subscription);
        // Some of these find nothing: the id is not there yet, or no longer.
        for gone in [id / 2, id / 3, id + 1] {
            if subscription.remove_image(gone, |_: &Image| {}).is_some() {
                removals += 1;
            }
        }
        assert_eq!(subscription.image_count(), 2 + additions - removals);
    }
    assert!(removals > 0);
}

#[test]
fn the_image_count_comes_down_to_zero_whatever_the_order() {
    let mut subscription = subscription_with(3);
    for id in 3..20i64 {
        subscription.add_image(Image { session_id: 0, correlation_id: id });
        order_of_pass(&mut subscription);
        if id % 2 == 0 {
            subscription.remove_image(id, |_: &Image| {});
        }
    }
    let left: Vec<i64> = subscription.images().iter().map(|image| image.correlation_id).collect();
    assert_eq!(left, vec![0, 1, 2, 3, 5, 7, 9, 11, 13, 15, 17, 19]);
    for id in (0..20i64).rev() {
        subscription.remove_image(id, |_: &Image| {});
        order_of_pass(&mut subscription);
    }
    assert_eq!(subscription.image_count(), 0);
}

#[test]
fn only_attached_images_are_polled() {
    let mut subscription = subscription_with(0);
    for id in 0..20i64 {
        subscription.add_image(Image { session_id: 0, correlation_id: id });
        subscription.remove_image(id / 2, |_: &Image| {});
        for polled in order_of_pass(&mut subscription) {
            assert!(subscription.has_image(polled));
        }
    }
}
