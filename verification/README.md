# aeron_subscription

A subscription to an Aeron stream, verified with Verus: the list of images that
publishers bring into it, the round-robin passes that poll them, and the
requests that it has the client conductor carry out.

## Layout

- `src/subscription.rs`: `Subscription`, the state of one subscription in the
  hands of one owner, with its view `SubscriptionView`. Every call that changes
  it says how the view changes.
- `src/recorder.rs`: the functions that are handed in to be called, each with
  the record of the calls made of it.
- `src/polling.rs`: one pass over a list, from where the round-robin index
  points, within a fragment limit.
- `src/snapshot.rs`: the other steps on a list that is never changed in place:
  the next list with an item more or less, searches, sums and counts.
- `src/conductor.rs`, `src/channel.rs`, `src/error.rs`: what is asked of the
  conductor, when a request is refused, and channel addresses.
- `src/image.rs`: what a subscription knows of an image.
- `src/image_list.rs`: the `arc_swap::ArcSwap` that holds the current list,
  with what is trusted of it.
- `src/laws.rs`: what holds over several calls.
- `app/`: the subscription as a client shares it between the polling thread and
  the conductor's thread. It swaps snapshots and keeps the atomics; the steps
  that it takes on them are those of the library.

## Images

Reading a log buffer, and the close state that the copies of an image share,
belong to the media layer. The calls that need them (`poll`, `controlled_poll`,
`block_poll`, `poll_end_of_streams`, `is_connected`, `remove_image`) take them as
functions. A function comes in a recorder, which keeps, for contracts only, the
calls that were made of it; each contract says exactly which calls the record
grows by, in what order, and what they returned. `remove_image` takes one that
can be called once.

What such a function may return is bounded where a sum has to fit: a pass asks
that what it has read after each image, and what that leaves of its limit for
the next one, fit in an `i32` (`pass_fits` in `src/polling.rs`), and `block_poll`
that the lengths add up within an `i64`, as up to 2^32 images always do. Within
that a function may return anything, a negative count among it.
