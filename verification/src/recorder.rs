//! Functions that are handed in to be called, each with the record of the
//! calls that have been made of it.
//!
//! Outside this file a function can be called through its recorder only, since
//! the fields are private. Within it, that the record is what was done with the
//! function rests on the bodies of `PollRecorder::call`, `ProbeRecorder::call`,
//! `ReportRecorder::ask` and `ReportRecorder::tell`: each makes one call and
//! records that call. Their contracts fix what is recorded, but Verus keeps no
//! count of the calls made of a function, so that it is one call is not proved.
//! The record exists for contracts alone and takes no room.

use vstd::prelude::*;

verus! {

/// A call that was made on `item` with `left`, and what it returned.
pub struct PollCall<T> {
    pub item: T,
    pub left: i32,
    pub count: i32,
}

/// A function that reads from an item, at most as much as it is told, and
/// returns how much it read.
pub struct PollRecorder<T, F: FnMut(&T, i32) -> i32> {
    kind: F,
    calls: Ghost<Seq<PollCall<T>>>,
}

impl<T, F: FnMut(&T, i32) -> i32> PollRecorder<T, F> {
    /// The function itself.
    pub closed spec fn kind(&self) -> F {
        self.kind
    }

    /// The calls made of it so far, in order.
    pub closed spec fn calls(&self) -> Seq<PollCall<T>> {
        self.calls@
    }

    /// `kind` with no call made of it.
    pub fn new(kind: F) -> (recorder: Self)
        ensures
            recorder.kind() == kind,
            recorder.calls() == Seq::<PollCall<T>>::empty(),
    {
        PollRecorder { kind, calls: Ghost(Seq::empty()) }
    }

    /// Calls the function.
    pub fn call(&mut self, item: &T, left: i32) -> (count: i32)
        requires
            call_requires(old(self).kind(), (item, left)),
        ensures
            final(self).kind() == old(self).kind(),
            call_ensures(old(self).kind(), (item, left), count),
            final(self).calls() == old(self).calls().push(PollCall { item: *item, left, count }),
    {
        let count: i32 = (self.kind)(item, left);
        self.calls = Ghost(self.calls@.push(PollCall { item: *item, left, count }));
        count
    }
}

/// A question that was put to `item`, and the answer.
pub struct ProbeCall<T> {
    pub item: T,
    pub answer: bool,
}

/// A function that answers a question about an item.
pub struct ProbeRecorder<T, F: FnMut(&T) -> bool> {
    probe: F,
    calls: Ghost<Seq<ProbeCall<T>>>,
}

impl<T, F: FnMut(&T) -> bool> ProbeRecorder<T, F> {
    /// The function itself.
    pub closed spec fn probe(&self) -> F {
        self.probe
    }

    /// The calls made of it so far, in order.
    pub closed spec fn calls(&self) -> Seq<ProbeCall<T>> {
        self.calls@
    }

    /// `probe` with no call made of it.
    pub fn new(probe: F) -> (recorder: Self)
        ensures
            recorder.probe() == probe,
            recorder.calls() == Seq::<ProbeCall<T>>::empty(),
    {
        ProbeRecorder { probe, calls: Ghost(Seq::empty()) }
    }

    /// Calls the function.
    pub fn call(&mut self, item: &T) -> (answer: bool)
        requires
            call_requires(old(self).probe(), (item,)),
        ensures
            final(self).probe() == old(self).probe(),
            call_ensures(old(self).probe(), (item,), answer),
            final(self).calls() == old(self).calls().push(ProbeCall { item: *item, answer }),
    {
        let answer = (self.probe)(item);
        self.calls = Ghost(self.calls@.push(ProbeCall { item: *item, answer }));
        answer
    }
}

/// What was done with the two functions of a report: a question put to `item`,
/// or word given of it.
pub enum ReportEvent<T> {
    Asked { item: T, answer: bool },
    Told { item: T },
}

/// A function that answers a question about an item and a function that is
/// told of one, with one record for both.
pub struct ReportRecorder<T, F: FnMut(&T) -> bool, H: FnMut(&T)> {
    probe: F,
    handler: H,
    events: Ghost<Seq<ReportEvent<T>>>,
}

impl<T, F: FnMut(&T) -> bool, H: FnMut(&T)> ReportRecorder<T, F, H> {
    /// The function that answers.
    pub closed spec fn probe(&self) -> F {
        self.probe
    }

    /// The function that is told.
    pub closed spec fn handler(&self) -> H {
        self.handler
    }

    /// The calls made of the two so far, in order.
    pub closed spec fn events(&self) -> Seq<ReportEvent<T>> {
        self.events@
    }

    /// `probe` and `handler` with no call made of them.
    pub fn new(probe: F, handler: H) -> (recorder: Self)
        ensures
            recorder.probe() == probe,
            recorder.handler() == handler,
            recorder.events() == Seq::<ReportEvent<T>>::empty(),
    {
        ReportRecorder { probe, handler, events: Ghost(Seq::empty()) }
    }

    /// Calls the function that answers.
    pub fn ask(&mut self, item: &T) -> (answer: bool)
        requires
            call_requires(old(self).probe(), (item,)),
        ensures
            final(self).probe() == old(self).probe(),
            final(self).handler() == old(self).handler(),
            call_ensures(old(self).probe(), (item,), answer),
            final(self).events() == old(self).events().push(
                (ReportEvent::Asked { item: *item, answer }),
            ),
    {
        let answer = (self.probe)(item);
        self.events = Ghost(self.events@.push(ReportEvent::Asked { item: *item, answer }));
        answer
    }

    /// Calls the function that is told.
    pub fn tell(&mut self, item: &T)
        requires
            call_requires(old(self).handler(), (item,)),
        ensures
            final(self).probe() == old(self).probe(),
            final(self).handler() == old(self).handler(),
            call_ensures(old(self).handler(), (item,), ()),
            final(self).events() == old(self).events().push((ReportEvent::Told { item: *item })),
    {
        (self.handler)(item);
        self.events = Ghost(self.events@.push(ReportEvent::Told { item: *item }));
    }
}

} // verus!
