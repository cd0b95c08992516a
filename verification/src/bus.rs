use vstd::prelude::*;

use crate::types::{mview, MessageView, ReceivedMessage};

verus! {

/// The broadcast channel that turns an arriving message into a live
/// stream: one producer, any number of subscribers, each reading the
/// published messages in publish order through its own cursor. A
/// publish never blocks and never fails — with no subscriber at all it
/// still succeeds. A subscriber sees exactly what is published after it
/// subscribed, in order; dropping one subscriber leaves every other
/// untouched.
pub struct EventBus {
    /// Everything published, in publish order.
    pub events: Vec<ReceivedMessage>,
    /// One cursor per subscriber: the index of the next message it has
    /// not seen; a dropped subscriber's slot is cleared.
    pub cursors: Vec<Option<usize>>,
}

impl EventBus {
    /// All published messages, as values, in publish order.
    pub open spec fn events_view(self) -> Seq<MessageView> {
        self.events@.map_values(|m: ReceivedMessage| mview(m))
    }

    /// Every live cursor points into the published sequence.
    pub open spec fn wf(self) -> bool {
        forall|i: int|
            0 <= i < self.cursors@.len() ==> match #[trigger] self.cursors@[i] {
                Some(c) => c <= self.events@.len(),
                None => true,
            }
    }

    pub fn new() -> (r: EventBus)
        ensures
            r.wf(),
            r.events_view().len() == 0,
            r.cursors@.len() == 0,
    {
        let r = EventBus { events: Vec::new(), cursors: Vec::new() };
        proof {
            assert(r.events_view() =~= Seq::<MessageView>::empty());
        }
        r
    }

    /// Publishes a message: it is appended to the stream, in order, and
    /// the publish succeeds whatever the number of subscribers — zero
    /// included. No cursor moves: no subscriber is blocked or skipped.
    pub fn publish(&mut self, message: ReceivedMessage)
        requires
            old(self).wf(),
        ensures
            final(self).wf(),
            final(self).events_view() == old(self).events_view().push(mview(message)),
            final(self).cursors@ == old(self).cursors@,
    {
        self.events.push(message);
        proof {
            assert(self.events_view() =~= old(self).events_view().push(
                mview(self.events@.last()),
            ));
        }
    }

    /// Adds a subscriber, which will see exactly what is published from
    /// now on.
    pub fn subscribe(&mut self) -> (id: usize)
        requires
            old(self).wf(),
        ensures
            final(self).wf(),
            id == old(self).cursors@.len(),
            final(self).cursors@ == old(self).cursors@.push(Some((old(self).events@.len()) as usize)),
            final(self).events_view() == old(self).events_view(),
    {
        let id = self.cursors.len();
        let at = self.events.len();
        self.cursors.push(Some(at));
        id
    }

    /// Hands a subscriber everything published since it last looked, in
    /// publish order, and moves its cursor past it.
    pub fn poll(&mut self, id: usize) -> (r: Vec<ReceivedMessage>)
        requires
            old(self).wf(),
            id < old(self).cursors@.len(),
            old(self).cursors@[id as int] is Some,
        ensures
            final(self).wf(),
            final(self).events_view() == old(self).events_view(),
            r@.map_values(|m: ReceivedMessage| mview(m)) == old(self).events_view().skip(
                old(self).cursors@[id as int]->0 as int,
            ),
            final(self).cursors@ == old(self).cursors@.update(
                id as int,
                Some((old(self).events@.len()) as usize),
            ),
    {
        let cur = match self.cursors[id] {
            Some(c) => c,
            None => {
                proof {
                    assert(false);
                }
                0
            },
        };
        let n = self.events.len();
        let mut r: Vec<ReceivedMessage> = Vec::new();
        let mut i: usize = cur;
        while i < n
            invariant
                cur <= i <= n,
                n == self.events@.len(),
                r@.len() == i - cur,
                forall|k: int|
                    0 <= k < r@.len() ==> mview(#[trigger] r@[k]) == mview(self.events@[cur + k]),
            decreases n - i,
        {
            r.push(self.events[i].duplicate());
            i += 1;
        }
        self.cursors.set(id, Some(n));
        proof {
            assert(r@.map_values(|m: ReceivedMessage| mview(m)) =~= self.events_view().skip(
                cur as int,
            ));
        }
        r
    }

    /// Drops a subscriber. The stream and every other subscriber's
    /// cursor are untouched: one closed reader never affects the rest.
    pub fn unsubscribe(&mut self, id: usize)
        requires
            old(self).wf(),
            id < old(self).cursors@.len(),
        ensures
            final(self).wf(),
            final(self).events_view() == old(self).events_view(),
            final(self).cursors@ == old(self).cursors@.update(id as int, None),
    {
        self.cursors.set(id, None);
    }
}

} // verus!
