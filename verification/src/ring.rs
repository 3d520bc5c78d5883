//! A bounded buffer between senders and one receiver. Sending never waits: into
//! a full buffer it drops the oldest item, and counts it.

use std::collections::VecDeque;

use vstd::prelude::*;

verus! {

/// The state of a ring channel.
pub struct RingState<T> {
    queue: VecDeque<T>,
    capacity: usize,
    dropped: u64,
    closed: bool,
    senders: usize,
}

/// What a ring channel holds.
#[verifier::ext_equal]
#[verifier::reject_recursive_types(T)]
pub ghost struct RingView<T> {
    /// The items that wait, the oldest first.
    pub queue: Seq<T>,
    /// How many items fit.
    pub capacity: nat,
    /// How many items were dropped, modulo 2^64.
    pub dropped: int,
    /// Whether nothing more is to come once the buffer is empty.
    pub closed: bool,
    /// How many senders there are, modulo the range of `usize`.
    pub senders: int,
}

/// What an attempt to receive gives.
#[derive(Debug)]
pub enum Received<T> {
    /// The oldest item.
    Item(T),
    /// The channel is closed and empty.
    Closed,
    /// Nothing is there yet.
    Wait,
}

impl<T> RingView<T> {
    /// A channel holds no more than fits.
    pub open spec fn valid(self) -> bool {
        &&& self.capacity > 0
        &&& self.queue.len() <= self.capacity
        &&& 0 <= self.dropped <= u64::MAX
    }

    /// A new channel, with one sender.
    pub open spec fn fresh(capacity: nat) -> RingView<T> {
        RingView { queue: Seq::empty(), capacity, dropped: 0, closed: false, senders: 1 }
    }

    /// The channel after an item was sent.
    pub open spec fn sent(self, value: T) -> RingView<T> {
        if self.queue.len() >= self.capacity {
            RingView {
                queue: self.queue.skip(1).push(value),
                dropped: (self.dropped + 1) % 0x1_0000_0000_0000_0000,
                ..self
            }
        } else {
            RingView { queue: self.queue.push(value), ..self }
        }
    }

    /// The channel after the given items were sent, one after the other.
    pub open spec fn all_sent(self, values: Seq<T>) -> RingView<T>
        decreases values.len(),
    {
        if values.len() == 0 {
            self
        } else {
            self.all_sent(values.drop_last()).sent(values.last())
        }
    }

    /// The channel after it was closed.
    pub open spec fn shut(self) -> RingView<T> {
        RingView { closed: true, ..self }
    }

    /// What receiving gives, and the channel after it.
    pub open spec fn received(self) -> (Received<T>, RingView<T>) {
        if self.queue.len() > 0 {
            (Received::Item(self.queue[0]), RingView { queue: self.queue.skip(1), ..self })
        } else if self.closed {
            (Received::Closed, self)
        } else {
            (Received::Wait, self)
        }
    }
}

impl<T> View for RingState<T> {
    type V = RingView<T>;

    closed spec fn view(&self) -> RingView<T> {
        RingView {
            queue: self.queue@,
            capacity: self.capacity as nat,
            dropped: self.dropped as int,
            closed: self.closed,
            senders: self.senders as int,
        }
    }
}

impl<T> RingState<T> {
    /// An open channel for `capacity` items, which has to be more than none.
    pub fn new(capacity: usize) -> (ring: RingState<T>)
        requires
            capacity > 0,
        ensures
            ring@ == RingView::<T>::fresh(capacity as nat),
            ring@.valid(),
    {
        RingState { queue: VecDeque::new(), capacity, dropped: 0, closed: false, senders: 1 }
    }

    /// Sends an item. If the buffer is full, its oldest item is dropped and counted.
    pub fn send(&mut self, value: T)
        requires
            old(self)@.valid(),
        ensures
            final(self)@ == old(self)@.sent(value),
            final(self)@.valid(),
    {
        let ghost before = self.queue@;
        if self.queue.len() >= self.capacity {
            let _ = self.queue.pop_front();
            proof {
                assert(self.queue@ =~= before.skip(1));
            }
            if self.dropped == u64::MAX {
                self.dropped = 0;
            } else {
                self.dropped = self.dropped + 1;
            }
        }
        self.queue.push_back(value);
    }

    /// How many items were dropped.
    pub fn dropped_count(&self) -> (count: u64)
        ensures
            count == self@.dropped,
    {
        self.dropped
    }

    /// Closes the channel. What the buffer holds can still be received.
    pub fn close(&mut self)
        ensures
            final(self)@ == old(self)@.shut(),
    {
        self.closed = true;
    }

    /// Counts one more sender.
    pub fn add_sender(&mut self)
        ensures
            final(self)@ == (RingView {
                senders: if old(self)@.senders == usize::MAX {
                    0
                } else {
                    old(self)@.senders + 1
                },
                ..old(self)@
            }),
            final(self)@ == old(self)@.joined(),
    {
        if self.senders == usize::MAX {
            self.senders = 0;
        } else {
            self.senders = self.senders + 1;
        }
    }

    /// Counts one sender less. The last one closes the channel, and the result
    /// says whether this was it.
    pub fn drop_sender(&mut self) -> (last: bool)
        ensures
            last == (old(self)@.senders == 1),
            final(self)@ == (RingView {
                senders: if old(self)@.senders == 0 {
                    usize::MAX as int
                } else {
                    old(self)@.senders - 1
                },
                closed: old(self)@.closed || last,
                ..old(self)@
            }),
            (last, final(self)@) == old(self)@.left(),
    {
        let last = self.senders == 1;
        if self.senders == 0 {
            self.senders = usize::MAX;
        } else {
            self.senders = self.senders - 1;
        }
        if last {
            self.closed = true;
        }
        last
    }

    /// Takes the oldest item, if there is one.
    pub fn receive(&mut self) -> (result: Received<T>)
        ensures
            (result, final(self)@) == old(self)@.received(),
            old(self)@.valid() ==> final(self)@.valid(),
    {
        let ghost before = self.queue@;
        match self.queue.pop_front() {
            Some(value) => {
                proof {
                    assert(self.queue@ =~= before.skip(1));
                }
                Received::Item(value)
            },
            None => if self.closed {
                Received::Closed
            } else {
                Received::Wait
            },
        }
    }
}

/// However many items are sent, the buffer holds the newest ones in the order in
/// which they were sent, as many as fit, and the others are counted: nothing is
/// lost without being counted.
pub proof fn sending_keeps_the_newest<T>(ring: RingView<T>, values: Seq<T>)
    requires
        ring.valid(),
        ring.dropped + values.len() <= u64::MAX,
    ensures
        ({
            let all = ring.queue + values;
            let after = ring.all_sent(values);
            let over = if all.len() > ring.capacity {
                all.len() - ring.capacity
            } else {
                0
            };
            &&& after.queue == all.skip(over)
            &&& after.dropped == ring.dropped + over
            &&& after.valid()
            &&& after.capacity == ring.capacity
            &&& after.closed == ring.closed
        }),
    decreases values.len(),
{
    let all = ring.queue + values;
    if values.len() == 0 {
        assert(all.skip(0) =~= ring.queue);
    } else {
        sending_keeps_the_newest(ring, values.drop_last());
        let before = ring.queue + values.drop_last();
        assert(all =~= before.push(values.last()));
        let over = if all.len() > ring.capacity {
            all.len() - ring.capacity
        } else {
            0
        };
        assert(ring.all_sent(values).queue =~= all.skip(over));
    }
}

/// Something that is done with a channel.
pub ghost enum Use<T> {
    /// An item is sent.
    Send(T),
    /// An item is asked for.
    Receive,
}

/// What has become of a channel that was used.
#[verifier::reject_recursive_types(T)]
pub ghost struct Run<T> {
    /// The channel.
    pub ring: RingView<T>,
    /// The items that were sent, in order.
    pub sent: Seq<T>,
    /// The items that were received, in order.
    pub got: Seq<T>,
    /// Where each of those stands among the items that were sent.
    pub places: Seq<int>,
}

/// What becomes of a fresh channel that is used in some way.
pub open spec fn run_of<T>(capacity: nat, uses: Seq<Use<T>>) -> Run<T>
    decreases uses.len(),
{
    if uses.len() == 0 {
        Run {
            ring: RingView::fresh(capacity),
            sent: Seq::empty(),
            got: Seq::empty(),
            places: Seq::empty(),
        }
    } else {
        let before = run_of(capacity, uses.drop_last());
        match uses.last() {
            Use::Send(value) => Run {
                ring: before.ring.sent(value),
                sent: before.sent.push(value),
                ..before
            },
            Use::Receive => match before.ring.received() {
                (Received::Item(item), ring) => Run {
                    ring,
                    got: before.got.push(item),
                    places: before.places.push(before.sent.len() - before.ring.queue.len()),
                    ..before
                },
                _ => before,
            },
        }
    }
}

/// However a channel is used, items come out in the order in which they went in, none
/// twice, and every item was received, is still in the buffer, or was dropped and
/// counted. The buffer holds the ones sent last.
pub proof fn items_come_out_in_order<T>(capacity: nat, uses: Seq<Use<T>>)
    requires
        capacity > 0,
        uses.len() <= u64::MAX,
    ensures
        ({
            let run = run_of(capacity, uses);
            let front = run.sent.len() - run.ring.queue.len();
            &&& run.ring.queue.len() <= capacity
            &&& run.sent.len() <= uses.len()
            &&& run.ring.dropped >= 0
            &&& run.sent.len() == run.got.len() + run.ring.dropped + run.ring.queue.len()
            &&& run.ring.queue == run.sent.skip(front)
            &&& run.places.len() == run.got.len()
            &&& forall|i: int|
                0 <= i < run.got.len() ==> 0 <= #[trigger] run.places[i] < front && run.got[i]
                    == run.sent[run.places[i]]
            &&& forall|i: int, j: int|
                0 <= i < j < run.got.len() ==> #[trigger] run.places[i]
                    < #[trigger] run.places[j]
        }),
    decreases uses.len(),
{
    let run = run_of(capacity, uses);
    if uses.len() == 0 {
        assert(run.ring.queue =~= run.sent.skip(0));
    } else {
        let before = run_of(capacity, uses.drop_last());
        items_come_out_in_order(capacity, uses.drop_last());
        capacity_is_kept(capacity, uses);
        capacity_is_kept(capacity, uses.drop_last());
        let front = run.sent.len() - run.ring.queue.len();
        assert(run.ring.queue =~= run.sent.skip(front));
        match uses.last() {
            Use::Send(value) => {
                assert forall|i: int| 0 <= i < run.got.len() implies 0 <= #[trigger] run.places[i]
                    < front && run.got[i] == run.sent[run.places[i]] by {
                    assert(0 <= before.places[i]);
                }
            },
            Use::Receive => {
                if before.ring.queue.len() > 0 {
                    let old_front = before.sent.len() - before.ring.queue.len();
                    assert(before.ring.queue[0] == before.sent[old_front]);
                    assert forall|i: int| 0 <= i < run.got.len() implies 0
                        <= #[trigger] run.places[i] < front && run.got[i]
                        == run.sent[run.places[i]] by {
                        if i < before.got.len() {
                            assert(0 <= before.places[i]);
                        }
                    }
                }
            },
        }
    }
}

proof fn capacity_is_kept<T>(capacity: nat, uses: Seq<Use<T>>)
    ensures
        run_of(capacity, uses).ring.capacity == capacity,
    decreases uses.len(),
{
    if uses.len() > 0 {
        capacity_is_kept(capacity, uses.drop_last());
    }
}

/// Closing takes nothing from the buffer: only an empty channel ends.
pub proof fn closing_keeps_what_is_buffered<T>(ring: RingView<T>)
    ensures
        ring.queue.len() > 0 ==> ring.shut().received().0 == ring.received().0,
        ring.shut().received().0 is Closed <==> ring.queue.len() == 0,
{
}

impl<T> RingView<T> {
    /// The channel with one more sender.
    pub open spec fn joined(self) -> RingView<T> {
        RingView {
            senders: if self.senders == usize::MAX {
                0
            } else {
                self.senders + 1
            },
            ..self
        }
    }

    /// Whether the sender that leaves is the last one, and the channel without it.
    pub open spec fn left(self) -> (bool, RingView<T>) {
        (
            self.senders == 1,
            RingView {
                senders: if self.senders == 0 {
                    usize::MAX as int
                } else {
                    self.senders - 1
                },
                closed: self.closed || self.senders == 1,
                ..self
            },
        )
    }
}

/// A channel is open while it has a sender: a sender that joins and leaves again changes
/// nothing, one of several closes nothing, and the last one closes the channel. What is
/// buffered stays.
pub proof fn the_last_sender_closes_the_channel<T>(ring: RingView<T>)
    requires
        1 <= ring.senders < usize::MAX,
    ensures
        ring.joined().senders == ring.senders + 1,
        ring.joined().left() == (false, ring),
        ring.left().0 <==> ring.senders == 1,
        ring.senders == 1 ==> ring.left().1.closed,
        ring.senders > 1 ==> ring.left().1.closed == ring.closed,
        ring.left().1.queue == ring.queue,
        ring.left().1.senders == ring.senders - 1,
{
}

/// A receiver gets the oldest item while there is one, waits while one can still come, and
/// is told the end only when none can.
pub proof fn receivers_wait_while_something_can_come<T>(ring: RingView<T>, value: T)
    requires
        ring.valid(),
    ensures
        ring.queue.len() > 0 ==> ring.received().0 == Received::Item(ring.queue[0])
            && ring.received().1.queue == ring.queue.skip(1),
        ring.queue.len() == 0 && !ring.closed ==> ring.received().0 is Wait,
        ring.queue.len() == 0 && ring.closed ==> ring.received().0 is Closed,
        ring.queue.len() == 0 ==> ring.received().1 == ring,
        ring.queue.len() == 0 ==> ring.sent(value).received().0 == Received::Item(value),
        ring.received().1.dropped == ring.dropped,
        ring.queue.len() == ring.capacity ==> ring.sent(value).queue.len() == ring.capacity
            && ring.sent(value).queue.last() == value,
        ring.queue.len() == ring.capacity && ring.dropped < u64::MAX ==> ring.sent(value).dropped
            == ring.dropped + 1,
        ring.queue.len() < ring.capacity ==> ring.sent(value).dropped == ring.dropped
            && ring.sent(value).queue == ring.queue.push(value),
{
    assert(Seq::<T>::empty().push(value)[0] == value);
    if ring.queue.len() == 0 {
        assert(ring.queue.push(value)[0] == value);
    }
}

/// An item that is sent into an empty channel is received next, and then none is left; the
/// number of items dropped is told as it is.
pub proof fn what_is_sent_is_received<T>(
    capacity: usize,
    fresh: RingState<T>,
    ring: &mut RingState<T>,
    value: T,
    receiver: &mut RingState<T>,
    received: Received<T>,
    later: &RingState<T>,
    dropped: u64,
)
    requires
        capacity > 0,
        call_ensures(RingState::<T>::new, (capacity,), fresh),
        *old(ring) == fresh,
        call_ensures(RingState::<T>::send, (ring, value), ()),
        old(receiver)@ == final(ring)@,
        call_ensures(RingState::<T>::receive, (receiver,), received),
        later@ == final(receiver)@,
        call_ensures(RingState::<T>::dropped_count, (later,), dropped),
    ensures
        fresh@.queue.len() == 0,
        fresh@.capacity == capacity,
        fresh@.senders == 1,
        !fresh@.closed,
        received == Received::Item(value),
        later@.queue.len() == 0,
        dropped == 0,
{
    assert(Seq::<T>::empty().push(value)[0] == value);
}

/// Senders that come and go, and the end of a channel.
pub proof fn channels_close_with_their_last_sender<T>(
    ring: &mut RingState<T>,
    more: &mut RingState<T>,
    last: bool,
    closing: &mut RingState<T>,
)
    requires
        1 <= old(ring)@.senders < usize::MAX,
        call_ensures(RingState::<T>::add_sender, (ring,), ()),
        old(more)@ == final(ring)@,
        call_ensures(RingState::<T>::drop_sender, (more,), last),
        call_ensures(RingState::<T>::close, (closing,), ()),
    ensures
        final(ring)@.senders == old(ring)@.senders + 1,
        !last,
        final(more)@ == old(ring)@,
        final(closing)@.closed,
        final(closing)@.queue == old(closing)@.queue,
        final(closing)@.dropped == old(closing)@.dropped,
{
}

} // verus!
