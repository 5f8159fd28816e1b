//! The bounded queue between the sniffer and the publisher.

use std::collections::VecDeque;
use vstd::prelude::*;

verus! {

/// Number of events the queue between sniffer and publisher can hold.
pub const CHANNEL_CAPACITY: usize = 32;

/// The largest capacity a queue can be made with.
pub const MAX_CAPACITY: usize = 65_536;

/// One observation of a device. It is of fixed size and holds the privacy
/// hash of the transmitter, never the address itself.
#[derive(Debug, Clone, Copy)]
pub struct DeviceEvent {
    pub mac_hash: [u8; 32],
    /// Signal strength in dBm.
    pub rssi: i8,
    pub channel: u8,
    /// Microseconds since the station booted.
    pub timestamp: u64,
}

/// What an event holds, with the hash as a sequence of bytes.
pub struct EventView {
    pub mac_hash: Seq<u8>,
    pub rssi: i8,
    pub channel: u8,
    pub timestamp: u64,
}

impl View for DeviceEvent {
    type V = EventView;

    open spec fn view(&self) -> EventView {
        EventView {
            mac_hash: self.mac_hash@,
            rssi: self.rssi,
            channel: self.channel,
            timestamp: self.timestamp,
        }
    }
}

/// Why an event was not taken.
#[derive(Debug, Clone, Copy, PartialEq, Eq, Structural)]
pub enum SendError {
    /// The queue holds as many events as it was made for.
    Full,
}

/// A first-in, first-out queue of events whose capacity is fixed when it is
/// made. Sending never waits: a full queue refuses the event.
pub struct EventChannel {
    queue: VecDeque<DeviceEvent>,
    capacity: usize,
}

impl View for EventChannel {
    type V = Seq<EventView>;

    /// The queued events, oldest first.
    closed spec fn view(&self) -> Seq<EventView> {
        self.queue@.map_values(|e: DeviceEvent| e@)
    }
}

impl EventChannel {
    /// The queue holds no more events than it was made for.
    pub closed spec fn wf(&self) -> bool {
        self.queue@.len() <= self.capacity
    }

    /// The number of events the queue was made for.
    pub closed spec fn spec_capacity(&self) -> nat {
        self.capacity as nat
    }

    /// An empty queue that holds up to `capacity` events. Its memory is
    /// set aside here, once: sending never allocates.
    pub fn with_capacity(capacity: usize) -> (channel: Self)
        requires
            capacity <= MAX_CAPACITY,
        ensures
            channel.wf(),
            channel@ == Seq::<EventView>::empty(),
            channel.spec_capacity() == capacity,
    {
        let channel = EventChannel { queue: VecDeque::with_capacity(capacity), capacity };
        assert(channel@ =~= Seq::<EventView>::empty());
        channel
    }

    pub fn capacity(&self) -> (n: usize)
        ensures
            n == self.spec_capacity(),
    {
        self.capacity
    }

    /// The number of queued events. It never exceeds the capacity.
    pub fn len(&self) -> (n: usize)
        requires
            self.wf(),
        ensures
            n == self@.len(),
            n <= self.spec_capacity(),
    {
        self.queue.len()
    }

    pub fn is_full(&self) -> (b: bool)
        requires
            self.wf(),
        ensures
            b == (self@.len() == self.spec_capacity()),
            self@.len() <= self.spec_capacity(),
    {
        self.queue.len() == self.capacity
    }

    /// Queues `event` behind the others, or refuses it when the queue is
    /// full. A refused event leaves the queue as it was.
    pub fn try_send(&mut self, event: DeviceEvent) -> (sent: Result<(), SendError>)
        requires
            old(self).wf(),
        ensures
            final(self).wf(),
            final(self).spec_capacity() == old(self).spec_capacity(),
            sent.is_ok() <==> old(self)@.len() < old(self).spec_capacity(),
            sent.is_ok() ==> final(self)@ == old(self)@.push(event@),
            sent.is_err() ==> final(self)@ == old(self)@ && sent == Err::<(), SendError>(
                SendError::Full,
            ),
    {
        if self.queue.len() >= self.capacity {
            return Err(SendError::Full);
        }
        self.queue.push_back(event);
        assert(self@ =~= old(self)@.push(event@));
        Ok(())
    }

    /// Takes the oldest queued event, if there is one.
    pub fn try_recv(&mut self) -> (event: Option<DeviceEvent>)
        requires
            old(self).wf(),
        ensures
            final(self).wf(),
            final(self).spec_capacity() == old(self).spec_capacity(),
            event.is_some() <==> old(self)@.len() > 0,
            event.is_some() ==> event.unwrap()@ == old(self)@[0] && final(self)@ == old(
                self,
            )@.skip(1),
            event.is_none() ==> final(self)@ == old(self)@,
    {
        let event = self.queue.pop_front();
        proof {
            if event.is_some() {
                assert(self.queue@ =~= old(self).queue@.skip(1));
                assert(self@ =~= old(self)@.skip(1));
            }
        }
        event
    }
}

/// The queue between the sniffer and the publisher: empty, with room for 32
/// events.
pub fn create_event_channel() -> (channel: EventChannel)
    ensures
        channel.wf(),
        channel@ == Seq::<EventView>::empty(),
        channel.spec_capacity() == CHANNEL_CAPACITY,
{
    EventChannel::with_capacity(CHANNEL_CAPACITY)
}

/// Events leave in the order in which they were taken: an event that is
/// sent stands behind all that were queued before it, which stay as they
/// were, and what leaves is always the one that has waited longest.
pub proof fn lemma_fifo(queue: Seq<EventView>, event: EventView)
    ensures
        queue.push(event).take(queue.len() as int) == queue,
        queue.push(event)[queue.len() as int] == event,
        queue.len() > 0 ==> queue.push(event).skip(1) == queue.skip(1).push(event),
{
    assert(queue.push(event).take(queue.len() as int) =~= queue);
    if queue.len() > 0 {
        assert(queue.push(event).skip(1) =~= queue.skip(1).push(event));
    }
}

} // verus!
