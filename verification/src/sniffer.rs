//! The receive path of a station: filter, count, shed, anonymise, queue.
//!
//! Every frame the radio delivers goes through [`Sniffer::on_frame`], which
//! runs in bounded time, allocates nothing and never waits: an event that
//! the queue cannot take is counted and dropped.

use vstd::prelude::*;

use crate::channel::{DeviceEvent, EventChannel, EventView};
use crate::digest::{privacy_hash, spec_sha256};
use crate::mac::{spec_is_broadcast, spec_is_multicast, MacAddress, MAC_HEADER_LEN};

verus! {

/// Of the accepted frames, one in this many is forwarded.
pub const SEND_RATE: u32 = 50;

/// How often an accepted frame is worth a log line.
pub const LOG_RATE: u32 = 100;

/// What became of one frame.
#[derive(Debug, Clone, Copy, PartialEq, Eq, Structural)]
pub enum Verdict {
    /// Shorter than a MAC header. Not counted.
    TooShort,
    /// Sent from the broadcast address. Not counted.
    Broadcast,
    /// Sent from a group address. Not counted.
    Multicast,
    /// Counted, and shed by the rate limit.
    Shed,
    /// Counted and due, but no queue has been set.
    NoChannel,
    /// Counted, and its event queued.
    Enqueued,
    /// Counted, and its event dropped because the queue was full.
    Dropped,
}

/// The station's receive state: three counters and the queue's producing end.
pub struct Sniffer {
    packet_count: u32,
    sent_count: u32,
    dropped_count: u32,
    sender: Option<EventChannel>,
}

/// The receive state as plain values.
pub struct SnifferView {
    /// Frames accepted since the counter was last reset.
    pub packets: u32,
    /// Events queued.
    pub sent: u32,
    /// Events dropped on a full queue.
    pub dropped: u32,
    /// The queued events, oldest first, once a queue has been set.
    pub queue: Option<Seq<EventView>>,
    /// The number of events the queue was made for.
    pub capacity: nat,
}

/// One delivery of the radio: the frame's bytes, and what the driver
/// reports beside them.
pub struct FrameInput {
    pub bytes: Seq<u8>,
    pub rssi: i8,
    pub channel: u8,
    /// Microseconds since the station booted.
    pub timestamp: u64,
}

/// The transmitter address of a frame that holds a whole header.
pub open spec fn spec_source(frame: Seq<u8>) -> Seq<u8> {
    frame.subrange(10, 16)
}

/// A frame passes the filter when it holds a whole header and its
/// transmitter is neither the broadcast address nor a group address.
pub open spec fn spec_accepts(frame: Seq<u8>) -> bool {
    &&& frame.len() >= MAC_HEADER_LEN
    &&& !spec_is_broadcast(spec_source(frame))
    &&& !spec_is_multicast(spec_source(frame))
}

/// The event that a forwarded frame gives: the hash of the transmitter, not
/// the address.
pub open spec fn spec_event(input: FrameInput) -> EventView {
    EventView {
        mac_hash: spec_sha256(spec_source(input.bytes)),
        rssi: input.rssi,
        channel: input.channel,
        timestamp: input.timestamp,
    }
}

/// The counter's successor. It wraps, as the counters do.
pub open spec fn spec_bump(n: u32) -> u32 {
    if n == u32::MAX {
        0
    } else {
        (n + 1) as u32
    }
}

/// What becomes of a frame in a given state.
pub open spec fn spec_verdict(s: SnifferView, input: FrameInput) -> Verdict {
    if input.bytes.len() < MAC_HEADER_LEN {
        Verdict::TooShort
    } else if spec_is_broadcast(spec_source(input.bytes)) {
        Verdict::Broadcast
    } else if spec_is_multicast(spec_source(input.bytes)) {
        Verdict::Multicast
    } else if s.packets % SEND_RATE != 0 {
        Verdict::Shed
    } else if s.queue.is_none() {
        Verdict::NoChannel
    } else if s.queue.unwrap().len() < s.capacity {
        Verdict::Enqueued
    } else {
        Verdict::Dropped
    }
}

/// The state after a frame.
pub open spec fn spec_on_frame(s: SnifferView, input: FrameInput) -> SnifferView {
    match spec_verdict(s, input) {
        Verdict::TooShort | Verdict::Broadcast | Verdict::Multicast => s,
        Verdict::Shed | Verdict::NoChannel => SnifferView { packets: spec_bump(s.packets), ..s },
        Verdict::Enqueued => SnifferView {
            packets: spec_bump(s.packets),
            sent: spec_bump(s.sent),
            queue: Some(s.queue.unwrap().push(spec_event(input))),
            ..s
        },
        Verdict::Dropped => SnifferView {
            packets: spec_bump(s.packets),
            dropped: spec_bump(s.dropped),
            ..s
        },
    }
}

impl View for Sniffer {
    type V = SnifferView;

    closed spec fn view(&self) -> SnifferView {
        SnifferView {
            packets: self.packet_count,
            sent: self.sent_count,
            dropped: self.dropped_count,
            queue: match self.sender {
                Some(channel) => Some(channel@),
                None => None,
            },
            capacity: match self.sender {
                Some(channel) => channel.spec_capacity(),
                None => 0,
            },
        }
    }
}

impl Sniffer {
    /// The queue, if one is set, holds no more than it was made for.
    pub closed spec fn wf(&self) -> bool {
        match self.sender {
            Some(channel) => channel.wf(),
            None => true,
        }
    }

    /// A sniffer that has seen nothing and has no queue yet.
    pub fn new() -> (sniffer: Self)
        ensures
            sniffer.wf(),
            sniffer@ == (SnifferView { packets: 0, sent: 0, dropped: 0, queue: None, capacity: 0 }),
    {
        Sniffer { packet_count: 0, sent_count: 0, dropped_count: 0, sender: None }
    }

    /// Handles one frame as the radio delivers it. Frames that are too short
    /// or sent from the broadcast or a group address are discarded without a
    /// trace. Every other frame is counted, and every fiftieth of them,
    /// starting with the first, is turned into an event and offered to the
    /// queue without waiting.
    pub fn on_frame(&mut self, frame: &[u8], rssi: i8, channel: u8, timestamp: u64) -> (verdict:
        Verdict)
        requires
            old(self).wf(),
        ensures
            final(self).wf(),
            verdict == spec_verdict(
                old(self)@,
                FrameInput { bytes: frame@, rssi, channel, timestamp },
            ),
            final(self)@ == spec_on_frame(
                old(self)@,
                FrameInput { bytes: frame@, rssi, channel, timestamp },
            ),
    {
        if frame.len() < MAC_HEADER_LEN {
            return Verdict::TooShort;
        }
        let source = MacAddress(
            [frame[10], frame[11], frame[12], frame[13], frame[14], frame[15]],
        );
        assert(source@ =~= spec_source(frame@));
        if source.is_broadcast() {
            return Verdict::Broadcast;
        }
        if source.is_multicast() {
            return Verdict::Multicast;
        }
        let count: u32 = self.packet_count;
        self.packet_count = count.wrapping_add(1);
        if count % SEND_RATE != 0 {
            return Verdict::Shed;
        }
        match &mut self.sender {
            None => Verdict::NoChannel,
            Some(sender) => {
                let event = DeviceEvent {
                    mac_hash: privacy_hash(&source),
                    rssi,
                    channel,
                    timestamp,
                };
                match sender.try_send(event) {
                    Ok(()) => {
                        self.sent_count = self.sent_count.wrapping_add(1);
                        Verdict::Enqueued
                    },
                    Err(_) => {
                        self.dropped_count = self.dropped_count.wrapping_add(1);
                        Verdict::Dropped
                    },
                }
            },
        }
    }

    /// Takes the oldest queued event for the publisher, if there is one.
    /// The counters stay as they are.
    pub fn next_event(&mut self) -> (event: Option<DeviceEvent>)
        requires
            old(self).wf(),
        ensures
            final(self).wf(),
            event.is_some() <==> old(self)@.queue.is_some() && old(self)@.queue.unwrap().len() > 0,
            event.is_some() ==> event.unwrap()@ == old(self)@.queue.unwrap()[0] && final(self)@
                == (SnifferView { queue: Some(old(self)@.queue.unwrap().skip(1)), ..old(self)@ }),
            event.is_none() ==> final(self)@ == old(self)@,
    {
        match &mut self.sender {
            None => None,
            Some(sender) => sender.try_recv(),
        }
    }
}

/// Whether the frame counted as number `count` is worth a log line: every
/// hundredth is.
pub fn log_due(count: u32) -> (due: bool)
    ensures
        due == (count % LOG_RATE == 0),
{
    count % LOG_RATE == 0
}

/// Hands the sniffer the queue that its events go to, in place of any
/// earlier one.
pub fn set_event_sender(sniffer: &mut Sniffer, sender: EventChannel)
    requires
        old(sniffer).wf(),
        sender.wf(),
    ensures
        final(sniffer).wf(),
        final(sniffer)@ == (SnifferView {
            queue: Some(sender@),
            capacity: sender.spec_capacity(),
            ..old(sniffer)@
        }),
{
    sniffer.sender = Some(sender);
}

/// The number of frames accepted since the counter was last reset.
pub fn get_packet_count(sniffer: &Sniffer) -> (n: u32)
    ensures
        n == sniffer@.packets,
{
    sniffer.packet_count
}

/// The number of events dropped because the queue was full.
pub fn get_dropped_count(sniffer: &Sniffer) -> (n: u32)
    ensures
        n == sniffer@.dropped,
{
    sniffer.dropped_count
}

/// The number of events queued.
pub fn get_sent_count(sniffer: &Sniffer) -> (n: u32)
    ensures
        n == sniffer@.sent,
{
    sniffer.sent_count
}

/// Sets the count of accepted frames back to zero. The other two counters
/// and the queue stay.
pub fn reset_packet_count(sniffer: &mut Sniffer)
    requires
        old(sniffer).wf(),
    ensures
        final(sniffer).wf(),
        final(sniffer)@ == (SnifferView { packets: 0, ..old(sniffer)@ }),
{
    sniffer.packet_count = 0;
}

/// The state after a run of frames, handled in order.
pub open spec fn spec_run(s: SnifferView, inputs: Seq<FrameInput>) -> SnifferView
    decreases inputs.len(),
{
    if inputs.len() == 0 {
        s
    } else {
        spec_on_frame(spec_run(s, inputs.drop_last()), inputs.last())
    }
}

/// Of `n` accepted frames counted from zero, the number that the rate limit
/// lets through: the first, the fifty-first, and so on.
pub open spec fn spec_due(n: nat) -> nat {
    (n + 49) / 50
}

/// A frame leaves a trace only if it holds a whole header and its
/// transmitter is neither the broadcast address nor a group address; and
/// an event enters the queue only for such a frame, last in line, with the
/// hash of that transmitter.
pub proof fn lemma_only_accepted_frames_count(s: SnifferView, input: FrameInput)
    ensures
        !spec_accepts(input.bytes) ==> spec_on_frame(s, input) == s,
        spec_accepts(input.bytes) ==> spec_on_frame(s, input).packets == spec_bump(s.packets),
        spec_on_frame(s, input).queue != s.queue ==> {
            &&& spec_accepts(input.bytes)
            &&& s.queue.is_some()
            &&& spec_on_frame(s, input).queue == Some(s.queue.unwrap().push(spec_event(input)))
        },
{
}

/// Counted from zero with a queue set, `n` accepted frames give as many
/// events, queued and dropped together, as the rate limit lets through:
/// `n / 50` rounded up, which is `n / 50` or one more.
pub proof fn lemma_forwarded_share(s: SnifferView, inputs: Seq<FrameInput>)
    requires
        s.packets == 0,
        s.sent == 0,
        s.dropped == 0,
        s.queue.is_some(),
        inputs.len() <= u32::MAX,
        forall|i: int| 0 <= i < inputs.len() ==> spec_accepts(#[trigger] inputs[i].bytes),
    ensures
        spec_run(s, inputs).packets == inputs.len(),
        spec_run(s, inputs).sent + spec_run(s, inputs).dropped == spec_due(inputs.len()),
        inputs.len() / 50 <= spec_due(inputs.len()) <= inputs.len() / 50 + 1,
        spec_run(s, inputs).queue.is_some(),
    decreases inputs.len(),
{
    if inputs.len() > 0 {
        let before = inputs.drop_last();
        assert forall|i: int| 0 <= i < before.len() implies spec_accepts(
            #[trigger] before[i].bytes,
        ) by {
            assert(before[i] == inputs[i]);
        }
        lemma_forwarded_share(s, before);
        assert(spec_accepts(inputs.last().bytes));
    }
}

/// While nothing is drawn from a queue that started empty, the first
/// `capacity` of the events that the rate limit lets through are queued,
/// and all later ones are dropped.
pub proof fn lemma_idle_consumer(s: SnifferView, inputs: Seq<FrameInput>)
    requires
        s.packets == 0,
        s.sent == 0,
        s.dropped == 0,
        s.queue == Some(Seq::<EventView>::empty()),
        inputs.len() <= u32::MAX,
        forall|i: int| 0 <= i < inputs.len() ==> spec_accepts(#[trigger] inputs[i].bytes),
    ensures
        spec_run(s, inputs).sent == if spec_due(inputs.len()) <= s.capacity {
            spec_due(inputs.len())
        } else {
            s.capacity
        },
        spec_run(s, inputs).dropped == spec_due(inputs.len()) - spec_run(s, inputs).sent,
        spec_run(s, inputs).queue.is_some(),
        spec_run(s, inputs).queue.unwrap().len() == spec_run(s, inputs).sent,
        spec_run(s, inputs).capacity == s.capacity,
    decreases inputs.len(),
{
    lemma_forwarded_share(s, inputs);
    if inputs.len() > 0 {
        let before = inputs.drop_last();
        assert forall|i: int| 0 <= i < before.len() implies spec_accepts(
            #[trigger] before[i].bytes,
        ) by {
            assert(before[i] == inputs[i]);
        }
        lemma_idle_consumer(s, before);
        lemma_forwarded_share(s, before);
        assert(spec_accepts(inputs.last().bytes));
    }
}

} // verus!
