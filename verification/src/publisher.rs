//! The station's publisher: what it sends for each event it draws from the
//! queue, and what it does when the client cannot take a message.
//!
//! The publisher never retries and never blocks on the network: a message
//! the client refuses is counted as skipped and forgotten.

use vstd::prelude::*;
use vstd::string::*;

use crate::channel::{DeviceEvent, EventView};
use crate::wire::{encode_event, spec_payload, spec_topic, topic_for, MAX_PAYLOAD_LEN};

verus! {

/// How long the publisher waits for an event before it looks again, in
/// seconds.
pub const RECV_TIMEOUT_SECS: u64 = 5;

/// Of the skipped messages, one in this many is worth a log line.
pub const SKIP_LOG_RATE: u32 = 100;

/// How hard the broker tries to deliver a message.
#[derive(Debug, Clone, Copy, PartialEq, Eq, Structural)]
pub enum QoS {
    AtMostOnce,
    AtLeastOnce,
    ExactlyOnce,
}

/// One message for the broker.
#[derive(Debug)]
pub struct Publication {
    pub topic: String,
    pub payload: Vec<u8>,
    pub qos: QoS,
    pub retain: bool,
}

/// What waiting on the queue gave.
#[derive(Debug, Clone, Copy)]
pub enum Received {
    Event(DeviceEvent),
    /// Nothing arrived in time.
    Timeout,
    /// The producing end is gone for good.
    Disconnected,
}

/// What the publisher does next.
#[derive(Debug)]
pub enum Action {
    /// Hand this message to the client without waiting, then report how
    /// that went.
    Publish(Publication),
    /// Wait on the queue again.
    Wait,
    /// Leave the loop.
    Stop,
}

/// The publisher of one station.
pub struct MqttPublisher {
    station_id: String,
    skip_count: u32,
}

/// The publisher as plain values.
pub struct PublisherView {
    /// The station's id, which is also the client's id.
    pub station: Seq<char>,
    /// Messages the client did not take.
    pub skipped: u32,
}

impl View for MqttPublisher {
    type V = PublisherView;

    closed spec fn view(&self) -> PublisherView {
        PublisherView { station: self.station_id@, skipped: self.skip_count }
    }
}

/// The message that an event is published as: under the station's topic,
/// at most once, not retained.
pub open spec fn spec_is_publication(p: Publication, event: EventView, station: Seq<char>) -> bool {
    &&& p.topic@ == spec_topic(station)
    &&& p.payload@ == spec_payload(event, station)
    &&& p.qos == QoS::AtMostOnce
    &&& !p.retain
}

impl MqttPublisher {
    /// A publisher for the station `station_id` that has skipped nothing.
    pub fn new(station_id: &str) -> (publisher: Self)
        ensures
            publisher@ == (PublisherView { station: station_id@, skipped: 0 }),
    {
        MqttPublisher { station_id: String::from_str(station_id), skip_count: 0 }
    }

    /// The station's id.
    pub fn station_id(&self) -> (id: &str)
        ensures
            id@ == self@.station,
    {
        self.station_id.as_str()
    }

    /// The number of messages the client did not take.
    pub fn skipped(&self) -> (n: u32)
        ensures
            n == self@.skipped,
    {
        self.skip_count
    }

    /// The message for one event.
    pub fn publish_event(&self, event: &DeviceEvent) -> (publication: Publication)
        ensures
            spec_is_publication(publication, event@, self@.station),
    {
        let station = self.station_id.as_str();
        let mut payload = encode_event(
            &event.mac_hash,
            event.rssi,
            event.channel,
            event.timestamp,
            station,
        );
        if payload.len() > MAX_PAYLOAD_LEN {
            payload.truncate(MAX_PAYLOAD_LEN);
        }
        assert(payload@ =~= spec_payload(event@, self@.station));
        Publication { topic: topic_for(station), payload, qos: QoS::AtMostOnce, retain: false }
    }

    /// Decides what follows a wait on the queue: an event is published, a
    /// timeout means waiting again, and a queue without a producer ends the
    /// loop.
    pub fn on_received(&self, received: Received) -> (action: Action)
        ensures
            match received {
                Received::Event(event) => action matches Action::Publish(p)
                    && spec_is_publication(p, event@, self@.station),
                Received::Timeout => action is Wait,
                Received::Disconnected => action is Stop,
            },
    {
        match received {
            Received::Event(event) => Action::Publish(self.publish_event(&event)),
            Received::Timeout => Action::Wait,
            Received::Disconnected => Action::Stop,
        }
    }

    /// Records how handing a message to the client went. A refused message
    /// is counted as skipped; the result says whether that is worth a log
    /// line, which the first refusal and every hundredth after it is.
    pub fn on_enqueued(&mut self, accepted: bool) -> (log: bool)
        ensures
            final(self)@.station == old(self)@.station,
            final(self)@.skipped == if accepted {
                old(self)@.skipped
            } else if old(self)@.skipped == u32::MAX {
                0
            } else {
                (old(self)@.skipped + 1) as u32
            },
            log == (!accepted && old(self)@.skipped % SKIP_LOG_RATE == 0),
    {
        if accepted {
            return false;
        }
        let skipped: u32 = self.skip_count;
        self.skip_count = skipped.wrapping_add(1);
        skipped % SKIP_LOG_RATE == 0
    }
}

} // verus!
