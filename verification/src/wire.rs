//! The event as it travels from a station to the server: one compact JSON
//! object per observation, published under the station's topic.

use vstd::prelude::*;
use vstd::string::*;
use vstd::utf8::encode_utf8;

use crate::channel::EventView;
use crate::text::{
    push_bytes, push_decimal, push_hex, push_signed_decimal, spec_decimal, spec_hex,
    spec_signed_decimal,
};

verus! {

/// The longest payload a station publishes; what would follow is cut off.
pub const MAX_PAYLOAD_LEN: usize = 200;

/// Number of characters of a privacy hash in hexadecimal.
pub const HASH_TEXT_LEN: usize = 64;

/// The weakest and the strongest signal a valid event reports, in dBm.
pub const RSSI_MIN: i64 = -128;

pub const RSSI_MAX: i64 = 0;

/// The first and the last WiFi channel a valid event reports.
pub const CHANNEL_MIN: u64 = 1;

pub const CHANNEL_MAX: u64 = 14;

/// The JSON object of one event. Keys and their order are fixed; the hash
/// is in lower-case hexadecimal and the station's id is copied as it is.
pub open spec fn spec_wire_json(event: EventView, station: Seq<char>) -> Seq<u8> {
    "{\"mac_hash\":\"".spec_bytes() + spec_hex(event.mac_hash) + "\",\"rssi\":".spec_bytes()
        + spec_signed_decimal(event.rssi as int) + ",\"channel\":".spec_bytes() + spec_decimal(
        event.channel as nat,
    ) + ",\"timestamp\":".spec_bytes() + spec_decimal(event.timestamp as nat)
        + ",\"station\":\"".spec_bytes() + encode_utf8(station) + "\"}".spec_bytes()
}

/// The payload that is published: the JSON object, cut off after 200 bytes.
pub open spec fn spec_payload(event: EventView, station: Seq<char>) -> Seq<u8> {
    let json = spec_wire_json(event, station);
    if json.len() <= MAX_PAYLOAD_LEN {
        json
    } else {
        json.take(MAX_PAYLOAD_LEN as int)
    }
}

/// The topic a station publishes under.
pub open spec fn spec_topic(station: Seq<char>) -> Seq<char> {
    "sniffer/"@ + station + "/device"@
}

fn push_text(out: &mut Vec<u8>, text: &str)
    ensures
        final(out)@ == old(out)@ + text.spec_bytes(),
{
    push_bytes(out, text.as_bytes());
}

/// Writes one event as a JSON object.
pub fn encode_event(
    mac_hash: &[u8; 32],
    rssi: i8,
    channel: u8,
    timestamp: u64,
    station: &str,
) -> (json: Vec<u8>)
    ensures
        json@ == spec_wire_json(
            EventView { mac_hash: mac_hash@, rssi, channel, timestamp },
            station@,
        ),
{
    let mut out: Vec<u8> = Vec::new();
    push_text(&mut out, "{\"mac_hash\":\"");
    push_hex(&mut out, mac_hash.as_slice());
    push_text(&mut out, "\",\"rssi\":");
    push_signed_decimal(&mut out, rssi as i32);
    push_text(&mut out, ",\"channel\":");
    push_decimal(&mut out, channel as u64);
    push_text(&mut out, ",\"timestamp\":");
    push_decimal(&mut out, timestamp);
    push_text(&mut out, ",\"station\":\"");
    push_text(&mut out, station);
    push_text(&mut out, "\"}");
    assert(out@ =~= spec_wire_json(
        EventView { mac_hash: mac_hash@, rssi, channel, timestamp },
        station@,
    ));
    out
}

/// The topic a station publishes under: `sniffer/<station>/device`.
pub fn topic_for(station: &str) -> (topic: String)
    ensures
        topic@ == spec_topic(station@),
{
    let mut topic = String::from_str("sniffer/");
    topic.append(station);
    topic.append("/device");
    topic
}

} // verus!
