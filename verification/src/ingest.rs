//! The server's side of the wire: from a published payload to a valid
//! event.
//!
//! A payload is a JSON object. Five of its fields are mandatory; any other
//! field is ignored. A payload that lacks one of the five, or holds a value
//! outside the field's range, is rejected.

use vstd::prelude::*;
use vstd::string::*;
use vstd::utf8::encode_utf8;

use crate::text::{is_hex, spec_is_hex};
use crate::wire::{CHANNEL_MAX, CHANNEL_MIN, HASH_TEXT_LEN, RSSI_MAX, RSSI_MIN};

verus! {

/// The text under `key` in the JSON object `payload`, if `payload` is a
/// JSON object that holds a string there.
pub uninterp spec fn spec_json_text(payload: Seq<u8>, key: Seq<char>) -> Option<Seq<char>>;

/// The integer under `key` in the JSON object `payload`, if `payload` is a
/// JSON object that holds an integer there that fits 64 bits with a sign.
pub uninterp spec fn spec_json_signed(payload: Seq<u8>, key: Seq<char>) -> Option<i64>;

/// The integer under `key` in the JSON object `payload`, if `payload` is a
/// JSON object that holds an integer there that fits 64 bits without a sign.
pub uninterp spec fn spec_json_unsigned(payload: Seq<u8>, key: Seq<char>) -> Option<u64>;

/// Calls `serde_json::from_slice` for a `serde_json::Value`, then
/// `Value::get` with `key` and `Value::as_str` on what is found. The
/// contract names the result: it depends on the payload and the key alone.
#[verifier::external_body]
fn json_text(payload: &[u8], key: &str) -> (text: Option<String>)
    ensures
        match text {
            Some(t) => spec_json_text(payload@, key@) == Some(t@),
            None => spec_json_text(payload@, key@).is_none(),
        },
{
    let value: serde_json::Value = serde_json::from_slice(payload).ok()?;
    value.get(key)?.as_str().map(str::to_owned)
}

/// Calls `serde_json::from_slice` for a `serde_json::Value`, then
/// `Value::get` with `key` and `Value::as_i64` on what is found. The
/// contract names the result: it depends on the payload and the key alone.
#[verifier::external_body]
fn json_signed(payload: &[u8], key: &str) -> (number: Option<i64>)
    ensures
        number == spec_json_signed(payload@, key@),
{
    let value: serde_json::Value = serde_json::from_slice(payload).ok()?;
    value.get(key)?.as_i64()
}

/// Calls `serde_json::from_slice` for a `serde_json::Value`, then
/// `Value::get` with `key` and `Value::as_u64` on what is found. The
/// contract names the result: it depends on the payload and the key alone.
#[verifier::external_body]
fn json_unsigned(payload: &[u8], key: &str) -> (number: Option<u64>)
    ensures
        number == spec_json_unsigned(payload@, key@),
{
    let value: serde_json::Value = serde_json::from_slice(payload).ok()?;
    value.get(key)?.as_u64()
}

/// One of the five mandatory fields.
#[derive(Debug, Clone, Copy, PartialEq, Eq, Structural)]
pub enum Field {
    MacHash,
    Rssi,
    Channel,
    Timestamp,
    Station,
}

/// Why a payload was rejected.
#[derive(Debug, Clone, Copy, PartialEq, Eq, Structural)]
pub enum DecodeError {
    /// The field is absent or not of its type. A payload that is not a JSON
    /// object lacks every field.
    Missing(Field),
    /// The hash is not 64 hexadecimal digits.
    BadMacHash,
    /// The signal strength is not in -128 ..= 0.
    RssiOutOfRange,
    /// The channel is not in 1 ..= 14.
    ChannelOutOfRange,
}

/// The five fields as the payload holds them, not yet validated.
#[derive(Debug)]
pub struct RawEvent {
    pub mac_hash: Option<String>,
    pub rssi: Option<i64>,
    pub channel: Option<u64>,
    pub timestamp: Option<u64>,
    pub station: Option<String>,
}

/// The fields of a payload as plain values.
pub struct RawEventView {
    pub mac_hash: Option<Seq<char>>,
    pub rssi: Option<i64>,
    pub channel: Option<u64>,
    pub timestamp: Option<u64>,
    pub station: Option<Seq<char>>,
}

/// One observation as the server takes it.
#[derive(Debug)]
pub struct WireEvent {
    /// The device's privacy hash: 64 hexadecimal digits.
    pub mac_hash: String,
    /// Signal strength in dBm, at most zero.
    pub rssi: i8,
    /// WiFi channel, 1 to 14.
    pub channel: u8,
    /// Microseconds since the reporting station booted.
    pub timestamp: u64,
    /// The reporting station's id.
    pub station: String,
}

/// A valid event as plain values.
pub struct WireEventView {
    pub mac_hash: Seq<char>,
    pub rssi: i8,
    pub channel: u8,
    pub timestamp: u64,
    pub station: Seq<char>,
}

/// The view of an optional text.
pub open spec fn spec_text_view(text: Option<String>) -> Option<Seq<char>> {
    match text {
        Some(t) => Some(t@),
        None => None,
    }
}

impl View for RawEvent {
    type V = RawEventView;

    open spec fn view(&self) -> RawEventView {
        RawEventView {
            mac_hash: spec_text_view(self.mac_hash),
            rssi: self.rssi,
            channel: self.channel,
            timestamp: self.timestamp,
            station: spec_text_view(self.station),
        }
    }
}

impl View for WireEvent {
    type V = WireEventView;

    open spec fn view(&self) -> WireEventView {
        WireEventView {
            mac_hash: self.mac_hash@,
            rssi: self.rssi,
            channel: self.channel,
            timestamp: self.timestamp,
            station: self.station@,
        }
    }
}

/// The five fields that a payload holds.
pub open spec fn spec_fields(payload: Seq<u8>) -> RawEventView {
    RawEventView {
        mac_hash: spec_json_text(payload, "mac_hash"@),
        rssi: spec_json_signed(payload, "rssi"@),
        channel: spec_json_unsigned(payload, "channel"@),
        timestamp: spec_json_unsigned(payload, "timestamp"@),
        station: spec_json_text(payload, "station"@),
    }
}

/// Whether a text is a privacy hash: 64 hexadecimal digits, in either case.
pub open spec fn spec_is_hash_text(text: Seq<char>) -> bool {
    &&& encode_utf8(text).len() == HASH_TEXT_LEN
    &&& spec_is_hex(encode_utf8(text))
}

/// The valid event of five fields, or the first fault in wire order: a
/// field that is missing, then a value that is out of range.
pub open spec fn spec_validate(raw: RawEventView) -> Result<WireEventView, DecodeError> {
    if raw.mac_hash.is_none() {
        Err(DecodeError::Missing(Field::MacHash))
    } else if raw.rssi.is_none() {
        Err(DecodeError::Missing(Field::Rssi))
    } else if raw.channel.is_none() {
        Err(DecodeError::Missing(Field::Channel))
    } else if raw.timestamp.is_none() {
        Err(DecodeError::Missing(Field::Timestamp))
    } else if raw.station.is_none() {
        Err(DecodeError::Missing(Field::Station))
    } else if !spec_is_hash_text(raw.mac_hash.unwrap()) {
        Err(DecodeError::BadMacHash)
    } else if !(RSSI_MIN <= raw.rssi.unwrap() <= RSSI_MAX) {
        Err(DecodeError::RssiOutOfRange)
    } else if !(CHANNEL_MIN <= raw.channel.unwrap() <= CHANNEL_MAX) {
        Err(DecodeError::ChannelOutOfRange)
    } else {
        Ok(
            WireEventView {
                mac_hash: raw.mac_hash.unwrap(),
                rssi: raw.rssi.unwrap() as i8,
                channel: raw.channel.unwrap() as u8,
                timestamp: raw.timestamp.unwrap(),
                station: raw.station.unwrap(),
            },
        )
    }
}

/// Whether a result is the given one, its event taken as plain values.
pub open spec fn spec_same_result(
    got: Result<WireEvent, DecodeError>,
    want: Result<WireEventView, DecodeError>,
) -> bool {
    match got {
        Ok(event) => want == Ok::<WireEventView, DecodeError>(event@),
        Err(e) => want == Err::<WireEventView, DecodeError>(e),
    }
}

/// Whether `text` is a privacy hash: 64 hexadecimal digits.
pub fn is_hash_text(text: &str) -> (b: bool)
    ensures
        b == spec_is_hash_text(text@),
{
    let bytes = text.as_bytes();
    bytes.len() == HASH_TEXT_LEN && is_hex(bytes)
}

impl RawEvent {
    /// Reads the five mandatory fields of a payload, each absent where the
    /// payload is not a JSON object, lacks the key or holds a value of
    /// another type under it. Any other field is ignored.
    pub fn read(payload: &[u8]) -> (raw: RawEvent)
        ensures
            raw@ == spec_fields(payload@),
    {
        RawEvent {
            mac_hash: json_text(payload, "mac_hash"),
            rssi: json_signed(payload, "rssi"),
            channel: json_unsigned(payload, "channel"),
            timestamp: json_unsigned(payload, "timestamp"),
            station: json_text(payload, "station"),
        }
    }

    /// Makes sure that all five fields are there and in range.
    pub fn validate(self) -> (event: Result<WireEvent, DecodeError>)
        ensures
            spec_same_result(event, spec_validate(self@)),
    {
        let mac_hash = match self.mac_hash {
            Some(text) => text,
            None => { return Err(DecodeError::Missing(Field::MacHash)); },
        };
        let rssi: i64 = match self.rssi {
            Some(n) => n,
            None => { return Err(DecodeError::Missing(Field::Rssi)); },
        };
        let channel: u64 = match self.channel {
            Some(n) => n,
            None => { return Err(DecodeError::Missing(Field::Channel)); },
        };
        let timestamp: u64 = match self.timestamp {
            Some(n) => n,
            None => { return Err(DecodeError::Missing(Field::Timestamp)); },
        };
        let station = match self.station {
            Some(text) => text,
            None => { return Err(DecodeError::Missing(Field::Station)); },
        };
        if !is_hash_text(mac_hash.as_str()) {
            return Err(DecodeError::BadMacHash);
        }
        if rssi < RSSI_MIN || rssi > RSSI_MAX {
            return Err(DecodeError::RssiOutOfRange);
        }
        if channel < CHANNEL_MIN || channel > CHANNEL_MAX {
            return Err(DecodeError::ChannelOutOfRange);
        }
        Ok(WireEvent { mac_hash, rssi: rssi as i8, channel: channel as u8, timestamp, station })
    }
}

/// Decodes one published payload. The event is returned exactly when the
/// payload holds all five mandatory fields with values in range.
pub fn decode_event(payload: &[u8]) -> (event: Result<WireEvent, DecodeError>)
    ensures
        spec_same_result(event, spec_validate(spec_fields(payload@))),
{
    RawEvent::read(payload).validate()
}

} // verus!
