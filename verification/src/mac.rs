//! Hardware addresses and the fixed part of an 802.11 frame.

use vstd::prelude::*;
use vstd::string::*;

verus! {

/// Length in bytes of the 802.11 MAC header that every accepted frame holds.
pub const MAC_HEADER_LEN: usize = 24;

/// A 48-bit hardware address.
#[derive(Debug, Clone, Copy, PartialEq, Eq, Hash)]
pub struct MacAddress(pub [u8; 6]);

impl View for MacAddress {
    type V = Seq<u8>;

    open spec fn view(&self) -> Seq<u8> {
        self.0@
    }
}

/// All six bytes are `0xFF`.
pub open spec fn spec_is_broadcast(mac: Seq<u8>) -> bool {
    forall|i: int| 0 <= i < 6 ==> #[trigger] mac[i] == 0xFF
}

/// The group bit, the lowest bit of the first byte, is set.
pub open spec fn spec_is_multicast(mac: Seq<u8>) -> bool {
    mac[0] % 2 == 1
}

impl MacAddress {
    /// The address of six bytes.
    pub fn from_bytes(bytes: &[u8; 6]) -> (mac: Self)
        ensures
            mac@ == bytes@,
            mac.0 == *bytes,
    {
        MacAddress(*bytes)
    }

    /// Whether this is the broadcast address `FF:FF:FF:FF:FF:FF`.
    pub fn is_broadcast(&self) -> (b: bool)
        ensures
            b == spec_is_broadcast(self@),
    {
        self.0[0] == 0xFF && self.0[1] == 0xFF && self.0[2] == 0xFF && self.0[3] == 0xFF
            && self.0[4] == 0xFF && self.0[5] == 0xFF
    }

    /// Whether this is a group address: the lowest bit of the first byte is set.
    pub fn is_multicast(&self) -> (b: bool)
        ensures
            b == spec_is_multicast(self@),
    {
        let first: u8 = self.0[0];
        assert(first & 0x01 == first % 2) by (bit_vector);
        first & 0x01 != 0
    }
}

/// The sixteen hexadecimal digits, upper case.
pub open spec fn spec_upper_digits() -> Seq<char> {
    "0123456789ABCDEF"@
}

/// An address as text: six bytes in upper-case hexadecimal, two digits
/// each, with colons between them.
pub open spec fn spec_mac_text(mac: Seq<u8>) -> Seq<char> {
    Seq::new(
        17,
        |i: int|
            if i % 3 == 0 {
                spec_upper_digits()[mac[i / 3] as int / 16]
            } else if i % 3 == 1 {
                spec_upper_digits()[mac[i / 3] as int % 16]
            } else {
                ':'
            },
    )
}

fn upper_digit(d: u8) -> (digit: &'static str)
    requires
        d < 16,
    ensures
        digit@ == seq![spec_upper_digits()[d as int]],
{
    proof {
        reveal_strlit("0123456789ABCDEF");
        reveal_strlit("0");
        reveal_strlit("1");
        reveal_strlit("2");
        reveal_strlit("3");
        reveal_strlit("4");
        reveal_strlit("5");
        reveal_strlit("6");
        reveal_strlit("7");
        reveal_strlit("8");
        reveal_strlit("9");
        reveal_strlit("A");
        reveal_strlit("B");
        reveal_strlit("C");
        reveal_strlit("D");
        reveal_strlit("E");
        reveal_strlit("F");
    }
    let digit = match d {
        0 => "0",
        1 => "1",
        2 => "2",
        3 => "3",
        4 => "4",
        5 => "5",
        6 => "6",
        7 => "7",
        8 => "8",
        9 => "9",
        10 => "A",
        11 => "B",
        12 => "C",
        13 => "D",
        14 => "E",
        _ => "F",
    };
    assert(digit@ =~= seq![spec_upper_digits()[d as int]]);
    digit
}

impl MacAddress {
    /// The address as text, as in `AA:BB:CC:DD:EE:FF`.
    pub fn to_text(&self) -> (text: String)
        ensures
            text@ == spec_mac_text(self@),
    {
        let mut text = String::new();
        let mut i: usize = 0;
        while i < 6
            invariant
                i <= 6,
                text@.len() == if i == 0 {
                    0
                } else {
                    3 * i - 1
                },
                forall|k: int| 0 <= k < text@.len() ==> text@[k] == spec_mac_text(self@)[k],
            decreases 6 - i,
        {
            proof {
                reveal_strlit(":");
            }
            if i > 0 {
                text.append(":");
            }
            let b: u8 = self.0[i];
            text.append(upper_digit(b / 16));
            text.append(upper_digit(b % 16));
            i += 1;
        }
        assert(text@ =~= spec_mac_text(self@));
        text
    }
}

/// A broadcast address is a group address too.
pub proof fn lemma_broadcast_is_multicast(mac: Seq<u8>)
    requires
        mac.len() == 6,
        spec_is_broadcast(mac),
    ensures
        spec_is_multicast(mac),
{
    assert(mac[0] == 0xFF);
}

/// The fixed 24-byte header at the start of an 802.11 frame.
#[derive(Debug, Clone, Copy)]
pub struct Ieee80211MacHeader {
    pub frame_control: u16,
    pub duration: u16,
    /// Receiver address.
    pub addr1: [u8; 6],
    /// Transmitter address.
    pub addr2: [u8; 6],
    /// BSSID.
    pub addr3: [u8; 6],
    pub seq_ctrl: u16,
}

/// The little-endian 16-bit field that starts at `at`.
pub open spec fn spec_le16(frame: Seq<u8>, at: int) -> int {
    frame[at] + 256 * frame[at + 1]
}

/// The header's fields are the frame's first 24 bytes, in wire order.
pub open spec fn spec_header_of(header: Ieee80211MacHeader, frame: Seq<u8>) -> bool {
    &&& header.frame_control == spec_le16(frame, 0)
    &&& header.duration == spec_le16(frame, 2)
    &&& header.addr1@ == frame.subrange(4, 10)
    &&& header.addr2@ == frame.subrange(10, 16)
    &&& header.addr3@ == frame.subrange(16, 22)
    &&& header.seq_ctrl == spec_le16(frame, 22)
}

fn le16(frame: &[u8], at: usize) -> (v: u16)
    requires
        at + 1 < frame@.len(),
    ensures
        v == spec_le16(frame@, at as int),
{
    let lo: u16 = frame[at] as u16;
    let hi: u16 = frame[at + 1] as u16;
    lo + 256 * hi
}

fn address_at(frame: &[u8], at: usize) -> (addr: [u8; 6])
    requires
        at + 6 <= frame@.len(),
    ensures
        addr@ == frame@.subrange(at as int, at + 6),
{
    let addr: [u8; 6] = [
        frame[at],
        frame[at + 1],
        frame[at + 2],
        frame[at + 3],
        frame[at + 4],
        frame[at + 5],
    ];
    assert(addr@ =~= frame@.subrange(at as int, at + 6));
    addr
}

impl Ieee80211MacHeader {
    /// Reads the header from the start of a frame. A frame shorter than the
    /// header is rejected; what follows the header is not looked at.
    pub fn parse(frame: &[u8]) -> (header: Option<Self>)
        ensures
            header.is_some() <==> frame@.len() >= MAC_HEADER_LEN,
            header.is_some() ==> spec_header_of(header.unwrap(), frame@),
    {
        if frame.len() < MAC_HEADER_LEN {
            return None;
        }
        Some(
            Ieee80211MacHeader {
                frame_control: le16(frame, 0),
                duration: le16(frame, 2),
                addr1: address_at(frame, 4),
                addr2: address_at(frame, 10),
                addr3: address_at(frame, 16),
                seq_ctrl: le16(frame, 22),
            },
        )
    }
}

/// What the radio reports beside the frame's bytes.
#[derive(Debug, Clone, Copy)]
pub struct RxMetadata {
    /// Signal strength in dBm.
    pub rssi: i8,
    pub channel: u8,
    pub packet_type: u32,
}

/// One received frame, reduced to what the tracker needs.
#[derive(Debug, Clone, Copy)]
pub struct SniffedPacket {
    pub source_mac: MacAddress,
    pub dest_mac: MacAddress,
    pub bssid: MacAddress,
    pub rssi: i8,
    pub channel: u8,
    pub packet_type: u32,
    pub length: u32,
}

/// The packet that a frame of at least 24 bytes decodes to.
pub open spec fn spec_packet_of(packet: SniffedPacket, frame: Seq<u8>, meta: RxMetadata) -> bool {
    &&& packet.source_mac@ == frame.subrange(10, 16)
    &&& packet.dest_mac@ == frame.subrange(4, 10)
    &&& packet.bssid@ == frame.subrange(16, 22)
    &&& packet.rssi == meta.rssi
    &&& packet.channel == meta.channel
    &&& packet.packet_type == meta.packet_type
    &&& packet.length == if frame.len() <= u32::MAX { frame.len() } else { u32::MAX as nat }
}

/// Decodes a frame of any subtype: transmitter, receiver and BSSID from the
/// header, signal strength and channel from the radio's metadata. Frames
/// shorter than the header are rejected. The reported length stops at
/// `u32::MAX`.
pub fn decode_frame(frame: &[u8], meta: RxMetadata) -> (packet: Option<SniffedPacket>)
    ensures
        packet.is_some() <==> frame@.len() >= MAC_HEADER_LEN,
        packet.is_some() ==> spec_packet_of(packet.unwrap(), frame@, meta),
{
    match Ieee80211MacHeader::parse(frame) {
        None => None,
        Some(header) => Some(
            SniffedPacket {
                source_mac: MacAddress(header.addr2),
                dest_mac: MacAddress(header.addr1),
                bssid: MacAddress(header.addr3),
                rssi: meta.rssi,
                channel: meta.channel,
                packet_type: meta.packet_type,
                length: if frame.len() <= u32::MAX as usize {
                    frame.len() as u32
                } else {
                    u32::MAX
                },
            },
        ),
    }
}

} // verus!
