use presence_tracker::channel::{
    create_event_channel, DeviceEvent, EventChannel, SendError, CHANNEL_CAPACITY,
};
use presence_tracker::digest::privacy_hash;
use presence_tracker::mac::{decode_frame, Ieee80211MacHeader, MacAddress, RxMetadata};
use presence_tracker::publisher::{Action, MqttPublisher, QoS, Received};
use presence_tracker::sniffer::{
    get_dropped_count, get_packet_count, get_sent_count, log_due, reset_packet_count,
    set_event_sender, Sniffer, Verdict, SEND_RATE,
};
use presence_tracker::wire::{encode_event, topic_for};

const SOURCE: [u8; 6] = [0x02, 0x11, 0x22, 0x33, 0x44, 0x55];

const SOURCE_HASH_HEX: &str = "184ebf854a3582dbf8706e2ba4ababe9471a3b3ca7456c4eac7b321b1cc1c613";

fn frame_from(source: [u8; 6], len: usize) -> Vec<u8> {
    let mut frame = vec![0u8; len];
    if len >= 24 {
        frame[0] = 0x40;
        frame[4..10].copy_from_slice(&[0xFF; 6]);
        frame[10..16].copy_from_slice(&source);
        frame[16..22].copy_from_slice(&[0x0A, 0x0B, 0x0C, 0x0D, 0x0E, 0x0F]);
    }
    frame
}

fn hash_bytes() -> [u8; 32] {
    let mut out = [0u8; 32];
    for i in 0..32 {
        out[i] = u8::from_str_radix(&SOURCE_HASH_HEX[2 * i..2 * i + 2], 16).unwrap();
    }
    out
}

fn sniffer_with_channel() -> Sniffer {
    let mut sniffer = Sniffer::new();
    set_event_sender(&mut sniffer, create_event_channel());
    sniffer
}

#[test]
fn mac_from_bytes_keeps_the_bytes() {
    let mac = MacAddress::from_bytes(&SOURCE);
    assert_eq!(mac.0, SOURCE);
    assert_eq!(mac, MacAddress(SOURCE));
}

#[test]
fn broadcast_is_all_ones() {
    assert!(MacAddress([0xFF; 6]).is_broadcast());
    assert!(!MacAddress([0xFF, 0xFF, 0xFF, 0xFF, 0xFF, 0xFE]).is_broadcast());
    assert!(!MacAddress([0xFE, 0xFF, 0xFF, 0xFF, 0xFF, 0xFF]).is_broadcast());
    assert!(!MacAddress(SOURCE).is_broadcast());
}

#[test]
fn multicast_is_the_low_bit_of_the_first_byte() {
    assert!(MacAddress([0x01, 0, 0x5E, 0, 0, 1]).is_multicast());
    assert!(MacAddress([0xFF; 6]).is_multicast());
    assert!(MacAddress([0x33, 0x33, 0, 0, 0, 1]).is_multicast());
    assert!(!MacAddress(SOURCE).is_multicast());
    assert!(!MacAddress([0xFE, 0xFF, 0xFF, 0xFF, 0xFF, 0xFF]).is_multicast());
}

#[test]
fn mac_text_is_upper_case_with_colons() {
    assert_eq!(MacAddress([0xAC, 0xDE, 0x48, 0x00, 0x11, 0x2F]).to_text(), "AC:DE:48:00:11:2F");
    assert_eq!(MacAddress([0xFF; 6]).to_text(), "FF:FF:FF:FF:FF:FF");
    assert_eq!(MacAddress([0; 6]).to_text(), "00:00:00:00:00:00");
}

#[test]
fn header_needs_twenty_four_bytes() {
    assert!(Ieee80211MacHeader::parse(&frame_from(SOURCE, 23)).is_none());
    assert!(Ieee80211MacHeader::parse(&[]).is_none());
    assert!(Ieee80211MacHeader::parse(&frame_from(SOURCE, 24)).is_some());
    assert!(Ieee80211MacHeader::parse(&frame_from(SOURCE, 300)).is_some());
}

#[test]
fn header_fields_come_from_their_offsets() {
    let mut frame = frame_from(SOURCE, 30);
    frame[0] = 0x34;
    frame[1] = 0x12;
    frame[2] = 0xCD;
    frame[3] = 0xAB;
    frame[22] = 0x01;
    frame[23] = 0xFF;
    let header = Ieee80211MacHeader::parse(&frame).unwrap();
    assert_eq!(header.frame_control, 0x1234);
    assert_eq!(header.duration, 0xABCD);
    assert_eq!(header.addr1, [0xFF; 6]);
    assert_eq!(header.addr2, SOURCE);
    assert_eq!(header.addr3, [0x0A, 0x0B, 0x0C, 0x0D, 0x0E, 0x0F]);
    assert_eq!(header.seq_ctrl, 0xFF01);
}

#[test]
fn frame_decodes_to_addresses_and_metadata() {
    let meta = RxMetadata { rssi: -61, channel: 6, packet_type: 2 };
    let packet = decode_frame(&frame_from(SOURCE, 40), meta).unwrap();
    assert_eq!(packet.source_mac, MacAddress(SOURCE));
    assert_eq!(packet.dest_mac, MacAddress([0xFF; 6]));
    assert_eq!(packet.bssid, MacAddress([0x0A, 0x0B, 0x0C, 0x0D, 0x0E, 0x0F]));
    assert_eq!(packet.rssi, -61);
    assert_eq!(packet.channel, 6);
    assert_eq!(packet.packet_type, 2);
    assert_eq!(packet.length, 40);
    assert!(decode_frame(&frame_from(SOURCE, 10), meta).is_none());
}

#[test]
fn privacy_hash_is_sha256_of_the_address() {
    assert_eq!(privacy_hash(&MacAddress(SOURCE)), hash_bytes());
    assert_ne!(privacy_hash(&MacAddress([0x02, 0x11, 0x22, 0x33, 0x44, 0x56])), hash_bytes());
}

#[test]
fn channel_holds_thirty_two_events() {
    let mut channel = create_event_channel();
    assert_eq!(channel.capacity(), CHANNEL_CAPACITY);
    assert_eq!(channel.capacity(), 32);
    assert_eq!(channel.len(), 0);
    let event = DeviceEvent { mac_hash: [7; 32], rssi: -50, channel: 1, timestamp: 0 };
    for i in 0..32u64 {
        assert!(!channel.is_full());
        assert_eq!(channel.try_send(DeviceEvent { timestamp: i, ..event }), Ok(()));
    }
    assert!(channel.is_full());
    assert_eq!(channel.try_send(event), Err(SendError::Full));
    assert_eq!(channel.len(), 32);
}

#[test]
fn channel_is_first_in_first_out() {
    let mut channel = EventChannel::with_capacity(3);
    let event = DeviceEvent { mac_hash: [1; 32], rssi: -40, channel: 11, timestamp: 0 };
    assert!(channel.try_recv().is_none());
    for t in [5u64, 3, 9] {
        channel.try_send(DeviceEvent { timestamp: t, ..event }).unwrap();
    }
    assert_eq!(channel.try_send(DeviceEvent { timestamp: 1, ..event }), Err(SendError::Full));
    assert_eq!(channel.try_recv().unwrap().timestamp, 5);
    assert_eq!(channel.try_send(DeviceEvent { timestamp: 7, ..event }), Ok(()));
    assert_eq!(channel.try_recv().unwrap().timestamp, 3);
    assert_eq!(channel.try_recv().unwrap().timestamp, 9);
    assert_eq!(channel.try_recv().unwrap().timestamp, 7);
    assert!(channel.try_recv().is_none());
}

#[test]
fn channel_of_no_capacity_takes_nothing() {
    let mut channel = EventChannel::with_capacity(0);
    let event = DeviceEvent { mac_hash: [1; 32], rssi: -40, channel: 11, timestamp: 0 };
    assert_eq!(channel.try_send(event), Err(SendError::Full));
    assert!(channel.try_recv().is_none());
}

#[test]
fn broadcast_source_gives_no_event() {
    let mut sniffer = sniffer_with_channel();
    for _ in 0..200 {
        assert_eq!(sniffer.on_frame(&frame_from([0xFF; 6], 64), -40, 6, 1), Verdict::Broadcast);
    }
    assert_eq!(get_packet_count(&sniffer), 0);
    assert_eq!(get_sent_count(&sniffer), 0);
    assert_eq!(get_dropped_count(&sniffer), 0);
    assert!(sniffer.next_event().is_none());
}

#[test]
fn multicast_source_and_short_frame_give_no_event() {
    let mut sniffer = sniffer_with_channel();
    assert_eq!(
        sniffer.on_frame(&frame_from([0x01, 0, 0x5E, 0, 0, 1], 64), -40, 6, 1),
        Verdict::Multicast
    );
    assert_eq!(sniffer.on_frame(&frame_from(SOURCE, 23), -40, 6, 1), Verdict::TooShort);
    assert_eq!(sniffer.on_frame(&[], -40, 6, 1), Verdict::TooShort);
    assert_eq!(get_packet_count(&sniffer), 0);
    assert!(sniffer.next_event().is_none());
}

#[test]
fn every_fiftieth_accepted_frame_is_forwarded() {
    let mut sniffer = sniffer_with_channel();
    let frame = frame_from(SOURCE, 24);
    assert_eq!(sniffer.on_frame(&frame, -70, 11, 1000), Verdict::Enqueued);
    for _ in 1..SEND_RATE {
        assert_eq!(sniffer.on_frame(&frame, -70, 11, 2000), Verdict::Shed);
    }
    assert_eq!(sniffer.on_frame(&frame, -71, 11, 3000), Verdict::Enqueued);
    assert_eq!(get_packet_count(&sniffer), 51);
    assert_eq!(get_sent_count(&sniffer), 2);
    assert_eq!(get_dropped_count(&sniffer), 0);
}

#[test]
fn forwarded_event_carries_the_hash_not_the_address() {
    let mut sniffer = sniffer_with_channel();
    assert_eq!(sniffer.on_frame(&frame_from(SOURCE, 24), -70, 11, 123_456), Verdict::Enqueued);
    let event = sniffer.next_event().unwrap();
    assert_eq!(event.mac_hash, hash_bytes());
    assert_ne!(&event.mac_hash[..6], &SOURCE[..]);
    assert_eq!(event.rssi, -70);
    assert_eq!(event.channel, 11);
    assert_eq!(event.timestamp, 123_456);
    assert!(sniffer.next_event().is_none());
}

#[test]
fn thousand_frames_give_twenty_events() {
    let mut sniffer = sniffer_with_channel();
    let frame = frame_from(SOURCE, 64);
    for t in 0..1000u64 {
        sniffer.on_frame(&frame, -60, 6, t);
    }
    assert_eq!(get_packet_count(&sniffer), 1000);
    assert_eq!(get_sent_count(&sniffer) + get_dropped_count(&sniffer), 20);
    assert_eq!(get_sent_count(&sniffer), 20);
    assert_eq!(get_dropped_count(&sniffer), 0);
}

#[test]
fn events_beyond_the_capacity_are_dropped() {
    let mut sniffer = sniffer_with_channel();
    let frame = frame_from(SOURCE, 64);
    let mut dropped = 0;
    for t in 0..2000u64 {
        if sniffer.on_frame(&frame, -60, 6, t) == Verdict::Dropped {
            dropped += 1;
        }
    }
    assert_eq!(get_sent_count(&sniffer), 32);
    assert_eq!(get_dropped_count(&sniffer), 8);
    assert_eq!(dropped, 8);
    for i in 0..32u64 {
        assert_eq!(sniffer.next_event().unwrap().timestamp, 50 * i);
    }
    assert!(sniffer.next_event().is_none());
}

#[test]
fn forwarded_share_is_within_one_of_a_fiftieth() {
    for n in [0u32, 1, 49, 50, 51, 99, 100, 101, 777] {
        let mut sniffer = sniffer_with_channel();
        let frame = frame_from(SOURCE, 30);
        for _ in 0..n {
            sniffer.on_frame(&frame, -60, 6, 0);
        }
        let events = get_sent_count(&sniffer) + get_dropped_count(&sniffer);
        assert_eq!(events, (n + 49) / 50);
        assert!(events >= n / 50 && events <= n / 50 + 1);
    }
}

#[test]
fn without_a_channel_frames_are_only_counted() {
    let mut sniffer = Sniffer::new();
    let frame = frame_from(SOURCE, 64);
    assert_eq!(sniffer.on_frame(&frame, -60, 6, 0), Verdict::NoChannel);
    assert_eq!(sniffer.on_frame(&frame, -60, 6, 0), Verdict::Shed);
    assert_eq!(get_packet_count(&sniffer), 2);
    assert_eq!(get_sent_count(&sniffer), 0);
    assert_eq!(get_dropped_count(&sniffer), 0);
    assert!(sniffer.next_event().is_none());
}

#[test]
fn reset_sets_only_the_packet_count_back() {
    let mut sniffer = sniffer_with_channel();
    let frame = frame_from(SOURCE, 64);
    for _ in 0..60 {
        sniffer.on_frame(&frame, -60, 6, 0);
    }
    reset_packet_count(&mut sniffer);
    assert_eq!(get_packet_count(&sniffer), 0);
    assert_eq!(get_sent_count(&sniffer), 2);
    assert_eq!(sniffer.on_frame(&frame, -60, 6, 0), Verdict::Enqueued);
    assert_eq!(get_sent_count(&sniffer), 3);
}

#[test]
fn every_hundredth_frame_is_worth_a_log_line() {
    assert!(log_due(0));
    assert!(!log_due(1));
    assert!(!log_due(50));
    assert!(log_due(100));
    assert!(log_due(4_294_967_200));
}

#[test]
fn event_is_written_as_compact_json() {
    let json = encode_event(&hash_bytes(), -70, 11, 123_456, "station-1");
    let want = format!(
        "{{\"mac_hash\":\"{}\",\"rssi\":-70,\"channel\":11,\"timestamp\":123456,\"station\":\"station-1\"}}",
        SOURCE_HASH_HEX
    );
    assert_eq!(String::from_utf8(json).unwrap(), want);
}

#[test]
fn extreme_numbers_are_written_in_full() {
    let json = encode_event(&[0u8; 32], -128, 255, u64::MAX, "");
    let want = format!(
        "{{\"mac_hash\":\"{}\",\"rssi\":-128,\"channel\":255,\"timestamp\":18446744073709551615,\"station\":\"\"}}",
        "0".repeat(64)
    );
    assert_eq!(String::from_utf8(json).unwrap(), want);
    let json = encode_event(&[0xAB; 32], 0, 0, 0, "s");
    let want = format!(
        "{{\"mac_hash\":\"{}\",\"rssi\":0,\"channel\":0,\"timestamp\":0,\"station\":\"s\"}}",
        "ab".repeat(32)
    );
    assert_eq!(String::from_utf8(json).unwrap(), want);
    let json = encode_event(&[0x0F; 32], 127, 9, 10, "s");
    assert!(String::from_utf8(json).unwrap().contains("\"rssi\":127,\"channel\":9,\"timestamp\":10,"));
}

#[test]
fn topic_names_the_station() {
    assert_eq!(topic_for("kitchen"), "sniffer/kitchen/device");
    assert_eq!(topic_for(""), "sniffer//device");
}

#[test]
fn publisher_publishes_at_most_once_and_not_retained() {
    let publisher = MqttPublisher::new("kitchen");
    assert_eq!(publisher.station_id(), "kitchen");
    let event = DeviceEvent { mac_hash: hash_bytes(), rssi: -55, channel: 3, timestamp: 42 };
    let publication = publisher.publish_event(&event);
    assert_eq!(publication.topic, "sniffer/kitchen/device");
    assert_eq!(publication.qos, QoS::AtMostOnce);
    assert!(!publication.retain);
    assert_eq!(publication.payload, encode_event(&hash_bytes(), -55, 3, 42, "kitchen"));
}

#[test]
fn payload_stops_at_two_hundred_bytes() {
    let long_id = "x".repeat(80);
    let publisher = MqttPublisher::new(&long_id);
    let event = DeviceEvent { mac_hash: hash_bytes(), rssi: -55, channel: 3, timestamp: 42 };
    let publication = publisher.publish_event(&event);
    let full = encode_event(&hash_bytes(), -55, 3, 42, &long_id);
    assert!(full.len() > 200);
    assert_eq!(publication.payload.len(), 200);
    assert_eq!(&publication.payload[..], &full[..200]);
}

#[test]
fn publisher_follows_what_the_queue_gives() {
    let publisher = MqttPublisher::new("kitchen");
    let event = DeviceEvent { mac_hash: [3; 32], rssi: -55, channel: 3, timestamp: 42 };
    match publisher.on_received(Received::Event(event)) {
        Action::Publish(p) => assert_eq!(p.payload, encode_event(&[3; 32], -55, 3, 42, "kitchen")),
        other => panic!("expected a publication, got {:?}", other),
    }
    assert!(matches!(publisher.on_received(Received::Timeout), Action::Wait));
    assert!(matches!(publisher.on_received(Received::Disconnected), Action::Stop));
}

#[test]
fn refused_messages_are_counted_and_logged_every_hundredth() {
    let mut publisher = MqttPublisher::new("kitchen");
    assert!(!publisher.on_enqueued(true));
    assert_eq!(publisher.skipped(), 0);
    assert!(publisher.on_enqueued(false));
    assert_eq!(publisher.skipped(), 1);
    for _ in 1..100 {
        assert!(!publisher.on_enqueued(false));
    }
    assert_eq!(publisher.skipped(), 100);
    assert!(!publisher.on_enqueued(true));
    assert!(publisher.on_enqueued(false));
    assert_eq!(publisher.skipped(), 101);
}
