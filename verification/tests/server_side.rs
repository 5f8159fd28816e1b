use presence_tracker::ingest::{decode_event, DecodeError, Field, RawEvent, WireEvent};
use presence_tracker::server::{on_distances, on_event, on_publish, Pending};
use presence_tracker::solver::Solution;
use presence_tracker::store::{DeviceStore, Position, RssiReading};
use presence_tracker::tracker::{
    has_distinct_ids, Anchor, CalibrationParams, PositionTracker, StationConfig,
    DEFAULT_PATH_LOSS_EXPONENT, DEFAULT_RSSI_AT_1M, FRESHNESS_HORIZON_US,
};
use presence_tracker::wire::encode_event;

const HASH_A: &str = "184ebf854a3582dbf8706e2ba4ababe9471a3b3ca7456c4eac7b321b1cc1c613";

const HASH_B: &str = "e52147eea5b10208b8f9de54947ef0d8db9e76e0caec6a11c98b8f9f12de05e2";

fn payload(mac_hash: &str, rssi: i64, channel: u64, timestamp: u64, station: &str) -> Vec<u8> {
    format!(
        "{{\"mac_hash\":\"{}\",\"rssi\":{},\"channel\":{},\"timestamp\":{},\"station\":\"{}\"}}",
        mac_hash, rssi, channel, timestamp, station
    )
    .into_bytes()
}

fn event(mac_hash: &str, station: &str, rssi: i8, timestamp: u64) -> WireEvent {
    WireEvent {
        mac_hash: mac_hash.to_string(),
        rssi,
        channel: 6,
        timestamp,
        station: station.to_string(),
    }
}

fn station(id: &str, x_mm: i64, y_mm: i64) -> StationConfig {
    StationConfig {
        id: id.to_string(),
        x_mm,
        y_mm,
        label: id.to_uppercase(),
        rssi_at_1m: Some(-4500),
        path_loss_exponent: Some(2000),
    }
}

fn three_stations() -> PositionTracker {
    PositionTracker::new(
        vec![station("a", 0, 0), station("b", 10_000, 0), station("c", 0, 10_000)],
        10_000,
        10_000,
    )
    .unwrap()
}

fn fix(x_mm: i64, y_mm: i64) -> Solution {
    Solution::Fix { x_mm, y_mm, residual_mm: 4 }
}

/// Distances of the point (3 m, 4 m) from the three stations.
const FROM_3_4: [u32; 3] = [5_000, 8_062, 6_708];

/// Distances that solve to the point (1.75 m, 4 m), with a residual.
const FROM_ELSEWHERE: [u32; 3] = [4_000, 9_000, 6_000];

fn pending_of(tracker: &PositionTracker, store: &DeviceStore, mac_hash: &str) -> Pending {
    Pending { mac_hash: mac_hash.to_string(), anchors: tracker.plan(store, &mac_hash.to_string()) }
}

fn seen_by_all(store: &mut DeviceStore, tracker: &PositionTracker, mac_hash: &str, at: u64) {
    on_event(store, tracker, event(mac_hash, "a", -59, at));
    on_event(store, tracker, event(mac_hash, "b", -63, at));
    on_event(store, tracker, event(mac_hash, "c", -62, at));
}

#[test]
fn valid_payload_decodes() {
    let e = decode_event(&payload(HASH_A, -70, 11, 123_456, "kitchen")).unwrap();
    assert_eq!(e.mac_hash, HASH_A);
    assert_eq!(e.rssi, -70);
    assert_eq!(e.channel, 11);
    assert_eq!(e.timestamp, 123_456);
    assert_eq!(e.station, "kitchen");
}

#[test]
fn what_a_station_writes_the_server_reads() {
    let mut hash = [0u8; 32];
    for i in 0..32 {
        hash[i] = u8::from_str_radix(&HASH_A[2 * i..2 * i + 2], 16).unwrap();
    }
    let e = decode_event(&encode_event(&hash, -128, 14, u64::MAX, "st-7")).unwrap();
    assert_eq!(e.mac_hash, HASH_A);
    assert_eq!(e.rssi, -128);
    assert_eq!(e.channel, 14);
    assert_eq!(e.timestamp, u64::MAX);
    assert_eq!(e.station, "st-7");
}

#[test]
fn unknown_fields_and_another_order_are_accepted() {
    let text = format!(
        "{{\"station\":\"s\",\"extra\":[1,2,{{\"a\":null}}],\"timestamp\":7,\"channel\":1,\"rssi\":0,\"mac_hash\":\"{}\",\"more\":true}}",
        HASH_B
    );
    let e = decode_event(text.as_bytes()).unwrap();
    assert_eq!(e.mac_hash, HASH_B);
    assert_eq!(e.rssi, 0);
    assert_eq!(e.channel, 1);
    assert_eq!(e.timestamp, 7);
    assert_eq!(e.station, "s");
}

#[test]
fn each_missing_field_is_named() {
    let with = |skip: &str| -> Vec<u8> {
        let mut parts: Vec<String> = Vec::new();
        for (key, value) in [
            ("mac_hash", format!("\"{}\"", HASH_A)),
            ("rssi", "-70".to_string()),
            ("channel", "11".to_string()),
            ("timestamp", "5".to_string()),
            ("station", "\"s\"".to_string()),
        ] {
            if key != skip {
                parts.push(format!("\"{}\":{}", key, value));
            }
        }
        format!("{{{}}}", parts.join(",")).into_bytes()
    };
    assert_eq!(decode_event(&with("mac_hash")).unwrap_err(), DecodeError::Missing(Field::MacHash));
    assert_eq!(decode_event(&with("rssi")).unwrap_err(), DecodeError::Missing(Field::Rssi));
    assert_eq!(decode_event(&with("channel")).unwrap_err(), DecodeError::Missing(Field::Channel));
    assert_eq!(
        decode_event(&with("timestamp")).unwrap_err(),
        DecodeError::Missing(Field::Timestamp)
    );
    assert_eq!(decode_event(&with("station")).unwrap_err(), DecodeError::Missing(Field::Station));
    assert!(decode_event(&with("none")).is_ok());
}

#[test]
fn a_field_of_another_type_counts_as_missing() {
    let text = format!(
        "{{\"mac_hash\":\"{}\",\"rssi\":\"-70\",\"channel\":11,\"timestamp\":5,\"station\":\"s\"}}",
        HASH_A
    );
    assert_eq!(decode_event(text.as_bytes()).unwrap_err(), DecodeError::Missing(Field::Rssi));
    let text = format!(
        "{{\"mac_hash\":\"{}\",\"rssi\":-70,\"channel\":11,\"timestamp\":-5,\"station\":\"s\"}}",
        HASH_A
    );
    assert_eq!(decode_event(text.as_bytes()).unwrap_err(), DecodeError::Missing(Field::Timestamp));
    let text = format!(
        "{{\"mac_hash\":\"{}\",\"rssi\":-70.5,\"channel\":11,\"timestamp\":5,\"station\":\"s\"}}",
        HASH_A
    );
    assert_eq!(decode_event(text.as_bytes()).unwrap_err(), DecodeError::Missing(Field::Rssi));
    let text = format!(
        "{{\"mac_hash\":7,\"rssi\":-70,\"channel\":11,\"timestamp\":5,\"station\":\"s\"}}"
    );
    assert_eq!(decode_event(text.as_bytes()).unwrap_err(), DecodeError::Missing(Field::MacHash));
}

#[test]
fn what_is_not_a_json_object_lacks_every_field() {
    assert_eq!(decode_event(b"").unwrap_err(), DecodeError::Missing(Field::MacHash));
    assert_eq!(decode_event(b"not json").unwrap_err(), DecodeError::Missing(Field::MacHash));
    assert_eq!(decode_event(b"[1,2,3]").unwrap_err(), DecodeError::Missing(Field::MacHash));
    assert_eq!(decode_event(&[0xFF, 0xFE]).unwrap_err(), DecodeError::Missing(Field::MacHash));
    let mut cut = payload(HASH_A, -70, 11, 5, "s");
    cut.pop();
    assert_eq!(decode_event(&cut).unwrap_err(), DecodeError::Missing(Field::MacHash));
}

#[test]
fn hash_must_be_sixty_four_hex_digits() {
    assert_eq!(
        decode_event(&payload(&HASH_A[..63], -70, 11, 5, "s")).unwrap_err(),
        DecodeError::BadMacHash
    );
    let long = format!("{}0", HASH_A);
    assert_eq!(decode_event(&payload(&long, -70, 11, 5, "s")).unwrap_err(), DecodeError::BadMacHash);
    let bad = format!("g{}", &HASH_A[1..]);
    assert_eq!(decode_event(&payload(&bad, -70, 11, 5, "s")).unwrap_err(), DecodeError::BadMacHash);
    assert_eq!(decode_event(&payload("", -70, 11, 5, "s")).unwrap_err(), DecodeError::BadMacHash);
    let wide = format!("{}\u{e9}", &HASH_A[..62]);
    assert_eq!(decode_event(&payload(&wide, -70, 11, 5, "s")).unwrap_err(), DecodeError::BadMacHash);
    let upper = HASH_A.to_uppercase();
    assert_eq!(decode_event(&payload(&upper, -70, 11, 5, "s")).unwrap().mac_hash, upper);
}

#[test]
fn rssi_must_be_in_range() {
    assert_eq!(
        decode_event(&payload(HASH_A, 1, 11, 5, "s")).unwrap_err(),
        DecodeError::RssiOutOfRange
    );
    assert_eq!(
        decode_event(&payload(HASH_A, -129, 11, 5, "s")).unwrap_err(),
        DecodeError::RssiOutOfRange
    );
    assert_eq!(decode_event(&payload(HASH_A, 0, 11, 5, "s")).unwrap().rssi, 0);
    assert_eq!(decode_event(&payload(HASH_A, -128, 11, 5, "s")).unwrap().rssi, -128);
}

#[test]
fn channel_must_be_in_range() {
    assert_eq!(
        decode_event(&payload(HASH_A, -70, 0, 5, "s")).unwrap_err(),
        DecodeError::ChannelOutOfRange
    );
    assert_eq!(
        decode_event(&payload(HASH_A, -70, 15, 5, "s")).unwrap_err(),
        DecodeError::ChannelOutOfRange
    );
    assert_eq!(
        decode_event(&payload(HASH_A, -70, 300, 5, "s")).unwrap_err(),
        DecodeError::ChannelOutOfRange
    );
    assert_eq!(decode_event(&payload(HASH_A, -70, 1, 5, "s")).unwrap().channel, 1);
    assert_eq!(decode_event(&payload(HASH_A, -70, 14, 5, "s")).unwrap().channel, 14);
}

#[test]
fn a_missing_field_is_reported_before_a_bad_value() {
    let text = "{\"mac_hash\":\"zz\",\"rssi\":5,\"channel\":99,\"timestamp\":5}";
    assert_eq!(decode_event(text.as_bytes()).unwrap_err(), DecodeError::Missing(Field::Station));
    let text = "{\"mac_hash\":\"zz\",\"rssi\":5,\"channel\":99,\"timestamp\":5,\"station\":\"s\"}";
    assert_eq!(decode_event(text.as_bytes()).unwrap_err(), DecodeError::BadMacHash);
}

#[test]
fn fields_are_validated_as_read() {
    let raw = RawEvent::read(&payload(HASH_A, -70, 11, 5, "s"));
    assert_eq!(raw.mac_hash.as_deref(), Some(HASH_A));
    assert_eq!(raw.rssi, Some(-70));
    assert_eq!(raw.channel, Some(11));
    assert_eq!(raw.timestamp, Some(5));
    assert_eq!(raw.station.as_deref(), Some("s"));
    let raw = RawEvent {
        mac_hash: Some(HASH_A.to_string()),
        rssi: Some(-1),
        channel: Some(14),
        timestamp: None,
        station: Some("s".to_string()),
    };
    assert_eq!(raw.validate().unwrap_err(), DecodeError::Missing(Field::Timestamp));
}

#[test]
fn two_stations_give_two_readings() {
    let mut store = DeviceStore::new();
    store.observe(&event(HASH_A, "a", -60, 1_000));
    store.observe(&event(HASH_A, "b", -65, 2_500));
    assert_eq!(store.len(), 1);
    let record = store.get(&HASH_A.to_string()).unwrap();
    assert_eq!(record.reading_count(), 2);
    assert_eq!(record.readings().len(), 2);
    assert_eq!(record.last_seen(), 2_500);
    assert_eq!(record.last_seen(), 1_000u64.max(2_500));
    assert_eq!(record.readings()[0].station, "a");
    assert_eq!(record.readings()[0].reading, RssiReading { rssi: -60, timestamp: 1_000 });
    assert_eq!(record.readings()[1].station, "b");
    assert_eq!(record.readings()[1].reading, RssiReading { rssi: -65, timestamp: 2_500 });
    assert!(record.position().is_none());
}

#[test]
fn a_newer_reading_of_a_station_replaces_the_older() {
    let mut store = DeviceStore::new();
    store.observe(&event(HASH_A, "a", -60, 1_000));
    store.observe(&event(HASH_A, "b", -65, 2_000));
    store.observe(&event(HASH_A, "a", -50, 3_000));
    let record = store.get(&HASH_A.to_string()).unwrap();
    assert_eq!(record.reading_count(), 2);
    assert_eq!(record.readings()[0].station, "a");
    assert_eq!(record.readings()[0].reading, RssiReading { rssi: -50, timestamp: 3_000 });
    assert_eq!(record.last_seen(), 3_000);
}

#[test]
fn an_older_event_still_replaces_and_sets_last_seen() {
    let mut store = DeviceStore::new();
    store.observe(&event(HASH_A, "a", -60, 5_000));
    store.observe(&event(HASH_A, "b", -65, 4_000));
    let record = store.get(&HASH_A.to_string()).unwrap();
    assert_eq!(record.last_seen(), 4_000);
    store.observe(&event(HASH_A, "a", -61, 100));
    let record = store.get(&HASH_A.to_string()).unwrap();
    assert_eq!(record.readings()[0].reading, RssiReading { rssi: -61, timestamp: 100 });
    assert_eq!(record.last_seen(), 100);
}

#[test]
fn last_seen_is_the_latest_reading_when_time_moves_on() {
    let mut store = DeviceStore::new();
    let mut t = 10;
    for (i, st) in ["a", "b", "c", "a", "c", "b", "d"].iter().enumerate() {
        t += 7 * i as u64;
        store.observe(&event(HASH_A, st, -60, t));
        let record = store.get(&HASH_A.to_string()).unwrap();
        let latest = record.readings().iter().map(|r| r.reading.timestamp).max().unwrap();
        assert_eq!(record.last_seen(), latest);
    }
}

#[test]
fn devices_are_kept_apart() {
    let mut store = DeviceStore::new();
    assert!(store.get(&HASH_A.to_string()).is_none());
    store.observe(&event(HASH_A, "a", -60, 1_000));
    store.observe(&event(HASH_B, "a", -70, 9_000));
    store.observe(&event(HASH_A, "b", -61, 1_100));
    assert_eq!(store.len(), 2);
    assert_eq!(store.get(&HASH_A.to_string()).unwrap().reading_count(), 2);
    assert_eq!(store.get(&HASH_B.to_string()).unwrap().reading_count(), 1);
    assert_eq!(store.get(&HASH_B.to_string()).unwrap().last_seen(), 9_000);
    assert_eq!(store.records()[0].mac_hash(), HASH_A);
    assert_eq!(store.records()[1].mac_hash(), HASH_B);
}

#[test]
fn snapshot_is_a_copy() {
    let mut store = DeviceStore::new();
    store.observe(&event(HASH_A, "a", -60, 1_000));
    store.observe(&event(HASH_B, "b", -70, 2_000));
    let snapshot = store.snapshot();
    store.observe(&event(HASH_A, "c", -61, 3_000));
    assert_eq!(snapshot.len(), 2);
    assert_eq!(snapshot[0].mac_hash(), HASH_A);
    assert_eq!(snapshot[0].reading_count(), 1);
    assert_eq!(snapshot[0].last_seen(), 1_000);
    assert_eq!(snapshot[1].mac_hash(), HASH_B);
    assert_eq!(snapshot[1].readings()[0].station, "b");
    assert!(snapshot[1].position().is_none());
    assert_eq!(store.get(&HASH_A.to_string()).unwrap().reading_count(), 2);
}

#[test]
fn calibration_has_defaults() {
    let mut s = station("a", 1, 2);
    assert_eq!(s.id(), "a");
    assert_eq!(s.x(), 1);
    assert_eq!(s.y(), 2);
    assert_eq!(s.calibration(), CalibrationParams { rssi_at_1m: -4500, path_loss_exponent: 2000 });
    s.rssi_at_1m = None;
    s.path_loss_exponent = None;
    assert_eq!(s.calibration(), CalibrationParams { rssi_at_1m: -4500, path_loss_exponent: 3000 });
    assert_eq!(DEFAULT_RSSI_AT_1M, -4500);
    assert_eq!(DEFAULT_PATH_LOSS_EXPONENT, 3000);
    s.rssi_at_1m = Some(-5025);
    assert_eq!(s.calibration(), CalibrationParams { rssi_at_1m: -5025, path_loss_exponent: 3000 });
}

#[test]
fn stations_must_not_share_an_id() {
    assert!(has_distinct_ids(&vec![station("a", 0, 0), station("b", 1, 1)]));
    assert!(!has_distinct_ids(&vec![station("a", 0, 0), station("b", 1, 1), station("a", 2, 2)]));
    assert!(has_distinct_ids(&vec![]));
    assert!(PositionTracker::new(vec![station("a", 0, 0), station("a", 1, 1)], 10, 10).is_none());
    assert_eq!(three_stations().stations().len(), 3);
}

#[test]
fn three_fresh_readings_anchor_a_fix() {
    let tracker = three_stations();
    let mut store = DeviceStore::new();
    on_event(&mut store, &tracker, event(HASH_A, "a", -59, 1_000_000));
    on_event(&mut store, &tracker, event(HASH_A, "b", -63, 1_200_000));
    let pending = on_event(&mut store, &tracker, event(HASH_A, "c", -62, 1_300_000));
    assert_eq!(pending.mac_hash, HASH_A);
    assert_eq!(pending.anchors.len(), 3);
    assert_eq!(pending.anchors[0].station, 0);
    assert_eq!(pending.anchors[0].rssi, -59);
    assert_eq!((pending.anchors[1].x_mm, pending.anchors[1].y_mm), (10_000, 0));
    assert_eq!(pending.anchors[1].rssi, -63);
    assert_eq!((pending.anchors[2].x_mm, pending.anchors[2].y_mm), (0, 10_000));
    assert_eq!(
        pending.anchors[2].calibration,
        CalibrationParams { rssi_at_1m: -4500, path_loss_exponent: 2000 }
    );
    let position = on_distances(&mut store, &tracker, &pending, &FROM_3_4.to_vec(), 77);
    let want =
        Position { x_mm: 3_000, y_mm: 4_000, residual_mm: 0, stations: 3, computed_at_ms: 77 };
    assert_eq!(position, Some(want));
    assert_eq!(store.get(&HASH_A.to_string()).unwrap().position(), Some(want));
}

#[test]
fn two_stations_give_no_position() {
    let tracker = three_stations();
    let mut store = DeviceStore::new();
    on_event(&mut store, &tracker, event(HASH_A, "a", -59, 1_000_000));
    let pending = on_event(&mut store, &tracker, event(HASH_A, "b", -63, 1_200_000));
    assert_eq!(pending.anchors.len(), 2);
    assert_eq!(on_distances(&mut store, &tracker, &pending, &vec![5_000, 8_062], 1), None);
    assert_eq!(on_distances(&mut store, &tracker, &pending, &FROM_3_4.to_vec(), 1), None);
    assert!(store.get(&HASH_A.to_string()).unwrap().position().is_none());
    assert!(store.snapshot()[0].position().is_none());
}

#[test]
fn a_stale_reading_does_not_anchor() {
    let tracker = three_stations();
    let mut store = DeviceStore::new();
    on_event(&mut store, &tracker, event(HASH_A, "a", -59, 100_000_000));
    on_event(&mut store, &tracker, event(HASH_A, "b", -63, 140_000_000));
    let pending = on_event(&mut store, &tracker, event(HASH_A, "c", -62, 140_000_000));
    assert_eq!(store.get(&HASH_A.to_string()).unwrap().reading_count(), 3);
    assert_eq!(pending.anchors.len(), 2);
    assert_eq!(pending.anchors[0].station, 1);
    assert_eq!(pending.anchors[1].station, 2);
    assert_eq!(on_distances(&mut store, &tracker, &pending, &vec![8_062, 6_708], 1), None);
    assert!(store.get(&HASH_A.to_string()).unwrap().position().is_none());
}

#[test]
fn a_reading_at_the_horizon_still_anchors() {
    let tracker = three_stations();
    let mut store = DeviceStore::new();
    on_event(&mut store, &tracker, event(HASH_A, "a", -59, 10_000_000));
    on_event(&mut store, &tracker, event(HASH_A, "b", -63, 10_000_000 + FRESHNESS_HORIZON_US));
    let pending = on_event(&mut store, &tracker, event(HASH_A, "c", -62, 20_000_000));
    assert_eq!(pending.anchors.len(), 3);
    let pending =
        on_event(&mut store, &tracker, event(HASH_A, "b", -63, 10_000_001 + FRESHNESS_HORIZON_US));
    assert_eq!(pending.anchors.len(), 2);
    let strict = three_stations().with_horizon(5);
    assert_eq!(strict.plan(&store, &HASH_A.to_string()).len(), 1);
}

#[test]
fn losing_an_anchor_clears_the_position() {
    let tracker = three_stations();
    let mut store = DeviceStore::new();
    seen_by_all(&mut store, &tracker, HASH_A, 1_000_000);
    let pending = pending_of(&tracker, &store, HASH_A);
    assert!(on_distances(&mut store, &tracker, &pending, &FROM_3_4.to_vec(), 1).is_some());
    let pending = on_event(&mut store, &tracker, event(HASH_A, "c", -62, 50_000_000));
    assert_eq!(pending.anchors.len(), 1);
    assert_eq!(on_distances(&mut store, &tracker, &pending, &vec![6_708], 2), None);
    assert!(store.get(&HASH_A.to_string()).unwrap().position().is_none());
}

#[test]
fn readings_of_unknown_stations_do_not_anchor() {
    let tracker = three_stations();
    let mut store = DeviceStore::new();
    on_event(&mut store, &tracker, event(HASH_A, "a", -59, 1_000_000));
    on_event(&mut store, &tracker, event(HASH_A, "b", -63, 1_000_000));
    let pending = on_event(&mut store, &tracker, event(HASH_A, "elsewhere", -62, 1_000_000));
    assert_eq!(store.get(&HASH_A.to_string()).unwrap().reading_count(), 3);
    assert_eq!(pending.anchors.len(), 2);
    assert_eq!(on_distances(&mut store, &tracker, &pending, &vec![5_000, 8_062], 1), None);
}

#[test]
fn a_distance_for_each_anchor_is_needed() {
    let tracker = three_stations();
    let mut store = DeviceStore::new();
    seen_by_all(&mut store, &tracker, HASH_A, 1_000_000);
    let pending = pending_of(&tracker, &store, HASH_A);
    assert!(on_distances(&mut store, &tracker, &pending, &FROM_3_4.to_vec(), 1).is_some());
    assert_eq!(on_distances(&mut store, &tracker, &pending, &vec![5_000, 8_062], 2), None);
    assert!(store.get(&HASH_A.to_string()).unwrap().position().is_none());
    assert_eq!(
        on_distances(&mut store, &tracker, &pending, &vec![5_000, 8_062, 6_708, 1], 3),
        None
    );
    let anchors: Vec<Anchor> = tracker.plan(&store, &HASH_A.to_string());
    assert_eq!(tracker.locate(&anchors, &vec![]), Solution::InsufficientAnchors);
    assert_eq!(
        tracker.locate(&anchors, &FROM_3_4.to_vec()),
        Solution::Fix { x_mm: 3_000, y_mm: 4_000, residual_mm: 0 }
    );
}

#[test]
fn stations_on_one_line_give_no_position() {
    let tracker = PositionTracker::new(
        vec![station("a", 0, 0), station("b", 5_000, 0), station("c", 10_000, 0)],
        10_000,
        10_000,
    )
    .unwrap();
    let mut store = DeviceStore::new();
    seen_by_all(&mut store, &tracker, HASH_A, 1_000_000);
    let pending = pending_of(&tracker, &store, HASH_A);
    assert_eq!(pending.anchors.len(), 3);
    assert_eq!(
        tracker.locate(&pending.anchors, &vec![5_000, 5_000, 5_000]),
        Solution::IllConditioned
    );
    assert_eq!(on_distances(&mut store, &tracker, &pending, &vec![5_000, 5_000, 5_000], 1), None);
    assert!(store.get(&HASH_A.to_string()).unwrap().position().is_none());
}

#[test]
fn a_new_fix_is_smoothed_against_the_last() {
    let tracker = three_stations();
    let mut store = DeviceStore::new();
    seen_by_all(&mut store, &tracker, HASH_A, 1_000_000);
    let pending = pending_of(&tracker, &store, HASH_A);
    let first = on_distances(&mut store, &tracker, &pending, &FROM_3_4.to_vec(), 10).unwrap();
    assert_eq!((first.x_mm, first.y_mm, first.residual_mm), (3_000, 4_000, 0));
    let second =
        on_distances(&mut store, &tracker, &pending, &FROM_ELSEWHERE.to_vec(), 20).unwrap();
    assert_eq!((second.x_mm, second.y_mm), (2_625, 4_000));
    assert_eq!(second.residual_mm, 273);
    assert_eq!(second.computed_at_ms, 20);
    let third = on_distances(&mut store, &tracker, &pending, &FROM_3_4.to_vec(), 30).unwrap();
    assert_eq!((third.x_mm, third.y_mm), (2_737, 4_000));
    let p = tracker.resolve(Some(first), 3, fix(4_000, 2_001), 9).unwrap();
    assert_eq!((p.x_mm, p.y_mm, p.residual_mm), (3_300, 3_400, 4));
}

#[test]
fn a_position_stays_in_the_room() {
    let tracker = three_stations();
    let mut store = DeviceStore::new();
    seen_by_all(&mut store, &tracker, HASH_A, 1_000_000);
    let pending = pending_of(&tracker, &store, HASH_A);
    let out = vec![100, 14_142, 14_142];
    assert_eq!(
        tracker.locate(&pending.anchors, &out),
        Solution::Fix { x_mm: -5_000, y_mm: -5_000, residual_mm: 4_249 }
    );
    let p = on_distances(&mut store, &tracker, &pending, &out, 1).unwrap();
    assert_eq!((p.x_mm, p.y_mm, p.residual_mm), (0, 0, 4_249));
    let p = tracker.resolve(None, 3, fix(-2_500, 12_345), 1).unwrap();
    assert_eq!((p.x_mm, p.y_mm), (0, 10_000));
    let p = tracker.resolve(None, 3, fix(-1, i64::MAX), 1).unwrap();
    assert_eq!((p.x_mm, p.y_mm), (0, 10_000));
    let prior = Position { x_mm: 0, y_mm: 10_000, residual_mm: 0, stations: 3, computed_at_ms: 0 };
    let p = tracker.resolve(Some(prior), 3, fix(i64::MIN, 0), 1).unwrap();
    assert_eq!((p.x_mm, p.y_mm), (0, 7_000));
    let p = tracker.resolve(None, 3, fix(10_000, 0), 9).unwrap();
    assert_eq!((p.x_mm, p.y_mm), (10_000, 0));
    assert_eq!(tracker.resolve(None, 2, fix(10_000, 0), 9), None);
    assert_eq!(tracker.resolve(None, 3, Solution::IllConditioned, 9), None);
    assert_eq!(tracker.resolve(None, 3, Solution::InsufficientAnchors, 9), None);
}

#[test]
fn a_distance_is_clamped_to_the_room() {
    let tracker = three_stations();
    assert_eq!(tracker.diagonal_mm(), 14_142);
    let mut store = DeviceStore::new();
    seen_by_all(&mut store, &tracker, HASH_A, 1_000_000);
    let anchors = tracker.plan(&store, &HASH_A.to_string());
    let clamped = tracker.locate(&anchors, &vec![100, 14_142, 14_142]);
    assert_eq!(tracker.locate(&anchors, &vec![0, 20_000, u32::MAX]), clamped);
    assert_eq!(tracker.locate(&anchors, &vec![99, 14_143, 14_142]), clamped);
    assert_ne!(tracker.locate(&anchors, &vec![101, 14_142, 14_142]), clamped);
    let tiny = PositionTracker::new(
        vec![station("a", 0, 0), station("b", 50, 0), station("c", 0, 50)],
        50,
        50,
    )
    .unwrap();
    assert_eq!(tiny.diagonal_mm(), 70);
    let mut store = DeviceStore::new();
    seen_by_all(&mut store, &tiny, HASH_A, 1);
    let anchors = tiny.plan(&store, &HASH_A.to_string());
    assert_eq!(
        tiny.locate(&anchors, &vec![1, 5_000, 70]),
        tiny.locate(&anchors, &vec![100, 100, 100])
    );
}

#[test]
fn a_tracker_keeps_within_the_solvers_reach() {
    assert!(PositionTracker::new(vec![station("a", 262_144, -262_144)], 262_144, 262_144).is_some());
    assert!(PositionTracker::new(vec![station("a", 262_145, 0)], 10, 10).is_none());
    assert!(PositionTracker::new(vec![station("a", 0, -262_145)], 10, 10).is_none());
    assert!(PositionTracker::new(vec![station("a", 0, 0)], 262_145, 10).is_none());
    assert!(PositionTracker::new(vec![station("a", 0, 0)], 10, 262_145).is_none());
    assert!(PositionTracker::new(vec![], 0, 0).is_some());
}

#[test]
fn at_most_sixteen_anchors_enter_a_fix() {
    let mut stations = Vec::new();
    for i in 0..20i64 {
        stations.push(station(&format!("s{}", i), 500 * i, 300 * (i % 5)));
    }
    let tracker = PositionTracker::new(stations, 10_000, 10_000).unwrap();
    let mut store = DeviceStore::new();
    let mut pending = on_event(&mut store, &tracker, event(HASH_A, "s0", -60, 5));
    for i in 1..20 {
        pending = on_event(&mut store, &tracker, event(HASH_A, &format!("s{}", i), -60, 5));
    }
    assert_eq!(store.get(&HASH_A.to_string()).unwrap().reading_count(), 20);
    assert_eq!(pending.anchors.len(), 16);
    assert_eq!(pending.anchors[15].station, 15);
    let position = on_distances(&mut store, &tracker, &pending, &vec![3_000; 16], 1).unwrap();
    assert_eq!(position.stations, 16);
}

#[test]
fn a_position_rests_on_three_readings() {
    let tracker = three_stations();
    let mut store = DeviceStore::new();
    for (i, st) in ["a", "b", "zz", "c", "a", "b"].iter().enumerate() {
        let pending = on_event(&mut store, &tracker, event(HASH_A, st, -60, 1_000 + i as u64));
        let distances = vec![5_000; pending.anchors.len()];
        let position = on_distances(&mut store, &tracker, &pending, &distances, i as u64);
        let record = store.get(&HASH_A.to_string()).unwrap();
        assert_eq!(record.position(), position);
        if let Some(p) = position {
            assert!(record.reading_count() >= 3);
            assert!(p.stations >= 3 && p.stations <= record.reading_count());
        }
        assert_eq!(position.is_some(), i >= 3);
    }
}

#[test]
fn a_rejected_payload_changes_nothing() {
    let tracker = three_stations();
    let mut store = DeviceStore::new();
    let pending = on_publish(&mut store, &tracker, &payload(HASH_A, -59, 6, 1_000, "a")).unwrap();
    assert_eq!(pending.anchors.len(), 1);
    assert_eq!(
        on_publish(&mut store, &tracker, &payload(HASH_B, -59, 0, 1_000, "a")).unwrap_err(),
        DecodeError::ChannelOutOfRange
    );
    assert_eq!(
        on_publish(&mut store, &tracker, b"{}").unwrap_err(),
        DecodeError::Missing(Field::MacHash)
    );
    assert_eq!(store.len(), 1);
    assert!(store.get(&HASH_B.to_string()).is_none());
}

#[test]
fn distances_for_an_unseen_device_are_dropped() {
    let tracker = three_stations();
    let mut store = DeviceStore::new();
    assert_eq!(tracker.plan(&store, &HASH_A.to_string()).len(), 0);
    assert_eq!(
        tracker.update_position(&mut store, &HASH_A.to_string(), &FROM_3_4.to_vec(), 1),
        None
    );
    assert_eq!(store.len(), 0);
}
