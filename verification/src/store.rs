//! What the server knows of each device: the latest reading per station,
//! when the device was last seen, and its position if it has one.

use vstd::hash_map::StringHashMap;
use vstd::prelude::*;
use vstd::string::*;

use crate::assoc::{
    lemma_empty, lemma_index_of, lemma_len, lemma_push, lemma_update, spec_distinct, spec_has,
    spec_index_of, spec_map, spec_put, Entry,
};
use crate::ingest::{WireEvent, WireEventView};
use crate::solver::MIN_ANCHORS;

verus! {

/// One station's latest report of a device.
#[derive(Debug, Clone, Copy, PartialEq, Eq, Structural)]
pub struct RssiReading {
    /// Signal strength in dBm.
    pub rssi: i8,
    /// Microseconds since the reporting station booted.
    pub timestamp: u64,
}

/// A position on the floor plan, in whole millimetres.
#[derive(Debug, Clone, Copy, PartialEq, Eq, Structural)]
pub struct Position {
    pub x_mm: i64,
    pub y_mm: i64,
    /// Root mean square of the distance errors of the fix.
    pub residual_mm: u64,
    /// How many stations anchored the fix.
    pub stations: usize,
    /// When the fix was computed, in milliseconds of wall-clock time.
    pub computed_at_ms: u64,
}

/// A reading with the id of the station that made it.
#[derive(Debug)]
pub struct StationReading {
    pub station: String,
    pub reading: RssiReading,
}

impl Clone for StationReading {
    fn clone(&self) -> (copy: Self)
        ensures
            copy == *self,
    {
        StationReading { station: self.station.clone(), reading: self.reading }
    }
}

/// All that is known of one device.
#[derive(Debug)]
pub struct DeviceRecord {
    mac_hash: String,
    readings: Vec<StationReading>,
    last_seen: u64,
    position: Option<Position>,
}

/// A device record as plain values.
pub struct RecordView {
    pub mac_hash: Seq<char>,
    /// The latest reading of each station that has reported the device.
    pub readings: Map<Seq<char>, RssiReading>,
    pub last_seen: u64,
    pub position: Option<Position>,
}

/// The reading that an event reports.
pub open spec fn spec_reading(event: WireEventView) -> RssiReading {
    RssiReading { rssi: event.rssi, timestamp: event.timestamp }
}

/// The time a device was last seen is the time of one of its readings.
pub open spec fn spec_last_seen_attained(record: RecordView) -> bool {
    exists|station: Seq<char>|
        record.readings.dom().contains(station) && (#[trigger] record.readings[station]).timestamp
            == record.last_seen
}

/// The time a device was last seen is the latest time of its readings.
pub open spec fn spec_last_seen_is_max(record: RecordView) -> bool {
    &&& spec_last_seen_attained(record)
    &&& forall|station: Seq<char>|
        record.readings.dom().contains(station) ==> (#[trigger] record.readings[station]).timestamp
            <= record.last_seen
}

/// What holds of every record in a store: it has a reading, it was last
/// seen at the time of one of them, and it has a position only if at least
/// three stations have reported it.
pub open spec fn spec_record_inv(record: RecordView) -> bool {
    &&& record.readings.dom().finite()
    &&& record.readings.dom().len() >= 1
    &&& spec_last_seen_attained(record)
    &&& record.position.is_some() ==> record.readings.dom().len() >= MIN_ANCHORS
    &&& record.position.is_some() ==> MIN_ANCHORS <= record.position.unwrap().stations
        <= record.readings.dom().len()
}

/// A record after one more event of its device: the reading of the event's
/// station is replaced, whatever its age, and the device was last seen at
/// the event's time.
pub open spec fn spec_record_after(record: RecordView, event: WireEventView) -> RecordView {
    RecordView {
        readings: record.readings.insert(event.station, spec_reading(event)),
        last_seen: event.timestamp,
        ..record
    }
}

/// The record of a device whose first event this is.
pub open spec fn spec_first_record(event: WireEventView) -> RecordView {
    RecordView {
        mac_hash: event.mac_hash,
        readings: Map::<Seq<char>, RssiReading>::empty().insert(
            event.station,
            spec_reading(event),
        ),
        last_seen: event.timestamp,
        position: None,
    }
}

/// The store after one more event.
pub open spec fn spec_observe(
    store: Map<Seq<char>, RecordView>,
    event: WireEventView,
) -> Map<Seq<char>, RecordView> {
    if store.dom().contains(event.mac_hash) {
        store.insert(event.mac_hash, spec_record_after(store[event.mac_hash], event))
    } else {
        store.insert(event.mac_hash, spec_first_record(event))
    }
}

/// Readings as a list of entries under their stations' ids.
pub open spec fn spec_reading_entries(readings: Seq<StationReading>) -> Seq<Entry<RssiReading>> {
    readings.map_values(|r: StationReading| (r.station@, r.reading))
}

/// A record with another position, or none.
pub open spec fn spec_with_position(record: RecordView, position: Option<Position>) -> RecordView {
    RecordView { position, ..record }
}

impl DeviceRecord {
    /// The readings as a list of entries, in order of first report.
    pub closed spec fn spec_entries(&self) -> Seq<Entry<RssiReading>> {
        spec_reading_entries(self.readings@)
    }

    /// No station occurs twice, there is a reading, the device was last
    /// seen at the time of one of them, and a position rests on at least
    /// three stations.
    pub closed spec fn wf(&self) -> bool {
        &&& spec_distinct(self.spec_entries())
        &&& self.readings@.len() >= 1
        &&& exists|i: int|
            0 <= i < self.readings@.len() && (#[trigger] self.readings@[i]).reading.timestamp
                == self.last_seen
        &&& self.position.is_some() ==> MIN_ANCHORS <= self.position.unwrap().stations
            <= self.readings@.len()
    }

    /// What a well-formed record shows of itself.
    pub proof fn lemma_inv(&self)
        requires
            self.wf(),
        ensures
            spec_record_inv(self@),
            self@.readings.dom().len() == self.spec_entries().len(),
    {
        let entries = self.spec_entries();
        lemma_len(entries);
        let i = choose|i: int|
            0 <= i < self.readings@.len() && (#[trigger] self.readings@[i]).reading.timestamp
                == self.last_seen;
        lemma_index_of(entries, i);
        assert(self@.readings[entries[i].0].timestamp == self@.last_seen);
    }

    fn find_station(&self, station: &String) -> (found: Option<usize>)
        ensures
            match found {
                Some(i) => i < self.readings@.len() && self.readings@[i as int].station@
                    == station@,
                None => !spec_has(self.spec_entries(), station@),
            },
    {
        let mut i: usize = 0;
        while i < self.readings.len()
            invariant
                i <= self.readings@.len(),
                forall|k: int| 0 <= k < i ==> (#[trigger] self.readings@[k]).station@ != station@,
            decreases self.readings@.len() - i,
        {
            if self.readings[i].station == *station {
                return Some(i);
            }
            i += 1;
        }
        assert(!spec_has(self.spec_entries(), station@)) by {
            if spec_has(self.spec_entries(), station@) {
                let k = choose|k: int|
                    0 <= k < self.spec_entries().len() && (#[trigger] self.spec_entries()[k]).0
                        == station@;
                assert(self.readings@[k].station@ == station@);
            }
        }
        None
    }

    /// The record of a device at its first event.
    fn first(event: &WireEvent) -> (record: Self)
        ensures
            record.wf(),
            record@ == spec_first_record(event@),
            record.spec_entries() == spec_put(
                Seq::<Entry<RssiReading>>::empty(),
                event@.station,
                spec_reading(event@),
            ),
    {
        let reading = RssiReading { rssi: event.rssi, timestamp: event.timestamp };
        let mut readings: Vec<StationReading> = Vec::new();
        readings.push(StationReading { station: event.station.clone(), reading });
        let record = DeviceRecord {
            mac_hash: event.mac_hash.clone(),
            readings,
            last_seen: event.timestamp,
            position: None,
        };
        proof {
            lemma_empty::<RssiReading>();
            lemma_push(Seq::<Entry<RssiReading>>::empty(), event.station@, reading);
            assert(record.spec_entries() =~= Seq::<Entry<RssiReading>>::empty().push(
                (event.station@, reading),
            ));
            assert(record.readings@[0].reading.timestamp == record.last_seen);
        }
        record
    }

    /// Takes one more event of this device.
    fn record(&mut self, event: &WireEvent)
        requires
            old(self).wf(),
        ensures
            final(self).wf(),
            final(self)@ == spec_record_after(old(self)@, event@),
            final(self).spec_entries() == spec_put(
                old(self).spec_entries(),
                event@.station,
                spec_reading(event@),
            ),
    {
        let reading = RssiReading { rssi: event.rssi, timestamp: event.timestamp };
        match self.find_station(&event.station) {
            Some(i) => {
                self.readings[i].reading = reading;
                proof {
                    assert(old(self).spec_entries()[i as int].0 == event.station@);
                    lemma_index_of(old(self).spec_entries(), i as int);
                    lemma_update(old(self).spec_entries(), i as int, reading);
                    assert(self.spec_entries() =~= old(self).spec_entries().update(
                        i as int,
                        (event.station@, reading),
                    ));
                    assert(self.readings@[i as int].reading.timestamp == reading.timestamp);
                }
            },
            None => {
                self.readings.push(StationReading { station: event.station.clone(), reading });
                proof {
                    lemma_push(old(self).spec_entries(), event.station@, reading);
                    assert(self.spec_entries() =~= old(self).spec_entries().push(
                        (event.station@, reading),
                    ));
                    assert(self.readings@[self.readings@.len() - 1].reading.timestamp
                        == reading.timestamp);
                }
            },
        }
        self.last_seen = event.timestamp;
    }

    /// A copy of the record.
    pub fn duplicate(&self) -> (copy: Self)
        ensures
            copy@ == self@,
            copy.spec_entries() == self.spec_entries(),
            self.wf() ==> copy.wf(),
    {
        let mut readings: Vec<StationReading> = Vec::new();
        let mut i: usize = 0;
        while i < self.readings.len()
            invariant
                i <= self.readings@.len(),
                readings@ == self.readings@.take(i as int),
            decreases self.readings@.len() - i,
        {
            readings.push(self.readings[i].clone());
            assert(readings@ =~= self.readings@.take(i + 1));
            i += 1;
        }
        assert(readings@ =~= self.readings@);
        DeviceRecord {
            mac_hash: self.mac_hash.clone(),
            readings,
            last_seen: self.last_seen,
            position: self.position,
        }
    }

    /// The device's privacy hash, in hexadecimal.
    pub fn mac_hash(&self) -> (hash: &String)
        ensures
            hash@ == self@.mac_hash,
    {
        &self.mac_hash
    }

    /// The latest reading of each station, in order of first report.
    pub fn readings(&self) -> (readings: &Vec<StationReading>)
        ensures
            spec_reading_entries(readings@) == self.spec_entries(),
    {
        &self.readings
    }

    /// The number of stations that have reported the device.
    pub fn reading_count(&self) -> (n: usize)
        requires
            self.wf(),
        ensures
            n == self@.readings.dom().len(),
    {
        proof {
            self.lemma_inv();
        }
        self.readings.len()
    }

    /// The time of the device's latest event.
    pub fn last_seen(&self) -> (t: u64)
        ensures
            t == self@.last_seen,
    {
        self.last_seen
    }

    /// The device's position, if it has one.
    pub fn position(&self) -> (p: Option<Position>)
        ensures
            p == self@.position,
    {
        self.position
    }
}

impl View for DeviceRecord {
    type V = RecordView;

    closed spec fn view(&self) -> RecordView {
        RecordView {
            mac_hash: self.mac_hash@,
            readings: spec_map(self.spec_entries()),
            last_seen: self.last_seen,
            position: self.position,
        }
    }
}

/// The server's memory of all devices. A device is kept from its first
/// event on and never forgotten. The records stand in order of first
/// event; an index by privacy hash finds a record without a search.
pub struct DeviceStore {
    records: Vec<DeviceRecord>,
    index: StringHashMap<usize>,
}

impl View for DeviceStore {
    type V = Map<Seq<char>, RecordView>;

    /// The records by privacy hash.
    closed spec fn view(&self) -> Map<Seq<char>, RecordView> {
        spec_map(self.spec_entries())
    }
}

impl DeviceStore {
    /// The records as a list of entries, in order of first event.
    pub closed spec fn spec_entries(&self) -> Seq<Entry<RecordView>> {
        self.records@.map_values(|r: DeviceRecord| (r@.mac_hash, r@))
    }

    /// No device occurs twice, every record is well formed, and the index
    /// holds the place of each record under its hash, and nothing else.
    pub closed spec fn wf(&self) -> bool {
        &&& spec_distinct(self.spec_entries())
        &&& forall|i: int| 0 <= i < self.records@.len() ==> (#[trigger] self.records@[i]).wf()
        &&& forall|i: int|
            0 <= i < self.records@.len() ==> self.index@.contains_key(
                (#[trigger] self.records@[i])@.mac_hash,
            ) && self.index@[self.records@[i]@.mac_hash] == i
        &&& forall|hash: Seq<char>| #[trigger]
            self.index@.contains_key(hash) ==> self.index@[hash] < self.records@.len()
                && self.records@[self.index@[hash] as int]@.mac_hash == hash
    }

    /// The readings of a device in order of first report, or none for a
    /// device that has not been seen.
    pub closed spec fn spec_readings_of(&self, mac_hash: Seq<char>) -> Seq<Entry<RssiReading>> {
        if spec_has(self.spec_entries(), mac_hash) {
            self.records@[spec_index_of(self.spec_entries(), mac_hash)].spec_entries()
        } else {
            Seq::empty()
        }
    }

    /// The ordered readings of a device are the readings of its record, each
    /// station once.
    pub proof fn lemma_readings_of(&self, mac_hash: Seq<char>)
        requires
            self.wf(),
            self@.dom().contains(mac_hash),
        ensures
            spec_distinct(self.spec_readings_of(mac_hash)),
            spec_map(self.spec_readings_of(mac_hash)) == self@[mac_hash].readings,
            self.spec_readings_of(mac_hash).len() == self@[mac_hash].readings.dom().len(),
    {
        let i = spec_index_of(self.spec_entries(), mac_hash);
        lemma_index_of(self.spec_entries(), i);
        self.records@[i].lemma_inv();
    }

    /// What a well-formed store shows of itself: each record is filed under
    /// its own hash and meets the record invariant, and there are as many
    /// devices as records.
    pub proof fn lemma_inv(&self)
        requires
            self.wf(),
        ensures
            self@.dom().finite(),
            self@.dom().len() == self.spec_entries().len(),
            forall|hash: Seq<char>| #[trigger]
                self@.dom().contains(hash) ==> self@[hash].mac_hash == hash && spec_record_inv(
                    self@[hash],
                ),
    {
        let entries = self.spec_entries();
        lemma_len(entries);
        assert forall|hash: Seq<char>| #[trigger] self@.dom().contains(hash) implies self@[hash].mac_hash
            == hash && spec_record_inv(self@[hash]) by {
            let i = spec_index_of(entries, hash);
            lemma_index_of(entries, i);
            self.records@[i].lemma_inv();
        }
    }

    /// A store that knows no device.
    pub fn new() -> (store: Self)
        ensures
            store.wf(),
            store@ == Map::<Seq<char>, RecordView>::empty(),
    {
        let store = DeviceStore { records: Vec::new(), index: StringHashMap::new() };
        proof {
            lemma_empty::<RecordView>();
            assert(store.spec_entries() =~= Seq::<Entry<RecordView>>::empty());
        }
        store
    }

    fn find(&self, mac_hash: &String) -> (found: Option<usize>)
        requires
            self.wf(),
        ensures
            match found {
                Some(i) => i < self.records@.len() && self.records@[i as int]@.mac_hash
                    == mac_hash@,
                None => !spec_has(self.spec_entries(), mac_hash@),
            },
    {
        match self.index.get(mac_hash.as_str()) {
            Some(at) => Some(*at),
            None => {
                assert(!spec_has(self.spec_entries(), mac_hash@)) by {
                    if spec_has(self.spec_entries(), mac_hash@) {
                        let k = choose|k: int|
                            0 <= k < self.spec_entries().len() && (
                            #[trigger] self.spec_entries()[k]).0 == mac_hash@;
                        assert(self.records@[k]@.mac_hash == mac_hash@);
                    }
                }
                None
            },
        }
    }

    /// Takes one event: the device's record is made if this is its first
    /// event, the reading of the event's station is overwritten, and the
    /// device was last seen at the event's time. Every other device stays
    /// as it was.
    pub fn observe(&mut self, event: &WireEvent)
        requires
            old(self).wf(),
        ensures
            final(self).wf(),
            final(self)@ == spec_observe(old(self)@, event@),
            final(self).spec_readings_of(event@.mac_hash) == spec_put(
                old(self).spec_readings_of(event@.mac_hash),
                event@.station,
                spec_reading(event@),
            ),
            forall|hash: Seq<char>|
                hash != event@.mac_hash ==> #[trigger] final(self).spec_readings_of(hash) == old(
                    self,
                ).spec_readings_of(hash),
    {
        match self.find(&event.mac_hash) {
            Some(i) => {
                proof {
                    lemma_index_of(old(self).spec_entries(), i as int);
                }
                self.records[i].record(event);
                proof {
                    let after = self.records@[i as int]@;
                    lemma_update(old(self).spec_entries(), i as int, after);
                    assert(self.spec_entries() =~= old(self).spec_entries().update(
                        i as int,
                        (event.mac_hash@, after),
                    ));
                    lemma_index_of(self.spec_entries(), i as int);
                }
            },
            None => {
                let record = DeviceRecord::first(event);
                proof {
                    lemma_push(old(self).spec_entries(), event.mac_hash@, record@);
                }
                self.index.insert(event.mac_hash.clone(), self.records.len());
                self.records.push(record);
                proof {
                    assert(self.spec_entries() =~= old(self).spec_entries().push(
                        (event.mac_hash@, record@),
                    ));
                    lemma_index_of(self.spec_entries(), self.records@.len() - 1);
                    assert forall|i: int| 0 <= i < self.records@.len() implies self.index@.contains_key(
                        (#[trigger] self.records@[i])@.mac_hash,
                    ) && self.index@[self.records@[i]@.mac_hash] == i by {
                        if i < old(self).records@.len() {
                            assert(self.records@[i] == old(self).records@[i]);
                            assert(old(self).spec_entries()[i].0 != event.mac_hash@);
                        }
                    }
                    assert forall|hash: Seq<char>| #[trigger]
                        self.index@.contains_key(hash) implies self.index@[hash]
                        < self.records@.len() && self.records@[self.index@[hash] as int]@.mac_hash
                        == hash by {
                        if hash != event.mac_hash@ {
                            assert(old(self).index@.contains_key(hash));
                            let k = old(self).index@[hash] as int;
                            assert(self.records@[k] == old(self).records@[k]);
                        }
                    }
                }
            },
        }
        proof {
            assert forall|hash: Seq<char>| hash != event@.mac_hash implies #[trigger]
                self.spec_readings_of(hash) == old(self).spec_readings_of(hash) by {
                if spec_has(old(self).spec_entries(), hash) {
                    let k = spec_index_of(old(self).spec_entries(), hash);
                    assert(self.spec_entries()[k].0 == hash);
                    lemma_index_of(self.spec_entries(), k);
                }
                if spec_has(self.spec_entries(), hash) {
                    let k = spec_index_of(self.spec_entries(), hash);
                    assert(k < old(self).records@.len());
                    assert(old(self).spec_entries()[k].0 == hash);
                    lemma_index_of(old(self).spec_entries(), k);
                }
            }
        }
    }

    /// The number of devices.
    pub fn len(&self) -> (n: usize)
        requires
            self.wf(),
        ensures
            n == self@.dom().len(),
    {
        proof {
            self.lemma_inv();
        }
        self.records.len()
    }

    /// The record of a device, if the device has been seen.
    pub fn get(&self, mac_hash: &String) -> (record: Option<&DeviceRecord>)
        requires
            self.wf(),
        ensures
            record.is_some() <==> self@.dom().contains(mac_hash@),
            record.is_some() ==> {
                &&& record.unwrap()@ == self@[mac_hash@]
                &&& record.unwrap().wf()
                &&& record.unwrap().spec_entries() == self.spec_readings_of(mac_hash@)
            },
            record.is_none() ==> self.spec_readings_of(mac_hash@) == Seq::<
                Entry<RssiReading>,
            >::empty(),
    {
        match self.find(mac_hash) {
            Some(i) => {
                proof {
                    lemma_index_of(self.spec_entries(), i as int);
                }
                Some(&self.records[i])
            },
            None => None,
        }
    }

    /// Gives a known device another position, or none. A position must
    /// rest on at least three of the device's stations.
    pub(crate) fn set_position(&mut self, mac_hash: &String, position: Option<Position>) -> (known:
        bool)
        requires
            old(self).wf(),
            position.is_some() && old(self)@.dom().contains(mac_hash@) ==> MIN_ANCHORS
                <= position.unwrap().stations <= old(self)@[mac_hash@].readings.dom().len(),
        ensures
            final(self).wf(),
            known == old(self)@.dom().contains(mac_hash@),
            known ==> final(self)@ == old(self)@.insert(
                mac_hash@,
                spec_with_position(old(self)@[mac_hash@], position),
            ),
            !known ==> final(self)@ == old(self)@,
            forall|hash: Seq<char>| #[trigger]
                final(self).spec_readings_of(hash) == old(self).spec_readings_of(hash),
    {
        match self.find(mac_hash) {
            Some(i) => {
                proof {
                    lemma_index_of(old(self).spec_entries(), i as int);
                    old(self).records@[i as int].lemma_inv();
                }
                self.records[i].position = position;
                proof {
                    let after = self.records@[i as int]@;
                    assert(self.records@[i as int].wf());
                    lemma_update(old(self).spec_entries(), i as int, after);
                    assert(self.spec_entries() =~= old(self).spec_entries().update(
                        i as int,
                        (mac_hash@, after),
                    ));
                    assert forall|hash: Seq<char>| #[trigger]
                        self.spec_readings_of(hash) == old(self).spec_readings_of(hash) by {
                        if spec_has(old(self).spec_entries(), hash) {
                            let k = spec_index_of(old(self).spec_entries(), hash);
                            lemma_index_of(self.spec_entries(), k);
                        }
                        if spec_has(self.spec_entries(), hash) {
                            let k = spec_index_of(self.spec_entries(), hash);
                            lemma_index_of(old(self).spec_entries(), k);
                        }
                    }
                }
                true
            },
            None => false,
        }
    }

    /// A consistent copy of all records, in order of first event, for a
    /// reader that must not hold the store while it works.
    pub fn snapshot(&self) -> (records: Vec<DeviceRecord>)
        requires
            self.wf(),
        ensures
            records@.map_values(|r: DeviceRecord| (r@.mac_hash, r@)) == self.spec_entries(),
            spec_map(records@.map_values(|r: DeviceRecord| (r@.mac_hash, r@))) == self@,
            forall|i: int| 0 <= i < records@.len() ==> (#[trigger] records@[i]).wf(),
    {
        let mut records: Vec<DeviceRecord> = Vec::new();
        let mut i: usize = 0;
        while i < self.records.len()
            invariant
                i <= self.records@.len(),
                self.wf(),
                records@.len() == i,
                forall|k: int| 0 <= k < i ==> (#[trigger] records@[k])@ == self.records@[k]@,
                forall|k: int| 0 <= k < i ==> (#[trigger] records@[k]).wf(),
            decreases self.records@.len() - i,
        {
            records.push(self.records[i].duplicate());
            i += 1;
        }
        assert(records@.map_values(|r: DeviceRecord| (r@.mac_hash, r@)) =~= self.spec_entries());
        records
    }

    /// All records, in order of first event.
    pub fn records(&self) -> (records: &Vec<DeviceRecord>)
        requires
            self.wf(),
        ensures
            records@.map_values(|r: DeviceRecord| (r@.mac_hash, r@)) == self.spec_entries(),
            forall|i: int| 0 <= i < records@.len() ==> (#[trigger] records@[i]).wf(),
    {
        &self.records
    }
}

/// A device's first record was last seen at the latest time of its
/// readings: it has one.
pub proof fn lemma_first_last_seen_is_max(event: WireEventView)
    ensures
        spec_last_seen_is_max(spec_first_record(event)),
{
    let record = spec_first_record(event);
    assert(record.readings.dom().contains(event.station));
    assert(record.readings[event.station].timestamp == record.last_seen);
}

/// Where a device was last seen at the latest time of its readings, it
/// still is after an event that is no older than that time.
pub proof fn lemma_last_seen_stays_max(record: RecordView, event: WireEventView)
    requires
        spec_last_seen_is_max(record),
        event.timestamp >= record.last_seen,
    ensures
        spec_last_seen_is_max(spec_record_after(record, event)),
{
    let after = spec_record_after(record, event);
    assert(after.readings.dom().contains(event.station));
    assert(after.readings[event.station].timestamp == after.last_seen);
    assert forall|station: Seq<char>| after.readings.dom().contains(station) implies (
    #[trigger] after.readings[station]).timestamp <= after.last_seen by {
        if station != event.station {
            assert(record.readings.dom().contains(station));
            assert(record.readings[station].timestamp <= record.last_seen);
        }
    }
}

/// Where every device in a store was last seen at the latest time of its
/// readings, that still holds after an event that is no older than the
/// time its device was last seen.
pub proof fn lemma_observe_keeps_last_seen_max(
    store: Map<Seq<char>, RecordView>,
    event: WireEventView,
)
    requires
        forall|hash: Seq<char>| #[trigger]
            store.dom().contains(hash) ==> spec_last_seen_is_max(store[hash]),
        store.dom().contains(event.mac_hash) ==> event.timestamp >= store[event.mac_hash].last_seen,
    ensures
        forall|hash: Seq<char>| #[trigger]
            spec_observe(store, event).dom().contains(hash) ==> spec_last_seen_is_max(
                spec_observe(store, event)[hash],
            ),
{
    let after = spec_observe(store, event);
    assert forall|hash: Seq<char>| #[trigger] after.dom().contains(hash) implies spec_last_seen_is_max(
        after[hash],
    ) by {
        if hash == event.mac_hash {
            if store.dom().contains(event.mac_hash) {
                lemma_last_seen_stays_max(store[event.mac_hash], event);
            } else {
                lemma_first_last_seen_is_max(event);
            }
        } else {
            assert(store.dom().contains(hash));
        }
    }
}

/// A station never has more than one reading of a device: after an event,
/// the device's readings are those it had, with the one of the event's
/// station replaced or added.
pub proof fn lemma_one_reading_per_station(record: RecordView, event: WireEventView)
    requires
        record.readings.dom().finite(),
    ensures
        spec_record_after(record, event).readings.dom() == record.readings.dom().insert(
            event.station,
        ),
        spec_record_after(record, event).readings.dom().len() == if record.readings.dom().contains(
            event.station,
        ) {
            record.readings.dom().len()
        } else {
            record.readings.dom().len() + 1
        },
{
}

} // verus!
