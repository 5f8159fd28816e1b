//! From a device's readings to its position.
//!
//! The tracker knows the stations and the room. For a device it picks the
//! readings that may anchor a fix: those of known stations that are no
//! older than the freshness horizon, counted from the device's newest
//! reading. Given the distance that each anchor's signal strength stands
//! for, it solves for the device's position. A fix of at least three
//! anchors is smoothed against the device's previous position and clamped
//! to the room; with fewer, or with no solution, the device has no
//! position.
//!
//! Turning a signal strength into a distance takes a real power, which is
//! left to the caller: an [`Anchor`] holds what that takes.

use vstd::prelude::*;
use vstd::string::*;

use crate::assoc::{lemma_index_of, spec_distinct, spec_has, spec_index_of, Entry};
use crate::solver::{
    isqrt, multilaterate, spec_in_limits, spec_isqrt, spec_solve, spec_sq, Range, Solution,
    COORD_LIMIT_MM, MAX_ANCHORS, MIN_ANCHORS, RANGE_LIMIT_MM,
};
use crate::store::{
    spec_reading_entries, spec_with_position, DeviceStore, Position, RssiReading, StationReading,
};

verus! {

/// Signal strength at one metre where a station names none, in hundredths
/// of a dBm.
pub const DEFAULT_RSSI_AT_1M: i32 = -4500;

/// Path-loss exponent where a station names none, in thousandths.
pub const DEFAULT_PATH_LOSS_EXPONENT: u32 = 3000;

/// How much older than the newest a reading may be, in microseconds.
pub const FRESHNESS_HORIZON_US: u64 = 30_000_000;

/// The share of a new fix in the smoothed position, in tenths.
pub const SMOOTHING_TENTHS: i128 = 3;

/// The shortest distance an anchor is taken to report, in millimetres.
pub const MIN_RANGE_MM: u32 = 100;

/// How a station's signal strength falls off with distance: a signal of
/// `r` dBm has come `10 ^ ((rssi_at_1m - r) / (10 * path_loss_exponent))`
/// metres, both taken in their own units.
#[derive(Debug, Clone, Copy, PartialEq, Eq, Structural)]
pub struct CalibrationParams {
    /// Signal strength at one metre, in hundredths of a dBm.
    pub rssi_at_1m: i32,
    /// Path-loss exponent, in thousandths.
    pub path_loss_exponent: u32,
}

/// One station as configured: where it stands and how it is calibrated.
#[derive(Debug)]
pub struct StationConfig {
    pub id: String,
    pub x_mm: i64,
    pub y_mm: i64,
    pub label: String,
    /// Signal strength at one metre, in hundredths of a dBm, if configured.
    pub rssi_at_1m: Option<i32>,
    /// Path-loss exponent, in thousandths, if configured.
    pub path_loss_exponent: Option<u32>,
}

/// A station as plain values, without its id and label.
pub struct StationView {
    pub x_mm: i64,
    pub y_mm: i64,
    pub calibration: CalibrationParams,
}

/// A station's calibration, with the defaults where none is configured.
pub open spec fn spec_calibration(
    rssi_at_1m: Option<i32>,
    path_loss_exponent: Option<u32>,
) -> CalibrationParams {
    CalibrationParams {
        rssi_at_1m: match rssi_at_1m {
            Some(v) => v,
            None => DEFAULT_RSSI_AT_1M,
        },
        path_loss_exponent: match path_loss_exponent {
            Some(v) => v,
            None => DEFAULT_PATH_LOSS_EXPONENT,
        },
    }
}

impl View for StationConfig {
    type V = StationView;

    open spec fn view(&self) -> StationView {
        StationView {
            x_mm: self.x_mm,
            y_mm: self.y_mm,
            calibration: spec_calibration(self.rssi_at_1m, self.path_loss_exponent),
        }
    }
}

impl StationConfig {
    pub fn id(&self) -> (id: &str)
        ensures
            id@ == self.id@,
    {
        self.id.as_str()
    }

    pub fn x(&self) -> (x: i64)
        ensures
            x == self.x_mm,
    {
        self.x_mm
    }

    pub fn y(&self) -> (y: i64)
        ensures
            y == self.y_mm,
    {
        self.y_mm
    }

    /// The station's calibration: -45 dBm at one metre and an exponent of
    /// 3 where the configuration names none.
    pub fn calibration(&self) -> (c: CalibrationParams)
        ensures
            c == self@.calibration,
    {
        CalibrationParams {
            rssi_at_1m: match self.rssi_at_1m {
                Some(v) => v,
                None => DEFAULT_RSSI_AT_1M,
            },
            path_loss_exponent: match self.path_loss_exponent {
                Some(v) => v,
                None => DEFAULT_PATH_LOSS_EXPONENT,
            },
        }
    }
}

/// One reading that may anchor a fix, with what it takes to turn it into a
/// distance from a known point.
#[derive(Debug, Clone, Copy, PartialEq, Eq, Structural)]
pub struct Anchor {
    /// The station's place in the configuration.
    pub station: usize,
    pub x_mm: i64,
    pub y_mm: i64,
    pub calibration: CalibrationParams,
    /// Signal strength in dBm.
    pub rssi: i8,
}

/// The tracker as plain values.
pub struct TrackerView {
    /// The stations under their ids, in configured order.
    pub stations: Seq<Entry<StationView>>,
    pub room_width_mm: u32,
    pub room_height_mm: u32,
    pub horizon_us: u64,
}

/// The latest time among readings, zero where there is none.
pub open spec fn spec_newest(readings: Seq<Entry<RssiReading>>) -> u64
    decreases readings.len(),
{
    if readings.len() == 0 {
        0
    } else {
        let rest = spec_newest(readings.drop_last());
        if readings.last().1.timestamp > rest {
            readings.last().1.timestamp
        } else {
            rest
        }
    }
}

/// Whether a reading may anchor a fix: its station is configured, and it is
/// no older than the horizon allows, counted from the newest reading.
pub open spec fn spec_may_anchor(
    tracker: TrackerView,
    entry: Entry<RssiReading>,
    newest: u64,
) -> bool {
    &&& spec_has(tracker.stations, entry.0)
    &&& newest - entry.1.timestamp <= tracker.horizon_us
}

/// The anchor that a reading of a configured station gives.
pub open spec fn spec_anchor(tracker: TrackerView, entry: Entry<RssiReading>) -> Anchor {
    let at = spec_index_of(tracker.stations, entry.0);
    Anchor {
        station: at as usize,
        x_mm: tracker.stations[at].1.x_mm,
        y_mm: tracker.stations[at].1.y_mm,
        calibration: tracker.stations[at].1.calibration,
        rssi: entry.1.rssi,
    }
}

/// The anchors among readings, in the readings' order, for a given newest
/// time: the first sixteen, should there be more.
pub open spec fn spec_select(
    tracker: TrackerView,
    readings: Seq<Entry<RssiReading>>,
    newest: u64,
) -> Seq<Anchor>
    decreases readings.len(),
{
    if readings.len() == 0 {
        Seq::empty()
    } else {
        let rest = spec_select(tracker, readings.drop_last(), newest);
        if rest.len() < MAX_ANCHORS && spec_may_anchor(tracker, readings.last(), newest) {
            rest.push(spec_anchor(tracker, readings.last()))
        } else {
            rest
        }
    }
}

/// The anchors of a device with the given readings.
pub open spec fn spec_anchors(tracker: TrackerView, readings: Seq<Entry<RssiReading>>) -> Seq<
    Anchor,
> {
    spec_select(tracker, readings, spec_newest(readings))
}

/// A new coordinate smoothed against the previous one: three tenths of the
/// new, seven tenths of the old, rounded down to a whole millimetre. With
/// no previous one the new coordinate stands.
pub open spec fn spec_smooth(prior: Option<int>, raw: int) -> int {
    match prior {
        Some(p) => (SMOOTHING_TENTHS * raw + (10 - SMOOTHING_TENTHS) * p) / 10,
        None => raw,
    }
}

/// A coordinate moved into `0 ..= limit`.
pub open spec fn spec_clamp(v: int, limit: int) -> int {
    if v < 0 {
        0
    } else if v > limit {
        limit
    } else {
        v
    }
}

/// The position a device has after a solution for `anchors` anchors:
/// none with fewer than three anchors or without a fix, else the fix
/// smoothed against the previous position and clamped to the room.
pub open spec fn spec_resolve(
    tracker: TrackerView,
    prior: Option<Position>,
    anchors: nat,
    solution: Solution,
    now_ms: u64,
) -> Option<Position> {
    if anchors < MIN_ANCHORS {
        None
    } else {
        match solution {
            Solution::Fix { x_mm, y_mm, residual_mm } => Some(
                Position {
                    x_mm: spec_clamp(
                        spec_smooth(
                            match prior {
                                Some(p) => Some(p.x_mm as int),
                                None => None,
                            },
                            x_mm as int,
                        ),
                        tracker.room_width_mm as int,
                    ) as i64,
                    y_mm: spec_clamp(
                        spec_smooth(
                            match prior {
                                Some(p) => Some(p.y_mm as int),
                                None => None,
                            },
                            y_mm as int,
                        ),
                        tracker.room_height_mm as int,
                    ) as i64,
                    residual_mm,
                    stations: anchors as usize,
                    computed_at_ms: now_ms,
                },
            ),
            _ => None,
        }
    }
}

/// There are no more anchors than readings, and no more than sixteen.
pub proof fn lemma_select_len(tracker: TrackerView, readings: Seq<Entry<RssiReading>>, newest: u64)
    ensures
        spec_select(tracker, readings, newest).len() <= readings.len(),
        spec_select(tracker, readings, newest).len() <= MAX_ANCHORS,
    decreases readings.len(),
{
    if readings.len() > 0 {
        lemma_select_len(tracker, readings.drop_last(), newest);
    }
}

/// Whether the stations and the room are within what the solver can hold:
/// no two stations share an id, each stands within 262 m of the origin
/// along either axis, and the room is no wider or longer than 262 m.
pub open spec fn spec_tracker_ok(tracker: TrackerView) -> bool {
    &&& spec_distinct(tracker.stations)
    &&& forall|i: int|
        0 <= i < tracker.stations.len() ==> {
            &&& -COORD_LIMIT_MM <= (#[trigger] tracker.stations[i]).1.x_mm <= COORD_LIMIT_MM
            &&& -COORD_LIMIT_MM <= tracker.stations[i].1.y_mm <= COORD_LIMIT_MM
        }
    &&& tracker.room_width_mm <= COORD_LIMIT_MM
    &&& tracker.room_height_mm <= COORD_LIMIT_MM
}

/// The room's diagonal, rounded down to a whole millimetre.
pub open spec fn spec_diagonal(tracker: TrackerView) -> int {
    spec_isqrt(spec_sq(tracker.room_width_mm as int) + spec_sq(tracker.room_height_mm as int))
}

/// A distance moved into what the room allows: no less than 100 mm, and no
/// more than the room's diagonal where that is more than 100 mm.
pub open spec fn spec_clamp_range(d: int, diagonal: int) -> int {
    if d < MIN_RANGE_MM || diagonal < MIN_RANGE_MM {
        MIN_RANGE_MM as int
    } else if d > diagonal {
        diagonal
    } else {
        d
    }
}

/// The anchors with their distances, each distance clamped to the room.
pub open spec fn spec_ranges(tracker: TrackerView, anchors: Seq<Anchor>, distances: Seq<u32>) -> Seq<
    Range,
> {
    Seq::new(
        anchors.len(),
        |i: int|
            Range {
                x_mm: anchors[i].x_mm,
                y_mm: anchors[i].y_mm,
                distance_mm: spec_clamp_range(distances[i] as int, spec_diagonal(tracker)) as u32,
            },
    )
}

/// What the anchors and their distances give: a solution where there is
/// one distance for each anchor, and too few anchors otherwise.
pub open spec fn spec_locate(tracker: TrackerView, anchors: Seq<Anchor>, distances: Seq<u32>) -> Solution {
    if distances.len() != anchors.len() {
        Solution::InsufficientAnchors
    } else {
        spec_solve(spec_ranges(tracker, anchors, distances))
    }
}

/// The anchors that are selected stand where configured stations stand.
pub proof fn lemma_select_within(
    tracker: TrackerView,
    readings: Seq<Entry<RssiReading>>,
    newest: u64,
    at: int,
)
    requires
        spec_tracker_ok(tracker),
        0 <= at < spec_select(tracker, readings, newest).len(),
    ensures
        -COORD_LIMIT_MM <= spec_select(tracker, readings, newest)[at].x_mm <= COORD_LIMIT_MM,
        -COORD_LIMIT_MM <= spec_select(tracker, readings, newest)[at].y_mm <= COORD_LIMIT_MM,
    decreases readings.len(),
{
    if readings.len() > 0 {
        let rest = spec_select(tracker, readings.drop_last(), newest);
        if at < rest.len() {
            lemma_select_within(tracker, readings.drop_last(), newest, at);
        } else {
            let k = spec_index_of(tracker.stations, readings.last().0);
            assert(0 <= k < tracker.stations.len() && tracker.stations[k].0 == readings.last().0);
        }
    }
}

/// No reading is later than the newest.
pub proof fn lemma_newest_bounds(readings: Seq<Entry<RssiReading>>, at: int)
    requires
        0 <= at < readings.len(),
    ensures
        readings[at].1.timestamp <= spec_newest(readings),
    decreases readings.len(),
{
    if at < readings.len() - 1 {
        lemma_newest_bounds(readings.drop_last(), at);
    }
}

/// Smooths and clamps one coordinate.
fn settle(prior: Option<i64>, raw: i64, limit: u32) -> (v: i64)
    ensures
        v == spec_clamp(
            spec_smooth(
                match prior {
                    Some(p) => Some(p as int),
                    None => None,
                },
                raw as int,
            ),
            limit as int,
        ),
{
    let blended: i128 = match prior {
        Some(p) => {
            let sum: i128 = SMOOTHING_TENTHS * (raw as i128) + (10 - SMOOTHING_TENTHS) * (
            p as i128);
            if sum < 0 {
                // Any negative coordinate clamps to zero.
                -1
            } else {
                sum / 10
            }
        },
        None => raw as i128,
    };
    if blended < 0 {
        0
    } else if blended > limit as i128 {
        limit as i64
    } else {
        blended as i64
    }
}

/// Stations as a list of entries under their ids.
pub open spec fn spec_station_entries(stations: Seq<StationConfig>) -> Seq<Entry<StationView>> {
    stations.map_values(|s: StationConfig| (s.id@, s@))
}

/// Whether no two of the stations share an id.
pub fn has_distinct_ids(stations: &Vec<StationConfig>) -> (distinct: bool)
    ensures
        distinct == spec_distinct(spec_station_entries(stations@)),
{
    let ghost entries = spec_station_entries(stations@);
    let mut j: usize = 0;
    while j < stations.len()
        invariant
            j <= stations@.len(),
            entries == spec_station_entries(stations@),
            forall|a: int, b: int|
                0 <= a < b < j ==> (#[trigger] entries[a]).0 != (#[trigger] entries[b]).0,
        decreases stations@.len() - j,
    {
        let mut i: usize = 0;
        while i < j
            invariant
                i <= j < stations@.len(),
                entries == spec_station_entries(stations@),
                forall|a: int| 0 <= a < i ==> (#[trigger] entries[a]).0 != entries[j as int].0,
            decreases j - i,
        {
            if stations[i].id == stations[j].id {
                assert(entries[i as int].0 == entries[j as int].0);
                return false;
            }
            i += 1;
        }
        j += 1;
    }
    true
}

/// The tracker: the stations, the room, and the freshness horizon.
pub struct PositionTracker {
    stations: Vec<StationConfig>,
    room_width_mm: u32,
    room_height_mm: u32,
    horizon_us: u64,
}

impl View for PositionTracker {
    type V = TrackerView;

    closed spec fn view(&self) -> TrackerView {
        TrackerView {
            stations: spec_station_entries(self.stations@),
            room_width_mm: self.room_width_mm,
            room_height_mm: self.room_height_mm,
            horizon_us: self.horizon_us,
        }
    }
}

impl PositionTracker {
    /// The stations and the room are within what the solver can hold.
    pub open spec fn wf(&self) -> bool {
        spec_tracker_ok(self@)
    }

    /// A tracker for the given stations in a room of the given size, with
    /// the horizon of thirty seconds. It is refused where two stations
    /// share an id, where a station stands farther than 262 m from the
    /// origin along either axis, or where the room is wider or longer than
    /// that.
    pub fn new(stations: Vec<StationConfig>, room_width_mm: u32, room_height_mm: u32) -> (tracker:
        Option<Self>)
        ensures
            tracker.is_some() <==> spec_tracker_ok(
                TrackerView {
                    stations: spec_station_entries(stations@),
                    room_width_mm,
                    room_height_mm,
                    horizon_us: FRESHNESS_HORIZON_US,
                },
            ),
            tracker.is_some() ==> tracker.unwrap()@ == (TrackerView {
                stations: spec_station_entries(stations@),
                room_width_mm,
                room_height_mm,
                horizon_us: FRESHNESS_HORIZON_US,
            }),
    {
        if room_width_mm as i64 > COORD_LIMIT_MM || room_height_mm as i64 > COORD_LIMIT_MM {
            return None;
        }
        if !has_distinct_ids(&stations) {
            return None;
        }
        let ghost entries = spec_station_entries(stations@);
        let mut i: usize = 0;
        while i < stations.len()
            invariant
                i <= stations@.len(),
                entries == spec_station_entries(stations@),
                forall|k: int|
                    0 <= k < i ==> {
                        &&& -COORD_LIMIT_MM <= (#[trigger] entries[k]).1.x_mm <= COORD_LIMIT_MM
                        &&& -COORD_LIMIT_MM <= entries[k].1.y_mm <= COORD_LIMIT_MM
                    },
            decreases stations@.len() - i,
        {
            let at = &stations[i];
            if at.x_mm < -COORD_LIMIT_MM || at.x_mm > COORD_LIMIT_MM || at.y_mm < -COORD_LIMIT_MM
                || at.y_mm > COORD_LIMIT_MM {
                assert(entries[i as int].1.x_mm == at.x_mm);
                return None;
            }
            i += 1;
        }
        Some(
            PositionTracker {
                stations,
                room_width_mm,
                room_height_mm,
                horizon_us: FRESHNESS_HORIZON_US,
            },
        )
    }

    /// The same tracker with another freshness horizon.
    pub fn with_horizon(self, horizon_us: u64) -> (tracker: Self)
        requires
            self.wf(),
        ensures
            tracker.wf(),
            tracker@ == (TrackerView { horizon_us, ..self@ }),
    {
        PositionTracker {
            stations: self.stations,
            room_width_mm: self.room_width_mm,
            room_height_mm: self.room_height_mm,
            horizon_us,
        }
    }

    /// The configured stations, in order.
    pub fn stations(&self) -> (stations: &Vec<StationConfig>)
        ensures
            spec_station_entries(stations@) == self@.stations,
    {
        &self.stations
    }

    fn find_station(&self, id: &String) -> (found: Option<usize>)
        requires
            self.wf(),
        ensures
            found.is_some() <==> spec_has(self@.stations, id@),
            found.is_some() ==> found.unwrap() == spec_index_of(self@.stations, id@)
                && found.unwrap() < self.stations@.len(),
    {
        let ghost entries = self@.stations;
        assert(spec_distinct(entries));
        let mut i: usize = 0;
        while i < self.stations.len()
            invariant
                i <= self.stations@.len(),
                entries == spec_station_entries(self.stations@),
                spec_distinct(entries),
                forall|k: int| 0 <= k < i ==> (#[trigger] entries[k]).0 != id@,
            decreases self.stations@.len() - i,
        {
            if self.stations[i].id == *id {
                proof {
                    assert(entries[i as int].0 == id@);
                    lemma_index_of(entries, i as int);
                }
                return Some(i);
            }
            i += 1;
        }
        assert(!spec_has(entries, id@)) by {
            if spec_has(entries, id@) {
                let k = spec_index_of(entries, id@);
                assert(entries[k].0 == id@);
            }
        }
        None
    }

    /// The anchors among a device's readings: those of configured stations
    /// that are no older than the horizon allows, counted from the newest
    /// of the readings, in the readings' order, and no more than the first
    /// sixteen of them.
    pub fn select_anchors(&self, readings: &Vec<StationReading>) -> (anchors: Vec<Anchor>)
        requires
            self.wf(),
        ensures
            anchors@ == spec_anchors(self@, spec_reading_entries(readings@)),
    {
        let ghost entries = spec_reading_entries(readings@);
        let mut newest: u64 = 0;
        let mut i: usize = 0;
        while i < readings.len()
            invariant
                i <= readings@.len(),
                entries == spec_reading_entries(readings@),
                newest == spec_newest(entries.take(i as int)),
            decreases readings@.len() - i,
        {
            proof {
                assert(entries.take(i + 1).drop_last() =~= entries.take(i as int));
            }
            if readings[i].reading.timestamp > newest {
                newest = readings[i].reading.timestamp;
            }
            i += 1;
        }
        assert(entries.take(i as int) =~= entries);
        let mut anchors: Vec<Anchor> = Vec::new();
        let mut i: usize = 0;
        while i < readings.len()
            invariant
                i <= readings@.len(),
                self.wf(),
                entries == spec_reading_entries(readings@),
                newest == spec_newest(entries),
                anchors@ == spec_select(self@, entries.take(i as int), newest),
            decreases readings@.len() - i,
        {
            proof {
                assert(entries.take(i + 1).drop_last() =~= entries.take(i as int));
                lemma_newest_bounds(entries, i as int);
            }
            let reading = readings[i].reading;
            if anchors.len() < MAX_ANCHORS && newest - reading.timestamp <= self.horizon_us {
                match self.find_station(&readings[i].station) {
                    Some(at) => {
                        let station = &self.stations[at];
                        anchors.push(
                            Anchor {
                                station: at,
                                x_mm: station.x_mm,
                                y_mm: station.y_mm,
                                calibration: station.calibration(),
                                rssi: reading.rssi,
                            },
                        );
                    },
                    None => {},
                }
            }
            i += 1;
        }
        assert(entries.take(i as int) =~= entries);
        anchors
    }

    /// The anchors of a device. A device that has not been seen has none.
    pub fn plan(&self, store: &DeviceStore, mac_hash: &String) -> (anchors: Vec<Anchor>)
        requires
            self.wf(),
            store.wf(),
        ensures
            anchors@ == spec_anchors(self@, store.spec_readings_of(mac_hash@)),
    {
        match store.get(mac_hash) {
            Some(record) => self.select_anchors(record.readings()),
            None => {
                let anchors: Vec<Anchor> = Vec::new();
                assert(anchors@ =~= spec_anchors(self@, Seq::<Entry<RssiReading>>::empty()));
                anchors
            },
        }
    }

    /// The room's diagonal, rounded down to a whole millimetre.
    pub fn diagonal_mm(&self) -> (diagonal: u32)
        requires
            self.wf(),
        ensures
            diagonal == spec_diagonal(self@),
            diagonal <= RANGE_LIMIT_MM,
    {
        let w: u128 = self.room_width_mm as u128;
        let h: u128 = self.room_height_mm as u128;
        assert(w * w <= 262_144 * 262_144 && h * h <= 262_144 * 262_144) by (nonlinear_arith)
            requires
                w <= 262_144,
                h <= 262_144,
        ;
        let diagonal: u64 = isqrt(w * w + h * h);
        assert(diagonal <= 524_288) by (nonlinear_arith)
            requires
                diagonal * diagonal <= w * w + h * h,
                w * w + h * h <= 2 * 262_144 * 262_144,
        ;
        diagonal as u32
    }

    /// Solves for the position that the anchors fix, given the distance
    /// that the path-loss model gives for each. Each distance is first
    /// clamped to at least 100 mm and at most the room's diagonal. Without
    /// one distance for each anchor there are too few anchors.
    pub fn locate(&self, anchors: &Vec<Anchor>, distances: &Vec<u32>) -> (solution: Solution)
        requires
            self.wf(),
            anchors@.len() <= MAX_ANCHORS,
            forall|i: int|
                0 <= i < anchors@.len() ==> {
                    &&& -COORD_LIMIT_MM <= (#[trigger] anchors@[i]).x_mm <= COORD_LIMIT_MM
                    &&& -COORD_LIMIT_MM <= anchors@[i].y_mm <= COORD_LIMIT_MM
                },
        ensures
            solution == spec_locate(self@, anchors@, distances@),
    {
        if distances.len() != anchors.len() {
            return Solution::InsufficientAnchors;
        }
        let diagonal: u32 = self.diagonal_mm();
        let mut ranges: Vec<Range> = Vec::new();
        let mut i: usize = 0;
        while i < anchors.len()
            invariant
                i <= anchors@.len() == distances@.len(),
                anchors@.len() <= MAX_ANCHORS,
                diagonal == spec_diagonal(self@),
                diagonal <= RANGE_LIMIT_MM,
                ranges@ == spec_ranges(self@, anchors@, distances@).take(i as int),
                spec_in_limits(ranges@),
                forall|k: int|
                    0 <= k < anchors@.len() ==> {
                        &&& -COORD_LIMIT_MM <= (#[trigger] anchors@[k]).x_mm <= COORD_LIMIT_MM
                        &&& -COORD_LIMIT_MM <= anchors@[k].y_mm <= COORD_LIMIT_MM
                    },
            decreases anchors@.len() - i,
        {
            let d: u32 = distances[i];
            let clamped: u32 = if d < MIN_RANGE_MM || diagonal < MIN_RANGE_MM {
                MIN_RANGE_MM
            } else if d > diagonal {
                diagonal
            } else {
                d
            };
            ranges.push(Range { x_mm: anchors[i].x_mm, y_mm: anchors[i].y_mm, distance_mm: clamped });
            proof {
                assert(ranges@ =~= spec_ranges(self@, anchors@, distances@).take(i + 1));
            }
            i += 1;
        }
        assert(ranges@ =~= spec_ranges(self@, anchors@, distances@));
        multilaterate(&ranges)
    }

    /// The position that follows from a solution for `anchors` anchors.
    pub fn resolve(
        &self,
        prior: Option<Position>,
        anchors: usize,
        solution: Solution,
        now_ms: u64,
    ) -> (position: Option<Position>)
        ensures
            position == spec_resolve(self@, prior, anchors as nat, solution, now_ms),
    {
        if anchors < MIN_ANCHORS {
            return None;
        }
        match solution {
            Solution::Fix { x_mm, y_mm, residual_mm } => {
                let (prior_x, prior_y) = match prior {
                    Some(p) => (Some(p.x_mm), Some(p.y_mm)),
                    None => (None, None),
                };
                Some(
                    Position {
                        x_mm: settle(prior_x, x_mm, self.room_width_mm),
                        y_mm: settle(prior_y, y_mm, self.room_height_mm),
                        residual_mm,
                        stations: anchors,
                        computed_at_ms: now_ms,
                    },
                )
            },
            _ => None,
        }
    }

    /// Gives a device its position, from the distance that the path-loss
    /// model gives for each of its anchors: the solution for these
    /// distances, smoothed against the device's last position and clamped to
    /// the room. With fewer than three anchors, or without a solution, the
    /// position is cleared. A device that has not been seen stays unknown.
    pub fn update_position(
        &self,
        store: &mut DeviceStore,
        mac_hash: &String,
        distances: &Vec<u32>,
        now_ms: u64,
    ) -> (position: Option<Position>)
        requires
            self.wf(),
            old(store).wf(),
        ensures
            final(store).wf(),
            old(store)@.dom().contains(mac_hash@) ==> {
                &&& position == spec_resolve(
                    self@,
                    old(store)@[mac_hash@].position,
                    spec_anchors(self@, old(store).spec_readings_of(mac_hash@)).len(),
                    spec_locate(
                        self@,
                        spec_anchors(self@, old(store).spec_readings_of(mac_hash@)),
                        distances@,
                    ),
                    now_ms,
                )
                &&& final(store)@ == old(store)@.insert(
                    mac_hash@,
                    spec_with_position(old(store)@[mac_hash@], position),
                )
            },
            !old(store)@.dom().contains(mac_hash@) ==> position.is_none() && final(store)@ == old(
                store,
            )@,
            forall|hash: Seq<char>| #[trigger]
                final(store).spec_readings_of(hash) == old(store).spec_readings_of(hash),
    {
        let (prior, anchors) = match store.get(mac_hash) {
            Some(record) => (record.position(), self.select_anchors(record.readings())),
            None => { return None; },
        };
        proof {
            let readings = store.spec_readings_of(mac_hash@);
            lemma_select_len(self@, readings, spec_newest(readings));
            store.lemma_readings_of(mac_hash@);
            assert forall|i: int| 0 <= i < anchors@.len() implies {
                &&& -COORD_LIMIT_MM <= (#[trigger] anchors@[i]).x_mm <= COORD_LIMIT_MM
                &&& -COORD_LIMIT_MM <= anchors@[i].y_mm <= COORD_LIMIT_MM
            } by {
                lemma_select_within(self@, readings, spec_newest(readings), i);
            }
        }
        let solution = self.locate(&anchors, distances);
        let position = self.resolve(prior, anchors.len(), solution, now_ms);
        store.set_position(mac_hash, position);
        position
    }
}

/// A smoothed coordinate lies between the previous one and the new one.
pub proof fn lemma_smooth_between(prior: int, raw: int)
    ensures
        prior <= raw ==> prior <= spec_smooth(Some(prior), raw) <= raw,
        raw <= prior ==> raw <= spec_smooth(Some(prior), raw) <= prior,
        spec_smooth(None, raw) == raw,
        spec_smooth(Some(raw), raw) == raw,
{
}

/// A position that follows from a solution lies in the room.
pub proof fn lemma_resolved_in_room(
    tracker: TrackerView,
    prior: Option<Position>,
    anchors: nat,
    solution: Solution,
    now_ms: u64,
)
    ensures
        match spec_resolve(tracker, prior, anchors, solution, now_ms) {
            Some(p) => 0 <= p.x_mm <= tracker.room_width_mm && 0 <= p.y_mm
                <= tracker.room_height_mm,
            None => true,
        },
{
}

/// A device has a position only on the strength of at least three anchors,
/// and so of at least three readings.
pub proof fn lemma_position_needs_three(
    tracker: TrackerView,
    prior: Option<Position>,
    readings: Seq<Entry<RssiReading>>,
    solution: Solution,
    now_ms: u64,
)
    ensures
        spec_resolve(
            tracker,
            prior,
            spec_anchors(tracker, readings).len(),
            solution,
            now_ms,
        ).is_some() ==> readings.len() >= spec_anchors(tracker, readings).len() >= MIN_ANCHORS,
{
    lemma_select_len(tracker, readings, spec_newest(readings));
}

} // verus!
