//! The server's handling of one published message: decode it, take it into
//! the store, and name the device's anchors; then, once the path-loss model
//! has given a distance for each anchor, give the device its position.
//!
//! Both steps take time in proportion to the device's readings and the
//! configured stations, and neither waits for anything.

use vstd::prelude::*;
use vstd::string::*;

use crate::assoc::spec_put;
use crate::ingest::{
    decode_event, spec_validate, spec_fields, DecodeError, WireEvent, WireEventView,
};
use crate::store::{spec_observe, spec_reading, spec_with_position, DeviceStore, Position};
use crate::tracker::{spec_anchors, spec_locate, spec_resolve, Anchor, PositionTracker};

verus! {

/// A device whose position is due, with the anchors whose distances are
/// wanted.
#[derive(Debug)]
pub struct Pending {
    pub mac_hash: String,
    pub anchors: Vec<Anchor>,
}

/// What taking `event` into the store leaves: the store after the event,
/// and the device's anchors as they are then.
pub open spec fn spec_taken(
    before: &DeviceStore,
    after: &DeviceStore,
    tracker: &PositionTracker,
    event: WireEventView,
    pending: Pending,
) -> bool {
    &&& after@ == spec_observe(before@, event)
    &&& after.spec_readings_of(event.mac_hash) == spec_put(
        before.spec_readings_of(event.mac_hash),
        event.station,
        spec_reading(event),
    )
    &&& forall|hash: Seq<char>|
        hash != event.mac_hash ==> #[trigger] after.spec_readings_of(hash)
            == before.spec_readings_of(hash)
    &&& pending.mac_hash@ == event.mac_hash
    &&& pending.anchors@ == spec_anchors(tracker@, after.spec_readings_of(event.mac_hash))
}

/// Takes a valid event into the store and names the device's anchors.
pub fn on_event(store: &mut DeviceStore, tracker: &PositionTracker, event: WireEvent) -> (pending:
    Pending)
    requires
        old(store).wf(),
        tracker.wf(),
    ensures
        final(store).wf(),
        spec_taken(old(store), final(store), tracker, event@, pending),
{
    store.observe(&event);
    let anchors = tracker.plan(store, &event.mac_hash);
    Pending { mac_hash: event.mac_hash, anchors }
}

/// Handles one published payload. A payload that does not decode to a valid
/// event is rejected and leaves the store as it was; a valid event is taken
/// into the store, and the device's anchors are named.
pub fn on_publish(store: &mut DeviceStore, tracker: &PositionTracker, payload: &[u8]) -> (pending:
    Result<Pending, DecodeError>)
    requires
        old(store).wf(),
        tracker.wf(),
    ensures
        final(store).wf(),
        match spec_validate(spec_fields(payload@)) {
            Ok(event) => pending.is_ok() && spec_taken(
                old(store),
                final(store),
                tracker,
                event,
                pending.unwrap(),
            ),
            Err(e) => pending == Err::<Pending, DecodeError>(e) && *final(store) == *old(store),
        },
{
    match decode_event(payload) {
        Ok(event) => Ok(on_event(store, tracker, event)),
        Err(e) => Err(e),
    }
}

/// Gives the pending device its position, from the distance that the
/// path-loss model gives for each of its anchors: the solution smoothed
/// and clamped, or none.
pub fn on_distances(
    store: &mut DeviceStore,
    tracker: &PositionTracker,
    pending: &Pending,
    distances: &Vec<u32>,
    now_ms: u64,
) -> (position: Option<Position>)
    requires
        old(store).wf(),
        tracker.wf(),
    ensures
        final(store).wf(),
        old(store)@.dom().contains(pending.mac_hash@) ==> {
            &&& position == spec_resolve(
                tracker@,
                old(store)@[pending.mac_hash@].position,
                spec_anchors(tracker@, old(store).spec_readings_of(pending.mac_hash@)).len(),
                spec_locate(
                    tracker@,
                    spec_anchors(tracker@, old(store).spec_readings_of(pending.mac_hash@)),
                    distances@,
                ),
                now_ms,
            )
            &&& final(store)@ == old(store)@.insert(
                pending.mac_hash@,
                spec_with_position(old(store)@[pending.mac_hash@], position),
            )
        },
        !old(store)@.dom().contains(pending.mac_hash@) ==> position.is_none() && final(store)@
            == old(store)@,
        forall|hash: Seq<char>| #[trigger]
            final(store).spec_readings_of(hash) == old(store).spec_readings_of(hash),
{
    tracker.update_position(store, &pending.mac_hash, distances, now_ms)
}

} // verus!
