//! Indoor presence tracking of WiFi emitters.
//!
//! A station sniffs 802.11 frames, sheds all but every fiftieth accepted
//! frame, anonymises the transmitter address and queues an event for the
//! publisher. The server decodes the published events, keeps the latest
//! reading per device and station, and fixes each device's position from
//! the distances of the stations that heard it, by multilateration in whole
//! millimetres.

pub mod assoc;
pub mod channel;
pub mod digest;
pub mod ingest;
pub mod mac;
pub mod publisher;
pub mod server;
pub mod sniffer;
pub mod solver;
pub mod store;
pub mod text;
pub mod tracker;
pub mod wire;
