//! Discovery of the devices on a local network segment from the text of the
//! host's neighbour (ARP) table, and lookups over the discovered set.
pub mod device;
pub mod error;
pub mod mac;
pub mod pattern;
pub mod snapshot;
pub mod network;
