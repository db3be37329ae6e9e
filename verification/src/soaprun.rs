//! The game's data: positions, rooms, units, player projections and packets.

pub mod client_packets;
pub mod map_attributes;
pub mod packets;
pub mod position;
pub mod rooms;
pub mod server_packets;
pub mod soaprunners;
pub mod units;
