//! Authoritative server logic for a small multiplayer tile-based action game:
//! the world grid, the packet codec, the player sessions and the entity AI,
//! each with a contract that Verus checks.

pub mod legacy_map_conversion;
pub mod server;
pub mod soaprun;
