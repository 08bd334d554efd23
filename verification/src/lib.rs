//! Verified game logic of the arena duel: skill roster and charge mapping, the cast-edge
//! detector, cue naming, lobby panels, portal pairing, the weapon catalog and friends.

pub mod text;
pub mod skills;
pub mod cast;
pub mod input;
pub mod cue;
pub mod panel;
pub mod portals;
pub mod order;
pub mod weapons;
pub mod args;
pub mod wheel;
pub mod lobby;
pub mod rig;
pub mod harness;
pub mod timelines;
pub mod charge_tiers;
pub mod gates;
pub mod sockets;
