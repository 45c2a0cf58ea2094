//! Turret: a local trust broker. Agents invoke named actions; repeaters serve
//! them; the broker authenticates, checks permissions against a sealed
//! catalog, guards against replay, and routes signed frames between the two.

use vstd::prelude::*;

pub mod bunker;
pub mod crypto;
pub mod framing;
pub mod invoke;
pub mod protocol;
pub mod rage;
pub mod replay;
pub mod server;
pub mod table;
pub mod wire;

verus! {

/// Hard cap on the payload of one wire frame, in bytes (256 KiB).
pub const MAX_FRAME_SIZE: usize = 256 * 1024;

} // verus!
