//! Verified parsing and serialization for the Source engine A2S server query protocol.
//!
//! The library holds the byte-level logic of the protocol: decoding the
//! `A2S_INFO`, `A2S_PLAYER` and `A2S_RULES` responses, encoding info and rules
//! responses, reassembling split (and possibly bzip2-compressed) responses,
//! and the challenge handshake decisions. Sockets live with the caller.
use vstd::prelude::*;

pub mod address;
pub mod errors;
pub mod info;
pub mod keyed;
pub mod packet;
pub mod players;
pub mod rules;
pub mod wire;

verus! {

/// Header of a complete response that fits in one datagram.
pub const SINGLE_PACKET: i32 = -1;

/// Header of one fragment of a split response.
pub const MULTI_PACKET: i32 = -2;

/// Response header of a challenge.
pub const HEADER_CHALLENGE: u8 = 0x41;

/// Response header of an `A2S_INFO` reply.
pub const HEADER_INFO: u8 = 0x49;

/// Response header of an `A2S_PLAYER` reply.
pub const HEADER_PLAYER: u8 = 0x44;

/// Response header of an `A2S_RULES` reply.
pub const HEADER_RULES: u8 = 0x45;

/// The Steam application id of The Ship, whose responses carry extra fields.
pub const THE_SHIP_APP_ID: u16 = 2400;

/// Options that change how player responses are decoded.
#[derive(Debug, Clone, Default)]
pub struct DeOptions {
    pub the_ship: bool,
}

impl DeOptions {
    /// Options for a server running the game with the given application id.
    pub fn from_app_id(app_id: u16) -> (r: Self)
        ensures
            r.the_ship == (app_id == THE_SHIP_APP_ID),
    {
        DeOptions { the_ship: app_id == THE_SHIP_APP_ID }
    }
}

} // verus!
