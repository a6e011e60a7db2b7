use vstd::prelude::*;

verus! {

use crate::enums::{Arm, ChatVisibility};
use crate::utils::{u64_be_bytes, write_u64, u32_of_i32};
use crate::version::ProtocolVersion;

/// The settings a client reports about itself.
#[derive(Debug, Clone)]
pub struct ClientInfo {
    pub lang: String,
    pub view_distance: u8,
    pub chat_visibility: ChatVisibility,
    pub chat_colors_enabled: bool,
    pub player_model_parts: u8,
    pub main_arm: Arm,
    pub filters_text: bool,
    pub allows_server_listing: bool,
}

impl ClientInfo {
    /// The defaults assumed until a client reports its settings.
    pub fn new_default() -> (r: ClientInfo)
        ensures
            r.lang@ == "en_us"@,
            r.view_distance == 12,
            r.chat_visibility == ChatVisibility::Full,
            r.chat_colors_enabled,
            r.player_model_parts == 0x7f,
            r.main_arm == Arm::Right,
            r.filters_text,
            r.allows_server_listing,
    {
        ClientInfo {
            lang: <String as vstd::string::StringExecFns>::from_str("en_us"),
            view_distance: 12,
            chat_visibility: ChatVisibility::Full,
            chat_colors_enabled: true,
            player_model_parts: 0x7f,
            main_arm: Arm::Right,
            filters_text: true,
            allows_server_listing: true,
        }
    }
}

/// A block position packed into one 64-bit field.
#[derive(Debug, Clone, Copy, PartialEq, Eq, Structural)]
pub struct Position {
    pub x: i32,
    pub y: i32,
    pub z: i32,
}

/// The packed wire form of a position: from 1.14 on the field order is
/// x (26 bits), z (26 bits), y (12 bits); before it was x, y, z.
pub open spec fn spec_position_packed(p: Position, v: ProtocolVersion) -> u64 {
    if v.spec_id() >= ProtocolVersion::V1_14.spec_id() {
        (((u32_of_i32(p.x) % 0x400_0000) as u64) * 0x40_0000_0000 + ((u32_of_i32(p.z)
            % 0x400_0000) as u64) * 0x1000 + ((u32_of_i32(p.y) % 0x1000) as u64)) as u64
    } else {
        (((u32_of_i32(p.x) % 0x400_0000) as u64) * 0x40_0000_0000 + ((u32_of_i32(p.y)
            % 0x1000) as u64) * 0x400_0000 + ((u32_of_i32(p.z) % 0x400_0000) as u64)) as u64
    }
}

impl Position {
    pub fn write_to(&self, buf: &mut Vec<u8>, v: ProtocolVersion)
        ensures
            final(buf)@ == old(buf)@ + u64_be_bytes(spec_position_packed(*self, v)),
    {
        let ux: u64 = (if self.x >= 0 {
            self.x as u32
        } else {
            ((self.x as i64) + 0x1_0000_0000) as u32
        } % 0x400_0000) as u64;
        let uy: u64 = (if self.y >= 0 {
            self.y as u32
        } else {
            ((self.y as i64) + 0x1_0000_0000) as u32
        } % 0x1000) as u64;
        let uz: u64 = (if self.z >= 0 {
            self.z as u32
        } else {
            ((self.z as i64) + 0x1_0000_0000) as u32
        } % 0x400_0000) as u64;
        if v.ge(ProtocolVersion::V1_14) {
            write_u64(buf, ux * 0x40_0000_0000 + uz * 0x1000 + uy);
        } else {
            write_u64(buf, ux * 0x40_0000_0000 + uy * 0x400_0000 + uz);
        }
    }
}

/// One property of a game profile, as the session service reports it.
#[derive(Debug, Clone)]
pub struct ProfileProperty {
    pub name: String,
    pub value: String,
    pub signature: Option<String>,
}

/// An authenticated game profile: the account id as a 128-bit value, the
/// account name, and the service-signed properties.
#[derive(Debug, Clone)]
pub struct Profile {
    pub id: u128,
    pub name: String,
    pub properties: Vec<ProfileProperty>,
}

} // verus!
