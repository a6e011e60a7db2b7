use vstd::prelude::*;

verus! {

use vstd::string::StringSliceAdditionalSpecFns;
use crate::utils::{
    write_string,
    write_varint,
    write_bool,
    write_u8,
    write_i8,
    write_u32,
    write_u64,
    write_i32,
    string_bytes,
    varint_bytes,
    u64_be_bytes,
    u32_be_bytes,
    u32_of_i32,
    u8_of_i8,
    bool_byte,
};
use crate::nbt::{Tag, tag_view, wf_tag, spec_serialized};
use crate::text::{TextComponent, spec_text_nbt};
use crate::common::{Position, spec_position_packed};
use crate::version::ProtocolVersion;

/// Whether a string fits a length-prefixed wire field.
pub open spec fn pstr_fits(s: Seq<char>) -> bool {
    s.len() <= 0x7fff_ffff && vstd::utf8::encode_utf8(s).len() <= 0x7fff_ffff
}

/// The wire bytes of a string value.
pub open spec fn psb(s: Seq<char>) -> Seq<u8> {
    string_bytes(vstd::utf8::encode_utf8(s))
}

/// A Play-stage disconnect; from 1.20.3 the reason travels as a serialized
/// tag rather than JSON.
#[derive(Debug)]
pub struct PlayDisconnectS2C {
    pub reason: TextComponent,
}

impl PlayDisconnectS2C {
    pub fn encode(&self, v: ProtocolVersion) -> (r: Vec<u8>)
        requires
            wf_tag(spec_text_nbt(self.reason)),
        ensures
            r@ == spec_serialized(
                spec_text_nbt(self.reason),
                v.spec_id() >= ProtocolVersion::V1_20_2.spec_id(),
            ),
    {
        let mut buf: Vec<u8> = Vec::new();
        let tag = self.reason.to_nbt();
        tag.serialize(&mut buf, v.ge(ProtocolVersion::V1_20_2));
        proof {
            assert(buf@ =~= spec_serialized(
                spec_text_nbt(self.reason),
                v.spec_id() >= ProtocolVersion::V1_20_2.spec_id(),
            ));
        }
        buf
    }

    pub fn id(&self, _v: ProtocolVersion) -> (r: i32)
        ensures
            r == 0x1d,
    {
        0x1d
    }
}

/// The Play-stage keep-alive probe.
#[derive(Debug)]
pub struct KeepAliveS2C {
    pub payload: u64,
}

/// The Play-stage keep-alive opcode by version.
pub open spec fn spec_keepalive_id(v: ProtocolVersion) -> i32 {
    if v.spec_id() >= ProtocolVersion::V1_20_6.spec_id() {
        0x26
    } else if v.spec_id() >= ProtocolVersion::V1_20_2.spec_id() {
        0x24
    } else if v.spec_id() >= ProtocolVersion::V1_19_4.spec_id() {
        0x23
    } else if v.spec_id() >= ProtocolVersion::V1_19_3.spec_id() {
        0x1f
    } else if v.spec_id() >= ProtocolVersion::V1_19_2.spec_id() {
        0x20
    } else if v.spec_id() >= ProtocolVersion::V1_19.spec_id() {
        0x1e
    } else if v.spec_id() >= ProtocolVersion::V1_17.spec_id() {
        0x21
    } else if v.spec_id() >= ProtocolVersion::V1_16_2.spec_id() {
        0x1f
    } else if v.spec_id() >= ProtocolVersion::V1_16_1.spec_id() {
        0x20
    } else if v.spec_id() >= ProtocolVersion::V1_15.spec_id() {
        0x21
    } else if v.spec_id() >= ProtocolVersion::V1_14.spec_id() {
        0x20
    } else {
        0x21
    }
}

impl KeepAliveS2C {
    pub fn encode(&self, _v: ProtocolVersion) -> (r: Vec<u8>)
        ensures
            r@ == u64_be_bytes(self.payload),
    {
        let mut buf: Vec<u8> = Vec::new();
        write_u64(&mut buf, self.payload);
        buf
    }

    pub fn id(&self, v: ProtocolVersion) -> (r: i32)
        ensures
            r == spec_keepalive_id(v),
    {
        if v.ge(ProtocolVersion::V1_20_6) {
            0x26
        } else if v.ge(ProtocolVersion::V1_20_2) {
            0x24
        } else if v.ge(ProtocolVersion::V1_19_4) {
            0x23
        } else if v.ge(ProtocolVersion::V1_19_3) {
            0x1f
        } else if v.ge(ProtocolVersion::V1_19_2) {
            0x20
        } else if v.ge(ProtocolVersion::V1_19) {
            0x1e
        } else if v.ge(ProtocolVersion::V1_17) {
            0x21
        } else if v.ge(ProtocolVersion::V1_16_2) {
            0x1f
        } else if v.ge(ProtocolVersion::V1_16_1) {
            0x20
        } else if v.ge(ProtocolVersion::V1_15) {
            0x21
        } else if v.ge(ProtocolVersion::V1_14) {
            0x20
        } else {
            0x21
        }
    }
}

/// The kinds of game-event notification.
#[derive(Debug, Clone, Copy, PartialEq, Eq, Structural)]
pub enum EventType {
    NoRespawnBlock,
    RainStarted,
    RainStopped,
    GameModeChanged,
    GameWon,
    DemoMessageShown,
    ProjectileHitPlayer,
    RainGradientChanged,
    ThunderGradientChanged,
    PufferfishSting,
    ElderGuardianEffect,
    ImmediateRespawn,
    LimitedCraftingToggled,
    InitialChunksComing,
}

impl EventType {
    pub fn get_id(&self) -> (r: u8)
        ensures
            r == spec_event_id(*self),
    {
        match self {
            EventType::NoRespawnBlock => 0,
            EventType::RainStarted => 1,
            EventType::RainStopped => 2,
            EventType::GameModeChanged => 3,
            EventType::GameWon => 4,
            EventType::DemoMessageShown => 5,
            EventType::ProjectileHitPlayer => 6,
            EventType::RainGradientChanged => 7,
            EventType::ThunderGradientChanged => 8,
            EventType::PufferfishSting => 9,
            EventType::ElderGuardianEffect => 10,
            EventType::ImmediateRespawn => 11,
            EventType::LimitedCraftingToggled => 12,
            EventType::InitialChunksComing => 13,
        }
    }
}

pub open spec fn spec_event_id(e: EventType) -> u8 {
    match e {
        EventType::NoRespawnBlock => 0,
        EventType::RainStarted => 1,
        EventType::RainStopped => 2,
        EventType::GameModeChanged => 3,
        EventType::GameWon => 4,
        EventType::DemoMessageShown => 5,
        EventType::ProjectileHitPlayer => 6,
        EventType::RainGradientChanged => 7,
        EventType::ThunderGradientChanged => 8,
        EventType::PufferfishSting => 9,
        EventType::ElderGuardianEffect => 10,
        EventType::ImmediateRespawn => 11,
        EventType::LimitedCraftingToggled => 12,
        EventType::InitialChunksComing => 13,
    }
}

/// A game-event notification; the value travels as the bit pattern of a
/// 32-bit float, which for every event this server sends is zero.
#[derive(Debug)]
pub struct GameEventS2C {
    pub event: EventType,
    pub value_bits: u32,
}

impl GameEventS2C {
    pub fn encode(&self, _v: ProtocolVersion) -> (r: Vec<u8>)
        ensures
            r@ == seq![spec_event_id(self.event)] + u32_be_bytes(self.value_bits),
    {
        let mut buf: Vec<u8> = Vec::new();
        write_u8(&mut buf, self.event.get_id());
        write_u32(&mut buf, self.value_bits);
        proof {
            assert(buf@ =~= seq![spec_event_id(self.event)] + u32_be_bytes(self.value_bits));
        }
        buf
    }

    pub fn id(&self, v: ProtocolVersion) -> (r: i32)
        ensures
            r == spec_game_event_id(v),
    {
        if v.ge(ProtocolVersion::V1_20_6) {
            0x22
        } else if v.ge(ProtocolVersion::V1_20_2) {
            0x20
        } else if v.ge(ProtocolVersion::V1_19_4) {
            0x1f
        } else if v.ge(ProtocolVersion::V1_19_3) {
            0x1c
        } else if v.ge(ProtocolVersion::V1_19_2) {
            0x1d
        } else if v.ge(ProtocolVersion::V1_19) {
            0x1b
        } else if v.ge(ProtocolVersion::V1_17) {
            0x1e
        } else if v.ge(ProtocolVersion::V1_16_2) {
            0x1d
        } else if v.ge(ProtocolVersion::V1_16_1) {
            0x1e
        } else if v.ge(ProtocolVersion::V1_15) {
            0x1f
        } else {
            0x1e
        }
    }
}

pub open spec fn spec_game_event_id(v: ProtocolVersion) -> i32 {
    if v.spec_id() >= ProtocolVersion::V1_20_6.spec_id() {
        0x22
    } else if v.spec_id() >= ProtocolVersion::V1_20_2.spec_id() {
        0x20
    } else if v.spec_id() >= ProtocolVersion::V1_19_4.spec_id() {
        0x1f
    } else if v.spec_id() >= ProtocolVersion::V1_19_3.spec_id() {
        0x1c
    } else if v.spec_id() >= ProtocolVersion::V1_19_2.spec_id() {
        0x1d
    } else if v.spec_id() >= ProtocolVersion::V1_19.spec_id() {
        0x1b
    } else if v.spec_id() >= ProtocolVersion::V1_17.spec_id() {
        0x1e
    } else if v.spec_id() >= ProtocolVersion::V1_16_2.spec_id() {
        0x1d
    } else if v.spec_id() >= ProtocolVersion::V1_16_1.spec_id() {
        0x1e
    } else if v.spec_id() >= ProtocolVersion::V1_15.spec_id() {
        0x1f
    } else {
        0x1e
    }
}

/// The order to move the player; coordinates and angles travel as the bit
/// patterns of 64- and 32-bit floats.
#[derive(Debug)]
pub struct SyncPlayerPositionS2C {
    pub x_bits: u64,
    pub y_bits: u64,
    pub z_bits: u64,
    pub yaw_bits: u32,
    pub pitch_bits: u32,
    pub flags: u8,
    pub teleport_id: i32,
    pub dismount: bool,
}

impl SyncPlayerPositionS2C {
    pub fn encode(&self, v: ProtocolVersion) -> (r: Vec<u8>)
        ensures
            r@ == u64_be_bytes(self.x_bits) + u64_be_bytes(self.y_bits) + u64_be_bytes(
                self.z_bits,
            ) + u32_be_bytes(self.yaw_bits) + u32_be_bytes(self.pitch_bits) + seq![self.flags]
                + varint_bytes(self.teleport_id) + (if v.spec_id()
                >= ProtocolVersion::V1_17.spec_id() && v.spec_id()
                < ProtocolVersion::V1_19_4.spec_id() {
                seq![bool_byte(self.dismount)]
            } else {
                Seq::<u8>::empty()
            }),
    {
        let mut buf: Vec<u8> = Vec::new();
        write_u64(&mut buf, self.x_bits);
        write_u64(&mut buf, self.y_bits);
        write_u64(&mut buf, self.z_bits);
        write_u32(&mut buf, self.yaw_bits);
        write_u32(&mut buf, self.pitch_bits);
        write_u8(&mut buf, self.flags);
        write_varint(&mut buf, self.teleport_id);
        if v.ge(ProtocolVersion::V1_17) && v.lt(ProtocolVersion::V1_19_4) {
            write_bool(&mut buf, self.dismount);
        }
        proof {
            assert(buf@ =~= u64_be_bytes(self.x_bits) + u64_be_bytes(self.y_bits) + u64_be_bytes(
                self.z_bits,
            ) + u32_be_bytes(self.yaw_bits) + u32_be_bytes(self.pitch_bits) + seq![self.flags]
                + varint_bytes(self.teleport_id) + (if v.spec_id()
                >= ProtocolVersion::V1_17.spec_id() && v.spec_id()
                < ProtocolVersion::V1_19_4.spec_id() {
                seq![bool_byte(self.dismount)]
            } else {
                Seq::<u8>::empty()
            }));
        }
        buf
    }

    pub fn id(&self, v: ProtocolVersion) -> (r: i32)
        ensures
            r == spec_sync_pos_id(v),
    {
        if v.ge(ProtocolVersion::V1_20_6) {
            0x40
        } else if v.ge(ProtocolVersion::V1_20_2) {
            0x3e
        } else if v.ge(ProtocolVersion::V1_19_4) {
            0x3c
        } else if v.ge(ProtocolVersion::V1_19_3) {
            0x38
        } else if v.ge(ProtocolVersion::V1_19_2) {
            0x39
        } else if v.ge(ProtocolVersion::V1_19) {
            0x36
        } else if v.ge(ProtocolVersion::V1_17) {
            0x38
        } else if v.ge(ProtocolVersion::V1_16_2) {
            0x34
        } else if v.ge(ProtocolVersion::V1_16_1) {
            0x35
        } else if v.ge(ProtocolVersion::V1_15) {
            0x36
        } else if v.ge(ProtocolVersion::V1_14) {
            0x35
        } else {
            0x32
        }
    }
}

pub open spec fn spec_sync_pos_id(v: ProtocolVersion) -> i32 {
    if v.spec_id() >= ProtocolVersion::V1_20_6.spec_id() {
        0x40
    } else if v.spec_id() >= ProtocolVersion::V1_20_2.spec_id() {
        0x3e
    } else if v.spec_id() >= ProtocolVersion::V1_19_4.spec_id() {
        0x3c
    } else if v.spec_id() >= ProtocolVersion::V1_19_3.spec_id() {
        0x38
    } else if v.spec_id() >= ProtocolVersion::V1_19_2.spec_id() {
        0x39
    } else if v.spec_id() >= ProtocolVersion::V1_19.spec_id() {
        0x36
    } else if v.spec_id() >= ProtocolVersion::V1_17.spec_id() {
        0x38
    } else if v.spec_id() >= ProtocolVersion::V1_16_2.spec_id() {
        0x34
    } else if v.spec_id() >= ProtocolVersion::V1_16_1.spec_id() {
        0x35
    } else if v.spec_id() >= ProtocolVersion::V1_15.spec_id() {
        0x36
    } else if v.spec_id() >= ProtocolVersion::V1_14.spec_id() {
        0x35
    } else {
        0x32
    }
}

/// A chat line shown to the player, with the overlay flag.
#[derive(Debug)]
pub struct GameMessageS2C {
    pub text: TextComponent,
    pub overlay: bool,
}

impl GameMessageS2C {
    pub fn encode(&self, v: ProtocolVersion) -> (r: Vec<u8>)
        requires
            wf_tag(spec_text_nbt(self.text)),
        ensures
            r@ == spec_serialized(
                spec_text_nbt(self.text),
                v.spec_id() >= ProtocolVersion::V1_20_2.spec_id(),
            ) + seq![bool_byte(self.overlay)],
    {
        let mut buf: Vec<u8> = Vec::new();
        let tag = self.text.to_nbt();
        tag.serialize(&mut buf, v.ge(ProtocolVersion::V1_20_2));
        write_bool(&mut buf, self.overlay);
        proof {
            assert(buf@ =~= spec_serialized(
                spec_text_nbt(self.text),
                v.spec_id() >= ProtocolVersion::V1_20_2.spec_id(),
            ) + seq![bool_byte(self.overlay)]);
        }
        buf
    }

    pub fn id(&self, _v: ProtocolVersion) -> (r: i32)
        ensures
            r == 0x6c,
    {
        0x6c
    }
}

/// The low byte of a 32-bit value's unsigned form, how the old wire wrote
/// small counts.
pub fn low_byte_of_i32(v: i32) -> (r: u8)
    ensures
        r == (crate::utils::u32_of_i32(v) % 0x100) as u8,
{
    let u: u32 = if v >= 0 {
        v as u32
    } else {
        ((v as i64) + 0x1_0000_0000) as u32
    };
    (u % 0x100) as u8
}

/// The dimension names of a join packet, from index `i` on.
pub open spec fn dims_bytes(ds: Seq<String>, i: int) -> Seq<u8>
    decreases ds.len() - i,
{
    if i < 0 || i >= ds.len() {
        Seq::empty()
    } else {
        psb(ds[i]@) + dims_bytes(ds, i + 1)
    }
}

/// The entry into Play: a large structure whose field set follows the
/// negotiated version.
#[derive(Debug)]
pub struct JoinGameS2C {
    pub entity_id: i32,
    pub is_hardcore: bool,
    pub gamemode: u8,
    pub previous_gamemode: i8,
    pub dimensions: Vec<String>,
    pub registry_codec: Tag,
    pub legacy_dimension_nbt: Tag,
    pub max_players: i32,
    pub view_distance: i32,
    pub simulation_distance: i32,
    pub reduced_debug_info: bool,
    pub enable_respawn_screen: bool,
    pub do_limited_crafting: bool,
    pub legacy_dimension_type: String,
    pub legacy_dimension: i32,
    pub legacy_level_type: String,
    pub dimension_type: i32,
    pub dimension_name: String,
    pub hashed_seed: u64,
    pub is_debug: bool,
    pub is_flat: bool,
    pub death_dimension: Option<String>,
    pub death_location: Option<Position>,
    pub portal_cooldown: i32,
    pub enforces_secure_chat: bool,
}

/// The optional death-location block of the 1.19-and-later forms.
pub open spec fn spec_death_bytes(p: &JoinGameS2C, v: ProtocolVersion) -> Seq<u8> {
    seq![bool_byte(p.death_location is Some)] + (match p.death_location {
        Some(dl) => psb(p.death_dimension->0@) + u64_be_bytes(spec_position_packed(dl, v)),
        None => Seq::<u8>::empty(),
    })
}

/// The shared front of the modern join layouts: entity id, hardcore flag,
/// dimension list, the three counts, and the three flags.
pub open spec fn jg_head_modern(p: &JoinGameS2C) -> Seq<u8> {
    u32_be_bytes(u32_of_i32(p.entity_id)) + seq![bool_byte(p.is_hardcore)] + varint_bytes(
        p.dimensions@.len() as i32,
    ) + dims_bytes(p.dimensions@, 0) + varint_bytes(p.max_players) + varint_bytes(p.view_distance)
        + varint_bytes(p.simulation_distance) + seq![
        bool_byte(p.reduced_debug_info),
        bool_byte(p.enable_respawn_screen),
        bool_byte(p.do_limited_crafting),
    ]
}

/// The back of the 1.20.6 join layout.
pub open spec fn jg_tail_1206(p: &JoinGameS2C, v: ProtocolVersion) -> Seq<u8> {
    varint_bytes(p.dimension_type) + psb(p.dimension_name@) + u64_be_bytes(p.hashed_seed) + seq![
        p.gamemode,
        u8_of_i8(p.previous_gamemode),
        bool_byte(p.is_debug),
        bool_byte(p.is_flat),
    ] + spec_death_bytes(p, v) + varint_bytes(p.portal_cooldown) + seq![
        bool_byte(p.enforces_secure_chat),
    ]
}

/// The back of the 1.20.2 join layout.
pub open spec fn jg_tail_1202(p: &JoinGameS2C, v: ProtocolVersion) -> Seq<u8> {
    psb(p.legacy_dimension_type@) + psb(p.dimension_name@) + u64_be_bytes(p.hashed_seed) + seq![
        p.gamemode,
        u8_of_i8(p.previous_gamemode),
        bool_byte(p.is_debug),
        bool_byte(p.is_flat),
    ] + spec_death_bytes(p, v) + varint_bytes(p.portal_cooldown)
}

/// The front of the 1.19-to-1.20 join layout.
pub open spec fn jg_head_119(p: &JoinGameS2C) -> Seq<u8> {
    u32_be_bytes(u32_of_i32(p.entity_id)) + seq![
        bool_byte(p.is_hardcore),
        p.gamemode,
        u8_of_i8(p.previous_gamemode),
    ] + varint_bytes(p.dimensions@.len() as i32) + dims_bytes(p.dimensions@, 0) + spec_serialized(
        tag_view(p.registry_codec),
        false,
    ) + psb(p.legacy_dimension_type@) + psb(p.dimension_name@) + u64_be_bytes(p.hashed_seed)
}

/// The back of the 1.19-to-1.20 join layout.
pub open spec fn jg_tail_119(p: &JoinGameS2C, v: ProtocolVersion) -> Seq<u8> {
    varint_bytes(p.max_players) + varint_bytes(p.view_distance) + varint_bytes(
        p.simulation_distance,
    ) + seq![
        bool_byte(p.reduced_debug_info),
        bool_byte(p.enable_respawn_screen),
        bool_byte(p.is_debug),
        bool_byte(p.is_flat),
    ] + spec_death_bytes(p, v) + (if v.spec_id() > ProtocolVersion::V1_20.spec_id() {
        varint_bytes(p.portal_cooldown)
    } else {
        Seq::<u8>::empty()
    })
}

/// The front of the 1.17-to-1.18 join layout.
pub open spec fn jg_head_117(p: &JoinGameS2C) -> Seq<u8> {
    u32_be_bytes(u32_of_i32(p.entity_id)) + seq![
        bool_byte(p.is_hardcore),
        p.gamemode,
        u8_of_i8(p.previous_gamemode),
    ] + varint_bytes(p.dimensions@.len() as i32) + dims_bytes(p.dimensions@, 0) + spec_serialized(
        tag_view(p.registry_codec),
        false,
    ) + spec_serialized(tag_view(p.legacy_dimension_nbt), false) + psb(p.dimension_name@)
}

/// The back of the 1.17-to-1.18 join layout.
pub open spec fn jg_tail_117(p: &JoinGameS2C) -> Seq<u8> {
    u64_be_bytes(p.hashed_seed) + varint_bytes(p.max_players) + varint_bytes(p.view_distance)
        + seq![
        bool_byte(p.reduced_debug_info),
        bool_byte(p.enable_respawn_screen),
        bool_byte(p.is_debug),
        bool_byte(p.is_flat),
    ]
}

/// The bytes of a join packet for the given version, field for field per
/// the era's layout.
pub open spec fn spec_join_game_bytes(p: &JoinGameS2C, v: ProtocolVersion) -> Seq<u8> {
    let eid = u32_be_bytes(u32_of_i32(p.entity_id));
    if v.spec_id() >= ProtocolVersion::V1_20_6.spec_id() {
        jg_head_modern(p) + jg_tail_1206(p, v)
    } else if v.spec_id() >= ProtocolVersion::V1_20_2.spec_id() {
        jg_head_modern(p) + jg_tail_1202(p, v)
    } else if v.spec_id() >= ProtocolVersion::V1_19.spec_id() {
        jg_head_119(p) + jg_tail_119(p, v)
    } else if v.spec_id() >= ProtocolVersion::V1_17.spec_id() {
        jg_head_117(p) + jg_tail_117(p)
    } else if v.spec_id() >= ProtocolVersion::V1_16.spec_id() {
        eid + seq![p.gamemode, u8_of_i8(p.previous_gamemode)] + varint_bytes(
            p.dimensions@.len() as i32,
        ) + dims_bytes(p.dimensions@, 0) + spec_serialized(tag_view(p.registry_codec), false)
            + psb(p.legacy_dimension_type@) + psb(p.dimension_name@) + u64_be_bytes(p.hashed_seed)
            + seq![(u32_of_i32(p.max_players) % 0x100) as u8] + varint_bytes(p.view_distance)
            + seq![
            bool_byte(p.reduced_debug_info),
            bool_byte(p.enable_respawn_screen),
            bool_byte(p.is_debug),
            bool_byte(p.is_flat),
        ]
    } else if v.spec_id() >= ProtocolVersion::V1_15.spec_id() {
        eid + seq![p.gamemode] + u32_be_bytes(u32_of_i32(p.legacy_dimension)) + u64_be_bytes(
            p.hashed_seed,
        ) + seq![(u32_of_i32(p.max_players) % 0x100) as u8] + psb(p.legacy_level_type@)
            + varint_bytes(p.view_distance) + seq![
            bool_byte(p.reduced_debug_info),
            bool_byte(p.enable_respawn_screen),
        ]
    } else if v.spec_id() >= ProtocolVersion::V1_14.spec_id() {
        eid + seq![p.gamemode] + u32_be_bytes(u32_of_i32(p.legacy_dimension)) + seq![
            (u32_of_i32(p.max_players) % 0x100) as u8,
        ] + psb(p.legacy_level_type@) + varint_bytes(p.view_distance) + seq![
            bool_byte(p.reduced_debug_info),
        ]
    } else if v.spec_id() >= ProtocolVersion::V1_13_2.spec_id() {
        eid + seq![p.gamemode] + u32_be_bytes(u32_of_i32(p.legacy_dimension)) + seq![
            2u8,
            (u32_of_i32(p.max_players) % 0x100) as u8,
        ] + psb(p.legacy_level_type@) + seq![bool_byte(p.reduced_debug_info)]
    } else {
        eid
    }
}

/// Whether every string and tag of a join packet fits its wire field.
pub open spec fn join_game_fits(p: &JoinGameS2C) -> bool {
    &&& p.dimensions@.len() <= 0x7fff_ffff
    &&& (forall|i: int| 0 <= i < p.dimensions@.len() ==> pstr_fits((#[trigger] p.dimensions@[i])@))
    &&& pstr_fits(p.legacy_dimension_type@)
    &&& pstr_fits(p.legacy_level_type@)
    &&& pstr_fits(p.dimension_name@)
    &&& (p.death_dimension matches Some(d) ==> pstr_fits(d@))
    &&& (p.death_location is Some ==> p.death_dimension is Some)
    &&& wf_tag(tag_view(p.registry_codec))
    &&& wf_tag(tag_view(p.legacy_dimension_nbt))
}

impl JoinGameS2C {
    fn write_dims(&self, buf: &mut Vec<u8>)
        requires
            join_game_fits(self),
        ensures
            final(buf)@ == old(buf)@ + varint_bytes(self.dimensions@.len() as i32) + dims_bytes(
                self.dimensions@,
                0,
            ),
    {
        write_varint(buf, self.dimensions.len() as i32);
        let ghost base = buf@;
        let mut i: usize = 0;
        while i < self.dimensions.len()
            invariant
                i <= self.dimensions@.len(),
                join_game_fits(self),
                buf@ + dims_bytes(self.dimensions@, i as int) == base + dims_bytes(
                    self.dimensions@,
                    0,
                ),
            decreases self.dimensions@.len() - i,
        {
            let ghost pre = buf@;
            write_string(buf, self.dimensions[i].as_str());
            proof {
                assert(buf@ + dims_bytes(self.dimensions@, i + 1) =~= pre + dims_bytes(
                    self.dimensions@,
                    i as int,
                ));
            }
            i = i + 1;
        }
        proof {
            assert(dims_bytes(self.dimensions@, self.dimensions@.len() as int) =~= Seq::<
                u8,
            >::empty());
            assert(buf@ =~= base + dims_bytes(self.dimensions@, 0));
        }
    }

    fn write_death(&self, buf: &mut Vec<u8>, v: ProtocolVersion)
        requires
            join_game_fits(self),
        ensures
            final(buf)@ == old(buf)@ + spec_death_bytes(self, v),
    {
        match &self.death_location {
            Some(dl) => {
                write_bool(buf, true);
                match &self.death_dimension {
                    Some(dd) => {
                        write_string(buf, dd.as_str());
                    },
                    None => {
                        proof {
                            assert(false);
                        }
                    },
                }
                dl.write_to(buf, v);
                proof {
                    assert(buf@ =~= old(buf)@ + spec_death_bytes(self, v));
                }
            },
            None => {
                write_bool(buf, false);
                proof {
                    assert(buf@ =~= old(buf)@ + spec_death_bytes(self, v));
                }
            },
        }
    }

    /// Writes the join structure in the layout of the negotiated version.
    pub fn encode(&self, v: ProtocolVersion) -> (r: Vec<u8>)
        requires
            join_game_fits(self),
        ensures
            r@ == spec_join_game_bytes(self, v),
    {
        let mut buf: Vec<u8> = Vec::new();
        if v.ge(ProtocolVersion::V1_20_6) {
            self.encode_v1206(&mut buf, v);
        } else if v.ge(ProtocolVersion::V1_20_2) {
            self.encode_v1202(&mut buf, v);
        } else if v.ge(ProtocolVersion::V1_19) {
            self.encode_v119(&mut buf, v);
        } else if v.ge(ProtocolVersion::V1_17) {
            self.encode_v117(&mut buf, v);
        } else if v.ge(ProtocolVersion::V1_16) {
            self.encode_v116(&mut buf, v);
        } else if v.ge(ProtocolVersion::V1_15) {
            self.encode_v115(&mut buf, v);
        } else if v.ge(ProtocolVersion::V1_14) {
            self.encode_v114(&mut buf, v);
        } else if v.ge(ProtocolVersion::V1_13_2) {
            self.encode_v1132(&mut buf, v);
        } else {
            write_i32(&mut buf, self.entity_id);
            proof {
                assert(buf@ =~= spec_join_game_bytes(self, v));
            }
        }
        proof {
            assert(buf@ =~= spec_join_game_bytes(self, v));
        }
        buf
    }

    #[verifier::rlimit(100)]
    #[verifier::spinoff_prover]
    fn encode_v1206(&self, buf: &mut Vec<u8>, v: ProtocolVersion)
        requires
            join_game_fits(self),
            v.spec_id() >= ProtocolVersion::V1_20_6.spec_id(),
        ensures
            final(buf)@ == old(buf)@ + spec_join_game_bytes(self, v),
    {
        let ghost base = buf@;
        write_i32(buf, self.entity_id);
        write_bool(buf, self.is_hardcore);
        self.write_dims(buf);
        write_varint(buf, self.max_players);
        write_varint(buf, self.view_distance);
        write_varint(buf, self.simulation_distance);
        write_bool(buf, self.reduced_debug_info);
        write_bool(buf, self.enable_respawn_screen);
        write_bool(buf, self.do_limited_crafting);
        let ghost mid = buf@;
        proof {
            assert(mid =~= base + jg_head_modern(self));
        }
        write_varint(buf, self.dimension_type);
        write_string(buf, self.dimension_name.as_str());
        write_u64(buf, self.hashed_seed);
        write_u8(buf, self.gamemode);
        write_i8(buf, self.previous_gamemode);
        write_bool(buf, self.is_debug);
        write_bool(buf, self.is_flat);
        self.write_death(buf, v);
        write_varint(buf, self.portal_cooldown);
        write_bool(buf, self.enforces_secure_chat);
        proof {
            assert(buf@ =~= mid + jg_tail_1206(self, v));
            assert(buf@ =~= base + spec_join_game_bytes(self, v));
        }
    }

    /// Writes the shared front of the modern join layouts.
    #[verifier::rlimit(100)]
    #[verifier::spinoff_prover]
    fn write_head_modern(&self, buf: &mut Vec<u8>)
        requires
            join_game_fits(self),
        ensures
            final(buf)@ == old(buf)@ + jg_head_modern(self),
    {
        let ghost base = buf@;
        write_i32(buf, self.entity_id);
        write_bool(buf, self.is_hardcore);
        self.write_dims(buf);
        write_varint(buf, self.max_players);
        write_varint(buf, self.view_distance);
        write_varint(buf, self.simulation_distance);
        write_bool(buf, self.reduced_debug_info);
        write_bool(buf, self.enable_respawn_screen);
        write_bool(buf, self.do_limited_crafting);
        proof {
            assert(buf@ =~= base + jg_head_modern(self));
        }
    }

    #[verifier::rlimit(100)]
    #[verifier::spinoff_prover]
    fn encode_v1202(&self, buf: &mut Vec<u8>, v: ProtocolVersion)
        requires
            join_game_fits(self),
            v.spec_id() < ProtocolVersion::V1_20_6.spec_id() && v.spec_id() >= ProtocolVersion::V1_20_2.spec_id(),
        ensures
            final(buf)@ == old(buf)@ + spec_join_game_bytes(self, v),
    {
        let ghost base = buf@;
        self.write_head_modern(buf);
        let ghost mid = buf@;
        write_string(buf, self.legacy_dimension_type.as_str());
        write_string(buf, self.dimension_name.as_str());
        write_u64(buf, self.hashed_seed);
        write_u8(buf, self.gamemode);
        write_i8(buf, self.previous_gamemode);
        write_bool(buf, self.is_debug);
        write_bool(buf, self.is_flat);
        self.write_death(buf, v);
        write_varint(buf, self.portal_cooldown);
        proof {
            assert(buf@ =~= mid + jg_tail_1202(self, v));
            assert(buf@ =~= base + spec_join_game_bytes(self, v));
        }
    }

    #[verifier::rlimit(100)]
    #[verifier::spinoff_prover]
    fn encode_v119(&self, buf: &mut Vec<u8>, v: ProtocolVersion)
        requires
            join_game_fits(self),
            v.spec_id() < ProtocolVersion::V1_20_2.spec_id() && v.spec_id() >= ProtocolVersion::V1_19.spec_id(),
        ensures
            final(buf)@ == old(buf)@ + spec_join_game_bytes(self, v),
    {
        let ghost base = buf@;
        write_i32(buf, self.entity_id);
        write_bool(buf, self.is_hardcore);
        write_u8(buf, self.gamemode);
        write_i8(buf, self.previous_gamemode);
        self.write_dims(buf);
        self.registry_codec.serialize(buf, false);
        write_string(buf, self.legacy_dimension_type.as_str());
        write_string(buf, self.dimension_name.as_str());
        write_u64(buf, self.hashed_seed);
        let ghost mid = buf@;
        proof {
            assert(mid =~= base + jg_head_119(self));
        }
        write_varint(buf, self.max_players);
        write_varint(buf, self.view_distance);
        write_varint(buf, self.simulation_distance);
        write_bool(buf, self.reduced_debug_info);
        write_bool(buf, self.enable_respawn_screen);
        write_bool(buf, self.is_debug);
        write_bool(buf, self.is_flat);
        self.write_death(buf, v);
        if ProtocolVersion::V1_20.lt(v) {
            write_varint(buf, self.portal_cooldown);
        }
        proof {
            assert(buf@ =~= mid + jg_tail_119(self, v));
            assert(buf@ =~= base + spec_join_game_bytes(self, v));
        }
    }

    #[verifier::rlimit(100)]
    #[verifier::spinoff_prover]
    fn encode_v117(&self, buf: &mut Vec<u8>, v: ProtocolVersion)
        requires
            join_game_fits(self),
            v.spec_id() < ProtocolVersion::V1_19.spec_id() && v.spec_id() >= ProtocolVersion::V1_17.spec_id(),
        ensures
            final(buf)@ == old(buf)@ + spec_join_game_bytes(self, v),
    {
        let ghost base = buf@;
        write_i32(buf, self.entity_id);
        write_bool(buf, self.is_hardcore);
        write_u8(buf, self.gamemode);
        write_i8(buf, self.previous_gamemode);
        self.write_dims(buf);
        self.registry_codec.serialize(buf, false);
        self.legacy_dimension_nbt.serialize(buf, false);
        write_string(buf, self.dimension_name.as_str());
        let ghost mid = buf@;
        proof {
            assert(mid =~= base + jg_head_117(self));
        }
        write_u64(buf, self.hashed_seed);
        write_varint(buf, self.max_players);
        write_varint(buf, self.view_distance);
        write_bool(buf, self.reduced_debug_info);
        write_bool(buf, self.enable_respawn_screen);
        write_bool(buf, self.is_debug);
        write_bool(buf, self.is_flat);
        proof {
            assert(buf@ =~= mid + jg_tail_117(self));
            assert(buf@ =~= base + spec_join_game_bytes(self, v));
        }
    }

    #[verifier::rlimit(100)]
    #[verifier::spinoff_prover]
    fn encode_v116(&self, buf: &mut Vec<u8>, v: ProtocolVersion)
        requires
            join_game_fits(self),
            v.spec_id() < ProtocolVersion::V1_17.spec_id() && v.spec_id() >= ProtocolVersion::V1_16.spec_id(),
        ensures
            final(buf)@ == old(buf)@ + spec_join_game_bytes(self, v),
    {
        let ghost base = buf@;
        write_i32(buf, self.entity_id);
        write_u8(buf, self.gamemode);
        write_i8(buf, self.previous_gamemode);
        self.write_dims(buf);
        self.registry_codec.serialize(buf, false);
        write_string(buf, self.legacy_dimension_type.as_str());
        write_string(buf, self.dimension_name.as_str());
        write_u64(buf, self.hashed_seed);
        write_u8(buf, low_byte_of_i32(self.max_players));
        write_varint(buf, self.view_distance);
        write_bool(buf, self.reduced_debug_info);
        write_bool(buf, self.enable_respawn_screen);
        write_bool(buf, self.is_debug);
        write_bool(buf, self.is_flat);
        proof {
            assert(buf@ =~= base + spec_join_game_bytes(self, v));
        }
    }

    #[verifier::rlimit(100)]
    #[verifier::spinoff_prover]
    fn encode_v115(&self, buf: &mut Vec<u8>, v: ProtocolVersion)
        requires
            join_game_fits(self),
            v.spec_id() < ProtocolVersion::V1_16.spec_id() && v.spec_id() >= ProtocolVersion::V1_15.spec_id(),
        ensures
            final(buf)@ == old(buf)@ + spec_join_game_bytes(self, v),
    {
        let ghost base = buf@;
        write_i32(buf, self.entity_id);
        write_u8(buf, self.gamemode);
        write_i32(buf, self.legacy_dimension);
        write_u64(buf, self.hashed_seed);
        write_u8(buf, low_byte_of_i32(self.max_players));
        write_string(buf, self.legacy_level_type.as_str());
        write_varint(buf, self.view_distance);
        write_bool(buf, self.reduced_debug_info);
        write_bool(buf, self.enable_respawn_screen);
        proof {
            assert(buf@ =~= base + spec_join_game_bytes(self, v));
        }
    }

    #[verifier::rlimit(100)]
    #[verifier::spinoff_prover]
    fn encode_v114(&self, buf: &mut Vec<u8>, v: ProtocolVersion)
        requires
            join_game_fits(self),
            v.spec_id() < ProtocolVersion::V1_15.spec_id() && v.spec_id() >= ProtocolVersion::V1_14.spec_id(),
        ensures
            final(buf)@ == old(buf)@ + spec_join_game_bytes(self, v),
    {
        let ghost base = buf@;
        write_i32(buf, self.entity_id);
        write_u8(buf, self.gamemode);
        write_i32(buf, self.legacy_dimension);
        write_u8(buf, low_byte_of_i32(self.max_players));
        write_string(buf, self.legacy_level_type.as_str());
        write_varint(buf, self.view_distance);
        write_bool(buf, self.reduced_debug_info);
        proof {
            assert(buf@ =~= base + spec_join_game_bytes(self, v));
        }
    }

    #[verifier::rlimit(100)]
    #[verifier::spinoff_prover]
    fn encode_v1132(&self, buf: &mut Vec<u8>, v: ProtocolVersion)
        requires
            join_game_fits(self),
            v.spec_id() < ProtocolVersion::V1_14.spec_id() && v.spec_id() >= ProtocolVersion::V1_13_2.spec_id(),
        ensures
            final(buf)@ == old(buf)@ + spec_join_game_bytes(self, v),
    {
        let ghost base = buf@;
        write_i32(buf, self.entity_id);
        write_u8(buf, self.gamemode);
        write_i32(buf, self.legacy_dimension);
        write_u8(buf, 2);
        write_u8(buf, low_byte_of_i32(self.max_players));
        write_string(buf, self.legacy_level_type.as_str());
        write_bool(buf, self.reduced_debug_info);
        proof {
            assert(buf@ =~= base + spec_join_game_bytes(self, v));
        }
    }

    /// The join-packet opcode by version.
    pub fn id(&self, v: ProtocolVersion) -> (r: i32)
        ensures
            r == spec_join_game_id(v),
    {
        if v.ge(ProtocolVersion::V1_20_6) {
            0x2b
        } else if v.ge(ProtocolVersion::V1_20_2) {
            0x29
        } else if v.ge(ProtocolVersion::V1_20) {
            0x28
        } else if v.ge(ProtocolVersion::V1_19_3) {
            0x24
        } else if v.ge(ProtocolVersion::V1_19) {
            0x23
        } else if v.ge(ProtocolVersion::V1_18_1) {
            0x26
        } else if v.ge(ProtocolVersion::V1_16) {
            0x25
        } else if v.ge(ProtocolVersion::V1_15_2) {
            0x26
        } else {
            0x25
        }
    }
}

pub open spec fn spec_join_game_id(v: ProtocolVersion) -> i32 {
    if v.spec_id() >= ProtocolVersion::V1_20_6.spec_id() {
        0x2b
    } else if v.spec_id() >= ProtocolVersion::V1_20_2.spec_id() {
        0x29
    } else if v.spec_id() >= ProtocolVersion::V1_20.spec_id() {
        0x28
    } else if v.spec_id() >= ProtocolVersion::V1_19_3.spec_id() {
        0x24
    } else if v.spec_id() >= ProtocolVersion::V1_19.spec_id() {
        0x23
    } else if v.spec_id() >= ProtocolVersion::V1_18_1.spec_id() {
        0x26
    } else if v.spec_id() >= ProtocolVersion::V1_16.spec_id() {
        0x25
    } else if v.spec_id() >= ProtocolVersion::V1_15_2.spec_id() {
        0x26
    } else {
        0x25
    }
}

} // verus!
