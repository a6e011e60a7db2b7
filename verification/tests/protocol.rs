use std::collections::HashSet;

use swandist::connection::{ChatReply, ConnectionState, LoginReply};
use swandist::models::AuthManager;
use swandist::packets::c2s::handshake::HandshakeC2S;
use swandist::packets::c2s::login::LoginHelloC2S;
use swandist::packets::stage::Stage;
use swandist::status::StatusBuilder;
use swandist::text::{ChatColor, TextComponent};
use swandist::utils::{read_varint, ByteReader};
use swandist::version::ProtocolVersion;

fn decode_frame(frame: Vec<u8>) -> (i32, Vec<u8>) {
    let mut r = ByteReader::new(frame);
    let len = read_varint(&mut r).unwrap() as usize;
    assert_eq!(r.remaining_len(), len);
    let id = read_varint(&mut r).unwrap();
    (id, r.take_rest())
}

#[test]
fn test_create_code_shape() {
    // ten thousand draws are sixteen lowercase-alphanumeric characters each,
    // and nearly all distinct
    let mut m = AuthManager::new();
    let mut seen = HashSet::new();
    for _ in 0..10_000 {
        let code = m.create_code();
        assert_eq!(code.len(), 16);
        assert!(code.chars().all(|c| c.is_ascii_lowercase() || c.is_ascii_digit()));
        seen.insert(code);
    }
    assert!(seen.len() >= 9_990);
}

#[test]
fn test_unknown_code_no_change() {
    let mut m = AuthManager::new();
    let state = ConnectionState::new();
    let code = m.create_code();
    let reply = state.on_chat(&mut m, &"zzzzzzzzzzzzzzzz".to_string());
    match reply {
        ChatReply::NotFound(msg) => {
            assert_eq!(msg.text.as_deref(), Some("This code does not exist! "));
            assert_eq!(msg.color.as_deref(), Some("red"));
            assert_eq!(msg.bold, Some(true));
            let extra = msg.extra.unwrap();
            assert_eq!(extra[0].text.as_deref(), Some("Did you enter it correctly?"));
            assert_eq!(extra[0].color.as_deref(), Some("dark_red"));
        },
        _ => panic!("expected the does-not-exist reply"),
    }
    // no state change: the registered code is still there and unused
    assert!(m.has_code(&code));
    assert!(!m.is_code_used(&code));
}

#[test]
fn test_code_single_use() {
    let mut m = AuthManager::new();
    let state = ConnectionState::new();
    let code = m.create_code();
    match state.on_chat(&mut m, &code) {
        ChatReply::Authorized(kick) => {
            assert_eq!(kick.text.as_deref(), Some("Authorization successful! "));
            assert_eq!(kick.color.as_deref(), Some("green"));
        },
        _ => panic!("expected authorization"),
    }
    assert!(m.is_code_used(&code));
    match state.on_chat(&mut m, &code) {
        ChatReply::AlreadyUsed(msg) => {
            assert_eq!(msg.text.as_deref(), Some("This code has already been used! "));
        },
        _ => panic!("expected the already-used reply"),
    }
}

#[test]
fn test_status_ping() {
    // handshake ver=767 next=1, then a status request and a ping
    let mut state = ConnectionState::new();
    let hs = {
        let mut buf: Vec<u8> = Vec::new();
        swandist::utils::write_varint(&mut buf, 767);
        swandist::utils::write_string(&mut buf, "x");
        swandist::utils::write_u16(&mut buf, 25565);
        swandist::utils::write_varint(&mut buf, 1);
        HandshakeC2S::decode(&mut ByteReader::new(buf)).unwrap()
    };
    state.on_handshake(&hs);
    assert_eq!(state.version, ProtocolVersion::V1_21);
    assert_eq!(state.stage, Stage::Status);
    let json = StatusBuilder::new(state.version).finish();
    assert!(json.contains("\"protocol\":767"));
    assert!(json.contains("\"name\":\"1.21\""));
    let frame = state.on_status_request(&json);
    let (id, _body) = decode_frame(frame);
    assert_eq!(id, 0);
    let pong = state.on_ping_request(0x1234567890abcdef);
    let (id, body) = decode_frame(pong);
    assert_eq!(id, 1);
    assert_eq!(body, 0x1234567890abcdefu64.to_be_bytes().to_vec());
}

#[test]
fn test_outdated_client() {
    // handshake with version 754, next=2, then login start
    let mut state = ConnectionState::new();
    let hs = {
        let mut buf: Vec<u8> = Vec::new();
        swandist::utils::write_varint(&mut buf, 754);
        swandist::utils::write_string(&mut buf, "x");
        swandist::utils::write_u16(&mut buf, 25565);
        swandist::utils::write_varint(&mut buf, 2);
        HandshakeC2S::decode(&mut ByteReader::new(buf)).unwrap()
    };
    state.on_handshake(&hs);
    assert_eq!(state.stage, Stage::Login);
    let login = {
        let mut buf: Vec<u8> = Vec::new();
        swandist::utils::write_string(&mut buf, "Alice");
        LoginHelloC2S::decode(&mut ByteReader::new(buf), state.version).unwrap()
    };
    assert_eq!(login.name, "Alice");
    match state.on_login_hello(&login, vec![1, 2, 3], vec![9, 9, 9, 9]) {
        LoginReply::Outdated(frame) => {
            let (id, body) = decode_frame(frame);
            assert_eq!(id, 0);
            let text = String::from_utf8_lossy(&body).into_owned();
            assert!(text.contains("Outdated client"));
        },
        _ => panic!("expected the outdated-client disconnect"),
    }
}

#[test]
fn test_login_accepted_on_current_version() {
    let mut state = ConnectionState::new();
    state.version = ProtocolVersion::V1_21;
    state.stage = Stage::Login;
    let login = {
        let mut buf: Vec<u8> = Vec::new();
        swandist::utils::write_string(&mut buf, "Bob");
        swandist::utils::write_uuid(&mut buf, 1);
        LoginHelloC2S::decode(&mut ByteReader::new(buf), state.version).unwrap()
    };
    match state.on_login_hello(&login, vec![0x30, 0x82], vec![1, 2, 3, 4]) {
        LoginReply::Encrypt(frame) => {
            let (id, _body) = decode_frame(frame);
            assert_eq!(id, 1);
        },
        _ => panic!("expected the key exchange"),
    }
    assert_eq!(state.username, "Bob");
    assert_eq!(state.auth_nonce.as_deref(), Some(&[1u8, 2, 3, 4][..]));
}

#[test]
fn test_config_order() {
    // brand, features, known packs — then registries, links, and Ready last
    let state = {
        let mut s = ConnectionState::new();
        s.version = ProtocolVersion::V1_21;
        s.stage = Stage::Config;
        s
    };
    let frames = state.on_client_info();
    assert_eq!(frames.len(), 3);
    let ids: Vec<i32> = frames.into_iter().map(|f| decode_frame(f).0).collect();
    assert_eq!(ids, vec![1, 12, 14]);
    let regs = vec![swandist::packets::s2c::config::DynamicRegistriesS2C {
        registry_id: "minecraft:worldgen/biome".to_string(),
        entries: vec![swandist::packets::s2c::config::RegistryEntry {
            id: "minecraft:plains".to_string(),
            data: None,
        }],
    }];
    let frames = state.on_known_packs(&regs, &None);
    assert_eq!(frames.len(), 2);
    let ids: Vec<i32> = frames.into_iter().map(|f| decode_frame(f).0).collect();
    assert_eq!(ids, vec![7, 3]);
}

#[test]
fn test_gradient() {
    let mut c = TextComponent::plain("ab");
    c.set_gradient(&vec![ChatColor::Aqua, ChatColor::LightPurple]);
    assert_eq!(c.text.as_deref(), Some(""));
    let extra = c.extra.unwrap();
    assert_eq!(extra.len(), 2);
    assert_eq!(extra[0].text.as_deref(), Some("a"));
    assert_eq!(extra[0].color.as_deref(), Some("#55ffff"));
    assert_eq!(extra[1].text.as_deref(), Some("b"));
    assert_eq!(extra[1].color.as_deref(), Some("#aaaaff"));
}

#[test]
fn test_text_json() {
    let mut c = TextComponent::plain("hi \"there\"");
    c.set_bold(true);
    c.set_color(ChatColor::Gold);
    let json = c.to_json();
    assert_eq!(json, "{\"type\":\"text\",\"color\":\"gold\",\"text\":\"hi \\\"there\\\"\",\"bold\":true}");
}

#[test]
fn test_text_nbt() {
    let c = TextComponent::plain("x");
    let tag = c.to_nbt();
    let compound = tag.as_compound().unwrap();
    assert_eq!(compound[0].0, b"type".to_vec());
    assert_eq!(compound[0].1.as_string().unwrap(), &b"text".to_vec());
    assert_eq!(compound[1].0, b"text".to_vec());
}

#[test]
fn test_hyphenated_id() {
    let bytes = swandist::packets::s2c::login::hyphenated_bytes(0x00112233445566778899aabbccddeeffu128);
    assert_eq!(
        String::from_utf8(bytes).unwrap(),
        "00112233-4455-6677-8899-aabbccddeeff"
    );
}

#[test]
fn test_protocol_versions() {
    assert_eq!(ProtocolVersion::from_id(767), ProtocolVersion::V1_21);
    assert_eq!(ProtocolVersion::from_id(754), ProtocolVersion::Unknown);
    assert_eq!(ProtocolVersion::V1_21.get_id(), 767);
    assert_eq!(ProtocolVersion::V1_21.get_name(), "1.21");
    assert!(ProtocolVersion::V1_21.ge(ProtocolVersion::V1_20_2));
    assert!(ProtocolVersion::V1_13_2.lt(ProtocolVersion::V1_14));
}

#[test]
fn test_custom_color_channels() {
    let c = ChatColor::Custom("ffAA01".to_string());
    assert_eq!(c.as_rgba(), (0xff, 0xaa, 0x01, 0xff));
    assert_eq!(ChatColor::Red.as_rgba(), (0xff, 0x55, 0x55, 0xff));
    assert_eq!(ChatColor::DarkCyan.as_rgba(), (0x00, 0xaa, 0xaa, 0xff));
    assert_eq!(ChatColor::White.as_rgba(), (0xff, 0xff, 0xff, 0xff));
    assert_eq!(ChatColor::Gold.as_format_code(), "\u{00a7}6");
}

#[test]
fn test_signed_hex_digest() {
    // the classic session-hash examples exercise both signs
    assert_eq!(swandist::connection::sha_digest(&vec![0x00, 0x01]), "1");
    assert_eq!(swandist::connection::sha_digest(&vec![0xff]), "-1");
    assert_eq!(swandist::connection::sha_digest(&vec![0x80, 0x00]), "-8000");
    assert_eq!(swandist::connection::sha_digest(&vec![0x00]), "0");
    let h = swandist::connection::session_hash(&b"je".to_vec(), &b"b_".to_vec());
    assert_eq!(h, "-7c9d5b0044c130109a5d7b5fb5c317c02b4e28c1");
    let h = swandist::connection::session_hash(&b"No".to_vec(), &b"tch".to_vec());
    assert_eq!(h, "4ed1f46bbe04bc756bcb17c0c7ce3e4632f06a48");
}

#[test]
fn test_client_info_decode() {
    let mut buf: Vec<u8> = Vec::new();
    swandist::utils::write_string(&mut buf, "en_us");
    buf.push(12);
    swandist::utils::write_varint(&mut buf, 0);
    buf.push(1);
    buf.push(0x7f);
    swandist::utils::write_varint(&mut buf, 1);
    buf.push(1);
    buf.push(0);
    let p = swandist::packets::c2s::config::ClientInfoC2S::decode(&mut ByteReader::new(buf))
        .unwrap();
    assert_eq!(p.client_info.lang, "en_us");
    assert_eq!(p.client_info.view_distance, 12);
    assert!(p.client_info.chat_colors_enabled);
    assert!(!p.client_info.allows_server_listing);
}

#[test]
fn test_chat_decode() {
    let mut buf: Vec<u8> = Vec::new();
    swandist::utils::write_string(&mut buf, "abcd1234efgh5678");
    swandist::utils::write_u64(&mut buf, 7);
    swandist::utils::write_u64(&mut buf, 9);
    buf.push(0);
    swandist::utils::write_varint(&mut buf, 2);
    buf.extend_from_slice(&[0, 0, 5]);
    let p = swandist::packets::c2s::play::ChatC2S::decode(&mut ByteReader::new(buf)).unwrap();
    assert_eq!(p.message, "abcd1234efgh5678");
    assert_eq!(p.timestamp, 7);
    assert_eq!(p.salt, 9);
    assert!(p.signature.is_none());
    assert_eq!(p.message_count, 2);
    assert_eq!(p.acknowledged, 5);
}

#[test]
fn test_join_game_bytes() {
    let join = swandist::packets::s2c::play::JoinGameS2C {
        entity_id: 1,
        is_hardcore: false,
        gamemode: 3,
        previous_gamemode: -1,
        dimensions: vec!["minecraft:overworld".to_string()],
        registry_codec: swandist::nbt::Tag::Compound(Vec::new()),
        legacy_dimension_nbt: swandist::nbt::Tag::Compound(Vec::new()),
        max_players: 1,
        view_distance: 0,
        simulation_distance: 1,
        reduced_debug_info: false,
        enable_respawn_screen: false,
        do_limited_crafting: false,
        legacy_dimension_type: String::new(),
        legacy_dimension: 0,
        legacy_level_type: String::new(),
        dimension_type: 0,
        dimension_name: "minecraft:overworld".to_string(),
        hashed_seed: 0,
        is_debug: false,
        is_flat: false,
        death_dimension: None,
        death_location: None,
        portal_cooldown: 20,
        enforces_secure_chat: false,
    };
    let v = ProtocolVersion::V1_21;
    let body = join.encode(v);
    assert_eq!(join.id(v), 0x2b);
    // entity id, hardcore flag, then the dimension count
    assert_eq!(&body[0..6], &[0, 0, 0, 1, 0, 1]);
    let older = join.encode(ProtocolVersion::V1_13_2);
    // entity id, gamemode, dimension, fixed difficulty, players, level type, debug flag
    assert_eq!(older, vec![0, 0, 0, 1, 3, 0, 0, 0, 0, 2, 1, 0, 0]);
}
