use vstd::prelude::*;

verus! {

use vstd::string::StringSliceAdditionalSpecFns;
use vstd::string::StringExecFns;
use crate::utils::{write_varint, write_string, write_bytes, varint_bytes, string_bytes};
use crate::packets::stage::Stage;
use crate::packets::c2s::handshake::HandshakeC2S;
use crate::packets::c2s::login::LoginHelloC2S;
use crate::packets::c2s::play::ChatC2S;
use crate::packets::s2c::status::{StatusResponseS2C, PingResponseS2C};
use crate::packets::s2c::login::{LoginDisconnectS2C, LoginHelloS2C};
use crate::packets::s2c::config::{
    RegistryEntry,
    CustomPayloadS2C,
    FeaturesS2C,
    SelectKnownPacksS2C,
    DynamicRegistriesS2C,
    LinksS2C,
    ReadyS2C,
};
use crate::packets::s2c::play::{
    GameMessageS2C,
    PlayDisconnectS2C,
    JoinGameS2C,
    GameEventS2C,
    EventType,
    SyncPlayerPositionS2C,
};
use crate::text::{TextComponent, ChatColor, spec_text_json, spec_text_nbt};
use crate::version::ProtocolVersion;
use crate::models::AuthManager;
use crate::common::Profile;

/// A whole outbound frame: the total length as a varint, then the packet id
/// as a varint, then the body. Encryption, when active, is applied to these
/// bytes afterwards, at the socket.
pub open spec fn spec_frame(id: i32, body: Seq<u8>) -> Seq<u8> {
    varint_bytes((varint_bytes(id).len() + body.len()) as i32) + varint_bytes(id) + body
}

/// Frames one packet for the wire.
pub fn frame_packet(id: i32, body: &Vec<u8>) -> (r: Vec<u8>)
    requires
        body@.len() <= 0x7fff_0000,
    ensures
        r@ == spec_frame(id, body@),
{
    let mut inner: Vec<u8> = Vec::new();
    write_varint(&mut inner, id);
    proof {
        crate::utils::lemma_varint_bytes_len(crate::utils::u32_of_i32(id));
    }
    write_bytes(&mut inner, body);
    let mut out: Vec<u8> = Vec::new();
    write_varint(&mut out, inner.len() as i32);
    write_bytes(&mut out, &inner);
    proof {
        assert(out@ =~= spec_frame(id, body@));
    }
    out
}

/// The per-connection protocol state the stage machine drives. The socket,
/// the ciphers and the timers live with the I/O layer; this is everything
/// the protocol decisions depend on.
#[derive(Debug)]
pub struct ConnectionState {
    pub version: ProtocolVersion,
    pub stage: Stage,
    pub username: String,
    pub auth_nonce: Option<Vec<u8>>,
    pub profile: Option<Profile>,
}

/// What the login handler asks the I/O layer to do next.
#[derive(Debug)]
pub enum LoginReply {
    /// Send this one frame and close: the client's version is not served.
    Outdated(Vec<u8>),
    /// Send this frame and await the encryption response.
    Encrypt(Vec<u8>),
}

impl ConnectionState {
    /// A fresh connection: version unknown, stage handshake, no identity.
    pub fn new() -> (r: ConnectionState)
        ensures
            r.version == ProtocolVersion::Unknown,
            r.stage == Stage::Handshake,
            r.username@ == "Offline"@,
            r.auth_nonce is None,
            r.profile is None,
    {
        ConnectionState {
            version: ProtocolVersion::Unknown,
            stage: Stage::Handshake,
            username: <String as StringExecFns>::from_str("Offline"),
            auth_nonce: None,
            profile: None,
        }
    }

    /// The handshake fixes the connection's version and next stage.
    pub fn on_handshake(&mut self, packet: &HandshakeC2S)
        ensures
            final(self).version == packet.version,
            final(self).stage == packet.next_stage,
            final(self).username == old(self).username,
            final(self).auth_nonce == old(self).auth_nonce,
            final(self).profile == old(self).profile,
    {
        self.version = packet.version;
        self.stage = packet.next_stage;
    }

    /// A status request is answered with one status-response frame carrying
    /// the given status JSON.
    pub fn on_status_request(&self, status_json: &String) -> (r: Vec<u8>)
        requires
            status_json@.len() <= 0x7fff_ffff,
            vstd::utf8::encode_utf8(status_json@).len() <= 0x7fff_0000 - 5,
        ensures
            r@ == spec_frame(0, string_bytes(vstd::utf8::encode_utf8(status_json@))),
    {
        let pkt = StatusResponseS2C { response: status_json.clone() };
        let body = pkt.encode(self.version);
        proof {
            crate::utils::lemma_varint_bytes_len(
                crate::utils::u32_of_i32(vstd::utf8::encode_utf8(status_json@).len() as i32),
            );
        }
        frame_packet(pkt.id(self.version), &body)
    }

    /// A ping is answered with one pong frame echoing the payload.
    pub fn on_ping_request(&self, payload: u64) -> (r: Vec<u8>)
        ensures
            r@ == spec_frame(1, crate::utils::u64_be_bytes(payload)),
    {
        let pkt = PingResponseS2C { payload };
        let body = pkt.encode(self.version);
        frame_packet(pkt.id(self.version), &body)
    }

    /// Login start. A client on any version but 1.21 is turned away with
    /// exactly one login-disconnect frame carrying the outdated-client text,
    /// and the state does not change. A 1.21 client's name is recorded, the
    /// nonce is stored, and the one reply is the key-exchange frame carrying
    /// the server's DER public key and that nonce.
    pub fn on_login_hello(
        &mut self,
        packet: &LoginHelloC2S,
        public_key_der: Vec<u8>,
        nonce: Vec<u8>,
    ) -> (r: LoginReply)
        requires
            public_key_der@.len() <= 0x10_0000,
            nonce@.len() == 4,
        ensures
            old(self).version != ProtocolVersion::V1_21 ==> (r matches LoginReply::Outdated(f)
                && f@ == spec_frame(0, string_bytes(vstd::utf8::encode_utf8(outdated_json())))
                && *final(self) == *old(self)),
            old(self).version == ProtocolVersion::V1_21 ==> (r matches LoginReply::Encrypt(f) && f@
                == spec_frame(
                1,
                crate::packets::s2c::login::spec_login_hello_bytes(
                    vstd::utf8::encode_utf8(Seq::<char>::empty()),
                    public_key_der@,
                    nonce@,
                    true,
                    old(self).version,
                ),
            ) && final(self).username == packet.name && (final(self).auth_nonce matches Some(n)
                && n@ == nonce@) && final(self).version == old(self).version && final(self).stage
                == old(self).stage),
    {
        if !matches!(self.version, ProtocolVersion::V1_21) {
            let text = build_outdated_text();
            proof {
                vstd::utf8::is_ascii_chars_encode_utf8(spec_text_json(text));
            }
            let pkt = LoginDisconnectS2C { reason: text };
            let body = pkt.encode(self.version);
            proof {
                crate::utils::lemma_varint_bytes_len(
                    crate::utils::u32_of_i32(
                        vstd::utf8::encode_utf8(outdated_json()).len() as i32,
                    ),
                );
            }
            let f = frame_packet(pkt.id(self.version), &body);
            return LoginReply::Outdated(f);
        }
        self.username = packet.name.clone();
        let nonce_copy = crate::nbt::copy_bytes(&nonce);
        self.auth_nonce = Some(nonce_copy);
        let pkt = LoginHelloS2C {
            server_id: String::new(),
            public_key: public_key_der,
            nonce,
            needs_authentication: true,
        };
        let body = pkt.encode(self.version);
        proof {
            crate::utils::lemma_varint_bytes_len(crate::utils::u32_of_i32(0));
            crate::utils::lemma_varint_bytes_len(
                crate::utils::u32_of_i32(pkt.public_key@.len() as i32),
            );
            crate::utils::lemma_varint_bytes_len(crate::utils::u32_of_i32(pkt.nonce@.len() as i32));
            assert(vstd::utf8::encode_utf8(Seq::<char>::empty()).len() == 0);
            assert(body@.len() <= 0x10_0020);
        }
        let f = frame_packet(pkt.id(self.version), &body);
        LoginReply::Encrypt(f)
    }
}

/// The JSON text a client on an unserved version is turned away with.
pub open spec fn outdated_json() -> Seq<char> {
    "{\"type\":\""@ + crate::text::spec_json_escape("text"@) + "\""@ + ",\"text\":\""@
        + crate::text::spec_json_escape("Outdated client! Please use 1.21"@) + "\""@ + "}"@
}

/// Escaping never grows a string more than sixfold, and keeps ASCII ASCII.
pub proof fn lemma_escape_ascii(s: Seq<char>)
    requires
        vstd::utf8::is_ascii_chars(s),
    ensures
        vstd::utf8::is_ascii_chars(crate::text::spec_json_escape(s)),
        crate::text::spec_json_escape(s).len() <= 6 * s.len(),
    decreases s.len(),
{
    if s.len() == 0 {
    } else {
        assert(vstd::utf8::is_ascii_chars(s.drop_last())) by {
            assert(forall|i: int| 0 <= i < s.len() - 1 ==> s.drop_last()[i] == s[i]);
        }
        lemma_escape_ascii(s.drop_last());
        let e = crate::text::spec_json_escape_char(s.last());
        assert(e.len() <= 6 && vstd::utf8::is_ascii_chars(e)) by {
            assert(s.last() == s[s.len() - 1]);
            assert('\0' <= s.last() <= '\u{7f}');
        }
        assert(vstd::utf8::is_ascii_chars(crate::text::spec_json_escape(s.drop_last()) + e)) by {
            let a = crate::text::spec_json_escape(s.drop_last());
            assert(forall|i: int|
                0 <= i < a.len() + e.len() ==> ('\0' <= #[trigger] (a + e)[i] <= '\u{7f}'));
        }
    }
}

fn build_outdated_text() -> (r: TextComponent)
    ensures
        spec_text_json(r) == outdated_json(),
        vstd::utf8::is_ascii_chars(spec_text_json(r)),
        spec_text_json(r).len() <= 0x1000,
{
    let r = TextComponent::plain("Outdated client! Please use 1.21");
    proof {
        reveal_strlit("Outdated client! Please use 1.21");
        reveal_strlit("text");
        reveal_strlit("{\"type\":\"");
        reveal_strlit("\"");
        reveal_strlit(",\"text\":\"");
        reveal_strlit("}");
        assert(spec_text_json(r) == outdated_json());
        assert(vstd::utf8::is_ascii_chars("text"@));
        assert(vstd::utf8::is_ascii_chars("Outdated client! Please use 1.21"@));
        lemma_escape_ascii("text"@);
        lemma_escape_ascii("Outdated client! Please use 1.21"@);
        let j = outdated_json();
        assert(vstd::utf8::is_ascii_chars(j)) by {
            assert(vstd::utf8::is_ascii_chars("{\"type\":\""@));
            assert(vstd::utf8::is_ascii_chars("\""@));
            assert(vstd::utf8::is_ascii_chars(",\"text\":\""@));
            assert(vstd::utf8::is_ascii_chars("}"@));
            assert(forall|i: int| 0 <= i < j.len() ==> ('\0' <= #[trigger] j[i] <= '\u{7f}'));
        }
        assert(j.len() <= 0x1000);
    }
    r
}

/// The exact UTF-8 bytes of an ASCII literal are its character codes, one
/// byte each.
pub proof fn lemma_ascii_len(s: Seq<char>)
    requires
        vstd::utf8::is_ascii_chars(s),
    ensures
        vstd::utf8::encode_utf8(s).len() == s.len(),
{
    vstd::utf8::is_ascii_chars_encode_utf8(s);
}

impl ConnectionState {
    /// The client's settings arrive during configuration; the server replies
    /// with, in order: its brand as a custom payload, its feature flags, and
    /// (from 1.20.5 on) its known packs — one core pack on 1.21, none on
    /// 1.20.5.
    pub fn on_client_info(&self) -> (r: Vec<Vec<u8>>)
        ensures
            r@.len() == (if self.version.spec_id() >= ProtocolVersion::V1_20_5.spec_id() {
                3int
            } else {
                2int
            }),
            r@[0]@ == spec_frame(
                1,
                crate::packets::s2c::config::sb("minecraft:brand"@) + string_bytes(
                    vstd::utf8::encode_utf8("WorldFreezer"@),
                ),
            ),
            r@[1]@ == spec_frame(
                12,
                varint_bytes(1) + crate::packets::s2c::config::sb("minecraft:vanilla"@),
            ),
            self.version.spec_id() >= ProtocolVersion::V1_21.spec_id() ==> r@[2]@ == spec_frame(
                14,
                varint_bytes(1) + crate::packets::s2c::config::sb("minecraft"@)
                    + crate::packets::s2c::config::sb("core"@) + crate::packets::s2c::config::sb(
                    "1.21"@,
                ),
            ),
            (self.version.spec_id() >= ProtocolVersion::V1_20_5.spec_id()
                && self.version.spec_id() < ProtocolVersion::V1_21.spec_id()) ==> r@[2]@
                == spec_frame(14, varint_bytes(0)),
    {
        proof {
            reveal_strlit("minecraft:brand");
            reveal_strlit("WorldFreezer");
            reveal_strlit("minecraft:vanilla");
            reveal_strlit("minecraft");
            reveal_strlit("core");
            reveal_strlit("1.21");
            lemma_ascii_len("minecraft:brand"@);
            lemma_ascii_len("WorldFreezer"@);
            lemma_ascii_len("minecraft:vanilla"@);
            lemma_ascii_len("minecraft"@);
            lemma_ascii_len("core"@);
            lemma_ascii_len("1.21"@);
            crate::utils::lemma_varint_bytes_len(crate::utils::u32_of_i32(12));
            crate::utils::lemma_varint_bytes_len(crate::utils::u32_of_i32(17));
            crate::utils::lemma_varint_bytes_len(crate::utils::u32_of_i32(1));
            crate::utils::lemma_varint_bytes_len(crate::utils::u32_of_i32(9));
            crate::utils::lemma_varint_bytes_len(crate::utils::u32_of_i32(4));
            crate::utils::lemma_varint_bytes_len(crate::utils::u32_of_i32(0));
        }
        let mut out: Vec<Vec<u8>> = Vec::new();
        let mut brand_payload: Vec<u8> = Vec::new();
        write_string(&mut brand_payload, "WorldFreezer");
        let brand = CustomPayloadS2C {
            key: <String as StringExecFns>::from_str("minecraft:brand"),
            payload: brand_payload,
        };
        let body0 = brand.encode(self.version);
        out.push(frame_packet(brand.id(self.version), &body0));
        let mut feats: Vec<String> = Vec::new();
        feats.push(<String as StringExecFns>::from_str("minecraft:vanilla"));
        let features = FeaturesS2C { features: feats };
        proof {
            assert(features.features@[0]@ == "minecraft:vanilla"@);
        }
        let body1 = features.encode(self.version);
        proof {
            assert(crate::packets::s2c::config::features_bytes(features.features@, 0)
                =~= crate::packets::s2c::config::sb("minecraft:vanilla"@)
                + crate::packets::s2c::config::features_bytes(features.features@, 1));
            assert(crate::packets::s2c::config::features_bytes(features.features@, 1) =~= Seq::<
                u8,
            >::empty());
            assert(body1@ =~= varint_bytes(1) + crate::packets::s2c::config::sb(
                "minecraft:vanilla"@,
            ));
        }
        out.push(frame_packet(features.id(self.version), &body1));
        if self.version.ge(ProtocolVersion::V1_21) {
            let mut packs: Vec<crate::packets::c2s::config::VersionedIdentifier> = Vec::new();
            packs.push(
                crate::packets::c2s::config::VersionedIdentifier {
                    namespace: <String as StringExecFns>::from_str("minecraft"),
                    id: <String as StringExecFns>::from_str("core"),
                    version: <String as StringExecFns>::from_str("1.21"),
                },
            );
            let known = SelectKnownPacksS2C { known_packs: packs };
            let body2 = known.encode(self.version);
            proof {
                assert(crate::packets::s2c::config::packs_bytes(known.known_packs@, 0)
                    =~= crate::packets::s2c::config::sb("minecraft"@)
                    + crate::packets::s2c::config::sb("core"@) + crate::packets::s2c::config::sb(
                    "1.21"@,
                ) + crate::packets::s2c::config::packs_bytes(known.known_packs@, 1));
                assert(crate::packets::s2c::config::packs_bytes(known.known_packs@, 1) =~= Seq::<
                    u8,
                >::empty());
                assert(body2@ =~= varint_bytes(1) + crate::packets::s2c::config::sb("minecraft"@)
                    + crate::packets::s2c::config::sb("core"@) + crate::packets::s2c::config::sb(
                    "1.21"@,
                ));
            }
            out.push(frame_packet(known.id(self.version), &body2));
        } else if self.version.ge(ProtocolVersion::V1_20_5) {
            let known = SelectKnownPacksS2C { known_packs: Vec::new() };
            let body2 = known.encode(self.version);
            proof {
                assert(crate::packets::s2c::config::packs_bytes(known.known_packs@, 0) =~= Seq::<
                    u8,
                >::empty());
                assert(body2@ =~= varint_bytes(0));
            }
            out.push(frame_packet(known.id(self.version), &body2));
        }
        out
    }

    /// The client's known-packs reply triggers the registry push: every
    /// prepared dynamic-registry frame in order, then the pause-screen links
    /// on 1.21 when there are any, then the configuration-finish frame —
    /// and nothing after it.
    pub fn on_known_packs(
        &self,
        registries: &Vec<DynamicRegistriesS2C>,
        links: &Option<LinksS2C>,
    ) -> (r: Vec<Vec<u8>>)
        requires
            forall|i: int|
                0 <= i < registries@.len() ==> {
                    let g = #[trigger] registries@[i];
                    &&& crate::packets::s2c::config::str_fits(g.registry_id@)
                    &&& g.entries@.len() <= 0x7fff_ffff
                    &&& crate::packets::s2c::config::entries_fit(g.entries@)
                    &&& (crate::packets::s2c::config::sb(g.registry_id@) + varint_bytes(
                        g.entries@.len() as i32,
                    ) + crate::packets::s2c::config::entries_bytes(
                        g.entries@,
                        0,
                        self.version,
                    )).len() <= 0x7fff_0000
                },
            links matches Some(l) ==> l.links@.len() <= 0x7fff_ffff
                && crate::packets::s2c::config::links_fit(l.links@) && (varint_bytes(
                l.links@.len() as i32,
            ) + crate::packets::s2c::config::links_bytes(l.links@, 0, self.version)).len()
                <= 0x7fff_0000,
        ensures
            ({
                let with_links = self.version.spec_id() >= ProtocolVersion::V1_21.spec_id()
                    && links is Some;
                &&& r@.len() == registries@.len() + (if with_links {
                    1int
                } else {
                    0int
                }) + 1
                &&& (forall|i: int|
                    0 <= i < registries@.len() ==> (#[trigger] r@[i])@ == spec_frame(
                        7,
                        crate::packets::s2c::config::sb(registries@[i].registry_id@)
                            + varint_bytes(registries@[i].entries@.len() as i32)
                            + crate::packets::s2c::config::entries_bytes(
                            registries@[i].entries@,
                            0,
                            self.version,
                        ),
                    ))
                &&& (with_links ==> (r@[r@.len() - 2])@ == spec_frame(
                    16,
                    varint_bytes(links->0.links@.len() as i32)
                        + crate::packets::s2c::config::links_bytes(
                        links->0.links@,
                        0,
                        self.version,
                    ),
                ))
                &&& (r@[r@.len() - 1])@ == spec_frame(3, Seq::<u8>::empty())
            }),
    {
        let mut out: Vec<Vec<u8>> = Vec::new();
        let mut i: usize = 0;
        while i < registries.len()
            invariant
                i <= registries@.len(),
                out@.len() == i,
                forall|k: int|
                    0 <= k < registries@.len() ==> {
                        let g = #[trigger] registries@[k];
                        &&& crate::packets::s2c::config::str_fits(g.registry_id@)
                        &&& g.entries@.len() <= 0x7fff_ffff
                        &&& crate::packets::s2c::config::entries_fit(g.entries@)
                        &&& (crate::packets::s2c::config::sb(g.registry_id@) + varint_bytes(
                            g.entries@.len() as i32,
                        ) + crate::packets::s2c::config::entries_bytes(
                            g.entries@,
                            0,
                            self.version,
                        )).len() <= 0x7fff_0000
                    },
                forall|k: int|
                    0 <= k < i ==> (#[trigger] out@[k])@ == spec_frame(
                        7,
                        crate::packets::s2c::config::sb(registries@[k].registry_id@)
                            + varint_bytes(registries@[k].entries@.len() as i32)
                            + crate::packets::s2c::config::entries_bytes(
                            registries@[k].entries@,
                            0,
                            self.version,
                        ),
                    ),
            decreases registries@.len() - i,
        {
            let g = &registries[i];
            let body = g.encode(self.version);
            out.push(frame_packet(g.id(self.version), &body));
            i = i + 1;
        }
        if self.version.ge(ProtocolVersion::V1_21) {
            match links {
                Some(l) => {
                    let body = l.encode(self.version);
                    out.push(frame_packet(l.id(self.version), &body));
                },
                None => {},
            }
        }
        let ready = ReadyS2C {  };
        let body = ready.encode(self.version);
        out.push(frame_packet(ready.id(self.version), &body));
        out
    }
}

/// The server's reaction to a chat line while in Play: each carries the
/// styled message to show, and a successful code use also asks the I/O
/// layer to deliver the profile on the code's channel and then kick.
#[derive(Debug)]
pub enum ChatReply {
    NotFound(TextComponent),
    AlreadyUsed(TextComponent),
    Authorized(TextComponent),
}

/// Whether a two-part styled message has the given lead and detail texts
/// and colors, with the lead bold and the detail not.
pub open spec fn styled_pair(
    m: TextComponent,
    lead: Seq<char>,
    lead_color: Seq<char>,
    detail: Seq<char>,
    detail_color: Seq<char>,
) -> bool {
    &&& m.text matches Some(t) && t@ == lead
    &&& m.bold == Some(true)
    &&& m.color matches Some(c) && c@ == lead_color
    &&& m.extra matches Some(e) && e@.len() == 1
    &&& (m.extra->0@[0].text matches Some(t2) && t2@ == detail)
    &&& m.extra->0@[0].bold == Some(false)
    &&& (m.extra->0@[0].color matches Some(c2) && c2@ == detail_color)
}

impl ConnectionState {
    /// A Play-stage chat line is treated as a one-time code. An unknown code
    /// changes nothing and earns the does-not-exist message; a spent code
    /// changes nothing and earns the already-used message; a fresh code is
    /// marked used and earns the success kick.
    pub fn on_chat(&self, manager: &mut AuthManager, message: &String) -> (r: ChatReply)
        ensures
            !old(manager).spec_has(message@) ==> (r matches ChatReply::NotFound(m) && styled_pair(
                m,
                "This code does not exist! "@,
                "red"@,
                "Did you enter it correctly?"@,
                "dark_red"@,
            ) && final(manager).codes() == old(manager).codes()),
            old(manager).spec_has(message@) && old(manager).spec_used(message@) ==> (
            r matches ChatReply::AlreadyUsed(m) && styled_pair(
                m,
                "This code has already been used! "@,
                "red"@,
                "Please generate a new code and try again."@,
                "dark_red"@,
            ) && final(manager).codes() == old(manager).codes()),
            old(manager).spec_has(message@) && !old(manager).spec_used(message@) ==> (
            r matches ChatReply::Authorized(m) && styled_pair(
                m,
                "Authorization successful! "@,
                "green"@,
                "You may return to the webmap."@,
                "gray"@,
            ) && final(manager).codes() == crate::models::spec_mark_used(
                old(manager).codes(),
                message@,
            )),
    {
        proof {
            reveal_strlit("red");
            reveal_strlit("dark_red");
            reveal_strlit("green");
            reveal_strlit("gray");
        }
        if !manager.has_code(message) {
            let mut msg1 = TextComponent::plain("This code does not exist! ");
            msg1.set_bold(true);
            msg1.set_color(ChatColor::Red);
            let mut msg2 = TextComponent::plain("Did you enter it correctly?");
            msg2.set_bold(false);
            msg2.set_color(ChatColor::DarkRed);
            msg1.add_component(msg2);
            ChatReply::NotFound(msg1)
        } else if manager.is_code_used(message) {
            let mut msg1 = TextComponent::plain("This code has already been used! ");
            msg1.set_bold(true);
            msg1.set_color(ChatColor::Red);
            let mut msg2 = TextComponent::plain("Please generate a new code and try again.");
            msg2.set_bold(false);
            msg2.set_color(ChatColor::DarkRed);
            msg1.add_component(msg2);
            ChatReply::AlreadyUsed(msg1)
        } else {
            let used = manager.use_code(message);
            proof {
                assert(used is Some);
            }
            let mut msg1 = TextComponent::plain("Authorization successful! ");
            msg1.set_bold(true);
            msg1.set_color(ChatColor::Green);
            let mut msg2 = TextComponent::plain("You may return to the webmap.");
            msg2.set_bold(false);
            msg2.set_color(ChatColor::Gray);
            msg1.add_component(msg2);
            ChatReply::Authorized(msg1)
        }
    }
}

/// The id bytes a registry entry contributes: its `name` string, or
/// nothing when the entry lacks one.
pub open spec fn spec_entry_id(e: crate::nbt::SpecTag) -> Seq<u8> {
    if e is Compound {
        match crate::nbt::compound_get(e->Compound_0, crate::block::ascii_bytes("name"@)) {
            Some(crate::nbt::SpecTag::String(nb)) => nb,
            _ => Seq::empty(),
        }
    } else {
        Seq::empty()
    }
}

/// The optional element a registry entry carries.
pub open spec fn spec_entry_elem(e: crate::nbt::SpecTag) -> Option<crate::nbt::SpecTag> {
    if e is Compound {
        crate::nbt::compound_get(e->Compound_0, crate::block::ascii_bytes("element"@))
    } else {
        None
    }
}

/// The entry list a registry compound carries under `value`.
pub open spec fn spec_registry_value(reg: crate::nbt::SpecTag) -> Seq<crate::nbt::SpecTag> {
    if reg is Compound {
        match crate::nbt::compound_get(reg->Compound_0, crate::block::ascii_bytes("value"@)) {
            Some(crate::nbt::SpecTag::List(l)) => l,
            _ => Seq::empty(),
        }
    } else {
        Seq::empty()
    }
}

impl ConnectionState {
    /// Splits a registry blob — a compound of registries, each carrying a
    /// `value` list of `{name, element?}` entries — into one
    /// dynamic-registries packet per registry, in the blob's order.
    #[verifier::rlimit(100)]
    #[verifier::spinoff_prover]
    pub fn registries_of_tag(tag: &crate::nbt::Tag) -> (r: Vec<DynamicRegistriesS2C>)
        requires
            tag is Compound,
        ensures
            ({
                let regs = crate::nbt::tag_view(*tag)->Compound_0;
                &&& r@.len() == regs.len()
                &&& (forall|i: int|
                    0 <= i < regs.len() ==> {
                        let g = #[trigger] r@[i];
                        let entries = spec_registry_value(regs[i].1);
                        &&& g.registry_id@ == crate::utils::lossy_utf8_of(regs[i].0)
                        &&& g.entries@.len() == entries.len()
                        &&& (forall|j: int|
                            0 <= j < entries.len() ==> {
                                let e = #[trigger] g.entries@[j];
                                &&& e.id@ == crate::utils::lossy_utf8_of(
                                    spec_entry_id(entries[j]),
                                )
                                &&& (match spec_entry_elem(entries[j]) {
                                    None => e.data is None,
                                    Some(d) => (e.data matches Some(t) && crate::nbt::tag_view(t)
                                        == d),
                                })
                            })
                    })
            }),
    {
        proof {
            reveal_strlit("name");
            reveal_strlit("element");
            reveal_strlit("value");
            assert(vstd::string::is_ascii("name"));
            assert(vstd::string::is_ascii("element"));
            assert(vstd::string::is_ascii("value"));
            vstd::string::is_ascii_spec_bytes("name");
            vstd::string::is_ascii_spec_bytes("element");
            vstd::string::is_ascii_spec_bytes("value");
            assert("name".spec_bytes() =~= crate::block::ascii_bytes("name"@));
            assert("element".spec_bytes() =~= crate::block::ascii_bytes("element"@));
            assert("value".spec_bytes() =~= crate::block::ascii_bytes("value"@));
        }
        let ghost regs = crate::nbt::tag_view(*tag)->Compound_0;
        let mut out: Vec<DynamicRegistriesS2C> = Vec::new();
        let v = match tag {
            crate::nbt::Tag::Compound(v) => v,
            _ => {
                proof {
                    assert(false);
                }
                return Vec::new();
            },
        };
        proof {
            assert(regs =~= crate::nbt::entries_view(v@));
        }
        let mut i: usize = 0;
        while i < v.len()
            invariant
                i <= v@.len(),
                regs == crate::nbt::entries_view(v@),
                regs.len() == v@.len(),
                "name".spec_bytes() == crate::block::ascii_bytes("name"@),
                "element".spec_bytes() == crate::block::ascii_bytes("element"@),
                "value".spec_bytes() == crate::block::ascii_bytes("value"@),
                out@.len() == i,
                forall|k: int|
                    0 <= k < i ==> {
                        let g = #[trigger] out@[k];
                        let entries = spec_registry_value(regs[k].1);
                        &&& g.registry_id@ == crate::utils::lossy_utf8_of(regs[k].0)
                        &&& g.entries@.len() == entries.len()
                        &&& (forall|j: int|
                            0 <= j < entries.len() ==> {
                                let e = #[trigger] g.entries@[j];
                                &&& e.id@ == crate::utils::lossy_utf8_of(
                                    spec_entry_id(entries[j]),
                                )
                                &&& (match spec_entry_elem(entries[j]) {
                                    None => e.data is None,
                                    Some(d) => (e.data matches Some(t) && crate::nbt::tag_view(t)
                                        == d),
                                })
                            })
                    },
            decreases v@.len() - i,
        {
            let reg = &v[i].1;
            let registry_id = crate::utils::utf8_lossy(&v[i].0);
            let mut entries: Vec<RegistryEntry> = Vec::new();
            let ghost evs = spec_registry_value(regs[i as int].1);
            match reg.get("value") {
                Ok(value) => {
                    match value {
                        crate::nbt::Tag::List(items) => {
                            proof {
                                assert(crate::nbt::tag_view(*value)->List_0 =~= crate::nbt::tags_view(
                                    items@,
                                ));
                                assert(evs =~= crate::nbt::tags_view(items@));
                            }
                            let mut j: usize = 0;
                            while j < items.len()
                                invariant
                                    j <= items@.len(),
                                    evs == crate::nbt::tags_view(items@),
                                    evs.len() == items@.len(),
                                    "name".spec_bytes() == crate::block::ascii_bytes("name"@),
                                    "element".spec_bytes() == crate::block::ascii_bytes(
                                        "element"@,
                                    ),
                                    entries@.len() == j,
                                    forall|t: int|
                                        0 <= t < j ==> {
                                            let e = #[trigger] entries@[t];
                                            &&& e.id@ == crate::utils::lossy_utf8_of(
                                                spec_entry_id(evs[t]),
                                            )
                                            &&& (match spec_entry_elem(evs[t]) {
                                                None => e.data is None,
                                                Some(d) => (e.data matches Some(g)
                                                    && crate::nbt::tag_view(g) == d),
                                            })
                                        },
                                decreases items@.len() - j,
                            {
                                let entry = &items[j];
                                let id_bytes: Vec<u8> = match entry.get("name") {
                                    Ok(n) => {
                                        match n {
                                            crate::nbt::Tag::String(nb) => crate::nbt::copy_bytes(
                                                nb,
                                            ),
                                            _ => Vec::new(),
                                        }
                                    },
                                    Err(_) => Vec::new(),
                                };
                                proof {
                                    assert(id_bytes@ =~= spec_entry_id(evs[j as int]));
                                }
                                let data: Option<crate::nbt::Tag> = match entry.get("element") {
                                    Ok(d) => Some(d.deep_clone()),
                                    Err(_) => None,
                                };
                                entries.push(
                                    RegistryEntry { id: crate::utils::utf8_lossy(&id_bytes), data },
                                );
                                j = j + 1;
                            }
                        },
                        _ => {
                            proof {
                                assert(evs =~= Seq::<crate::nbt::SpecTag>::empty());
                            }
                        },
                    }
                },
                Err(_) => {
                    proof {
                        assert(evs =~= Seq::<crate::nbt::SpecTag>::empty());
                    }
                },
            }
            out.push(DynamicRegistriesS2C { registry_id, entries });
            i = i + 1;
        }
        out
    }
}

/// Relies on sha1::Sha1 through the Digest trait: the 20-byte digest is a
/// function of the input bytes alone.
pub uninterp spec fn sha1_of(data: Seq<u8>) -> Seq<u8>;

#[verifier::external_body]
fn sha1_digest(data: &Vec<u8>) -> (r: Vec<u8>)
    ensures
        r@ == sha1_of(data@),
        r@.len() == 20,
{
    let mut sha = <sha1::Sha1 as sha1::Digest>::new();
    sha1::Digest::update(&mut sha, &data[..]);
    sha1::Digest::finalize(sha).to_vec()
}

/// The two's-complement negation of a byte string: each byte is inverted,
/// and one is added, the carry rippling over the trailing zero bytes.
pub open spec fn spec_twos_neg(bs: Seq<u8>) -> Seq<u8> {
    Seq::new(
        bs.len(),
        |i: int|
            if forall|j: int| i < j < bs.len() ==> bs[j] == 0 {
                ((0x100 - bs[i]) % 0x100) as u8
            } else {
                (0xff - bs[i]) as u8
            },
    )
}

/// The index of the first non-zero byte, or the length when all are zero.
pub open spec fn spec_first_nonzero(bs: Seq<u8>, i: int) -> int
    decreases bs.len() - i,
{
    if i < 0 || i >= bs.len() {
        bs.len() as int
    } else if bs[i] != 0 {
        i
    } else {
        spec_first_nonzero(bs, i + 1)
    }
}

/// The hex digits of the bytes from index `i` on, two per byte.
pub open spec fn spec_bytes_hex(bs: Seq<u8>, i: int) -> Seq<char>
    decreases bs.len() - i,
{
    if i < 0 || i >= bs.len() {
        Seq::empty()
    } else {
        crate::text::spec_hex_byte(bs[i]) + spec_bytes_hex(bs, i + 1)
    }
}

/// A byte string rendered as a signed two's-complement hexadecimal number,
/// the session service's peculiar digest form: a minus sign when the top
/// bit is set (the magnitude then being the two's-complement negation),
/// then the hex digits with leading zeros stripped, or a single zero.
pub open spec fn spec_signed_hex(bs: Seq<u8>) -> Seq<char> {
    let neg = bs.len() > 0 && bs[0] >= 0x80;
    let mag = if neg {
        spec_twos_neg(bs)
    } else {
        bs
    };
    let i0 = spec_first_nonzero(mag, 0);
    let digits = if i0 >= mag.len() {
        seq!['0']
    } else if mag[i0] < 16 {
        seq![crate::text::spec_hex_char(mag[i0] as int)] + spec_bytes_hex(mag, i0 + 1)
    } else {
        spec_bytes_hex(mag, i0)
    };
    if neg {
        seq!['-'] + digits
    } else {
        digits
    }
}

/// Renders a digest as the signed two's-complement hex string the session
/// service expects.
#[verifier::rlimit(100)]
#[verifier::spinoff_prover]
pub fn sha_digest(digest: &Vec<u8>) -> (r: String)
    ensures
        r@ == spec_signed_hex(digest@),
{
    proof {
        reveal_strlit("-");
        reveal_strlit("0");
    }
    let neg = digest.len() > 0 && digest[0] >= 0x80;
    let mag: Vec<u8> = if neg {
        let mut out: Vec<u8> = Vec::new();
        let mut carry_zone = true;
        let mut i: usize = digest.len();
        let mut rev: Vec<u8> = Vec::new();
        while i > 0
            invariant
                i <= digest@.len(),
                rev@.len() == digest@.len() - i,
                carry_zone == (forall|j: int| i <= j < digest@.len() ==> digest@[j] == 0),
                forall|k: int|
                    0 <= k < rev@.len() ==> rev@[k] == spec_twos_neg(digest@)[
                        digest@.len() - 1 - k
                    ],
            decreases i,
        {
            i = i - 1;
            let b = digest[i];
            if carry_zone {
                rev.push((((0x100 - (b as u16)) % 0x100) as u8));
                if b != 0 {
                    carry_zone = false;
                }
            } else {
                rev.push(0xff - b);
            }
            proof {
                assert(rev@[rev@.len() - 1] == spec_twos_neg(digest@)[i as int]);
            }
        }
        let mut k: usize = rev.len();
        while k > 0
            invariant
                k <= rev@.len(),
                rev@.len() == digest@.len(),
                forall|t: int|
                    0 <= t < rev@.len() ==> rev@[t] == spec_twos_neg(digest@)[
                        digest@.len() - 1 - t
                    ],
                out@.len() == rev@.len() - k,
                forall|t: int|
                    0 <= t < out@.len() ==> out@[t] == spec_twos_neg(digest@)[t],
            decreases k,
        {
            k = k - 1;
            out.push(rev[k]);
        }
        proof {
            assert(out@ =~= spec_twos_neg(digest@));
        }
        out
    } else {
        crate::nbt::copy_bytes(digest)
    };
    proof {
        assert(mag@ == (if neg {
            spec_twos_neg(digest@)
        } else {
            digest@
        }));
    }
    // find the first non-zero byte
    let mut i0: usize = 0;
    while i0 < mag.len() && mag[i0] == 0
        invariant
            i0 <= mag@.len(),
            forall|j: int| 0 <= j < i0 ==> mag@[j] == 0,
            spec_first_nonzero(mag@, 0) == spec_first_nonzero(mag@, i0 as int),
        decreases mag@.len() - i0,
    {
        i0 = i0 + 1;
    }
    proof {
        assert(spec_first_nonzero(mag@, 0) == i0);
    }
    let mut s = String::new();
    if neg {
        s.append("-");
    }
    if i0 == mag.len() {
        s.append("0");
        proof {
            assert(s@ =~= spec_signed_hex(digest@));
        }
        return s;
    }
    let head = mag[i0];
    let mut next = i0;
    if head < 16 {
        s.append(crate::text::hex_digit_pub(head as u32));
        next = i0 + 1;
    }
    let ghost base = s@;
    let mut j: usize = next;
    while j < mag.len()
        invariant
            next <= j <= mag@.len(),
            s@ + spec_bytes_hex(mag@, j as int) == base + spec_bytes_hex(mag@, next as int),
        decreases mag@.len() - j,
    {
        let ghost pre = s@;
        crate::text::append_hex_byte(&mut s, mag[j]);
        proof {
            assert(s@ + spec_bytes_hex(mag@, j + 1) =~= pre + spec_bytes_hex(mag@, j as int));
        }
        j = j + 1;
    }
    proof {
        assert(spec_bytes_hex(mag@, mag@.len() as int) =~= Seq::<char>::empty());
        assert(s@ =~= base + spec_bytes_hex(mag@, next as int));
        assert(s@ =~= spec_signed_hex(digest@));
    }
    s
}

/// The session hash of a login: the signed hex form of the SHA-1 over the
/// shared secret and the server's DER public key.
pub fn session_hash(secret: &Vec<u8>, public_key_der: &Vec<u8>) -> (r: String)
    ensures
        r@ == spec_signed_hex(sha1_of(secret@ + public_key_der@)),
{
    let mut data: Vec<u8> = Vec::new();
    crate::utils::write_bytes(&mut data, secret);
    crate::utils::write_bytes(&mut data, public_key_der);
    proof {
        assert(data@ =~= secret@ + public_key_der@);
    }
    let digest = sha1_digest(&data);
    sha_digest(&digest)
}

impl ConnectionState {
    /// The client's configuration acknowledgement moves the connection to
    /// Play; the server replies, in order, with the join structure, the
    /// initial-chunks-coming game event from 1.20.4 on, and the initial
    /// position sync placing the player at height 128.
    #[verifier::rlimit(100)]
    #[verifier::spinoff_prover]
    pub fn on_config_ready(&mut self, join: &JoinGameS2C, y_bits: u64) -> (r: Vec<Vec<u8>>)
        requires
            crate::packets::s2c::play::join_game_fits(join),
            crate::packets::s2c::play::spec_join_game_bytes(join, old(self).version).len()
                <= 0x7fff_0000,
        ensures
            final(self).stage == Stage::Play,
            final(self).version == old(self).version,
            final(self).username == old(self).username,
            final(self).auth_nonce == old(self).auth_nonce,
            final(self).profile == old(self).profile,
            ({
                let v = old(self).version;
                let with_event = v.spec_id() >= ProtocolVersion::V1_20_4.spec_id();
                &&& r@.len() == (if with_event {
                    3int
                } else {
                    2int
                })
                &&& r@[0]@ == spec_frame(
                    crate::packets::s2c::play::spec_join_game_id(v),
                    crate::packets::s2c::play::spec_join_game_bytes(join, v),
                )
                &&& (with_event ==> r@[1]@ == spec_frame(
                    crate::packets::s2c::play::spec_game_event_id(v),
                    seq![
                        crate::packets::s2c::play::spec_event_id(EventType::InitialChunksComing),
                    ] + crate::utils::u32_be_bytes(0),
                ))
                &&& r@[r@.len() - 1]@ == spec_frame(
                    crate::packets::s2c::play::spec_sync_pos_id(v),
                    crate::utils::u64_be_bytes(0) + crate::utils::u64_be_bytes(y_bits)
                        + crate::utils::u64_be_bytes(0) + crate::utils::u32_be_bytes(0)
                        + crate::utils::u32_be_bytes(0) + seq![0u8] + varint_bytes(0) + (
                    if v.spec_id() >= ProtocolVersion::V1_17.spec_id() && v.spec_id()
                        < ProtocolVersion::V1_19_4.spec_id() {
                        seq![crate::utils::bool_byte(true)]
                    } else {
                        Seq::<u8>::empty()
                    }),
                )
            }),
    {
        self.stage = Stage::Play;
        let v = self.version;
        let mut out: Vec<Vec<u8>> = Vec::new();
        out.push(join_frame(join, v));
        if v.ge(ProtocolVersion::V1_20_4) {
            let ev = GameEventS2C { event: EventType::InitialChunksComing, value_bits: 0 };
            let b = ev.encode(v);
            out.push(frame_packet(ev.id(v), &b));
        }
        let pos = SyncPlayerPositionS2C {
            x_bits: 0,
            y_bits,
            z_bits: 0,
            yaw_bits: 0,
            pitch_bits: 0,
            flags: 0,
            teleport_id: 0,
            dismount: true,
        };
        let b = pos.encode(v);
        out.push(frame_packet(pos.id(v), &b));
        out
    }
}

/// Frames a join packet.
fn join_frame(join: &JoinGameS2C, v: ProtocolVersion) -> (r: Vec<u8>)
    requires
        crate::packets::s2c::play::join_game_fits(join),
        crate::packets::s2c::play::spec_join_game_bytes(join, v).len() <= 0x7fff_0000,
    ensures
        r@ == spec_frame(
            crate::packets::s2c::play::spec_join_game_id(v),
            crate::packets::s2c::play::spec_join_game_bytes(join, v),
        ),
{
    let body = join.encode(v);
    frame_packet(join.id(v), &body)
}

} // verus!
