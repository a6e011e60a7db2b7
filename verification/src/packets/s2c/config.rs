use vstd::prelude::*;

verus! {

use vstd::string::StringSliceAdditionalSpecFns;
use crate::utils::{
    write_string,
    write_varint,
    write_bytes,
    write_bool,
    write_u8,
    write_u32,
    write_u64,
    string_bytes,
    varint_bytes,
    u32_be_bytes,
    u64_be_bytes,
    bool_byte,
};
use crate::nbt::{Tag, tag_view, wf_tag, spec_serialized};
use crate::text::{TextComponent, spec_text_json, spec_text_nbt};
use crate::version::ProtocolVersion;

/// Whether a string fits a length-prefixed wire field.
pub open spec fn str_fits(s: Seq<char>) -> bool {
    s.len() <= 0x7fff_ffff && vstd::utf8::encode_utf8(s).len() <= 0x7fff_ffff
}

/// The wire bytes of a string value.
pub open spec fn sb(s: Seq<char>) -> Seq<u8> {
    string_bytes(vstd::utf8::encode_utf8(s))
}

/// A request for a stored cookie.
#[derive(Debug)]
pub struct CookieRequestS2C {
    pub key: String,
}

impl CookieRequestS2C {
    pub fn encode(&self, _v: ProtocolVersion) -> (r: Vec<u8>)
        requires
            str_fits(self.key@),
        ensures
            r@ == sb(self.key@),
    {
        let mut buf: Vec<u8> = Vec::new();
        write_string(&mut buf, self.key.as_str());
        buf
    }

    pub fn id(&self, _v: ProtocolVersion) -> (r: i32)
        ensures
            r == 0,
    {
        0
    }
}

/// A custom-payload message on a named channel.
#[derive(Debug)]
pub struct CustomPayloadS2C {
    pub key: String,
    pub payload: Vec<u8>,
}

impl CustomPayloadS2C {
    pub fn encode(&self, _v: ProtocolVersion) -> (r: Vec<u8>)
        requires
            str_fits(self.key@),
        ensures
            r@ == sb(self.key@) + self.payload@,
    {
        let mut buf: Vec<u8> = Vec::new();
        write_string(&mut buf, self.key.as_str());
        write_bytes(&mut buf, &self.payload);
        buf
    }

    pub fn id(&self, _v: ProtocolVersion) -> (r: i32)
        ensures
            r == 1,
    {
        1
    }
}

/// A configuration-stage disconnect carrying the reason as JSON chat text.
#[derive(Debug)]
pub struct ConfigDisconnectS2C {
    pub reason: TextComponent,
}

impl ConfigDisconnectS2C {
    pub fn encode(&self, _v: ProtocolVersion) -> (r: Vec<u8>)
        requires
            str_fits(spec_text_json(self.reason)),
        ensures
            r@ == sb(spec_text_json(self.reason)),
    {
        let json = self.reason.to_json();
        let mut buf: Vec<u8> = Vec::new();
        write_string(&mut buf, json.as_str());
        buf
    }

    pub fn id(&self, _v: ProtocolVersion) -> (r: i32)
        ensures
            r == 2,
    {
        2
    }
}

/// The server's announcement that configuration is finished.
#[derive(Debug)]
pub struct ReadyS2C {}

impl ReadyS2C {
    pub fn encode(&self, _v: ProtocolVersion) -> (r: Vec<u8>)
        ensures
            r@ == Seq::<u8>::empty(),
    {
        let buf: Vec<u8> = Vec::new();
        proof {
            assert(buf@ =~= Seq::<u8>::empty());
        }
        buf
    }

    pub fn id(&self, _v: ProtocolVersion) -> (r: i32)
        ensures
            r == 3,
    {
        3
    }
}

/// A keep-alive probe during configuration.
#[derive(Debug)]
pub struct KeepAliveS2C {
    pub payload: u64,
}

impl KeepAliveS2C {
    pub fn encode(&self, _v: ProtocolVersion) -> (r: Vec<u8>)
        ensures
            r@ == u64_be_bytes(self.payload),
    {
        let mut buf: Vec<u8> = Vec::new();
        write_u64(&mut buf, self.payload);
        buf
    }

    pub fn id(&self, _v: ProtocolVersion) -> (r: i32)
        ensures
            r == 4,
    {
        4
    }
}

/// A ping probe during configuration.
#[derive(Debug)]
pub struct PingS2C {
    pub parameter: u32,
}

impl PingS2C {
    pub fn encode(&self, _v: ProtocolVersion) -> (r: Vec<u8>)
        ensures
            r@ == u32_be_bytes(self.parameter),
    {
        let mut buf: Vec<u8> = Vec::new();
        write_u32(&mut buf, self.parameter);
        buf
    }

    pub fn id(&self, _v: ProtocolVersion) -> (r: i32)
        ensures
            r == 5,
    {
        5
    }
}

/// The order to clear the client's chat history.
#[derive(Debug)]
pub struct ResetChatS2C {}

impl ResetChatS2C {
    pub fn encode(&self, _v: ProtocolVersion) -> (r: Vec<u8>)
        ensures
            r@ == Seq::<u8>::empty(),
    {
        let buf: Vec<u8> = Vec::new();
        proof {
            assert(buf@ =~= Seq::<u8>::empty());
        }
        buf
    }

    pub fn id(&self, _v: ProtocolVersion) -> (r: i32)
        ensures
            r == 6,
    {
        6
    }
}

/// One entry of a dynamic registry: its id, and optionally its element as
/// a serialized tag.
#[derive(Debug)]
pub struct RegistryEntry {
    pub id: String,
    pub data: Option<Tag>,
}

/// A dynamic-registry synchronization packet: the registry id and its
/// entries.
#[derive(Debug)]
pub struct DynamicRegistriesS2C {
    pub registry_id: String,
    pub entries: Vec<RegistryEntry>,
}

/// The serialized registry entries from index `i` on.
pub open spec fn entries_bytes(es: Seq<RegistryEntry>, i: int, v: ProtocolVersion) -> Seq<u8>
    decreases es.len() - i,
{
    if i < 0 || i >= es.len() {
        Seq::empty()
    } else {
        sb(es[i].id@) + (match es[i].data {
            Some(d) => seq![1u8] + spec_serialized(
                tag_view(d),
                v.spec_id() >= ProtocolVersion::V1_20_2.spec_id(),
            ),
            None => seq![0u8],
        }) + entries_bytes(es, i + 1, v)
    }
}

/// Whether every entry's strings and tags fit the wire.
pub open spec fn entries_fit(es: Seq<RegistryEntry>) -> bool {
    forall|i: int|
        0 <= i < es.len() ==> str_fits((#[trigger] es[i]).id@) && (es[i].data matches Some(d)
            ==> wf_tag(tag_view(d)))
}

impl DynamicRegistriesS2C {
    pub fn encode(&self, v: ProtocolVersion) -> (r: Vec<u8>)
        requires
            str_fits(self.registry_id@),
            self.entries@.len() <= 0x7fff_ffff,
            entries_fit(self.entries@),
        ensures
            r@ == sb(self.registry_id@) + varint_bytes(self.entries@.len() as i32) + entries_bytes(
                self.entries@,
                0,
                v,
            ),
    {
        let mut buf: Vec<u8> = Vec::new();
        write_string(&mut buf, self.registry_id.as_str());
        write_varint(&mut buf, self.entries.len() as i32);
        let ghost base = buf@;
        let network = v.ge(ProtocolVersion::V1_20_2);
        let mut i: usize = 0;
        while i < self.entries.len()
            invariant
                i <= self.entries@.len(),
                entries_fit(self.entries@),
                network == (v.spec_id() >= ProtocolVersion::V1_20_2.spec_id()),
                buf@ + entries_bytes(self.entries@, i as int, v) == base + entries_bytes(
                    self.entries@,
                    0,
                    v,
                ),
            decreases self.entries@.len() - i,
        {
            let ghost pre = buf@;
            let e = &self.entries[i];
            write_string(&mut buf, e.id.as_str());
            match &e.data {
                Some(d) => {
                    write_bool(&mut buf, true);
                    d.serialize(&mut buf, network);
                },
                None => {
                    write_bool(&mut buf, false);
                },
            }
            proof {
                assert(buf@ + entries_bytes(self.entries@, i + 1, v) =~= pre + entries_bytes(
                    self.entries@,
                    i as int,
                    v,
                ));
            }
            i = i + 1;
        }
        proof {
            assert(entries_bytes(self.entries@, self.entries@.len() as int, v) =~= Seq::<
                u8,
            >::empty());
            assert(buf@ =~= base + entries_bytes(self.entries@, 0, v));
        }
        buf
    }

    pub fn id(&self, _v: ProtocolVersion) -> (r: i32)
        ensures
            r == 7,
    {
        7
    }
}

/// The order to drop one or all offered resource packs.
#[derive(Debug)]
pub struct RemoveResourcePackS2C {
    pub id: Option<String>,
}

impl RemoveResourcePackS2C {
    pub fn encode(&self, _v: ProtocolVersion) -> (r: Vec<u8>)
        requires
            self.id matches Some(s) ==> str_fits(s@),
        ensures
            r@ == (match self.id {
                Some(s) => seq![1u8] + sb(s@),
                None => seq![0u8],
            }),
    {
        let mut buf: Vec<u8> = Vec::new();
        match &self.id {
            Some(s) => {
                write_bool(&mut buf, true);
                write_string(&mut buf, s.as_str());
            },
            None => {
                write_bool(&mut buf, false);
            },
        }
        proof {
            assert(buf@ =~= (match self.id {
                Some(s) => seq![1u8] + sb(s@),
                None => seq![0u8],
            }));
        }
        buf
    }

    pub fn id(&self, _v: ProtocolVersion) -> (r: i32)
        ensures
            r == 8,
    {
        8
    }
}

/// The offer of a resource pack to download.
#[derive(Debug)]
pub struct SendResourcePackS2C {
    pub url: String,
    pub hash: String,
    pub required: bool,
    pub prompt: Option<String>,
}

impl SendResourcePackS2C {
    pub fn encode(&self, _v: ProtocolVersion) -> (r: Vec<u8>)
        requires
            str_fits(self.url@),
            str_fits(self.hash@),
            self.prompt matches Some(p) ==> str_fits(p@),
        ensures
            r@ == sb(self.url@) + sb(self.hash@) + seq![bool_byte(self.required)] + (
            match self.prompt {
                Some(p) => seq![1u8] + sb(p@),
                None => seq![0u8],
            }),
    {
        let mut buf: Vec<u8> = Vec::new();
        write_string(&mut buf, self.url.as_str());
        write_string(&mut buf, self.hash.as_str());
        write_bool(&mut buf, self.required);
        match &self.prompt {
            Some(p) => {
                write_bool(&mut buf, true);
                write_string(&mut buf, p.as_str());
            },
            None => {
                write_bool(&mut buf, false);
            },
        }
        proof {
            assert(buf@ =~= sb(self.url@) + sb(self.hash@) + seq![bool_byte(self.required)] + (
            match self.prompt {
                Some(p) => seq![1u8] + sb(p@),
                None => seq![0u8],
            }));
        }
        buf
    }

    pub fn id(&self, _v: ProtocolVersion) -> (r: i32)
        ensures
            r == 9,
    {
        9
    }
}

/// The order to store a cookie.
#[derive(Debug)]
pub struct StoreCookieS2C {
    pub key: String,
    pub payload: Vec<u8>,
}

impl StoreCookieS2C {
    pub fn encode(&self, _v: ProtocolVersion) -> (r: Vec<u8>)
        requires
            str_fits(self.key@),
        ensures
            r@ == sb(self.key@) + self.payload@,
    {
        let mut buf: Vec<u8> = Vec::new();
        write_string(&mut buf, self.key.as_str());
        write_bytes(&mut buf, &self.payload);
        buf
    }

    pub fn id(&self, _v: ProtocolVersion) -> (r: i32)
        ensures
            r == 10,
    {
        10
    }
}

/// The order to reconnect to another host.
#[derive(Debug)]
pub struct ServerTransferS2C {
    pub host: String,
    pub port: u16,
}

impl ServerTransferS2C {
    pub fn encode(&self, _v: ProtocolVersion) -> (r: Vec<u8>)
        requires
            str_fits(self.host@),
        ensures
            r@ == sb(self.host@) + varint_bytes(self.port as i32),
    {
        let mut buf: Vec<u8> = Vec::new();
        write_string(&mut buf, self.host.as_str());
        write_varint(&mut buf, self.port as i32);
        buf
    }

    pub fn id(&self, _v: ProtocolVersion) -> (r: i32)
        ensures
            r == 11,
    {
        11
    }
}

/// The feature flags the server enables.
#[derive(Debug)]
pub struct FeaturesS2C {
    pub features: Vec<String>,
}

/// The serialized feature names from index `i` on.
pub open spec fn features_bytes(fs: Seq<String>, i: int) -> Seq<u8>
    decreases fs.len() - i,
{
    if i < 0 || i >= fs.len() {
        Seq::empty()
    } else {
        sb(fs[i]@) + features_bytes(fs, i + 1)
    }
}

impl FeaturesS2C {
    pub fn encode(&self, _v: ProtocolVersion) -> (r: Vec<u8>)
        requires
            self.features@.len() <= 0x7fff_ffff,
            forall|i: int| 0 <= i < self.features@.len() ==> str_fits((#[trigger] self.features@[i])@),
        ensures
            r@ == varint_bytes(self.features@.len() as i32) + features_bytes(self.features@, 0),
    {
        let mut buf: Vec<u8> = Vec::new();
        write_varint(&mut buf, self.features.len() as i32);
        let ghost base = buf@;
        let mut i: usize = 0;
        while i < self.features.len()
            invariant
                i <= self.features@.len(),
                forall|k: int|
                    0 <= k < self.features@.len() ==> str_fits((#[trigger] self.features@[k])@),
                buf@ + features_bytes(self.features@, i as int) == base + features_bytes(
                    self.features@,
                    0,
                ),
            decreases self.features@.len() - i,
        {
            let ghost pre = buf@;
            write_string(&mut buf, self.features[i].as_str());
            proof {
                assert(buf@ + features_bytes(self.features@, i + 1) =~= pre + features_bytes(
                    self.features@,
                    i as int,
                ));
            }
            i = i + 1;
        }
        proof {
            assert(features_bytes(self.features@, self.features@.len() as int) =~= Seq::<
                u8,
            >::empty());
            assert(buf@ =~= base + features_bytes(self.features@, 0));
        }
        buf
    }

    pub fn id(&self, _v: ProtocolVersion) -> (r: i32)
        ensures
            r == 12,
    {
        12
    }
}

/// The packs the server offers as already known.
#[derive(Debug)]
pub struct SelectKnownPacksS2C {
    pub known_packs: Vec<crate::packets::c2s::config::VersionedIdentifier>,
}

/// The serialized pack identifiers from index `i` on.
pub open spec fn packs_bytes(
    ps: Seq<crate::packets::c2s::config::VersionedIdentifier>,
    i: int,
) -> Seq<u8>
    decreases ps.len() - i,
{
    if i < 0 || i >= ps.len() {
        Seq::empty()
    } else {
        sb(ps[i].namespace@) + sb(ps[i].id@) + sb(ps[i].version@) + packs_bytes(ps, i + 1)
    }
}

impl SelectKnownPacksS2C {
    pub fn encode(&self, _v: ProtocolVersion) -> (r: Vec<u8>)
        requires
            self.known_packs@.len() <= 0x7fff_ffff,
            forall|i: int|
                0 <= i < self.known_packs@.len() ==> str_fits(
                    (#[trigger] self.known_packs@[i]).namespace@,
                ) && str_fits(self.known_packs@[i].id@) && str_fits(self.known_packs@[i].version@),
        ensures
            r@ == varint_bytes(self.known_packs@.len() as i32) + packs_bytes(self.known_packs@, 0),
    {
        let mut buf: Vec<u8> = Vec::new();
        write_varint(&mut buf, self.known_packs.len() as i32);
        let ghost base = buf@;
        let mut i: usize = 0;
        while i < self.known_packs.len()
            invariant
                i <= self.known_packs@.len(),
                forall|k: int|
                    0 <= k < self.known_packs@.len() ==> str_fits(
                        (#[trigger] self.known_packs@[k]).namespace@,
                    ) && str_fits(self.known_packs@[k].id@) && str_fits(
                        self.known_packs@[k].version@,
                    ),
                buf@ + packs_bytes(self.known_packs@, i as int) == base + packs_bytes(
                    self.known_packs@,
                    0,
                ),
            decreases self.known_packs@.len() - i,
        {
            let ghost pre = buf@;
            let p = &self.known_packs[i];
            write_string(&mut buf, p.namespace.as_str());
            write_string(&mut buf, p.id.as_str());
            write_string(&mut buf, p.version.as_str());
            proof {
                assert(buf@ + packs_bytes(self.known_packs@, i + 1) =~= pre + packs_bytes(
                    self.known_packs@,
                    i as int,
                ));
            }
            i = i + 1;
        }
        proof {
            assert(packs_bytes(self.known_packs@, self.known_packs@.len() as int) =~= Seq::<
                u8,
            >::empty());
            assert(buf@ =~= base + packs_bytes(self.known_packs@, 0));
        }
        buf
    }

    pub fn id(&self, _v: ProtocolVersion) -> (r: i32)
        ensures
            r == 14,
    {
        14
    }
}

/// A labelled link shown on the client's pause screen; this server uses the
/// custom text form only.
#[derive(Debug)]
pub enum LinkLabel {
    BugReport,
    CommunityGuidelines,
    Support,
    Status,
    Feedback,
    Community,
    Website,
    Forums,
    News,
    Announcements,
    Custom(TextComponent),
}

impl LinkLabel {
    /// The built-in label id; custom text is written separately.
    pub fn get_id(&self) -> (r: i32)
        ensures
            r == spec_label_id(*self),
    {
        match self {
            LinkLabel::BugReport => 0,
            LinkLabel::CommunityGuidelines => 1,
            LinkLabel::Support => 2,
            LinkLabel::Status => 3,
            LinkLabel::Feedback => 4,
            LinkLabel::Community => 5,
            LinkLabel::Website => 6,
            LinkLabel::Forums => 7,
            LinkLabel::News => 8,
            LinkLabel::Announcements => 9,
            LinkLabel::Custom(_) => -1,
        }
    }

    /// Writes the label: a custom one as a serialized-tag text component, a
    /// built-in one as its id.
    pub fn write_to(&self, buf: &mut Vec<u8>, v: ProtocolVersion)
        requires
            *self matches LinkLabel::Custom(t) ==> wf_tag(spec_text_nbt(t)),
        ensures
            final(buf)@ == old(buf)@ + spec_label_bytes(*self, v),
    {
        match self {
            LinkLabel::Custom(text) => {
                write_u8(buf, 0);
                let tag = text.to_nbt();
                tag.serialize(buf, v.ge(ProtocolVersion::V1_20_2));
                proof {
                    assert(buf@ =~= old(buf)@ + spec_label_bytes(*self, v));
                }
            },
            _ => {
                write_u8(buf, 1);
                write_varint(buf, self.get_id());
                proof {
                    assert(buf@ =~= old(buf)@ + spec_label_bytes(*self, v));
                }
            },
        }
    }
}

pub open spec fn spec_label_id(l: LinkLabel) -> i32 {
    match l {
        LinkLabel::BugReport => 0,
        LinkLabel::CommunityGuidelines => 1,
        LinkLabel::Support => 2,
        LinkLabel::Status => 3,
        LinkLabel::Feedback => 4,
        LinkLabel::Community => 5,
        LinkLabel::Website => 6,
        LinkLabel::Forums => 7,
        LinkLabel::News => 8,
        LinkLabel::Announcements => 9,
        LinkLabel::Custom(_) => -1i32,
    }
}

pub open spec fn spec_label_bytes(l: LinkLabel, v: ProtocolVersion) -> Seq<u8> {
    match l {
        LinkLabel::Custom(t) => seq![0u8] + spec_serialized(
            spec_text_nbt(t),
            v.spec_id() >= ProtocolVersion::V1_20_2.spec_id(),
        ),
        _ => seq![1u8] + varint_bytes(spec_label_id(l)),
    }
}

/// One pause-screen link.
#[derive(Debug)]
pub struct Link {
    pub label: LinkLabel,
    pub url: String,
}

/// The pause-screen links packet.
#[derive(Debug)]
pub struct LinksS2C {
    pub links: Vec<Link>,
}

/// The serialized links from index `i` on.
pub open spec fn links_bytes(ls: Seq<Link>, i: int, v: ProtocolVersion) -> Seq<u8>
    decreases ls.len() - i,
{
    if i < 0 || i >= ls.len() {
        Seq::empty()
    } else {
        spec_label_bytes(ls[i].label, v) + sb(ls[i].url@) + links_bytes(ls, i + 1, v)
    }
}

pub open spec fn links_fit(ls: Seq<Link>) -> bool {
    forall|i: int|
        0 <= i < ls.len() ==> str_fits((#[trigger] ls[i]).url@) && (ls[i].label matches LinkLabel::Custom(
            t,
        ) ==> wf_tag(spec_text_nbt(t)))
}

impl LinksS2C {
    pub fn encode(&self, v: ProtocolVersion) -> (r: Vec<u8>)
        requires
            self.links@.len() <= 0x7fff_ffff,
            links_fit(self.links@),
        ensures
            r@ == varint_bytes(self.links@.len() as i32) + links_bytes(self.links@, 0, v),
    {
        let mut buf: Vec<u8> = Vec::new();
        write_varint(&mut buf, self.links.len() as i32);
        let ghost base = buf@;
        let mut i: usize = 0;
        while i < self.links.len()
            invariant
                i <= self.links@.len(),
                links_fit(self.links@),
                buf@ + links_bytes(self.links@, i as int, v) == base + links_bytes(
                    self.links@,
                    0,
                    v,
                ),
            decreases self.links@.len() - i,
        {
            let ghost pre = buf@;
            let l = &self.links[i];
            l.label.write_to(&mut buf, v);
            write_string(&mut buf, l.url.as_str());
            proof {
                assert(buf@ + links_bytes(self.links@, i + 1, v) =~= pre + links_bytes(
                    self.links@,
                    i as int,
                    v,
                ));
            }
            i = i + 1;
        }
        proof {
            assert(links_bytes(self.links@, self.links@.len() as int, v) =~= Seq::<u8>::empty());
            assert(buf@ =~= base + links_bytes(self.links@, 0, v));
        }
        buf
    }

    pub fn id(&self, _v: ProtocolVersion) -> (r: i32)
        ensures
            r == 16,
    {
        16
    }
}

} // verus!
