use vstd::prelude::*;

verus! {

use crate::utils::{
    ByteReader,
    CodecError,
    read_varint,
    read_string,
    string_parse,
    varint_parse_at,
    lossy_utf8_of,
    be64_val,
    be32_val,
    i32_of_u32,
};
use crate::common::ClientInfo;
use crate::enums::{Arm, ChatVisibility};
use crate::version::ProtocolVersion;

/// The client's reported settings.
#[derive(Debug)]
pub struct ClientInfoC2S {
    pub client_info: ClientInfo,
}

/// What a client-information parse yields on `s`: the locale bytes, view
/// distance, chat-visibility id, colors flag, skin-parts bitfield, main-arm
/// id, the two remaining flags, and the bytes consumed.
pub open spec fn spec_parse_client_info(s: Seq<u8>) -> Option<
    (Seq<u8>, u8, i32, u8, u8, i32, u8, u8, nat),
> {
    match string_parse(s) {
        None => None,
        Some((lang, n0)) => {
            let r = s.skip(n0 as int);
            if r.len() < 1 {
                None
            } else {
                let vd = r[0];
                match varint_parse_at(r.skip(1), 0) {
                    None => None,
                    Some((cvr, n1)) => {
                        let cv = i32_of_u32((cvr % 0x1_0000_0000) as u32);
                        let r2 = r.skip(1).skip(n1 as int);
                        if r2.len() < 2 {
                            None
                        } else {
                            match varint_parse_at(r2.skip(2), 0) {
                                None => None,
                                Some((armr, n2)) => {
                                    let arm = i32_of_u32((armr % 0x1_0000_0000) as u32);
                                    let r3 = r2.skip(2).skip(n2 as int);
                                    if r3.len() < 2 {
                                        None
                                    } else {
                                        Some(
                                            (
                                                lang,
                                                vd,
                                                cv,
                                                r2[0],
                                                r2[1],
                                                arm,
                                                r3[0],
                                                r3[1],
                                                (n0 + 1 + n1 + 2 + n2 + 2) as nat,
                                            ),
                                        )
                                    }
                                },
                            }
                        }
                    },
                }
            }
        },
    }
}

impl ClientInfoC2S {
    #[verifier::rlimit(100)]
    #[verifier::spinoff_prover]
    pub fn decode(buf: &mut ByteReader) -> (r: Result<ClientInfoC2S, CodecError>)
        requires
            old(buf).wf(),
        ensures
            final(buf).wf(),
            match spec_parse_client_info(old(buf).remaining()) {
                None => r is Err,
                Some((lang, vd, cv, colors, parts, arm, filters, listing, used)) => r is Ok && {
                    let ci = &r->Ok_0.client_info;
                    &&& ci.lang@ == lossy_utf8_of(lang)
                    &&& ci.view_distance == vd
                    &&& ci.chat_visibility == (if cv == 0 {
                        ChatVisibility::Full
                    } else if cv == 1 {
                        ChatVisibility::System
                    } else {
                        ChatVisibility::Hidden
                    })
                    &&& ci.chat_colors_enabled == (colors != 0)
                    &&& ci.player_model_parts == parts
                    &&& ci.main_arm == (if arm == 0 {
                        Arm::Left
                    } else {
                        Arm::Right
                    })
                    &&& ci.filters_text == (filters != 0)
                    &&& ci.allows_server_listing == (listing != 0)
                    &&& final(buf).remaining() == old(buf).remaining().skip(used as int)
                },
            },
    {
        let ghost s = old(buf).remaining();
        let lang = read_string(buf)?;
        let ghost n0 = string_parse(s)->Some_0.1;
        let ghost r = s.skip(n0 as int);
        let view_distance = match buf.get_u8() {
            Ok(v) => v,
            Err(e) => {
                return Err(e);
            },
        };
        proof {
            assert(buf.remaining() =~= r.skip(1));
        }
        let cv = match read_varint(buf) {
            Ok(v) => v,
            Err(e) => {
                return Err(e);
            },
        };
        let ghost n1 = varint_parse_at(r.skip(1), 0)->Some_0.1;
        let ghost r2 = r.skip(1).skip(n1 as int);
        let colors = match buf.get_u8() {
            Ok(v) => v,
            Err(e) => {
                return Err(e);
            },
        };
        let parts = match buf.get_u8() {
            Ok(v) => v,
            Err(e) => {
                return Err(e);
            },
        };
        proof {
            assert(r2.skip(1)[0] == r2[1]);
            assert(buf.remaining() =~= r2.skip(2));
        }
        let arm = match read_varint(buf) {
            Ok(v) => v,
            Err(e) => {
                return Err(e);
            },
        };
        let ghost n2 = varint_parse_at(r2.skip(2), 0)->Some_0.1;
        let ghost r3 = r2.skip(2).skip(n2 as int);
        let filters = match buf.get_u8() {
            Ok(v) => v,
            Err(e) => {
                return Err(e);
            },
        };
        let listing = match buf.get_u8() {
            Ok(v) => v,
            Err(e) => {
                return Err(e);
            },
        };
        proof {
            assert(r3.skip(1)[0] == r3[1]);
            crate::utils::lemma_varint_parse_bounds(r.skip(1), 0);
            crate::utils::lemma_varint_parse_bounds(r2.skip(2), 0);
            assert(buf.remaining() =~= s.skip(n0 as int + 1 + n1 as int + 2 + n2 as int + 2));
        }
        Ok(
            ClientInfoC2S {
                client_info: ClientInfo {
                    lang,
                    view_distance,
                    chat_visibility: ChatVisibility::from_i32(cv),
                    chat_colors_enabled: colors != 0,
                    player_model_parts: parts,
                    main_arm: Arm::from_i32(arm),
                    filters_text: filters != 0,
                    allows_server_listing: listing != 0,
                },
            },
        )
    }

    pub fn id(_v: ProtocolVersion) -> (r: i32)
        ensures
            r == 0,
    {
        0
    }
}

/// A stored-cookie reply during configuration.
#[derive(Debug)]
pub struct CookieResponseC2S {
    pub key: String,
    pub payload: Option<Vec<u8>>,
}

impl CookieResponseC2S {
    pub fn decode(buf: &mut ByteReader) -> (r: Result<CookieResponseC2S, CodecError>)
        requires
            old(buf).wf(),
        ensures
            final(buf).wf(),
            match crate::packets::c2s::login::spec_parse_cookie(old(buf).remaining()) {
                None => r is Err,
                Some((key, payload, used)) => r is Ok && r->Ok_0.key@ == lossy_utf8_of(key) && (
                match payload {
                    None => r->Ok_0.payload is None,
                    Some(pb) => (r->Ok_0.payload matches Some(p) && p@ == pb),
                }) && final(buf).remaining() == old(buf).remaining().skip(used as int),
            },
    {
        let ghost s = old(buf).remaining();
        let key = read_string(buf)?;
        let ghost n0 = string_parse(s)->Some_0.1;
        let has = match buf.get_u8() {
            Ok(b) => b,
            Err(e) => {
                return Err(e);
            },
        };
        let payload = if has != 0 {
            let rest = buf.take_rest();
            proof {
                assert(s.skip(n0 as int).skip(1) =~= s.skip(n0 as int + 1));
                assert(s.skip(s.len() as int) =~= buf.remaining());
            }
            Some(rest)
        } else {
            proof {
                assert(buf.remaining() =~= s.skip(n0 as int + 1));
            }
            None
        };
        Ok(CookieResponseC2S { key, payload })
    }

    pub fn id(_v: ProtocolVersion) -> (r: i32)
        ensures
            r == 1,
    {
        1
    }
}

/// A custom-payload message; the body is everything left in the frame.
#[derive(Debug)]
pub struct CustomPayloadC2S {
    pub key: String,
    pub payload: Vec<u8>,
}

impl CustomPayloadC2S {
    pub fn decode(buf: &mut ByteReader) -> (r: Result<CustomPayloadC2S, CodecError>)
        requires
            old(buf).wf(),
        ensures
            final(buf).wf(),
            match string_parse(old(buf).remaining()) {
                None => r is Err,
                Some((key, n)) => r is Ok && r->Ok_0.key@ == lossy_utf8_of(key)
                    && r->Ok_0.payload@ == old(buf).remaining().skip(n as int)
                    && final(buf).remaining().len() == 0,
            },
    {
        let key = read_string(buf)?;
        let payload = buf.take_rest();
        Ok(CustomPayloadC2S { key, payload })
    }

    pub fn id(_v: ProtocolVersion) -> (r: i32)
        ensures
            r == 2,
    {
        2
    }
}

/// The client's acknowledgement that configuration is finished; receiving it
/// moves the connection to Play.
#[derive(Debug)]
pub struct ReadyC2S {}

impl ReadyC2S {
    pub fn decode(_buf: &mut ByteReader) -> (r: ReadyC2S) {
        ReadyC2S {  }
    }

    pub fn id(_v: ProtocolVersion) -> (r: i32)
        ensures
            r == 3,
    {
        3
    }
}

/// The echo of a keep-alive probe.
#[derive(Debug)]
pub struct KeepAliveC2S {
    pub id: u64,
}

impl KeepAliveC2S {
    pub fn decode(buf: &mut ByteReader) -> (r: Result<KeepAliveC2S, CodecError>)
        requires
            old(buf).wf(),
        ensures
            final(buf).wf(),
            old(buf).remaining().len() >= 8 ==> r is Ok && r->Ok_0.id == be64_val(
                old(buf).remaining().take(8),
            ) && final(buf).remaining() == old(buf).remaining().skip(8),
            old(buf).remaining().len() < 8 ==> r is Err,
    {
        let id = buf.get_u64()?;
        Ok(KeepAliveC2S { id })
    }

    pub fn id(_v: ProtocolVersion) -> (r: i32)
        ensures
            r == 4,
    {
        4
    }
}

/// The echo of a ping probe.
#[derive(Debug)]
pub struct PongC2S {
    pub id: u32,
}

impl PongC2S {
    pub fn decode(buf: &mut ByteReader) -> (r: Result<PongC2S, CodecError>)
        requires
            old(buf).wf(),
        ensures
            final(buf).wf(),
            old(buf).remaining().len() >= 4 ==> r is Ok && r->Ok_0.id == be32_val(
                old(buf).remaining().take(4),
            ) && final(buf).remaining() == old(buf).remaining().skip(4),
            old(buf).remaining().len() < 4 ==> r is Err,
    {
        let id = buf.get_u32()?;
        Ok(PongC2S { id })
    }

    pub fn id(_v: ProtocolVersion) -> (r: i32)
        ensures
            r == 5,
    {
        5
    }
}

/// A client's verdict on a proposed resource pack.
#[derive(Debug, Clone, Copy, PartialEq, Eq, Structural)]
pub enum ResourcePackStatus {
    Success,
    Declined,
    Failed,
    Accepted,
}

impl ResourcePackStatus {
    pub fn from_i32(val: i32) -> (r: ResourcePackStatus)
        ensures
            r == ResourcePackStatus::spec_from_i32(val),
    {
        if val == 0 {
            ResourcePackStatus::Success
        } else if val == 1 {
            ResourcePackStatus::Declined
        } else if val == 3 {
            ResourcePackStatus::Accepted
        } else {
            ResourcePackStatus::Failed
        }
    }

    pub open spec fn spec_from_i32(val: i32) -> ResourcePackStatus {
        if val == 0 {
            ResourcePackStatus::Success
        } else if val == 1 {
            ResourcePackStatus::Declined
        } else if val == 3 {
            ResourcePackStatus::Accepted
        } else {
            ResourcePackStatus::Failed
        }
    }
}

#[derive(Debug)]
pub struct ResourcePackStatusC2S {
    pub status: ResourcePackStatus,
}

impl ResourcePackStatusC2S {
    pub fn decode(buf: &mut ByteReader) -> (r: Result<ResourcePackStatusC2S, CodecError>)
        requires
            old(buf).wf(),
        ensures
            final(buf).wf(),
            match varint_parse_at(old(buf).remaining(), 0) {
                None => r is Err,
                Some((v, n)) => r is Ok && r->Ok_0.status == ResourcePackStatus::spec_from_i32(
                    i32_of_u32((v % 0x1_0000_0000) as u32),
                ) && final(buf).remaining() == old(buf).remaining().skip(n as int),
            },
    {
        let v = read_varint(buf)?;
        Ok(ResourcePackStatusC2S { status: ResourcePackStatus::from_i32(v) })
    }

    pub fn id(_v: ProtocolVersion) -> (r: i32)
        ensures
            r == 6,
    {
        6
    }
}

/// A namespaced, versioned pack identifier.
#[derive(Debug)]
pub struct VersionedIdentifier {
    pub namespace: String,
    pub id: String,
    pub version: String,
}

/// The packs the client already knows, echoed from the server's offer.
#[derive(Debug)]
pub struct SelectKnownPacksC2S {
    pub known_packs: Vec<VersionedIdentifier>,
}

/// `m` pack identifiers, each three strings, from the front of `r`.
pub open spec fn spec_parse_packs(r: Seq<u8>, m: nat) -> Option<
    (Seq<(Seq<u8>, Seq<u8>, Seq<u8>)>, nat),
>
    decreases m,
{
    if m == 0 {
        Some((Seq::empty(), 0 as nat))
    } else {
        match string_parse(r) {
            None => None,
            Some((ns, a)) => {
                match string_parse(r.skip(a as int)) {
                    None => None,
                    Some((idb, b)) => {
                        match string_parse(r.skip(a + b as int)) {
                            None => None,
                            Some((vb, c)) => {
                                match spec_parse_packs(r.skip(a + b + c as int), (m - 1) as nat) {
                                    None => None,
                                    Some((rest, d)) => Some(
                                        (seq![(ns, idb, vb)] + rest, (a + b + c + d) as nat),
                                    ),
                                }
                            },
                        }
                    },
                }
            },
        }
    }
}

/// What a known-packs parse yields on `s`: the pack identifiers and the
/// bytes consumed. A non-positive count reads as zero packs, as a reader
/// that skips the loop leaves it.
pub open spec fn spec_parse_known_packs(s: Seq<u8>) -> Option<
    (Seq<(Seq<u8>, Seq<u8>, Seq<u8>)>, nat),
> {
    match varint_parse_at(s, 0) {
        None => None,
        Some((nr, n0)) => {
            let n = i32_of_u32((nr % 0x1_0000_0000) as u32);
            let m: nat = if n <= 0 {
                0 as nat
            } else {
                n as nat
            };
            match spec_parse_packs(s.skip(n0 as int), m) {
                None => None,
                Some((packs, d)) => Some((packs, (n0 + d) as nat)),
            }
        },
    }
}

/// One pack identifier at the front of `r`: three strings and the bytes
/// consumed.
pub open spec fn spec_parse_pack1(r: Seq<u8>) -> Option<(Seq<u8>, Seq<u8>, Seq<u8>, nat)> {
    match string_parse(r) {
        None => None,
        Some((ns, a)) => {
            match string_parse(r.skip(a as int)) {
                None => None,
                Some((idb, b)) => {
                    match string_parse(r.skip(a as int).skip(b as int)) {
                        None => None,
                        Some((vb, c)) => Some((ns, idb, vb, (a + b + c) as nat)),
                    }
                },
            }
        },
    }
}

/// Reads one pack identifier.
fn read_pack(buf: &mut ByteReader) -> (r: Result<VersionedIdentifier, CodecError>)
    requires
        old(buf).wf(),
    ensures
        final(buf).wf(),
        match spec_parse_pack1(old(buf).remaining()) {
            None => r is Err,
            Some((ns, idb, vb, u)) => r is Ok && r->Ok_0.namespace@ == lossy_utf8_of(ns)
                && r->Ok_0.id@ == lossy_utf8_of(idb) && r->Ok_0.version@ == lossy_utf8_of(vb)
                && final(buf).remaining() == old(buf).remaining().skip(u as int),
        },
{
    let ghost cur = old(buf).remaining();
    let namespace = read_string(buf)?;
    let ghost a = string_parse(cur)->Some_0.1;
    let id = match read_string(buf) {
        Ok(x) => x,
        Err(e) => {
            return Err(e);
        },
    };
    let ghost b = string_parse(cur.skip(a as int))->Some_0.1;
    let version = match read_string(buf) {
        Ok(x) => x,
        Err(e) => {
            return Err(e);
        },
    };
    let ghost c = string_parse(cur.skip(a as int).skip(b as int))->Some_0.1;
    proof {
        assert(buf.remaining() =~= cur.skip(a as int + b as int + c as int));
    }
    Ok(VersionedIdentifier { namespace, id, version })
}

/// One step of the pack-run parse: a run of `m` packs is one pack, then a
/// run of `m - 1`.
pub proof fn lemma_parse_packs_step(r: Seq<u8>, m: nat)
    requires
        m > 0,
    ensures
        spec_parse_packs(r, m) == (match spec_parse_pack1(r) {
            None => None::<(Seq<(Seq<u8>, Seq<u8>, Seq<u8>)>, nat)>,
            Some((ns, idb, vb, u)) => match spec_parse_packs(r.skip(u as int), (m - 1) as nat) {
                None => None::<(Seq<(Seq<u8>, Seq<u8>, Seq<u8>)>, nat)>,
                Some((rest, d)) => Some((seq![(ns, idb, vb)] + rest, (u + d) as nat)),
            },
        }),
{
    if string_parse(r) is Some {
        let (ns, a) = string_parse(r)->Some_0;
        if string_parse(r.skip(a as int)) is Some {
            let (idb, b) = string_parse(r.skip(a as int))->Some_0;
            assert(r.skip(a + b as int) =~= r.skip(a as int).skip(b as int));
            if string_parse(r.skip(a as int).skip(b as int)) is Some {
                let (vb, c) = string_parse(r.skip(a as int).skip(b as int))->Some_0;
                assert(r.skip(a + b + c as int) =~= r.skip(a as int).skip(b as int).skip(c as int));
                assert(r.skip(a as int + b as int + c as int) =~= r.skip(a + b + c as int));
            }
        }
    }
}

/// A successful pack-run parse consumes no more than the buffer holds.
pub proof fn lemma_parse_packs_bounds(r: Seq<u8>, m: nat)
    requires
        spec_parse_packs(r, m) is Some,
    ensures
        spec_parse_packs(r, m)->Some_0.1 <= r.len(),
    decreases m,
{
    if m > 0 {
        let (ns, a) = string_parse(r)->Some_0;
        let (idb, b) = string_parse(r.skip(a as int))->Some_0;
        let (vb, c) = string_parse(r.skip(a as int).skip(b as int))->Some_0;
        assert(r.skip(a + b as int) =~= r.skip(a as int).skip(b as int));
        assert(r.skip(a + b + c as int) =~= r.skip(a as int).skip(b as int).skip(c as int));
        lemma_parse_packs_bounds(r.skip(a + b + c as int), (m - 1) as nat);
    }
}

/// The models of decoded pack identifiers.
pub open spec fn packs_view(ps: Seq<VersionedIdentifier>) -> Seq<(Seq<char>, Seq<char>, Seq<char>)> {
    Seq::new(
        ps.len(),
        |i: int|
            if 0 <= i < ps.len() {
                (ps[i].namespace@, ps[i].id@, ps[i].version@)
            } else {
                (Seq::empty(), Seq::empty(), Seq::empty())
            },
    )
}

impl SelectKnownPacksC2S {
    #[verifier::rlimit(100)]
    #[verifier::spinoff_prover]
    pub fn decode(buf: &mut ByteReader) -> (r: Result<SelectKnownPacksC2S, CodecError>)
        requires
            old(buf).wf(),
        ensures
            final(buf).wf(),
            match spec_parse_known_packs(old(buf).remaining()) {
                None => r is Err,
                Some((packs, used)) => r is Ok && r->Ok_0.known_packs@.len() == packs.len() && (
                forall|i: int|
                    0 <= i < packs.len() ==> {
                        let p = #[trigger] r->Ok_0.known_packs@[i];
                        &&& p.namespace@ == lossy_utf8_of(packs[i].0)
                        &&& p.id@ == lossy_utf8_of(packs[i].1)
                        &&& p.version@ == lossy_utf8_of(packs[i].2)
                    }) && final(buf).remaining() == old(buf).remaining().skip(used as int),
            },
    {
        let ghost s = old(buf).remaining();
        let n = read_varint(buf)?;
        let ghost n0 = varint_parse_at(s, 0)->Some_0.1;
        let ghost r0 = s.skip(n0 as int);
        let ghost m: nat = if n <= 0 {
            0 as nat
        } else {
            n as nat
        };
        let mut packs: Vec<VersionedIdentifier> = Vec::new();
        let mut i: i32 = 0;
        if n <= 0 {
            proof {
                assert(buf.remaining() =~= s.skip(n0 as int));
            }
            return Ok(SelectKnownPacksC2S { known_packs: packs });
        }
        let ghost mut done: Seq<(Seq<u8>, Seq<u8>, Seq<u8>)> = Seq::empty();
        let ghost mut consumed: int = 0;
        proof {
            assert(r0.skip(0) =~= r0);
        }
        proof {
            crate::utils::lemma_varint_parse_bounds(s, 0);
        }
        while i < n
            invariant
                buf.wf(),
                0 <= i <= n,
                0 < n,
                m == n as nat,
                packs@.len() == i,
                done.len() == i,
                0 <= consumed <= r0.len(),
                buf.remaining() == r0.skip(consumed),
                r0 == s.skip(n0 as int),
                n0 <= s.len(),
                s == old(buf).remaining(),
                varint_parse_at(s, 0) is Some,
                varint_parse_at(s, 0)->Some_0.1 == n0,
                i32_of_u32((varint_parse_at(s, 0)->Some_0.0 % 0x1_0000_0000) as u32) == n,
                forall|k: int|
                    0 <= k < i ==> {
                        let p = #[trigger] packs@[k];
                        &&& p.namespace@ == lossy_utf8_of(done[k].0)
                        &&& p.id@ == lossy_utf8_of(done[k].1)
                        &&& p.version@ == lossy_utf8_of(done[k].2)
                    },
                spec_parse_packs(r0, m) == (match spec_parse_packs(
                    buf.remaining(),
                    (m - i) as nat,
                ) {
                    None => None::<(Seq<(Seq<u8>, Seq<u8>, Seq<u8>)>, nat)>,
                    Some((rest, u)) => Some((done + rest, (consumed + u) as nat)),
                }),
            decreases n - i,
        {
            let ghost cur = buf.remaining();
            let pack = match read_pack(buf) {
                Ok(p) => p,
                Err(e) => {
                    proof {
                        lemma_parse_packs_step(cur, (m - i) as nat);
                        assert(spec_parse_packs(cur, (m - i) as nat) is None);
                    }
                    return Err(e);
                },
            };
            proof {
                let (ns, idb, vb, u) = spec_parse_pack1(cur)->Some_0;
                lemma_parse_packs_step(cur, (m - i) as nat);
                assert(buf.remaining() =~= r0.skip(consumed + u));
                if spec_parse_packs(cur.skip(u as int), (m - i - 1) as nat) is Some {
                    let (rest, d) = spec_parse_packs(cur.skip(u as int), (m - i - 1) as nat)
                        ->Some_0;
                    assert(done.push((ns, idb, vb)) + rest =~= done + (seq![(ns, idb, vb)] + rest));
                }
                done = done.push((ns, idb, vb));
                consumed = consumed + u;
            }
            packs.push(pack);
            i = i + 1;
        }
        proof {
            assert(spec_parse_packs(buf.remaining(), 0) == Some::<
                (Seq<(Seq<u8>, Seq<u8>, Seq<u8>)>, nat),
            >((Seq::empty(), 0 as nat)));
            assert(done + Seq::<(Seq<u8>, Seq<u8>, Seq<u8>)>::empty() =~= done);
            assert(spec_parse_packs(r0, m) == Some::<(Seq<(Seq<u8>, Seq<u8>, Seq<u8>)>, nat)>(
                (done, consumed as nat),
            ));
            assert(buf.remaining() =~= s.skip(n0 as int + consumed));
        }
        Ok(SelectKnownPacksC2S { known_packs: packs })
    }

    pub fn id(_v: ProtocolVersion) -> (r: i32)
        ensures
            r == 7,
    {
        7
    }
}

} // verus!
