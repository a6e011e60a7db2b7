use vstd::prelude::*;

verus! {

use vstd::string::StringSliceAdditionalSpecFns;
use crate::utils::{
    write_string,
    write_varint,
    write_bytes,
    write_bool,
    write_uuid,
    string_bytes,
    varint_bytes,
    u128_be_bytes,
    bool_byte,
    CodecError,
};
use crate::common::{Profile, ProfileProperty};
use crate::text::{TextComponent, spec_text_json, spec_hex_byte};
use crate::version::ProtocolVersion;

/// A login-stage disconnect carrying the reason as JSON chat text.
#[derive(Debug)]
pub struct LoginDisconnectS2C {
    pub reason: TextComponent,
}

impl LoginDisconnectS2C {
    /// Writes the JSON form of the reason as one length-prefixed string.
    pub fn encode(&self, _v: ProtocolVersion) -> (r: Vec<u8>)
        requires
            spec_text_json(self.reason).len() <= 0x7fff_ffff,
            vstd::utf8::encode_utf8(spec_text_json(self.reason)).len() <= 0x7fff_ffff,
        ensures
            r@ == string_bytes(vstd::utf8::encode_utf8(spec_text_json(self.reason))),
    {
        let json = self.reason.to_json();
        let mut buf: Vec<u8> = Vec::new();
        write_string(&mut buf, json.as_str());
        buf
    }

    pub fn id(&self, _v: ProtocolVersion) -> (r: i32)
        ensures
            r == 0,
    {
        0
    }
}

/// The server's half of the key exchange: its DER public key, a fresh
/// nonce, and from 1.20.5 the flag asking for session authentication.
#[derive(Debug)]
pub struct LoginHelloS2C {
    pub server_id: String,
    pub public_key: Vec<u8>,
    pub nonce: Vec<u8>,
    pub needs_authentication: bool,
}

/// The bytes of the server's key-exchange packet.
pub open spec fn spec_login_hello_bytes(
    server_id: Seq<u8>,
    key: Seq<u8>,
    nonce: Seq<u8>,
    needs_auth: bool,
    v: ProtocolVersion,
) -> Seq<u8> {
    string_bytes(server_id) + varint_bytes(key.len() as i32) + key + varint_bytes(
        nonce.len() as i32,
    ) + nonce + (if v.spec_id() >= ProtocolVersion::V1_20_5.spec_id() {
        seq![bool_byte(needs_auth)]
    } else {
        Seq::<u8>::empty()
    })
}

impl LoginHelloS2C {
    pub fn encode(&self, v: ProtocolVersion) -> (r: Vec<u8>)
        requires
            self.server_id@.len() <= 0x7fff_ffff,
            vstd::utf8::encode_utf8(self.server_id@).len() <= 0x7fff_ffff,
            self.public_key@.len() <= 0x7fff_ffff,
            self.nonce@.len() <= 0x7fff_ffff,
        ensures
            r@ == spec_login_hello_bytes(
                vstd::utf8::encode_utf8(self.server_id@),
                self.public_key@,
                self.nonce@,
                self.needs_authentication,
                v,
            ),
    {
        let mut buf: Vec<u8> = Vec::new();
        write_string(&mut buf, self.server_id.as_str());
        write_varint(&mut buf, self.public_key.len() as i32);
        write_bytes(&mut buf, &self.public_key);
        write_varint(&mut buf, self.nonce.len() as i32);
        write_bytes(&mut buf, &self.nonce);
        if v.ge(ProtocolVersion::V1_20_5) {
            write_bool(&mut buf, self.needs_authentication);
        }
        proof {
            assert(buf@ =~= spec_login_hello_bytes(
                vstd::utf8::encode_utf8(self.server_id@),
                self.public_key@,
                self.nonce@,
                self.needs_authentication,
                v,
            ));
        }
        buf
    }

    pub fn id(&self, _v: ProtocolVersion) -> (r: i32)
        ensures
            r == 1,
    {
        1
    }
}

/// One lowercase hex digit as its ASCII byte.
pub open spec fn spec_hex_digit_byte(d: int) -> u8 {
    if d < 10 {
        (48 + d) as u8
    } else {
        (87 + d) as u8
    }
}

/// A byte as two ASCII hex-digit bytes.
pub open spec fn spec_hex_pair(v: u8) -> Seq<u8> {
    seq![spec_hex_digit_byte(v as int / 16), spec_hex_digit_byte(v as int % 16)]
}

/// The hyphenated textual form of a 128-bit id, as its 36 ASCII bytes: the
/// 32 hex digits of the big-endian bytes, with hyphens after the 8th, 12th,
/// 16th and 20th digit.
pub open spec fn spec_hyphenated_bytes(id: u128) -> Seq<u8> {
    let bs = u128_be_bytes(id);
    spec_hex_pair(bs[0]) + spec_hex_pair(bs[1]) + spec_hex_pair(bs[2]) + spec_hex_pair(bs[3])
        + seq![45u8] + spec_hex_pair(bs[4]) + spec_hex_pair(bs[5]) + seq![45u8] + spec_hex_pair(
        bs[6],
    ) + spec_hex_pair(bs[7]) + seq![45u8] + spec_hex_pair(bs[8]) + spec_hex_pair(bs[9]) + seq![
        45u8,
    ] + spec_hex_pair(bs[10]) + spec_hex_pair(bs[11]) + spec_hex_pair(bs[12]) + spec_hex_pair(
        bs[13],
    ) + spec_hex_pair(bs[14]) + spec_hex_pair(bs[15])
}

fn push_hex_pair(out: &mut Vec<u8>, v: u8)
    ensures
        final(out)@ == old(out)@ + spec_hex_pair(v),
{
    let hi = v / 16;
    let lo = v % 16;
    out.push(if hi < 10 {
        48 + hi
    } else {
        87 + hi
    });
    out.push(if lo < 10 {
        48 + lo
    } else {
        87 + lo
    });
    proof {
        assert(out@ =~= old(out)@ + spec_hex_pair(v));
    }
}

/// The hyphenated ASCII form of a 128-bit id.
pub fn hyphenated_bytes(id: u128) -> (r: Vec<u8>)
    ensures
        r@ == spec_hyphenated_bytes(id),
{
    let mut bytes: Vec<u8> = Vec::new();
    write_uuid(&mut bytes, id);
    let mut s: Vec<u8> = Vec::new();
    push_hex_pair(&mut s, bytes[0]);
    push_hex_pair(&mut s, bytes[1]);
    push_hex_pair(&mut s, bytes[2]);
    push_hex_pair(&mut s, bytes[3]);
    s.push(45);
    push_hex_pair(&mut s, bytes[4]);
    push_hex_pair(&mut s, bytes[5]);
    s.push(45);
    push_hex_pair(&mut s, bytes[6]);
    push_hex_pair(&mut s, bytes[7]);
    s.push(45);
    push_hex_pair(&mut s, bytes[8]);
    push_hex_pair(&mut s, bytes[9]);
    s.push(45);
    push_hex_pair(&mut s, bytes[10]);
    push_hex_pair(&mut s, bytes[11]);
    push_hex_pair(&mut s, bytes[12]);
    push_hex_pair(&mut s, bytes[13]);
    push_hex_pair(&mut s, bytes[14]);
    push_hex_pair(&mut s, bytes[15]);
    proof {
        assert(s@ =~= spec_hyphenated_bytes(id));
    }
    s
}

/// The successful end of login: the profile, and from 1.20.5 the
/// strict-error-handling flag.
#[derive(Debug)]
pub struct LoginSuccessS2C {
    pub profile: Profile,
    pub strict_error_handling: bool,
}

/// The serialized properties from index `i` on: name, value, and the
/// optional signature behind its presence byte.
pub open spec fn props_bytes_from(ps: Seq<ProfileProperty>, i: int) -> Seq<u8>
    decreases ps.len() - i,
{
    if i < 0 || i >= ps.len() {
        Seq::empty()
    } else {
        string_bytes(vstd::utf8::encode_utf8(ps[i].name@)) + string_bytes(
            vstd::utf8::encode_utf8(ps[i].value@),
        ) + (match ps[i].signature {
            Some(sig) => seq![1u8] + string_bytes(vstd::utf8::encode_utf8(sig@)),
            None => seq![0u8],
        }) + props_bytes_from(ps, i + 1)
    }
}

/// The bytes of a login-success packet for the given version.
pub open spec fn spec_login_success_bytes(p: Profile, strict: bool, v: ProtocolVersion) -> Seq<
    u8,
> {
    (if v.spec_id() < ProtocolVersion::V20w12a.spec_id() {
        string_bytes(spec_hyphenated_bytes(p.id))
    } else {
        u128_be_bytes(p.id)
    }) + string_bytes(vstd::utf8::encode_utf8(p.name@)) + (if v.spec_id()
        > ProtocolVersion::V1_19.spec_id() {
        varint_bytes(p.properties@.len() as i32) + props_bytes_from(p.properties@, 0)
    } else {
        Seq::<u8>::empty()
    }) + (if v.spec_id() >= ProtocolVersion::V1_20_5.spec_id() {
        seq![bool_byte(strict)]
    } else {
        Seq::<u8>::empty()
    })
}

/// Whether a profile's strings all fit their length-prefixed wire fields.
pub open spec fn profile_fits(p: Profile) -> bool {
    &&& p.name@.len() <= 0x7fff_ffff
    &&& vstd::utf8::encode_utf8(p.name@).len() <= 0x7fff_ffff
    &&& p.properties@.len() <= 0x7fff_ffff
    &&& (forall|i: int|
        0 <= i < p.properties@.len() ==> {
            let pr = #[trigger] p.properties@[i];
            &&& pr.name@.len() <= 0x7fff_ffff
            &&& vstd::utf8::encode_utf8(pr.name@).len() <= 0x7fff_ffff
            &&& pr.value@.len() <= 0x7fff_ffff
            &&& vstd::utf8::encode_utf8(pr.value@).len() <= 0x7fff_ffff
            &&& (pr.signature matches Some(sig) ==> sig@.len() <= 0x7fff_ffff && vstd::utf8::encode_utf8(
                sig@,
            ).len() <= 0x7fff_ffff)
        })
}

impl LoginSuccessS2C {
    /// Writes the profile: before the 20w12a era the id goes as the
    /// hyphenated string, afterwards as 16 raw bytes; properties follow
    /// after 1.19, and the strict flag from 1.20.5.
    #[verifier::rlimit(100)]
    #[verifier::spinoff_prover]
    pub fn encode(&self, v: ProtocolVersion) -> (r: Vec<u8>)
        requires
            profile_fits(self.profile),
        ensures
            r@ == spec_login_success_bytes(self.profile, self.strict_error_handling, v),
    {
        let mut buf: Vec<u8> = Vec::new();
        if v.lt(ProtocolVersion::V20w12a) {
            let hy = hyphenated_bytes(self.profile.id);
            write_varint(&mut buf, hy.len() as i32);
            write_bytes(&mut buf, &hy);
        } else {
            write_uuid(&mut buf, self.profile.id);
        }
        let ghost g0 = buf@;
        write_string(&mut buf, self.profile.name.as_str());
        let ghost g1 = buf@;
        if ProtocolVersion::V1_19.lt(v) {
            write_varint(&mut buf, self.profile.properties.len() as i32);
            let ghost base = buf@;
            let mut i: usize = 0;
            while i < self.profile.properties.len()
                invariant
                    profile_fits(self.profile),
                    i <= self.profile.properties@.len(),
                    buf@ + props_bytes_from(self.profile.properties@, i as int) == base
                        + props_bytes_from(self.profile.properties@, 0),
                decreases self.profile.properties@.len() - i,
            {
                let ghost pre = buf@;
                let p = &self.profile.properties[i];
                write_string(&mut buf, p.name.as_str());
                write_string(&mut buf, p.value.as_str());
                match &p.signature {
                    Some(sig) => {
                        write_bool(&mut buf, true);
                        write_string(&mut buf, sig.as_str());
                    },
                    None => {
                        write_bool(&mut buf, false);
                    },
                }
                proof {
                    assert(buf@ + props_bytes_from(self.profile.properties@, i + 1) =~= pre
                        + props_bytes_from(self.profile.properties@, i as int));
                }
                i = i + 1;
            }
            proof {
                assert(props_bytes_from(
                    self.profile.properties@,
                    self.profile.properties@.len() as int,
                ) =~= Seq::<u8>::empty());
                assert(buf@ =~= base + props_bytes_from(self.profile.properties@, 0));
            }
        }
        if v.ge(ProtocolVersion::V1_20_5) {
            write_bool(&mut buf, self.strict_error_handling);
        }
        proof {
            assert(buf@ =~= spec_login_success_bytes(self.profile, self.strict_error_handling, v));
        }
        buf
    }

    pub fn id(&self, _v: ProtocolVersion) -> (r: i32)
        ensures
            r == 2,
    {
        2
    }
}

/// The compression threshold announcement; this server never compresses.
#[derive(Debug)]
pub struct LoginCompressionS2C {
    pub threshold: i32,
}

impl LoginCompressionS2C {
    pub fn encode(&self, _v: ProtocolVersion) -> (r: Vec<u8>)
        ensures
            r@ == varint_bytes(self.threshold),
    {
        let mut buf: Vec<u8> = Vec::new();
        write_varint(&mut buf, self.threshold);
        proof {
            assert(buf@ =~= varint_bytes(self.threshold));
        }
        buf
    }

    pub fn id(&self, _v: ProtocolVersion) -> (r: i32)
        ensures
            r == 3,
    {
        3
    }
}

/// A login plugin request on a named channel.
#[derive(Debug)]
pub struct LoginQueryRequestS2C {
    pub query_id: i32,
    pub channel: String,
    pub data: Vec<u8>,
}

impl LoginQueryRequestS2C {
    pub fn encode(&self, _v: ProtocolVersion) -> (r: Vec<u8>)
        requires
            self.channel@.len() <= 0x7fff_ffff,
            vstd::utf8::encode_utf8(self.channel@).len() <= 0x7fff_ffff,
        ensures
            r@ == varint_bytes(self.query_id) + string_bytes(vstd::utf8::encode_utf8(self.channel@))
                + self.data@,
    {
        let mut buf: Vec<u8> = Vec::new();
        write_varint(&mut buf, self.query_id);
        write_string(&mut buf, self.channel.as_str());
        write_bytes(&mut buf, &self.data);
        proof {
            assert(buf@ =~= varint_bytes(self.query_id) + string_bytes(
                vstd::utf8::encode_utf8(self.channel@),
            ) + self.data@);
        }
        buf
    }

    pub fn id(&self, _v: ProtocolVersion) -> (r: i32)
        ensures
            r == 4,
    {
        4
    }
}

/// A request for a stored cookie during login.
#[derive(Debug)]
pub struct LoginCookieRequestS2C {
    pub key: String,
}

impl LoginCookieRequestS2C {
    pub fn encode(&self, _v: ProtocolVersion) -> (r: Vec<u8>)
        requires
            self.key@.len() <= 0x7fff_ffff,
            vstd::utf8::encode_utf8(self.key@).len() <= 0x7fff_ffff,
        ensures
            r@ == string_bytes(vstd::utf8::encode_utf8(self.key@)),
    {
        let mut buf: Vec<u8> = Vec::new();
        write_string(&mut buf, self.key.as_str());
        buf
    }

    pub fn id(&self, _v: ProtocolVersion) -> (r: i32)
        ensures
            r == 5,
    {
        5
    }
}

} // verus!
