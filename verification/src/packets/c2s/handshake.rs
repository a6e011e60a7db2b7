use vstd::prelude::*;

verus! {

use crate::utils::{ByteReader, CodecError, read_varint, read_string, varint_parse_at,
    string_parse, i32_of_u32, be16_val, lossy_utf8_of};
use crate::packets::stage::Stage;
use crate::version::ProtocolVersion;

/// The fields a handshake carries: the client's protocol id, the address and
/// port it dialed, and the stage it asks for next.
#[derive(Debug)]
pub struct HandshakeC2S {
    pub version: ProtocolVersion,
    pub address: String,
    pub port: u16,
    pub next_stage: Stage,
}

/// What a handshake parse yields on `s`: protocol id, address bytes, port,
/// next-stage id and bytes consumed.
pub open spec fn spec_parse_handshake(s: Seq<u8>) -> Option<(i32, Seq<u8>, u16, i32, nat)> {
    match varint_parse_at(s, 0) {
        None => None,
        Some((v0, n0)) => {
            let ver = i32_of_u32((v0 % 0x1_0000_0000) as u32);
            match string_parse(s.skip(n0 as int)) {
                None => None,
                Some((addr, n1)) => {
                    let rest = s.skip(n0 + n1 as int);
                    if rest.len() < 2 {
                        None
                    } else {
                        let port = be16_val(rest.take(2));
                        match varint_parse_at(rest.skip(2), 0) {
                            None => None,
                            Some((v2, n2)) => Some(
                                (
                                    ver,
                                    addr,
                                    port,
                                    i32_of_u32((v2 % 0x1_0000_0000) as u32),
                                    (n0 + n1 + 2 + n2) as nat,
                                ),
                            ),
                        }
                    }
                },
            }
        },
    }
}

impl HandshakeC2S {
    /// Reads a handshake; the connection's version is still unset here, and
    /// this packet decides it.
    pub fn decode(buf: &mut ByteReader) -> (r: Result<HandshakeC2S, CodecError>)
        requires
            old(buf).wf(),
        ensures
            final(buf).wf(),
            match spec_parse_handshake(old(buf).remaining()) {
                None => r is Err,
                Some((ver, addr, port, next, used)) => r is Ok && r->Ok_0.version
                    == ProtocolVersion::spec_from_id(ver) && r->Ok_0.address@ == lossy_utf8_of(addr)
                    && r->Ok_0.port == port && r->Ok_0.next_stage == Stage::spec_from_id(next),
            },
    {
        let ghost s = old(buf).remaining();
        let ver = read_varint(buf)?;
        let ghost n0 = varint_parse_at(s, 0)->Some_0.1;
        proof {
            assert(buf.remaining() == s.skip(n0 as int));
        }
        let address = match read_string(buf) {
            Ok(a) => a,
            Err(e) => {
                return Err(e);
            },
        };
        let ghost n1 = string_parse(s.skip(n0 as int))->Some_0.1;
        proof {
            crate::utils::lemma_varint_parse_bounds(s, 0);
            assert(buf.remaining() == s.skip(n0 as int).skip(n1 as int));
            assert(buf.remaining() =~= s.skip(n0 + n1 as int));
        }
        let ghost rest = s.skip(n0 + n1 as int);
        let port = match buf.get_u16() {
            Ok(p) => p,
            Err(e) => {
                return Err(e);
            },
        };
        proof {
            assert(buf.remaining() =~= rest.skip(2));
        }
        let next = match read_varint(buf) {
            Ok(n) => n,
            Err(e) => {
                return Err(e);
            },
        };
        Ok(
            HandshakeC2S {
                version: ProtocolVersion::from_id(ver),
                address,
                port,
                next_stage: Stage::from_id(next),
            },
        )
    }

    /// The one id this packet ever has.
    pub fn id(_v: ProtocolVersion) -> (r: i32)
        ensures
            r == 0,
    {
        0
    }
}

} // verus!
