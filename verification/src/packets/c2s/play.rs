use vstd::prelude::*;

verus! {

use crate::utils::{
    ByteReader,
    CodecError,
    read_varint,
    read_string,
    string_parse,
    varint_parse_at,
    lossy_utf8_of,
    be64_val,
    be16_val,
    i32_of_u32,
};

/// A chat line from a Play-stage client, with the signing data this server
/// reads past but does not use.
#[derive(Debug)]
pub struct ChatC2S {
    pub message: String,
    pub timestamp: u64,
    pub salt: u64,
    pub signature: Option<Vec<u8>>,
    pub message_count: i32,
    pub acknowledged: u32,
}

/// What a chat-packet parse yields on `s`: the message bytes, timestamp,
/// salt, the optional 256-byte signature, the message count, the 24-bit
/// acknowledgement field, and the bytes consumed.
pub open spec fn spec_parse_chat(s: Seq<u8>) -> Option<
    (Seq<u8>, u64, u64, Option<Seq<u8>>, i32, u32, nat),
> {
    match string_parse(s) {
        None => None,
        Some((msg, n0)) => {
            let r1 = s.skip(n0 as int);
            if r1.len() < 17 {
                None
            } else {
                let ts = be64_val(r1.take(8));
                let salt = be64_val(r1.subrange(8, 16));
                let has_sig = r1[16];
                let r2 = r1.skip(17);
                if has_sig != 0 {
                    if r2.len() < 256 {
                        None
                    } else {
                        spec_parse_chat_tail(
                            s,
                            msg,
                            ts,
                            salt,
                            Some(r2.take(256)),
                            (n0 + 17 + 256) as nat,
                        )
                    }
                } else {
                    spec_parse_chat_tail(s, msg, ts, salt, None, (n0 + 17) as nat)
                }
            }
        },
    }
}

/// The count and acknowledgement fields that close a chat packet, starting
/// `done` bytes into `s`.
pub open spec fn spec_parse_chat_tail(
    s: Seq<u8>,
    msg: Seq<u8>,
    ts: u64,
    salt: u64,
    sig: Option<Seq<u8>>,
    done: nat,
) -> Option<(Seq<u8>, u64, u64, Option<Seq<u8>>, i32, u32, nat)> {
    let r = s.skip(done as int);
    match varint_parse_at(r, 0) {
        None => None,
        Some((cnt, n1)) => {
            let r2 = r.skip(n1 as int);
            if r2.len() < 3 {
                None
            } else {
                let ack: u32 = ((be16_val(r2.take(2)) as u32) * 0x100 + r2[2]) as u32;
                Some(
                    (
                        msg,
                        ts,
                        salt,
                        sig,
                        i32_of_u32((cnt % 0x1_0000_0000) as u32),
                        ack,
                        (done + n1 + 3) as nat,
                    ),
                )
            }
        },
    }
}

impl ChatC2S {
    /// Reads a chat packet: the message, timestamp and salt, an optional
    /// 256-byte signature, the count, and a 24-bit acknowledgement field.
    pub fn decode(buf: &mut ByteReader) -> (r: Result<ChatC2S, CodecError>)
        requires
            old(buf).wf(),
        ensures
            final(buf).wf(),
            match spec_parse_chat(old(buf).remaining()) {
                None => r is Err,
                Some((msg, ts, salt, sig, cnt, ack, used)) => r is Ok && r->Ok_0.message@
                    == lossy_utf8_of(msg) && r->Ok_0.timestamp == ts && r->Ok_0.salt == salt && (
                match sig {
                    None => r->Ok_0.signature is None,
                    Some(sb) => (r->Ok_0.signature matches Some(v) && v@ == sb),
                }) && r->Ok_0.message_count == cnt && r->Ok_0.acknowledged == ack
                    && final(buf).remaining() == old(buf).remaining().skip(used as int),
            },
    {
        let ghost s = old(buf).remaining();
        let message = read_string(buf)?;
        let ghost n0 = string_parse(s)->Some_0.1;
        let ghost r1 = s.skip(n0 as int);
        let timestamp = match buf.get_u64() {
            Ok(v) => v,
            Err(e) => {
                return Err(e);
            },
        };
        let salt = match buf.get_u64() {
            Ok(v) => v,
            Err(e) => {
                return Err(e);
            },
        };
        proof {
            assert(r1.skip(8).take(8) =~= r1.subrange(8, 16));
        }
        let has_sig = match buf.get_u8() {
            Ok(v) => v,
            Err(e) => {
                return Err(e);
            },
        };
        proof {
            assert(buf.remaining() =~= r1.skip(17));
        }
        let ghost done: nat = (n0 + 17) as nat;
        let signature = if has_sig != 0 {
            match buf.take_bytes(256) {
                Ok(v) => {
                    proof {
                        assert(buf.remaining() =~= s.skip(n0 as int + 17 + 256));
                    }
                    Some(v)
                },
                Err(e) => {
                    return Err(e);
                },
            }
        } else {
            None
        };
        let ghost done2: nat = if has_sig != 0 {
            (n0 + 17 + 256) as nat
        } else {
            (n0 + 17) as nat
        };
        proof {
            assert(buf.remaining() =~= s.skip(done2 as int));
        }
        let ghost rr = s.skip(done2 as int);
        let message_count = match read_varint(buf) {
            Ok(v) => v,
            Err(e) => {
                return Err(e);
            },
        };
        let ghost n1 = varint_parse_at(rr, 0)->Some_0.1;
        proof {
            crate::utils::lemma_varint_parse_bounds(rr, 0);
        }
        let hi = match buf.get_u16() {
            Ok(v) => v,
            Err(e) => {
                return Err(e);
            },
        };
        let lo = match buf.get_u8() {
            Ok(v) => v,
            Err(e) => {
                return Err(e);
            },
        };
        let acknowledged: u32 = (hi as u32) * 0x100 + (lo as u32);
        proof {
            let r2 = rr.skip(n1 as int);
            assert(rr.skip(n1 as int).take(2) =~= r2.take(2));
            assert(rr.skip(n1 as int).skip(2)[0] == r2[2]);
            assert(buf.remaining() =~= s.skip(done2 as int + n1 as int + 3));
        }
        Ok(ChatC2S { message, timestamp, salt, signature, message_count, acknowledged })
    }

    pub fn id(_v: crate::version::ProtocolVersion) -> (r: i32)
        ensures
            r == 6,
    {
        6
    }
}

} // verus!
