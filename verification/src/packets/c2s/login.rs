use vstd::prelude::*;

verus! {

use crate::utils::{
    ByteReader,
    CodecError,
    read_varint,
    read_string,
    read_uuid,
    string_parse,
    varint_parse_at,
    lossy_utf8_of,
    be64_val,
    be128_val,
    i32_of_u32,
};
use crate::version::ProtocolVersion;

/// The start of a login: the claimed name, plus version-scoped extras — the
/// 1.19-to-1.19.2 signature block and the uuid that is optional before
/// 1.20.2 and mandatory from it.
#[derive(Debug)]
pub struct LoginHelloC2S {
    pub name: String,
    pub uuid: Option<u128>,
    pub expires_at: Option<u64>,
    pub public_key: Option<Vec<u8>>,
    pub signature: Option<Vec<u8>>,
}

/// The 1.19-to-1.19.2 signature block at the front of `r`: expiry, public
/// key and signature when the presence byte is set, and the bytes consumed.
/// Outside that version window the block does not exist and occupies
/// nothing.
pub open spec fn spec_login_sig_block(r: Seq<u8>, v: ProtocolVersion) -> Option<
    (Option<u64>, Option<Seq<u8>>, Option<Seq<u8>>, nat),
> {
    if !(ProtocolVersion::V1_19.spec_id() <= v.spec_id() && v.spec_id()
        < ProtocolVersion::V1_19_3.spec_id()) {
        Some((None, None, None, 0 as nat))
    } else if r.len() < 1 {
        None
    } else if r[0] == 0 {
        Some((None, None, None, 1 as nat))
    } else {
        let r2 = r.skip(1);
        if r2.len() < 8 {
            None
        } else {
            let exp = be64_val(r2.take(8));
            let r3 = r2.skip(8);
            match varint_parse_at(r3, 0) {
                None => None,
                Some((klr, nk)) => {
                    let kl = i32_of_u32((klr % 0x1_0000_0000) as u32);
                    if kl < 0 {
                        None
                    } else {
                        let r4 = r3.skip(nk as int);
                        if r4.len() < kl {
                            None
                        } else {
                            let pk = r4.take(kl as int);
                            let r5 = r4.skip(kl as int);
                            match varint_parse_at(r5, 0) {
                                None => None,
                                Some((slr, ns)) => {
                                    let sl = i32_of_u32((slr % 0x1_0000_0000) as u32);
                                    if sl < 0 {
                                        None
                                    } else {
                                        let r6 = r5.skip(ns as int);
                                        if r6.len() < sl {
                                            None
                                        } else {
                                            Some(
                                                (
                                                    Some(exp),
                                                    Some(pk),
                                                    Some(r6.take(sl as int)),
                                                    (1 + 8 + nk + kl + ns + sl) as nat,
                                                ),
                                            )
                                        }
                                    }
                                },
                            }
                        }
                    }
                },
            }
        }
    }
}

/// The uuid that closes a login start on 1.19 and later: behind a presence
/// byte before 1.20.2, unconditional from it.
pub open spec fn spec_login_uuid_block(r: Seq<u8>, v: ProtocolVersion) -> Option<
    (Option<u128>, nat),
> {
    if v.spec_id() < ProtocolVersion::V1_20_2.spec_id() {
        if r.len() < 1 {
            None
        } else if r[0] == 0 {
            Some((None, 1 as nat))
        } else if r.len() < 17 {
            None
        } else {
            Some((Some(be128_val(r.subrange(1, 17))), 17 as nat))
        }
    } else {
        if r.len() < 16 {
            None
        } else {
            Some((Some(be128_val(r.take(16))), 16 as nat))
        }
    }
}

/// What a login-start parse yields on `s` for version `v`: the name bytes,
/// the signature block, the uuid, and the bytes consumed.
pub open spec fn spec_parse_login_hello(s: Seq<u8>, v: ProtocolVersion) -> Option<
    (Seq<u8>, Option<u64>, Option<Seq<u8>>, Option<Seq<u8>>, Option<u128>, nat),
> {
    match string_parse(s) {
        None => None,
        Some((name, n0)) => {
            if v.spec_id() < ProtocolVersion::V1_19.spec_id() {
                Some((name, None, None, None, None, n0))
            } else {
                match spec_login_sig_block(s.skip(n0 as int), v) {
                    None => None,
                    Some((exp, pk, sig, d1)) => {
                        match spec_login_uuid_block(s.skip(n0 + d1 as int), v) {
                            None => None,
                            Some((uuid, d2)) => Some(
                                (name, exp, pk, sig, uuid, (n0 + d1 + d2) as nat),
                            ),
                        }
                    },
                }
            }
        },
    }
}

/// Reads the 1.19-to-1.19.2 signature block, a no-op on other versions.
fn read_sig_block(buf: &mut ByteReader, v: ProtocolVersion) -> (r: Result<
    (Option<u64>, Option<Vec<u8>>, Option<Vec<u8>>),
    CodecError,
>)
    requires
        old(buf).wf(),
    ensures
        final(buf).wf(),
        match spec_login_sig_block(old(buf).remaining(), v) {
            None => r is Err,
            Some((exp, pk, sig, d)) => r is Ok && r->Ok_0.0 == exp && (match pk {
                None => r->Ok_0.1 is None,
                Some(kb) => (r->Ok_0.1 matches Some(k) && k@ == kb),
            }) && (match sig {
                None => r->Ok_0.2 is None,
                Some(sb) => (r->Ok_0.2 matches Some(g) && g@ == sb),
            }) && final(buf).remaining() == old(buf).remaining().skip(d as int),
        },
{
    let ghost r1 = old(buf).remaining();
    if !(v.ge(ProtocolVersion::V1_19) && v.lt(ProtocolVersion::V1_19_3)) {
        proof {
            assert(buf.remaining() =~= r1.skip(0));
        }
        return Ok((None, None, None));
    }
    let has_sig = match buf.get_u8() {
        Ok(b) => b,
        Err(e) => {
            return Err(e);
        },
    };
    if has_sig == 0 {
        return Ok((None, None, None));
    }
    let ghost r2 = r1.skip(1);
    let exp = match buf.get_u64() {
        Ok(x) => x,
        Err(e) => {
            return Err(e);
        },
    };
    let ghost r3 = r2.skip(8);
    proof {
        assert(buf.remaining() =~= r3);
    }
    let kl = match read_varint(buf) {
        Ok(x) => x,
        Err(e) => {
            return Err(e);
        },
    };
    if kl < 0 {
        return Err(CodecError::BadLength);
    }
    let ghost nk = varint_parse_at(r3, 0)->Some_0.1;
    let ghost r4 = r3.skip(nk as int);
    let pk = match buf.take_bytes(kl as usize) {
        Ok(x) => x,
        Err(e) => {
            return Err(e);
        },
    };
    let ghost r5 = r4.skip(kl as int);
    proof {
        assert(buf.remaining() =~= r5);
    }
    let sl = match read_varint(buf) {
        Ok(x) => x,
        Err(e) => {
            return Err(e);
        },
    };
    if sl < 0 {
        return Err(CodecError::BadLength);
    }
    let ghost ns = varint_parse_at(r5, 0)->Some_0.1;
    let sig = match buf.take_bytes(sl as usize) {
        Ok(x) => x,
        Err(e) => {
            return Err(e);
        },
    };
    proof {
        crate::utils::lemma_varint_parse_bounds(r3, 0);
        crate::utils::lemma_varint_parse_bounds(r5, 0);
        assert(buf.remaining() =~= r1.skip(1 + 8 + nk as int + kl + ns as int + sl));
    }
    Ok((Some(exp), Some(pk), Some(sig)))
}

/// Reads the version-scoped uuid that closes a login start.
fn read_uuid_block(buf: &mut ByteReader, v: ProtocolVersion) -> (r: Result<
    Option<u128>,
    CodecError,
>)
    requires
        old(buf).wf(),
    ensures
        final(buf).wf(),
        match spec_login_uuid_block(old(buf).remaining(), v) {
            None => r is Err,
            Some((uuid, d)) => r is Ok && r->Ok_0 == uuid && final(buf).remaining() == old(
                buf,
            ).remaining().skip(d as int),
        },
{
    let ghost ru = old(buf).remaining();
    let has_uuid = if v.lt(ProtocolVersion::V1_20_2) {
        let b = match buf.get_u8() {
            Ok(b) => b,
            Err(e) => {
                return Err(e);
            },
        };
        b != 0
    } else {
        true
    };
    if !has_uuid {
        return Ok(None);
    }
    let u = match read_uuid(buf) {
        Ok(u) => u,
        Err(e) => {
            return Err(e);
        },
    };
    proof {
        if v.spec_id() < ProtocolVersion::V1_20_2.spec_id() {
            assert(ru.skip(1).take(16) =~= ru.subrange(1, 17));
            assert(buf.remaining() =~= ru.skip(17));
        }
    }
    Ok(Some(u))
}

impl LoginHelloC2S {
    /// Reads a login start for the given negotiated version.
    pub fn decode(buf: &mut ByteReader, v: ProtocolVersion) -> (r: Result<
        LoginHelloC2S,
        CodecError,
    >)
        requires
            old(buf).wf(),
        ensures
            final(buf).wf(),
            match spec_parse_login_hello(old(buf).remaining(), v) {
                None => r is Err,
                Some((name, exp, pk, sig, uuid, used)) => r is Ok && r->Ok_0.name@
                    == lossy_utf8_of(name) && r->Ok_0.expires_at == exp && (match pk {
                    None => r->Ok_0.public_key is None,
                    Some(kb) => (r->Ok_0.public_key matches Some(k) && k@ == kb),
                }) && (match sig {
                    None => r->Ok_0.signature is None,
                    Some(sb) => (r->Ok_0.signature matches Some(g) && g@ == sb),
                }) && r->Ok_0.uuid == uuid && final(buf).remaining() == old(
                    buf,
                ).remaining().skip(used as int),
            },
    {
        let ghost s = old(buf).remaining();
        let name = read_string(buf)?;
        let ghost n0 = string_parse(s)->Some_0.1;
        if v.lt(ProtocolVersion::V1_19) {
            return Ok(
                LoginHelloC2S {
                    name,
                    uuid: None,
                    expires_at: None,
                    public_key: None,
                    signature: None,
                },
            );
        }
        let ghost r1 = s.skip(n0 as int);
        let (expires_at, public_key, signature) = match read_sig_block(buf, v) {
            Ok(x) => x,
            Err(e) => {
                return Err(e);
            },
        };
        let ghost d1 = spec_login_sig_block(r1, v)->Some_0.3;
        proof {
            lemma_sig_block_bounds(r1, v);
            assert(buf.remaining() =~= s.skip(n0 + d1 as int));
        }
        let uuid = match read_uuid_block(buf, v) {
            Ok(u) => u,
            Err(e) => {
                return Err(e);
            },
        };
        proof {
            let (u2, d2) = spec_login_uuid_block(s.skip(n0 + d1 as int), v)->Some_0;
            assert(uuid == u2);
            assert(s.skip(n0 + d1 as int).len() >= d2);
            assert(buf.remaining() =~= s.skip(n0 + d1 + d2 as int));
        }
        Ok(LoginHelloC2S { name, uuid, expires_at, public_key, signature })
    }

    pub fn id(_v: ProtocolVersion) -> (r: i32)
        ensures
            r == 0,
    {
        0
    }
}

/// A successful signature-block parse consumes no more than the buffer
/// holds.
pub proof fn lemma_sig_block_bounds(r: Seq<u8>, v: ProtocolVersion)
    requires
        spec_login_sig_block(r, v) is Some,
    ensures
        spec_login_sig_block(r, v)->Some_0.3 <= r.len(),
{
    if ProtocolVersion::V1_19.spec_id() <= v.spec_id() && v.spec_id()
        < ProtocolVersion::V1_19_3.spec_id() && r.len() >= 1 && r[0] != 0 {
        let r3 = r.skip(1).skip(8);
        crate::utils::lemma_varint_parse_bounds(r3, 0);
        let nk = varint_parse_at(r3, 0)->Some_0.1;
        let kl = i32_of_u32((varint_parse_at(r3, 0)->Some_0.0 % 0x1_0000_0000) as u32);
        let r5 = r3.skip(nk as int).skip(kl as int);
        crate::utils::lemma_varint_parse_bounds(r5, 0);
    }
}

/// The client's half of the key exchange: the RSA-encrypted shared secret
/// and either the encrypted nonce or the 1.19-era signed-salt form.
#[derive(Debug)]
pub struct LoginKeyC2S {
    pub shared_secret: Vec<u8>,
    pub nonce: Option<Vec<u8>>,
    pub salt: Option<u64>,
    pub message_signature: Option<Vec<u8>>,
}

/// A varint-counted byte run at the front of `r`: the bytes and the total
/// consumed, or `None` when the count is malformed, negative or larger than
/// what is left.
pub open spec fn spec_counted_bytes(r: Seq<u8>) -> Option<(Seq<u8>, nat)> {
    match varint_parse_at(r, 0) {
        None => None,
        Some((lr, n)) => {
            let l = i32_of_u32((lr % 0x1_0000_0000) as u32);
            if l < 0 || r.skip(n as int).len() < l {
                None
            } else {
                Some((r.skip(n as int).take(l as int), (n + l) as nat))
            }
        },
    }
}

/// What a key-exchange parse yields on `s` for version `v`: the encrypted
/// secret, then either the encrypted nonce or (in 1.19 to 1.19.2, behind a
/// cleared presence byte) the salt and message signature, and the bytes
/// consumed.
pub open spec fn spec_parse_login_key(s: Seq<u8>, v: ProtocolVersion) -> Option<
    (Seq<u8>, Option<Seq<u8>>, Option<u64>, Option<Seq<u8>>, nat),
> {
    match spec_counted_bytes(s) {
        None => None,
        Some((secret, n0)) => {
            let r1 = s.skip(n0 as int);
            if ProtocolVersion::V1_19.spec_id() <= v.spec_id() && v.spec_id()
                < ProtocolVersion::V1_19_3.spec_id() {
                if r1.len() < 1 {
                    None
                } else if r1[0] != 0 {
                    match spec_counted_bytes(r1.skip(1)) {
                        None => None,
                        Some((nonce, n1)) => Some(
                            (secret, Some(nonce), None, None, (n0 + 1 + n1) as nat),
                        ),
                    }
                } else {
                    let r2 = r1.skip(1);
                    if r2.len() < 8 {
                        None
                    } else {
                        let salt = be64_val(r2.take(8));
                        match spec_counted_bytes(r2.skip(8)) {
                            None => None,
                            Some((msig, n1)) => Some(
                                (secret, None, Some(salt), Some(msig), (n0 + 9 + n1) as nat),
                            ),
                        }
                    }
                }
            } else {
                match spec_counted_bytes(r1) {
                    None => None,
                    Some((nonce, n1)) => Some((secret, Some(nonce), None, None, (n0 + n1) as nat)),
                }
            }
        },
    }
}

/// A successful counted-bytes parse consumes no more than the buffer holds.
pub proof fn lemma_counted_bytes_bounds(r: Seq<u8>)
    requires
        spec_counted_bytes(r) is Some,
    ensures
        spec_counted_bytes(r)->Some_0.1 <= r.len(),
{
    crate::utils::lemma_varint_parse_bounds(r, 0);
}

/// Reads one varint-counted byte run.
fn read_counted_bytes(buf: &mut ByteReader) -> (r: Result<Vec<u8>, CodecError>)
    requires
        old(buf).wf(),
    ensures
        final(buf).wf(),
        match spec_counted_bytes(old(buf).remaining()) {
            None => r is Err,
            Some((bs, used)) => r is Ok && r->Ok_0@ == bs && final(buf).remaining() == old(
                buf,
            ).remaining().skip(used as int),
        },
{
    let ghost s = old(buf).remaining();
    let l = read_varint(buf)?;
    if l < 0 {
        return Err(CodecError::BadLength);
    }
    let ghost n = varint_parse_at(s, 0)->Some_0.1;
    let bs = match buf.take_bytes(l as usize) {
        Ok(x) => x,
        Err(e) => {
            return Err(e);
        },
    };
    proof {
        crate::utils::lemma_varint_parse_bounds(s, 0);
        assert(buf.remaining() =~= s.skip(n as int + l));
    }
    Ok(bs)
}

impl LoginKeyC2S {
    #[verifier::rlimit(100)]
    #[verifier::spinoff_prover]
    pub fn decode(buf: &mut ByteReader, v: ProtocolVersion) -> (r: Result<LoginKeyC2S, CodecError>)
        requires
            old(buf).wf(),
        ensures
            final(buf).wf(),
            match spec_parse_login_key(old(buf).remaining(), v) {
                None => r is Err,
                Some((secret, nonce, salt, msig, used)) => r is Ok && r->Ok_0.shared_secret@
                    == secret && (match nonce {
                    None => r->Ok_0.nonce is None,
                    Some(nb) => (r->Ok_0.nonce matches Some(n) && n@ == nb),
                }) && r->Ok_0.salt == salt && (match msig {
                    None => r->Ok_0.message_signature is None,
                    Some(mb) => (r->Ok_0.message_signature matches Some(m) && m@ == mb),
                }) && final(buf).remaining() == old(buf).remaining().skip(used as int),
            },
    {
        let ghost s = old(buf).remaining();
        let shared_secret = read_counted_bytes(buf)?;
        let ghost n0 = spec_counted_bytes(s)->Some_0.1;
        let ghost r1 = s.skip(n0 as int);
        let mut nonce: Option<Vec<u8>> = None;
        let mut salt: Option<u64> = None;
        let mut message_signature: Option<Vec<u8>> = None;
        if v.ge(ProtocolVersion::V1_19) && v.lt(ProtocolVersion::V1_19_3) {
            let has_nonce = match buf.get_u8() {
                Ok(b) => b,
                Err(e) => {
                    return Err(e);
                },
            };
            if has_nonce != 0 {
                let ghost r2 = r1.skip(1);
                nonce = match read_counted_bytes(buf) {
                    Ok(x) => Some(x),
                    Err(e) => {
                        return Err(e);
                    },
                };
                proof {
                    let n1 = spec_counted_bytes(r2)->Some_0.1;
                    lemma_counted_bytes_bounds(s);
                    lemma_counted_bytes_bounds(r2);
                    assert(buf.remaining() =~= s.skip(n0 as int + 1 + n1 as int));
                }
            } else {
                let ghost r2 = r1.skip(1);
                salt = match buf.get_u64() {
                    Ok(x) => Some(x),
                    Err(e) => {
                        return Err(e);
                    },
                };
                let ghost r3 = r2.skip(8);
                proof {
                    assert(buf.remaining() =~= r3);
                }
                message_signature = match read_counted_bytes(buf) {
                    Ok(x) => Some(x),
                    Err(e) => {
                        return Err(e);
                    },
                };
                proof {
                    let n1 = spec_counted_bytes(r3)->Some_0.1;
                    lemma_counted_bytes_bounds(s);
                    lemma_counted_bytes_bounds(r3);
                    assert(buf.remaining() =~= s.skip(n0 as int + 9 + n1 as int));
                }
            }
        } else {
            nonce = match read_counted_bytes(buf) {
                Ok(x) => Some(x),
                Err(e) => {
                    return Err(e);
                },
            };
            proof {
                let n1 = spec_counted_bytes(r1)->Some_0.1;
                lemma_counted_bytes_bounds(s);
                lemma_counted_bytes_bounds(r1);
                assert(buf.remaining() =~= s.skip(n0 as int + n1 as int));
            }
        }
        Ok(LoginKeyC2S { shared_secret, nonce, salt, message_signature })
    }

    pub fn id(_v: ProtocolVersion) -> (r: i32)
        ensures
            r == 1,
    {
        1
    }
}

/// A reply to a login plugin query; this server sends none and reads the
/// body through.
#[derive(Debug)]
pub struct LoginQueryResponseC2S {
    pub query_id: i32,
    pub response: Vec<u8>,
}

impl LoginQueryResponseC2S {
    pub fn decode(buf: &mut ByteReader) -> (r: Result<LoginQueryResponseC2S, CodecError>)
        requires
            old(buf).wf(),
        ensures
            final(buf).wf(),
            match varint_parse_at(old(buf).remaining(), 0) {
                None => r is Err,
                Some((q, n)) => r is Ok && r->Ok_0.query_id == i32_of_u32(
                    (q % 0x1_0000_0000) as u32,
                ) && r->Ok_0.response@ == old(buf).remaining().skip(n as int)
                    && final(buf).remaining().len() == 0,
            },
    {
        let query_id = read_varint(buf)?;
        let response = buf.take_rest();
        Ok(LoginQueryResponseC2S { query_id, response })
    }

    pub fn id(_v: ProtocolVersion) -> (r: i32)
        ensures
            r == 2,
    {
        2
    }
}

/// The client's acknowledgement that it enters the configuration stage.
#[derive(Debug)]
pub struct EnterConfigurationC2S {}

impl EnterConfigurationC2S {
    pub fn decode(_buf: &mut ByteReader) -> (r: EnterConfigurationC2S) {
        EnterConfigurationC2S {  }
    }

    pub fn id(_v: ProtocolVersion) -> (r: i32)
        ensures
            r == 3,
    {
        3
    }
}

/// What a stored-cookie reply parses to: the key bytes and, when the
/// presence byte is set, everything after it as the payload.
pub open spec fn spec_parse_cookie(s: Seq<u8>) -> Option<(Seq<u8>, Option<Seq<u8>>, nat)> {
    match string_parse(s) {
        None => None,
        Some((key, n0)) => {
            let r1 = s.skip(n0 as int);
            if r1.len() < 1 {
                None
            } else if r1[0] != 0 {
                Some((key, Some(r1.skip(1)), s.len() as nat))
            } else {
                Some((key, None, (n0 + 1) as nat))
            }
        },
    }
}

/// A stored-cookie reply during login.
#[derive(Debug)]
pub struct CookieResponseC2S {
    pub key: String,
    pub payload: Option<Vec<u8>>,
}

impl CookieResponseC2S {
    pub fn decode(buf: &mut ByteReader) -> (r: Result<CookieResponseC2S, CodecError>)
        requires
            old(buf).wf(),
        ensures
            final(buf).wf(),
            match spec_parse_cookie(old(buf).remaining()) {
                None => r is Err,
                Some((key, payload, used)) => r is Ok && r->Ok_0.key@ == lossy_utf8_of(key) && (
                match payload {
                    None => r->Ok_0.payload is None,
                    Some(pb) => (r->Ok_0.payload matches Some(p) && p@ == pb),
                }) && final(buf).remaining() == old(buf).remaining().skip(used as int),
            },
    {
        let ghost s = old(buf).remaining();
        let key = read_string(buf)?;
        let ghost n0 = string_parse(s)->Some_0.1;
        let has = match buf.get_u8() {
            Ok(b) => b,
            Err(e) => {
                return Err(e);
            },
        };
        let payload = if has != 0 {
            let rest = buf.take_rest();
            proof {
                assert(s.skip(n0 as int).skip(1) =~= s.skip(n0 as int + 1));
                assert(s.skip(s.len() as int) =~= buf.remaining());
            }
            Some(rest)
        } else {
            proof {
                assert(buf.remaining() =~= s.skip(n0 as int + 1));
            }
            None
        };
        Ok(CookieResponseC2S { key, payload })
    }

    pub fn id(_v: ProtocolVersion) -> (r: i32)
        ensures
            r == 4,
    {
        4
    }
}

} // verus!
