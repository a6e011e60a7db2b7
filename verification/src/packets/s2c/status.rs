use vstd::prelude::*;

verus! {

use vstd::string::StringSliceAdditionalSpecFns;
use crate::utils::{write_string, write_u64, string_bytes, u64_be_bytes};
use crate::version::ProtocolVersion;

/// The status reply: the JSON status object as one string.
#[derive(Debug)]
pub struct StatusResponseS2C {
    pub response: String,
}

impl StatusResponseS2C {
    pub fn new(response: String) -> (r: StatusResponseS2C)
        ensures
            r.response == response,
    {
        StatusResponseS2C { response }
    }

    pub fn encode(&self, _v: ProtocolVersion) -> (r: Vec<u8>)
        requires
            self.response@.len() <= 0x7fff_ffff,
            vstd::utf8::encode_utf8(self.response@).len() <= 0x7fff_ffff,
        ensures
            r@ == string_bytes(vstd::utf8::encode_utf8(self.response@)),
    {
        let mut buf: Vec<u8> = Vec::new();
        write_string(&mut buf, self.response.as_str());
        buf
    }

    pub fn id(&self, _v: ProtocolVersion) -> (r: i32)
        ensures
            r == 0,
    {
        0
    }
}

/// The echo of a ping's eight-byte payload.
#[derive(Debug)]
pub struct PingResponseS2C {
    pub payload: u64,
}

impl PingResponseS2C {
    pub fn new(payload: u64) -> (r: PingResponseS2C)
        ensures
            r.payload == payload,
    {
        PingResponseS2C { payload }
    }

    pub fn encode(&self, _v: ProtocolVersion) -> (r: Vec<u8>)
        ensures
            r@ == u64_be_bytes(self.payload),
    {
        let mut buf: Vec<u8> = Vec::new();
        write_u64(&mut buf, self.payload);
        buf
    }

    pub fn id(&self, _v: ProtocolVersion) -> (r: i32)
        ensures
            r == 1,
    {
        1
    }
}

} // verus!
