use vstd::prelude::*;

verus! {

use crate::utils::{ByteReader, CodecError, be64_val};
use crate::version::ProtocolVersion;

/// The empty request for the server's status object.
#[derive(Debug)]
pub struct StatusRequestC2S {}

impl StatusRequestC2S {
    pub fn decode(_buf: &mut ByteReader) -> (r: StatusRequestC2S) {
        StatusRequestC2S {  }
    }

    pub fn id(_v: ProtocolVersion) -> (r: i32)
        ensures
            r == 0,
    {
        0
    }
}

/// A ping whose eight-byte payload the server must echo back.
#[derive(Debug)]
pub struct PingRequestC2S {
    pub payload: u64,
}

impl PingRequestC2S {
    pub fn decode(buf: &mut ByteReader) -> (r: Result<PingRequestC2S, CodecError>)
        requires
            old(buf).wf(),
        ensures
            final(buf).wf(),
            old(buf).remaining().len() >= 8 ==> r is Ok && r->Ok_0.payload == be64_val(
                old(buf).remaining().take(8),
            ) && final(buf).remaining() == old(buf).remaining().skip(8),
            old(buf).remaining().len() < 8 ==> r is Err,
    {
        let payload = buf.get_u64()?;
        Ok(PingRequestC2S { payload })
    }

    pub fn id(_v: ProtocolVersion) -> (r: i32)
        ensures
            r == 1,
    {
        1
    }
}

} // verus!
