use vstd::prelude::*;

verus! {

use vstd::string::StringSliceAdditionalSpecFns;

/// A framing error while reading wire data: the buffer ended too early, or a
/// length field was negative or larger than what is left in the buffer.
#[derive(Debug, Clone, Copy, PartialEq, Eq, Structural)]
pub enum CodecError {
    Truncated,
    BadLength,
}

// ---------------------------------------------------------------------------
// Two's-complement conversions between signed and unsigned views of a value.
// ---------------------------------------------------------------------------

pub open spec fn u8_of_i8(v: i8) -> u8 {
    if v >= 0 {
        v as u8
    } else {
        (v + 0x100) as u8
    }
}

pub open spec fn i8_of_u8(b: u8) -> i8 {
    if b < 0x80 {
        b as i8
    } else {
        (b - 0x100) as i8
    }
}

pub open spec fn u16_of_i16(v: i16) -> u16 {
    if v >= 0 {
        v as u16
    } else {
        (v + 0x1_0000) as u16
    }
}

pub open spec fn i16_of_u16(b: u16) -> i16 {
    if b < 0x8000 {
        b as i16
    } else {
        (b - 0x1_0000) as i16
    }
}

pub open spec fn u32_of_i32(v: i32) -> u32 {
    if v >= 0 {
        v as u32
    } else {
        (v + 0x1_0000_0000) as u32
    }
}

pub open spec fn i32_of_u32(b: u32) -> i32 {
    if b < 0x8000_0000 {
        b as i32
    } else {
        (b - 0x1_0000_0000) as i32
    }
}

pub open spec fn u64_of_i64(v: i64) -> u64 {
    if v >= 0 {
        v as u64
    } else {
        (v + 0x1_0000_0000_0000_0000) as u64
    }
}

pub open spec fn i64_of_u64(b: u64) -> i64 {
    if b < 0x8000_0000_0000_0000 {
        b as i64
    } else {
        (b - 0x1_0000_0000_0000_0000) as i64
    }
}

// ---------------------------------------------------------------------------
// Big-endian byte strings of fixed-width integers, and their values.
// ---------------------------------------------------------------------------

pub open spec fn u16_be_bytes(v: u16) -> Seq<u8> {
    seq![(v / 0x100) as u8, (v % 0x100) as u8]
}

pub open spec fn be16_val(s: Seq<u8>) -> u16
    recommends
        s.len() == 2,
{
    (s[0] * 0x100 + s[1]) as u16
}

pub open spec fn u24_be_bytes(v: u32) -> Seq<u8>
    recommends
        v < 0x100_0000,
{
    seq![(v / 0x1_0000 % 0x100) as u8, (v / 0x100 % 0x100) as u8, (v % 0x100) as u8]
}

pub open spec fn be24_val(s: Seq<u8>) -> u32
    recommends
        s.len() == 3,
{
    (s[0] * 0x1_0000 + s[1] * 0x100 + s[2]) as u32
}

pub open spec fn u32_be_bytes(v: u32) -> Seq<u8> {
    seq![
        (v / 0x100_0000) as u8,
        (v / 0x1_0000 % 0x100) as u8,
        (v / 0x100 % 0x100) as u8,
        (v % 0x100) as u8,
    ]
}

pub open spec fn be32_val(s: Seq<u8>) -> u32
    recommends
        s.len() == 4,
{
    (s[0] * 0x100_0000 + s[1] * 0x1_0000 + s[2] * 0x100 + s[3]) as u32
}

pub open spec fn u64_be_bytes(v: u64) -> Seq<u8> {
    seq![
        (v / 0x100_0000_0000_0000) as u8,
        (v / 0x1_0000_0000_0000 % 0x100) as u8,
        (v / 0x100_0000_0000 % 0x100) as u8,
        (v / 0x1_0000_0000 % 0x100) as u8,
        (v / 0x100_0000 % 0x100) as u8,
        (v / 0x1_0000 % 0x100) as u8,
        (v / 0x100 % 0x100) as u8,
        (v % 0x100) as u8,
    ]
}

pub open spec fn be64_val(s: Seq<u8>) -> u64
    recommends
        s.len() == 8,
{
    (s[0] * 0x100_0000_0000_0000 + s[1] * 0x1_0000_0000_0000 + s[2] * 0x100_0000_0000 + s[3]
        * 0x1_0000_0000 + s[4] * 0x100_0000 + s[5] * 0x1_0000 + s[6] * 0x100 + s[7]) as u64
}

/// The value of 16 big-endian bytes.
pub open spec fn be128_val(s: Seq<u8>) -> u128
    recommends
        s.len() == 16,
{
    ((be64_val(s.take(8)) as u128) * 0x1_0000_0000_0000_0000 + (be64_val(
        s.subrange(8, 16),
    ) as u128)) as u128
}

pub open spec fn u128_be_bytes(v: u128) -> Seq<u8> {
    u64_be_bytes((v / 0x1_0000_0000_0000_0000) as u64) + u64_be_bytes(
        (v % 0x1_0000_0000_0000_0000) as u64,
    )
}

pub broadcast proof fn lemma_u16_be_round(v: u16)
    ensures
        (#[trigger] u16_be_bytes(v)).len() == 2,
        be16_val(u16_be_bytes(v)) == v,
{
    assert(v / 0x100 * 0x100 + v % 0x100 == v) by (bit_vector);
    assert(be16_val(u16_be_bytes(v)) == v / 0x100 * 0x100 + v % 0x100);
}

pub broadcast proof fn lemma_u16_be_inverse(s: Seq<u8>)
    requires
        s.len() == 2,
    ensures
        #[trigger] u16_be_bytes(be16_val(s)) =~= s,
{
    let b0 = s[0];
    let b1 = s[1];
    let v = be16_val(s);
    assert(v == b0 * 0x100 + b1);
    assert((((b0 as u16) * 0x100 + (b1 as u16)) / 0x100) as u8 == b0 && (((b0 as u16) * 0x100 + (
    b1 as u16)) % 0x100) as u8 == b1) by (bit_vector);
}

pub broadcast proof fn lemma_u24_be_round(v: u32)
    requires
        v < 0x100_0000,
    ensures
        (#[trigger] u24_be_bytes(v)).len() == 3,
        be24_val(u24_be_bytes(v)) == v,
{
    assert(v / 0x1_0000 % 0x100 * 0x1_0000 + v / 0x100 % 0x100 * 0x100 + v % 0x100 == v
        || v >= 0x100_0000) by (bit_vector);
}

pub broadcast proof fn lemma_u32_be_round(v: u32)
    ensures
        (#[trigger] u32_be_bytes(v)).len() == 4,
        be32_val(u32_be_bytes(v)) == v,
{
    assert(v / 0x100_0000 * 0x100_0000 + v / 0x1_0000 % 0x100 * 0x1_0000 + v / 0x100 % 0x100
        * 0x100 + v % 0x100 == v) by (bit_vector);
}

pub broadcast proof fn lemma_u32_be_inverse(s: Seq<u8>)
    requires
        s.len() == 4,
    ensures
        #[trigger] u32_be_bytes(be32_val(s)) =~= s,
{
    let b0 = s[0];
    let b1 = s[1];
    let b2 = s[2];
    let b3 = s[3];
    let v: u32 = ((b0 as u32) * 0x100_0000 + (b1 as u32) * 0x1_0000 + (b2 as u32) * 0x100 + (
    b3 as u32)) as u32;
    assert({
        let v: u32 = ((b0 as u32) * 0x100_0000 + (b1 as u32) * 0x1_0000 + (b2 as u32) * 0x100 + (
        b3 as u32)) as u32;
        (v / 0x100_0000) as u8 == b0 && (v / 0x1_0000 % 0x100) as u8 == b1 && (v / 0x100
            % 0x100) as u8 == b2 && (v % 0x100) as u8 == b3
    }) by (bit_vector);
}

pub broadcast proof fn lemma_u64_be_round(v: u64)
    ensures
        (#[trigger] u64_be_bytes(v)).len() == 8,
        be64_val(u64_be_bytes(v)) == v,
{
    assert(v / 0x100_0000_0000_0000 * 0x100_0000_0000_0000 + v / 0x1_0000_0000_0000 % 0x100
        * 0x1_0000_0000_0000 + v / 0x100_0000_0000 % 0x100 * 0x100_0000_0000 + v / 0x1_0000_0000
        % 0x100 * 0x1_0000_0000 + v / 0x100_0000 % 0x100 * 0x100_0000 + v / 0x1_0000 % 0x100
        * 0x1_0000 + v / 0x100 % 0x100 * 0x100 + v % 0x100 == v) by (bit_vector);
}

pub broadcast proof fn lemma_u64_be_inverse(s: Seq<u8>)
    requires
        s.len() == 8,
    ensures
        #[trigger] u64_be_bytes(be64_val(s)) =~= s,
{
    let b0 = s[0];
    let b1 = s[1];
    let b2 = s[2];
    let b3 = s[3];
    let b4 = s[4];
    let b5 = s[5];
    let b6 = s[6];
    let b7 = s[7];
    assert({
        let v: u64 = ((b0 as u64) * 0x100_0000_0000_0000 + (b1 as u64) * 0x1_0000_0000_0000 + (
        b2 as u64) * 0x100_0000_0000 + (b3 as u64) * 0x1_0000_0000 + (b4 as u64) * 0x100_0000 + (
        b5 as u64) * 0x1_0000 + (b6 as u64) * 0x100 + (b7 as u64)) as u64;
        (v / 0x100_0000_0000_0000) as u8 == b0 && (v / 0x1_0000_0000_0000 % 0x100) as u8 == b1 && (
        v / 0x100_0000_0000 % 0x100) as u8 == b2 && (v / 0x1_0000_0000 % 0x100) as u8 == b3 && (v
            / 0x100_0000 % 0x100) as u8 == b4 && (v / 0x1_0000 % 0x100) as u8 == b5 && (v / 0x100
            % 0x100) as u8 == b6 && (v % 0x100) as u8 == b7
    }) by (bit_vector);
}

// ---------------------------------------------------------------------------
// Variable-length integers: groups of 7 payload bits, least significant group
// first, bit 7 of each byte set while more groups follow; at most 5 bytes for
// 32 bits and 10 bytes for 64 bits.
// ---------------------------------------------------------------------------

pub open spec fn varint_bytes_rec(x: u32) -> Seq<u8>
    decreases x,
{
    if x < 0x80 {
        seq![x as u8]
    } else {
        seq![(x % 0x80 + 0x80) as u8] + varint_bytes_rec(x / 0x80)
    }
}

/// The minimum-length wire encoding of a 32-bit value.
pub open spec fn varint_bytes(v: i32) -> Seq<u8> {
    varint_bytes_rec(u32_of_i32(v))
}

pub open spec fn varlong_bytes_rec(x: u64) -> Seq<u8>
    decreases x,
{
    if x < 0x80 {
        seq![x as u8]
    } else {
        seq![(x % 0x80 + 0x80) as u8] + varlong_bytes_rec(x / 0x80)
    }
}

/// The minimum-length wire encoding of a 64-bit value.
pub open spec fn varlong_bytes(v: i64) -> Seq<u8> {
    varlong_bytes_rec(u64_of_i64(v))
}

/// What a varint decoder yields on the byte string `s`, reading the group at
/// index `i`: the value encoded from `i` on and the total number of bytes the
/// whole varint occupies, or `None` when the buffer ends inside the varint.
/// Reading stops at the fifth byte whether or not its high bit is set, as the
/// wire format demands.
pub open spec fn varint_parse_at(s: Seq<u8>, i: nat) -> Option<(int, nat)>
    decreases 5 - i,
{
    if i >= s.len() || i >= 5 {
        None
    } else if s[i as int] < 0x80 || i == 4 {
        Some(((s[i as int] % 0x80) as int, (i + 1) as nat))
    } else {
        match varint_parse_at(s, (i + 1) as nat) {
            None => None,
            Some((v, n)) => Some((s[i as int] - 0x80 + 0x80 * v, n)),
        }
    }
}

/// A successful varint parse consumed at least one byte past `i` and no more
/// than the buffer holds, and yielded a non-negative value.
pub proof fn lemma_varint_parse_bounds(s: Seq<u8>, i: nat)
    requires
        varint_parse_at(s, i) is Some,
    ensures
        i < s.len(),
        i < varint_parse_at(s, i)->Some_0.1 <= s.len(),
        varint_parse_at(s, i)->Some_0.1 <= 5,
        varint_parse_at(s, i)->Some_0.0 >= 0,
    decreases 5 - i,
{
    if !(s[i as int] < 0x80 || i == 4) {
        lemma_varint_parse_bounds(s, (i + 1) as nat);
    }
}

pub proof fn lemma_varint_bytes_len(x: u32)
    ensures
        1 <= varint_bytes_rec(x).len() <= 5,
        varint_bytes_rec(x).last() < 0x80,
{
    reveal_with_fuel(varint_bytes_rec, 6);
    let q1 = x / 0x80;
    let q2 = q1 / 0x80;
    let q3 = q2 / 0x80;
    let q4 = q3 / 0x80;
    assert(x / 0x80 / 0x80 / 0x80 / 0x80 < 0x80) by (bit_vector);
    if x < 0x80 {
        assert(varint_bytes_rec(x) =~= seq![x as u8]);
    } else if q1 < 0x80 {
        assert(varint_bytes_rec(x) =~= seq![(x % 0x80 + 0x80) as u8, q1 as u8]);
    } else if q2 < 0x80 {
        assert(varint_bytes_rec(x) =~= seq![
            (x % 0x80 + 0x80) as u8,
            (q1 % 0x80 + 0x80) as u8,
            q2 as u8,
        ]);
    } else if q3 < 0x80 {
        assert(varint_bytes_rec(x) =~= seq![
            (x % 0x80 + 0x80) as u8,
            (q1 % 0x80 + 0x80) as u8,
            (q2 % 0x80 + 0x80) as u8,
            q3 as u8,
        ]);
    } else {
        assert(varint_bytes_rec(x) =~= seq![
            (x % 0x80 + 0x80) as u8,
            (q1 % 0x80 + 0x80) as u8,
            (q2 % 0x80 + 0x80) as u8,
            (q3 % 0x80 + 0x80) as u8,
            q4 as u8,
        ]);
    }
}

/// Decoding the encoding of `x` (followed by anything) yields `x` back and
/// consumes exactly the encoding.
pub proof fn lemma_varint_round_trip(x: u32, rest: Seq<u8>)
    ensures
        varint_parse_at(varint_bytes_rec(x) + rest, 0) == Some(
            (x as int, varint_bytes_rec(x).len() as nat),
        ),
{
    lemma_varint_bytes_len(x);
    let s = varint_bytes_rec(x) + rest;
    assert(forall|k: int|
        0 <= k < varint_bytes_rec(x).len() ==> s[0 + k] == #[trigger] varint_bytes_rec(x)[k]);
    lemma_varint_round_trip_at(x, s, 0);
}

/// Wherever the encoding of `x` lies at offset `i` of a buffer (with at most
/// four continuation groups before its last byte), decoding from `i` yields
/// `x` and stops right after the encoding.
pub proof fn lemma_varint_round_trip_at(x: u32, s: Seq<u8>, i: nat)
    requires
        i + varint_bytes_rec(x).len() <= 5,
        i + varint_bytes_rec(x).len() <= s.len(),
        forall|k: int|
            0 <= k < varint_bytes_rec(x).len() ==> s[i + k] == #[trigger] varint_bytes_rec(x)[k],
    ensures
        varint_parse_at(s, i) == Some::<(int, nat)>(
            (x as int, (i + varint_bytes_rec(x).len()) as nat),
        ),
    decreases 5 - i,
{
    let enc = varint_bytes_rec(x);
    if x < 0x80 {
        assert(s[i as int] == enc[0]);
        assert(enc[0] == x as u8);
        assert(varint_parse_at(s, i) == Some::<(int, nat)>((x as int, (i + 1) as nat)));
    } else {
        assert(x / 0x80 < x) by (bit_vector)
            requires
                x >= 0x80,
        ;
        let q = x / 0x80;
        let tail = varint_bytes_rec(q);
        assert(enc =~= seq![(x % 0x80 + 0x80) as u8] + tail);
        assert(s[i as int] == enc[0]);
        assert(s[i as int] == (x % 0x80 + 0x80) as u8);
        assert(x % 0x80 + 0x80 >= 0x80 && x % 0x80 + 0x80 < 0x100);
        assert(s[i as int] >= 0x80);
        assert(tail.len() >= 1) by {
            lemma_varint_bytes_len(q);
        }
        assert(i < 4);
        assert(forall|k: int| 0 <= k < tail.len() ==> s[i + 1 + k] == #[trigger] tail[k]) by {
            assert(forall|k: int|
                0 <= k < tail.len() ==> #[trigger] tail[k] == enc[k + 1] && s[i + (k + 1)] == enc[k
                    + 1]);
        }
        lemma_varint_round_trip_at(q, s, (i + 1) as nat);
        assert(varint_parse_at(s, (i + 1) as nat) == Some::<(int, nat)>(
            (q as int, (i + 1 + tail.len()) as nat),
        ));
        assert(x % 0x80 + 0x80 * (x / 0x80) == x) by (bit_vector);
        assert(varint_parse_at(s, i) == Some::<(int, nat)>(
            (s[i as int] - 0x80 + 0x80 * (q as int), (i + 1 + tail.len()) as nat),
        ));
        assert(s[i as int] - 0x80 + 0x80 * (q as int) == x % 0x80 + 0x80 * (x / 0x80));
    }
}

// ---------------------------------------------------------------------------
// Length-prefixed strings: a varint byte count, then that many bytes.
// ---------------------------------------------------------------------------

/// The wire bytes of a string whose UTF-8 payload is `bytes`.
pub open spec fn string_bytes(bytes: Seq<u8>) -> Seq<u8> {
    varint_bytes(bytes.len() as i32) + bytes
}

/// What a string reader yields on `s`: the payload bytes and the total number
/// of bytes consumed, or `None` when the length prefix is malformed, negative,
/// or larger than what is left.
pub open spec fn string_parse(s: Seq<u8>) -> Option<(Seq<u8>, nat)> {
    match varint_parse_at(s, 0) {
        None => None,
        Some((v, n)) => {
            let val = i32_of_u32((v % 0x1_0000_0000) as u32);
            if val < 0 || n + val > s.len() {
                None
            } else {
                Some((s.subrange(n as int, n + val), (n + val) as nat))
            }
        },
    }
}

// ---------------------------------------------------------------------------
// The byte reader: a byte string consumed from the front.
// ---------------------------------------------------------------------------

/// A reader over a byte buffer; every decoder in this crate consumes one of
/// these. Its abstract state is `remaining()`, the bytes not yet consumed.
pub struct ByteReader {
    data: Vec<u8>,
    pos: usize,
}

impl ByteReader {
    pub closed spec fn wf(&self) -> bool {
        self.pos <= self.data@.len()
    }

    /// The bytes not yet consumed.
    pub closed spec fn remaining(&self) -> Seq<u8> {
        self.data@.skip(self.pos as int)
    }

    pub fn new(data: Vec<u8>) -> (r: ByteReader)
        ensures
            r.wf(),
            r.remaining() == data@,
    {
        let r = ByteReader { data, pos: 0 };
        proof {
            assert(r.remaining() =~= r.data@);
        }
        r
    }

    pub fn remaining_len(&self) -> (n: usize)
        requires
            self.wf(),
        ensures
            n == self.remaining().len(),
    {
        self.data.len() - self.pos
    }

    pub fn get_u8(&mut self) -> (r: Result<u8, CodecError>)
        requires
            old(self).wf(),
        ensures
            final(self).wf(),
            old(self).remaining().len() >= 1 ==> r == Ok::<u8, CodecError>(
                old(self).remaining()[0],
            ) && final(self).remaining() == old(self).remaining().skip(1),
            old(self).remaining().len() == 0 ==> r == Err::<u8, CodecError>(CodecError::Truncated)
                && *final(self) == *old(self),
    {
        if self.pos < self.data.len() {
            let b = self.data[self.pos];
            self.pos = self.pos + 1;
            proof {
                assert(self.remaining() =~= old(self).remaining().skip(1));
            }
            Ok(b)
        } else {
            Err(CodecError::Truncated)
        }
    }

    /// Copies the next `n` bytes out of the reader.
    pub fn take_bytes(&mut self, n: usize) -> (r: Result<Vec<u8>, CodecError>)
        requires
            old(self).wf(),
        ensures
            final(self).wf(),
            old(self).remaining().len() >= n ==> r is Ok && r->Ok_0@ == old(
                self,
            ).remaining().take(n as int) && final(self).remaining() == old(self).remaining().skip(n as int),
            old(self).remaining().len() < n ==> r == Err::<Vec<u8>, CodecError>(
                CodecError::Truncated,
            ) && *final(self) == *old(self),
    {
        if n > self.data.len() - self.pos {
            return Err(CodecError::Truncated);
        }
        let mut out: Vec<u8> = Vec::new();
        let mut i: usize = 0;
        while i < n
            invariant
                self.wf(),
                *self == *old(self),
                i <= n,
                self.pos + n <= self.data@.len(),
                self.data@.len() <= usize::MAX,
                out@ =~= self.remaining().take(i as int),
            decreases n - i,
        {
            proof {
                assert(self.pos + i < self.data@.len());
            }
            out.push(self.data[self.pos + i]);
            i = i + 1;
            proof {
                assert(out@ =~= self.remaining().take(i as int));
            }
        }
        self.pos = self.pos + n;
        proof {
            assert(self.remaining() =~= old(self).remaining().skip(n as int));
        }
        Ok(out)
    }

    /// Copies everything left in the reader, leaving it empty.
    pub fn take_rest(&mut self) -> (r: Vec<u8>)
        requires
            old(self).wf(),
        ensures
            final(self).wf(),
            r@ == old(self).remaining(),
            final(self).remaining().len() == 0,
    {
        let n = self.data.len() - self.pos;
        match self.take_bytes(n) {
            Ok(v) => {
                proof {
                    assert(old(self).remaining().take(n as int) =~= old(self).remaining());
                }
                v
            },
            Err(_) => {
                // unreachable: n never exceeds what is left
                proof {
                    assert(false);
                }
                Vec::new()
            },
        }
    }

    pub fn skip(&mut self, n: usize) -> (r: Result<(), CodecError>)
        requires
            old(self).wf(),
        ensures
            final(self).wf(),
            old(self).remaining().len() >= n ==> r is Ok && final(self).remaining() == old(
                self,
            ).remaining().skip(n as int),
            old(self).remaining().len() < n ==> r == Err::<(), CodecError>(CodecError::Truncated)
                && *final(self) == *old(self),
    {
        if n > self.data.len() - self.pos {
            return Err(CodecError::Truncated);
        }
        self.pos = self.pos + n;
        proof {
            assert(self.remaining() =~= old(self).remaining().skip(n as int));
        }
        Ok(())
    }

    pub fn get_u16(&mut self) -> (r: Result<u16, CodecError>)
        requires
            old(self).wf(),
        ensures
            final(self).wf(),
            old(self).remaining().len() >= 2 ==> r is Ok && r->Ok_0 == be16_val(
                old(self).remaining().take(2),
            ) && final(self).remaining() == old(self).remaining().skip(2),
            old(self).remaining().len() < 2 ==> r is Err && *final(self) == *old(self),
    {
        let bs = self.take_bytes(2)?;
        let v: u16 = (bs[0] as u16) * 0x100 + (bs[1] as u16);
        Ok(v)
    }

    pub fn get_u24(&mut self) -> (r: Result<u32, CodecError>)
        requires
            old(self).wf(),
        ensures
            final(self).wf(),
            old(self).remaining().len() >= 3 ==> r is Ok && r->Ok_0 == be24_val(
                old(self).remaining().take(3),
            ) && r->Ok_0 < 0x100_0000 && final(self).remaining() == old(self).remaining().skip(3),
            old(self).remaining().len() < 3 ==> r is Err && *final(self) == *old(self),
    {
        let bs = self.take_bytes(3)?;
        let v: u32 = (bs[0] as u32) * 0x1_0000 + (bs[1] as u32) * 0x100 + (bs[2] as u32);
        Ok(v)
    }

    pub fn get_u32(&mut self) -> (r: Result<u32, CodecError>)
        requires
            old(self).wf(),
        ensures
            final(self).wf(),
            old(self).remaining().len() >= 4 ==> r is Ok && r->Ok_0 == be32_val(
                old(self).remaining().take(4),
            ) && final(self).remaining() == old(self).remaining().skip(4),
            old(self).remaining().len() < 4 ==> r is Err && *final(self) == *old(self),
    {
        let bs = self.take_bytes(4)?;
        let v: u32 = (bs[0] as u32) * 0x100_0000 + (bs[1] as u32) * 0x1_0000 + (bs[2] as u32)
            * 0x100 + (bs[3] as u32);
        Ok(v)
    }

    pub fn get_u64(&mut self) -> (r: Result<u64, CodecError>)
        requires
            old(self).wf(),
        ensures
            final(self).wf(),
            old(self).remaining().len() >= 8 ==> r is Ok && r->Ok_0 == be64_val(
                old(self).remaining().take(8),
            ) && final(self).remaining() == old(self).remaining().skip(8),
            old(self).remaining().len() < 8 ==> r is Err && *final(self) == *old(self),
    {
        let bs = self.take_bytes(8)?;
        let v: u64 = (bs[0] as u64) * 0x100_0000_0000_0000 + (bs[1] as u64) * 0x1_0000_0000_0000 + (
        bs[2] as u64) * 0x100_0000_0000 + (bs[3] as u64) * 0x1_0000_0000 + (bs[4] as u64)
            * 0x100_0000 + (bs[5] as u64) * 0x1_0000 + (bs[6] as u64) * 0x100 + (bs[7] as u64);
        Ok(v)
    }

    pub fn get_i8(&mut self) -> (r: Result<i8, CodecError>)
        requires
            old(self).wf(),
        ensures
            final(self).wf(),
            old(self).remaining().len() >= 1 ==> r is Ok && r->Ok_0 == i8_of_u8(
                old(self).remaining()[0],
            ) && final(self).remaining() == old(self).remaining().skip(1),
            old(self).remaining().len() == 0 ==> r is Err && *final(self) == *old(self),
    {
        let b = self.get_u8()?;
        if b < 0x80 {
            Ok(b as i8)
        } else {
            Ok(((b as i16) - 0x100) as i8)
        }
    }

    pub fn get_i16(&mut self) -> (r: Result<i16, CodecError>)
        requires
            old(self).wf(),
        ensures
            final(self).wf(),
            old(self).remaining().len() >= 2 ==> r is Ok && r->Ok_0 == i16_of_u16(
                be16_val(old(self).remaining().take(2)),
            ) && final(self).remaining() == old(self).remaining().skip(2),
            old(self).remaining().len() < 2 ==> r is Err && *final(self) == *old(self),
    {
        let b = self.get_u16()?;
        if b < 0x8000 {
            Ok(b as i16)
        } else {
            Ok(((b as i32) - 0x1_0000) as i16)
        }
    }

    pub fn get_i32(&mut self) -> (r: Result<i32, CodecError>)
        requires
            old(self).wf(),
        ensures
            final(self).wf(),
            old(self).remaining().len() >= 4 ==> r is Ok && r->Ok_0 == i32_of_u32(
                be32_val(old(self).remaining().take(4)),
            ) && final(self).remaining() == old(self).remaining().skip(4),
            old(self).remaining().len() < 4 ==> r is Err && *final(self) == *old(self),
    {
        let b = self.get_u32()?;
        if b < 0x8000_0000 {
            Ok(b as i32)
        } else {
            Ok(((b as i64) - 0x1_0000_0000) as i32)
        }
    }

    pub fn get_i64(&mut self) -> (r: Result<i64, CodecError>)
        requires
            old(self).wf(),
        ensures
            final(self).wf(),
            old(self).remaining().len() >= 8 ==> r is Ok && r->Ok_0 == i64_of_u64(
                be64_val(old(self).remaining().take(8)),
            ) && final(self).remaining() == old(self).remaining().skip(8),
            old(self).remaining().len() < 8 ==> r is Err && *final(self) == *old(self),
    {
        let b = self.get_u64()?;
        if b < 0x8000_0000_0000_0000 {
            Ok(b as i64)
        } else {
            let low: u64 = b - 0x8000_0000_0000_0000;
            let shifted: i64 = (low as i64) - 0x7fff_ffff_ffff_ffff;
            Ok(shifted - 1)
        }
    }
}

// ---------------------------------------------------------------------------
// Readers and writers for the protocol primitives.
// ---------------------------------------------------------------------------

/// Reads a varint: up to five bytes of seven payload bits each, stopping at a
/// byte with a clear high bit or at the fifth byte.
pub fn read_varint(buf: &mut ByteReader) -> (r: Result<i32, CodecError>)
    requires
        old(buf).wf(),
    ensures
        final(buf).wf(),
        match varint_parse_at(old(buf).remaining(), 0) {
            None => r is Err && *final(buf) == *old(buf),
            Some((v, n)) => r == Ok::<i32, CodecError>(i32_of_u32((v % 0x1_0000_0000) as u32))
                && final(buf).remaining() == old(buf).remaining().skip(n as int),
        },
{
    let mut val: u64 = 0;
    let mut mult: u64 = 1;
    let mut i: usize = 0;
    let ghost s = buf.remaining();
    loop
        invariant
            buf.wf(),
            *buf == *old(buf),
            i <= 4,
            mult == pow128(i as nat),
            mult <= 0x1000_0000,
            val < mult,
            varint_parse_at(s, 0) == (match varint_parse_at(s, i as nat) {
                None => None::<(int, nat)>,
                Some((v, n)) => Some((val + mult * v, n)),
            }),
            forall|k: int| 0 <= k < i ==> s[k] >= 0x80,
            s == buf.remaining(),
        decreases 5 - i,
    {
        let b = match buf.get_u8_peek(i) {
            Ok(b) => b,
            Err(e) => {
                proof {
                    assert(varint_parse_at(s, i as nat) is None);
                }
                return Err(e);
            },
        };
        let group: u64 = (b % 0x80) as u64;
        proof {
            assert(val + mult * group < mult * 0x80) by (nonlinear_arith)
                requires
                    val < mult,
                    group < 0x80,
                    mult >= 1,
            ;
            assert(mult * 0x80 <= 0x1000_0000 * 0x80);
        }
        val = val + mult * group;
        if b < 0x80 || i == 4 {
            let n = i + 1;
            match buf.skip(n) {
                Ok(_) => {},
                Err(_) => {
                    proof {
                        assert(false);
                    }
                },
            }
            proof {
                assert(varint_parse_at(s, i as nat) == Some::<(int, nat)>(
                    ((b % 0x80) as int, (i + 1) as nat),
                ));
            }
            let out: u64 = val % 0x1_0000_0000;
            let out32: u32 = out as u32;
            if out32 < 0x8000_0000 {
                return Ok(out32 as i32);
            } else {
                let r: i64 = (out32 as i64) - 0x1_0000_0000;
                return Ok(r as i32);
            }
        }
        proof {
            if i + 1 >= s.len() {
                assert(varint_parse_at(s, (i + 1) as nat) is None);
            }
            assert(mult * 0x80 == pow128((i + 1) as nat));
            assert(pow128(0) == 1);
            assert(pow128(1) == 0x80);
            assert(pow128(2) == 0x4000);
            assert(pow128(3) == 0x20_0000);
            assert(pow128(4) == 0x1000_0000);
            assert(mult * 0x80 <= 0x1000_0000);
            if varint_parse_at(s, (i + 1) as nat) is Some {
                let (v2, n2) = varint_parse_at(s, (i + 1) as nat)->Some_0;
                assert(varint_parse_at(s, i as nat) == Some::<(int, nat)>(
                    (s[i as int] - 0x80 + 0x80 * v2, n2),
                ));
                assert(val + mult * ((b - 0x80) + 0x80 * v2) == (val + mult * group) + (mult
                    * 0x80) * v2) by (nonlinear_arith)
                    requires
                        group == b % 0x80,
                        b >= 0x80,
                        b < 0x100,
                ;
            }
        }
        mult = mult * 0x80;
        i = i + 1;
    }
}

pub open spec fn pow128(i: nat) -> int
    decreases i,
{
    if i == 0 {
        1
    } else {
        0x80 * pow128((i - 1) as nat)
    }
}

impl ByteReader {
    /// Reads the byte `i` positions past the current one without consuming it.
    pub fn get_u8_peek(&self, i: usize) -> (r: Result<u8, CodecError>)
        requires
            self.wf(),
        ensures
            i < self.remaining().len() ==> r == Ok::<u8, CodecError>(self.remaining()[i as int]),
            i >= self.remaining().len() ==> r == Err::<u8, CodecError>(CodecError::Truncated),
    {
        if i < self.data.len() - self.pos {
            Ok(self.data[self.pos + i])
        } else {
            Err(CodecError::Truncated)
        }
    }
}

/// Appends the minimum-length varint encoding of `value`.
pub fn write_varint(buf: &mut Vec<u8>, value: i32)
    ensures
        final(buf)@ == old(buf)@ + varint_bytes(value),
{
    let ux: u32 = if value >= 0 {
        value as u32
    } else {
        let wide: i64 = (value as i64) + 0x1_0000_0000;
        wide as u32
    };
    assert(ux == u32_of_i32(value));
    let mut x: u32 = ux;
    loop
        invariant
            ux == u32_of_i32(value),
            buf@ + varint_bytes_rec(x) == old(buf)@ + varint_bytes_rec(ux),
        decreases x,
    {
        if x < 0x80 {
            buf.push(x as u8);
            proof {
                assert(buf@ =~= old(buf)@ + varint_bytes_rec(ux));
            }
            return ;
        }
        let ghost prev = buf@;
        let ghost xprev = x;
        buf.push((x % 0x80 + 0x80) as u8);
        proof {
            assert(x / 0x80 < x) by (bit_vector)
                requires
                    x >= 0x80,
            ;
        }
        x = x / 0x80;
        proof {
            assert(varint_bytes_rec(xprev) =~= seq![(xprev % 0x80 + 0x80) as u8]
                + varint_bytes_rec(x));
            assert(buf@ + varint_bytes_rec(x) =~= prev + varint_bytes_rec(xprev));
        }
    }
}

/// Appends the minimum-length varlong encoding of `value`.
pub fn write_varlong(buf: &mut Vec<u8>, val: i64)
    ensures
        final(buf)@ == old(buf)@ + varlong_bytes(val),
{
    let ux: u64 = if val >= 0 {
        val as u64
    } else {
        let low: i64 = val + 0x7fff_ffff_ffff_ffff + 1;
        assert(low >= 0);
        (low as u64) + 0x8000_0000_0000_0000
    };
    assert(ux == u64_of_i64(val));
    let mut x: u64 = ux;
    loop
        invariant
            ux == u64_of_i64(val),
            buf@ + varlong_bytes_rec(x) == old(buf)@ + varlong_bytes_rec(ux),
        decreases x,
    {
        if x < 0x80 {
            buf.push(x as u8);
            proof {
                assert(buf@ =~= old(buf)@ + varlong_bytes_rec(ux));
            }
            return ;
        }
        let ghost prev = buf@;
        let ghost xprev = x;
        buf.push((x % 0x80 + 0x80) as u8);
        proof {
            assert(x / 0x80 < x) by (bit_vector)
                requires
                    x >= 0x80,
            ;
        }
        x = x / 0x80;
        proof {
            assert(varlong_bytes_rec(xprev) =~= seq![(xprev % 0x80 + 0x80) as u8]
                + varlong_bytes_rec(x));
            assert(buf@ + varlong_bytes_rec(x) =~= prev + varlong_bytes_rec(xprev));
        }
    }
}

/// Relies on String::from_utf8_lossy: invalid UTF-8 sequences are replaced
/// with U+FFFD; valid UTF-8 input decodes unchanged.
pub uninterp spec fn lossy_utf8_of(bytes: Seq<u8>) -> Seq<char>;

#[verifier::external_body]
pub(crate) fn utf8_lossy(bytes: &Vec<u8>) -> (r: String)
    ensures
        r@ == lossy_utf8_of(bytes@),
        vstd::utf8::valid_utf8(bytes@) ==> r@ == vstd::utf8::decode_utf8(bytes@),
{
    String::from_utf8_lossy(&bytes[..]).into_owned()
}

/// Reads a varint byte count then that many bytes, decoding them as UTF-8
/// with replacement of invalid sequences.
pub fn read_string(buf: &mut ByteReader) -> (r: Result<String, CodecError>)
    requires
        old(buf).wf(),
    ensures
        final(buf).wf(),
        match string_parse(old(buf).remaining()) {
            None => r is Err,
            Some((bytes, n)) => r is Ok && r->Ok_0@ == lossy_utf8_of(bytes) && (
            vstd::utf8::valid_utf8(bytes) ==> r->Ok_0@ == vstd::utf8::decode_utf8(bytes))
                && final(buf).remaining() == old(buf).remaining().skip(n as int),
        },
{
    let ghost s0 = old(buf).remaining();
    let len = match read_varint(buf) {
        Ok(l) => l,
        Err(e) => {
            return Err(e);
        },
    };
    let ghost s1 = buf.remaining();
    let ghost n = varint_parse_at(s0, 0)->Some_0.1;
    proof {
        assert(varint_parse_at(s0, 0) is Some);
        assert(s1 == s0.skip(n as int));
    }
    if len < 0 {
        return Err(CodecError::BadLength);
    }
    let bytes = match buf.take_bytes(len as usize) {
        Ok(b) => b,
        Err(e) => {
            proof {
                assert(s1.len() < len);
                assert(n + len > s0.len());
            }
            return Err(e);
        },
    };
    proof {
        lemma_varint_parse_bounds(s0, 0);
        assert(n <= s0.len());
        assert(s1.len() == s0.len() - n);
        assert(s1.len() >= len);
        assert(bytes@ == s1.take(len as int));
        assert(buf.remaining() == s1.skip(len as int));
        assert forall|j: int| 0 <= j < len implies s1[j] == s0[j + n] by {}
        assert(s1.take(len as int) =~= s0.subrange(n as int, n + len));
        assert(s1.skip(len as int) =~= s0.skip(n + len));
        assert(string_parse(s0) == Some::<(Seq<u8>, nat)>(
            (s0.subrange(n as int, n + len), (n + len) as nat),
        ));
    }
    Ok(utf8_lossy(&bytes))
}

/// Appends a varint byte count then the string's UTF-8 bytes.
pub fn write_string(buf: &mut Vec<u8>, s: &str)
    requires
        s@.len() <= 0x7fff_ffff,
        s.spec_bytes().len() <= 0x7fff_ffff,
    ensures
        final(buf)@ == old(buf)@ + string_bytes(s.spec_bytes()),
{
    let bs = s.as_bytes();
    write_varint(buf, bs.len() as i32);
    let ghost mid = buf@;
    let mut i: usize = 0;
    while i < bs.len()
        invariant
            i <= bs@.len(),
            bs@ == s.spec_bytes(),
            buf@ == mid + bs@.take(i as int),
        decreases bs@.len() - i,
    {
        buf.push(bs[i]);
        i = i + 1;
        proof {
            assert(buf@ =~= mid + bs@.take(i as int));
        }
    }
    proof {
        assert(bs@.take(bs@.len() as int) =~= bs@);
        assert(buf@ =~= old(buf)@ + string_bytes(s.spec_bytes()));
    }
}

/// Appends the bytes `v`.
pub fn write_bytes(buf: &mut Vec<u8>, v: &Vec<u8>)
    ensures
        final(buf)@ == old(buf)@ + v@,
{
    let mut i: usize = 0;
    while i < v.len()
        invariant
            i <= v@.len(),
            buf@ == old(buf)@ + v@.take(i as int),
        decreases v@.len() - i,
    {
        buf.push(v[i]);
        i = i + 1;
        proof {
            assert(buf@ =~= old(buf)@ + v@.take(i as int));
        }
    }
    proof {
        assert(v@.take(v@.len() as int) =~= v@);
    }
}

pub fn write_u8(buf: &mut Vec<u8>, v: u8)
    ensures
        final(buf)@ == old(buf)@ + seq![v],
{
    buf.push(v);
}

pub fn write_u16(buf: &mut Vec<u8>, v: u16)
    ensures
        final(buf)@ == old(buf)@ + u16_be_bytes(v),
{
    buf.push((v / 0x100) as u8);
    buf.push((v % 0x100) as u8);
    proof {
        assert(buf@ =~= old(buf)@ + u16_be_bytes(v));
    }
}

pub fn write_u24(buf: &mut Vec<u8>, v: u32)
    requires
        v < 0x100_0000,
    ensures
        final(buf)@ == old(buf)@ + u24_be_bytes(v),
{
    buf.push((v / 0x1_0000 % 0x100) as u8);
    buf.push((v / 0x100 % 0x100) as u8);
    buf.push((v % 0x100) as u8);
    proof {
        assert(buf@ =~= old(buf)@ + u24_be_bytes(v));
    }
}

pub fn write_u32(buf: &mut Vec<u8>, v: u32)
    ensures
        final(buf)@ == old(buf)@ + u32_be_bytes(v),
{
    buf.push((v / 0x100_0000) as u8);
    buf.push((v / 0x1_0000 % 0x100) as u8);
    buf.push((v / 0x100 % 0x100) as u8);
    buf.push((v % 0x100) as u8);
    proof {
        assert(buf@ =~= old(buf)@ + u32_be_bytes(v));
    }
}

pub fn write_u64(buf: &mut Vec<u8>, v: u64)
    ensures
        final(buf)@ == old(buf)@ + u64_be_bytes(v),
{
    buf.push((v / 0x100_0000_0000_0000) as u8);
    buf.push((v / 0x1_0000_0000_0000 % 0x100) as u8);
    buf.push((v / 0x100_0000_0000 % 0x100) as u8);
    buf.push((v / 0x1_0000_0000 % 0x100) as u8);
    buf.push((v / 0x100_0000 % 0x100) as u8);
    buf.push((v / 0x1_0000 % 0x100) as u8);
    buf.push((v / 0x100 % 0x100) as u8);
    buf.push((v % 0x100) as u8);
    proof {
        assert(buf@ =~= old(buf)@ + u64_be_bytes(v));
    }
}

pub fn write_i8(buf: &mut Vec<u8>, v: i8)
    ensures
        final(buf)@ == old(buf)@ + seq![u8_of_i8(v)],
{
    if v >= 0 {
        buf.push(v as u8);
    } else {
        buf.push(((v as i16) + 0x100) as u8);
    }
    proof {
        assert(buf@ =~= old(buf)@ + seq![u8_of_i8(v)]);
    }
}

pub fn write_i16(buf: &mut Vec<u8>, v: i16)
    ensures
        final(buf)@ == old(buf)@ + u16_be_bytes(u16_of_i16(v)),
{
    if v >= 0 {
        write_u16(buf, v as u16);
    } else {
        write_u16(buf, ((v as i32) + 0x1_0000) as u16);
    }
}

pub fn write_i32(buf: &mut Vec<u8>, v: i32)
    ensures
        final(buf)@ == old(buf)@ + u32_be_bytes(u32_of_i32(v)),
{
    if v >= 0 {
        write_u32(buf, v as u32);
    } else {
        write_u32(buf, ((v as i64) + 0x1_0000_0000) as u32);
    }
}

pub fn write_i64(buf: &mut Vec<u8>, v: i64)
    ensures
        final(buf)@ == old(buf)@ + u64_be_bytes(u64_of_i64(v)),
{
    if v >= 0 {
        write_u64(buf, v as u64);
    } else {
        let low: i64 = v + 0x7fff_ffff_ffff_ffff + 1;
        assert(low >= 0);
        write_u64(buf, (low as u64) + 0x8000_0000_0000_0000);
    }
}

/// Reads a UUID as 16 raw big-endian bytes.
pub fn read_uuid(buf: &mut ByteReader) -> (r: Result<u128, CodecError>)
    requires
        old(buf).wf(),
    ensures
        final(buf).wf(),
        old(buf).remaining().len() >= 16 ==> r is Ok && u128_be_bytes(r->Ok_0) == old(
            buf,
        ).remaining().take(16) && r->Ok_0 == be128_val(old(buf).remaining().take(16))
            && final(buf).remaining() == old(buf).remaining().skip(16),
        old(buf).remaining().len() < 16 ==> r is Err,
{
    let hi = buf.get_u64()?;
    let lo = match buf.get_u64() {
        Ok(v) => v,
        Err(e) => {
            return Err(e);
        },
    };
    let v: u128 = (hi as u128) * 0x1_0000_0000_0000_0000 + (lo as u128);
    proof {
        assert((v / 0x1_0000_0000_0000_0000) as u64 == hi && (v
            % 0x1_0000_0000_0000_0000) as u64 == lo) by (nonlinear_arith)
            requires
                v == (hi as u128) * 0x1_0000_0000_0000_0000 + (lo as u128),
                hi < 0x1_0000_0000_0000_0000,
                lo < 0x1_0000_0000_0000_0000,
        ;
        assert(u128_be_bytes(v) =~= old(buf).remaining().take(16)) by {
            assert(old(buf).remaining().take(8) =~= old(buf).remaining().take(16).take(8));
            assert(old(buf).remaining().skip(8).take(8) =~= old(buf).remaining().take(16).skip(8));
            assert(u128_be_bytes(v) =~= u64_be_bytes(hi) + u64_be_bytes(lo));
            lemma_u64_be_inverse(old(buf).remaining().take(8));
            lemma_u64_be_inverse(old(buf).remaining().skip(8).take(8));
        }
        assert(buf.remaining() =~= old(buf).remaining().skip(16));
        assert(old(buf).remaining().take(16).take(8) =~= old(buf).remaining().take(8));
        assert(old(buf).remaining().take(16).subrange(8, 16) =~= old(buf).remaining().skip(
            8,
        ).take(8));
        assert(v == be128_val(old(buf).remaining().take(16)));
    }
    Ok(v)
}

/// Appends a UUID as 16 raw big-endian bytes.
pub fn write_uuid(buf: &mut Vec<u8>, id: u128)
    ensures
        final(buf)@ == old(buf)@ + u128_be_bytes(id),
{
    proof {
        assert(id / 0x1_0000_0000_0000_0000 < 0x1_0000_0000_0000_0000) by (nonlinear_arith);
    }
    let hi: u64 = (id / 0x1_0000_0000_0000_0000) as u64;
    let lo: u64 = (id % 0x1_0000_0000_0000_0000) as u64;
    write_u64(buf, hi);
    write_u64(buf, lo);
    proof {
        assert(buf@ =~= old(buf)@ + u128_be_bytes(id));
    }
}

/// A bool as the wire writes it: one byte, 1 for true and 0 for false.
pub open spec fn bool_byte(b: bool) -> u8 {
    if b {
        1u8
    } else {
        0u8
    }
}

pub fn write_bool(buf: &mut Vec<u8>, v: bool)
    ensures
        final(buf)@ == old(buf)@ + seq![bool_byte(v)],
{
    buf.push(if v {
        1u8
    } else {
        0u8
    });
}

} // verus!
