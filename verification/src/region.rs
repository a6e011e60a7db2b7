use vstd::prelude::*;

verus! {

use vstd::pervasive::VecAdditionalExecFns;

use crate::utils::{
    ByteReader,
    be24_val,
    be32_val,
    u24_be_bytes,
    u32_be_bytes,
    i32_of_u32,
    u32_of_i32,
    write_u8,
    write_u24,
    write_u32,
    write_bytes,
    lemma_u24_be_round,
    lemma_u32_be_round,
};
use crate::nbt::{Tag, TagError, SpecTag, tag_view, spec_parse_root};

/// The paged region file holds a 1024-slot table; a chunk at world position
/// `(x, z)` lives in slot `(z mod 32) * 32 + (x mod 32)`.
pub open spec fn spec_chunk_index(chunk_x: i32, chunk_z: i32) -> int {
    (u32_of_i32(chunk_z) % 32) * 32 + (u32_of_i32(chunk_x) % 32)
}

/// A byte of a region file, with reads past the end giving 0, as the header
/// loader's zero-filled buffer does.
pub open spec fn byte_at(s: Seq<u8>, j: int) -> u8 {
    if 0 <= j < s.len() {
        s[j]
    } else {
        0
    }
}

/// Slot `idx`'s offset field: a 24-bit big-endian count of 4 KiB sectors.
pub open spec fn spec_header_offset(s: Seq<u8>, idx: int) -> u32 {
    (byte_at(s, 4 * idx) * 0x1_0000 + byte_at(s, 4 * idx + 1) * 0x100 + byte_at(
        s,
        4 * idx + 2,
    )) as u32
}

/// Slot `idx`'s sector-count byte.
pub open spec fn spec_header_sectors(s: Seq<u8>, idx: int) -> u8 {
    byte_at(s, 4 * idx + 3)
}

/// Slot `idx`'s timestamp from the second header page.
pub open spec fn spec_header_timestamp(s: Seq<u8>, idx: int) -> u32 {
    (byte_at(s, 4096 + 4 * idx) * 0x100_0000 + byte_at(s, 4096 + 4 * idx + 1) * 0x1_0000 + byte_at(
        s,
        4096 + 4 * idx + 2,
    ) * 0x100 + byte_at(s, 4096 + 4 * idx + 3)) as u32
}

/// The raw chunk record for `(x, z)` in region file `s`: the compression-tag
/// byte and the compressed body, exactly as stored. `None` when the slot is
/// empty or the record is malformed or truncated.
pub open spec fn spec_chunk_raw(s: Seq<u8>, chunk_x: i32, chunk_z: i32) -> Option<Seq<u8>> {
    let idx = spec_chunk_index(chunk_x, chunk_z);
    let off = spec_header_offset(s, idx);
    let sec = spec_header_sectors(s, idx);
    if off == 0 || sec == 0 {
        None
    } else {
        let base = off * 4096;
        if base + 4 > s.len() {
            None
        } else {
            let len = be32_val(s.subrange(base as int, base + 4)) as int;
            if len < 1 || base + 4 + len > s.len() {
                None
            } else {
                Some(s.subrange(base + 4, base + 4 + len))
            }
        }
    }
}

/// One slot of the region header: where a chunk's record starts (in 4 KiB
/// sectors from the start of the file) and how many sectors it spans.
#[derive(Debug, Clone, Copy, PartialEq, Eq, Structural)]
pub struct ChunkInfo {
    pub offset: u32,
    pub sectors: u8,
}

impl ChunkInfo {
    pub fn new(offset: u32, sectors: u8) -> (r: ChunkInfo)
        ensures
            r.offset == offset,
            r.sectors == sectors,
    {
        ChunkInfo { offset, sectors }
    }

    /// The header slot of chunk `(x, z)`.
    pub fn get_index(chunk_x: i32, chunk_z: i32) -> (r: usize)
        ensures
            r == spec_chunk_index(chunk_x, chunk_z),
            r < 1024,
    {
        let ux: u32 = if chunk_x >= 0 {
            chunk_x as u32
        } else {
            ((chunk_x as i64) + 0x1_0000_0000) as u32
        };
        let uz: u32 = if chunk_z >= 0 {
            chunk_z as u32
        } else {
            ((chunk_z as i64) + 0x1_0000_0000) as u32
        };
        proof {
            assert(ux == u32_of_i32(chunk_x));
            assert(uz == u32_of_i32(chunk_z));
        }
        let r: u32 = (uz % 32) * 32 + (ux % 32);
        r as usize
    }
}

/// The two 1024-entry header tables of a region file.
#[derive(Debug, Clone)]
pub struct RegionHeader {
    pub chunks: Vec<ChunkInfo>,
    pub timestamps: Vec<u32>,
}

impl RegionHeader {
    /// An empty header: every slot unused, every timestamp zero.
    pub fn new() -> (r: RegionHeader)
        ensures
            r.chunks@.len() == 1024,
            r.timestamps@.len() == 1024,
            forall|i: int| 0 <= i < 1024 ==> (#[trigger] r.chunks@[i]) == (ChunkInfo {
                offset: 0u32,
                sectors: 0u8,
            }),
            forall|i: int| 0 <= i < 1024 ==> (#[trigger] r.timestamps@[i]) == 0u32,
    {
        let mut chunks: Vec<ChunkInfo> = Vec::new();
        let mut i: usize = 0;
        while i < 1024
            invariant
                i <= 1024,
                chunks@.len() == i,
                forall|k: int| 0 <= k < i ==> (#[trigger] chunks@[k]) == (ChunkInfo {
                    offset: 0u32,
                    sectors: 0u8,
                }),
            decreases 1024 - i,
        {
            chunks.push(ChunkInfo { offset: 0, sectors: 0 });
            i = i + 1;
        }
        let mut timestamps: Vec<u32> = Vec::new();
        let mut j: usize = 0;
        while j < 1024
            invariant
                j <= 1024,
                timestamps@.len() == j,
                forall|k: int| 0 <= k < j ==> (#[trigger] timestamps@[k]) == 0u32,
            decreases 1024 - j,
        {
            timestamps.push(0);
            j = j + 1;
        }
        RegionHeader { chunks, timestamps }
    }
}

/// A region file held in memory, with its header parsed into tables.
pub struct Region {
    data: Vec<u8>,
    header: RegionHeader,
}

impl Region {
    /// The raw bytes of the whole region file.
    pub closed spec fn bytes(&self) -> Seq<u8> {
        self.data@
    }

    pub closed spec fn wf(&self) -> bool {
        self.header.chunks@.len() == 1024 && self.header.timestamps@.len() == 1024 && (forall|
            i: int,
        |
            0 <= i < 1024 ==> (#[trigger] self.header.chunks@[i]).offset == spec_header_offset(
                self.data@,
                i,
            ) && self.header.chunks@[i].sectors == spec_header_sectors(self.data@, i)) && (forall|
            i: int,
        |
            0 <= i < 1024 ==> (#[trigger] self.header.timestamps@[i]) == spec_header_timestamp(
                self.data@,
                i,
            ))
    }

    /// Parses the 8 KiB header of the given file image; bytes past the end
    /// of a short file read as zero.
    pub fn load(file: Vec<u8>) -> (r: Region)
        ensures
            r.wf(),
            r.bytes() == file@,
    {
        let mut chunks: Vec<ChunkInfo> = Vec::new();
        let mut i: usize = 0;
        while i < 1024
            invariant
                i <= 1024,
                chunks@.len() == i,
                forall|k: int|
                    0 <= k < i ==> (#[trigger] chunks@[k]).offset == spec_header_offset(file@, k)
                        && chunks@[k].sectors == spec_header_sectors(file@, k),
            decreases 1024 - i,
        {
            let b0 = read_byte_or_zero(&file, 4 * i);
            let b1 = read_byte_or_zero(&file, 4 * i + 1);
            let b2 = read_byte_or_zero(&file, 4 * i + 2);
            let b3 = read_byte_or_zero(&file, 4 * i + 3);
            let off: u32 = (b0 as u32) * 0x1_0000 + (b1 as u32) * 0x100 + (b2 as u32);
            chunks.push(ChunkInfo { offset: off, sectors: b3 });
            i = i + 1;
        }
        let mut timestamps: Vec<u32> = Vec::new();
        let mut j: usize = 0;
        while j < 1024
            invariant
                j <= 1024,
                timestamps@.len() == j,
                forall|k: int|
                    0 <= k < j ==> (#[trigger] timestamps@[k]) == spec_header_timestamp(file@, k),
            decreases 1024 - j,
        {
            let b0 = read_byte_or_zero(&file, 4096 + 4 * j);
            let b1 = read_byte_or_zero(&file, 4096 + 4 * j + 1);
            let b2 = read_byte_or_zero(&file, 4096 + 4 * j + 2);
            let b3 = read_byte_or_zero(&file, 4096 + 4 * j + 3);
            let ts: u32 = (b0 as u32) * 0x100_0000 + (b1 as u32) * 0x1_0000 + (b2 as u32) * 0x100
                + (b3 as u32);
            timestamps.push(ts);
            j = j + 1;
        }
        Region { data: file, header: RegionHeader { chunks, timestamps } }
    }

    /// The stored timestamp of chunk `(x, z)`.
    pub fn get_timestamp(&self, chunk_x: i32, chunk_z: i32) -> (r: Option<&u32>)
        requires
            self.wf(),
        ensures
            r is Some && *r->0 == spec_header_timestamp(
                self.bytes(),
                spec_chunk_index(chunk_x, chunk_z),
            ),
    {
        let idx = ChunkInfo::get_index(chunk_x, chunk_z);
        Some(&self.header.timestamps[idx])
    }

    /// The raw chunk record: the compression-tag byte and the compressed
    /// body, copied verbatim; `None` for an empty slot or a malformed record.
    pub fn get_chunk_raw(&self, chunk_x: i32, chunk_z: i32) -> (r: Option<Vec<u8>>)
        requires
            self.wf(),
        ensures
            match spec_chunk_raw(self.bytes(), chunk_x, chunk_z) {
                None => r is None,
                Some(bs) => r is Some && r->0@ == bs,
            },
    {
        let idx = ChunkInfo::get_index(chunk_x, chunk_z);
        let info = self.header.chunks[idx];
        if info.offset == 0 || info.sectors == 0 {
            return None;
        }
        let base: u64 = (info.offset as u64) * 4096;
        if base + 4 > self.data.len() as u64 {
            return None;
        }
        let b = base as usize;
        let len: u32 = (self.data[b] as u32) * 0x100_0000 + (self.data[b + 1] as u32) * 0x1_0000 + (
        self.data[b + 2] as u32) * 0x100 + (self.data[b + 3] as u32);
        proof {
            assert(self.data@.subrange(base as int, base as int + 4) =~= seq![
                self.data@[b as int],
                self.data@[b + 1],
                self.data@[b + 2],
                self.data@[b + 3],
            ]);
        }
        if len < 1 {
            return None;
        }
        if (len as u64) > self.data.len() as u64 - base - 4 {
            return None;
        }
        let mut out: Vec<u8> = Vec::new();
        let mut i: usize = 0;
        let n = len as usize;
        while i < n
            invariant
                i <= n,
                b + 4 + n <= self.data@.len(),
                self.data@.len() <= usize::MAX,
                out@ =~= self.data@.subrange(b + 4, b + 4 + i),
            decreases n - i,
        {
            out.push(self.data[b + 4 + i]);
            i = i + 1;
            proof {
                assert(out@ =~= self.data@.subrange(b + 4, b + 4 + i));
            }
        }
        Some(out)
    }
}

fn read_byte_or_zero(v: &Vec<u8>, j: usize) -> (r: u8)
    ensures
        r == byte_at(v@, j as int),
{
    if j < v.len() {
        v[j]
    } else {
        0
    }
}

/// What decompressing a chunk body yields, by compression tag: 1 is gzip,
/// 2 is zlib, 3 is stored uncompressed; anything else is malformed.
pub open spec fn spec_chunk_data(s: Seq<u8>, chunk_x: i32, chunk_z: i32) -> Option<Seq<u8>> {
    match spec_chunk_raw(s, chunk_x, chunk_z) {
        None => None,
        Some(raw) => {
            let body = raw.skip(1);
            if raw[0] == 1 {
                gzip_inflated(body)
            } else if raw[0] == 2 {
                zlib_inflated(body)
            } else if raw[0] == 3 {
                Some(body)
            } else {
                None
            }
        },
    }
}

/// Relies on flate2's GzDecoder: the decompressed stream is a function of
/// the compressed input alone, and an error means the input is not a valid
/// gzip stream.
pub uninterp spec fn gzip_inflated(bytes: Seq<u8>) -> Option<Seq<u8>>;

#[verifier::external_body]
fn gzip_decode(data: &[u8]) -> (r: Option<Vec<u8>>)
    ensures
        match r {
            Some(v) => gzip_inflated(data@) == Some(v@),
            None => gzip_inflated(data@) is None,
        },
{
    let mut dec = flate2::read::GzDecoder::new(data);
    let mut out = Vec::<u8>::new();
    match std::io::Read::read_to_end(&mut dec, &mut out) {
        Ok(_) => Some(out),
        Err(_) => None,
    }
}

/// Relies on flate2's ZlibDecoder: the decompressed stream is a function of
/// the compressed input alone, and an error means the input is not a valid
/// zlib stream.
pub uninterp spec fn zlib_inflated(bytes: Seq<u8>) -> Option<Seq<u8>>;

#[verifier::external_body]
fn zlib_decode(data: &[u8]) -> (r: Option<Vec<u8>>)
    ensures
        match r {
            Some(v) => zlib_inflated(data@) == Some(v@),
            None => zlib_inflated(data@) is None,
        },
{
    let mut dec = flate2::read::ZlibDecoder::new(data);
    let mut out = Vec::<u8>::new();
    match std::io::Read::read_to_end(&mut dec, &mut out) {
        Ok(_) => Some(out),
        Err(_) => None,
    }
}

impl Region {
    /// The decompressed serialized tag bytes of chunk `(x, z)`; `None` for
    /// an empty slot, a bad compression tag, or a corrupt stream.
    pub fn get_chunk_data(&self, chunk_x: i32, chunk_z: i32) -> (r: Option<Vec<u8>>)
        requires
            self.wf(),
        ensures
            match spec_chunk_data(self.bytes(), chunk_x, chunk_z) {
                None => r is None,
                Some(bs) => r is Some && r->0@ == bs,
            },
    {
        let raw = match self.get_chunk_raw(chunk_x, chunk_z) {
            Some(raw) => raw,
            None => {
                return None;
            },
        };
        if raw.len() < 1 {
            proof {
                assert(false);
            }
            return None;
        }
        let comp = raw[0];
        let body = raw.as_slice().split_at(1).1;
        proof {
            assert(body@ =~= raw@.skip(1));
        }
        if comp == 1 {
            gzip_decode(body)
        } else if comp == 2 {
            zlib_decode(body)
        } else if comp == 3 {
            let mut out: Vec<u8> = Vec::new();
            write_bytes(&mut out, &{
                let mut v: Vec<u8> = Vec::new();
                let mut i: usize = 1;
                while i < raw.len()
                    invariant
                        1 <= i <= raw@.len(),
                        v@ =~= raw@.subrange(1, i as int),
                    decreases raw@.len() - i,
                {
                    v.push(raw[i]);
                    i = i + 1;
                    proof {
                        assert(v@ =~= raw@.subrange(1, i as int));
                    }
                }
                proof {
                    assert(v@ =~= raw@.skip(1));
                }
                v
            });
            proof {
                assert(out@ =~= raw@.skip(1));
            }
            Some(out)
        } else {
            None
        }
    }

    /// The parsed root tag of chunk `(x, z)`; `None` when the chunk is
    /// absent or its serialized form is corrupt.
    pub fn get_chunk_nbt(&self, chunk_x: i32, chunk_z: i32) -> (r: Option<Tag>)
        requires
            self.wf(),
        ensures
            match spec_chunk_data(self.bytes(), chunk_x, chunk_z) {
                None => r is None,
                Some(bs) => (match spec_parse_root(bs, false) {
                    None => r is None,
                    Some((st, used)) => r is Some && tag_view(r->0) == st,
                }),
            },
    {
        let data = match self.get_chunk_data(chunk_x, chunk_z) {
            Some(d) => d,
            None => {
                return None;
            },
        };
        let mut reader = ByteReader::new(data);
        match Tag::parse(&mut reader) {
            Ok(t) => Some(t),
            Err(_) => None,
        }
    }

    /// The decoded chunk at `(x, z)`: its parsed root tag read into
    /// sub-chunks; `None` when the chunk is absent or corrupt.
    pub fn get_chunk(&self, chunk_x: i32, chunk_z: i32) -> (r: Option<crate::chunk::Chunk>)
        requires
            self.wf(),
        ensures
            match spec_chunk_data(self.bytes(), chunk_x, chunk_z) {
                None => r is None,
                Some(bs) => (match spec_parse_root(bs, false) {
                    None => r is None,
                    Some((st, used)) => r is Some && {
                        let entries = crate::chunk::spec_chunk_entries(
                            crate::chunk::spec_sections(st),
                            0,
                        );
                        &&& r->0.subchunks@.len() == entries.len()
                        &&& (forall|k: int|
                            0 <= k < entries.len() ==> (#[trigger] r->0.subchunks@[k]).0
                                == entries[k].0 && crate::chunk::subchunk_models(
                                r->0.subchunks@[k].1,
                                entries[k].1,
                            ))
                    },
                }),
            },
    {
        match self.get_chunk_nbt(chunk_x, chunk_z) {
            Some(tag) => Some(crate::chunk::Chunk::new(&tag)),
            None => None,
        }
    }
}

/// What stops a chunk record from being written: an empty record (the
/// compression-tag byte is mandatory), or one that would not fit the
/// sector-count byte or the 24-bit offset field.
#[derive(Debug, Clone, Copy, PartialEq, Eq, Structural)]
pub enum RegionError {
    Empty,
    TooLarge,
}

/// How many 4 KiB sectors a record of `n` payload bytes occupies, with its
/// four-byte length prefix.
pub open spec fn spec_needed_sectors(n: int) -> int {
    (n + 4 + 4095) / 4096
}

/// Accumulates raw chunk records padded to whole sectors, and the header
/// that points at them; `serialize` emits the final region file.
pub struct RegionWriter {
    data: Vec<u8>,
    current_sector: usize,
    header: RegionHeader,
    contents: Ghost<Map<int, Seq<u8>>>,
}

impl RegionWriter {
    /// The accumulated chunk records, in file order, sector-padded.
    pub closed spec fn payload(&self) -> Seq<u8> {
        self.data@
    }

    /// The next free sector index within the payload area.
    pub closed spec fn sectors(&self) -> int {
        self.current_sector as int
    }

    pub closed spec fn chunk_table(&self) -> Seq<ChunkInfo> {
        self.header.chunks@
    }

    pub closed spec fn timestamps(&self) -> Seq<u32> {
        self.header.timestamps@
    }

    /// The raw record bytes each written slot holds.
    pub closed spec fn contents(&self) -> Map<int, Seq<u8>> {
        self.contents@
    }

    pub open spec fn entry_ok(table: Seq<ChunkInfo>, payload: Seq<u8>, d: Seq<u8>, i: int) -> bool {
        let info = table[i];
        &&& 2 <= info.offset < 0x100_0000
        &&& info.sectors >= 1
        &&& 1 <= d.len()
        &&& d.len() + 4 <= 255 * 4096
        &&& (info.offset - 2) * 4096 + 4 + d.len() <= payload.len()
        &&& payload.subrange((info.offset - 2) * 4096, (info.offset - 2) * 4096 + 4) == u32_be_bytes(
            d.len() as u32,
        )
        &&& payload.subrange((info.offset - 2) * 4096 + 4, (info.offset - 2) * 4096 + 4 + d.len())
            == d
    }

    pub closed spec fn wf(&self) -> bool {
        &&& self.header.chunks@.len() == 1024
        &&& self.header.timestamps@.len() == 1024
        &&& self.data@.len() == self.current_sector * 4096
        &&& self.current_sector + 2 <= 0xff_ffff
        &&& (forall|i: int|
            0 <= i < 1024 && !self.contents@.contains_key(i)
                ==> (#[trigger] self.header.chunks@[i]).offset == 0
                && self.header.chunks@[i].sectors == 0)
        &&& (forall|i: int|
            #[trigger] self.contents@.contains_key(i) ==> 0 <= i < 1024 && Self::entry_ok(
                self.header.chunks@,
                self.data@,
                self.contents@[i],
                i,
            ))
    }

    /// A fresh writer: no records, every slot empty, payload starting at
    /// sector 2 right after the header.
    pub fn new() -> (r: RegionWriter)
        ensures
            r.wf(),
            r.payload() == Seq::<u8>::empty(),
            r.sectors() == 0,
            r.contents() == Map::<int, Seq<u8>>::empty(),
            r.timestamps() == Seq::new(1024, |i: int| 0u32),
    {
        let r = RegionWriter {
            data: Vec::new(),
            current_sector: 0,
            header: RegionHeader::new(),
            contents: Ghost(Map::empty()),
        };
        proof {
            assert(r.header.timestamps@ =~= Seq::new(1024, |i: int| 0u32));
        }
        r
    }

    /// The payload area accumulated so far.
    pub fn inner(&self) -> (r: &Vec<u8>)
        ensures
            r@ == self.payload(),
    {
        &self.data
    }

    /// Writes the raw record of chunk `(x, z)`: the compression-tag byte and
    /// the compressed body, which will be length-prefixed and padded to a
    /// whole number of sectors.
    pub fn set_chunk_raw(&mut self, chunk_x: i32, chunk_z: i32, data: Vec<u8>) -> (r: Result<
        (),
        RegionError,
    >)
        requires
            old(self).wf(),
        ensures
            final(self).wf(),
            r is Ok <==> (1 <= data@.len() && spec_needed_sectors(data@.len() as int) <= 255 && old(
                self,
            ).sectors() + spec_needed_sectors(data@.len() as int) + 2 <= 0xff_ffff),
            r is Err ==> *final(self) == *old(self),
            r is Ok ==> ({
                let idx = spec_chunk_index(chunk_x, chunk_z);
                let n = spec_needed_sectors(data@.len() as int);
                &&& final(self).contents() == old(self).contents().insert(idx, data@)
                &&& final(self).chunk_table() == old(self).chunk_table().update(
                    idx,
                    ChunkInfo {
                        offset: (old(self).sectors() + 2) as u32,
                        sectors: n as u8,
                    },
                )
                &&& final(self).timestamps() == old(self).timestamps()
                &&& final(self).sectors() == old(self).sectors() + n
                &&& final(self).payload() == old(self).payload() + u32_be_bytes(
                    data@.len() as u32,
                ) + data@ + Seq::new((n * 4096 - (data@.len() + 4)) as nat, |i: int| 0u8)
            }),
    {
        let idx = ChunkInfo::get_index(chunk_x, chunk_z);
        if data.len() < 1 {
            return Err(RegionError::Empty);
        }
        if data.len() > 255 * 4096 - 4 {
            return Err(RegionError::TooLarge);
        }
        let full_len: usize = data.len() + 4;
        let num_sectors: usize = (full_len + 4095) / 4096;
        proof {
            assert(num_sectors == spec_needed_sectors(data@.len() as int));
            assert(1 <= num_sectors <= 255);
        }
        if self.current_sector > 0xff_ffff - 2 - num_sectors {
            return Err(RegionError::TooLarge);
        }
        let ghost old_payload = self.data@;
        write_u32(&mut self.data, data.len() as u32);
        write_bytes(&mut self.data, &data);
        let pad: usize = num_sectors * 4096 - full_len;
        let ghost before_pad = self.data@;
        let mut p: usize = 0;
        while p < pad
            invariant
                p <= pad,
                self.data@ == before_pad + Seq::new(p as nat, |i: int| 0u8),
                self.current_sector == old(self).current_sector,
                self.header == old(self).header,
                self.contents@ == old(self).contents@,
            decreases pad - p,
        {
            self.data.push(0);
            p = p + 1;
            proof {
                assert(self.data@ =~= before_pad + Seq::new(p as nat, |i: int| 0u8));
            }
        }
        let sector_offset = self.current_sector;
        self.header.chunks.set(idx, ChunkInfo {
            offset: (sector_offset + 2) as u32,
            sectors: num_sectors as u8,
        });
        self.current_sector = self.current_sector + num_sectors;
        proof {
            self.contents@ = self.contents@.insert(idx as int, data@);
        }
        proof {
            let nd = data@;
            let oldlen = old(self).data@.len() as int;
            let oldsec = old(self).current_sector as int;
            let newlen = self.data@.len() as int;
            let newsec = self.current_sector as int;
            assert(newlen == oldlen + 4 + nd.len() + pad);
            assert(newlen == newsec * 4096) by (nonlinear_arith)
                requires
                    newlen == oldlen + 4 + nd.len() + pad,
                    oldlen == oldsec * 4096,
                    pad == num_sectors * 4096 - (nd.len() + 4),
                    nd.len() + 4 <= num_sectors * 4096,
                    newsec == oldsec + num_sectors,
            ;
            // the new record's bytes sit where its table entry points
            assert(Self::entry_ok(self.header.chunks@, self.data@, nd, idx as int)) by {
                assert(self.data@.subrange(
                    old(self).current_sector * 4096,
                    old(self).current_sector * 4096 + 4,
                ) =~= u32_be_bytes(nd.len() as u32));
                assert(self.data@.subrange(
                    old(self).current_sector * 4096 + 4,
                    old(self).current_sector * 4096 + 4 + nd.len(),
                ) =~= nd);
            }
            // earlier records are untouched by the append
            assert forall|i: int|
                #[trigger] self.contents@.contains_key(i) && i != idx implies 0 <= i < 1024
                && Self::entry_ok(self.header.chunks@, self.data@, self.contents@[i], i) by {
                assert(old(self).contents@.contains_key(i));
                assert(Self::entry_ok(
                    old(self).header.chunks@,
                    old(self).data@,
                    old(self).contents@[i],
                    i,
                ));
                let info = old(self).header.chunks@[i];
                let d = old(self).contents@[i];
                assert(self.header.chunks@[i] == info);
                assert(self.data@.subrange((info.offset - 2) * 4096, (info.offset - 2) * 4096 + 4)
                    =~= old(self).data@.subrange(
                    (info.offset - 2) * 4096,
                    (info.offset - 2) * 4096 + 4,
                ));
                assert(self.data@.subrange(
                    (info.offset - 2) * 4096 + 4,
                    (info.offset - 2) * 4096 + 4 + d.len(),
                ) =~= old(self).data@.subrange(
                    (info.offset - 2) * 4096 + 4,
                    (info.offset - 2) * 4096 + 4 + d.len(),
                ));
            }
            assert(self.data@ =~= old(self).data@ + u32_be_bytes(nd.len() as u32) + nd + Seq::new(
                (num_sectors * 4096 - (nd.len() + 4)) as nat,
                |i: int| 0u8,
            ));
        }
        Ok(())
    }

    /// Stamps the timestamp slot of chunk `(x, z)`.
    pub fn set_chunk_timestamp(&mut self, chunk_x: i32, chunk_z: i32, timestamp: u32)
        requires
            old(self).wf(),
        ensures
            final(self).wf(),
            final(self).timestamps() == old(self).timestamps().update(
                spec_chunk_index(chunk_x, chunk_z),
                timestamp,
            ),
            final(self).chunk_table() == old(self).chunk_table(),
            final(self).payload() == old(self).payload(),
            final(self).sectors() == old(self).sectors(),
            final(self).contents() == old(self).contents(),
    {
        let idx = ChunkInfo::get_index(chunk_x, chunk_z);
        self.header.timestamps.set(idx, timestamp);
    }
}

/// The header page of slot table entries, from entry `i` on.
pub open spec fn chunks_bytes_from(tbl: Seq<ChunkInfo>, i: int) -> Seq<u8>
    decreases tbl.len() - i,
{
    if i < 0 || i >= tbl.len() {
        Seq::empty()
    } else {
        u24_be_bytes(tbl[i].offset) + seq![tbl[i].sectors] + chunks_bytes_from(tbl, i + 1)
    }
}

/// The timestamp page, from entry `i` on.
pub open spec fn ts_bytes_from(ts: Seq<u32>, i: int) -> Seq<u8>
    decreases ts.len() - i,
{
    if i < 0 || i >= ts.len() {
        Seq::empty()
    } else {
        u32_be_bytes(ts[i]) + ts_bytes_from(ts, i + 1)
    }
}

/// The whole region file a writer stands for.
pub open spec fn spec_region_file(
    tbl: Seq<ChunkInfo>,
    ts: Seq<u32>,
    payload: Seq<u8>,
) -> Seq<u8> {
    chunks_bytes_from(tbl, 0) + ts_bytes_from(ts, 0) + payload
}

impl RegionWriter {
    /// Emits the region file: the two 4 KiB header pages, then the payload.
    pub fn serialize(&self) -> (r: Vec<u8>)
        requires
            self.wf(),
        ensures
            r@ == spec_region_file(self.chunk_table(), self.timestamps(), self.payload()),
    {
        let mut buf: Vec<u8> = Vec::new();
        let ghost tbl = self.header.chunks@;
        let mut i: usize = 0;
        while i < 1024
            invariant
                i <= 1024,
                tbl == self.header.chunks@,
                tbl.len() == 1024,
                self.wf(),
                buf@ + chunks_bytes_from(tbl, i as int) == chunks_bytes_from(tbl, 0),
            decreases 1024 - i,
        {
            let ghost pre = buf@;
            let info = self.header.chunks[i];
            proof {
                assert(self.contents@.contains_key(i as int) || tbl[i as int].offset == 0);
                if self.contents@.contains_key(i as int) {
                    assert(Self::entry_ok(tbl, self.data@, self.contents@[i as int], i as int));
                }
                assert(info.offset < 0x100_0000);
            }
            write_u24(&mut buf, info.offset);
            write_u8(&mut buf, info.sectors);
            proof {
                assert(chunks_bytes_from(tbl, i as int) == u24_be_bytes(tbl[i as int].offset)
                    + seq![tbl[i as int].sectors] + chunks_bytes_from(tbl, i + 1));
                assert(buf@ + chunks_bytes_from(tbl, i + 1) =~= pre + chunks_bytes_from(
                    tbl,
                    i as int,
                ));
            }
            i = i + 1;
        }
        proof {
            assert(chunks_bytes_from(tbl, 1024) =~= Seq::<u8>::empty());
            assert(buf@ =~= chunks_bytes_from(tbl, 0));
        }
        let ghost tsv = self.header.timestamps@;
        let ghost after_chunks = buf@;
        let mut j: usize = 0;
        while j < 1024
            invariant
                j <= 1024,
                tsv == self.header.timestamps@,
                tsv.len() == 1024,
                buf@ + ts_bytes_from(tsv, j as int) == after_chunks + ts_bytes_from(tsv, 0),
            decreases 1024 - j,
        {
            let ghost pre = buf@;
            write_u32(&mut buf, self.header.timestamps[j]);
            proof {
                assert(ts_bytes_from(tsv, j as int) == u32_be_bytes(tsv[j as int])
                    + ts_bytes_from(tsv, j + 1));
                assert(buf@ + ts_bytes_from(tsv, j + 1) =~= pre + ts_bytes_from(tsv, j as int));
            }
            j = j + 1;
        }
        proof {
            assert(ts_bytes_from(tsv, 1024) =~= Seq::<u8>::empty());
            assert(buf@ =~= after_chunks + ts_bytes_from(tsv, 0));
        }
        write_bytes(&mut buf, &self.data);
        proof {
            assert(buf@ =~= spec_region_file(self.chunk_table(), self.timestamps(), self.payload()));
        }
        buf
    }
}

/// The layout of the slot-table page: 4 bytes per slot.
proof fn lemma_chunks_bytes_shape(tbl: Seq<ChunkInfo>, k: int)
    requires
        0 <= k <= tbl.len(),
    ensures
        chunks_bytes_from(tbl, k).len() == 4 * (tbl.len() - k),
        forall|j: int|
            k <= j < tbl.len() ==> #[trigger] chunks_bytes_from(tbl, k).subrange(
                4 * (j - k),
                4 * (j - k) + 4,
            ) == u24_be_bytes(tbl[j].offset) + seq![tbl[j].sectors],
    decreases tbl.len() - k,
{
    if k < tbl.len() {
        lemma_chunks_bytes_shape(tbl, k + 1);
        assert(chunks_bytes_from(tbl, k).len() == 4 * (tbl.len() - k));
        assert forall|j: int| k <= j < tbl.len() implies #[trigger] chunks_bytes_from(
            tbl,
            k,
        ).subrange(4 * (j - k), 4 * (j - k) + 4) =~= u24_be_bytes(tbl[j].offset) + seq![
            tbl[j].sectors,
        ] by {
            assert(chunks_bytes_from(tbl, k) == u24_be_bytes(tbl[k].offset) + seq![tbl[k].sectors]
                + chunks_bytes_from(tbl, k + 1));
            if j == k {
            } else {
                assert(chunks_bytes_from(tbl, k + 1).subrange(
                    4 * (j - (k + 1)),
                    4 * (j - (k + 1)) + 4,
                ) == u24_be_bytes(tbl[j].offset) + seq![tbl[j].sectors]);
                assert(4 * (j - (k + 1)) == 4 * (j - k - 1));
                assert(chunks_bytes_from(tbl, k).subrange(4 * (j - k), 4 * (j - k) + 4)
                    =~= chunks_bytes_from(tbl, k + 1).subrange(4 * (j - k - 1), 4 * (j - k - 1) + 4));
            }
        }
    }
}

/// The layout of the timestamp page: 4 bytes per slot.
proof fn lemma_ts_bytes_shape(ts: Seq<u32>, k: int)
    requires
        0 <= k <= ts.len(),
    ensures
        ts_bytes_from(ts, k).len() == 4 * (ts.len() - k),
        forall|j: int|
            k <= j < ts.len() ==> #[trigger] ts_bytes_from(ts, k).subrange(
                4 * (j - k),
                4 * (j - k) + 4,
            ) == u32_be_bytes(ts[j]),
    decreases ts.len() - k,
{
    if k < ts.len() {
        lemma_ts_bytes_shape(ts, k + 1);
        assert(ts_bytes_from(ts, k).len() == 4 * (ts.len() - k));
        assert forall|j: int| k <= j < ts.len() implies #[trigger] ts_bytes_from(ts, k).subrange(
            4 * (j - k),
            4 * (j - k) + 4,
        ) =~= u32_be_bytes(ts[j]) by {
            assert(ts_bytes_from(ts, k) == u32_be_bytes(ts[k]) + ts_bytes_from(ts, k + 1));
            if j == k {
            } else {
                assert(ts_bytes_from(ts, k + 1).subrange(4 * (j - (k + 1)), 4 * (j - (k + 1)) + 4)
                    == u32_be_bytes(ts[j]));
                assert(4 * (j - (k + 1)) == 4 * (j - k - 1));
                assert(ts_bytes_from(ts, k).subrange(4 * (j - k), 4 * (j - k) + 4)
                    =~= ts_bytes_from(ts, k + 1).subrange(4 * (j - k - 1), 4 * (j - k - 1) + 4));
            }
        }
    }
}

/// Law: a chunk record written into a region writer comes back bit-exactly,
/// with its timestamp, from the serialized region file.
#[verifier::rlimit(100)]
#[verifier::spinoff_prover]
pub proof fn lemma_region_round_trip(w: RegionWriter, chunk_x: i32, chunk_z: i32)
    requires
        w.wf(),
        w.contents().contains_key(spec_chunk_index(chunk_x, chunk_z)),
    ensures
        spec_chunk_raw(
            spec_region_file(w.chunk_table(), w.timestamps(), w.payload()),
            chunk_x,
            chunk_z,
        ) == Some(w.contents()[spec_chunk_index(chunk_x, chunk_z)]),
        spec_header_timestamp(
            spec_region_file(w.chunk_table(), w.timestamps(), w.payload()),
            spec_chunk_index(chunk_x, chunk_z),
        ) == w.timestamps()[spec_chunk_index(chunk_x, chunk_z)],
{
    let idx = spec_chunk_index(chunk_x, chunk_z);
    let tbl = w.chunk_table();
    let ts = w.timestamps();
    let pl = w.payload();
    let s = spec_region_file(tbl, ts, pl);
    let d = w.contents()[idx];
    let info = tbl[idx];
    lemma_chunks_bytes_shape(tbl, 0);
    lemma_ts_bytes_shape(ts, 0);
    let cb = chunks_bytes_from(tbl, 0);
    let tb = ts_bytes_from(ts, 0);
    assert(cb.len() == 4096 && tb.len() == 4096);
    assert(s.len() == 8192 + pl.len());
    assert(RegionWriter::entry_ok(tbl, pl, d, idx));
    // the slot entry as read back from the file
    assert(forall|j: int| 0 <= j < 4096 ==> s[j] == cb[j]);
    assert(cb.subrange(4 * (idx - 0), 4 * (idx - 0) + 4) == u24_be_bytes(info.offset) + seq![
        info.sectors,
    ]);
    assert(cb.subrange(4 * idx, 4 * idx + 4) == u24_be_bytes(info.offset) + seq![info.sectors]);
    assert(s[4 * idx] == cb[4 * idx] && s[4 * idx + 1] == cb[4 * idx + 1] && s[4 * idx + 2] == cb[4
        * idx + 2] && s[4 * idx + 3] == cb[4 * idx + 3]);
    assert(cb[4 * idx] == u24_be_bytes(info.offset)[0] && cb[4 * idx + 1] == u24_be_bytes(
        info.offset,
    )[1] && cb[4 * idx + 2] == u24_be_bytes(info.offset)[2] && cb[4 * idx + 3] == info.sectors) by {
        let sub = cb.subrange(4 * idx, 4 * idx + 4);
        assert(sub[0] == cb[4 * idx + 0] && sub[1] == cb[4 * idx + 1] && sub[2] == cb[4 * idx + 2]
            && sub[3] == cb[4 * idx + 3]);
        let rhs = u24_be_bytes(info.offset) + seq![info.sectors];
        assert(rhs[0] == u24_be_bytes(info.offset)[0] && rhs[1] == u24_be_bytes(info.offset)[1]
            && rhs[2] == u24_be_bytes(info.offset)[2] && rhs[3] == info.sectors);
    }
    lemma_u24_be_round(info.offset);
    assert(spec_header_offset(s, idx) == be24_val(u24_be_bytes(info.offset)));
    assert(spec_header_offset(s, idx) == info.offset);
    assert(spec_header_sectors(s, idx) == info.sectors);
    assert(info.offset != 0 && info.sectors != 0);
    // the record bytes as read back from the file
    let base = info.offset * 4096;
    assert(base == 8192 + (info.offset - 2) * 4096) by (nonlinear_arith)
        requires
            base == info.offset * 4096,
            info.offset >= 2,
    ;
    assert(forall|j: int| 0 <= j < pl.len() ==> s[8192 + j] == pl[j]);
    assert(base + 4 + d.len() <= s.len());
    assert(s.subrange(base as int, base + 4) =~= pl.subrange(
        (info.offset - 2) * 4096,
        (info.offset - 2) * 4096 + 4,
    ));
    lemma_u32_be_round(d.len() as u32);
    assert(be32_val(s.subrange(base as int, base + 4)) == d.len());
    assert(s.subrange(base + 4, base + 4 + d.len()) =~= pl.subrange(
        (info.offset - 2) * 4096 + 4,
        (info.offset - 2) * 4096 + 4 + d.len(),
    ));
    // the timestamp as read back from the file
    assert(forall|j: int| 0 <= j < 4096 ==> s[4096 + j] == tb[j]);
    assert(tb.subrange(4 * (idx - 0), 4 * (idx - 0) + 4) == u32_be_bytes(ts[idx]));
    assert(tb.subrange(4 * idx, 4 * idx + 4) == u32_be_bytes(ts[idx]));
    assert(s[4096 + 4 * idx] == u32_be_bytes(ts[idx])[0] && s[4096 + 4 * idx + 1] == u32_be_bytes(
        ts[idx],
    )[1] && s[4096 + 4 * idx + 2] == u32_be_bytes(ts[idx])[2] && s[4096 + 4 * idx + 3]
        == u32_be_bytes(ts[idx])[3]) by {
        let sub = tb.subrange(4 * idx, 4 * idx + 4);
        assert(sub[0] == tb[4 * idx + 0] && sub[1] == tb[4 * idx + 1] && sub[2] == tb[4 * idx + 2]
            && sub[3] == tb[4 * idx + 3]);
    }
    lemma_u32_be_round(ts[idx]);
    assert(spec_header_timestamp(s, idx) == ts[idx]);
}

/// Law: a slot never written stays empty in the serialized region file.
pub proof fn lemma_region_empty_slot(w: RegionWriter, chunk_x: i32, chunk_z: i32)
    requires
        w.wf(),
        !w.contents().contains_key(spec_chunk_index(chunk_x, chunk_z)),
    ensures
        spec_chunk_raw(
            spec_region_file(w.chunk_table(), w.timestamps(), w.payload()),
            chunk_x,
            chunk_z,
        ) is None,
{
    let idx = spec_chunk_index(chunk_x, chunk_z);
    let tbl = w.chunk_table();
    let s = spec_region_file(tbl, w.timestamps(), w.payload());
    lemma_chunks_bytes_shape(tbl, 0);
    let cb = chunks_bytes_from(tbl, 0);
    assert(forall|j: int| 0 <= j < 4096 ==> s[j] == cb[j]);
    assert(cb.subrange(4 * (idx - 0), 4 * (idx - 0) + 4) == u24_be_bytes(tbl[idx].offset) + seq![
        tbl[idx].sectors,
    ]);
    assert(tbl[idx].offset == 0 && tbl[idx].sectors == 0);
    assert(cb[4 * idx] == u24_be_bytes(0u32)[0] && cb[4 * idx + 1] == u24_be_bytes(0u32)[1] && cb[4
        * idx + 2] == u24_be_bytes(0u32)[2]) by {
        let sub = cb.subrange(4 * idx, 4 * idx + 4);
        assert(sub[0] == cb[4 * idx + 0] && sub[1] == cb[4 * idx + 1] && sub[2] == cb[4 * idx + 2]);
        let rhs = u24_be_bytes(0u32) + seq![tbl[idx].sectors];
        assert(rhs[0] == u24_be_bytes(0u32)[0] && rhs[1] == u24_be_bytes(0u32)[1] && rhs[2]
            == u24_be_bytes(0u32)[2]);
    }
    assert(spec_header_offset(s, idx) == 0);
}

} // verus!
