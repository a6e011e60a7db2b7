use swandist::chunk::{bits_for_len, pack_ids, unpack_ids, BlockState, BlockTable, BlockType, SubChunk};
use swandist::nbt::{Tag, TagType};
use swandist::region::{ChunkInfo, Region, RegionWriter};
use swandist::utils::{read_varint, write_varint, ByteReader};

fn roundtrip_varint(v: i32) {
    let mut buf: Vec<u8> = Vec::new();
    write_varint(&mut buf, v);
    assert!(buf.len() <= 5);
    let mut r = ByteReader::new(buf);
    assert_eq!(read_varint(&mut r).unwrap(), v);
    assert_eq!(r.remaining_len(), 0);
}

#[test]
fn test_varint_roundtrip() {
    for v in [0, 1, 2, 127, 128, 255, 300, 25565, 0x7fffffff, -1, -2, -25565, -0x80000000] {
        roundtrip_varint(v);
    }
    let mut buf: Vec<u8> = Vec::new();
    write_varint(&mut buf, 767);
    assert_eq!(buf, vec![0xff, 0x05]);
}

#[test]
fn test_nbt() {
    let mut map: Vec<(Vec<u8>, Tag)> = Vec::new();
    map.push((b"byte".to_vec(), Tag::Byte(0)));
    map.push((b"short".to_vec(), Tag::Short(3453)));
    map.push((b"int".to_vec(), Tag::Int(34543346)));
    map.push((b"long".to_vec(), Tag::Long(43624578963498)));
    map.push((b"float".to_vec(), Tag::Float(0.34545f32.to_bits())));
    map.push((b"double".to_vec(), Tag::Double(0.437853467834f64.to_bits())));
    map.push((b"bytearray".to_vec(), Tag::ByteArray(vec![0u8, 1, 2, 3])));
    map.push((b"string".to_vec(), Tag::String(b"abcdefg".to_vec())));
    map.push((b"list".to_vec(), Tag::List(vec![Tag::Int(0), Tag::Int(6)])));
    let nested = vec![
        (b"a".to_vec(), Tag::Int(0)),
        (b"b".to_vec(), Tag::Int(1)),
        (b"c".to_vec(), Tag::Int(2)),
    ];
    map.push((b"compound".to_vec(), Tag::Compound(nested)));
    map.push((b"intarray".to_vec(), Tag::IntArray(vec![1, 2, 3, 4, 5, 6, 7, 8])));
    map.push((
        b"longarray".to_vec(),
        Tag::LongArray(vec![3425673454634, 346568485667542, 869273876787, 237846328437]),
    ));
    let tag = Tag::Compound(map);
    let mut buf: Vec<u8> = Vec::new();
    tag.serialize(&mut buf, false);
    let mut reader = ByteReader::new(buf);
    let new_tag = Tag::parse(&mut reader).unwrap();
    assert_eq!(tag, new_tag);
}

#[test]
fn test_nbt_network_roundtrip() {
    let tag = Tag::Compound(vec![
        (b"k".to_vec(), Tag::String(b"v".to_vec())),
        (b"n".to_vec(), Tag::Int(-7)),
    ]);
    let mut buf: Vec<u8> = Vec::new();
    tag.serialize(&mut buf, true);
    // nameless network form: type byte then payload, no name length
    assert_eq!(buf[0], 0x0a);
    let mut reader = ByteReader::new(buf);
    let parsed =
        Tag::parse_network(&mut reader, swandist::version::ProtocolVersion::V1_21).unwrap();
    assert_eq!(tag, parsed);
}

#[test]
fn test_nbt_accessors() {
    let tag = Tag::Compound(vec![
        (b"outer".to_vec(), Tag::Compound(vec![(b"inner".to_vec(), Tag::Int(5))])),
        (b"s".to_vec(), Tag::String(b"hi".to_vec())),
    ]);
    assert_eq!(tag.get("s").unwrap().as_string().unwrap(), &b"hi".to_vec());
    assert_eq!(tag.traverse("outer/inner").unwrap().as_int().unwrap(), 5);
    assert!(tag.traverse("outer/missing").is_none());
    assert!(tag.get("nope").is_err());
    assert_eq!(TagType::from_id(10), TagType::Compound);
    assert_eq!(TagType::from_id(99), TagType::Invalid);
}

#[test]
fn test_chunk_index() {
    assert_eq!(ChunkInfo::get_index(0, 0), 0);
    assert_eq!(ChunkInfo::get_index(5, 7), 7 * 32 + 5);
    assert_eq!(ChunkInfo::get_index(-1, -1), 31 * 32 + 31);
}

#[test]
fn test_region_roundtrip() {
    // chunks at (0,0) and (5,7) written, reparsed bit-exactly; other slots empty
    let mut w = RegionWriter::new();
    let a: Vec<u8> = {
        let mut v = vec![3u8];
        v.extend_from_slice(&[1, 2, 3, 4, 5]);
        v
    };
    let b: Vec<u8> = {
        let mut v = vec![3u8];
        v.extend_from_slice(&[9; 5000]);
        v
    };
    w.set_chunk_raw(0, 0, a.clone()).unwrap();
    w.set_chunk_raw(5, 7, b.clone()).unwrap();
    w.set_chunk_timestamp(0, 0, 11);
    w.set_chunk_timestamp(5, 7, 22);
    let file = w.serialize();
    assert_eq!(file.len() % 4096, 0);
    let region = Region::load(file);
    assert_eq!(region.get_chunk_raw(0, 0).unwrap(), a);
    assert_eq!(region.get_chunk_raw(5, 7).unwrap(), b);
    assert_eq!(*region.get_timestamp(0, 0).unwrap(), 11);
    assert_eq!(*region.get_timestamp(5, 7).unwrap(), 22);
    assert!(region.get_chunk_raw(1, 0).is_none());
    assert!(region.get_chunk_raw(31, 31).is_none());
    // the stored payload decompresses as-is under the raw tag
    assert_eq!(region.get_chunk_data(0, 0).unwrap(), vec![1, 2, 3, 4, 5]);
}

#[test]
fn test_region_nbt() {
    let tag = Tag::Compound(vec![(b"DataVersion".to_vec(), Tag::Int(3700))]);
    let mut payload = vec![3u8];
    let mut body: Vec<u8> = Vec::new();
    tag.serialize(&mut body, false);
    payload.extend_from_slice(&body);
    let mut w = RegionWriter::new();
    w.set_chunk_raw(2, 3, payload).unwrap();
    let region = Region::load(w.serialize());
    let parsed = region.get_chunk_nbt(2, 3).unwrap();
    assert_eq!(parsed, tag);
}

#[test]
fn test_pack_roundtrip() {
    // the packed block array of any palette up to 2^15 entries survives the
    // encode-and-decode round trip
    let mut ids: Vec<u16> = Vec::new();
    for i in 0..4096u32 {
        ids.push((i % 30) as u16);
    }
    let bits = bits_for_len(30);
    assert_eq!(bits, 5);
    let words = pack_ids(&ids, bits);
    assert_eq!(words.len(), (4096 + 12 - 1) / 12);
    let stored: Vec<i64> = words.iter().map(|w| *w as i64).collect();
    let unpacked = unpack_ids(&stored, bits);
    assert!(unpacked.len() >= 4096);
    for i in 0..4096 {
        assert_eq!(unpacked[i], ids[i]);
    }
    // exact powers of two pick the same width on both sides
    assert_eq!(bits_for_len(16), 4);
    assert_eq!(bits_for_len(17), 5);
    assert_eq!(bits_for_len(32), 5);
    assert_eq!(bits_for_len(33), 6);
}

#[test]
fn test_subchunk_empty() {
    let sc = SubChunk::empty();
    assert_eq!(sc.palette.len(), 1);
    assert_eq!(sc.blocks.len(), 4096);
    assert!(sc.blocks.iter().all(|b| *b == 0));
    assert_eq!(sc.block_light.as_ref().unwrap().len(), 2048);
    assert_eq!(sc.sky_light.as_ref().unwrap().len(), 2048);
    let block = sc.get_block(0, 0, 0).unwrap();
    assert_eq!(block.name().unwrap(), &b"minecraft:air".to_vec());
}

#[test]
fn test_resolve_block() {
    let table = BlockTable {
        types: vec![(
            b"minecraft:stone".to_vec(),
            BlockType {
                states: vec![BlockState { id: 42, properties: vec![], default: true }],
            },
        )],
    };
    let stone = swandist::block::Block::new("minecraft:stone", vec![]);
    assert_eq!(swandist::chunk::resolve_block_id(&table, &stone.data), 42);
    let air = swandist::block::Block::new("minecraft:air", vec![]);
    assert_eq!(swandist::chunk::resolve_block_id(&table, &air.data), 0);
    let unknown = swandist::block::Block::new("minecraft:mystery", vec![]);
    assert_eq!(swandist::chunk::resolve_block_id(&table, &unknown.data), 0);
}

#[test]
fn test_chunk_from_region() {
    // a chunk tag with one section at Y=0 holding a one-entry palette
    let stone = swandist::block::Block::new("minecraft:stone", vec![]);
    let section = Tag::Compound(vec![
        (b"Y".to_vec(), Tag::Byte(0)),
        (
            b"block_states".to_vec(),
            Tag::Compound(vec![
                (b"palette".to_vec(), Tag::List(vec![stone.data.deep_clone()])),
                (b"data".to_vec(), Tag::LongArray(vec![0i64; 256])),
            ]),
        ),
        (b"SkyLight".to_vec(), Tag::ByteArray(vec![0xff; 2048])),
    ]);
    let chunk_tag = Tag::Compound(vec![(b"sections".to_vec(), Tag::List(vec![section]))]);
    let mut payload = vec![3u8];
    let mut body: Vec<u8> = Vec::new();
    chunk_tag.serialize(&mut body, false);
    payload.extend_from_slice(&body);
    let mut w = RegionWriter::new();
    w.set_chunk_raw(1, 2, payload).unwrap();
    let region = Region::load(w.serialize());
    let chunk = region.get_chunk(1, 2).unwrap();
    assert_eq!(chunk.subchunks.len(), 1);
    let sc = chunk.get_subchunk(0).unwrap();
    assert_eq!(sc.palette.len(), 1);
    assert_eq!(sc.blocks.len(), 256 * 16);
    assert!(sc.sky_light.is_some());
    assert!(sc.block_light.is_none());
    let b = chunk.get_block(3, 2, 5).unwrap();
    assert_eq!(b.name().unwrap(), &b"minecraft:stone".to_vec());
    assert!(region.get_chunk(9, 9).is_none());
}

#[test]
fn test_chunk_empty_is_air() {
    let c = swandist::chunk::Chunk::empty();
    assert_eq!(c.subchunks.len(), 28);
    for (y, sc) in c.subchunks.iter() {
        assert!((-4..24).contains(&(*y as i32)));
        let b = sc.get_block(0, 15, 15).unwrap();
        assert_eq!(b.name().unwrap(), &b"minecraft:air".to_vec());
    }
}
