use vstd::prelude::*;

verus! {

use vstd::string::StringSliceAdditionalSpecFns;

use crate::utils::{
    ByteReader,
    u8_of_i8,
    i8_of_u8,
    u16_of_i16,
    i16_of_u16,
    u32_of_i32,
    i32_of_u32,
    u64_of_i64,
    i64_of_u64,
    u16_be_bytes,
    be16_val,
    u32_be_bytes,
    be32_val,
    u64_be_bytes,
    be64_val,
    write_u8,
    write_u16,
    write_u32,
    write_u64,
    write_i8,
    write_i16,
    write_i32,
    write_i64,
    write_bytes,
    lemma_u16_be_round,
    lemma_u16_be_inverse,
    lemma_u32_be_round,
    lemma_u32_be_inverse,
    lemma_u64_be_round,
    lemma_u64_be_inverse,
};

/// The wire tag types of the binary tag format, one per payload shape.
#[derive(Debug, Clone, Copy, PartialEq, Eq, Structural)]
pub enum TagType {
    End,
    Byte,
    Short,
    Int,
    Long,
    Float,
    Double,
    ByteArray,
    String,
    List,
    Compound,
    IntArray,
    LongArray,
    Invalid,
}

impl TagType {
    pub open spec fn spec_from_id(tag: u8) -> TagType {
        if tag == 0 {
            TagType::End
        } else if tag == 1 {
            TagType::Byte
        } else if tag == 2 {
            TagType::Short
        } else if tag == 3 {
            TagType::Int
        } else if tag == 4 {
            TagType::Long
        } else if tag == 5 {
            TagType::Float
        } else if tag == 6 {
            TagType::Double
        } else if tag == 7 {
            TagType::ByteArray
        } else if tag == 8 {
            TagType::String
        } else if tag == 9 {
            TagType::List
        } else if tag == 10 {
            TagType::Compound
        } else if tag == 11 {
            TagType::IntArray
        } else if tag == 12 {
            TagType::LongArray
        } else {
            TagType::Invalid
        }
    }

    pub fn from_id(tag: u8) -> (r: TagType)
        ensures
            r == TagType::spec_from_id(tag),
    {
        if tag == 0 {
            TagType::End
        } else if tag == 1 {
            TagType::Byte
        } else if tag == 2 {
            TagType::Short
        } else if tag == 3 {
            TagType::Int
        } else if tag == 4 {
            TagType::Long
        } else if tag == 5 {
            TagType::Float
        } else if tag == 6 {
            TagType::Double
        } else if tag == 7 {
            TagType::ByteArray
        } else if tag == 8 {
            TagType::String
        } else if tag == 9 {
            TagType::List
        } else if tag == 10 {
            TagType::Compound
        } else if tag == 11 {
            TagType::IntArray
        } else if tag == 12 {
            TagType::LongArray
        } else {
            TagType::Invalid
        }
    }
}

/// The error returned when an accessor is applied to a tag of another shape,
/// or when parsing runs off the end of the data or meets a negative size.
#[derive(Debug, Clone, Copy, PartialEq, Eq, Structural)]
pub struct TagError {}

/// A node of the recursive binary tag tree. Strings are kept as their UTF-8
/// bytes; floating-point payloads are kept as their IEEE-754 bit patterns,
/// which is all the codec ever moves.
#[derive(Debug, PartialEq)]
pub enum Tag {
    End,
    Byte(i8),
    Short(i16),
    Int(i32),
    Long(i64),
    Float(u32),
    Double(u64),
    ByteArray(Vec<u8>),
    String(Vec<u8>),
    List(Vec<Tag>),
    Compound(Vec<(Vec<u8>, Tag)>),
    IntArray(Vec<i32>),
    LongArray(Vec<i64>),
    Invalid,
}

/// The mathematical model of a tag: the same tree with sequences in place of
/// vectors. Contracts and laws are stated over this type.
pub enum SpecTag {
    End,
    Byte(i8),
    Short(i16),
    Int(i32),
    Long(i64),
    Float(u32),
    Double(u64),
    ByteArray(Seq<u8>),
    String(Seq<u8>),
    List(Seq<SpecTag>),
    Compound(Seq<(Seq<u8>, SpecTag)>),
    IntArray(Seq<i32>),
    LongArray(Seq<i64>),
    Invalid,
}

/// The model of an executable tag.
pub open spec fn tag_view(t: Tag) -> SpecTag
    decreases t,
{
    match t {
        Tag::End => SpecTag::End,
        Tag::Byte(v) => SpecTag::Byte(v),
        Tag::Short(v) => SpecTag::Short(v),
        Tag::Int(v) => SpecTag::Int(v),
        Tag::Long(v) => SpecTag::Long(v),
        Tag::Float(v) => SpecTag::Float(v),
        Tag::Double(v) => SpecTag::Double(v),
        Tag::ByteArray(v) => SpecTag::ByteArray(v@),
        Tag::String(v) => SpecTag::String(v@),
        Tag::List(v) => SpecTag::List(
            Seq::new(
                v@.len(),
                |i: int|
                    if 0 <= i < v@.len() {
                        tag_view(v@[i])
                    } else {
                        SpecTag::End
                    },
            ),
        ),
        Tag::Compound(v) => SpecTag::Compound(
            Seq::new(
                v@.len(),
                |i: int|
                    if 0 <= i < v@.len() {
                        (v@[i].0@, tag_view(v@[i].1))
                    } else {
                        (Seq::empty(), SpecTag::End)
                    },
            ),
        ),
        Tag::IntArray(v) => SpecTag::IntArray(v@),
        Tag::LongArray(v) => SpecTag::LongArray(v@),
        Tag::Invalid => SpecTag::Invalid,
    }
}

/// The type byte a tag is written with; `Invalid` shares 0 with `End` as the
/// encoder treats it as empty.
pub open spec fn spec_type_id(t: SpecTag) -> u8 {
    match t {
        SpecTag::End => 0,
        SpecTag::Byte(_) => 1,
        SpecTag::Short(_) => 2,
        SpecTag::Int(_) => 3,
        SpecTag::Long(_) => 4,
        SpecTag::Float(_) => 5,
        SpecTag::Double(_) => 6,
        SpecTag::ByteArray(_) => 7,
        SpecTag::String(_) => 8,
        SpecTag::List(_) => 9,
        SpecTag::Compound(_) => 10,
        SpecTag::IntArray(_) => 11,
        SpecTag::LongArray(_) => 12,
        SpecTag::Invalid => 0,
    }
}

/// Well-formedness: what the serializer can write so that the parser reads
/// the same tree back. Sizes fit their wire fields, a list is homogeneous,
/// and compound keys are unique with no `End` or `Invalid` values.
pub open spec fn wf_tag(t: SpecTag) -> bool
    decreases t, 0int,
{
    match t {
        SpecTag::End => true,
        SpecTag::Byte(_) => true,
        SpecTag::Short(_) => true,
        SpecTag::Int(_) => true,
        SpecTag::Long(_) => true,
        SpecTag::Float(_) => true,
        SpecTag::Double(_) => true,
        SpecTag::ByteArray(v) => v.len() <= 0x7fff_ffff,
        SpecTag::String(s) => s.len() <= 0xffff,
        SpecTag::List(items) => items.len() <= 0x7fff_ffff && wf_elems(items) && (forall|i: int|
            0 <= i < items.len() ==> spec_type_id(#[trigger] items[i]) == spec_type_id(items[0]))
            && (forall|i: int| 0 <= i < items.len() ==> !(#[trigger] items[i] is Invalid)),
        SpecTag::Compound(entries) => entries.len() <= 0x7fff_ffff && wf_entries(entries) && (
        forall|i: int|
            0 <= i < entries.len() ==> (#[trigger] entries[i]).0.len() <= 0xffff) && (forall|i: int|
            0 <= i < entries.len() ==> spec_type_id((#[trigger] entries[i]).1) != 0 && !(
            entries[i].1 is Invalid)) && (forall|i: int, j: int|
            0 <= i < j < entries.len() ==> (#[trigger] entries[i]).0 != (#[trigger] entries[j]).0),
        SpecTag::IntArray(v) => v.len() <= 0x7fff_ffff,
        SpecTag::LongArray(v) => v.len() <= 0x7fff_ffff,
        SpecTag::Invalid => false,
    }
}

pub open spec fn wf_elems(items: Seq<SpecTag>) -> bool
    decreases items, 1int,
{
    forall|i: int| 0 <= i < items.len() ==> wf_tag(#[trigger] items[i])
}

pub open spec fn wf_entries(entries: Seq<(Seq<u8>, SpecTag)>) -> bool
    decreases entries, 1int,
{
    forall|i: int| 0 <= i < entries.len() ==> wf_tag((#[trigger] entries[i]).1)
}

/// The payload bytes of a string inside a tag: a two-byte big-endian length
/// and the UTF-8 bytes.
pub open spec fn nbt_string_bytes(s: Seq<u8>) -> Seq<u8> {
    u16_be_bytes(s.len() as u16) + s
}

/// The payload bytes of a tag: everything after its type byte and name.
pub open spec fn spec_payload(t: SpecTag) -> Seq<u8>
    decreases t, 0int,
{
    match t {
        SpecTag::End => Seq::empty(),
        SpecTag::Byte(v) => seq![u8_of_i8(v)],
        SpecTag::Short(v) => u16_be_bytes(u16_of_i16(v)),
        SpecTag::Int(v) => u32_be_bytes(u32_of_i32(v)),
        SpecTag::Long(v) => u64_be_bytes(u64_of_i64(v)),
        SpecTag::Float(v) => u32_be_bytes(v),
        SpecTag::Double(v) => u64_be_bytes(v),
        SpecTag::ByteArray(v) => u32_be_bytes(v.len() as u32) + v,
        SpecTag::String(s) => nbt_string_bytes(s),
        SpecTag::List(items) => seq![
            if items.len() == 0 {
                0u8
            } else {
                spec_type_id(items[0])
            },
        ] + u32_be_bytes(items.len() as u32) + elems_bytes_from(items, 0),
        SpecTag::Compound(entries) => entries_bytes_from(entries, 0) + seq![0u8],
        SpecTag::IntArray(v) => u32_be_bytes(v.len() as u32) + ints_bytes_from(v, 0),
        SpecTag::LongArray(v) => u32_be_bytes(v.len() as u32) + longs_bytes_from(v, 0),
        SpecTag::Invalid => Seq::empty(),
    }
}

pub open spec fn elems_bytes_from(items: Seq<SpecTag>, i: int) -> Seq<u8>
    decreases items, 1int, items.len() - i,
{
    if i < 0 || i >= items.len() {
        Seq::empty()
    } else {
        spec_payload(items[i]) + elems_bytes_from(items, i + 1)
    }
}

pub open spec fn entries_bytes_from(entries: Seq<(Seq<u8>, SpecTag)>, i: int) -> Seq<u8>
    decreases entries, 1int, entries.len() - i,
{
    if i < 0 || i >= entries.len() {
        Seq::empty()
    } else {
        seq![spec_type_id(entries[i].1)] + nbt_string_bytes(entries[i].0) + spec_payload(
            entries[i].1,
        ) + entries_bytes_from(entries, i + 1)
    }
}

pub open spec fn ints_bytes_from(vals: Seq<i32>, i: int) -> Seq<u8>
    decreases vals.len() - i,
{
    if i < 0 || i >= vals.len() {
        Seq::empty()
    } else {
        u32_be_bytes(u32_of_i32(vals[i])) + ints_bytes_from(vals, i + 1)
    }
}

pub open spec fn longs_bytes_from(vals: Seq<i64>, i: int) -> Seq<u8>
    decreases vals.len() - i,
{
    if i < 0 || i >= vals.len() {
        Seq::empty()
    } else {
        u64_be_bytes(u64_of_i64(vals[i])) + longs_bytes_from(vals, i + 1)
    }
}

/// The full serialization of a root tag: its type byte, then (in the legacy
/// form only) an empty name, then the payload.
pub open spec fn spec_serialized(t: SpecTag, no_root_name: bool) -> Seq<u8> {
    if no_root_name {
        seq![spec_type_id(t)] + spec_payload(t)
    } else {
        seq![spec_type_id(t), 0u8, 0u8] + spec_payload(t)
    }
}

impl Tag {
    /// The view of this tag, the value contracts speak about.
    pub open spec fn view_of(&self) -> SpecTag {
        tag_view(*self)
    }

    pub fn get_type_id(&self) -> (r: u8)
        ensures
            r == spec_type_id(tag_view(*self)),
    {
        match self {
            Tag::End => 0,
            Tag::Byte(_) => 1,
            Tag::Short(_) => 2,
            Tag::Int(_) => 3,
            Tag::Long(_) => 4,
            Tag::Float(_) => 5,
            Tag::Double(_) => 6,
            Tag::ByteArray(_) => 7,
            Tag::String(_) => 8,
            Tag::List(_) => 9,
            Tag::Compound(_) => 10,
            Tag::IntArray(_) => 11,
            Tag::LongArray(_) => 12,
            Tag::Invalid => 0,
        }
    }

    /// Appends the payload bytes of this tag (everything after type byte and
    /// name) to `buf`.
    fn serialize_payload(&self, buf: &mut Vec<u8>)
        requires
            wf_tag(tag_view(*self)),
        ensures
            final(buf)@ == old(buf)@ + spec_payload(tag_view(*self)),
        decreases *self,
    {
        let ghost base = buf@;
        let ghost me = tag_view(*self);
        match self {
            Tag::End => {
                proof {
                    assert(buf@ =~= base + spec_payload(me));
                }
            },
            Tag::Byte(v) => {
                write_i8(buf, *v);
            },
            Tag::Short(v) => {
                write_i16(buf, *v);
            },
            Tag::Int(v) => {
                write_i32(buf, *v);
            },
            Tag::Long(v) => {
                write_i64(buf, *v);
            },
            Tag::Float(v) => {
                write_u32(buf, *v);
            },
            Tag::Double(v) => {
                write_u64(buf, *v);
            },
            Tag::ByteArray(v) => {
                write_i32(buf, v.len() as i32);
                write_bytes(buf, v);
                proof {
                    assert(u32_of_i32(v@.len() as i32) == v@.len() as u32);
                    assert(buf@ =~= base + spec_payload(me));
                }
            },
            Tag::String(v) => {
                write_u16(buf, v.len() as u16);
                write_bytes(buf, v);
                proof {
                    assert(buf@ =~= base + spec_payload(me));
                }
            },
            Tag::List(v) => {
                let ghost items = me->List_0;
                proof {
                    assert(items.len() == v@.len());
                }
                let et: u8 = if v.len() == 0 {
                    0u8
                } else {
                    v[0].get_type_id()
                };
                write_u8(buf, et);
                write_i32(buf, v.len() as i32);
                proof {
                    assert(u32_of_i32(v@.len() as i32) == v@.len() as u32);
                    assert(buf@ =~= base + seq![et] + u32_be_bytes(items.len() as u32));
                }
                let ghost header = buf@;
                let mut i: usize = 0;
                while i < v.len()
                    invariant
                        *self == Tag::List(*v),
                        i <= v@.len(),
                        items.len() == v@.len(),
                        forall|k: int| 0 <= k < v@.len() ==> items[k] == tag_view(v@[k]),
                        wf_elems(items),
                        buf@ + elems_bytes_from(items, i as int) == header + elems_bytes_from(
                            items,
                            0,
                        ),
                    decreases v@.len() - i,
                {
                    let ghost pre = buf@;
                    proof {
                        assert(decreases_to!(*self => self->List_0));
                        assert(decreases_to!(self->List_0 => self->List_0@));
                        assert(0 <= i < self->List_0@.len());
                        assert(decreases_to!(self->List_0@ => self->List_0@[i as int]));
                        assert(self->List_0@[i as int] == v@[i as int]);
                        assert(decreases_to!(*self => v@[i as int]));
                    }
                    v[i].serialize_payload(buf);
                    proof {
                        assert(elems_bytes_from(items, i as int) == spec_payload(items[i as int])
                            + elems_bytes_from(items, i + 1));
                        assert(buf@ + elems_bytes_from(items, i + 1) =~= pre + elems_bytes_from(
                            items,
                            i as int,
                        ));
                    }
                    i = i + 1;
                }
                proof {
                    assert(elems_bytes_from(items, v@.len() as int) =~= Seq::<u8>::empty());
                    assert(buf@ =~= buf@ + elems_bytes_from(items, v@.len() as int));
                    assert(buf@ =~= header + elems_bytes_from(items, 0));
                    assert(buf@ =~= base + spec_payload(me));
                }
            },
            Tag::Compound(v) => {
                let ghost entries = me->Compound_0;
                proof {
                    assert(entries.len() == v@.len());
                }
                let mut i: usize = 0;
                while i < v.len()
                    invariant
                        *self == Tag::Compound(*v),
                        i <= v@.len(),
                        entries.len() == v@.len(),
                        forall|k: int|
                            0 <= k < v@.len() ==> #[trigger] entries[k] == (
                            v@[k].0@,
                            tag_view(v@[k].1),
                            ),
                        wf_tag(me),
                        me == SpecTag::Compound(entries),
                        buf@ + entries_bytes_from(entries, i as int) == base + entries_bytes_from(
                            entries,
                            0,
                        ),
                    decreases v@.len() - i,
                {
                    let ghost pre = buf@;
                    let tid = v[i].1.get_type_id();
                    write_u8(buf, tid);
                    write_u16(buf, v[i].0.len() as u16);
                    write_bytes(buf, &v[i].0);
                    proof {
                        assert(decreases_to!(*self => self->Compound_0));
                        assert(decreases_to!(self->Compound_0 => self->Compound_0@));
                        assert(0 <= i < self->Compound_0@.len());
                        assert(decreases_to!(self->Compound_0@ => self->Compound_0@[i as int]));
                        assert(decreases_to!(self->Compound_0@[i as int] => self->Compound_0@[i as int].1));
                        assert(self->Compound_0@[i as int].1 == v@[i as int].1);
                        assert(decreases_to!(*self => v@[i as int].1));
                    }
                    v[i].1.serialize_payload(buf);
                    proof {
                        assert(entries_bytes_from(entries, i as int) == seq![
                            spec_type_id(entries[i as int].1),
                        ] + nbt_string_bytes(entries[i as int].0) + spec_payload(
                            entries[i as int].1,
                        ) + entries_bytes_from(entries, i + 1));
                        assert(buf@ + entries_bytes_from(entries, i + 1) =~= pre
                            + entries_bytes_from(entries, i as int));
                    }
                    i = i + 1;
                }
                write_u8(buf, 0);
                proof {
                    assert(entries_bytes_from(entries, v@.len() as int) =~= Seq::<u8>::empty());
                    assert(buf@ =~= base + entries_bytes_from(entries, 0) + seq![0u8]);
                    assert(buf@ =~= base + spec_payload(me));
                }
            },
            Tag::IntArray(v) => {
                let ghost vals = v@;
                write_i32(buf, v.len() as i32);
                proof {
                    assert(u32_of_i32(v@.len() as i32) == v@.len() as u32);
                }
                let ghost header = buf@;
                let mut i: usize = 0;
                while i < v.len()
                    invariant
                        i <= vals.len(),
                        vals == v@,
                        buf@ + ints_bytes_from(vals, i as int) == header + ints_bytes_from(vals, 0),
                    decreases vals.len() - i,
                {
                    let ghost pre = buf@;
                    write_i32(buf, v[i]);
                    proof {
                        assert(buf@ + ints_bytes_from(vals, i + 1) =~= pre + ints_bytes_from(
                            vals,
                            i as int,
                        ));
                    }
                    i = i + 1;
                }
                proof {
                    assert(ints_bytes_from(vals, vals.len() as int) =~= Seq::<u8>::empty());
                    assert(buf@ =~= header + ints_bytes_from(vals, 0));
                    assert(buf@ =~= base + spec_payload(me));
                }
            },
            Tag::LongArray(v) => {
                let ghost vals = v@;
                write_i32(buf, v.len() as i32);
                proof {
                    assert(u32_of_i32(v@.len() as i32) == v@.len() as u32);
                }
                let ghost header = buf@;
                let mut i: usize = 0;
                while i < v.len()
                    invariant
                        i <= vals.len(),
                        vals == v@,
                        buf@ + longs_bytes_from(vals, i as int) == header + longs_bytes_from(
                            vals,
                            0,
                        ),
                    decreases vals.len() - i,
                {
                    let ghost pre = buf@;
                    write_i64(buf, v[i]);
                    proof {
                        assert(buf@ + longs_bytes_from(vals, i + 1) =~= pre + longs_bytes_from(
                            vals,
                            i as int,
                        ));
                    }
                    i = i + 1;
                }
                proof {
                    assert(longs_bytes_from(vals, vals.len() as int) =~= Seq::<u8>::empty());
                    assert(buf@ =~= header + longs_bytes_from(vals, 0));
                    assert(buf@ =~= base + spec_payload(me));
                }
            },
            Tag::Invalid => {
                proof {
                    assert(false);
                }
            },
        }
    }

    /// Appends the full serialization of this root tag: the type byte, an
    /// empty name unless the nameless network form is asked for, then the
    /// payload.
    pub fn serialize(&self, buf: &mut Vec<u8>, is_network_1_20_2_plus: bool)
        requires
            wf_tag(tag_view(*self)),
        ensures
            final(buf)@ == old(buf)@ + spec_serialized(tag_view(*self), is_network_1_20_2_plus),
    {
        write_u8(buf, self.get_type_id());
        if !is_network_1_20_2_plus {
            write_u16(buf, 0);
        }
        let ghost mid = buf@;
        self.serialize_payload(buf);
        proof {
            assert(buf@ =~= old(buf)@ + spec_serialized(tag_view(*self), is_network_1_20_2_plus));
        }
    }
}

/// The models of a sequence of executable tags.
pub open spec fn tags_view(ts: Seq<Tag>) -> Seq<SpecTag> {
    Seq::new(
        ts.len(),
        |i: int|
            if 0 <= i < ts.len() {
                tag_view(ts[i])
            } else {
                SpecTag::End
            },
    )
}

/// The models of a sequence of executable compound entries.
pub open spec fn entries_view(es: Seq<(Vec<u8>, Tag)>) -> Seq<(Seq<u8>, SpecTag)> {
    Seq::new(
        es.len(),
        |i: int|
            if 0 <= i < es.len() {
                (es[i].0@, tag_view(es[i].1))
            } else {
                (Seq::empty(), SpecTag::End)
            },
    )
}

// ---------------------------------------------------------------------------
// The parser, as a mathematical function first. Each spec function returns
// the parsed value and the number of bytes consumed, or `None` on a
// truncated buffer or a negative size.
// ---------------------------------------------------------------------------

/// Parses the payload of a tag of type byte `ty` from the front of `s`.
/// Unknown type bytes yield `Invalid` without consuming anything, as the
/// type-driven reader has nothing to read for them.
pub open spec fn spec_parse_payload(s: Seq<u8>, ty: u8) -> Option<(SpecTag, nat)>
    decreases s, 1int, 0int,
{
    if ty == 0 {
        Some((SpecTag::End, 0 as nat))
    } else if ty == 1 {
        if s.len() < 1 {
            None
        } else {
            Some((SpecTag::Byte(i8_of_u8(s[0])), 1 as nat))
        }
    } else if ty == 2 {
        if s.len() < 2 {
            None
        } else {
            Some((SpecTag::Short(i16_of_u16(be16_val(s.take(2)))), 2 as nat))
        }
    } else if ty == 3 {
        if s.len() < 4 {
            None
        } else {
            Some((SpecTag::Int(i32_of_u32(be32_val(s.take(4)))), 4 as nat))
        }
    } else if ty == 4 {
        if s.len() < 8 {
            None
        } else {
            Some((SpecTag::Long(i64_of_u64(be64_val(s.take(8)))), 8 as nat))
        }
    } else if ty == 5 {
        if s.len() < 4 {
            None
        } else {
            Some((SpecTag::Float(be32_val(s.take(4))), 4 as nat))
        }
    } else if ty == 6 {
        if s.len() < 8 {
            None
        } else {
            Some((SpecTag::Double(be64_val(s.take(8))), 8 as nat))
        }
    } else if ty == 7 {
        if s.len() < 4 {
            None
        } else {
            let n = i32_of_u32(be32_val(s.take(4)));
            if n < 0 || 4 + n > s.len() {
                None
            } else {
                Some((SpecTag::ByteArray(s.subrange(4, 4 + n)), (4 + n) as nat))
            }
        }
    } else if ty == 8 {
        if s.len() < 2 {
            None
        } else {
            let n = be16_val(s.take(2)) as int;
            if 2 + n > s.len() {
                None
            } else {
                Some((SpecTag::String(s.subrange(2, 2 + n)), (2 + n) as nat))
            }
        }
    } else if ty == 9 {
        if s.len() < 5 {
            None
        } else {
            let et = s[0];
            let n = i32_of_u32(be32_val(s.subrange(1, 5)));
            if n < 0 {
                None
            } else {
                match spec_parse_elems(s.skip(5), et, n as nat) {
                    None => None,
                    Some((items, used)) => Some((SpecTag::List(items), (5 + used) as nat)),
                }
            }
        }
    } else if ty == 10 {
        match spec_parse_entries(s) {
            None => None,
            Some((entries, used)) => Some((SpecTag::Compound(entries), used)),
        }
    } else if ty == 11 {
        if s.len() < 4 {
            None
        } else {
            let n = i32_of_u32(be32_val(s.take(4)));
            if n < 0 || 4 + 4 * n > s.len() {
                None
            } else {
                Some(
                    (
                        SpecTag::IntArray(
                            Seq::new(
                                n as nat,
                                |k: int| i32_of_u32(be32_val(s.subrange(4 + 4 * k, 8 + 4 * k))),
                            ),
                        ),
                        (4 + 4 * n) as nat,
                    ),
                )
            }
        }
    } else if ty == 12 {
        if s.len() < 4 {
            None
        } else {
            let n = i32_of_u32(be32_val(s.take(4)));
            if n < 0 || 4 + 8 * n > s.len() {
                None
            } else {
                Some(
                    (
                        SpecTag::LongArray(
                            Seq::new(
                                n as nat,
                                |k: int| i64_of_u64(be64_val(s.subrange(4 + 8 * k, 12 + 8 * k))),
                            ),
                        ),
                        (4 + 8 * n) as nat,
                    ),
                )
            }
        }
    } else {
        Some((SpecTag::Invalid, 0 as nat))
    }
}

/// Parses `n` list elements of element type `et` from the front of `s`.
/// Elements of type `End` (and of unknown types) occupy no bytes.
pub open spec fn spec_parse_elems(s: Seq<u8>, et: u8, n: nat) -> Option<(Seq<SpecTag>, nat)>
    decreases s, 2int, n,
{
    if n == 0 {
        Some((Seq::empty(), 0 as nat))
    } else if et == 0 {
        Some((Seq::new(n, |k: int| SpecTag::End), 0 as nat))
    } else if et > 12 {
        Some((Seq::new(n, |k: int| SpecTag::Invalid), 0 as nat))
    } else {
        match spec_parse_payload(s, et) {
            None => None,
            Some((t, used)) => {
                if used == 0 || used > s.len() {
                    None
                } else {
                    match spec_parse_elems(s.skip(used as int), et, (n - 1) as nat) {
                        None => None,
                        Some((rest, used2)) => Some((seq![t] + rest, (used + used2) as nat)),
                    }
                }
            },
        }
    }
}

/// Parses compound entries from the front of `s`, up to and including the
/// closing `End` byte. Duplicate names are all kept; lookups take the last.
pub open spec fn spec_parse_entries(s: Seq<u8>) -> Option<(Seq<(Seq<u8>, SpecTag)>, nat)>
    decreases s, 0int, 0int,
{
    if s.len() < 1 {
        None
    } else if s[0] == 0 {
        Some((Seq::empty(), 1 as nat))
    } else if s.len() < 3 {
        None
    } else {
        let nl = be16_val(s.subrange(1, 3)) as int;
        if 3 + nl > s.len() {
            None
        } else {
            let name = s.subrange(3, 3 + nl);
            match spec_parse_payload(s.skip(3 + nl), s[0]) {
                None => None,
                Some((value, used)) => {
                    if 3 + nl + used > s.len() {
                        None
                    } else {
                        match spec_parse_entries(s.skip(3 + nl + used)) {
                            None => None,
                            Some((rest, used2)) => Some(
                                (seq![(name, value)] + rest, (3 + nl + used + used2) as nat),
                            ),
                        }
                    }
                },
            }
        }
    }
}

/// Parses a whole root tag: the type byte, then (unless the nameless network
/// form is used) a name that is read and discarded, then the payload.
pub open spec fn spec_parse_root(s: Seq<u8>, no_root_name: bool) -> Option<(SpecTag, nat)> {
    if s.len() < 1 {
        None
    } else {
        let ty = s[0];
        if no_root_name {
            match spec_parse_payload(s.skip(1), ty) {
                None => None,
                Some((t, used)) => Some((t, (1 + used) as nat)),
            }
        } else {
            if s.len() < 3 {
                None
            } else {
                let nl = be16_val(s.subrange(1, 3)) as int;
                if 3 + nl > s.len() {
                    None
                } else {
                    match spec_parse_payload(s.skip(3 + nl), ty) {
                        None => None,
                        Some((t, used)) => Some((t, (3 + nl + used) as nat)),
                    }
                }
            }
        }
    }
}

/// A well-formed tag of a real payload type serializes to at least one byte.
pub proof fn lemma_payload_min_len(t: SpecTag)
    requires
        wf_tag(t),
        1 <= spec_type_id(t) <= 12,
    ensures
        spec_payload(t).len() >= 1,
{
}

/// All-`End` element runs occupy no bytes.
proof fn lemma_end_elems_bytes(items: Seq<SpecTag>, k: int)
    requires
        0 <= k <= items.len(),
        forall|i: int| k <= i < items.len() ==> #[trigger] items[i] is End,
    ensures
        elems_bytes_from(items, k) == Seq::<u8>::empty(),
    decreases items.len() - k,
{
    if k < items.len() {
        assert(items[k] is End);
        assert(spec_payload(items[k]) =~= Seq::<u8>::empty());
        lemma_end_elems_bytes(items, k + 1);
        assert(elems_bytes_from(items, k) =~= Seq::<u8>::empty());
    }
}

/// The length and per-element layout of a packed 32-bit array body.
#[verifier::rlimit(100)]
#[verifier::spinoff_prover]
proof fn lemma_ints_bytes_shape(vals: Seq<i32>, k: int)
    requires
        0 <= k <= vals.len(),
    ensures
        elems_ints_len(vals, k),
    decreases vals.len() - k,
{
    if k < vals.len() {
        lemma_ints_bytes_shape(vals, k + 1);
        assert(ints_bytes_from(vals, k).len() == 4 * (vals.len() - k));
        assert forall|j: int| k <= j < vals.len() implies #[trigger] ints_bytes_from(
            vals,
            k,
        ).subrange(4 * (j - k), 4 * (j - k) + 4) =~= u32_be_bytes(u32_of_i32(vals[j])) by {
            assert(ints_bytes_from(vals, k) == u32_be_bytes(u32_of_i32(vals[k])) + ints_bytes_from(
                vals,
                k + 1,
            ));
            assert(u32_be_bytes(u32_of_i32(vals[k])).len() == 4);
            if j == k {
            } else {
                assert(ints_bytes_from(vals, k + 1).subrange(
                    4 * (j - (k + 1)),
                    4 * (j - (k + 1)) + 4,
                ) == u32_be_bytes(u32_of_i32(vals[j])));
                assert(4 * (j - (k + 1)) == 4 * (j - k - 1));
                assert(ints_bytes_from(vals, k + 1).subrange(4 * (j - k - 1), 4 * (j - k - 1) + 4)
                    =~= u32_be_bytes(u32_of_i32(vals[j])));
                assert(ints_bytes_from(vals, k).subrange(4 * (j - k), 4 * (j - k) + 4)
                    =~= ints_bytes_from(vals, k + 1).subrange(4 * (j - k - 1), 4 * (j - k - 1) + 4));
            }
        }
    }
}

pub open spec fn elems_ints_len(vals: Seq<i32>, k: int) -> bool {
    ints_bytes_from(vals, k).len() == 4 * (vals.len() - k) && (forall|j: int|
        k <= j < vals.len() ==> #[trigger] ints_bytes_from(vals, k).subrange(
            4 * (j - k),
            4 * (j - k) + 4,
        ) == u32_be_bytes(u32_of_i32(vals[j])))
}

/// The length and per-element layout of a packed 64-bit array body.
#[verifier::rlimit(100)]
#[verifier::spinoff_prover]
proof fn lemma_longs_bytes_shape(vals: Seq<i64>, k: int)
    requires
        0 <= k <= vals.len(),
    ensures
        elems_longs_len(vals, k),
    decreases vals.len() - k,
{
    if k < vals.len() {
        lemma_longs_bytes_shape(vals, k + 1);
        assert(longs_bytes_from(vals, k).len() == 8 * (vals.len() - k));
        assert forall|j: int| k <= j < vals.len() implies #[trigger] longs_bytes_from(
            vals,
            k,
        ).subrange(8 * (j - k), 8 * (j - k) + 8) =~= u64_be_bytes(u64_of_i64(vals[j])) by {
            assert(longs_bytes_from(vals, k) == u64_be_bytes(u64_of_i64(vals[k])) + longs_bytes_from(
                vals,
                k + 1,
            ));
            assert(u64_be_bytes(u64_of_i64(vals[k])).len() == 8);
            if j == k {
            } else {
                assert(longs_bytes_from(vals, k + 1).subrange(
                    8 * (j - (k + 1)),
                    8 * (j - (k + 1)) + 8,
                ) == u64_be_bytes(u64_of_i64(vals[j])));
                assert(8 * (j - (k + 1)) == 8 * (j - k - 1));
                assert(longs_bytes_from(vals, k + 1).subrange(8 * (j - k - 1), 8 * (j - k - 1) + 8)
                    =~= u64_be_bytes(u64_of_i64(vals[j])));
                assert(longs_bytes_from(vals, k).subrange(8 * (j - k), 8 * (j - k) + 8)
                    =~= longs_bytes_from(vals, k + 1).subrange(
                        8 * (j - k - 1),
                        8 * (j - k - 1) + 8,
                    ));
            }
        }
    }
}

pub open spec fn elems_longs_len(vals: Seq<i64>, k: int) -> bool {
    longs_bytes_from(vals, k).len() == 8 * (vals.len() - k) && (forall|j: int|
        k <= j < vals.len() ==> #[trigger] longs_bytes_from(vals, k).subrange(
            8 * (j - k),
            8 * (j - k) + 8,
        ) == u64_be_bytes(u64_of_i64(vals[j])))
}

/// Law: parsing the payload bytes of a well-formed tag (followed by anything)
/// yields the tag back and consumes exactly those bytes.
#[verifier::rlimit(100)]
#[verifier::spinoff_prover]
pub proof fn lemma_payload_round_trip(t: SpecTag, s: Seq<u8>)
    requires
        wf_tag(t),
        spec_payload(t).len() <= s.len(),
        s.take(spec_payload(t).len() as int) == spec_payload(t),
    ensures
        spec_parse_payload(s, spec_type_id(t)) == Some((t, spec_payload(t).len() as nat)),
    decreases t, 0int,
{
    let p = spec_payload(t);
    match t {
        SpecTag::End => {},
        SpecTag::Byte(v) => {
            assert(s[0] == p[0]);
            assert(i8_of_u8(u8_of_i8(v)) == v);
        },
        SpecTag::Short(v) => {
            assert(s.take(2) =~= p);
            lemma_u16_be_round(u16_of_i16(v));
            assert(i16_of_u16(u16_of_i16(v)) == v);
        },
        SpecTag::Int(v) => {
            assert(s.take(4) =~= p);
            lemma_u32_be_round(u32_of_i32(v));
            assert(i32_of_u32(u32_of_i32(v)) == v);
        },
        SpecTag::Long(v) => {
            assert(s.take(8) =~= p);
            lemma_u64_be_round(u64_of_i64(v));
            assert(i64_of_u64(u64_of_i64(v)) == v);
        },
        SpecTag::Float(v) => {
            assert(s.take(4) =~= p);
            lemma_u32_be_round(v);
        },
        SpecTag::Double(v) => {
            assert(s.take(8) =~= p);
            lemma_u64_be_round(v);
        },
        SpecTag::ByteArray(v) => {
            let n = v.len() as int;
            assert(s.take(4) =~= u32_be_bytes(n as u32)) by {
                assert(forall|j: int| 0 <= j < 4 ==> s[j] == p[j]);
            }
            lemma_u32_be_round(n as u32);
            assert(i32_of_u32(n as u32) == n as i32);
            assert(s.subrange(4, 4 + n) =~= v) by {
                assert(forall|j: int| 0 <= j < p.len() ==> s[j] == p[j]);
            }
        },
        SpecTag::String(v) => {
            let n = v.len() as int;
            assert(s.take(2) =~= u16_be_bytes(n as u16)) by {
                assert(forall|j: int| 0 <= j < 2 ==> s[j] == p[j]);
            }
            lemma_u16_be_round(n as u16);
            assert(s.subrange(2, 2 + n) =~= v) by {
                assert(forall|j: int| 0 <= j < p.len() ==> s[j] == p[j]);
            }
        },
        SpecTag::List(items) => {
            let n = items.len() as int;
            let et = if n == 0 {
                0u8
            } else {
                spec_type_id(items[0])
            };
            assert(forall|j: int| 0 <= j < p.len() ==> s[j] == p[j]);
            assert(s[0] == et);
            assert(s.subrange(1, 5) =~= u32_be_bytes(n as u32));
            lemma_u32_be_round(n as u32);
            assert(i32_of_u32(n as u32) == n as i32);
            let body = elems_bytes_from(items, 0);
            assert(s.skip(5).take(body.len() as int) =~= body) by {
                assert(forall|j: int| 0 <= j < p.len() ==> s[j] == p[j]);
            }
            lemma_elems_round_trip(items, et, 0, s.skip(5));
            assert(items.skip(0) =~= items);
            assert(s.len() >= 5);
        },
        SpecTag::Compound(entries) => {
            let body = entries_bytes_from(entries, 0);
            assert(s.take(body.len() as int + 1) =~= body + seq![0u8]) by {
                assert(forall|j: int| 0 <= j < p.len() ==> s[j] == p[j]);
            }
            lemma_entries_round_trip(entries, 0, s);
            assert(entries.skip(0) =~= entries);
        },
        SpecTag::IntArray(v) => {
            let n = v.len() as int;
            lemma_ints_bytes_shape(v, 0);
            assert(s.take(4) =~= u32_be_bytes(n as u32)) by {
                assert(forall|j: int| 0 <= j < 4 ==> s[j] == p[j]);
            }
            lemma_u32_be_round(n as u32);
            assert(i32_of_u32(n as u32) == n as i32);
            let parsed = Seq::new(
                n as nat,
                |k: int| i32_of_u32(be32_val(s.subrange(4 + 4 * k, 8 + 4 * k))),
            );
            assert forall|k: int| 0 <= k < n implies parsed[k] == v[k] by {
                assert(ints_bytes_from(v, 0).subrange(4 * (k - 0), 4 * (k - 0) + 4) == u32_be_bytes(
                    u32_of_i32(v[k]),
                ));
                assert(ints_bytes_from(v, 0).subrange(4 * k, 4 * k + 4) == u32_be_bytes(
                    u32_of_i32(v[k]),
                ));
                assert(s.subrange(4 + 4 * k, 8 + 4 * k) =~= ints_bytes_from(v, 0).subrange(
                    4 * k,
                    4 * k + 4,
                )) by {
                    assert(forall|j: int| 0 <= j < p.len() ==> s[j] == p[j]);
                }
                lemma_u32_be_round(u32_of_i32(v[k]));
                assert(i32_of_u32(u32_of_i32(v[k])) == v[k]);
            }
            assert(parsed =~= v);
        },
        SpecTag::LongArray(v) => {
            let n = v.len() as int;
            lemma_longs_bytes_shape(v, 0);
            assert(s.take(4) =~= u32_be_bytes(n as u32)) by {
                assert(forall|j: int| 0 <= j < 4 ==> s[j] == p[j]);
            }
            lemma_u32_be_round(n as u32);
            assert(i32_of_u32(n as u32) == n as i32);
            let parsed = Seq::new(
                n as nat,
                |k: int| i64_of_u64(be64_val(s.subrange(4 + 8 * k, 12 + 8 * k))),
            );
            assert forall|k: int| 0 <= k < n implies parsed[k] == v[k] by {
                assert(longs_bytes_from(v, 0).subrange(8 * (k - 0), 8 * (k - 0) + 8) == u64_be_bytes(
                    u64_of_i64(v[k]),
                ));
                assert(longs_bytes_from(v, 0).subrange(8 * k, 8 * k + 8) == u64_be_bytes(
                    u64_of_i64(v[k]),
                ));
                assert(s.subrange(4 + 8 * k, 12 + 8 * k) =~= longs_bytes_from(v, 0).subrange(
                    8 * k,
                    8 * k + 8,
                )) by {
                    assert(forall|j: int| 0 <= j < p.len() ==> s[j] == p[j]);
                }
                lemma_u64_be_round(u64_of_i64(v[k]));
                assert(i64_of_u64(u64_of_i64(v[k])) == v[k]);
            }
            assert(parsed =~= v);
        },
        SpecTag::Invalid => {},
    }
}

/// Law, list elements: parsing the concatenated payloads of the elements
/// from position `k` yields those elements back.
#[verifier::rlimit(100)]
#[verifier::spinoff_prover]
proof fn lemma_elems_round_trip(items: Seq<SpecTag>, et: u8, k: int, s: Seq<u8>)
    requires
        0 <= k <= items.len(),
        items.len() <= 0x7fff_ffff,
        wf_elems(items),
        forall|i: int| 0 <= i < items.len() ==> spec_type_id(#[trigger] items[i]) == et,
        forall|i: int| 0 <= i < items.len() ==> !(#[trigger] items[i] is Invalid),
        elems_bytes_from(items, k).len() <= s.len(),
        s.take(elems_bytes_from(items, k).len() as int) == elems_bytes_from(items, k),
    ensures
        spec_parse_elems(s, et, (items.len() - k) as nat) == Some(
            (items.skip(k), elems_bytes_from(items, k).len() as nat),
        ),
    decreases items, 1int, items.len() - k,
{
    let m = (items.len() - k) as nat;
    if m == 0 {
        assert(items.skip(k) =~= Seq::<SpecTag>::empty());
    } else if et == 0 {
        assert(forall|i: int| k <= i < items.len() ==> #[trigger] items[i] is End) by {
            assert(forall|i: int|
                k <= i < items.len() ==> spec_type_id(#[trigger] items[i]) == 0 && !(
                items[i] is Invalid));
        }
        lemma_end_elems_bytes(items, k);
        assert(items.skip(k) =~= Seq::new(m, |j: int| SpecTag::End));
    } else {
        assert(et <= 12) by {
            assert(spec_type_id(items[k]) == et);
        }
        let head = items[k];
        let hp = spec_payload(head);
        let bytes = elems_bytes_from(items, k);
        assert(bytes == hp + elems_bytes_from(items, k + 1));
        assert(s.take(hp.len() as int) =~= hp) by {
            assert(forall|j: int| 0 <= j < bytes.len() ==> s[j] == bytes[j]);
        }
        lemma_payload_round_trip(head, s);
        lemma_payload_min_len(head);
        let rest_bytes = elems_bytes_from(items, k + 1);
        assert(s.skip(hp.len() as int).take(rest_bytes.len() as int) =~= rest_bytes) by {
            assert(forall|j: int| 0 <= j < bytes.len() ==> s[j] == bytes[j]);
        }
        lemma_elems_round_trip(items, et, k + 1, s.skip(hp.len() as int));
        assert(seq![head] + items.skip(k + 1) =~= items.skip(k));
    }
}

/// Law, compound entries: parsing the serialized entries from position `k`
/// (up to the closing byte) yields those entries back.
#[verifier::rlimit(100)]
#[verifier::spinoff_prover]
proof fn lemma_entries_round_trip(entries: Seq<(Seq<u8>, SpecTag)>, k: int, s: Seq<u8>)
    requires
        0 <= k <= entries.len(),
        wf_entries(entries),
        forall|i: int| 0 <= i < entries.len() ==> (#[trigger] entries[i]).0.len() <= 0xffff,
        forall|i: int|
            0 <= i < entries.len() ==> spec_type_id((#[trigger] entries[i]).1) != 0 && !(
            entries[i].1 is Invalid),
        entries_bytes_from(entries, k).len() + 1 <= s.len(),
        s.take(entries_bytes_from(entries, k).len() as int + 1) == entries_bytes_from(entries, k)
            + seq![0u8],
    ensures
        spec_parse_entries(s) == Some(
            (entries.skip(k), (entries_bytes_from(entries, k).len() + 1) as nat),
        ),
    decreases entries, 1int, entries.len() - k,
{
    let bytes = entries_bytes_from(entries, k);
    if k == entries.len() {
        assert(s.take(entries_bytes_from(entries, k).len() as int + 1)[0] == 0u8);
        assert(s[0] == 0);
        assert(entries.skip(k) =~= Seq::<(Seq<u8>, SpecTag)>::empty());
    } else {
        let (name, value) = entries[k];
        let nl = name.len() as int;
        let vp = spec_payload(value);
        assert(bytes == seq![spec_type_id(value)] + nbt_string_bytes(name) + vp
            + entries_bytes_from(entries, k + 1));
        assert forall|j: int| 0 <= j < bytes.len() implies s[j] == bytes[j] by {
            assert(s.take(entries_bytes_from(entries, k).len() as int + 1)[j] == (
            entries_bytes_from(entries, k) + seq![0u8])[j]);
            assert(s.take(entries_bytes_from(entries, k).len() as int + 1)[j] == s[j]);
            assert((entries_bytes_from(entries, k) + seq![0u8])[j] == entries_bytes_from(
                entries,
                k,
            )[j]);
        }
        let sb = nbt_string_bytes(name);
        assert(sb.len() == 2 + nl);
        let hd = seq![spec_type_id(value)] + sb;
        assert(hd.len() == 3 + nl);
        assert(forall|j: int| 0 <= j < sb.len() ==> hd[1 + j] == sb[j]);
        assert(bytes =~= hd + vp + entries_bytes_from(entries, k + 1));
        assert(forall|j: int| 0 <= j < hd.len() ==> bytes[j] == hd[j]);
        assert(forall|j: int| 0 <= j < sb.len() ==> bytes[1 + j] == sb[j]);
        assert(s[0] == spec_type_id(value));
        assert(s[0] != 0);
        assert(s.subrange(1, 3) =~= u16_be_bytes(nl as u16)) by {
            assert(sb[0] == u16_be_bytes(nl as u16)[0]);
            assert(sb[1] == u16_be_bytes(nl as u16)[1]);
        }
        lemma_u16_be_round(nl as u16);
        assert(s.subrange(3, 3 + nl) =~= name) by {
            assert(forall|j: int| 0 <= j < nl ==> sb[2 + j] == name[j]);
        }
        let after_name = s.skip(3 + nl);
        assert(after_name.take(vp.len() as int) =~= vp) by {
            assert(forall|j: int| 0 <= j < bytes.len() ==> s[j] == bytes[j]);
        }
        lemma_payload_round_trip(value, after_name);
        let rest_bytes = entries_bytes_from(entries, k + 1);
        let after_value = s.skip(3 + nl + vp.len() as int);
        assert(after_value.take(rest_bytes.len() as int + 1) =~= rest_bytes + seq![0u8]) by {
            assert(forall|j: int| 0 <= j < bytes.len() + 1 ==> s[j] == (bytes + seq![0u8])[j]);
        }
        lemma_entries_round_trip(entries, k + 1, after_value);
        assert(seq![(name, value)] + entries.skip(k + 1) =~= entries.skip(k));
    }
}

/// Law: parsing the serialization of a well-formed tag yields the tag back,
/// in both the name-prefixed form and the nameless network form.
pub proof fn lemma_nbt_round_trip(t: SpecTag, no_root_name: bool)
    requires
        wf_tag(t),
    ensures
        spec_parse_root(spec_serialized(t, no_root_name), no_root_name) == Some(
            (t, spec_serialized(t, no_root_name).len() as nat),
        ),
{
    let s = spec_serialized(t, no_root_name);
    let p = spec_payload(t);
    if no_root_name {
        assert(s[0] == spec_type_id(t));
        assert(s.skip(1).take(p.len() as int) =~= p);
        lemma_payload_round_trip(t, s.skip(1));
    } else {
        assert(s[0] == spec_type_id(t));
        assert(s.subrange(1, 3) =~= u16_be_bytes(0));
        lemma_u16_be_round(0);
        assert(be16_val(s.subrange(1, 3)) == 0);
        assert(s.skip(3).take(p.len() as int) =~= p);
        lemma_payload_round_trip(t, s.skip(3));
    }
}

/// A successful payload parse consumes no more than the buffer holds, and at
/// least one byte when the type byte names a real payload.
pub proof fn lemma_parse_payload_bounds(s: Seq<u8>, ty: u8)
    requires
        spec_parse_payload(s, ty) is Some,
    ensures
        spec_parse_payload(s, ty)->Some_0.1 <= s.len(),
        1 <= ty <= 12 ==> spec_parse_payload(s, ty)->Some_0.1 >= 1,
    decreases s, 1int, 0int,
{
    if ty == 9 {
        let et = s[0];
        let n = i32_of_u32(be32_val(s.subrange(1, 5)));
        if spec_parse_elems(s.skip(5), et, n as nat) is Some {
            lemma_parse_elems_bounds(s.skip(5), et, n as nat);
        }
    } else if ty == 10 {
        lemma_parse_entries_bounds(s);
    }
}

pub proof fn lemma_parse_elems_bounds(s: Seq<u8>, et: u8, n: nat)
    requires
        spec_parse_elems(s, et, n) is Some,
    ensures
        spec_parse_elems(s, et, n)->Some_0.1 <= s.len(),
    decreases s, 2int, n,
{
    if n == 0 || et == 0 || et > 12 {
    } else {
        let (t, used) = spec_parse_payload(s, et)->Some_0;
        lemma_parse_payload_bounds(s, et);
        lemma_parse_elems_bounds(s.skip(used as int), et, (n - 1) as nat);
    }
}

pub proof fn lemma_parse_entries_bounds(s: Seq<u8>)
    requires
        spec_parse_entries(s) is Some,
    ensures
        1 <= spec_parse_entries(s)->Some_0.1 <= s.len(),
    decreases s, 0int, 0int,
{
    if s.len() >= 1 && s[0] != 0 {
        let nl = be16_val(s.subrange(1, 3)) as int;
        let (value, used) = spec_parse_payload(s.skip(3 + nl), s[0])->Some_0;
        lemma_parse_payload_bounds(s.skip(3 + nl), s[0]);
        lemma_parse_entries_bounds(s.skip(3 + nl + used));
    }
}

impl Tag {
    /// Reads the payload of a tag of type byte `ty`; the type-scoped inner
    /// step of the parser.
    fn parse_tag_payload(ty: u8, data: &mut ByteReader) -> (r: Result<Tag, TagError>)
        requires
            old(data).wf(),
        ensures
            final(data).wf(),
            match spec_parse_payload(old(data).remaining(), ty) {
                None => r is Err,
                Some((st, used)) => r is Ok && tag_view(r->Ok_0) == st && final(data).remaining()
                    == old(data).remaining().skip(used as int),
            },
        decreases old(data).remaining().len(), 1int,
    {
        let ghost s = old(data).remaining();
        if ty == 0 {
            proof {
                assert(data.remaining() =~= s.skip(0));
            }
            Ok(Tag::End)
        } else if ty == 1 {
            match data.get_i8() {
                Ok(v) => Ok(Tag::Byte(v)),
                Err(_) => Err(TagError {  }),
            }
        } else if ty == 2 {
            match data.get_i16() {
                Ok(v) => Ok(Tag::Short(v)),
                Err(_) => Err(TagError {  }),
            }
        } else if ty == 3 {
            match data.get_i32() {
                Ok(v) => Ok(Tag::Int(v)),
                Err(_) => Err(TagError {  }),
            }
        } else if ty == 4 {
            match data.get_i64() {
                Ok(v) => Ok(Tag::Long(v)),
                Err(_) => Err(TagError {  }),
            }
        } else if ty == 5 {
            match data.get_u32() {
                Ok(v) => Ok(Tag::Float(v)),
                Err(_) => Err(TagError {  }),
            }
        } else if ty == 6 {
            match data.get_u64() {
                Ok(v) => Ok(Tag::Double(v)),
                Err(_) => Err(TagError {  }),
            }
        } else if ty == 7 {
            let n = match data.get_i32() {
                Ok(v) => v,
                Err(_) => {
                    return Err(TagError {  });
                },
            };
            if n < 0 {
                return Err(TagError {  });
            }
            match data.take_bytes(n as usize) {
                Ok(v) => {
                    proof {
                        assert(v@ =~= s.subrange(4, 4 + n));
                        assert(data.remaining() =~= s.skip(4 + n));
                    }
                    Ok(Tag::ByteArray(v))
                },
                Err(_) => Err(TagError {  }),
            }
        } else if ty == 8 {
            let n = match data.get_u16() {
                Ok(v) => v,
                Err(_) => {
                    return Err(TagError {  });
                },
            };
            match data.take_bytes(n as usize) {
                Ok(v) => {
                    proof {
                        assert(v@ =~= s.subrange(2, 2 + n));
                        assert(data.remaining() =~= s.skip(2 + n));
                    }
                    Ok(Tag::String(v))
                },
                Err(_) => Err(TagError {  }),
            }
        } else if ty == 9 {
            Self::parse_list_payload(data)
        } else if ty == 10 {
            Self::parse_compound_payload(data)
        } else if ty == 11 {
            Self::parse_int_array_payload(data)
        } else if ty == 12 {
            Self::parse_long_array_payload(data)
        } else {
            proof {
                assert(data.remaining() =~= s.skip(0));
            }
            Ok(Tag::Invalid)
        }
    }

    /// Reads a list payload: element type byte, a signed count, then that
    /// many headerless payloads of the one element type.
    #[verifier::spinoff_prover]
    fn parse_list_payload(data: &mut ByteReader) -> (r: Result<Tag, TagError>)
        requires
            old(data).wf(),
        ensures
            final(data).wf(),
            match spec_parse_payload(old(data).remaining(), 9) {
                None => r is Err,
                Some((st, used)) => r is Ok && tag_view(r->Ok_0) == st && final(data).remaining()
                    == old(data).remaining().skip(used as int),
            },
        decreases old(data).remaining().len(), 0int,
    {
        let ghost s = old(data).remaining();
        let et = match data.get_u8() {
            Ok(v) => v,
            Err(_) => {
                return Err(TagError {  });
            },
        };
        let n = match data.get_i32() {
            Ok(v) => v,
            Err(_) => {
                return Err(TagError {  });
            },
        };
        proof {
            assert(s.skip(1).take(4) =~= s.subrange(1, 5));
            assert(data.remaining() =~= s.skip(5));
        }
        if n < 0 {
            return Err(TagError {  });
        }
        let ghost s5 = s.skip(5);
        let ghost mut consumed: int = 5;
        let mut out: Vec<Tag> = Vec::new();
        let mut i: usize = 0;
        while i < n as usize
            invariant
                data.wf(),
                i <= n as usize,
                n >= 0,
                s == old(data).remaining(),
                s5 == s.skip(5),
                s.len() >= 5,
                5 <= consumed <= s.len(),
                data.remaining() == s.skip(consumed),
                spec_parse_payload(s, 9) == (match spec_parse_elems(s5, et, n as nat) {
                    None => None::<(SpecTag, nat)>,
                    Some((items, u)) => Some((SpecTag::List(items), (5 + u) as nat)),
                }),
                spec_parse_elems(s5, et, n as nat) == (match spec_parse_elems(
                    data.remaining(),
                    et,
                    (n - i) as nat,
                ) {
                    None => None::<(Seq<SpecTag>, nat)>,
                    Some((rest, u)) => Some(
                        (tags_view(out@) + rest, ((consumed - 5) + u) as nat),
                    ),
                }),
            decreases n - i,
        {
            let ghost cur = data.remaining();
            let child = match Self::parse_tag_payload(et, data) {
                Ok(c) => c,
                Err(e) => {
                    proof {
                        assert(spec_parse_elems(cur, et, (n - i) as nat) is None);
                    }
                    return Err(e);
                },
            };
            proof {
                let (st, used) = spec_parse_payload(cur, et)->Some_0;
                lemma_parse_payload_bounds(cur, et);
                assert(data.remaining() =~= s.skip(consumed + used));
                consumed = consumed + used;
                if et == 0 || et > 12 {
                    assert(used == 0);
                    assert(tag_view(child) == st);
                    let full = (if et == 0 {
                        Seq::new((n - i) as nat, |k: int| SpecTag::End)
                    } else {
                        Seq::new((n - i) as nat, |k: int| SpecTag::Invalid)
                    });
                    let rest = (if et == 0 {
                        Seq::new((n - i - 1) as nat, |k: int| SpecTag::End)
                    } else {
                        Seq::new((n - i - 1) as nat, |k: int| SpecTag::Invalid)
                    });
                    assert(spec_parse_elems(cur, et, (n - i) as nat) == Some::<(Seq<SpecTag>, nat)>(
                        (full, 0 as nat),
                    ));
                    assert(spec_parse_elems(cur, et, (n - (i + 1)) as nat) == Some::<
                        (Seq<SpecTag>, nat),
                    >((rest, 0 as nat)));
                    assert(tags_view(out@.push(child)) + rest =~= tags_view(out@) + full);
                } else {
                    assert(used >= 1);
                    assert(spec_parse_elems(cur, et, (n - i) as nat) == (match spec_parse_elems(
                        cur.skip(used as int),
                        et,
                        (n - i - 1) as nat,
                    ) {
                        None => None::<(Seq<SpecTag>, nat)>,
                        Some((rest, used2)) => Some((seq![st] + rest, (used + used2) as nat)),
                    }));
                    if spec_parse_elems(cur.skip(used as int), et, (n - i - 1) as nat) is Some {
                        let (rest, u2) = spec_parse_elems(
                            cur.skip(used as int),
                            et,
                            (n - i - 1) as nat,
                        )->Some_0;
                        assert(tags_view(out@.push(child)) + rest =~= tags_view(out@) + (seq![st]
                            + rest));
                    }
                }
            }
            out.push(child);
            i = i + 1;
        }
        proof {
            assert(spec_parse_elems(data.remaining(), et, 0 as nat) == Some::<(Seq<SpecTag>, nat)>(
                (Seq::empty(), 0 as nat),
            ));
            assert(tags_view(out@) + Seq::<SpecTag>::empty() =~= tags_view(out@));
            assert(spec_parse_elems(s5, et, n as nat) is Some);
            let (items, used) = spec_parse_elems(s5, et, n as nat)->Some_0;
            assert(items == tags_view(out@));
            assert(used == consumed - 5);
            assert(data.remaining() =~= s.skip(5 + used as int));
            assert(tag_view(Tag::List(out)) matches SpecTag::List(vs) && vs =~= tags_view(out@));
        }
        Ok(Tag::List(out))
    }

    /// Reads compound entries up to and including the closing `End` byte.
    #[verifier::spinoff_prover]
    fn parse_compound_payload(data: &mut ByteReader) -> (r: Result<Tag, TagError>)
        requires
            old(data).wf(),
        ensures
            final(data).wf(),
            match spec_parse_payload(old(data).remaining(), 10) {
                None => r is Err,
                Some((st, used)) => r is Ok && tag_view(r->Ok_0) == st && final(data).remaining()
                    == old(data).remaining().skip(used as int),
            },
        decreases old(data).remaining().len(), 0int,
    {
        let ghost s = old(data).remaining();
        let ghost mut consumed: int = 0;
        let mut out: Vec<(Vec<u8>, Tag)> = Vec::new();
        loop
            invariant
                data.wf(),
                s == old(data).remaining(),
                0 <= consumed <= s.len(),
                data.remaining() == s.skip(consumed),
                spec_parse_entries(s) == (match spec_parse_entries(data.remaining()) {
                    None => None::<(Seq<(Seq<u8>, SpecTag)>, nat)>,
                    Some((rest, u)) => Some(
                        (entries_view(out@) + rest, (consumed + u) as nat),
                    ),
                }),
            decreases data.remaining().len(),
        {
            let ghost cur = data.remaining();
            let tb = match data.get_u8() {
                Ok(v) => v,
                Err(_) => {
                    return Err(TagError {  });
                },
            };
            if tb == 0 {
                proof {
                    assert(spec_parse_entries(cur) == Some::<(Seq<(Seq<u8>, SpecTag)>, nat)>(
                        (Seq::empty(), 1 as nat),
                    ));
                    assert(entries_view(out@) + Seq::<(Seq<u8>, SpecTag)>::empty() =~= entries_view(
                        out@,
                    ));
                    assert(tag_view(Tag::Compound(out)) matches SpecTag::Compound(es) && es
                        =~= entries_view(out@));
                    let (entries, used) = spec_parse_entries(s)->Some_0;
                    assert(used == consumed + 1);
                    assert(data.remaining() =~= s.skip(consumed + 1));
                }
                return Ok(Tag::Compound(out));
            }
            let nl = match data.get_u16() {
                Ok(v) => v,
                Err(_) => {
                    return Err(TagError {  });
                },
            };
            proof {
                assert(cur.skip(1).take(2) =~= cur.subrange(1, 3));
            }
            let name = match data.take_bytes(nl as usize) {
                Ok(v) => v,
                Err(_) => {
                    return Err(TagError {  });
                },
            };
            proof {
                assert(name@ =~= cur.subrange(3, 3 + nl));
                assert(data.remaining() =~= cur.skip(3 + nl));
            }
            let ghost before_value = data.remaining();
            let value = match Self::parse_tag_payload(tb, data) {
                Ok(v) => v,
                Err(e) => {
                    return Err(e);
                },
            };
            proof {
                let (sv, used) = spec_parse_payload(before_value, tb)->Some_0;
                lemma_parse_payload_bounds(before_value, tb);
                assert(data.remaining() =~= cur.skip(3 + nl + used as int));
                assert(data.remaining() =~= s.skip(consumed + 3 + nl + used));
                if spec_parse_entries(cur.skip(3 + nl + used as int)) is Some {
                    let (rest, u2) = spec_parse_entries(cur.skip(3 + nl + used as int))->Some_0;
                    assert(entries_view(out@.push((name, value))) + rest =~= entries_view(out@) + (
                    seq![(name@, sv)] + rest));
                }
                consumed = consumed + 3 + nl + used;
            }
            out.push((name, value));
        }
    }

    /// Reads a signed count then that many big-endian 32-bit values.
    #[verifier::spinoff_prover]
    fn parse_int_array_payload(data: &mut ByteReader) -> (r: Result<Tag, TagError>)
        requires
            old(data).wf(),
        ensures
            final(data).wf(),
            match spec_parse_payload(old(data).remaining(), 11) {
                None => r is Err,
                Some((st, used)) => r is Ok && tag_view(r->Ok_0) == st && final(data).remaining()
                    == old(data).remaining().skip(used as int),
            },
        decreases old(data).remaining().len(), 0int,
    {
        let ghost s = old(data).remaining();
        let n = match data.get_i32() {
            Ok(v) => v,
            Err(_) => {
                return Err(TagError {  });
            },
        };
        if n < 0 {
            return Err(TagError {  });
        }
        let mut out: Vec<i32> = Vec::new();
        let mut i: usize = 0;
        while i < n as usize
            invariant
                data.wf(),
                i <= n as usize,
                n >= 0,
                s == old(data).remaining(),
                s.len() >= 4,
                n == i32_of_u32(be32_val(s.take(4))),
                out@.len() == i,
                data.remaining() == s.skip(4 + 4 * i),
                s.len() >= 4 + 4 * i,
                forall|k: int|
                    0 <= k < i ==> out@[k] == i32_of_u32(
                        be32_val(s.subrange(4 + 4 * k, 8 + 4 * k)),
                    ),
            decreases n - i,
        {
            let v = match data.get_i32() {
                Ok(v) => v,
                Err(_) => {
                    proof {
                        assert(s.len() < 8 + 4 * i);
                        assert(4 + 4 * n > s.len()) by (nonlinear_arith)
                            requires
                                s.len() < 8 + 4 * i,
                                i < n,
                        ;
                    }
                    return Err(TagError {  });
                },
            };
            proof {
                assert(s.skip(4 + 4 * i).take(4) =~= s.subrange(4 + 4 * i, 8 + 4 * i));
                assert(s.skip(4 + 4 * i).skip(4) =~= s.skip(4 + 4 * (i + 1)));
            }
            out.push(v);
            i = i + 1;
        }
        proof {
            assert(s.len() >= 4 + 4 * n);
            let items = Seq::new(
                n as nat,
                |k: int| i32_of_u32(be32_val(s.subrange(4 + 4 * k, 8 + 4 * k))),
            );
            assert(out@ =~= items);
        }
        Ok(Tag::IntArray(out))
    }

    /// Reads a signed count then that many big-endian 64-bit values.
    #[verifier::spinoff_prover]
    fn parse_long_array_payload(data: &mut ByteReader) -> (r: Result<Tag, TagError>)
        requires
            old(data).wf(),
        ensures
            final(data).wf(),
            match spec_parse_payload(old(data).remaining(), 12) {
                None => r is Err,
                Some((st, used)) => r is Ok && tag_view(r->Ok_0) == st && final(data).remaining()
                    == old(data).remaining().skip(used as int),
            },
        decreases old(data).remaining().len(), 0int,
    {
        let ghost s = old(data).remaining();
        let n = match data.get_i32() {
            Ok(v) => v,
            Err(_) => {
                return Err(TagError {  });
            },
        };
        if n < 0 {
            return Err(TagError {  });
        }
        let mut out: Vec<i64> = Vec::new();
        let mut i: usize = 0;
        while i < n as usize
            invariant
                data.wf(),
                i <= n as usize,
                n >= 0,
                s == old(data).remaining(),
                s.len() >= 4,
                n == i32_of_u32(be32_val(s.take(4))),
                out@.len() == i,
                data.remaining() == s.skip(4 + 8 * i),
                s.len() >= 4 + 8 * i,
                forall|k: int|
                    0 <= k < i ==> out@[k] == i64_of_u64(
                        be64_val(s.subrange(4 + 8 * k, 12 + 8 * k)),
                    ),
            decreases n - i,
        {
            let v = match data.get_i64() {
                Ok(v) => v,
                Err(_) => {
                    proof {
                        assert(s.len() < 12 + 8 * i);
                        assert(4 + 8 * n > s.len()) by (nonlinear_arith)
                            requires
                                s.len() < 12 + 8 * i,
                                i < n,
                        ;
                    }
                    return Err(TagError {  });
                },
            };
            proof {
                assert(s.skip(4 + 8 * i).take(8) =~= s.subrange(4 + 8 * i, 12 + 8 * i));
                assert(s.skip(4 + 8 * i).skip(8) =~= s.skip(4 + 8 * (i + 1)));
            }
            out.push(v);
            i = i + 1;
        }
        proof {
            assert(s.len() >= 4 + 8 * n);
            let items = Seq::new(
                n as nat,
                |k: int| i64_of_u64(be64_val(s.subrange(4 + 8 * k, 12 + 8 * k))),
            );
            assert(out@ =~= items);
        }
        Ok(Tag::LongArray(out))
    }

    #[verifier::rlimit(100)]
    #[verifier::spinoff_prover]
    fn parse_nbt(data: &mut ByteReader, no_root_name: bool) -> (r: Result<Tag, TagError>)
        requires
            old(data).wf(),
        ensures
            final(data).wf(),
            match spec_parse_root(old(data).remaining(), no_root_name) {
                None => r is Err,
                Some((st, used)) => r is Ok && tag_view(r->Ok_0) == st && final(data).remaining()
                    == old(data).remaining().skip(used as int),
            },
    {
        let ghost s = old(data).remaining();
        let ty = match data.get_u8() {
            Ok(v) => v,
            Err(_) => {
                return Err(TagError {  });
            },
        };
        if !no_root_name {
            let nl = match data.get_u16() {
                Ok(v) => v,
                Err(_) => {
                    return Err(TagError {  });
                },
            };
            proof {
                assert(s.skip(1).take(2) =~= s.subrange(1, 3));
            }
            match data.skip(nl as usize) {
                Ok(_) => {},
                Err(_) => {
                    return Err(TagError {  });
                },
            }
            proof {
                assert(data.remaining() =~= s.skip(3 + nl));
            }
            let ghost before = data.remaining();
            let t = match Self::parse_tag_payload(ty, data) {
                Ok(t) => t,
                Err(e) => {
                    return Err(e);
                },
            };
            proof {
                let (st, used) = spec_parse_payload(before, ty)->Some_0;
                lemma_parse_payload_bounds(before, ty);
                assert(data.remaining() =~= s.skip(3 + nl + used as int));
            }
            Ok(t)
        } else {
            let ghost before = data.remaining();
            let t = match Self::parse_tag_payload(ty, data) {
                Ok(t) => t,
                Err(e) => {
                    return Err(e);
                },
            };
            proof {
                let (st, used) = spec_parse_payload(before, ty)->Some_0;
                lemma_parse_payload_bounds(before, ty);
                assert(data.remaining() =~= s.skip(1 + used as int));
            }
            Ok(t)
        }
    }

    /// Parses a root tag in the legacy name-prefixed form.
    pub fn parse(data: &mut ByteReader) -> (r: Result<Tag, TagError>)
        requires
            old(data).wf(),
        ensures
            final(data).wf(),
            match spec_parse_root(old(data).remaining(), false) {
                None => r is Err,
                Some((st, used)) => r is Ok && tag_view(r->Ok_0) == st && final(data).remaining()
                    == old(data).remaining().skip(used as int),
            },
    {
        Self::parse_nbt(data, false)
    }

    /// Parses a root tag from the wire: nameless from protocol 1.20.2 on,
    /// name-prefixed before.
    pub fn parse_network(data: &mut ByteReader, v: crate::version::ProtocolVersion) -> (r: Result<
        Tag,
        TagError,
    >)
        requires
            old(data).wf(),
        ensures
            final(data).wf(),
            match spec_parse_root(
                old(data).remaining(),
                v.spec_id() >= crate::version::ProtocolVersion::V1_20_2.spec_id(),
            ) {
                None => r is Err,
                Some((st, used)) => r is Ok && tag_view(r->Ok_0) == st && final(data).remaining()
                    == old(data).remaining().skip(used as int),
            },
    {
        let network = v.ge(crate::version::ProtocolVersion::V1_20_2);
        Self::parse_nbt(data, network)
    }
}

/// Looks a name up among compound entries; with duplicate names the last
/// entry wins, as a parse that replaced earlier duplicates would have left it.
pub open spec fn compound_get(entries: Seq<(Seq<u8>, SpecTag)>, name: Seq<u8>) -> Option<SpecTag>
    decreases entries.len(),
{
    if entries.len() == 0 {
        None
    } else if entries.last().0 == name {
        Some(entries.last().1)
    } else {
        compound_get(entries.drop_last(), name)
    }
}

/// The slash-separated segments of `s` from `cur` on, the current segment
/// having started at `start`.
pub open spec fn split_from(s: Seq<u8>, start: int, cur: int) -> Seq<Seq<u8>>
    decreases s.len() - cur,
{
    if !(0 <= start <= cur <= s.len()) {
        Seq::empty()
    } else if cur == s.len() {
        seq![s.subrange(start, cur)]
    } else if s[cur] == 47 {
        seq![s.subrange(start, cur)] + split_from(s, cur + 1, cur + 1)
    } else {
        split_from(s, start, cur + 1)
    }
}

/// What walking a tag by path segments yields: each segment must name an
/// entry of a compound, and the last one names the result.
pub open spec fn traverse_model(t: SpecTag, segs: Seq<Seq<u8>>) -> Option<SpecTag>
    decreases segs.len(),
{
    if segs.len() == 0 {
        None
    } else {
        match t {
            SpecTag::Compound(entries) => match compound_get(entries, segs[0]) {
                None => None,
                Some(child) => if segs.len() == 1 {
                    Some(child)
                } else {
                    traverse_model(child, segs.skip(1))
                },
            },
            _ => None,
        }
    }
}

pub fn copy_bytes(v: &Vec<u8>) -> (r: Vec<u8>)
    ensures
        r@ == v@,
{
    let mut out: Vec<u8> = Vec::new();
    let mut i: usize = 0;
    while i < v.len()
        invariant
            i <= v@.len(),
            out@ =~= v@.take(i as int),
        decreases v@.len() - i,
    {
        out.push(v[i]);
        i = i + 1;
    }
    proof {
        assert(out@ =~= v@);
    }
    out
}

fn copy_ints(v: &Vec<i32>) -> (r: Vec<i32>)
    ensures
        r@ == v@,
{
    let mut out: Vec<i32> = Vec::new();
    let mut i: usize = 0;
    while i < v.len()
        invariant
            i <= v@.len(),
            out@ =~= v@.take(i as int),
        decreases v@.len() - i,
    {
        out.push(v[i]);
        i = i + 1;
    }
    proof {
        assert(out@ =~= v@);
    }
    out
}

fn copy_longs(v: &Vec<i64>) -> (r: Vec<i64>)
    ensures
        r@ == v@,
{
    let mut out: Vec<i64> = Vec::new();
    let mut i: usize = 0;
    while i < v.len()
        invariant
            i <= v@.len(),
            out@ =~= v@.take(i as int),
        decreases v@.len() - i,
    {
        out.push(v[i]);
        i = i + 1;
    }
    proof {
        assert(out@ =~= v@);
    }
    out
}

/// Whether two byte strings hold the same bytes.
pub fn bytes_eq(a: &[u8], b: &[u8]) -> (r: bool)
    ensures
        r == (a@ == b@),
{
    if a.len() != b.len() {
        proof {
            assert(a@ != b@);
        }
        return false;
    }
    let mut i: usize = 0;
    while i < a.len()
        invariant
            i <= a@.len(),
            a@.len() == b@.len(),
            forall|k: int| 0 <= k < i ==> a@[k] == b@[k],
        decreases a@.len() - i,
    {
        if a[i] != b[i] {
            return false;
        }
        i = i + 1;
    }
    proof {
        assert(a@ =~= b@);
    }
    true
}

impl Tag {
    /// A structural copy of this tag.
    pub fn deep_clone(&self) -> (r: Tag)
        ensures
            tag_view(r) == tag_view(*self),
        decreases *self,
    {
        match self {
            Tag::End => Tag::End,
            Tag::Byte(v) => Tag::Byte(*v),
            Tag::Short(v) => Tag::Short(*v),
            Tag::Int(v) => Tag::Int(*v),
            Tag::Long(v) => Tag::Long(*v),
            Tag::Float(v) => Tag::Float(*v),
            Tag::Double(v) => Tag::Double(*v),
            Tag::ByteArray(v) => Tag::ByteArray(copy_bytes(v)),
            Tag::String(v) => Tag::String(copy_bytes(v)),
            Tag::List(v) => {
                let mut out: Vec<Tag> = Vec::new();
                let mut i: usize = 0;
                while i < v.len()
                    invariant
                        *self == Tag::List(*v),
                        i <= v@.len(),
                        out@.len() == i,
                        forall|k: int| 0 <= k < i ==> tag_view(out@[k]) == tag_view(v@[k]),
                    decreases v@.len() - i,
                {
                    proof {
                        assert(decreases_to!(*self => self->List_0));
                        assert(decreases_to!(self->List_0 => self->List_0@));
                        assert(0 <= i < self->List_0@.len());
                        assert(decreases_to!(self->List_0@ => self->List_0@[i as int]));
                        assert(self->List_0@[i as int] == v@[i as int]);
                        assert(decreases_to!(*self => v@[i as int]));
                    }
                    let c = v[i].deep_clone();
                    out.push(c);
                    i = i + 1;
                }
                proof {
                    assert(tag_view(Tag::List(out))->List_0 =~= tag_view(*self)->List_0);
                }
                Tag::List(out)
            },
            Tag::Compound(v) => {
                let mut out: Vec<(Vec<u8>, Tag)> = Vec::new();
                let mut i: usize = 0;
                while i < v.len()
                    invariant
                        *self == Tag::Compound(*v),
                        i <= v@.len(),
                        out@.len() == i,
                        forall|k: int|
                            0 <= k < i ==> (#[trigger] out@[k]).0@ == v@[k].0@ && tag_view(
                                out@[k].1,
                            ) == tag_view(v@[k].1),
                    decreases v@.len() - i,
                {
                    proof {
                        assert(decreases_to!(*self => self->Compound_0));
                        assert(decreases_to!(self->Compound_0 => self->Compound_0@));
                        assert(0 <= i < self->Compound_0@.len());
                        assert(decreases_to!(self->Compound_0@ => self->Compound_0@[i as int]));
                        assert(decreases_to!(self->Compound_0@[i as int] => self->Compound_0@[i as int].1));
                        assert(self->Compound_0@[i as int].1 == v@[i as int].1);
                        assert(decreases_to!(*self => v@[i as int].1));
                    }
                    let nm = copy_bytes(&v[i].0);
                    let c = v[i].1.deep_clone();
                    out.push((nm, c));
                    i = i + 1;
                }
                proof {
                    assert(tag_view(Tag::Compound(out))->Compound_0 =~= tag_view(
                        *self,
                    )->Compound_0);
                }
                Tag::Compound(out)
            },
            Tag::IntArray(v) => Tag::IntArray(copy_ints(v)),
            Tag::LongArray(v) => Tag::LongArray(copy_longs(v)),
            Tag::Invalid => Tag::Invalid,
        }
    }

    pub fn as_byte(&self) -> (r: Result<i8, TagError>)
        ensures
            self is Byte ==> r == Ok::<i8, TagError>(self->Byte_0),
            !(self is Byte) ==> r is Err,
    {
        if let Tag::Byte(v) = self {
            Ok(*v)
        } else {
            Err(TagError {  })
        }
    }

    pub fn as_short(&self) -> (r: Result<i16, TagError>)
        ensures
            self is Short ==> r == Ok::<i16, TagError>(self->Short_0),
            !(self is Short) ==> r is Err,
    {
        if let Tag::Short(v) = self {
            Ok(*v)
        } else {
            Err(TagError {  })
        }
    }

    pub fn as_int(&self) -> (r: Result<i32, TagError>)
        ensures
            self is Int ==> r == Ok::<i32, TagError>(self->Int_0),
            !(self is Int) ==> r is Err,
    {
        if let Tag::Int(v) = self {
            Ok(*v)
        } else {
            Err(TagError {  })
        }
    }

    pub fn as_long(&self) -> (r: Result<i64, TagError>)
        ensures
            self is Long ==> r == Ok::<i64, TagError>(self->Long_0),
            !(self is Long) ==> r is Err,
    {
        if let Tag::Long(v) = self {
            Ok(*v)
        } else {
            Err(TagError {  })
        }
    }

    /// The IEEE-754 bit pattern of a `Float` tag.
    pub fn as_float(&self) -> (r: Result<u32, TagError>)
        ensures
            self is Float ==> r == Ok::<u32, TagError>(self->Float_0),
            !(self is Float) ==> r is Err,
    {
        if let Tag::Float(v) = self {
            Ok(*v)
        } else {
            Err(TagError {  })
        }
    }

    /// The IEEE-754 bit pattern of a `Double` tag.
    pub fn as_double(&self) -> (r: Result<u64, TagError>)
        ensures
            self is Double ==> r == Ok::<u64, TagError>(self->Double_0),
            !(self is Double) ==> r is Err,
    {
        if let Tag::Double(v) = self {
            Ok(*v)
        } else {
            Err(TagError {  })
        }
    }

    pub fn as_byte_array(&self) -> (r: Result<&Vec<u8>, TagError>)
        ensures
            self is ByteArray ==> r is Ok && r->Ok_0@ == self->ByteArray_0@,
            !(self is ByteArray) ==> r is Err,
    {
        if let Tag::ByteArray(v) = self {
            Ok(v)
        } else {
            Err(TagError {  })
        }
    }

    /// The UTF-8 bytes of a `String` tag.
    pub fn as_string(&self) -> (r: Result<&Vec<u8>, TagError>)
        ensures
            self is String ==> r is Ok && r->Ok_0@ == self->String_0@,
            !(self is String) ==> r is Err,
    {
        if let Tag::String(v) = self {
            Ok(v)
        } else {
            Err(TagError {  })
        }
    }

    pub fn as_list(&self) -> (r: Result<&Vec<Tag>, TagError>)
        ensures
            self is List ==> r is Ok && r->Ok_0@ == self->List_0@,
            !(self is List) ==> r is Err,
    {
        if let Tag::List(v) = self {
            Ok(v)
        } else {
            Err(TagError {  })
        }
    }

    pub fn as_compound(&self) -> (r: Result<&Vec<(Vec<u8>, Tag)>, TagError>)
        ensures
            self is Compound ==> r is Ok && r->Ok_0@ == self->Compound_0@,
            !(self is Compound) ==> r is Err,
    {
        if let Tag::Compound(v) = self {
            Ok(v)
        } else {
            Err(TagError {  })
        }
    }

    pub fn as_int_array(&self) -> (r: Result<&Vec<i32>, TagError>)
        ensures
            self is IntArray ==> r is Ok && r->Ok_0@ == self->IntArray_0@,
            !(self is IntArray) ==> r is Err,
    {
        if let Tag::IntArray(v) = self {
            Ok(v)
        } else {
            Err(TagError {  })
        }
    }

    pub fn as_long_array(&self) -> (r: Result<&Vec<i64>, TagError>)
        ensures
            self is LongArray ==> r is Ok && r->Ok_0@ == self->LongArray_0@,
            !(self is LongArray) ==> r is Err,
    {
        if let Tag::LongArray(v) = self {
            Ok(v)
        } else {
            Err(TagError {  })
        }
    }

    /// Looks `key` up in a compound tag; the last entry with the name wins.
    pub fn get(&self, key: &str) -> (r: Result<&Tag, TagError>)
        ensures
            self is Compound ==> (match compound_get(
                tag_view(*self)->Compound_0,
                key.spec_bytes(),
            ) {
                None => r is Err,
                Some(st) => r is Ok && tag_view(*r->Ok_0) == st,
            }),
            !(self is Compound) ==> r is Err,
    {
        let v = match self.as_compound() {
            Ok(v) => v,
            Err(e) => {
                return Err(e);
            },
        };
        proof {
            assert(tag_view(*self)->Compound_0 =~= entries_view(v@));
        }
        match compound_find(v, key.as_bytes()) {
            Some(idx) => Ok(&v[idx].1),
            None => Err(TagError {  }),
        }
    }

    /// Walks compound tags by a slash-separated path, returning the tag the
    /// final segment names.
    pub fn traverse(&self, path: &str) -> (r: Option<&Tag>)
        ensures
            match traverse_model(tag_view(*self), split_from(path.spec_bytes(), 0, 0)) {
                None => r is None,
                Some(st) => r is Some && tag_view(*r->0) == st,
            },
    {
        let bs = path.as_bytes();
        let ghost sb = path.spec_bytes();
        let mut segs: Vec<Vec<u8>> = Vec::new();
        let mut seg: Vec<u8> = Vec::new();
        let mut i: usize = 0;
        let ghost mut start: int = 0;
        proof {
            assert(seg@ =~= sb.subrange(0, 0));
            assert(segs_view(segs@) + split_from(sb, 0, 0) =~= split_from(sb, 0, 0));
        }
        while i < bs.len()
            invariant
                bs@ == sb,
                0 <= start <= i <= sb.len(),
                seg@ == sb.subrange(start, i as int),
                split_from(sb, 0, 0) == segs_view(segs@) + split_from(sb, start, i as int),
            decreases bs@.len() - i,
        {
            let b = bs[i];
            if b == 47 {
                let done = seg;
                segs.push(done);
                seg = Vec::new();
                proof {
                    assert(split_from(sb, start, i as int) == seq![sb.subrange(start, i as int)]
                        + split_from(sb, i + 1, i + 1));
                    assert(segs_view(segs@) =~= segs_view(segs@.drop_last()).push(
                        sb.subrange(start, i as int),
                    ));
                    assert(segs_view(segs@) + split_from(sb, i + 1, i + 1) =~= segs_view(
                        segs@.drop_last(),
                    ) + split_from(sb, start, i as int));
                    start = i + 1;
                    assert(seg@ =~= sb.subrange(start, i + 1));
                }
            } else {
                seg.push(b);
                proof {
                    assert(seg@ =~= sb.subrange(start, i + 1));
                }
            }
            i = i + 1;
        }
        segs.push(seg);
        proof {
            assert(split_from(sb, start, sb.len() as int) == seq![
                sb.subrange(start, sb.len() as int),
            ]);
            assert(segs_view(segs@) =~= segs_view(segs@.drop_last()).push(
                sb.subrange(start, sb.len() as int),
            ));
            assert(segs_view(segs@) =~= split_from(sb, 0, 0));
        }
        // walk the tree segment by segment
        let ghost all = segs_view(segs@);
        proof {
            assert(all.skip(0) =~= all);
        }
        let mut cur: &Tag = self;
        let mut k: usize = 0;
        while k < segs.len()
            invariant
                all == segs_view(segs@),
                all == split_from(path.spec_bytes(), 0, 0),
                all.len() == segs@.len(),
                k < segs@.len(),
                traverse_model(tag_view(*self), all) == traverse_model(
                    tag_view(*cur),
                    all.skip(k as int),
                ),
            decreases segs@.len() - k,
        {
            proof {
                assert(all.skip(k as int).len() > 0);
                assert(all.skip(k as int)[0] == all[k as int]);
            }
            let v = match cur.as_compound() {
                Ok(v) => v,
                Err(_) => {
                    return None;
                },
            };
            proof {
                assert(tag_view(*cur)->Compound_0 =~= entries_view(v@));
            }
            let idx = match compound_find(v, segs[k].as_slice()) {
                Some(idx) => idx,
                None => {
                    return None;
                },
            };
            let child = &v[idx].1;
            proof {
                assert(compound_get(tag_view(*cur)->Compound_0, all[k as int]) == Some(
                    tag_view(*child),
                ));
            }
            if k == segs.len() - 1 {
                proof {
                    assert(all.skip(k as int).len() == 1);
                    assert(traverse_model(tag_view(*cur), all.skip(k as int)) == Some(
                        tag_view(*child),
                    ));
                }
                return Some(child);
            }
            proof {
                assert(all.skip(k as int).len() > 1);
                assert(all.skip(k as int).skip(1) =~= all.skip(k + 1));
            }
            cur = child;
            k = k + 1;
        }
        proof {
            assert(false);
        }
        None
    }
}

/// Finds the index of the entry `key` names, scanning from the end so that
/// with duplicate names the last entry wins.
pub fn compound_find(v: &Vec<(Vec<u8>, Tag)>, key: &[u8]) -> (r: Option<usize>)
    ensures
        match compound_get(entries_view(v@), key@) {
            None => r is None,
            Some(st) => r matches Some(idx) && idx < v@.len() && entries_view(
                v@,
            )[idx as int].1 == st && v@[idx as int].0@ == key@,
        },
{
    let ghost ev = entries_view(v@);
    let mut i: usize = v.len();
    proof {
        assert(ev.take(v@.len() as int) =~= ev);
    }
    while i > 0
        invariant
            i <= v@.len(),
            ev == entries_view(v@),
            ev.len() == v@.len(),
            compound_get(ev, key@) == compound_get(ev.take(i as int), key@),
        decreases i,
    {
        i = i - 1;
        if bytes_eq(v[i].0.as_slice(), key) {
            proof {
                assert(ev.take(i + 1).last() == ev[i as int]);
                assert(ev[i as int].0 == key@);
                assert(compound_get(ev.take(i + 1), key@) == Some(ev[i as int].1));
            }
            return Some(i);
        }
        proof {
            assert(ev.take(i + 1).last() == ev[i as int]);
            assert(ev[i as int].0 != key@);
            assert(ev.take(i + 1).drop_last() =~= ev.take(i as int));
        }
    }
    proof {
        assert(ev.take(0) =~= Seq::<(Seq<u8>, SpecTag)>::empty());
    }
    None
}

/// The models of a sequence of byte strings.
pub open spec fn segs_view(vs: Seq<Vec<u8>>) -> Seq<Seq<u8>> {
    Seq::new(
        vs.len(),
        |i: int|
            if 0 <= i < vs.len() {
                vs[i]@
            } else {
                Seq::empty()
            },
    )
}

} // verus!
