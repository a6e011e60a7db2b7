use vstd::prelude::*;

verus! {

use vstd::string::StringSliceAdditionalSpecFns;
use vstd::string::StrSliceExecFns;

use crate::nbt::{Tag, SpecTag, tag_view, compound_get, entries_view};

/// The ASCII bytes of a string of characters below 0x80.
pub open spec fn ascii_bytes(s: Seq<char>) -> Seq<u8> {
    Seq::new(s.len(), |i: int| s[i] as u8)
}

/// A block state: a compound tag holding the block's name and, optionally,
/// a compound of property values.
#[derive(Debug)]
pub struct Block {
    pub data: Tag,
}

impl Block {
    /// A block of the given name with string property values.
    pub fn new(name: &str, properties: Vec<(Vec<u8>, Vec<u8>)>) -> (r: Block)
        ensures
            (tag_view(r.data) matches SpecTag::Compound(es) && es.len() == 2 && es[0] == (
                ascii_bytes("Name"@),
                SpecTag::String(name.spec_bytes()),
            ) && es[1].0 == ascii_bytes("Properties"@) && (es[1].1 matches SpecTag::Compound(ps)
                && ps.len() == properties@.len() && (forall|i: int|
                0 <= i < properties@.len() ==> #[trigger] ps[i] == (
                    properties@[i].0@,
                    SpecTag::String(properties@[i].1@),
                )))),
    {
        let mut props: Vec<(Vec<u8>, Tag)> = Vec::new();
        let mut i: usize = 0;
        while i < properties.len()
            invariant
                i <= properties@.len(),
                props@.len() == i,
                forall|k: int|
                    0 <= k < i ==> (#[trigger] props@[k]).0@ == properties@[k].0@ && props@[k].1
                        is String && props@[k].1->String_0@ == properties@[k].1@,
            decreases properties@.len() - i,
        {
            let kb = crate::nbt::copy_bytes(&properties[i].0);
            let vb = crate::nbt::copy_bytes(&properties[i].1);
            props.push((kb, Tag::String(vb)));
            i = i + 1;
        }
        let mut entries: Vec<(Vec<u8>, Tag)> = Vec::new();
        let name_bytes = "Name".as_bytes_vec();
        proof {
            reveal_strlit("Name");
            assert(vstd::string::is_ascii("Name"));
            vstd::string::is_ascii_spec_bytes("Name");
            assert(name_bytes@ =~= ascii_bytes("Name"@));
        }
        let props_key = "Properties".as_bytes_vec();
        proof {
            reveal_strlit("Properties");
            assert(vstd::string::is_ascii("Properties"));
            vstd::string::is_ascii_spec_bytes("Properties");
            assert(props_key@ =~= ascii_bytes("Properties"@));
        }
        let name_vec = name.as_bytes_vec();
        entries.push((name_bytes, Tag::String(name_vec)));
        entries.push((props_key, Tag::Compound(props)));
        let b = Block { data: Tag::Compound(entries) };
        proof {
            let es = tag_view(b.data)->Compound_0;
            assert(es.len() == 2);
            assert(entries@[0].1 == Tag::String(name_vec));
            assert(es[0].0 == entries@[0].0@ && es[0].1 == tag_view(entries@[0].1));
            assert(es[0].0 =~= ascii_bytes("Name"@));
            assert(tag_view(entries@[0].1) == SpecTag::String(name_vec@));
            assert(es[0].1 == SpecTag::String(name.spec_bytes()));
            assert(es[1].0 =~= ascii_bytes("Properties"@));
            assert(entries@[1].1 == Tag::Compound(props));
            assert(es[1].1 == tag_view(entries@[1].1));
            let ps = es[1].1->Compound_0;
            assert forall|k: int| 0 <= k < props@.len() implies ps[k] == entries_view(props@)[k] by {
                assert(ps[k] == (props@[k].0@, tag_view(props@[k].1)));
            }
            assert(ps =~= entries_view(props@));
            assert forall|k: int| 0 <= k < properties@.len() implies #[trigger] ps[k] == (
                properties@[k].0@,
                SpecTag::String(properties@[k].1@),
            ) by {
                assert(ps[k].0 == props@[k].0@);
                assert(ps[k].1 == tag_view(props@[k].1));
                assert(tag_view(props@[k].1) == SpecTag::String(props@[k].1->String_0@));
            }
        }
        b
    }

    /// Wraps an existing tag as a block state, copying it.
    pub fn from_nbt(nbt: &Tag) -> (r: Block)
        ensures
            tag_view(r.data) == tag_view(*nbt),
    {
        Block { data: nbt.deep_clone() }
    }

    /// The block's name, the UTF-8 bytes of its `Name` entry.
    pub fn name(&self) -> (r: Option<&Vec<u8>>)
        ensures
            match spec_block_name(tag_view(self.data)) {
                None => r is None,
                Some(n) => r is Some && r->0@ == n,
            },
    {
        if let Tag::Compound(_) = &self.data {
            let name_tag = match self.data.get("Name") {
                Ok(t) => t,
                Err(_) => {
                    proof {
                        name_key_bytes();
                    }
                    return None;
                },
            };
            proof {
                name_key_bytes();
            }
            if let Tag::String(name) = name_tag {
                Some(name)
            } else {
                None
            }
        } else {
            None
        }
    }

    /// The value of the named property under `Properties`, if any.
    pub fn get_property(&self, name: &str) -> (r: Option<Tag>)
        ensures
            match spec_block_property(tag_view(self.data), name.spec_bytes()) {
                None => r is None,
                Some(p) => r is Some && tag_view(r->0) == p,
            },
    {
        if let Tag::Compound(_) = &self.data {
            let props = match self.data.get("Properties") {
                Ok(t) => t,
                Err(_) => {
                    proof {
                        props_key_bytes();
                    }
                    return None;
                },
            };
            proof {
                props_key_bytes();
            }
            if let Tag::Compound(_) = props {
                match props.get(name) {
                    Ok(t) => Some(t.deep_clone()),
                    Err(_) => None,
                }
            } else {
                None
            }
        } else {
            None
        }
    }
}

impl Block {
    /// The value of the named property under `Properties`, keyed by the
    /// property name's bytes.
    pub fn property_by_bytes(&self, key: &[u8]) -> (r: Option<Tag>)
        ensures
            match spec_block_property(tag_view(self.data), key@) {
                None => r is None,
                Some(p) => r is Some && tag_view(r->0) == p,
            },
    {
        if let Tag::Compound(_) = &self.data {
            let props = match self.data.get("Properties") {
                Ok(t) => t,
                Err(_) => {
                    proof {
                        props_key_bytes();
                    }
                    return None;
                },
            };
            proof {
                props_key_bytes();
            }
            match props {
                Tag::Compound(v) => {
                    proof {
                        assert(tag_view(*props)->Compound_0 =~= crate::nbt::entries_view(v@));
                    }
                    match crate::nbt::compound_find(v, key) {
                        Some(idx) => Some(v[idx].1.deep_clone()),
                        None => None,
                    }
                },
                _ => None,
            }
        } else {
            None
        }
    }
}

/// The name entry of a block-state compound.
pub open spec fn spec_block_name(t: SpecTag) -> Option<Seq<u8>> {
    if t is Compound {
        match compound_get(t->Compound_0, ascii_bytes("Name"@)) {
            Some(SpecTag::String(n)) => Some(n),
            _ => None,
        }
    } else {
        None
    }
}

/// The named property of a block-state compound.
pub open spec fn spec_block_property(t: SpecTag, name: Seq<u8>) -> Option<SpecTag> {
    if t is Compound {
        match compound_get(t->Compound_0, ascii_bytes("Properties"@)) {
            Some(SpecTag::Compound(ps)) => compound_get(ps, name),
            _ => None,
        }
    } else {
        None
    }
}

/// The spec-level bytes of the `Name` key.
pub proof fn name_key_bytes()
    ensures
        "Name".spec_bytes() == ascii_bytes("Name"@),
{
    reveal_strlit("Name");
    assert(vstd::string::is_ascii("Name"));
    vstd::string::is_ascii_spec_bytes("Name");
    assert("Name".spec_bytes() =~= ascii_bytes("Name"@));
}

/// The spec-level bytes of the `Properties` key.
pub proof fn props_key_bytes()
    ensures
        "Properties".spec_bytes() == ascii_bytes("Properties"@),
{
    reveal_strlit("Properties");
    assert(vstd::string::is_ascii("Properties"));
    vstd::string::is_ascii_spec_bytes("Properties");
    assert("Properties".spec_bytes() =~= ascii_bytes("Properties"@));
}

} // verus!
