use vstd::prelude::*;

verus! {

/// Wire protocol versions understood by the server, totally ordered by the
/// numeric id exchanged in the handshake. `Unknown` stands for any id the
/// server does not recognize and is the state of a fresh connection.
#[derive(Debug, Clone, Copy, PartialEq, Eq, Structural)]
pub enum ProtocolVersion {
    Unknown,
    V1_13_2,
    V1_14,
    V1_15,
    V1_15_2,
    V20w12a,
    V1_16,
    V1_16_1,
    V1_16_2,
    V1_17,
    V1_18_1,
    V1_19,
    V1_19_2,
    V1_19_3,
    V1_19_4,
    V1_20,
    V1_20_2,
    V1_20_4,
    V1_20_5,
    V1_20_6,
    V1_21,
}

impl ProtocolVersion {
    /// The numeric id of this version on the wire; -1 for `Unknown`.
    pub open spec fn spec_id(self) -> i32 {
        match self {
            ProtocolVersion::Unknown => -1i32,
            ProtocolVersion::V1_13_2 => 404,
            ProtocolVersion::V1_14 => 477,
            ProtocolVersion::V1_15 => 573,
            ProtocolVersion::V1_15_2 => 578,
            ProtocolVersion::V20w12a => 707,
            ProtocolVersion::V1_16 => 735,
            ProtocolVersion::V1_16_1 => 736,
            ProtocolVersion::V1_16_2 => 751,
            ProtocolVersion::V1_17 => 755,
            ProtocolVersion::V1_18_1 => 757,
            ProtocolVersion::V1_19 => 759,
            ProtocolVersion::V1_19_2 => 760,
            ProtocolVersion::V1_19_3 => 761,
            ProtocolVersion::V1_19_4 => 762,
            ProtocolVersion::V1_20 => 763,
            ProtocolVersion::V1_20_2 => 764,
            ProtocolVersion::V1_20_4 => 765,
            ProtocolVersion::V1_20_5 => 766,
            ProtocolVersion::V1_20_6 => 766,
            ProtocolVersion::V1_21 => 767,
        }
    }

    /// The version a handshake with the given id selects; unrecognized ids
    /// (including 766, shared by 1.20.5 and 1.20.6, resolved to 1.20.6)
    /// map as stated here.
    pub open spec fn spec_from_id(id: i32) -> ProtocolVersion {
        if id == 404 {
            ProtocolVersion::V1_13_2
        } else if id == 477 {
            ProtocolVersion::V1_14
        } else if id == 573 {
            ProtocolVersion::V1_15
        } else if id == 578 {
            ProtocolVersion::V1_15_2
        } else if id == 707 {
            ProtocolVersion::V20w12a
        } else if id == 735 {
            ProtocolVersion::V1_16
        } else if id == 736 {
            ProtocolVersion::V1_16_1
        } else if id == 751 {
            ProtocolVersion::V1_16_2
        } else if id == 755 {
            ProtocolVersion::V1_17
        } else if id == 757 {
            ProtocolVersion::V1_18_1
        } else if id == 759 {
            ProtocolVersion::V1_19
        } else if id == 760 {
            ProtocolVersion::V1_19_2
        } else if id == 761 {
            ProtocolVersion::V1_19_3
        } else if id == 762 {
            ProtocolVersion::V1_19_4
        } else if id == 763 {
            ProtocolVersion::V1_20
        } else if id == 764 {
            ProtocolVersion::V1_20_2
        } else if id == 765 {
            ProtocolVersion::V1_20_4
        } else if id == 766 {
            ProtocolVersion::V1_20_6
        } else if id == 767 {
            ProtocolVersion::V1_21
        } else {
            ProtocolVersion::Unknown
        }
    }

    /// The display name of this version.
    pub open spec fn spec_name(self) -> Seq<char> {
        match self {
            ProtocolVersion::Unknown => "Unknown"@,
            ProtocolVersion::V1_13_2 => "1.13.2"@,
            ProtocolVersion::V1_14 => "1.14"@,
            ProtocolVersion::V1_15 => "1.15"@,
            ProtocolVersion::V1_15_2 => "1.15.2"@,
            ProtocolVersion::V20w12a => "20w12a"@,
            ProtocolVersion::V1_16 => "1.16"@,
            ProtocolVersion::V1_16_1 => "1.16.1"@,
            ProtocolVersion::V1_16_2 => "1.16.2"@,
            ProtocolVersion::V1_17 => "1.17"@,
            ProtocolVersion::V1_18_1 => "1.18.1"@,
            ProtocolVersion::V1_19 => "1.19"@,
            ProtocolVersion::V1_19_2 => "1.19.2"@,
            ProtocolVersion::V1_19_3 => "1.19.3"@,
            ProtocolVersion::V1_19_4 => "1.19.4"@,
            ProtocolVersion::V1_20 => "1.20"@,
            ProtocolVersion::V1_20_2 => "1.20.2"@,
            ProtocolVersion::V1_20_4 => "1.20.4"@,
            ProtocolVersion::V1_20_5 => "1.20.5"@,
            ProtocolVersion::V1_20_6 => "1.20.6"@,
            ProtocolVersion::V1_21 => "1.21"@,
        }
    }

    pub fn get_id(self) -> (r: i32)
        ensures
            r == self.spec_id(),
    {
        match self {
            ProtocolVersion::Unknown => -1,
            ProtocolVersion::V1_13_2 => 404,
            ProtocolVersion::V1_14 => 477,
            ProtocolVersion::V1_15 => 573,
            ProtocolVersion::V1_15_2 => 578,
            ProtocolVersion::V20w12a => 707,
            ProtocolVersion::V1_16 => 735,
            ProtocolVersion::V1_16_1 => 736,
            ProtocolVersion::V1_16_2 => 751,
            ProtocolVersion::V1_17 => 755,
            ProtocolVersion::V1_18_1 => 757,
            ProtocolVersion::V1_19 => 759,
            ProtocolVersion::V1_19_2 => 760,
            ProtocolVersion::V1_19_3 => 761,
            ProtocolVersion::V1_19_4 => 762,
            ProtocolVersion::V1_20 => 763,
            ProtocolVersion::V1_20_2 => 764,
            ProtocolVersion::V1_20_4 => 765,
            ProtocolVersion::V1_20_5 => 766,
            ProtocolVersion::V1_20_6 => 766,
            ProtocolVersion::V1_21 => 767,
        }
    }

    pub fn from_id(id: i32) -> (r: ProtocolVersion)
        ensures
            r == Self::spec_from_id(id),
    {
        if id == 404 {
            ProtocolVersion::V1_13_2
        } else if id == 477 {
            ProtocolVersion::V1_14
        } else if id == 573 {
            ProtocolVersion::V1_15
        } else if id == 578 {
            ProtocolVersion::V1_15_2
        } else if id == 707 {
            ProtocolVersion::V20w12a
        } else if id == 735 {
            ProtocolVersion::V1_16
        } else if id == 736 {
            ProtocolVersion::V1_16_1
        } else if id == 751 {
            ProtocolVersion::V1_16_2
        } else if id == 755 {
            ProtocolVersion::V1_17
        } else if id == 757 {
            ProtocolVersion::V1_18_1
        } else if id == 759 {
            ProtocolVersion::V1_19
        } else if id == 760 {
            ProtocolVersion::V1_19_2
        } else if id == 761 {
            ProtocolVersion::V1_19_3
        } else if id == 762 {
            ProtocolVersion::V1_19_4
        } else if id == 763 {
            ProtocolVersion::V1_20
        } else if id == 764 {
            ProtocolVersion::V1_20_2
        } else if id == 765 {
            ProtocolVersion::V1_20_4
        } else if id == 766 {
            ProtocolVersion::V1_20_6
        } else if id == 767 {
            ProtocolVersion::V1_21
        } else {
            ProtocolVersion::Unknown
        }
    }

    pub fn get_name(self) -> (r: String)
        ensures
            r@ == self.spec_name(),
    {
        match self {
            ProtocolVersion::Unknown => "Unknown".to_owned(),
            ProtocolVersion::V1_13_2 => "1.13.2".to_owned(),
            ProtocolVersion::V1_14 => "1.14".to_owned(),
            ProtocolVersion::V1_15 => "1.15".to_owned(),
            ProtocolVersion::V1_15_2 => "1.15.2".to_owned(),
            ProtocolVersion::V20w12a => "20w12a".to_owned(),
            ProtocolVersion::V1_16 => "1.16".to_owned(),
            ProtocolVersion::V1_16_1 => "1.16.1".to_owned(),
            ProtocolVersion::V1_16_2 => "1.16.2".to_owned(),
            ProtocolVersion::V1_17 => "1.17".to_owned(),
            ProtocolVersion::V1_18_1 => "1.18.1".to_owned(),
            ProtocolVersion::V1_19 => "1.19".to_owned(),
            ProtocolVersion::V1_19_2 => "1.19.2".to_owned(),
            ProtocolVersion::V1_19_3 => "1.19.3".to_owned(),
            ProtocolVersion::V1_19_4 => "1.19.4".to_owned(),
            ProtocolVersion::V1_20 => "1.20".to_owned(),
            ProtocolVersion::V1_20_2 => "1.20.2".to_owned(),
            ProtocolVersion::V1_20_4 => "1.20.4".to_owned(),
            ProtocolVersion::V1_20_5 => "1.20.5".to_owned(),
            ProtocolVersion::V1_20_6 => "1.20.6".to_owned(),
            ProtocolVersion::V1_21 => "1.21".to_owned(),
        }
    }

    /// `self` is at least as new as `other` in the total order by id.
    pub fn ge(self, other: ProtocolVersion) -> (r: bool)
        ensures
            r == (self.spec_id() >= other.spec_id()),
    {
        self.get_id() >= other.get_id()
    }

    /// `self` is strictly older than `other` in the total order by id.
    pub fn lt(self, other: ProtocolVersion) -> (r: bool)
        ensures
            r == (self.spec_id() < other.spec_id()),
    {
        self.get_id() < other.get_id()
    }
}

} // verus!
