//! Partition function kinds and their classification predicates.

use vstd::prelude::*;

verus! {

/// The partitioning scheme tag carried by a table's partition descriptor.
#[derive(Clone, Copy, Debug, PartialEq, Eq, Structural)]
pub enum PartFuncType {
    UNKNOWN,
    HASH,
    KEY,
    KeyImplicit,
    RANGE,
    RangeColumns,
    LIST,
    KeyV2,
    ListColumns,
    HashV2,
    KeyV3,
}

impl PartFuncType {
    /// Decodes the wire tag for a partitioning scheme; tags outside the
    /// known range decode to `UNKNOWN`.
    pub fn from_i32(index: i32) -> (t: PartFuncType)
        ensures
            t == PartFuncType::spec_from_i32(index),
    {
        match index {
            0 => PartFuncType::HASH,
            1 => PartFuncType::KEY,
            2 => PartFuncType::KeyImplicit,
            3 => PartFuncType::RANGE,
            4 => PartFuncType::RangeColumns,
            5 => PartFuncType::LIST,
            6 => PartFuncType::KeyV2,
            7 => PartFuncType::ListColumns,
            8 => PartFuncType::HashV2,
            9 => PartFuncType::KeyV3,
            _ => PartFuncType::UNKNOWN,
        }
    }

    pub open spec fn spec_from_i32(index: i32) -> PartFuncType {
        match index {
            0 => PartFuncType::HASH,
            1 => PartFuncType::KEY,
            2 => PartFuncType::KeyImplicit,
            3 => PartFuncType::RANGE,
            4 => PartFuncType::RangeColumns,
            5 => PartFuncType::LIST,
            6 => PartFuncType::KeyV2,
            7 => PartFuncType::ListColumns,
            8 => PartFuncType::HashV2,
            9 => PartFuncType::KeyV3,
            _ => PartFuncType::UNKNOWN,
        }
    }

    pub open spec fn spec_is_list_part(self) -> bool {
        self == PartFuncType::LIST || self == PartFuncType::ListColumns
    }

    pub fn is_list_part(&self) -> (b: bool)
        ensures
            b == self.spec_is_list_part(),
    {
        matches!(self, PartFuncType::LIST | PartFuncType::ListColumns)
    }

    pub open spec fn spec_is_key_part(self) -> bool {
        self == PartFuncType::KeyImplicit || self == PartFuncType::KeyV2
            || self == PartFuncType::KeyV3
    }

    pub fn is_key_part(&self) -> (b: bool)
        ensures
            b == self.spec_is_key_part(),
    {
        matches!(self, PartFuncType::KeyImplicit | PartFuncType::KeyV2 | PartFuncType::KeyV3)
    }

    pub open spec fn spec_is_range_part(self) -> bool {
        self == PartFuncType::RANGE || self == PartFuncType::RangeColumns
    }

    pub fn is_range_part(&self) -> (b: bool)
        ensures
            b == self.spec_is_range_part(),
    {
        matches!(self, PartFuncType::RANGE | PartFuncType::RangeColumns)
    }

    pub open spec fn spec_is_hash_part(self) -> bool {
        self == PartFuncType::HASH || self == PartFuncType::HashV2
    }

    pub fn is_hash_part(&self) -> (b: bool)
        ensures
            b == self.spec_is_hash_part(),
    {
        matches!(self, PartFuncType::HASH | PartFuncType::HashV2)
    }
}

} // verus!
