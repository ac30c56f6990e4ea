//! Column types of the database: the closed set of logical types, their
//! numeric codes and storage widths.

use crate::error::{InvalidReason, ParquetError, ParquetResult};
use vstd::prelude::*;

verus! {

/// The kind of a column, without the extra type information that some kinds
/// carry (such as the number of bits of a geohash).
#[derive(Debug, Clone, Copy, PartialEq, Eq, Structural)]
pub enum ColumnTypeTag {
    Boolean,
    Byte,
    Short,
    Char,
    Int,
    Long,
    Date,
    Timestamp,
    Float,
    Double,
    String,
    Symbol,
    Long256,
    GeoByte,
    GeoShort,
    GeoInt,
    GeoLong,
    Binary,
    Uuid,
    Long128,
    IPv4,
    Varchar,
}

impl ColumnTypeTag {
    /// The numeric code of the tag, as the database engine knows it.
    pub open spec fn spec_code(self) -> int {
        match self {
            ColumnTypeTag::Boolean => 1,
            ColumnTypeTag::Byte => 2,
            ColumnTypeTag::Short => 3,
            ColumnTypeTag::Char => 4,
            ColumnTypeTag::Int => 5,
            ColumnTypeTag::Long => 6,
            ColumnTypeTag::Date => 7,
            ColumnTypeTag::Timestamp => 8,
            ColumnTypeTag::Float => 9,
            ColumnTypeTag::Double => 10,
            ColumnTypeTag::String => 11,
            ColumnTypeTag::Symbol => 12,
            ColumnTypeTag::Long256 => 13,
            ColumnTypeTag::GeoByte => 14,
            ColumnTypeTag::GeoShort => 15,
            ColumnTypeTag::GeoInt => 16,
            ColumnTypeTag::GeoLong => 17,
            ColumnTypeTag::Binary => 18,
            ColumnTypeTag::Uuid => 19,
            ColumnTypeTag::Long128 => 24,
            ColumnTypeTag::IPv4 => 25,
            ColumnTypeTag::Varchar => 26,
        }
    }

    /// The numeric code of the tag.
    pub fn code(self) -> (code: u8)
        ensures
            code == self.spec_code(),
    {
        match self {
            ColumnTypeTag::Boolean => 1,
            ColumnTypeTag::Byte => 2,
            ColumnTypeTag::Short => 3,
            ColumnTypeTag::Char => 4,
            ColumnTypeTag::Int => 5,
            ColumnTypeTag::Long => 6,
            ColumnTypeTag::Date => 7,
            ColumnTypeTag::Timestamp => 8,
            ColumnTypeTag::Float => 9,
            ColumnTypeTag::Double => 10,
            ColumnTypeTag::String => 11,
            ColumnTypeTag::Symbol => 12,
            ColumnTypeTag::Long256 => 13,
            ColumnTypeTag::GeoByte => 14,
            ColumnTypeTag::GeoShort => 15,
            ColumnTypeTag::GeoInt => 16,
            ColumnTypeTag::GeoLong => 17,
            ColumnTypeTag::Binary => 18,
            ColumnTypeTag::Uuid => 19,
            ColumnTypeTag::Long128 => 24,
            ColumnTypeTag::IPv4 => 25,
            ColumnTypeTag::Varchar => 26,
        }
    }

    /// The tag with the given code, if the code names one.
    pub open spec fn spec_from_code(code: int) -> Option<ColumnTypeTag> {
        if code == 1 {
            Some(ColumnTypeTag::Boolean)
        } else if code == 2 {
            Some(ColumnTypeTag::Byte)
        } else if code == 3 {
            Some(ColumnTypeTag::Short)
        } else if code == 4 {
            Some(ColumnTypeTag::Char)
        } else if code == 5 {
            Some(ColumnTypeTag::Int)
        } else if code == 6 {
            Some(ColumnTypeTag::Long)
        } else if code == 7 {
            Some(ColumnTypeTag::Date)
        } else if code == 8 {
            Some(ColumnTypeTag::Timestamp)
        } else if code == 9 {
            Some(ColumnTypeTag::Float)
        } else if code == 10 {
            Some(ColumnTypeTag::Double)
        } else if code == 11 {
            Some(ColumnTypeTag::String)
        } else if code == 12 {
            Some(ColumnTypeTag::Symbol)
        } else if code == 13 {
            Some(ColumnTypeTag::Long256)
        } else if code == 14 {
            Some(ColumnTypeTag::GeoByte)
        } else if code == 15 {
            Some(ColumnTypeTag::GeoShort)
        } else if code == 16 {
            Some(ColumnTypeTag::GeoInt)
        } else if code == 17 {
            Some(ColumnTypeTag::GeoLong)
        } else if code == 18 {
            Some(ColumnTypeTag::Binary)
        } else if code == 19 {
            Some(ColumnTypeTag::Uuid)
        } else if code == 24 {
            Some(ColumnTypeTag::Long128)
        } else if code == 25 {
            Some(ColumnTypeTag::IPv4)
        } else if code == 26 {
            Some(ColumnTypeTag::Varchar)
        } else {
            None
        }
    }

    /// The tag with the given code, or `None` where no tag has it.
    pub fn from_code(code: u8) -> (tag: Option<ColumnTypeTag>)
        ensures
            tag == Self::spec_from_code(code as int),
            tag matches Some(t) ==> t.spec_code() == code,
    {
        if code == 1 {
            Some(ColumnTypeTag::Boolean)
        } else if code == 2 {
            Some(ColumnTypeTag::Byte)
        } else if code == 3 {
            Some(ColumnTypeTag::Short)
        } else if code == 4 {
            Some(ColumnTypeTag::Char)
        } else if code == 5 {
            Some(ColumnTypeTag::Int)
        } else if code == 6 {
            Some(ColumnTypeTag::Long)
        } else if code == 7 {
            Some(ColumnTypeTag::Date)
        } else if code == 8 {
            Some(ColumnTypeTag::Timestamp)
        } else if code == 9 {
            Some(ColumnTypeTag::Float)
        } else if code == 10 {
            Some(ColumnTypeTag::Double)
        } else if code == 11 {
            Some(ColumnTypeTag::String)
        } else if code == 12 {
            Some(ColumnTypeTag::Symbol)
        } else if code == 13 {
            Some(ColumnTypeTag::Long256)
        } else if code == 14 {
            Some(ColumnTypeTag::GeoByte)
        } else if code == 15 {
            Some(ColumnTypeTag::GeoShort)
        } else if code == 16 {
            Some(ColumnTypeTag::GeoInt)
        } else if code == 17 {
            Some(ColumnTypeTag::GeoLong)
        } else if code == 18 {
            Some(ColumnTypeTag::Binary)
        } else if code == 19 {
            Some(ColumnTypeTag::Uuid)
        } else if code == 24 {
            Some(ColumnTypeTag::Long128)
        } else if code == 25 {
            Some(ColumnTypeTag::IPv4)
        } else if code == 26 {
            Some(ColumnTypeTag::Varchar)
        } else {
            None
        }
    }

    /// The number of bytes that one value takes in a column of this kind, or
    /// `None` where the values vary in length.
    pub open spec fn spec_fixed_size(self) -> Option<nat> {
        match self {
            ColumnTypeTag::Boolean | ColumnTypeTag::Byte | ColumnTypeTag::GeoByte => Some(1nat),
            ColumnTypeTag::Short | ColumnTypeTag::Char | ColumnTypeTag::GeoShort => Some(2nat),
            ColumnTypeTag::Int
            | ColumnTypeTag::Float
            | ColumnTypeTag::Symbol
            | ColumnTypeTag::GeoInt
            | ColumnTypeTag::IPv4 => Some(4nat),
            ColumnTypeTag::Long
            | ColumnTypeTag::Date
            | ColumnTypeTag::Timestamp
            | ColumnTypeTag::Double
            | ColumnTypeTag::GeoLong => Some(8nat),
            ColumnTypeTag::Uuid | ColumnTypeTag::Long128 => Some(16nat),
            ColumnTypeTag::Long256 => Some(32nat),
            ColumnTypeTag::String | ColumnTypeTag::Binary | ColumnTypeTag::Varchar => None,
        }
    }

    /// The number of bytes of one value, or `None` where the values vary in length.
    pub fn fixed_size(self) -> (size: Option<usize>)
        ensures
            size is Some == self.spec_fixed_size() is Some,
            size matches Some(n) ==> self.spec_fixed_size() == Some(n as nat),
    {
        match self {
            ColumnTypeTag::Boolean | ColumnTypeTag::Byte | ColumnTypeTag::GeoByte => Some(1),
            ColumnTypeTag::Short | ColumnTypeTag::Char | ColumnTypeTag::GeoShort => Some(2),
            ColumnTypeTag::Int
            | ColumnTypeTag::Float
            | ColumnTypeTag::Symbol
            | ColumnTypeTag::GeoInt
            | ColumnTypeTag::IPv4 => Some(4),
            ColumnTypeTag::Long
            | ColumnTypeTag::Date
            | ColumnTypeTag::Timestamp
            | ColumnTypeTag::Double
            | ColumnTypeTag::GeoLong => Some(8),
            ColumnTypeTag::Uuid | ColumnTypeTag::Long128 => Some(16),
            ColumnTypeTag::Long256 => Some(32),
            ColumnTypeTag::String | ColumnTypeTag::Binary | ColumnTypeTag::Varchar => None,
        }
    }

    /// The column type of this kind that carries no extra information.
    pub fn into_type(self) -> (t: ColumnType)
        ensures
            t.tag() == self,
            t.code() == self.spec_code(),
    {
        let code: u8 = self.code();
        ColumnType { code: code as i32, tag: self }
    }
}

/// A column type: a tag in the low eight bits of its code, and above them the
/// extra information that some kinds carry.
#[derive(Debug, Clone, Copy, PartialEq, Eq, Structural)]
pub struct ColumnType {
    code: i32,
    tag: ColumnTypeTag,
}

impl ColumnType {
    #[verifier::type_invariant]
    spec fn well_formed(self) -> bool {
        self.code > 0 && self.code % 256 == self.tag.spec_code()
    }

    /// The column type of a code, where the code is positive and its low
    /// eight bits name a tag.
    pub open spec fn spec_try_from(code: i32) -> Option<ColumnTypeTag> {
        if code > 0 {
            ColumnTypeTag::spec_from_code(code as int % 256)
        } else {
            None
        }
    }

    /// The kind of the column type.
    pub closed spec fn spec_tag(&self) -> ColumnTypeTag {
        self.tag
    }

    /// The code of the column type.
    pub closed spec fn spec_code(&self) -> i32 {
        self.code
    }

    /// A column type of the given kind with the given extra information.
    pub fn new(tag: ColumnTypeTag, extra_type_info: u16) -> (t: ColumnType)
        ensures
            t.tag() == tag,
            t.code() == tag.spec_code() + 256 * extra_type_info,
    {
        let low: u8 = tag.code();
        let code: i32 = low as i32 + 256 * (extra_type_info as i32);
        ColumnType { code, tag }
    }

    /// Checks a code that comes from outside and gives the column type that it
    /// stands for.
    pub fn try_from(code: i32) -> (res: ParquetResult<ColumnType>)
        ensures
            match res {
                Ok(t) => Self::spec_try_from(code) == Some(t.tag()) && t.code() == code,
                Err(e) => Self::spec_try_from(code) is None && e == ParquetError::Invalid(
                    InvalidReason::UnknownColumnTypeCode { code },
                ),
            },
    {
        if code <= 0 {
            return Err(ParquetError::Invalid(InvalidReason::UnknownColumnTypeCode { code }));
        }
        let low: u8 = (code % 256) as u8;
        match ColumnTypeTag::from_code(low) {
            Some(tag) => Ok(ColumnType { code, tag }),
            None => Err(ParquetError::Invalid(InvalidReason::UnknownColumnTypeCode { code })),
        }
    }

    /// The code of the column type: the code of its kind, and above it the extra information.
    #[verifier::when_used_as_spec(spec_code)]
    pub fn code(&self) -> (code: i32)
        ensures
            code == self.spec_code(),
            code > 0,
            code % 256 == self.tag().spec_code(),
    {
        proof {
            use_type_invariant(self);
        }
        self.code
    }

    /// The kind of the column type.
    #[verifier::when_used_as_spec(spec_tag)]
    pub fn tag(&self) -> (tag: ColumnTypeTag)
        ensures
            tag == self.spec_tag(),
    {
        self.tag
    }
}

} // verus!
