//! The encodings that a payload can have, and their codes in the header.

use crate::text::{numeral, with_decimal};
use vstd::prelude::*;
use vstd::string::StringExecFns;

verus! {

/// Known data encodings.
///
/// ```text
/// 0   Text, UTF-8 allowed, use ASCII for maximum portability, no structure defined
/// 1   16-bit integer (two's complement), little endian byte order
/// 3   32-bit integer (two's complement), little endian byte order
/// 4   32-bit floats (IEEE float), little endian byte order
/// 5   64-bit floats (IEEE double), little endian byte order
/// 10  Steim-1 integer compression, big endian byte order
/// 11  Steim-2 integer compression, big endian byte order
/// 19  Steim-3 integer compression, big endian (not in common use in archives)
/// 100 Opaque data - only for use in special scenarios, not intended for archiving
/// ```
#[allow(non_camel_case_types)]
#[derive(Debug, Clone, Copy, PartialEq, Eq, Structural)]
pub enum DataEncoding {
    TEXT,
    INT16,
    INT32,
    FLOAT32,
    FLOAT64,
    STEIM1,
    STEIM2,
    STEIM3,
    OPAQUE,
    UNKNOWN(u8),
}

impl DataEncoding {
    /// The code of the encoding.
    pub open spec fn code(self) -> u8 {
        match self {
            DataEncoding::TEXT => 0,
            DataEncoding::INT16 => 1,
            DataEncoding::INT32 => 3,
            DataEncoding::FLOAT32 => 4,
            DataEncoding::FLOAT64 => 5,
            DataEncoding::STEIM1 => 10,
            DataEncoding::STEIM2 => 11,
            DataEncoding::STEIM3 => 19,
            DataEncoding::OPAQUE => 100,
            DataEncoding::UNKNOWN(val) => val,
        }
    }

    /// The encoding with the given code.
    pub open spec fn of_code(val: u8) -> DataEncoding {
        if val == 0 {
            DataEncoding::TEXT
        } else if val == 1 {
            DataEncoding::INT16
        } else if val == 3 {
            DataEncoding::INT32
        } else if val == 4 {
            DataEncoding::FLOAT32
        } else if val == 5 {
            DataEncoding::FLOAT64
        } else if val == 10 {
            DataEncoding::STEIM1
        } else if val == 11 {
            DataEncoding::STEIM2
        } else if val == 19 {
            DataEncoding::STEIM3
        } else if val == 100 {
            DataEncoding::OPAQUE
        } else {
            DataEncoding::UNKNOWN(val)
        }
    }

    /// Whether the encoding is the one that its code stands for: every
    /// encoding but `UNKNOWN` with the code of a known encoding.
    pub open spec fn is_canonical(self) -> bool {
        Self::of_code(self.code()) == self
    }

    /// The number of bytes of one sample, for the encodings that store
    /// samples as integers or floats of fixed width.
    pub open spec fn sample_width(self) -> Option<int> {
        match self {
            DataEncoding::INT16 => Some(2),
            DataEncoding::INT32 => Some(4),
            DataEncoding::FLOAT32 => Some(4),
            DataEncoding::FLOAT64 => Some(8),
            _ => None,
        }
    }

    /// What the encoding is, in words.
    pub open spec fn description(self) -> Seq<char> {
        match self {
            DataEncoding::TEXT => "Text, UTF-8 allowed, use ASCII for maximum portability, no structure defined"@,
            DataEncoding::INT16 => "16-bit integer (two's complement), little endian byte order"@,
            DataEncoding::INT32 => "32-bit integer (two's complement), little endian byte order"@,
            DataEncoding::FLOAT32 => "32-bit floats (IEEE float), little endian byte order"@,
            DataEncoding::FLOAT64 => "64-bit floats (IEEE double), little endian byte order"@,
            DataEncoding::STEIM1 => "Steim-1 integer compression, big endian byte order"@,
            DataEncoding::STEIM2 => "Steim-2 integer compression, big endian byte order"@,
            DataEncoding::STEIM3 => "Steim-3 integer compression, big endian (not in common use in archives)"@,
            DataEncoding::OPAQUE => "Opaque data - only for use in special scenarios, not intended for archiving"@,
            DataEncoding::UNKNOWN(val) => "Unknown encoding: "@ + numeral(val as nat, false),
        }
    }

    /// What the encoding is, in words.
    pub fn to_string(&self) -> (text: String)
        ensures
            text@ == self.description(),
    {
        match self {
            DataEncoding::TEXT => String::from_str(
                "Text, UTF-8 allowed, use ASCII for maximum portability, no structure defined",
            ),
            DataEncoding::INT16 => String::from_str(
                "16-bit integer (two's complement), little endian byte order",
            ),
            DataEncoding::INT32 => String::from_str(
                "32-bit integer (two's complement), little endian byte order",
            ),
            DataEncoding::FLOAT32 => String::from_str(
                "32-bit floats (IEEE float), little endian byte order",
            ),
            DataEncoding::FLOAT64 => String::from_str(
                "64-bit floats (IEEE double), little endian byte order",
            ),
            DataEncoding::STEIM1 => String::from_str(
                "Steim-1 integer compression, big endian byte order",
            ),
            DataEncoding::STEIM2 => String::from_str(
                "Steim-2 integer compression, big endian byte order",
            ),
            DataEncoding::STEIM3 => String::from_str(
                "Steim-3 integer compression, big endian (not in common use in archives)",
            ),
            DataEncoding::OPAQUE => String::from_str(
                "Opaque data - only for use in special scenarios, not intended for archiving",
            ),
            DataEncoding::UNKNOWN(val) => with_decimal("Unknown encoding: ", *val as u64),
        }
    }

    /// Creates a `DataEncoding` from its code.
    pub fn from_int(val: u8) -> (encoding: DataEncoding)
        ensures
            encoding == Self::of_code(val),
            encoding.code() == val,
            encoding.is_canonical(),
    {
        match val {
            0 => DataEncoding::TEXT,
            1 => DataEncoding::INT16,
            3 => DataEncoding::INT32,
            4 => DataEncoding::FLOAT32,
            5 => DataEncoding::FLOAT64,
            10 => DataEncoding::STEIM1,
            11 => DataEncoding::STEIM2,
            19 => DataEncoding::STEIM3,
            100 => DataEncoding::OPAQUE,
            _ => DataEncoding::UNKNOWN(val),
        }
    }

    /// The code of the encoding.
    pub fn value(&self) -> (val: u8)
        ensures
            val == self.code(),
    {
        match self {
            DataEncoding::TEXT => 0,
            DataEncoding::INT16 => 1,
            DataEncoding::INT32 => 3,
            DataEncoding::FLOAT32 => 4,
            DataEncoding::FLOAT64 => 5,
            DataEncoding::STEIM1 => 10,
            DataEncoding::STEIM2 => 11,
            DataEncoding::STEIM3 => 19,
            DataEncoding::OPAQUE => 100,
            DataEncoding::UNKNOWN(val) => *val,
        }
    }
}

/// Codes and encodings correspond: the encoding of a code has that code, and
/// the code of an encoding stands for that encoding unless the encoding is
/// `UNKNOWN` with a known code.
pub proof fn lemma_code_round_trip(val: u8, encoding: DataEncoding)
    ensures
        DataEncoding::of_code(val).code() == val,
        DataEncoding::of_code(val).is_canonical(),
        DataEncoding::of_code(encoding.code()) == encoding || (encoding
            == DataEncoding::UNKNOWN(encoding.code()) && !(DataEncoding::of_code(
            encoding.code(),
        ) is UNKNOWN)),
{
}

} // verus!
