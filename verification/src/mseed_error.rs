//! The errors that reading, writing and transcoding can end in.

use vstd::prelude::*;

verus! {

/// What went wrong while a record was read, written, encoded or decoded.
#[derive(Debug, Clone, PartialEq, Eq)]
pub enum MSeedError {
    /// Fewer bytes were available than the fixed header needs: the number
    /// available, then the number needed.
    InsufficientBytes(usize, usize),
    /// The checksum over the record differs from the one in its header: the
    /// checksum that was computed, then the one from the header.
    CrcInvalid(u32, u32),
    /// Identifier or extra header bytes are not UTF-8.
    FromUtf8Error,
    /// The extra headers are not JSON; the field holds the parser's message.
    JsonError(String),
    /// The first two bytes of the header are not `MS`; the fields hold them.
    BadRecordIndicator(u8, u8),
    /// The format version in the header is not 3; the field holds it.
    UnknownFormatVersion(u8),
    /// The text is no FDSN source identifier: the text, then the part of it
    /// that could not be read.
    IdentifierParse(String, String),
    /// The extra headers are JSON, but not an object; the field holds them.
    ExtraHeaderNotObject(String),
    /// The extra headers are an object whose reserved members are malformed.
    ExtraHeaderParse(String),
    /// The payload cannot be interpreted under the encoding with this code.
    UnknownEncoding(u8),
    /// The data length in the header contradicts encoding and sample count:
    /// the length expected, the sample count, the encoding's code and the
    /// data length found.
    DataLength(u32, u32, u8, u32),
    /// A Steim frame block could not be built or read.
    Compression(String),
    /// Any other failure.
    Unknown(String),
}

} // verus!
