//! The fixed header of a record: 40 bytes, all integers little-endian.
//!
//! ```text
//!  0  'M' 'S'            2  format version   3  flags
//!  4  nanosecond (u32)   8  year (u16)      10  day of year (u16)
//! 12  hour  13  minute  14  second          15  encoding
//! 16  sample rate or period (f64)           24  number of samples (u32)
//! 28  CRC (u32)         32  publication version
//! 33  identifier length (u8)                34  extra headers length (u16)
//! 36  data length (u32)
//! ```
//!
//! The sample rate is held as the bit pattern of the IEEE 754 double that the
//! record stores: positive for a rate in samples per second, negative for a
//! period in seconds per sample.

use crate::bytes::{
    le_bytes_u16, le_bytes_u32, le_bytes_u64, le_u16_at, le_u32_at, le_u64_at,
    lemma_le_bytes_of_u16, lemma_le_bytes_of_u32, lemma_le_bytes_of_u64, lemma_le_u16_of_bytes,
    lemma_le_u64_of_bytes, lemma_u32_of_bytes, read_le_u16, read_le_u32, read_le_u64,
    write_le_u16, write_le_u32, write_le_u64,
};
use crate::data_encoding::DataEncoding;
use crate::mseed_error::MSeedError;
use crate::text::{append_numeral, numeral};
use vstd::prelude::*;
use vstd::string::StringExecFns;
use vstd::slice::slice_subrange;

verus! {

/// Size in bytes of the fixed header. This does not include the identifier,
/// extra headers, or data.
pub const FIXED_HEADER_SIZE: usize = 40;

/// Offset to the 4-byte CRC within the header.
pub const CRC_OFFSET: usize = 28;

/// A moment in UTC, as a date by year and day of the year and a time of day.
///
/// A leap second is written as second 59 with a nanosecond of one billion or
/// more.
#[derive(Debug, Clone, Copy, PartialEq, Eq, Structural)]
pub struct UtcInstant {
    pub year: i32,
    pub ordinal: u32,
    pub hour: u32,
    pub minute: u32,
    pub second: u32,
    pub nanosecond: u32,
}

/// Whether `year` has 366 days in the proleptic Gregorian calendar.
pub open spec fn is_leap_year(year: int) -> bool {
    year % 4 == 0 && (year % 100 != 0 || year % 400 == 0)
}

impl UtcInstant {
    /// Whether the fields name a moment: a day that the year has and a time
    /// of that day, in a year between -262143 and 262142.
    pub open spec fn is_valid(self) -> bool {
        &&& -262143 <= self.year <= 262142
        &&& 1 <= self.ordinal <= 366
        &&& self.ordinal == 366 ==> is_leap_year(self.year as int)
        &&& self.hour < 24
        &&& self.minute < 60
        &&& self.second < 60
        &&& self.nanosecond < 2_000_000_000
        &&& self.nanosecond >= 1_000_000_000 ==> self.second == 59
    }

    /// Whether the fields name a moment.
    pub fn check_valid(&self) -> (valid: bool)
        ensures
            valid == self.is_valid(),
    {
        let leap = self.year % 4 == 0 && (self.year % 100 != 0 || self.year % 400 == 0);
        -262143 <= self.year && self.year <= 262142 && 1 <= self.ordinal && (self.ordinal <= 365
            || (self.ordinal == 366 && leap)) && self.hour < 24 && self.minute < 60 && self.second
            < 60 && self.nanosecond < 2_000_000_000 && (self.nanosecond < 1_000_000_000
            || self.second == 59)
    }
}

/// The text of a moment in UTC with nanoseconds, such as
/// `2014-11-28T12:00:09.000000000Z`, for the moments that `is_valid` accepts.
pub uninterp spec fn iso_text(start: UtcInstant) -> Seq<char>;

/// `chrono::NaiveDate::from_yo_opt`, `chrono::NaiveDate::and_hms_nano_opt`
/// and `chrono::NaiveDateTime::format` with `%Y-%m-%dT%H:%M:%S%.9fZ`: the
/// text of the moment, if chrono accepts day and time, which it does for the
/// moments that `is_valid` describes.
#[verifier::external_body]
fn format_iso(start: UtcInstant) -> (text: Option<String>)
    ensures
        text is Some <==> start.is_valid(),
        text matches Some(t) ==> t@ == iso_text(start),
{
    let date = chrono::NaiveDate::from_yo_opt(start.year, start.ordinal)?;
    let moment = date.and_hms_nano_opt(start.hour, start.minute, start.second, start.nanosecond)?;
    Some(moment.format("%Y-%m-%dT%H:%M:%S%.9fZ").to_string())
}

/// The text of a CRC: `0x` and the CRC in upper case hexadecimal digits,
/// without leading zeros.
pub open spec fn crc_text(crc: u32) -> Seq<char> {
    seq!['0', 'x'] + numeral(crc as nat, true)
}

/// The fixed section of the header. Does not contain the identifier, extra
/// headers, or timeseries data.
#[derive(Debug, Clone, PartialEq, Eq)]
pub struct MSeed3Header {
    pub record_indicator: [u8; 2],
    pub format_version: u8,
    pub flags: u8,
    pub nanosecond: u32,
    pub year: u16,
    pub day_of_year: u16,
    pub hour: u8,
    pub minute: u8,
    pub second: u8,
    pub encoding: DataEncoding,
    /// Bit pattern of the sample rate, or of the negated sample period.
    pub sample_rate_period: u64,
    pub num_samples: u32,
    pub crc: u32,
    pub publication_version: u8,
    /// Length of the identifier as the header states it.
    pub identifier_length: u8,
    /// Length of the extra headers as the header states it.
    pub extra_headers_length: u16,
    /// Length of the payload as the header states it.
    pub data_length: u32,
}

impl MSeed3Header {
    /// Bytes 0 to 15 of the header: indicator, version, flags and start time,
    /// then the encoding.  The record indicator is always written as `MS`.
    pub open spec fn time_bytes(&self) -> Seq<u8> {
        seq![77u8, 83u8, self.format_version, self.flags] + le_bytes_u32(self.nanosecond)
            + le_bytes_u16(self.year) + le_bytes_u16(self.day_of_year) + seq![
            self.hour,
            self.minute,
            self.second,
            self.encoding.code(),
        ]
    }

    /// Bytes 16 to 31 of the header: sample rate, sample count and CRC.
    pub open spec fn sample_bytes(&self) -> Seq<u8> {
        le_bytes_u64(self.sample_rate_period) + le_bytes_u32(self.num_samples) + le_bytes_u32(
            self.crc,
        )
    }

    /// Bytes 32 to 39 of the header: publication version and the lengths of
    /// what follows the header.
    pub open spec fn length_bytes(&self) -> Seq<u8> {
        seq![self.publication_version, self.identifier_length] + le_bytes_u16(
            self.extra_headers_length,
        ) + le_bytes_u32(self.data_length)
    }

    /// The 40 bytes of the header in a record.
    pub open spec fn bytes(&self) -> Seq<u8> {
        self.time_bytes() + self.sample_bytes() + self.length_bytes()
    }

    /// Whether the header is what the first 40 of `bytes` say.
    pub open spec fn is_parse_of(&self, bytes: Seq<u8>) -> bool {
        &&& self.record_indicator@ == seq![77u8, 83u8]
        &&& self.format_version == bytes[2]
        &&& self.flags == bytes[3]
        &&& self.nanosecond == le_u32_at(bytes, 4)
        &&& self.year == le_u16_at(bytes, 8)
        &&& self.day_of_year == le_u16_at(bytes, 10)
        &&& self.hour == bytes[12]
        &&& self.minute == bytes[13]
        &&& self.second == bytes[14]
        &&& self.encoding == DataEncoding::of_code(bytes[15])
        &&& self.sample_rate_period == le_u64_at(bytes, 16)
        &&& self.num_samples == le_u32_at(bytes, 24)
        &&& self.crc == le_u32_at(bytes, 28)
        &&& self.publication_version == bytes[32]
        &&& self.identifier_length == bytes[33]
        &&& self.extra_headers_length == le_u16_at(bytes, 34)
        &&& self.data_length == le_u32_at(bytes, 36)
    }

    /// The size of the record that the header describes.
    pub open spec fn record_size(&self) -> int {
        40 + self.identifier_length + self.extra_headers_length + self.data_length
    }

    /// The header with other lengths and another sample count.
    pub open spec fn with_lengths(
        self,
        identifier_length: u8,
        extra_headers_length: u16,
        data_length: u32,
        num_samples: u32,
    ) -> MSeed3Header {
        MSeed3Header { identifier_length, extra_headers_length, data_length, num_samples, ..self }
    }

    /// Whether the header is one that was newly made for the given start
    /// time, encoding and sample rate: format version 3, and zero in the
    /// flags, the CRC and the publication version.
    pub open spec fn is_fresh(
        &self,
        start: UtcInstant,
        encoding: DataEncoding,
        sample_rate_period: u64,
    ) -> bool {
        &&& self.record_indicator@ == seq![77u8, 83u8]
        &&& self.format_version == 3
        &&& self.flags == 0
        &&& self.encoding == encoding
        &&& self.sample_rate_period == sample_rate_period
        &&& self.crc == 0
        &&& self.publication_version == 0
        &&& self.nanosecond == start.nanosecond % 1_000_000_000
        &&& self.year == start.year as u16
        &&& self.day_of_year == start.ordinal
        &&& self.hour == start.hour
        &&& self.minute == start.minute
        &&& self.second == start.second + start.nanosecond / 1_000_000_000
    }

    /// The start time of the header.  A second of 60 is a leap second.
    pub open spec fn start(&self) -> UtcInstant {
        if self.second == 60 && self.nanosecond < 1_000_000_000 {
            UtcInstant {
                year: self.year as i32,
                ordinal: self.day_of_year as u32,
                hour: self.hour as u32,
                minute: self.minute as u32,
                second: 59,
                nanosecond: (self.nanosecond + 1_000_000_000) as u32,
            }
        } else {
            UtcInstant {
                year: self.year as i32,
                ordinal: self.day_of_year as u32,
                hour: self.hour as u32,
                minute: self.minute as u32,
                second: self.second as u32,
                nanosecond: self.nanosecond,
            }
        }
    }

    /// The header with the start time `start`: a nanosecond of a billion or
    /// more becomes one more second.
    pub open spec fn with_start(self, start: UtcInstant) -> MSeed3Header {
        MSeed3Header {
            nanosecond: (start.nanosecond % 1_000_000_000) as u32,
            year: start.year as u16,
            day_of_year: start.ordinal as u16,
            hour: start.hour as u8,
            minute: start.minute as u8,
            second: (start.second + start.nanosecond / 1_000_000_000) as u8,
            ..self
        }
    }

    /// The header field representing the length of the identifier. Note that
    /// this is the value at the time the record was created. If the
    /// identifier was changed this value may be wrong and will be
    /// recalculated on write.
    pub fn raw_identifier_length(&self) -> (len: u8)
        ensures
            len == self.identifier_length,
    {
        self.identifier_length
    }

    /// The header field representing the length of the extra headers string.
    /// Note that this is the value at the time the record was created. If
    /// the extra headers have been changed this value may be wrong and will
    /// be recalculated on write.
    pub fn raw_extra_headers_length(&self) -> (len: u16)
        ensures
            len == self.extra_headers_length,
    {
        self.extra_headers_length
    }

    /// The header field representing the length of the timeseries data. Note
    /// that this is the value at the time the record was created. If the
    /// data was changed this value may be wrong and will be recalculated on
    /// write.
    pub fn raw_data_length(&self) -> (len: u32)
        ensures
            len == self.data_length,
    {
        self.data_length
    }

    /// Resets the values that may have changed since the record was
    /// deserialized, for example due to modifying the data or adding extra
    /// headers.
    pub fn recalculated_lengths(
        &mut self,
        identifier_length: u8,
        extra_headers_length: u16,
        data_length: u32,
        num_samples: u32,
    )
        ensures
            *final(self) == old(self).with_lengths(
                identifier_length,
                extra_headers_length,
                data_length,
                num_samples,
            ),
    {
        self.identifier_length = identifier_length;
        self.extra_headers_length = extra_headers_length;
        self.data_length = data_length;
        self.num_samples = num_samples;
    }

    /// Creates a minimal new header with time, data encoding, sample rate and
    /// number of samples.  All other fields are set to zero.  A number of
    /// samples beyond 32 bits is cut to its low 32 bits.
    pub fn new(
        start: UtcInstant,
        encoding: DataEncoding,
        sample_rate_period: u64,
        num_samples: usize,
    ) -> (header: MSeed3Header)
        requires
            start.is_valid(),
        ensures
            header.is_fresh(start, encoding, sample_rate_period),
            header.num_samples == num_samples as u32,
            header.identifier_length == 0,
            header.extra_headers_length == 0,
            header.data_length == 0,
    {
        let mut header = MSeed3Header {
            record_indicator: [77, 83],
            format_version: 3,
            flags: 0,
            nanosecond: 0,
            year: 2000,
            day_of_year: 0,
            hour: 0,
            minute: 0,
            second: 0,
            encoding,
            sample_rate_period,
            num_samples: #[verifier::truncate]
            (num_samples as u32),
            crc: 0,
            publication_version: 0,
            identifier_length: 0,
            extra_headers_length: 0,
            data_length: 0,
        };
        header.set_start_from_utc(start);
        assert(header.record_indicator@ =~= seq![77u8, 83u8]);
        header
    }

    /// Appends the 40 bytes of the header to `buf`.
    pub fn write_to(&self, buf: &mut Vec<u8>)
        ensures
            final(buf)@ == old(buf)@ + self.bytes(),
            self.bytes().len() == 40,
    {
        buf.push(77);
        buf.push(83);
        buf.push(self.format_version);
        buf.push(self.flags);
        write_le_u32(buf, self.nanosecond);
        write_le_u16(buf, self.year);
        write_le_u16(buf, self.day_of_year);
        buf.push(self.hour);
        buf.push(self.minute);
        buf.push(self.second);
        buf.push(self.encoding.value());
        assert(buf@ =~= old(buf)@ + self.time_bytes());
        let ghost timed = buf@;
        write_le_u64(buf, self.sample_rate_period);
        write_le_u32(buf, self.num_samples);
        write_le_u32(buf, self.crc);
        assert(buf@ =~= timed + self.sample_bytes());
        let ghost sampled = buf@;
        buf.push(self.publication_version);
        buf.push(self.identifier_length);
        write_le_u16(buf, self.extra_headers_length);
        write_le_u32(buf, self.data_length);
        assert(buf@ =~= sampled + self.length_bytes());
        assert(buf@ =~= old(buf)@ + self.bytes());
    }

    /// Start time as a moment in UTC.
    pub fn get_start_as_utc(&self) -> (start: UtcInstant)
        ensures
            start == self.start(),
    {
        if self.second == 60 && self.nanosecond < 1_000_000_000 {
            UtcInstant {
                year: self.year as i32,
                ordinal: self.day_of_year as u32,
                hour: self.hour as u32,
                minute: self.minute as u32,
                second: 59,
                nanosecond: self.nanosecond + 1_000_000_000,
            }
        } else {
            UtcInstant {
                year: self.year as i32,
                ordinal: self.day_of_year as u32,
                hour: self.hour as u32,
                minute: self.minute as u32,
                second: self.second as u32,
                nanosecond: self.nanosecond,
            }
        }
    }

    /// Sets the start time.  The nanosecond of a leap second, which is a
    /// billion or more, becomes second 60 and the rest below a billion.  A
    /// year beyond 16 bits is cut to its low 16 bits.
    pub fn set_start_from_utc(&mut self, start: UtcInstant)
        requires
            start.is_valid(),
        ensures
            *final(self) == old(self).with_start(start),
            final(self).nanosecond == start.nanosecond % 1_000_000_000,
            final(self).day_of_year == start.ordinal,
            final(self).hour == start.hour,
            final(self).minute == start.minute,
            final(self).second == start.second + start.nanosecond / 1_000_000_000,
    {
        self.nanosecond = start.nanosecond % 1_000_000_000;
        self.year = #[verifier::truncate]
        (start.year as u16);
        self.day_of_year = start.ordinal as u16;
        self.hour = start.hour as u8;
        self.minute = start.minute as u8;
        self.second = (start.second + start.nanosecond / 1_000_000_000) as u8;
    }

    /// Whether the start time of the header is a moment: a day that the year
    /// has, and a time of that day.
    pub fn has_valid_start(&self) -> (valid: bool)
        ensures
            valid == self.start().is_valid(),
    {
        self.get_start_as_utc().check_valid()
    }

    /// Start time as ISO 8601 text with nanoseconds, such as
    /// `2014-11-28T12:00:09.000000000Z`.
    pub fn get_start_as_iso(&self) -> (iso: String)
        requires
            self.start().is_valid(),
        ensures
            iso@ == iso_text(self.start()),
    {
        match format_iso(self.get_start_as_utc()) {
            Some(text) => text,
            None => String::new(),
        }
    }

    /// Formats the CRC as hexadecimal text, like `0x106EAFA5`.
    pub fn crc_hex_string(&self) -> (text: String)
        ensures
            text@ == crc_text(self.crc),
    {
        proof {
            reveal_strlit("0x");
        }
        let mut text = String::from_str("0x");
        assert(text@ =~= seq!['0', 'x']);
        append_numeral(&mut text, self.crc as u64, true);
        text
    }

    /// The size of the data record, including the identifier, extra headers
    /// and data.  Note that this uses header values set on read, and so if
    /// any of these have changed, this value will be wrong.
    pub fn get_record_size(&self) -> (size: u32)
        requires
            self.record_size() <= u32::MAX,
        ensures
            size == self.record_size(),
    {
        FIXED_HEADER_SIZE as u32 + self.identifier_length as u32 + self.extra_headers_length as u32
            + self.data_length
    }

    /// Reads a header from the first 40 bytes of `buffer`.
    ///
    /// Fails if there are fewer than 40 bytes, if the first two are not `MS`,
    /// or if the format version is not 3.
    pub fn from_bytes(buffer: &[u8]) -> (header: Result<MSeed3Header, MSeedError>)
        ensures
            match header {
                Ok(h) => {
                    &&& buffer@.len() >= 40
                    &&& buffer@[0] == 77
                    &&& buffer@[1] == 83
                    &&& buffer@[2] == 3
                    &&& h.is_parse_of(buffer@)
                },
                Err(MSeedError::InsufficientBytes(actual, needed)) => buffer@.len() < 40 && actual
                    == buffer@.len() && needed == 40,
                Err(MSeedError::BadRecordIndicator(b0, b1)) => buffer@.len() >= 40 && (buffer@[0]
                    != 77 || buffer@[1] != 83) && b0 == buffer@[0] && b1 == buffer@[1],
                Err(MSeedError::UnknownFormatVersion(v)) => buffer@.len() >= 40 && buffer@[0] == 77
                    && buffer@[1] == 83 && buffer@[2] != 3 && v == buffer@[2],
                Err(_) => false,
            },
    {
        if buffer.len() < FIXED_HEADER_SIZE {
            return Err(MSeedError::InsufficientBytes(buffer.len(), FIXED_HEADER_SIZE));
        }
        if buffer[0] != 77 || buffer[1] != 83 {
            return Err(MSeedError::BadRecordIndicator(buffer[0], buffer[1]));
        }
        if buffer[2] != 3 {
            return Err(MSeedError::UnknownFormatVersion(buffer[2]));
        }
        let record_indicator: [u8; 2] = [77, 83];
        let format_version = buffer[2];
        let flags = buffer[3];
        // skip M, S, format, flags
        let mut header_bytes: &[u8] = slice_subrange(buffer, 4, buffer.len());
        let nanosecond = read_le_u32(&mut header_bytes);
        let year = read_le_u16(&mut header_bytes);
        let day_of_year = read_le_u16(&mut header_bytes);
        let hour = buffer[12];
        let minute = buffer[13];
        let second = buffer[14];
        let encoding = DataEncoding::from_int(buffer[15]);
        let _ = read_le_u32(&mut header_bytes);  // skip hour to encoding
        let sample_rate_period = read_le_u64(&mut header_bytes);
        let num_samples = read_le_u32(&mut header_bytes);
        let crc = read_le_u32(&mut header_bytes);
        let publication_version = buffer[32];
        let identifier_length = buffer[33];
        let _ = read_le_u16(&mut header_bytes);  // skip publication version and identifier length
        let extra_headers_length = read_le_u16(&mut header_bytes);
        let data_length = read_le_u32(&mut header_bytes);
        assert(record_indicator@ =~= seq![77u8, 83u8]);
        Ok(
            MSeed3Header {
                record_indicator,
                format_version,
                flags,
                nanosecond,
                year,
                day_of_year,
                hour,
                minute,
                second,
                encoding,
                sample_rate_period,
                num_samples,
                crc,
                publication_version,
                identifier_length,
                extra_headers_length,
                data_length,
            },
        )
    }

    /// Reads a header from the first 40 bytes of `buffer`, as `from_bytes`
    /// does.
    pub fn try_from(buffer: &[u8]) -> (header: Result<MSeed3Header, MSeedError>)
        ensures
            match header {
                Ok(h) => {
                    &&& buffer@.len() >= 40
                    &&& buffer@[0] == 77
                    &&& buffer@[1] == 83
                    &&& buffer@[2] == 3
                    &&& h.is_parse_of(buffer@)
                },
                Err(MSeedError::InsufficientBytes(actual, needed)) => buffer@.len() < 40 && actual
                    == buffer@.len() && needed == 40,
                Err(MSeedError::BadRecordIndicator(b0, b1)) => buffer@.len() >= 40 && (buffer@[0]
                    != 77 || buffer@[1] != 83) && b0 == buffer@[0] && b1 == buffer@[1],
                Err(MSeedError::UnknownFormatVersion(v)) => buffer@.len() >= 40 && buffer@[0] == 77
                    && buffer@[1] == 83 && buffer@[2] != 3 && v == buffer@[2],
                Err(_) => false,
            },
    {
        MSeed3Header::from_bytes(buffer)
    }
}

/// A header is 40 bytes.
pub proof fn lemma_header_length(header: MSeed3Header)
    ensures
        header.time_bytes().len() == 16,
        header.sample_bytes().len() == 16,
        header.length_bytes().len() == 8,
        header.bytes().len() == 40,
{
}

proof fn lemma_time_fields_of_bytes(header: MSeed3Header, bytes: Seq<u8>)
    requires
        bytes.len() >= 16,
        bytes.take(16) == header.time_bytes(),
    ensures
        bytes[0] == 77,
        bytes[1] == 83,
        bytes[2] == header.format_version,
        bytes[3] == header.flags,
        le_u32_at(bytes, 4) == header.nanosecond,
        le_u16_at(bytes, 8) == header.year,
        le_u16_at(bytes, 10) == header.day_of_year,
        bytes[12] == header.hour,
        bytes[13] == header.minute,
        bytes[14] == header.second,
        bytes[15] == header.encoding.code(),
{
    let time = header.time_bytes();
    assert forall|at: int| 0 <= at < 16 implies bytes[at] == #[trigger] time[at] by {
        assert(bytes.take(16)[at] == bytes[at]);
    }
    lemma_u32_of_bytes(header.nanosecond);
    lemma_le_u16_of_bytes(header.year);
    lemma_le_u16_of_bytes(header.day_of_year);
    assert(time[0] == 77 && time[1] == 83 && time[2] == header.format_version && time[3]
        == header.flags);
    assert(time[4] == le_bytes_u32(header.nanosecond)[0] && time[5] == le_bytes_u32(
        header.nanosecond,
    )[1] && time[6] == le_bytes_u32(header.nanosecond)[2] && time[7] == le_bytes_u32(
        header.nanosecond,
    )[3]);
    assert(time[8] == le_bytes_u16(header.year)[0] && time[9] == le_bytes_u16(header.year)[1]);
    assert(time[10] == le_bytes_u16(header.day_of_year)[0] && time[11] == le_bytes_u16(
        header.day_of_year,
    )[1]);
    assert(time[12] == header.hour && time[13] == header.minute && time[14] == header.second
        && time[15] == header.encoding.code());
}

proof fn lemma_sample_fields_of_bytes(header: MSeed3Header, bytes: Seq<u8>)
    requires
        bytes.len() >= 32,
        bytes.subrange(16, 32) == header.sample_bytes(),
    ensures
        le_u64_at(bytes, 16) == header.sample_rate_period,
        le_u32_at(bytes, 24) == header.num_samples,
        le_u32_at(bytes, 28) == header.crc,
{
    let sample = header.sample_bytes();
    let part = bytes.subrange(16, 32);
    assert(bytes[16] == part[0] && bytes[17] == part[1] && bytes[18] == part[2] && bytes[19]
        == part[3] && bytes[20] == part[4] && bytes[21] == part[5] && bytes[22] == part[6]
        && bytes[23] == part[7]);
    assert(bytes[24] == part[8] && bytes[25] == part[9] && bytes[26] == part[10] && bytes[27]
        == part[11]);
    assert(bytes[28] == part[12] && bytes[29] == part[13] && bytes[30] == part[14] && bytes[31]
        == part[15]);
    lemma_le_u64_of_bytes(header.sample_rate_period);
    lemma_u32_of_bytes(header.num_samples);
    lemma_u32_of_bytes(header.crc);
    assert forall|k: int| 0 <= k < 8 implies sample[k] == #[trigger] le_bytes_u64(
        header.sample_rate_period,
    )[k] by {}
    assert forall|k: int| 0 <= k < 4 implies sample[8 + k] == #[trigger] le_bytes_u32(
        header.num_samples,
    )[k] by {}
    assert forall|k: int| 0 <= k < 4 implies sample[12 + k] == #[trigger] le_bytes_u32(
        header.crc,
    )[k] by {}
}

proof fn lemma_length_fields_of_bytes(header: MSeed3Header, bytes: Seq<u8>)
    requires
        bytes.len() >= 40,
        bytes.subrange(32, 40) == header.length_bytes(),
    ensures
        bytes[32] == header.publication_version,
        bytes[33] == header.identifier_length,
        le_u16_at(bytes, 34) == header.extra_headers_length,
        le_u32_at(bytes, 36) == header.data_length,
{
    let length = header.length_bytes();
    let part = bytes.subrange(32, 40);
    assert(bytes[32] == part[0] && bytes[33] == part[1] && bytes[34] == part[2] && bytes[35]
        == part[3] && bytes[36] == part[4] && bytes[37] == part[5] && bytes[38] == part[6]
        && bytes[39] == part[7]);
    lemma_le_u16_of_bytes(header.extra_headers_length);
    lemma_u32_of_bytes(header.data_length);
    assert(length[0] == header.publication_version && length[1] == header.identifier_length);
    assert(length[2] == le_bytes_u16(header.extra_headers_length)[0] && length[3] == le_bytes_u16(
        header.extra_headers_length,
    )[1]);
    assert forall|k: int| 0 <= k < 4 implies length[4 + k] == #[trigger] le_bytes_u32(
        header.data_length,
    )[k] by {}
}

/// What the bytes of a header say about its fields.
pub proof fn lemma_fields_of_bytes(header: MSeed3Header, bytes: Seq<u8>)
    requires
        bytes.len() >= 40,
        bytes.take(40) == header.bytes(),
    ensures
        bytes[0] == 77,
        bytes[1] == 83,
        bytes[2] == header.format_version,
        bytes[3] == header.flags,
        le_u32_at(bytes, 4) == header.nanosecond,
        le_u16_at(bytes, 8) == header.year,
        le_u16_at(bytes, 10) == header.day_of_year,
        bytes[12] == header.hour,
        bytes[13] == header.minute,
        bytes[14] == header.second,
        bytes[15] == header.encoding.code(),
        le_u64_at(bytes, 16) == header.sample_rate_period,
        le_u32_at(bytes, 24) == header.num_samples,
        le_u32_at(bytes, 28) == header.crc,
        bytes[32] == header.publication_version,
        bytes[33] == header.identifier_length,
        le_u16_at(bytes, 34) == header.extra_headers_length,
        le_u32_at(bytes, 36) == header.data_length,
{
    lemma_header_length(header);
    let written = header.bytes();
    assert(written == bytes.take(40));
    assert(bytes.take(16) =~= header.time_bytes()) by {
        assert(bytes.take(16) =~= written.take(16));
        assert(written.take(16) =~= header.time_bytes());
    }
    assert(bytes.subrange(16, 32) =~= header.sample_bytes()) by {
        assert(bytes.subrange(16, 32) =~= written.subrange(16, 32));
        assert(written.subrange(16, 32) =~= header.sample_bytes());
    }
    assert(bytes.subrange(32, 40) =~= header.length_bytes()) by {
        assert(bytes.subrange(32, 40) =~= written.subrange(32, 40));
        assert(written.subrange(32, 40) =~= header.length_bytes());
    }
    lemma_time_fields_of_bytes(header, bytes);
    lemma_sample_fields_of_bytes(header, bytes);
    lemma_length_fields_of_bytes(header, bytes);
}

/// Reading a header that was written gives back the header, if its record
/// indicator is `MS` and its encoding is the one that its code stands for.
pub proof fn lemma_read_inverts_write(header: MSeed3Header, read: MSeed3Header, bytes: Seq<u8>)
    requires
        bytes.len() >= 40,
        bytes.take(40) == header.bytes(),
        read.is_parse_of(bytes),
        header.record_indicator@ == seq![77u8, 83u8],
        header.encoding.is_canonical(),
    ensures
        read == header,
{
    lemma_fields_of_bytes(header, bytes);
    assert(read.record_indicator@ =~= header.record_indicator@);
    assert(read.record_indicator == header.record_indicator);
}

proof fn lemma_time_bytes_of_parse(header: MSeed3Header, bytes: Seq<u8>)
    requires
        bytes.len() >= 40,
        bytes[0] == 77,
        bytes[1] == 83,
        header.is_parse_of(bytes),
    ensures
        header.time_bytes() == bytes.subrange(0, 16),
{
    lemma_le_bytes_of_u32(bytes, 4);
    lemma_le_bytes_of_u16(bytes, 8);
    lemma_le_bytes_of_u16(bytes, 10);
    let nanosecond = le_bytes_u32(header.nanosecond);
    let year = le_bytes_u16(header.year);
    let day = le_bytes_u16(header.day_of_year);
    assert(nanosecond == bytes.subrange(4, 8));
    assert(year == bytes.subrange(8, 10));
    assert(day == bytes.subrange(10, 12));
    assert(header.time_bytes() =~= bytes.subrange(0, 16));
}

proof fn lemma_sample_bytes_of_parse(header: MSeed3Header, bytes: Seq<u8>)
    requires
        bytes.len() >= 40,
        header.is_parse_of(bytes),
    ensures
        header.sample_bytes() == bytes.subrange(16, 32),
{
    lemma_le_bytes_of_u64(bytes, 16);
    lemma_le_bytes_of_u32(bytes, 24);
    lemma_le_bytes_of_u32(bytes, 28);
    let rate = le_bytes_u64(header.sample_rate_period);
    let count = le_bytes_u32(header.num_samples);
    let crc = le_bytes_u32(header.crc);
    assert(rate == bytes.subrange(16, 24));
    assert(count == bytes.subrange(24, 28));
    assert(crc == bytes.subrange(28, 32));
    assert(header.sample_bytes() =~= bytes.subrange(16, 32));
}

proof fn lemma_length_bytes_of_parse(header: MSeed3Header, bytes: Seq<u8>)
    requires
        bytes.len() >= 40,
        header.is_parse_of(bytes),
    ensures
        header.length_bytes() == bytes.subrange(32, 40),
{
    lemma_le_bytes_of_u16(bytes, 34);
    lemma_le_bytes_of_u32(bytes, 36);
    let extras = le_bytes_u16(header.extra_headers_length);
    let data = le_bytes_u32(header.data_length);
    assert(extras == bytes.subrange(34, 36));
    assert(data == bytes.subrange(36, 40));
    assert(header.length_bytes() =~= bytes.subrange(32, 40));
}

/// Writing a header that was read gives back the 40 bytes that it was read
/// from.
pub proof fn lemma_write_inverts_read(header: MSeed3Header, bytes: Seq<u8>)
    requires
        bytes.len() >= 40,
        bytes[0] == 77,
        bytes[1] == 83,
        header.is_parse_of(bytes),
    ensures
        header.bytes() == bytes.take(40),
{
    lemma_time_bytes_of_parse(header, bytes);
    lemma_sample_bytes_of_parse(header, bytes);
    lemma_length_bytes_of_parse(header, bytes);
    assert(bytes.subrange(0, 16) + bytes.subrange(16, 32) + bytes.subrange(32, 40) =~= bytes.take(
        40,
    ));
}

/// Setting the start time and getting it gives back the moment that was
/// set, for years that the header has room for.
pub proof fn lemma_start_round_trip(header: MSeed3Header, start: UtcInstant)
    requires
        start.is_valid(),
        0 <= start.year <= 0xffff,
    ensures
        header.with_start(start).start() == start,
{
}

} // verus!
