//! Records: a fixed header, a source identifier, extra headers and a payload.
//!
//! ```text
//!  0          40 bytes   fixed header
//! 40          I bytes    identifier, UTF-8
//! 40+I        E bytes    extra headers, JSON; none for an empty object
//! 40+I+E      D bytes    payload
//! ```
//!
//! The header states `I`, `E` and `D`, and the CRC-32C of the whole record
//! with the four bytes of the CRC itself set to zero.

use crate::bytes::{le_bytes_u32, le_u16_at, le_u32_at, write_le_u32};
use crate::data_encoding::DataEncoding;
use crate::encoded_timeseries::{append_bytes, EncodedTimeseries};
use crate::extra_headers::{empty_object_text, ExtraHeaders};
use crate::fdsn_source_identifier::{FdsnSourceIdentifier, SourceIdentifier};
use crate::header::{MSeed3Header, UtcInstant, CRC_OFFSET, FIXED_HEADER_SIZE};
use crate::mseed_error::MSeedError;
use crate::text::text_of_utf8;
use vstd::prelude::*;
use vstd::slice::{slice_subrange, slice_to_vec};
use vstd::string::{StrSliceExecFns, StringExecFns};
use vstd::utf8::{encode_utf8, valid_utf8};

verus! {

// ---------------------------------------------------------------------------
// The checksum
// ---------------------------------------------------------------------------
/// The CRC-32C (Castagnoli) of a sequence of bytes: polynomial `0x1EDC6F41`,
/// reflected, initial value and final xor `0xFFFFFFFF`.
pub uninterp spec fn crc32c(bytes: Seq<u8>) -> u32;

/// `crc::Crc::<u32>::checksum` for the algorithm `crc::CRC_32_ISCSI`: the
/// CRC-32C of `bytes`.
#[verifier::external_body]
fn checksum(bytes: &[u8]) -> (crc: u32)
    ensures
        crc == crc32c(bytes@),
{
    crc::Crc::<u32>::new(&crc::CRC_32_ISCSI).checksum(bytes)
}

/// `record` with the four bytes of its CRC set to zero.
pub open spec fn crc_zeroed(record: Seq<u8>) -> Seq<u8> {
    Seq::new(
        record.len(),
        |at: int|
            if 28 <= at < 32 {
                0u8
            } else {
                record[at]
            },
    )
}

/// `record` with the four bytes of its CRC set to those of `crc`.
pub open spec fn crc_stamped(record: Seq<u8>, crc: u32) -> Seq<u8> {
    Seq::new(
        record.len(),
        |at: int|
            if 28 <= at < 32 {
                le_bytes_u32(crc)[at - 28]
            } else {
                record[at]
            },
    )
}

/// Appends `record` to `buf`, with `crc` in place of the four bytes of its
/// CRC.
pub fn write_stamped(record: &Vec<u8>, crc: u32, buf: &mut Vec<u8>)
    requires
        record@.len() >= 32,
    ensures
        final(buf)@ == old(buf)@ + crc_stamped(record@, crc),
{
    let ghost start = buf@;
    let mut at: usize = 0;
    while at < CRC_OFFSET
        invariant
            at <= 28,
            record@.len() >= 32,
            buf@ == start + record@.take(at as int),
        decreases 28 - at,
    {
        buf.push(record[at]);
        assert(buf@ =~= start + record@.take(at + 1));
        at += 1;
    }
    write_le_u32(buf, crc);
    at = CRC_OFFSET + 4;
    assert(buf@ =~= start + crc_stamped(record@, crc).take(32));
    while at < record.len()
        invariant
            32 <= at <= record@.len(),
            buf@ == start + crc_stamped(record@, crc).take(at as int),
        decreases record@.len() - at,
    {
        buf.push(record[at]);
        assert(buf@ =~= start + crc_stamped(record@, crc).take(at + 1));
        at += 1;
    }
    assert(crc_stamped(record@, crc).take(record@.len() as int) =~= crc_stamped(record@, crc));
}

// ---------------------------------------------------------------------------
// Records
// ---------------------------------------------------------------------------
/// A record.
#[derive(Debug, Clone)]
pub struct MSeed3Record {
    pub header: MSeed3Header,
    pub identifier: SourceIdentifier,
    pub extra_headers: ExtraHeaders,
    pub encoded_data: EncodedTimeseries,
}

impl MSeed3Record {
    /// The number of bytes of the record when written.
    pub open spec fn byte_length(&self) -> nat {
        40 + self.identifier.byte_length() + self.extra_headers.bytes().len()
            + self.encoded_data.byte_length()
    }

    /// Whether the record can be written: identifier, extra headers, payload
    /// and the record as a whole are no longer than the header can say.
    pub open spec fn fits(&self) -> bool {
        &&& self.identifier.byte_length() <= 255
        &&& self.extra_headers.bytes().len() <= 65535
        &&& self.byte_length() <= u32::MAX
    }

    /// The header that the record is written with: the header of the record
    /// with the lengths of identifier, extra headers and payload as they
    /// are, the sample count of the payload where the payload is an array of
    /// samples, and the CRC `crc`.
    pub open spec fn written_header(&self, crc: u32) -> MSeed3Header {
        MSeed3Header {
            identifier_length: self.identifier.byte_length() as u8,
            extra_headers_length: self.extra_headers.bytes().len() as u16,
            data_length: self.encoded_data.byte_length() as u32,
            num_samples: self.encoded_data.reconciled(self.header.num_samples) as u32,
            crc,
            ..self.header
        }
    }

    /// The bytes of the record with `crc` in the CRC field of its header.
    pub open spec fn bytes_with(&self, crc: u32) -> Seq<u8> {
        self.written_header(crc).bytes() + encode_utf8(self.identifier.text())
            + self.extra_headers.bytes() + self.encoded_data.bytes()
    }

    /// The CRC of the record: that of its bytes with a CRC field of zero.
    pub open spec fn crc(&self) -> u32 {
        crc32c(self.bytes_with(0))
    }

    /// The bytes of the record.
    pub open spec fn bytes(&self) -> Seq<u8> {
        self.bytes_with(self.crc())
    }

    /// Whether the record can be written.
    pub fn check_fits(&self) -> (fits: bool)
        ensures
            fits == self.fits(),
    {
        if !self.identifier.fits() {
            return false;
        }
        let extras = self.extra_headers.to_string();
        let text_len = extras.as_str().as_bytes().len();
        let extras_len: usize = if text_len > 2 {
            text_len
        } else {
            0
        };
        if extras_len > 65535 {
            return false;
        }
        if !self.encoded_data.fits() {
            return false;
        }
        let total: u64 = 40 + self.identifier.calc_len() as u64 + extras_len as u64
            + self.encoded_data.byte_len() as u64;
        total <= 0xffff_ffff
    }

    /// Whether identifier, extra headers and payload are no longer than a
    /// header can say.
    pub open spec fn parts_fit(
        identifier: SourceIdentifier,
        extra_headers: ExtraHeaders,
        encoded_data: EncodedTimeseries,
    ) -> bool {
        &&& identifier.byte_length() <= 255
        &&& extra_headers.bytes().len() <= 65535
        &&& encoded_data.byte_length() <= u32::MAX
    }

    /// Creates a record.  The lengths in the header are set from identifier,
    /// extra headers and payload, and the sample count from the payload where
    /// it is an array of samples; for compressed or opaque payloads the
    /// sample count of the header is kept.
    pub fn new(
        header: MSeed3Header,
        identifier: SourceIdentifier,
        extra_headers: ExtraHeaders,
        encoded_data: EncodedTimeseries,
    ) -> (record: MSeed3Record)
        requires
            Self::parts_fit(identifier, extra_headers, encoded_data),
        ensures
            record.header == header.with_lengths(
                identifier.byte_length() as u8,
                extra_headers.bytes().len() as u16,
                encoded_data.byte_length() as u32,
                encoded_data.reconciled(header.num_samples) as u32,
            ),
            record.identifier == identifier,
            record.extra_headers == extra_headers,
            record.encoded_data == encoded_data,
    {
        let mut header = header;
        let text_len = extra_headers.to_string().as_str().as_bytes().len();
        let extra_headers_length: u16 = if text_len > 2 {
            text_len as u16
        } else {
            0
        };
        proof {
            crate::encoded_timeseries::lemma_payload_length(encoded_data);
        }
        header.recalculated_lengths(
            identifier.calc_len(),
            extra_headers_length,
            encoded_data.byte_len(),
            encoded_data.reconcile_num_samples(header.num_samples),
        );
        MSeed3Record { header, identifier, extra_headers, encoded_data }
    }

    /// Creates a record as `new` does, if identifier, extra headers and
    /// payload are no longer than a header can say.
    pub fn try_new(
        header: MSeed3Header,
        identifier: SourceIdentifier,
        extra_headers: ExtraHeaders,
        encoded_data: EncodedTimeseries,
    ) -> (record: Result<MSeed3Record, MSeedError>)
        ensures
            match record {
                Ok(r) => {
                    &&& Self::parts_fit(identifier, extra_headers, encoded_data)
                    &&& r.header == header.with_lengths(
                        identifier.byte_length() as u8,
                        extra_headers.bytes().len() as u16,
                        encoded_data.byte_length() as u32,
                        encoded_data.reconciled(header.num_samples) as u32,
                    )
                    &&& r.identifier == identifier
                    &&& r.extra_headers == extra_headers
                    &&& r.encoded_data == encoded_data
                },
                Err(MSeedError::Unknown(m)) => !Self::parts_fit(
                    identifier,
                    extra_headers,
                    encoded_data,
                ) && m@ == "record is longer than its header can say"@,
                Err(_) => false,
            },
    {
        let text_len = extra_headers.to_string().as_str().as_bytes().len();
        if !identifier.fits() || !encoded_data.fits() || (text_len > 2 && text_len > 65535) {
            return Err(
                MSeedError::Unknown(String::from_str("record is longer than its header can say")),
            );
        }
        Ok(MSeed3Record::new(header, identifier, extra_headers, encoded_data))
    }

    /// Creates a record with the given start time and sample rate from 32 bit
    /// floats, each given as its bit pattern, under the made-up channel
    /// `FDSN:XX_STA_00_B_H_Z` and without extra headers.
    pub fn from_floats(start: UtcInstant, sample_rate_period: u64, data: Vec<u32>) -> (record:
        MSeed3Record)
        requires
            start.is_valid(),
            4 * data@.len() <= u32::MAX,
        ensures
            record.header.is_fresh(start, DataEncoding::FLOAT32, sample_rate_period),
            record.header.num_samples == data@.len(),
            record.header.identifier_length == 20,
            record.header.extra_headers_length == 0,
            record.header.data_length == 4 * data@.len(),
            record.identifier matches SourceIdentifier::Fdsn(f) && f.is_fake_channel(),
            record.extra_headers.members() == Some(crate::extra_headers::no_members()),
            record.encoded_data == EncodedTimeseries::Float32(data),
    {
        let header = MSeed3Header::new(start, DataEncoding::FLOAT32, sample_rate_period, data.len());
        let channel = FdsnSourceIdentifier::create_fake_channel();
        proof {
            crate::fdsn_source_identifier::lemma_byte_length(channel);
            lemma_fake_channel_length(channel);
        }
        MSeed3Record::new(
            header,
            SourceIdentifier::Fdsn(channel),
            ExtraHeaders::new(),
            EncodedTimeseries::Float32(data),
        )
    }

    /// Creates a record with the given start time and sample rate from 32 bit
    /// integers, under the made-up channel `FDSN:XX_STA_00_B_H_Z` and without
    /// extra headers.
    pub fn from_ints(start: UtcInstant, sample_rate_period: u64, data: Vec<i32>) -> (record:
        MSeed3Record)
        requires
            start.is_valid(),
            4 * data@.len() <= u32::MAX,
        ensures
            record.header.is_fresh(start, DataEncoding::INT32, sample_rate_period),
            record.header.num_samples == data@.len(),
            record.header.identifier_length == 20,
            record.header.extra_headers_length == 0,
            record.header.data_length == 4 * data@.len(),
            record.identifier matches SourceIdentifier::Fdsn(f) && f.is_fake_channel(),
            record.extra_headers.members() == Some(crate::extra_headers::no_members()),
            record.encoded_data == EncodedTimeseries::Int32(data),
    {
        let header = MSeed3Header::new(start, DataEncoding::INT32, sample_rate_period, data.len());
        let channel = FdsnSourceIdentifier::create_fake_channel();
        proof {
            crate::fdsn_source_identifier::lemma_byte_length(channel);
            lemma_fake_channel_length(channel);
        }
        MSeed3Record::new(
            header,
            SourceIdentifier::Fdsn(channel),
            ExtraHeaders::new(),
            EncodedTimeseries::Int32(data),
        )
    }

    /// Appends the record to `buf` with the CRC that its header holds,
    /// after setting the lengths and the sample count of the header from
    /// identifier, extra headers and payload.
    ///
    /// Fails, and changes nothing, if the record does not fit.
    pub fn write_to_wocrc(&mut self, buf: &mut Vec<u8>) -> (done: Result<(), MSeedError>)
        ensures
            match done {
                Ok(_) => {
                    &&& old(self).fits()
                    &&& final(self).header == old(self).written_header(old(self).header.crc)
                    &&& final(self).identifier == old(self).identifier
                    &&& final(self).extra_headers == old(self).extra_headers
                    &&& final(self).encoded_data == old(self).encoded_data
                    &&& final(buf)@ == old(buf)@ + old(self).bytes_with(old(self).header.crc)
                    &&& old(self).bytes_with(old(self).header.crc).len() == old(self).byte_length()
                },
                Err(MSeedError::Unknown(m)) => !old(self).fits() && *final(self) == *old(self)
                    && final(buf)@ == old(buf)@ && m@
                    == "record is longer than its header can say"@,
                Err(_) => false,
            },
    {
        if !self.check_fits() {
            return Err(
                MSeedError::Unknown(String::from_str("record is longer than its header can say")),
            );
        }
        let id_bytes = self.identifier.as_bytes();
        let identifier_length = id_bytes.len() as u8;
        let data_length = self.encoded_data.byte_len();
        let num_samples = self.encoded_data.reconcile_num_samples(self.header.num_samples);

        let eh_str = self.extra_headers.to_string();
        let eh_bytes = eh_str.as_str().as_bytes_vec();
        let extra_headers_length: u16 = if eh_bytes.len() > 2 {
            eh_bytes.len() as u16
        } else {
            0
        };
        self.header.recalculated_lengths(
            identifier_length,
            extra_headers_length,
            data_length,
            num_samples,
        );
        let ghost start = buf@;
        self.header.write_to(buf);
        append_bytes(buf, &id_bytes);
        if eh_bytes.len() > 2 {
            // no bytes for an empty object, `{}`
            append_bytes(buf, &eh_bytes);
        }
        self.encoded_data.write_to(buf);
        assert(buf@ =~= start + old(self).bytes_with(old(self).header.crc));
        Ok(())
    }

    /// Appends the record to `buf`, after setting the lengths and the sample
    /// count of its header from identifier, extra headers and payload, and
    /// its CRC from all of the record.  Returns the number of bytes written
    /// and the CRC.
    ///
    /// Fails, and changes nothing, if the record does not fit.
    pub fn write_to(&mut self, buf: &mut Vec<u8>) -> (written: Result<(u32, u32), MSeedError>)
        ensures
            match written {
                Ok((size, crc)) => {
                    &&& old(self).fits()
                    &&& crc == old(self).crc()
                    &&& size == old(self).byte_length()
                    &&& size == final(self).header.record_size()
                    &&& final(self).header == old(self).written_header(crc)
                    &&& final(self).identifier == old(self).identifier
                    &&& final(self).extra_headers == old(self).extra_headers
                    &&& final(self).encoded_data == old(self).encoded_data
                    &&& final(buf)@ == old(buf)@ + old(self).bytes()
                    &&& old(self).bytes().len() == size
                    &&& crc32c(crc_zeroed(old(self).bytes())) == crc
                    &&& old(self).encoded_data.is_primitive() ==> final(self).header.data_length
                        == old(self).encoded_data.element_width() * final(self).header.num_samples
                },
                Err(MSeedError::Unknown(m)) => !old(self).fits() && *final(self) == *old(self)
                    && final(buf)@ == old(buf)@ && m@
                    == "record is longer than its header can say"@,
                Err(_) => false,
            },
    {
        let stale = self.header.crc;
        self.header.crc = 0;
        let ghost cleared = *self;
        proof {
            lemma_crc_ignored(*old(self), cleared);
        }
        let mut out: Vec<u8> = Vec::new();
        match self.write_to_wocrc(&mut out) {
            Ok(_) => {},
            Err(e) => {
                self.header.crc = stale;
                return Err(e);
            },
        }
        assert(out@ == old(self).bytes_with(0));
        let crc = checksum(out.as_slice());
        self.header.crc = crc;
        proof {
            lemma_crc_field(*old(self), crc);
            lemma_written_header(*old(self), crc);
        }
        write_stamped(&out, crc, buf);
        Ok((out.len() as u32, crc))
    }

    /// Turns the extra headers from text into members, as
    /// `ExtraHeaders::parse` does.
    pub fn parse_extra_headers(&mut self) -> (done: Result<(), MSeedError>)
        ensures
            final(self).header == old(self).header,
            final(self).identifier == old(self).identifier,
            final(self).encoded_data == old(self).encoded_data,
            match done {
                Ok(_) => old(self).extra_headers.members() is Some && final(self).extra_headers is Parsed && final(self).extra_headers.members() == old(self).extra_headers.members(),
                Err(MSeedError::ExtraHeaderNotObject(_)) => old(self).extra_headers.members()
                    is None && final(self).extra_headers == old(self).extra_headers,
                Err(MSeedError::JsonError(_)) => old(self).extra_headers.members() is None
                    && final(self).extra_headers == old(self).extra_headers,
                Err(_) => false,
            },
    {
        self.extra_headers.parse()
    }

    /// The extra headers as members, after turning them from text into
    /// members if need be.
    pub fn parsed_json(&mut self) -> (members: Result<
        serde_json::Map<String, serde_json::Value>,
        MSeedError,
    >)
        ensures
            final(self).header == old(self).header,
            final(self).identifier == old(self).identifier,
            final(self).encoded_data == old(self).encoded_data,
            match members {
                Ok(root) => old(self).extra_headers.members() == Some(
                    crate::extra_headers::member_kinds(root),
                ) && final(self).extra_headers.members() == old(self).extra_headers.members(),
                Err(MSeedError::ExtraHeaderNotObject(_)) => old(self).extra_headers.members()
                    is None && final(self).extra_headers == old(self).extra_headers,
                Err(MSeedError::JsonError(_)) => old(self).extra_headers.members() is None
                    && final(self).extra_headers == old(self).extra_headers,
                Err(_) => false,
            },
    {
        self.parse_extra_headers()?;
        match &self.extra_headers {
            ExtraHeaders::Parsed(root) => Ok(root.clone()),
            ExtraHeaders::Raw(_) => Err(
                MSeedError::ExtraHeaderParse(String::from_str("unable to parse extra headers")),
            ),
        }
    }

    /// The size of the record as its header says.
    pub fn get_record_size(&self) -> (size: u32)
        requires
            self.header.record_size() <= u32::MAX,
        ensures
            size == self.header.record_size(),
    {
        self.header.get_record_size()
    }
}

/// The made-up channel has an identifier of 20 bytes.
proof fn lemma_fake_channel_length(channel: FdsnSourceIdentifier)
    requires
        channel.is_fake_channel(),
    ensures
        channel.byte_length() == 20,
{
    vstd::utf8::is_ascii_chars_encode_utf8(channel.network@);
    vstd::utf8::is_ascii_chars_encode_utf8(channel.station@);
    vstd::utf8::is_ascii_chars_encode_utf8(channel.location@);
    vstd::utf8::is_ascii_chars_encode_utf8(channel.band@);
    vstd::utf8::is_ascii_chars_encode_utf8(channel.source@);
    vstd::utf8::is_ascii_chars_encode_utf8(channel.subsource@);
}

/// The CRC that the header of a record holds has no part in what is written
/// under another CRC.
proof fn lemma_crc_ignored(record: MSeed3Record, other: MSeed3Record)
    requires
        other.header == (MSeed3Header { crc: other.header.crc, ..record.header }),
        other.identifier == record.identifier,
        other.extra_headers == record.extra_headers,
        other.encoded_data == record.encoded_data,
    ensures
        other.fits() == record.fits(),
        other.byte_length() == record.byte_length(),
        forall|crc: u32| #[trigger] other.written_header(crc) == record.written_header(crc),
        forall|crc: u32| #[trigger] other.bytes_with(crc) == record.bytes_with(crc),
{
}

/// The lengths that the header of a record that fits is written with are
/// those of identifier, extra headers and payload, and its sample count is
/// that of the payload, where the payload is an array of samples.
proof fn lemma_written_lengths(record: MSeed3Record, crc: u32)
    requires
        record.fits(),
    ensures
        record.written_header(crc).identifier_length == record.identifier.byte_length(),
        record.written_header(crc).extra_headers_length == record.extra_headers.bytes().len(),
        record.written_header(crc).data_length == record.encoded_data.byte_length(),
        record.encoded_data.is_primitive() ==> record.written_header(crc).num_samples
            == record.encoded_data.element_count(),
{
    crate::encoded_timeseries::lemma_payload_length(record.encoded_data);
}

/// The header that a record is written with states the size of the record
/// and, for an array of samples, a data length that is the sample count
/// times the size of a sample.
pub proof fn lemma_written_header(record: MSeed3Record, crc: u32)
    requires
        record.fits(),
    ensures
        record.written_header(crc).record_size() == record.byte_length(),
        record.bytes_with(crc).len() == record.byte_length(),
        record.encoded_data.is_primitive() ==> record.written_header(crc).data_length
            == record.encoded_data.element_width() * record.written_header(crc).num_samples,
{
    lemma_written_lengths(record, crc);
    crate::encoded_timeseries::lemma_payload_length(record.encoded_data);
    crate::header::lemma_header_length(record.written_header(crc));
}

/// The CRC field of the written record holds the CRC, and the record with a
/// zero in the field is the record with that CRC set to zero.
pub proof fn lemma_crc_field(record: MSeed3Record, crc: u32)
    ensures
        record.bytes_with(crc) == crc_stamped(record.bytes_with(0), crc),
        crc_zeroed(record.bytes_with(crc)) == record.bytes_with(0),
        record.bytes_with(crc).len() == record.bytes_with(0).len(),
        record.bytes_with(0).len() >= 40,
{
    let with = record.bytes_with(crc);
    let without = record.bytes_with(0);
    let h1 = record.written_header(crc);
    let h0 = record.written_header(0);
    assert(h1.time_bytes() == h0.time_bytes());
    assert(h1.length_bytes() == h0.length_bytes());
    assert(h1.bytes().len() == 40);
    assert(h0.bytes().len() == 40);
    assert forall|at: int| 0 <= at < with.len() implies with[at] == crc_stamped(without, crc)[at] by {
        if at < 40 {
            assert(with[at] == h1.bytes()[at]);
            assert(without[at] == h0.bytes()[at]);
        }
    }
    assert(with =~= crc_stamped(without, crc));
    assert(crc_zeroed(with) =~= without);
}

// ---------------------------------------------------------------------------
// Reading
// ---------------------------------------------------------------------------
/// The smaller of two numbers.
pub open spec fn at_most(a: int, b: int) -> int {
    if a <= b {
        a
    } else {
        b
    }
}

/// Whether `bytes` starts with a header that can be read: 40 bytes that
/// start with `MS` and the format version 3.
pub open spec fn header_readable(bytes: Seq<u8>) -> bool {
    bytes.len() >= 40 && bytes[0] == 77 && bytes[1] == 83 && bytes[2] == 3
}

/// Where the identifier of the record at the start of `bytes` ends: behind
/// as many bytes as the header says, or at the end of `bytes`.
pub open spec fn identifier_end(bytes: Seq<u8>) -> int {
    at_most(40 + bytes[33], bytes.len() as int)
}

/// Where the extra headers of the record at the start of `bytes` end.
pub open spec fn extras_end(bytes: Seq<u8>) -> int {
    at_most(identifier_end(bytes) + le_u16_at(bytes, 34), bytes.len() as int)
}

/// Where the record at the start of `bytes` ends.
pub open spec fn record_end(bytes: Seq<u8>) -> int {
    at_most(extras_end(bytes) + le_u32_at(bytes, 36), bytes.len() as int)
}

/// Whether data length and sample count agree for a header whose encoding
/// stores samples in a fixed number of bytes.  Any data length agrees with
/// the other encodings.
pub open spec fn length_agrees(encoding: DataEncoding, num_samples: u32, data_length: u32) -> bool {
    encoding.sample_width() matches Some(width) ==> data_length == width * num_samples
}

/// Whether the identifier of the record at the start of `bytes`, and its
/// extra headers if they are more than two bytes, are UTF-8.
pub open spec fn texts_readable(bytes: Seq<u8>) -> bool {
    &&& valid_utf8(bytes.subrange(40, identifier_end(bytes)))
    &&& le_u16_at(bytes, 34) > 2 ==> valid_utf8(
        bytes.subrange(identifier_end(bytes), extras_end(bytes)),
    )
}

/// Whether a record can be read from the start of `bytes`, but for its CRC.
pub open spec fn well_formed(bytes: Seq<u8>) -> bool {
    &&& header_readable(bytes)
    &&& texts_readable(bytes)
    &&& length_agrees(DataEncoding::of_code(bytes[15]), le_u32_at(bytes, 24), le_u32_at(bytes, 36))
}

/// The CRC of the record at the start of `bytes`: that of the record with
/// the CRC field set to zero.
pub open spec fn computed_crc(bytes: Seq<u8>) -> u32 {
    crc32c(crc_zeroed(bytes.take(record_end(bytes))))
}

/// Whether a record can be read from the start of `bytes`.
pub open spec fn readable(bytes: Seq<u8>) -> bool {
    well_formed(bytes) && computed_crc(bytes) == le_u32_at(bytes, 28)
}

/// Whether `record` is the record at the start of `bytes`: the header as
/// the first 40 bytes say, the identifier as the bytes behind it read, the
/// extra headers as the text behind that, or as an empty object if there are
/// no more than two bytes of them, and the payload as the bytes that follow.
pub open spec fn is_record_of(record: MSeed3Record, bytes: Seq<u8>) -> bool {
    &&& record.header.is_parse_of(bytes)
    &&& encode_utf8(record.identifier.text()) == bytes.subrange(40, identifier_end(bytes))
    &&& record.identifier.is_reading_of(record.identifier.text())
    &&& record.extra_headers matches ExtraHeaders::Raw(text) && (if le_u16_at(bytes, 34) > 2 {
        encode_utf8(text@) == bytes.subrange(identifier_end(bytes), extras_end(bytes))
    } else {
        text@ == empty_object_text()
    })
    &&& record.encoded_data matches EncodedTimeseries::Raw(data) && data@ == bytes.subrange(
        extras_end(bytes),
        record_end(bytes),
    )
}

/// Whether `error` is what reading a record from the start of `bytes` fails
/// with.  The header is looked at first, then identifier and extra headers,
/// then data length and sample count, and the CRC last.
pub open spec fn is_read_error(bytes: Seq<u8>, error: MSeedError) -> bool {
    match error {
        MSeedError::InsufficientBytes(actual, needed) => bytes.len() < 40 && actual == bytes.len()
            && needed == 40,
        MSeedError::BadRecordIndicator(b0, b1) => bytes.len() >= 40 && (bytes[0] != 77 || bytes[1]
            != 83) && b0 == bytes[0] && b1 == bytes[1],
        MSeedError::UnknownFormatVersion(v) => bytes.len() >= 40 && bytes[0] == 77 && bytes[1] == 83
            && bytes[2] != 3 && v == bytes[2],
        MSeedError::FromUtf8Error => header_readable(bytes) && !texts_readable(bytes),
        MSeedError::DataLength(expected, num_samples, code, actual) => {
            &&& header_readable(bytes)
            &&& texts_readable(bytes)
            &&& !well_formed(bytes)
            &&& expected == expected_length(
                DataEncoding::of_code(bytes[15]),
                le_u32_at(bytes, 24),
                le_u32_at(bytes, 36),
            )
            &&& num_samples == le_u32_at(bytes, 24)
            &&& code == bytes[15]
            &&& actual == le_u32_at(bytes, 36)
        },
        MSeedError::CrcInvalid(calculated, stated) => {
            &&& well_formed(bytes)
            &&& calculated == computed_crc(bytes)
            &&& stated == le_u32_at(bytes, 28)
            &&& calculated != stated
        },
        _ => false,
    }
}

/// A record can be read exactly if reading it fails with no error.
pub proof fn lemma_read_error_or_readable(bytes: Seq<u8>, error: MSeedError)
    ensures
        is_read_error(bytes, error) ==> !readable(bytes),
{
}

/// Where a section of `length` bytes that starts at `start` ends in `len`
/// bytes: behind its last byte, or at the end of the bytes.
fn section_end(len: usize, start: usize, length: usize) -> (end: usize)
    requires
        start <= len,
    ensures
        end == at_most(start + length, len as int),
        start <= end <= len,
{
    if length <= len - start {
        start + length
    } else {
        len
    }
}

/// A copy of `record` with the four bytes of its CRC set to zero.
fn zeroed_copy(record: &[u8]) -> (zeroed: Vec<u8>)
    requires
        record@.len() >= 32,
    ensures
        zeroed@ == crc_zeroed(record@),
{
    let mut zeroed = slice_to_vec(record);
    zeroed.set(CRC_OFFSET, 0);
    zeroed.set(CRC_OFFSET + 1, 0);
    zeroed.set(CRC_OFFSET + 2, 0);
    zeroed.set(CRC_OFFSET + 3, 0);
    assert(zeroed@ =~= crc_zeroed(record@));
    zeroed
}

/// The data length that a header of `num_samples` samples in `encoding` is
/// to state, in wrapping arithmetic; the data length found, for an encoding
/// that does not store samples in a fixed number of bytes.
pub open spec fn expected_length(encoding: DataEncoding, num_samples: u32, data_length: u32) -> u32 {
    match encoding.sample_width() {
        Some(width) => vstd::wrapping::u32_specs::wrapping_mul(num_samples, width as u32),
        None => data_length,
    }
}

/// Checks that data length and sample count of a header agree.
///
/// Fails with `DataLength` if they do not: with the data length expected,
/// the sample count, the code of the encoding and the data length found.
pub fn check_data_length(header: &MSeed3Header) -> (agree: Result<(), MSeedError>)
    ensures
        match agree {
            Ok(_) => length_agrees(header.encoding, header.num_samples, header.data_length),
            Err(MSeedError::DataLength(expected, num_samples, code, actual)) => {
                &&& !length_agrees(header.encoding, header.num_samples, header.data_length)
                &&& expected == expected_length(
                    header.encoding,
                    header.num_samples,
                    header.data_length,
                )
                &&& num_samples == header.num_samples
                &&& code == header.encoding.code()
                &&& actual == header.data_length
            },
            Err(_) => false,
        },
{
    let count = header.num_samples;
    let expected: Option<u64> = match header.encoding {
        DataEncoding::INT16 => Some(2 * (count as u64)),
        DataEncoding::INT32 => Some(4 * (count as u64)),
        DataEncoding::FLOAT32 => Some(4 * (count as u64)),
        DataEncoding::FLOAT64 => Some(8 * (count as u64)),
        _ => None,
    };
    match expected {
        None => Ok(()),
        Some(length) => {
            if length == header.data_length as u64 {
                Ok(())
            } else {
                let wrapped: u32 = match header.encoding {
                    DataEncoding::INT16 => count.wrapping_mul(2),
                    DataEncoding::INT32 => count.wrapping_mul(4),
                    DataEncoding::FLOAT32 => count.wrapping_mul(4),
                    _ => count.wrapping_mul(8),
                };
                Err(
                    MSeedError::DataLength(
                        wrapped,
                        header.num_samples,
                        header.encoding.value(),
                        header.data_length,
                    ),
                )
            }
        },
    }
}

impl MSeed3Record {
    /// Reads a single record from the front of `buf_reader`, without looking
    /// at its CRC, and advances `buf_reader` past it.  Returns the record
    /// and, for the computation of the CRC, its bytes with the CRC field set
    /// to zero.
    ///
    /// Where `buf_reader` ends before the record does, the record is what is
    /// there of it.  The payload is kept as the bytes that it is.
    pub fn read_unchecked(buf_reader: &mut &[u8]) -> (read: Result<
        (MSeed3Record, Vec<u8>),
        MSeedError,
    >)
        ensures
            match read {
                Ok((record, zeroed)) => {
                    &&& well_formed(old(buf_reader)@)
                    &&& is_record_of(record, old(buf_reader)@)
                    &&& zeroed@ == crc_zeroed(
                        old(buf_reader)@.take(record_end(old(buf_reader)@)),
                    )
                    &&& final(buf_reader)@ == old(buf_reader)@.skip(record_end(old(buf_reader)@))
                },
                Err(e) => is_read_error(old(buf_reader)@, e) && !(e is CrcInvalid) && final(buf_reader)@ == old(buf_reader)@,
            },
    {
        let whole: &[u8] = *buf_reader;
        let ghost bytes = whole@;
        let header = MSeed3Header::from_bytes(whole)?;
        let len = whole.len();
        let identifier_end = section_end(len, FIXED_HEADER_SIZE, header.identifier_length as usize);
        let extras_end = section_end(len, identifier_end, header.extra_headers_length as usize);
        let record_end = section_end(len, extras_end, header.data_length as usize);
        let identifier_bytes = slice_subrange(whole, FIXED_HEADER_SIZE, identifier_end);
        let extras_bytes = slice_subrange(whole, identifier_end, extras_end);
        let data_bytes = slice_subrange(whole, extras_end, record_end);
        let identifier = SourceIdentifier::try_from(slice_to_vec(identifier_bytes))?;
        let extra_headers_str = if header.extra_headers_length > 2 {
            match text_of_utf8(slice_to_vec(extras_bytes)) {
                Some(text) => text,
                None => {
                    return Err(MSeedError::FromUtf8Error);
                },
            }
        } else {
            proof {
                reveal_strlit("{}");
                assert("{}"@ =~= empty_object_text());
            }
            String::from_str("{}")
        };
        check_data_length(&header)?;
        let zeroed = zeroed_copy(slice_subrange(whole, 0, record_end));
        let encoded_data = EncodedTimeseries::Raw(slice_to_vec(data_bytes));
        let mut header = header;
        header.num_samples = encoded_data.reconcile_num_samples(header.num_samples);
        *buf_reader = slice_subrange(whole, record_end, len);
        Ok(
            (
                MSeed3Record {
                    header,
                    identifier,
                    extra_headers: ExtraHeaders::from(extra_headers_str),
                    encoded_data,
                },
                zeroed,
            ),
        )
    }

    /// Decides from the CRC computed over a record whether the record was
    /// read as it was written: it was if that CRC is the one in its header.
    pub fn check_crc(record: MSeed3Record, computed: u32) -> (checked: Result<
        MSeed3Record,
        MSeedError,
    >)
        ensures
            match checked {
                Ok(r) => computed == record.header.crc && r == record,
                Err(MSeedError::CrcInvalid(calculated, stated)) => computed != record.header.crc
                    && calculated == computed && stated == record.header.crc,
                Err(_) => false,
            },
    {
        if computed != record.header.crc {
            return Err(MSeedError::CrcInvalid(computed, record.header.crc));
        }
        Ok(record)
    }

    /// Reads a single record from the front of `buf_reader` and advances
    /// `buf_reader` past it.
    ///
    /// Fails, and leaves `buf_reader` where it is, if the header cannot be read, if identifier or extra headers
    /// are not UTF-8, if data length and sample count of the header do not
    /// agree, or if the CRC of the record is not the one in its header.
    pub fn from_reader(buf_reader: &mut &[u8]) -> (read: Result<MSeed3Record, MSeedError>)
        ensures
            match read {
                Ok(record) => {
                    &&& readable(old(buf_reader)@)
                    &&& is_record_of(record, old(buf_reader)@)
                    &&& final(buf_reader)@ == old(buf_reader)@.skip(record_end(old(buf_reader)@))
                },
                Err(e) => is_read_error(old(buf_reader)@, e) && final(buf_reader)@ == old(
                    buf_reader,
                )@,
            },
    {
        let whole: &[u8] = *buf_reader;
        let (record, zeroed) = MSeed3Record::read_unchecked(buf_reader)?;
        let crc_calc = checksum(zeroed.as_slice());
        match MSeed3Record::check_crc(record, crc_calc) {
            Ok(record) => Ok(record),
            Err(e) => {
                *buf_reader = whole;
                Err(e)
            },
        }
    }
}

} // verus!
