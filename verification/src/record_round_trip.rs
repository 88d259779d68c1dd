//! Reading a record that was written gives back the record.
//!
//! What comes back is the record as it was written: with the lengths, the
//! sample count and the CRC that writing put into its header, with the same
//! identifier, with the text of its extra headers or an empty object where
//! that text was empty, and with the bytes of its payload.

use crate::bytes::{le_u16_at, le_u32_at};
use crate::data_encoding::DataEncoding;
use crate::encoded_timeseries::lemma_payload_length;
use crate::extra_headers::{empty_object_text, ExtraHeaders};
use crate::header::{lemma_fields_of_bytes, MSeed3Header};
use crate::record::{
    computed_crc, crc32c, crc_zeroed, extras_end, header_readable,
    identifier_end, is_record_of, lemma_crc_field, lemma_written_header, length_agrees, readable,
    record_end, texts_readable, well_formed, MSeed3Record,
};
use vstd::prelude::*;
use vstd::utf8::encode_utf8;

verus! {

/// Whether a record can be written and read back: it fits, its header says
/// `MS` and format version 3, its encoding is the one that its code stands
/// for, and the encoding goes with the payload, so that sample count and
/// data length agree when the record is written.
pub open spec fn is_valid(record: MSeed3Record) -> bool {
    &&& record.fits()
    &&& record.header.record_indicator@ == seq![77u8, 83u8]
    &&& record.header.format_version == 3
    &&& record.header.encoding.is_canonical()
    &&& length_agrees(
        record.header.encoding,
        record.written_header(0).num_samples,
        record.written_header(0).data_length,
    )
}

/// Where the parts of a sequence made of five parts are.
proof fn lemma_five_parts(a: Seq<u8>, b: Seq<u8>, c: Seq<u8>, d: Seq<u8>, rest: Seq<u8>)
    ensures
        ({
            let all = a + b + c + d + rest;
            let b_end = a.len() + b.len();
            let c_end = b_end + c.len();
            let d_end = c_end + d.len();
            &&& all.len() == d_end + rest.len()
            &&& all.take(a.len() as int) == a
            &&& all.subrange(a.len() as int, b_end as int) == b
            &&& all.subrange(b_end as int, c_end as int) == c
            &&& all.subrange(c_end as int, d_end as int) == d
            &&& all.take(d_end as int) == a + b + c + d
        }),
{
    let all = a + b + c + d + rest;
    let b_end = a.len() + b.len();
    let c_end = b_end + c.len();
    let d_end = c_end + d.len();
    assert(all.take(a.len() as int) =~= a);
    assert(all.subrange(a.len() as int, b_end as int) =~= b);
    assert(all.subrange(b_end as int, c_end as int) =~= c);
    assert(all.subrange(c_end as int, d_end as int) =~= d);
    assert(all.take(d_end as int) =~= a + b + c + d);
}

/// Where the parts of a written record are in bytes that start with it.
proof fn lemma_parts_of_written(record: MSeed3Record, rest: Seq<u8>)
    requires
        record.fits(),
    ensures
        ({
            let bytes = record.bytes() + rest;
            let header = record.written_header(record.crc());
            &&& bytes.len() >= 40
            &&& bytes.take(40) == header.bytes()
            &&& identifier_end(bytes) == 40 + record.identifier.byte_length()
            &&& extras_end(bytes) == identifier_end(bytes) + record.extra_headers.bytes().len()
            &&& record_end(bytes) == record.bytes().len()
            &&& record_end(bytes) == record.byte_length()
            &&& bytes.subrange(40, identifier_end(bytes)) == encode_utf8(record.identifier.text())
            &&& bytes.subrange(identifier_end(bytes), extras_end(bytes))
                == record.extra_headers.bytes()
            &&& bytes.subrange(extras_end(bytes), record_end(bytes)) == record.encoded_data.bytes()
            &&& bytes.take(record_end(bytes)) == record.bytes()
            &&& le_u16_at(bytes, 34) == record.extra_headers.bytes().len()
        }),
{
    let bytes = record.bytes() + rest;
    let header = record.written_header(record.crc());
    let a = header.bytes();
    let b = encode_utf8(record.identifier.text());
    let c = record.extra_headers.bytes();
    let d = record.encoded_data.bytes();
    lemma_written_header(record, record.crc());
    lemma_payload_length(record.encoded_data);
    lemma_five_parts(a, b, c, d, rest);
    assert(a.len() == 40);
    assert(bytes == a + b + c + d + rest);
    lemma_fields_of_bytes(header, bytes);
    assert(bytes[33] == b.len());
    assert(le_u16_at(bytes, 34) == c.len());
    assert(le_u32_at(bytes, 36) == d.len());
}

/// A record that was written can be read, from the bytes written and from
/// any bytes that start with them, and reading ends where the record ends.
pub proof fn lemma_written_is_readable(record: MSeed3Record, rest: Seq<u8>)
    requires
        is_valid(record),
    ensures
        readable(record.bytes() + rest),
        record_end(record.bytes() + rest) == record.bytes().len(),
        record.bytes().len() == record.byte_length(),
        computed_crc(record.bytes() + rest) == record.crc(),
{
    let bytes = record.bytes() + rest;
    let header = record.written_header(record.crc());
    lemma_parts_of_written(record, rest);
    lemma_fields_of_bytes(header, bytes);
    lemma_crc_field(record, record.crc());
    vstd::utf8::encode_utf8_valid_utf8(record.identifier.text());
    vstd::utf8::encode_utf8_valid_utf8(record.extra_headers.text());
    assert(header_readable(bytes));
    assert(texts_readable(bytes));
    assert(DataEncoding::of_code(bytes[15]) == record.header.encoding);
    assert(well_formed(bytes));
    assert(crc_zeroed(bytes.take(record_end(bytes))) == record.bytes_with(0));
}

/// Reading a record that was written gives back its header as it was
/// written.
proof fn lemma_read_header(record: MSeed3Record, rest: Seq<u8>, read: MSeed3Record)
    requires
        is_valid(record),
        read.header.is_parse_of(record.bytes() + rest),
    ensures
        read.header == record.written_header(record.crc()),
{
    let bytes = record.bytes() + rest;
    let header = record.written_header(record.crc());
    lemma_parts_of_written(record, rest);
    crate::header::lemma_read_inverts_write(header, read.header, bytes);
}

/// Extra headers that were read from the bytes that extra headers take in a
/// record take the same bytes.
proof fn lemma_read_extras(written: ExtraHeaders, read: ExtraHeaders, stated: int)
    requires
        stated == written.bytes().len(),
        read matches ExtraHeaders::Raw(text) && (if stated > 2 {
            encode_utf8(text@) == written.bytes()
        } else {
            text@ == empty_object_text()
        }),
    ensures
        read.bytes() == written.bytes(),
{
    match read {
        ExtraHeaders::Raw(text) => {
            if stated <= 2 {
                vstd::utf8::is_ascii_chars_encode_utf8(empty_object_text());
                assert(encode_utf8(text@).len() == 2);
                assert(written.bytes().len() == 0);
                assert(read.bytes() =~= written.bytes());
            }
        },
        ExtraHeaders::Parsed(_) => {},
    }
}

/// Reading a record that was written gives back its header as it was
/// written, its identifier, the bytes of its extra headers, none for an
/// empty object, and the bytes of its payload.
pub proof fn lemma_read_inverts_write(record: MSeed3Record, rest: Seq<u8>, read: MSeed3Record)
    requires
        is_valid(record),
        is_record_of(read, record.bytes() + rest),
    ensures
        read.header == record.written_header(record.crc()),
        read.header.crc == crc32c(crc_zeroed(record.bytes())),
        read.identifier.text() == record.identifier.text(),
        encode_utf8(read.identifier.text()) == encode_utf8(record.identifier.text()),
        read.extra_headers.bytes() == record.extra_headers.bytes(),
        read.encoded_data.bytes() == record.encoded_data.bytes(),
        read.header.encoding.sample_width() matches Some(width) ==> read.header.data_length
            == width * read.header.num_samples,
{
    lemma_parts_of_written(record, rest);
    lemma_read_header(record, rest, read);
    lemma_read_extras(
        record.extra_headers,
        read.extra_headers,
        le_u16_at(record.bytes() + rest, 34) as int,
    );
    lemma_crc_field(record, record.crc());
    vstd::utf8::encode_utf8_decode_utf8(read.identifier.text());
    vstd::utf8::encode_utf8_decode_utf8(record.identifier.text());
}

/// Whether the record at the start of `bytes` is all there, its length can
/// be said in 32 bits, and its extra headers are none or more than the two
/// bytes of an empty object.
pub open spec fn is_complete(bytes: Seq<u8>) -> bool {
    &&& 40 + bytes[33] + le_u16_at(bytes, 34) + le_u32_at(bytes, 36) <= bytes.len()
    &&& 40 + bytes[33] + le_u16_at(bytes, 34) + le_u32_at(bytes, 36) <= u32::MAX
    &&& le_u16_at(bytes, 34) == 0 || le_u16_at(bytes, 34) > 2
}

/// What was read from a complete record has the lengths that its header
/// states.
proof fn lemma_read_lengths(bytes: Seq<u8>, read: MSeed3Record)
    requires
        readable(bytes),
        is_complete(bytes),
        is_record_of(read, bytes),
    ensures
        read.identifier.byte_length() == bytes[33],
        read.extra_headers.bytes() == bytes.subrange(identifier_end(bytes), extras_end(bytes)),
        read.extra_headers.bytes().len() == le_u16_at(bytes, 34),
        read.encoded_data.bytes() == bytes.subrange(extras_end(bytes), record_end(bytes)),
        read.encoded_data.byte_length() == le_u32_at(bytes, 36),
        !read.encoded_data.is_primitive(),
        record_end(bytes) == 40 + bytes[33] + le_u16_at(bytes, 34) + le_u32_at(bytes, 36),
{
    match read.extra_headers {
        ExtraHeaders::Raw(text) => {
            if le_u16_at(bytes, 34) == 0 {
                vstd::utf8::is_ascii_chars_encode_utf8(empty_object_text());
                assert(read.extra_headers.bytes() =~= bytes.subrange(
                    identifier_end(bytes),
                    extras_end(bytes),
                ));
            }
        },
        ExtraHeaders::Parsed(_) => {},
    }
}

/// The parts of a sequence one after the other are the sequence.
proof fn lemma_parts_join(bytes: Seq<u8>, a: int, b: int, c: int, d: int)
    requires
        0 <= a <= b <= c <= d <= bytes.len(),
    ensures
        bytes.take(a) + bytes.subrange(a, b) + bytes.subrange(b, c) + bytes.subrange(c, d)
            == bytes.take(d),
{
    assert(bytes.take(a) + bytes.subrange(a, b) + bytes.subrange(b, c) + bytes.subrange(c, d)
        =~= bytes.take(d));
}

/// A record that was read from a complete record is written with the header
/// that was read, but for its CRC.
proof fn lemma_read_header_kept(bytes: Seq<u8>, read: MSeed3Record, crc: u32)
    requires
        readable(bytes),
        is_complete(bytes),
        is_record_of(read, bytes),
    ensures
        read.fits(),
        read.written_header(crc) == (MSeed3Header { crc, ..read.header }),
{
    lemma_read_lengths(bytes, read);
}

/// A record that was read from a complete record is written, under the CRC
/// that was read, as the bytes that it was read from.
proof fn lemma_read_bytes_kept(bytes: Seq<u8>, read: MSeed3Record)
    requires
        readable(bytes),
        is_complete(bytes),
        is_record_of(read, bytes),
    ensures
        read.bytes_with(read.header.crc) == bytes.take(record_end(bytes)),
{
    lemma_read_lengths(bytes, read);
    lemma_read_header_kept(bytes, read, read.header.crc);
    crate::header::lemma_write_inverts_read(read.header, bytes);
    lemma_parts_join(bytes, 40, identifier_end(bytes), extras_end(bytes), record_end(bytes));
}

/// Writing a record that was read from a complete record gives back the
/// bytes that it was read from.
pub proof fn lemma_write_inverts_read(bytes: Seq<u8>, read: MSeed3Record)
    requires
        readable(bytes),
        is_complete(bytes),
        is_record_of(read, bytes),
    ensures
        read.fits(),
        read.crc() == read.header.crc,
        read.written_header(read.crc()) == read.header,
        read.bytes() == bytes.take(record_end(bytes)),
{
    let stated = read.header.crc;
    lemma_read_header_kept(bytes, read, stated);
    lemma_read_bytes_kept(bytes, read);
    lemma_crc_field(read, stated);
    assert(read.bytes_with(0) == crc_zeroed(bytes.take(record_end(bytes))));
    assert(read.crc() == computed_crc(bytes));
}

} // verus!
