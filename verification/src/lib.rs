//! Reading, writing and transcoding of miniSEED 3 records.
//!
//! A record is a 40 byte fixed header, a source identifier, an optional block
//! of JSON extra headers and an encoded payload, protected by a CRC-32C over
//! the whole record.  The payload of a record can be compressed by the
//! Steim-1 codec of this crate.
//!
//! The functions of this crate carry contracts that Verus checks against
//! their bodies.  The calls into other crates are the exception: the
//! checksum, the formatting of dates, JSON and the little-endian bytes of
//! integers are taken from `crc`, `chrono`, `serde_json` and `byteorder`
//! through small functions whose contracts are stated, not proved.
//!
//! Everything works on bytes in memory: a record is read from a slice and
//! written to a vector.

pub mod bytes;
pub mod data_encoding;
pub mod encoded_timeseries;
pub mod extra_headers;
pub mod fdsn_source_identifier;
pub mod header;
pub mod mseed_error;
pub mod record;
pub mod record_round_trip;
pub mod steim1;
pub mod steim1_round_trip;
pub mod steim_frame_block;
pub mod text;

pub use crate::data_encoding::DataEncoding;
pub use crate::encoded_timeseries::EncodedTimeseries;
pub use crate::fdsn_source_identifier::{FdsnSourceIdentifier, SourceIdentifier};
pub use crate::header::{MSeed3Header, UtcInstant, CRC_OFFSET, FIXED_HEADER_SIZE};
pub use crate::extra_headers::ExtraHeaders;
pub use crate::mseed_error::MSeedError;
pub use crate::record::MSeed3Record;
pub use crate::steim_frame_block::{SteimFrame, SteimFrameBlock};

use vstd::prelude::*;

verus! {

/// Whether `records` are the records that `bytes` holds up to `remaining`.
pub open spec fn reads_to(
    bytes: Seq<u8>,
    records: Seq<MSeed3Record>,
    remaining: Seq<u8>,
) -> bool
    decreases records.len(),
{
    if records.len() == 0 {
        remaining == bytes
    } else {
        &&& crate::record::readable(bytes)
        &&& crate::record::is_record_of(records[0], bytes)
        &&& reads_to(bytes.skip(crate::record::record_end(bytes)), records.skip(1), remaining)
    }
}

/// Whether `bytes` is nothing but records that can be read.
pub open spec fn all_readable(bytes: Seq<u8>) -> bool
    decreases bytes.len(),
{
    bytes.len() == 0 || (crate::record::readable(bytes) && all_readable(
        bytes.skip(crate::record::record_end(bytes)),
    ))
}

proof fn lemma_reads_one_more(
    bytes: Seq<u8>,
    records: Seq<MSeed3Record>,
    remaining: Seq<u8>,
    record: MSeed3Record,
)
    requires
        reads_to(bytes, records, remaining),
        crate::record::readable(remaining),
        crate::record::is_record_of(record, remaining),
    ensures
        reads_to(
            bytes,
            records.push(record),
            remaining.skip(crate::record::record_end(remaining)),
        ),
    decreases records.len(),
{
    let longer = records.push(record);
    if records.len() == 0 {
        assert(longer.skip(1) =~= Seq::<MSeed3Record>::empty());
        assert(reads_to(
            remaining.skip(crate::record::record_end(remaining)),
            longer.skip(1),
            remaining.skip(crate::record::record_end(remaining)),
        ));
    } else {
        lemma_reads_one_more(
            bytes.skip(crate::record::record_end(bytes)),
            records.skip(1),
            remaining,
            record,
        );
        assert(longer.skip(1) =~= records.skip(1).push(record));
        assert(longer[0] == records[0]);
    }
}

proof fn lemma_reads_all(bytes: Seq<u8>, records: Seq<MSeed3Record>, remaining: Seq<u8>)
    requires
        reads_to(bytes, records, remaining),
        remaining.len() == 0,
    ensures
        all_readable(bytes),
    decreases records.len(),
{
    if records.len() > 0 {
        lemma_reads_all(bytes.skip(crate::record::record_end(bytes)), records.skip(1), remaining);
    }
}

proof fn lemma_reads_no_more(bytes: Seq<u8>, records: Seq<MSeed3Record>, remaining: Seq<u8>)
    requires
        reads_to(bytes, records, remaining),
        remaining.len() > 0,
        !crate::record::readable(remaining),
    ensures
        !all_readable(bytes),
    decreases records.len(),
{
    if records.len() > 0 {
        lemma_reads_no_more(
            bytes.skip(crate::record::record_end(bytes)),
            records.skip(1),
            remaining,
        );
    }
}

/// Reads records from `buf_reader` until it is empty.
///
/// Succeeds if `buf_reader` holds nothing but records that can be read, and
/// fails with the error of the first record that cannot.
pub fn read_mseed3(buf_reader: &mut &[u8]) -> (records: Result<Vec<MSeed3Record>, MSeedError>)
    ensures
        match records {
            Ok(r) => all_readable(old(buf_reader)@) && reads_to(
                old(buf_reader)@,
                r@,
                final(buf_reader)@,
            ) && final(buf_reader)@.len() == 0,
            Err(e) => !all_readable(old(buf_reader)@) && exists|
                good: Seq<MSeed3Record>,
                remaining: Seq<u8>,
            |
                #[trigger] reads_to(old(buf_reader)@, good, remaining) && remaining.len() > 0
                    && crate::record::is_read_error(remaining, e),
        },
{
    let mut records: Vec<MSeed3Record> = Vec::new();
    while buf_reader.len() > 0
        invariant
            reads_to(old(buf_reader)@, records@, buf_reader@),
        decreases buf_reader@.len(),
    {
        let ghost before = buf_reader@;
        match MSeed3Record::from_reader(buf_reader) {
            Ok(rec) => {
                proof {
                    lemma_reads_one_more(old(buf_reader)@, records@, before, rec);
                }
                records.push(rec);
            },
            Err(e) => {
                proof {
                    lemma_reads_no_more(old(buf_reader)@, records@, before);
                }
                return Err(e);
            },
        }
    }
    proof {
        lemma_reads_all(old(buf_reader)@, records@, buf_reader@);
    }
    Ok(records)
}

} // verus!
