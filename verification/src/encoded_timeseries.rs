//! The payload of a record.
//!
//! Samples of fixed width are stored little-endian.  Floating point samples
//! are held as their IEEE 754 bit patterns, which are what the record holds.
//! Compressed, opaque and unparsed payloads are byte strings that are written
//! as they are.

use crate::bytes::{
    bits_of_i16, bits_of_i32, i16_to_bits, i32_to_bits, le_bytes_u16, le_bytes_u32, le_bytes_u64,
    write_le_u16, write_le_u32, write_le_u64,
};
use crate::text::{numeral, with_decimal};
use vstd::prelude::*;
use vstd::string::StringExecFns;

verus! {

/// A payload.
#[derive(Debug, Clone, PartialEq, Eq)]
pub enum EncodedTimeseries {
    /// Bytes as read from a record, not interpreted.
    Raw(Vec<u8>),
    /// 16 bit integer samples.
    Int16(Vec<i16>),
    /// 32 bit integer samples.
    Int32(Vec<i32>),
    /// 32 bit float samples, each as its bit pattern.
    Float32(Vec<u32>),
    /// 64 bit float samples, each as its bit pattern.
    Float64(Vec<u64>),
    /// A Steim-1 frame block.
    Steim1(Vec<u8>),
    /// A Steim-2 frame block.
    Steim2(Vec<u8>),
    /// A Steim-3 frame block.
    Steim3(Vec<u8>),
    /// Opaque bytes.
    Opaque(Vec<u8>),
}

/// The little-endian bytes of 16 bit integer samples.
pub open spec fn int16_bytes(v: Seq<i16>) -> Seq<u8> {
    Seq::new(2 * v.len(), |at: int| le_bytes_u16(bits_of_i16(v[at / 2]))[at % 2])
}

/// The little-endian bytes of 32 bit integer samples.
pub open spec fn int32_bytes(v: Seq<i32>) -> Seq<u8> {
    Seq::new(4 * v.len(), |at: int| le_bytes_u32(bits_of_i32(v[at / 4]))[at % 4])
}

/// The little-endian bytes of 32 bit patterns.
pub open spec fn bits32_bytes(v: Seq<u32>) -> Seq<u8> {
    Seq::new(4 * v.len(), |at: int| le_bytes_u32(v[at / 4])[at % 4])
}

/// The little-endian bytes of 64 bit patterns.
pub open spec fn bits64_bytes(v: Seq<u64>) -> Seq<u8> {
    Seq::new(8 * v.len(), |at: int| le_bytes_u64(v[at / 8])[at % 8])
}

impl EncodedTimeseries {
    /// Whether the payload is an array of samples of fixed width.
    pub open spec fn is_primitive(&self) -> bool {
        self is Int16 || self is Int32 || self is Float32 || self is Float64
    }

    /// The number of elements held: samples for arrays of samples, bytes
    /// otherwise.
    pub open spec fn element_count(&self) -> nat {
        match self {
            EncodedTimeseries::Raw(v) => v@.len(),
            EncodedTimeseries::Int16(v) => v@.len(),
            EncodedTimeseries::Int32(v) => v@.len(),
            EncodedTimeseries::Float32(v) => v@.len(),
            EncodedTimeseries::Float64(v) => v@.len(),
            EncodedTimeseries::Steim1(v) => v@.len(),
            EncodedTimeseries::Steim2(v) => v@.len(),
            EncodedTimeseries::Steim3(v) => v@.len(),
            EncodedTimeseries::Opaque(v) => v@.len(),
        }
    }

    /// The number of bytes of one element.
    pub open spec fn element_width(&self) -> nat {
        match self {
            EncodedTimeseries::Int16(_) => 2,
            EncodedTimeseries::Int32(_) => 4,
            EncodedTimeseries::Float32(_) => 4,
            EncodedTimeseries::Float64(_) => 8,
            _ => 1,
        }
    }

    /// The number of bytes of the payload in a record: the number of its
    /// elements times the number of bytes of one element.
    pub open spec fn byte_length(&self) -> nat {
        match self {
            EncodedTimeseries::Raw(v) => v@.len(),
            EncodedTimeseries::Int16(v) => 2 * v@.len(),
            EncodedTimeseries::Int32(v) => 4 * v@.len(),
            EncodedTimeseries::Float32(v) => 4 * v@.len(),
            EncodedTimeseries::Float64(v) => 8 * v@.len(),
            EncodedTimeseries::Steim1(v) => v@.len(),
            EncodedTimeseries::Steim2(v) => v@.len(),
            EncodedTimeseries::Steim3(v) => v@.len(),
            EncodedTimeseries::Opaque(v) => v@.len(),
        }
    }

    /// The bytes of the payload in a record.
    pub open spec fn bytes(&self) -> Seq<u8> {
        match self {
            EncodedTimeseries::Raw(v) => v@,
            EncodedTimeseries::Int16(v) => int16_bytes(v@),
            EncodedTimeseries::Int32(v) => int32_bytes(v@),
            EncodedTimeseries::Float32(v) => bits32_bytes(v@),
            EncodedTimeseries::Float64(v) => bits64_bytes(v@),
            EncodedTimeseries::Steim1(v) => v@,
            EncodedTimeseries::Steim2(v) => v@,
            EncodedTimeseries::Steim3(v) => v@,
            EncodedTimeseries::Opaque(v) => v@,
        }
    }

    /// The sample count that a header is to state for this payload: the
    /// number of samples of an array of samples, else what the header says.
    pub open spec fn reconciled(&self, header_num_sample: u32) -> int {
        if self.is_primitive() {
            self.element_count() as int
        } else {
            header_num_sample as int
        }
    }

    /// The kind of the payload and its size, in words.
    pub open spec fn description(&self) -> Seq<char> {
        match self {
            EncodedTimeseries::Raw(v) => "Raw bytes, "@ + numeral(v@.len(), false) + " bytes"@,
            EncodedTimeseries::Int16(v) => "Int16, "@ + numeral(v@.len(), false) + " samples"@,
            EncodedTimeseries::Int32(v) => "Int32, "@ + numeral(v@.len(), false) + " samples"@,
            EncodedTimeseries::Float32(v) => "Float32, "@ + numeral(v@.len(), false) + " samples"@,
            EncodedTimeseries::Float64(v) => "Float64, "@ + numeral(v@.len(), false) + " samples"@,
            EncodedTimeseries::Steim1(v) => "Steim1, "@ + numeral(v@.len(), false) + " bytes"@,
            EncodedTimeseries::Steim2(v) => "Steim2, "@ + numeral(v@.len(), false) + " bytes"@,
            EncodedTimeseries::Steim3(v) => "Steim3, "@ + numeral(v@.len(), false) + " bytes"@,
            EncodedTimeseries::Opaque(v) => "Opaque, "@ + numeral(v@.len(), false) + " bytes"@,
        }
    }

    /// The kind of the payload and its size, in words.
    pub fn to_string(&self) -> (text: String)
        ensures
            text@ == self.description(),
    {
        match self {
            EncodedTimeseries::Raw(v) => with_decimal("Raw bytes, ", v.len() as u64).concat(
                " bytes",
            ),
            EncodedTimeseries::Int16(v) => with_decimal("Int16, ", v.len() as u64).concat(
                " samples",
            ),
            EncodedTimeseries::Int32(v) => with_decimal("Int32, ", v.len() as u64).concat(
                " samples",
            ),
            EncodedTimeseries::Float32(v) => with_decimal("Float32, ", v.len() as u64).concat(
                " samples",
            ),
            EncodedTimeseries::Float64(v) => with_decimal("Float64, ", v.len() as u64).concat(
                " samples",
            ),
            EncodedTimeseries::Steim1(v) => with_decimal("Steim1, ", v.len() as u64).concat(
                " bytes",
            ),
            EncodedTimeseries::Steim2(v) => with_decimal("Steim2, ", v.len() as u64).concat(
                " bytes",
            ),
            EncodedTimeseries::Steim3(v) => with_decimal("Steim3, ", v.len() as u64).concat(
                " bytes",
            ),
            EncodedTimeseries::Opaque(v) => with_decimal("Opaque, ", v.len() as u64).concat(
                " bytes",
            ),
        }
    }

    /// Appends the bytes of the payload to `buf`.
    pub fn write_to(&self, buf: &mut Vec<u8>)
        ensures
            final(buf)@ == old(buf)@ + self.bytes(),
            self.bytes().len() == self.byte_length(),
    {
        let ghost start = buf@;
        match self {
            EncodedTimeseries::Raw(v) => append_bytes(buf, v),
            EncodedTimeseries::Int16(v) => {
                let mut k: usize = 0;
                while k < v.len()
                    invariant
                        k <= v@.len(),
                        buf@.len() == start.len() + 2 * k,
                        forall|at: int| 0 <= at < start.len() ==> buf@[at] == start[at],
                        forall|at: int|
                            0 <= at < 2 * k ==> buf@[start.len() + at] == #[trigger] int16_bytes(
                                v@,
                            )[at],
                    decreases v@.len() - k,
                {
                    write_le_u16(buf, i16_to_bits(v[k]));
                    k += 1;
                }
            },
            EncodedTimeseries::Int32(v) => {
                let mut k: usize = 0;
                while k < v.len()
                    invariant
                        k <= v@.len(),
                        buf@.len() == start.len() + 4 * k,
                        forall|at: int| 0 <= at < start.len() ==> buf@[at] == start[at],
                        forall|at: int|
                            0 <= at < 4 * k ==> buf@[start.len() + at] == #[trigger] int32_bytes(
                                v@,
                            )[at],
                    decreases v@.len() - k,
                {
                    write_le_u32(buf, i32_to_bits(v[k]));
                    k += 1;
                }
            },
            EncodedTimeseries::Float32(v) => {
                let mut k: usize = 0;
                while k < v.len()
                    invariant
                        k <= v@.len(),
                        buf@.len() == start.len() + 4 * k,
                        forall|at: int| 0 <= at < start.len() ==> buf@[at] == start[at],
                        forall|at: int|
                            0 <= at < 4 * k ==> buf@[start.len() + at] == #[trigger] bits32_bytes(
                                v@,
                            )[at],
                    decreases v@.len() - k,
                {
                    write_le_u32(buf, v[k]);
                    k += 1;
                }
            },
            EncodedTimeseries::Float64(v) => {
                let mut k: usize = 0;
                while k < v.len()
                    invariant
                        k <= v@.len(),
                        buf@.len() == start.len() + 8 * k,
                        forall|at: int| 0 <= at < start.len() ==> buf@[at] == start[at],
                        forall|at: int|
                            0 <= at < 8 * k ==> buf@[start.len() + at] == #[trigger] bits64_bytes(
                                v@,
                            )[at],
                    decreases v@.len() - k,
                {
                    write_le_u64(buf, v[k]);
                    k += 1;
                }
            },
            EncodedTimeseries::Steim1(v) => append_bytes(buf, v),
            EncodedTimeseries::Steim2(v) => append_bytes(buf, v),
            EncodedTimeseries::Steim3(v) => append_bytes(buf, v),
            EncodedTimeseries::Opaque(v) => append_bytes(buf, v),
        }
        assert(buf@ =~= start + self.bytes());
    }

    /// The number of bytes of the payload in a record.
    pub fn byte_len(&self) -> (len: u32)
        requires
            self.byte_length() <= u32::MAX,
        ensures
            len == self.byte_length(),
    {
        match self {
            EncodedTimeseries::Raw(v) => v.len() as u32,
            EncodedTimeseries::Int16(v) => 2 * (v.len() as u32),
            EncodedTimeseries::Int32(v) => 4 * (v.len() as u32),
            EncodedTimeseries::Float32(v) => 4 * (v.len() as u32),
            EncodedTimeseries::Float64(v) => 8 * (v.len() as u32),
            EncodedTimeseries::Steim1(v) => v.len() as u32,
            EncodedTimeseries::Steim2(v) => v.len() as u32,
            EncodedTimeseries::Steim3(v) => v.len() as u32,
            EncodedTimeseries::Opaque(v) => v.len() as u32,
        }
    }

    /// Whether the payload is no longer than the data length field of a
    /// header can say.
    pub fn fits(&self) -> (fits: bool)
        ensures
            fits == (self.byte_length() <= u32::MAX),
    {
        let limit: usize = 0xffff_ffff;
        match self {
            EncodedTimeseries::Raw(v) => v.len() <= limit,
            EncodedTimeseries::Int16(v) => v.len() <= limit / 2,
            EncodedTimeseries::Int32(v) => v.len() <= limit / 4,
            EncodedTimeseries::Float32(v) => v.len() <= limit / 4,
            EncodedTimeseries::Float64(v) => v.len() <= limit / 8,
            EncodedTimeseries::Steim1(v) => v.len() <= limit,
            EncodedTimeseries::Steim2(v) => v.len() <= limit,
            EncodedTimeseries::Steim3(v) => v.len() <= limit,
            EncodedTimeseries::Opaque(v) => v.len() <= limit,
        }
    }

    /// Reconciles the number of samples in the header with the payload.  For
    /// arrays of samples it is the length of the array; for the others the
    /// number from the header is returned, as it cannot be checked.
    pub fn reconcile_num_samples(&self, header_num_sample: u32) -> (num_samples: u32)
        requires
            self.is_primitive() ==> self.element_count() <= u32::MAX,
        ensures
            num_samples == self.reconciled(header_num_sample),
    {
        match self {
            EncodedTimeseries::Int16(v) => v.len() as u32,
            EncodedTimeseries::Int32(v) => v.len() as u32,
            EncodedTimeseries::Float32(v) => v.len() as u32,
            EncodedTimeseries::Float64(v) => v.len() as u32,
            EncodedTimeseries::Raw(_) => header_num_sample,
            EncodedTimeseries::Steim1(_) => header_num_sample,
            EncodedTimeseries::Steim2(_) => header_num_sample,
            EncodedTimeseries::Steim3(_) => header_num_sample,
            EncodedTimeseries::Opaque(_) => header_num_sample,
        }
    }
}

/// Appends `bytes` to `buf`.
pub fn append_bytes(buf: &mut Vec<u8>, bytes: &Vec<u8>)
    ensures
        final(buf)@ == old(buf)@ + bytes@,
{
    let mut k: usize = 0;
    while k < bytes.len()
        invariant
            k <= bytes@.len(),
            buf@ == old(buf)@ + bytes@.take(k as int),
        decreases bytes@.len() - k,
    {
        buf.push(bytes[k]);
        assert(buf@ =~= old(buf)@ + bytes@.take(k + 1));
        k += 1;
    }
    assert(bytes@.take(bytes@.len() as int) =~= bytes@);
}

/// The bytes of a payload are as many as its byte length says, which is the
/// number of its elements times the number of bytes of one element.
pub proof fn lemma_payload_length(payload: EncodedTimeseries)
    ensures
        payload.bytes().len() == payload.byte_length(),
        payload.byte_length() == payload.element_width() * payload.element_count(),
        payload.element_count() <= payload.byte_length(),
{
    let width = payload.element_width();
    let count = payload.element_count();
    match payload {
        EncodedTimeseries::Int16(v) => {
            assert(width * count == 2 * count) by (nonlinear_arith)
                requires
                    width == 2,
            ;
        },
        EncodedTimeseries::Int32(v) => {
            assert(width * count == 4 * count) by (nonlinear_arith)
                requires
                    width == 4,
            ;
        },
        EncodedTimeseries::Float32(v) => {
            assert(width * count == 4 * count) by (nonlinear_arith)
                requires
                    width == 4,
            ;
        },
        EncodedTimeseries::Float64(v) => {
            assert(width * count == 8 * count) by (nonlinear_arith)
                requires
                    width == 8,
            ;
        },
        _ => {
            assert(width * count == count) by (nonlinear_arith)
                requires
                    width == 1,
            ;
        },
    }
}

} // verus!
