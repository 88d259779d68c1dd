use mseed3::bytes::{
    be_u16_from, be_u32_from, i16_from_bits, i16_to_bits, i32_from_bits, i32_to_bits,
    i8_from_bits, i8_to_bits, write_be_u32, write_le_u16, write_le_u32, write_le_u64,
};
use mseed3::encoded_timeseries::append_bytes;
use mseed3::record::MSeed3Record;
use mseed3::text::{append_numeral, with_decimal};
use mseed3::{EncodedTimeseries, ExtraHeaders, MSeedError, SourceIdentifier, UtcInstant};

#[test]
fn bit_patterns() {
    assert_eq!(i8_to_bits(-1), 0xff);
    assert_eq!(i8_to_bits(-128), 0x80);
    assert_eq!(i8_to_bits(127), 0x7f);
    assert_eq!(i8_from_bits(0x80), -128);
    assert_eq!(i8_from_bits(0x7f), 127);
    assert_eq!(i16_to_bits(-2), 0xfffe);
    assert_eq!(i16_from_bits(0x8000), i16::MIN);
    assert_eq!(i16_from_bits(0x7fff), i16::MAX);
    assert_eq!(i32_to_bits(-40000), 0xffff_63c0);
    assert_eq!(i32_to_bits(i32::MIN), 0x8000_0000);
    assert_eq!(i32_from_bits(0xffff_ffff), -1);
    assert_eq!(i32_from_bits(0x7fff_ffff), i32::MAX);
    for v in [i32::MIN, -1, 0, 1, i32::MAX] {
        assert_eq!(i32_from_bits(i32_to_bits(v)), v);
    }
}

#[test]
fn writers_and_readers() {
    let mut out = vec![0xee];
    write_le_u16(&mut out, 0x0102);
    write_le_u32(&mut out, 0x0304_0506);
    write_le_u64(&mut out, 0x0708_090a_0b0c_0d0e);
    write_be_u32(&mut out, 0x0f10_1112);
    assert_eq!(
        out,
        vec![
            0xee, 2, 1, 6, 5, 4, 3, 0x0e, 0x0d, 0x0c, 0x0b, 0x0a, 9, 8, 7, 0x0f, 0x10, 0x11, 0x12
        ]
    );
    assert_eq!(be_u32_from(&out, 15), 0x0f10_1112);
    assert_eq!(be_u16_from(&out, 17), 0x1112);
    assert_eq!(be_u16_from(&out, 1), 0x0201);
    append_bytes(&mut out, &vec![1, 2, 3]);
    assert_eq!(&out[19..], &[1, 2, 3]);
    append_bytes(&mut out, &vec![]);
    assert_eq!(out.len(), 22);
}

#[test]
fn numerals() {
    assert_eq!(with_decimal("n=", 0), "n=0");
    assert_eq!(with_decimal("", 9), "9");
    assert_eq!(with_decimal("", 10), "10");
    assert_eq!(with_decimal("", 1060), "1060");
    assert_eq!(with_decimal("", u64::MAX), "18446744073709551615");
    let mut text = String::from("0x");
    append_numeral(&mut text, 0xdead_beef, true);
    assert_eq!(text, "0xDEADBEEF");
    append_numeral(&mut text, 0, true);
    append_numeral(&mut text, 255, false);
    assert_eq!(text, "0xDEADBEEF0255");
}

#[test]
fn reading_without_the_crc() -> Result<(), MSeedError> {
    let start = UtcInstant {
        year: 2020,
        ordinal: 60,
        hour: 1,
        minute: 2,
        second: 3,
        nanosecond: 4,
    };
    let mut record = MSeed3Record::from_ints(start, 2.5_f64.to_bits(), vec![1, 2, 3]);
    record.identifier = SourceIdentifier::from("FDSN:IU_COLA_00_B_H_Z");
    record.extra_headers = ExtraHeaders::Raw(String::from("{\"k\":0}"));
    let mut out = Vec::new();
    let (size, crc) = record.write_to(&mut out)?;
    assert_eq!(size, 40 + 21 + 7 + 12);
    // the CRC is that of the record with zeros in its place
    let mut zeroed = out.clone();
    zeroed[28..32].copy_from_slice(&[0; 4]);
    out[28] ^= 0xff;
    out.push(0x55);
    let mut reader = &out[..];
    let (read, digest_input) = MSeed3Record::read_unchecked(&mut reader)?;
    assert_eq!(reader, &[0x55]);
    assert_eq!(digest_input, zeroed);
    assert_eq!(read.header.crc, crc ^ 0xff);
    assert_eq!(read.identifier, record.identifier);
    assert_eq!(read.extra_headers.to_string(), "{\"k\":0}");
    assert_eq!(
        read.encoded_data,
        EncodedTimeseries::Raw(vec![1, 0, 0, 0, 2, 0, 0, 0, 3, 0, 0, 0])
    );
    assert_eq!(read.header.get_start_as_iso(), "2020-02-29T01:02:03.000000004Z");
    assert_eq!(
        MSeed3Record::check_crc(read.clone(), crc).err(),
        Some(MSeedError::CrcInvalid(crc, crc ^ 0xff))
    );
    // where reading fails the reader stays where it is
    let mut reader = &out[..];
    assert!(matches!(
        MSeed3Record::from_reader(&mut reader),
        Err(MSeedError::CrcInvalid(_, _))
    ));
    assert_eq!(reader.len(), out.len());
    Ok(())
}
