use chrono::{Datelike, NaiveDate, NaiveDateTime, Timelike};
use mseed3::bytes::{read_le_u16, read_le_u32, read_le_u64};
use mseed3::{DataEncoding, MSeed3Header, MSeedError, UtcInstant, CRC_OFFSET, FIXED_HEADER_SIZE};

const REC_IND: [u8; 2] = [b'M', b'S'];

fn instant(moment: NaiveDateTime) -> UtcInstant {
    UtcInstant {
        year: moment.year(),
        ordinal: moment.ordinal(),
        hour: moment.hour(),
        minute: moment.minute(),
        second: moment.second(),
        nanosecond: moment.nanosecond(),
    }
}

#[test]
fn header_read_u32_buf() {
    let buf: [u8; 5] = [1, 0, 0, 0, 5];
    let mut header_bytes = &buf[0..5];
    let nanosecond = read_le_u32(&mut header_bytes);
    assert_eq!(1, nanosecond);
    assert_eq!(header_bytes[0], 5);
}

#[test]
fn mseed3_read_u32_buf() {
    let buf: [u8; 5] = [1, 0, 0, 0, 5];
    let mut header_bytes = &buf[0..5];
    let nanosecond = read_le_u32(&mut header_bytes);
    assert_eq!(1, nanosecond);
    assert_eq!(header_bytes[0], 5);
}

#[test]
fn header_read_f64_buf() {
    let buf: [u8; 8] = [0, 0, 0, 0, 0, 0, 0xf0, 0x3f];
    let mut header_bytes = &buf[0..8];
    let nanosecond = f64::from_bits(read_le_u64(&mut header_bytes));
    // special check as clippy doesn't like float equals
    assert!((nanosecond - 1.0_f64).abs() < f64::EPSILON);
}

#[test]
fn mseed3_read_f64_buf() {
    let buf: [u8; 8] = [0, 0, 0, 0, 0, 0, 0xf0, 0x3f];
    let mut header_bytes = &buf[0..8];
    let nanosecond = f64::from_bits(read_le_u64(&mut header_bytes));
    assert_eq!(1.0 as f64, nanosecond);
}

fn get_dummy_header() -> [u8; 64] {
    // hexdump -C -n 64 reference-sinusoid-int16.mseed3
    // 00000000  4d 53 03 04 00 00 00 00  dc 07 01 00 00 00 00 01  |MS..............|
    // 00000010  00 00 00 00 00 00 f0 3f  90 01 00 00 d6 87 d2 04  |.......?........|
    // 00000020  01 13 00 00 20 03 00 00  46 44 53 4e 3a 58 58 5f  |.... ...FDSN:XX_|
    // 00000030  54 45 53 54 5f 5f 4c 5f  48 5f 5a 00 00 02 00 04  |TEST__L_H_Z.....|
    let buf: [u8; 64] = [
        0x4d, 0x53, 0x03, 0x04, 0x00, 0x00, 0x00, 0x00, 0xdc, 0x07, 0x01, 0x00, 0x00, 0x00,
        0x00, 0x01, 0x00, 0x00, 0x00, 0x00, 0x00, 0x00, 0xf0, 0x3f, 0x90, 0x01, 0x00, 0x00,
        0xd6, 0x87, 0xd2, 0x04, 0x01, 0x13, 0x00, 0x00, 0x20, 0x03, 0x00, 0x00, 0x46, 0x44,
        0x53, 0x4e, 0x3a, 0x58, 0x58, 0x5f, 0x54, 0x45, 0x53, 0x54, 0x5f, 0x5f, 0x4c, 0x5f,
        0x48, 0x5f, 0x5a, 0x00, 0x00, 0x02, 0x00, 0x04,
    ];
    buf
}

fn get_dummy_header_of_500() -> [u8; 64] {
    // 00000000  4d 53 03 04 00 00 00 00  dc 07 01 00 00 00 00 01  |MS..............|
    // 00000010  00 00 00 00 00 00 f0 3f  f4 01 00 00 89 73 2b 64  |.......?.....s+d|
    // 00000020  01 14 00 00 e8 03 00 00  58 46 44 53 4e 3a 58 58  |........XFDSN:XX|
    // 00000030  5f 54 45 53 54 5f 5f 4c  5f 48 5f 5a 00 00 02 00  |_TEST__L_H_Z....|
    let buf: [u8; 64] = [
        0x4d, 0x53, 0x03, 0x04, 0x00, 0x00, 0x00, 0x00, 0xdc, 0x07, 0x01, 0x00, 0x00, 0x00,
        0x00, 0x01, 0x00, 0x00, 0x00, 0x00, 0x00, 0x00, 0xf0, 0x3f, 0xf4, 0x01, 0x00, 0x00,
        0x89, 0x73, 0x2b, 0x64, 0x01, 0x14, 0x00, 0x00, 0xe8, 0x03, 0x00, 0x00, 0x58, 0x46,
        0x44, 0x53, 0x4e, 0x3a, 0x58, 0x58, 0x5f, 0x54, 0x45, 0x53, 0x54, 0x5f, 0x5f, 0x4c,
        0x5f, 0x48, 0x5f, 0x5a, 0x00, 0x00, 0x02, 0x00,
    ];
    buf
}

#[test]
fn header_read_header_sin_int16() {
    let dummy = get_dummy_header();
    println!("read_header_sin_int16...");
    let head = MSeed3Header::try_from(&dummy[0..40]).unwrap();
    assert_eq!(head.record_indicator, REC_IND);
    assert_eq!(head.format_version, 3);
    assert_eq!(head.flags, 4);
    assert_eq!(head.nanosecond, 0);
    assert_eq!(head.year, 2012);
    assert_eq!(head.day_of_year, 1);
    assert_eq!(head.hour, 0);
    assert_eq!(head.minute, 0);
    assert_eq!(head.second, 0);
    assert_eq!(head.encoding.value(), 1);
    // special check as clippy doesn't like float equals
    assert!((f64::from_bits(head.sample_rate_period) - 1.0_f64).abs() < f64::EPSILON);
    assert_eq!(head.num_samples, 400);
    assert_eq!(head.crc_hex_string(), "0x4D287D6");
    assert_eq!(head.crc, 0x4D287D6);
    assert_eq!(head.publication_version, 1_u8);
    assert_eq!(
        head.identifier_length,
        String::from("FDSN:XX_TEST__L_H_Z").len() as u8
    );
    assert_eq!(head.extra_headers_length, 0_u16);
    assert_eq!(head.data_length, 2 * head.num_samples); // 16 bit ints
    assert_eq!(head.data_length, 800);
    println!("{:?}", head);
}

#[test]
fn mseed3_read_header_sin_int16() {
    let buf = get_dummy_header_of_500();
    println!("read_header_sin_int16...");
    let head = MSeed3Header::from_bytes(&buf).unwrap();
    assert_eq!(&head.record_indicator, "MS".as_bytes());
    assert_eq!(head.format_version, 3);
    assert_eq!(head.flags, 4);
    assert_eq!(head.nanosecond, 0);
    assert_eq!(head.year, 2012);
    assert_eq!(head.day_of_year, 1);
    assert_eq!(head.hour, 0);
    assert_eq!(head.minute, 0);
    assert_eq!(head.second, 0);
    assert_eq!(head.encoding.value(), 1);
    assert_eq!(f64::from_bits(head.sample_rate_period), 1.0 as f64);
    assert_eq!(head.num_samples, 500);
    assert_eq!(head.crc, 0x642B7389);
    assert_eq!(head.publication_version, 1 as u8);
    assert_eq!(
        head.identifier_length,
        String::from("XFDSN:XX_TEST__L_H_Z").len() as u8
    );
    assert_eq!(head.extra_headers_length, 0 as u16);
    assert_eq!(head.data_length, 1000);
    println!("{:?}", head);
}

#[test]
fn header_read_header_round_trip() {
    let dummy = get_dummy_header();
    let buf = &dummy[0..FIXED_HEADER_SIZE];
    let head = MSeed3Header::try_from(buf).unwrap();
    let mut out = Vec::new();
    head.write_to(&mut out);
    assert_eq!(out, buf);
    assert_eq!(out[0..2], REC_IND);
    assert_eq!(buf[0..2], REC_IND);
}

#[test]
fn mseed3_read_header_round_trip() {
    let dummy = get_dummy_header_of_500();
    let buf = &dummy[0..FIXED_HEADER_SIZE];
    let head = MSeed3Header::from_bytes(buf).unwrap();
    let mut out = Vec::new();
    head.write_to(&mut out);
    assert_eq!(out, buf);
    assert_eq!(out[0..2], REC_IND);
    assert_eq!(buf[0..2], REC_IND);
}

#[test]
fn set_start_leap_second() {
    let buf = get_dummy_header();
    let mut header = MSeed3Header::try_from(&buf[0..FIXED_HEADER_SIZE]).unwrap();
    let start = NaiveDate::from_ymd_opt(2016, 12, 31)
        .unwrap()
        .and_hms_nano_opt(23, 59, 59, 1_900_000_000)
        .unwrap();
    header.set_start_from_utc(instant(start));
    assert_eq!(header.nanosecond, 900_000_000);
    assert_eq!(header.second, 60);
}

#[test]
fn sinusoid_header_describes_a_record_of_1060_bytes() {
    let head = MSeed3Header::from_bytes(&get_dummy_header_of_500()).unwrap();
    assert_eq!(head.get_record_size(), 1060);
    assert_eq!(head.raw_data_length(), 1000);
    assert_eq!(head.raw_identifier_length(), 20);
    assert_eq!(head.raw_extra_headers_length(), 0);
    assert_eq!(head.encoding, DataEncoding::INT16);
    assert_eq!(head.crc_hex_string(), "0x642B7389");
    assert!(head.has_valid_start());
    assert_eq!(head.get_start_as_iso(), "2012-01-01T00:00:00.000000000Z");
}

#[test]
fn little_endian_readers() {
    let buf: [u8; 14] = [
        0x34, 0x12, 0x78, 0x56, 0x34, 0x12, 0xef, 0xcd, 0xab, 0x89, 0x67, 0x45, 0x23, 0x01,
    ];
    let mut rest = &buf[..];
    assert_eq!(read_le_u16(&mut rest), 0x1234);
    assert_eq!(read_le_u32(&mut rest), 0x1234_5678);
    assert_eq!(read_le_u64(&mut rest), 0x0123_4567_89ab_cdef);
    assert!(rest.is_empty());
}

#[test]
fn header_layout() {
    let header = MSeed3Header {
        record_indicator: REC_IND,
        format_version: 3,
        flags: 0xa5,
        nanosecond: 999_999_999,
        year: 2016,
        day_of_year: 366,
        hour: 23,
        minute: 59,
        second: 60,
        encoding: DataEncoding::STEIM2,
        sample_rate_period: (-0.5_f64).to_bits(),
        num_samples: 0x0102_0304,
        crc: 0x1122_3344,
        publication_version: 7,
        identifier_length: 255,
        extra_headers_length: 0xfffe,
        data_length: 0xa0b0_c0d0,
    };
    let mut out = vec![9u8];
    header.write_to(&mut out);
    assert_eq!(out.len(), 1 + FIXED_HEADER_SIZE);
    let expected: [u8; 40] = [
        b'M', b'S', 3, 0xa5, 0xff, 0xc9, 0x9a, 0x3b, 0xe0, 0x07, 0x6e, 0x01, 23, 59, 60, 11, 0, 0,
        0, 0, 0, 0, 0xe0, 0xbf, 4, 3, 2, 1, 0x44, 0x33, 0x22, 0x11, 7, 255, 0xfe, 0xff, 0xd0,
        0xc0, 0xb0, 0xa0,
    ];
    assert_eq!(&out[1..], &expected);
    assert_eq!(&out[1 + CRC_OFFSET..1 + CRC_OFFSET + 4], &[0x44, 0x33, 0x22, 0x11]);
    // second 60 and nanosecond 999_999_999 are kept as they are
    let read = MSeed3Header::from_bytes(&expected).unwrap();
    assert_eq!(read, header);
    assert_eq!(read.second, 60);
    assert_eq!(read.nanosecond, 999_999_999);
    assert_eq!(f64::from_bits(read.sample_rate_period), -0.5);
}

#[test]
fn header_errors() {
    let good = get_dummy_header();
    assert_eq!(
        MSeed3Header::from_bytes(&good[0..39]).err(),
        Some(MSeedError::InsufficientBytes(39, 40))
    );
    assert_eq!(
        MSeed3Header::try_from(&[]).err(),
        Some(MSeedError::InsufficientBytes(0, 40))
    );
    let mut bad = good;
    bad[0] = b'X';
    assert_eq!(
        MSeed3Header::from_bytes(&bad).err(),
        Some(MSeedError::BadRecordIndicator(88, 83))
    );
    let mut bad = good;
    bad[1] = b's';
    bad[2] = 2;
    assert_eq!(
        MSeed3Header::from_bytes(&bad).err(),
        Some(MSeedError::BadRecordIndicator(77, 115))
    );
    let mut bad = good;
    bad[2] = 2;
    assert_eq!(
        MSeed3Header::try_from(&bad).err(),
        Some(MSeedError::UnknownFormatVersion(2))
    );
}

#[test]
fn new_header() {
    let start = NaiveDate::from_ymd_opt(2014, 11, 28)
        .unwrap()
        .and_hms_opt(12, 0, 9)
        .unwrap();
    let header = MSeed3Header::new(instant(start), DataEncoding::INT32, 10.0_f64.to_bits(), 10);
    assert_eq!(header.record_indicator, REC_IND);
    assert_eq!(header.format_version, 3);
    assert_eq!(header.flags, 0);
    assert_eq!(header.year, 2014);
    assert_eq!(header.day_of_year, 332);
    assert_eq!((header.hour, header.minute, header.second), (12, 0, 9));
    assert_eq!(header.nanosecond, 0);
    assert_eq!(header.encoding, DataEncoding::INT32);
    assert_eq!(f64::from_bits(header.sample_rate_period), 10.0);
    assert_eq!(header.num_samples, 10);
    assert_eq!(header.crc, 0);
    assert_eq!(header.publication_version, 0);
    assert_eq!(header.get_record_size(), 40);
    assert_eq!(header.get_start_as_iso(), "2014-11-28T12:00:09.000000000Z");
    assert_eq!(header.get_start_as_utc(), instant(start));
}

#[test]
fn recalculated_lengths() {
    let mut header = MSeed3Header::from_bytes(&get_dummy_header()).unwrap();
    let before = header.clone();
    header.recalculated_lengths(1, 2, 3, 4);
    assert_eq!(header.raw_identifier_length(), 1);
    assert_eq!(header.raw_extra_headers_length(), 2);
    assert_eq!(header.raw_data_length(), 3);
    assert_eq!(header.num_samples, 4);
    assert_eq!(header.get_record_size(), 46);
    header.recalculated_lengths(19, 0, 800, 400);
    assert_eq!(header, before);
}

#[test]
fn start_times() {
    let mut header = MSeed3Header::from_bytes(&get_dummy_header()).unwrap();
    // a leap second and back
    let leap = NaiveDate::from_ymd_opt(2016, 12, 31)
        .unwrap()
        .and_hms_nano_opt(23, 59, 59, 1_000_000_000)
        .unwrap();
    header.set_start_from_utc(instant(leap));
    assert_eq!((header.year, header.day_of_year), (2016, 366));
    assert_eq!((header.second, header.nanosecond), (60, 0));
    assert!(header.has_valid_start());
    assert_eq!(header.get_start_as_utc(), instant(leap));
    assert_eq!(header.get_start_as_iso(), "2016-12-31T23:59:60.000000000Z");
    // the last nanosecond of a second
    let late = NaiveDate::from_yo_opt(2023, 365)
        .unwrap()
        .and_hms_nano_opt(1, 2, 3, 999_999_999)
        .unwrap();
    header.set_start_from_utc(instant(late));
    assert_eq!((header.second, header.nanosecond), (3, 999_999_999));
    assert_eq!(header.get_start_as_utc(), instant(late));
    assert_eq!(header.get_start_as_iso(), "2023-12-31T01:02:03.999999999Z");
    // what is no moment
    header.day_of_year = 366;
    assert!(!header.has_valid_start());
    header.day_of_year = 0;
    assert!(!header.has_valid_start());
    header.day_of_year = 1;
    header.second = 61;
    assert!(!header.has_valid_start());
    header.second = 60;
    header.nanosecond = 1_000_000_000;
    assert!(!header.has_valid_start());
    header.nanosecond = 5;
    assert!(header.has_valid_start());
    header.year = 1900;
    header.day_of_year = 366;
    assert!(!header.has_valid_start());
    header.year = 2000;
    assert!(header.has_valid_start());
    assert_eq!(header.get_start_as_iso(), "2000-12-31T01:02:60.000000005Z");
}

#[test]
fn crc_as_text() {
    let mut header = MSeed3Header::from_bytes(&get_dummy_header()).unwrap();
    header.crc = 0;
    assert_eq!(header.crc_hex_string(), "0x0");
    header.crc = 0xF;
    assert_eq!(header.crc_hex_string(), "0xF");
    header.crc = 0x10;
    assert_eq!(header.crc_hex_string(), "0x10");
    header.crc = 0x106EAFA5;
    assert_eq!(header.crc_hex_string(), "0x106EAFA5");
    header.crc = u32::MAX;
    assert_eq!(header.crc_hex_string(), "0xFFFFFFFF");
    assert_eq!(header.crc_hex_string(), format!("{:#0X}", header.crc));
}

#[test]
fn encodings_and_codes() {
    for code in 0..=255u8 {
        assert_eq!(DataEncoding::from_int(code).value(), code);
    }
    assert_eq!(DataEncoding::from_int(0), DataEncoding::TEXT);
    assert_eq!(DataEncoding::from_int(1), DataEncoding::INT16);
    assert_eq!(DataEncoding::from_int(3), DataEncoding::INT32);
    assert_eq!(DataEncoding::from_int(4), DataEncoding::FLOAT32);
    assert_eq!(DataEncoding::from_int(5), DataEncoding::FLOAT64);
    assert_eq!(DataEncoding::from_int(10), DataEncoding::STEIM1);
    assert_eq!(DataEncoding::from_int(11), DataEncoding::STEIM2);
    assert_eq!(DataEncoding::from_int(19), DataEncoding::STEIM3);
    assert_eq!(DataEncoding::from_int(100), DataEncoding::OPAQUE);
    assert_eq!(DataEncoding::from_int(2), DataEncoding::UNKNOWN(2));
    assert_eq!(DataEncoding::from_int(255), DataEncoding::UNKNOWN(255));
    assert_eq!(
        DataEncoding::STEIM1.to_string(),
        "Steim-1 integer compression, big endian byte order"
    );
    assert_eq!(DataEncoding::UNKNOWN(7).to_string(), "Unknown encoding: 7");
    assert_eq!(
        DataEncoding::UNKNOWN(200).to_string(),
        "Unknown encoding: 200"
    );
}

#[test]
fn valid_starts_are_those_that_have_a_text() {
    let mut header = MSeed3Header::from_bytes(&get_dummy_header()).unwrap();
    let mut valid = 0;
    let mut invalid = 0;
    for year in [0u16, 1, 4, 100, 400, 1900, 2000, 2023, 2024, 65535] {
        for day_of_year in [0u16, 1, 59, 60, 365, 366, 367, 65535] {
            for (hour, minute, second) in [
                (0u8, 0u8, 0u8),
                (23, 59, 59),
                (23, 59, 60),
                (0, 0, 60),
                (24, 0, 0),
                (0, 60, 0),
                (0, 0, 61),
                (255, 255, 255),
            ] {
                for nanosecond in [0u32, 999_999_999, 1_000_000_000, 1_999_999_999, u32::MAX] {
                    header.year = year;
                    header.day_of_year = day_of_year;
                    header.hour = hour;
                    header.minute = minute;
                    header.second = second;
                    header.nanosecond = nanosecond;
                    let moment = NaiveDate::from_yo_opt(year as i32, day_of_year as u32).and_then(
                        |date| {
                            let start = header.get_start_as_utc();
                            date.and_hms_nano_opt(
                                start.hour,
                                start.minute,
                                start.second,
                                start.nanosecond,
                            )
                        },
                    );
                    assert_eq!(
                        header.has_valid_start(),
                        moment.is_some(),
                        "{:?}",
                        header
                    );
                    if let Some(moment) = moment {
                        valid += 1;
                        assert_eq!(
                            header.get_start_as_iso(),
                            moment.format("%Y-%m-%dT%H:%M:%S%.9fZ").to_string()
                        );
                        assert_eq!(header.get_start_as_utc(), instant(moment));
                    } else {
                        invalid += 1;
                    }
                }
            }
        }
    }
    assert!(valid > 100 && invalid > 100);
}
