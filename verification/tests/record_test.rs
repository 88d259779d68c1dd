use mseed3::record::{write_stamped, MSeed3Record};
use mseed3::{
    read_mseed3, DataEncoding, EncodedTimeseries, ExtraHeaders, MSeed3Header, MSeedError,
    SourceIdentifier, UtcInstant, FIXED_HEADER_SIZE,
};

fn get_dummy_header() -> [u8; 64] {
    // 00000000  4d 53 03 04 00 00 00 00  dc 07 01 00 00 00 00 01  |MS..............|
    // 00000010  00 00 00 00 00 00 f0 3f  f4 01 00 00 89 73 2b 64  |.......?.....s+d|
    // 00000020  01 14 00 00 e8 03 00 00  58 46 44 53 4e 3a 58 58  |........XFDSN:XX|
    // 00000030  5f 54 45 53 54 5f 5f 4c  5f 48 5f 5a 00 00 02 00  |_TEST__L_H_Z....|
    let buf: [u8; 64] = [
        0x4d, 0x53, 0x03, 0x04, 0x00, 0x00, 0x00, 0x00, 0xdc, 0x07, 0x01, 0x00, 0x00, 0x00,
        0x00, 0x01, 0x00, 0x00, 0x00, 0x00, 0x00, 0x00, 0xf0, 0x3f, 0xf4, 0x01, 0x00, 0x00,
        0x89, 0x73, 0x2b, 0x64, 0x01, 0x14, 0x00, 0x00, 0xe8, 0x03, 0x00, 0x00, 0x58, 0x46,
        0x44, 0x53, 0x4e, 0x3a, 0x58, 0x58, 0x5f, 0x54, 0x45, 0x53, 0x54, 0x5f, 0x5f, 0x4c,
        0x5f, 0x48, 0x5f, 0x5a, 0x00, 0x00, 0x02, 0x00,
    ];
    buf
}

#[test]
fn record_record_round_trip() -> Result<(), MSeedError> {
    let dummy = get_dummy_header();
    let buf = &dummy[0..FIXED_HEADER_SIZE];

    let mut head = MSeed3Header::try_from(buf).unwrap();

    let identifier_bytes = get_dummy_header()
        [FIXED_HEADER_SIZE..(FIXED_HEADER_SIZE + head.raw_identifier_length() as usize)]
        .to_owned();
    let identifier_length = identifier_bytes.len() as u8;
    let identifier = SourceIdentifier::try_from(identifier_bytes)?;
    let extra_headers_length = 0;
    let extra_headers = ExtraHeaders::new();
    let dummy_data = vec![0, -1, 2, -3, 4, -5];
    let data_length = (dummy_data.len() as u32 * 4) as u32;
    let num_samples = dummy_data.len() as u32;
    head.recalculated_lengths(
        identifier_length,
        extra_headers_length,
        data_length,
        num_samples,
    );
    head.encoding = DataEncoding::INT32;
    let encoded_data = EncodedTimeseries::Int32(dummy_data);
    let mut rec = MSeed3Record::new(head, identifier, extra_headers, encoded_data);
    let mut out = Vec::new();
    let bytes_written: u32;
    let crc_written: u32;
    {
        let t = rec.write_to(&mut out).unwrap();
        bytes_written = t.0;
        crc_written = t.1;
    }
    assert_eq!(rec.get_record_size(), out.len() as u32);
    assert_eq!(bytes_written, out.len() as u32);
    println!("crc is {:#0X}", crc_written);
    assert_eq!(0xA31B99EC, crc_written);
    Ok(())
}

#[test]
fn mseed3_record_round_trip() {
    let dummy = get_dummy_header();
    let buf = &dummy[0..FIXED_HEADER_SIZE];
    let identifier =
        String::from_utf8(get_dummy_header()[FIXED_HEADER_SIZE..64].to_owned()).unwrap();

    let mut head = MSeed3Header::from_bytes(buf).unwrap();
    head.identifier_length = identifier.len() as u8;
    let dummy_eh = String::from("");
    head.extra_headers_length = dummy_eh.len() as u16;
    let extra_headers = ExtraHeaders::Raw(dummy_eh);
    let dummy_data = vec![0, -1, 2, -3, 4, -5];
    head.data_length = (dummy_data.len() as u32 * 4) as u32;
    head.num_samples = dummy_data.len() as u32;
    head.encoding = DataEncoding::INT32;
    let encoded_data = EncodedTimeseries::Int32(dummy_data);
    let mut rec = MSeed3Record::new(
        head,
        SourceIdentifier::from(identifier.as_str()),
        extra_headers,
        encoded_data,
    );
    let mut out = Vec::new();
    let bytes_written: u32;
    {
        let t = rec.write_to(&mut out).unwrap();
        bytes_written = t.0;
    }
    assert_eq!(rec.get_record_size(), out.len() as u32);
    assert_eq!(bytes_written, out.len() as u32);
}

fn start_2014() -> UtcInstant {
    // 2014-11-28T12:00:09Z
    UtcInstant {
        year: 2014,
        ordinal: 332,
        hour: 12,
        minute: 0,
        second: 9,
        nanosecond: 0,
    }
}

fn tiny_record(extra_headers: ExtraHeaders) -> MSeed3Record {
    let timeseries = vec![0, 1, -1, 5, 3, -5, 10, -1, 1, 0];
    let num_samples = timeseries.len();
    let encoded_data = EncodedTimeseries::Int32(timeseries);
    let header = MSeed3Header::new(
        start_2014(),
        DataEncoding::INT32,
        10.0_f64.to_bits(),
        num_samples,
    );
    let identifier = SourceIdentifier::from("FDSN:CO_BIRD_00_H_H_Z");
    MSeed3Record::new(header, identifier, extra_headers, encoded_data)
}

fn written(record: &mut MSeed3Record) -> Vec<u8> {
    let mut out = Vec::new();
    let (size, crc) = record.write_to(&mut out).unwrap();
    assert_eq!(size as usize, out.len());
    assert_eq!(crc, record.header.crc);
    out
}

#[test]
fn lib_test() -> Result<(), MSeedError> {
    let mut record = tiny_record(ExtraHeaders::Raw(String::from("{}")));
    let mut simple_ms3 = Vec::new();
    // writing a record sets the crc and the byte lengths of its header
    record.write_to(&mut simple_ms3)?;
    println!("Record: \n{:?}", record);

    let mut buf_reader = &simple_ms3[..];
    let records = read_mseed3(&mut buf_reader)?;
    let first_record = records.first().unwrap();
    println!("Read back in: \n{:?}", first_record);
    assert_eq!(records.len(), 1);
    assert_eq!(first_record.header, record.header);
    Ok(())
}

#[test]
fn int32_tiny() -> Result<(), MSeedError> {
    let mut record = tiny_record(ExtraHeaders::Raw(String::from("{}")));
    assert_eq!(record.header.raw_identifier_length(), 21);
    assert_eq!(record.header.raw_data_length(), 40);
    assert_eq!(record.get_record_size(), 101);
    let out = written(&mut record);
    assert_eq!(out.len(), 40 + 21 + 0 + 40);
    assert_eq!(record.header.crc_hex_string(), "0x29ED3283");
    assert_eq!(&out[28..32], &0x29ED3283u32.to_le_bytes());
    assert_eq!(&out[40..61], b"FDSN:CO_BIRD_00_H_H_Z");
    let samples: Vec<u8> = [0i32, 1, -1, 5, 3, -5, 10, -1, 1, 0]
        .iter()
        .flat_map(|s| s.to_le_bytes())
        .collect();
    assert_eq!(&out[61..], &samples);

    let mut reader = &out[..];
    let read = MSeed3Record::from_reader(&mut reader)?;
    assert!(reader.is_empty());
    assert_eq!(read.header, record.header);
    assert_eq!(read.header.num_samples, 10);
    assert_eq!(read.header.get_start_as_iso(), "2014-11-28T12:00:09.000000000Z");
    assert_eq!(read.identifier, record.identifier);
    assert!(matches!(read.identifier, SourceIdentifier::Fdsn(_)));
    assert_eq!(read.extra_headers.to_string(), "{}");
    assert_eq!(read.encoded_data, EncodedTimeseries::Raw(samples));
    // what was read is written as it was
    let mut read = read;
    assert_eq!(written(&mut read), out);
    Ok(())
}

#[test]
fn empty_extra_headers_take_no_room() {
    let expected = written(&mut tiny_record(ExtraHeaders::Raw(String::from("{}"))));
    assert_eq!(written(&mut tiny_record(ExtraHeaders::Raw(String::new()))), expected);
    assert_eq!(written(&mut tiny_record(ExtraHeaders::new())), expected);
    assert_eq!(
        written(&mut tiny_record(ExtraHeaders::from(String::from("{}")))),
        expected
    );
}

#[test]
fn extra_headers_are_kept() -> Result<(), MSeedError> {
    let text = "{\"FDSN\":{\"Time\":{\"Quality\":0}},\"caf\u{e9}\":[1,2]}";
    let mut record = tiny_record(ExtraHeaders::Raw(String::from(text)));
    let out = written(&mut record);
    assert_eq!(record.header.raw_extra_headers_length() as usize, text.len());
    assert_eq!(out.len(), 101 + text.len());
    assert_eq!(&out[61..61 + text.len()], text.as_bytes());
    assert_eq!(record.get_record_size() as usize, out.len());
    let mut reader = &out[..];
    let mut read = MSeed3Record::from_reader(&mut reader)?;
    assert_eq!(read.extra_headers.to_string(), text);
    assert!(matches!(read.extra_headers, ExtraHeaders::Raw(_)));
    read.extra_headers.validate()?;
    // members are written in the order of their names
    read.parse_extra_headers()?;
    assert!(matches!(read.extra_headers, ExtraHeaders::Parsed(_)));
    assert_eq!(read.extra_headers.to_string(), text);
    assert_eq!(written(&mut read), out);
    assert_eq!(read.parsed_json()?.len(), 2);
    Ok(())
}

#[test]
fn crc_tamper_rejection() {
    let out = written(&mut tiny_record(ExtraHeaders::new()));
    for at in [61, 100] {
        let mut tampered = out.clone();
        tampered[at] ^= 1;
        let mut reader = &tampered[..];
        match MSeed3Record::from_reader(&mut reader) {
            Err(MSeedError::CrcInvalid(computed, stated)) => {
                assert_eq!(stated, 0x29ED3283);
                assert_ne!(computed, stated);
            }
            other => panic!("{:?}", other),
        }
    }
    // a flipped bit in the identifier
    let mut tampered = out.clone();
    tampered[45] ^= 1;
    assert!(matches!(
        MSeed3Record::from_reader(&mut &tampered[..]),
        Err(MSeedError::CrcInvalid(_, 0x29ED3283))
    ));
    // a record that ends early
    assert!(matches!(
        MSeed3Record::from_reader(&mut &out[..100]),
        Err(MSeedError::CrcInvalid(_, 0x29ED3283))
    ));
}

#[test]
fn bad_indicator_rejection() {
    let mut out = written(&mut tiny_record(ExtraHeaders::new()));
    out[0] = b'X';
    assert_eq!(
        MSeed3Record::from_reader(&mut &out[..]).err(),
        Some(MSeedError::BadRecordIndicator(88, 83))
    );
    assert_eq!(
        read_mseed3(&mut &out[..]).err(),
        Some(MSeedError::BadRecordIndicator(88, 83))
    );
}

#[test]
fn reading_errors() {
    let good = written(&mut tiny_record(ExtraHeaders::Raw(String::from(
        "{\"a\":1}",
    ))));
    assert_eq!(
        MSeed3Record::from_reader(&mut &good[..39]).err(),
        Some(MSeedError::InsufficientBytes(39, 40))
    );
    let mut bad = good.clone();
    bad[2] = 4;
    assert_eq!(
        MSeed3Record::from_reader(&mut &bad[..]).err(),
        Some(MSeedError::UnknownFormatVersion(4))
    );
    // identifier that is not UTF-8
    let mut bad = good.clone();
    bad[41] = 0xff;
    assert_eq!(
        MSeed3Record::from_reader(&mut &bad[..]).err(),
        Some(MSeedError::FromUtf8Error)
    );
    // extra headers that are not UTF-8
    let mut bad = good.clone();
    bad[62] = 0xff;
    assert_eq!(
        MSeed3Record::from_reader(&mut &bad[..]).err(),
        Some(MSeedError::FromUtf8Error)
    );
    // a sample count that does not go with the data length
    let mut bad = good.clone();
    bad[24] = 11;
    assert_eq!(
        MSeed3Record::from_reader(&mut &bad[..]).err(),
        Some(MSeedError::DataLength(44, 11, 3, 40))
    );
    let mut bad = good.clone();
    bad[15] = 5;
    assert_eq!(
        MSeed3Record::from_reader(&mut &bad[..]).err(),
        Some(MSeedError::DataLength(80, 10, 5, 40))
    );
    // a sample count whose data length is beyond 32 bits
    let mut bad = good.clone();
    bad[24..28].copy_from_slice(&0x4000_000au32.to_le_bytes());
    assert_eq!(
        MSeed3Record::from_reader(&mut &bad[..]).err(),
        Some(MSeedError::DataLength(40, 0x4000_000a, 3, 40))
    );
    // a stated CRC that is not the computed one
    let mut bad = good.clone();
    bad[28] ^= 0x80;
    match MSeed3Record::from_reader(&mut &bad[..]) {
        Err(MSeedError::CrcInvalid(computed, stated)) => {
            assert_eq!(computed.to_le_bytes(), good[28..32]);
            assert_eq!(stated.to_le_bytes(), bad[28..32]);
        }
        other => panic!("{:?}", other),
    }
    assert!(MSeed3Record::from_reader(&mut &good[..]).is_ok());
}

#[test]
fn check_crc_compares() {
    let record = tiny_record(ExtraHeaders::new());
    assert_eq!(
        MSeed3Record::check_crc(record.clone(), 1).err(),
        Some(MSeedError::CrcInvalid(1, 0))
    );
    assert_eq!(
        MSeed3Record::check_crc(record.clone(), 0).unwrap().header,
        record.header
    );
}

#[test]
fn records_one_after_the_other() -> Result<(), MSeedError> {
    let mut stream = Vec::new();
    let mut first = tiny_record(ExtraHeaders::new());
    let mut second = MSeed3Record::from_ints(start_2014(), 1.0_f64.to_bits(), vec![7, 8]);
    let mut third = MSeed3Record::from_floats(
        start_2014(),
        (-2.0_f64).to_bits(),
        vec![1.5_f32.to_bits(), (-0.25_f32).to_bits()],
    );
    first.write_to(&mut stream)?;
    second.write_to(&mut stream)?;
    third.write_to(&mut stream)?;
    assert_eq!(stream.len(), 101 + 68 + 68);
    let mut reader = &stream[..];
    let records = read_mseed3(&mut reader)?;
    assert!(reader.is_empty());
    assert_eq!(records.len(), 3);
    assert_eq!(records[0].header, first.header);
    assert_eq!(records[1].header, second.header);
    assert_eq!(records[2].header, third.header);
    assert_eq!(records[1].identifier.to_string(), "FDSN:XX_STA_00_B_H_Z");
    assert_eq!(records[1].header.encoding, DataEncoding::INT32);
    assert_eq!(records[2].header.encoding, DataEncoding::FLOAT32);
    assert_eq!(f64::from_bits(records[2].header.sample_rate_period), -2.0);
    assert_eq!(
        records[2].encoded_data,
        EncodedTimeseries::Raw(vec![0, 0, 0xc0, 0x3f, 0, 0, 0x80, 0xbe])
    );
    // one record at a time
    let mut reader = &stream[..];
    MSeed3Record::from_reader(&mut reader)?;
    assert_eq!(reader.len(), 68 + 68);
    assert!(read_mseed3(&mut &stream[..stream.len() - 1]).is_err());
    assert_eq!(read_mseed3(&mut &stream[0..0])?.len(), 0);
    Ok(())
}

#[test]
fn int16_sinusoid() -> Result<(), MSeedError> {
    let mut header = MSeed3Header::from_bytes(&get_dummy_header()).unwrap();
    header.crc = 0;
    let samples: Vec<i16> = (0..500)
        .map(|i: i32| (((i * 37) % 1000) - 500) as i16)
        .collect();
    let identifier = SourceIdentifier::from("XFDSN:XX_TEST__L_H_Z");
    let mut record = MSeed3Record::new(
        header,
        identifier,
        ExtraHeaders::new(),
        EncodedTimeseries::Int16(samples.clone()),
    );
    assert_eq!(record.get_record_size(), 1060);
    assert_eq!(record.header.raw_data_length(), 1000);
    let out = written(&mut record);
    assert_eq!(out.len(), 1060);
    assert_eq!(record.header.num_samples, 500);
    assert_eq!(out[0..4], [0x4d, 0x53, 0x03, 0x04]);
    assert_eq!(out[0..28], get_dummy_header()[0..28]);
    assert_eq!(out[32..60], get_dummy_header()[32..60]);
    assert_eq!(&out[60..64], &[(-500i16).to_le_bytes(), (-463i16).to_le_bytes()].concat());
    let mut read = MSeed3Record::from_reader(&mut &out[..])?;
    assert_eq!(read.header.crc, record.header.crc);
    assert_eq!(read.header.raw_data_length(), 2 * read.header.num_samples);
    assert_eq!(read.identifier, SourceIdentifier::Raw(String::from("XFDSN:XX_TEST__L_H_Z")));
    assert_eq!(written(&mut read), out);
    Ok(())
}

#[test]
fn payloads() {
    let payloads = [
        (EncodedTimeseries::Raw(vec![1, 2, 3]), 3, vec![1, 2, 3], "Raw bytes, 3 bytes"),
        (
            EncodedTimeseries::Int16(vec![1, -2]),
            4,
            vec![1, 0, 0xfe, 0xff],
            "Int16, 2 samples",
        ),
        (
            EncodedTimeseries::Int32(vec![1, -2]),
            8,
            vec![1, 0, 0, 0, 0xfe, 0xff, 0xff, 0xff],
            "Int32, 2 samples",
        ),
        (
            EncodedTimeseries::Float32(vec![1.0_f32.to_bits()]),
            4,
            vec![0, 0, 0x80, 0x3f],
            "Float32, 1 samples",
        ),
        (
            EncodedTimeseries::Float64(vec![1.0_f64.to_bits(), (-2.0_f64).to_bits()]),
            16,
            vec![0, 0, 0, 0, 0, 0, 0xf0, 0x3f, 0, 0, 0, 0, 0, 0, 0, 0xc0],
            "Float64, 2 samples",
        ),
        (EncodedTimeseries::Steim1(vec![9; 64]), 64, vec![9; 64], "Steim1, 64 bytes"),
        (EncodedTimeseries::Steim2(vec![8; 64]), 64, vec![8; 64], "Steim2, 64 bytes"),
        (EncodedTimeseries::Steim3(vec![7; 64]), 64, vec![7; 64], "Steim3, 64 bytes"),
        (EncodedTimeseries::Opaque(vec![]), 0, vec![], "Opaque, 0 bytes"),
    ];
    for (payload, length, bytes, words) in payloads {
        assert!(payload.fits());
        assert_eq!(payload.byte_len(), length);
        let mut out = vec![0xaa];
        payload.write_to(&mut out);
        assert_eq!(out[0], 0xaa);
        assert_eq!(&out[1..], &bytes);
        assert_eq!(payload.to_string(), words);
        let count = match payload {
            EncodedTimeseries::Int16(_) | EncodedTimeseries::Int32(_) => 2,
            EncodedTimeseries::Float32(_) => 1,
            EncodedTimeseries::Float64(_) => 2,
            _ => 77,
        };
        assert_eq!(payload.reconcile_num_samples(77), count);
    }
}

#[test]
fn no_samples_and_no_payload() -> Result<(), MSeedError> {
    let mut record = MSeed3Record::from_ints(start_2014(), 1.0_f64.to_bits(), vec![]);
    let out = written(&mut record);
    assert_eq!(out.len(), 60);
    assert_eq!(record.header.num_samples, 0);
    assert_eq!(record.header.raw_data_length(), 0);
    let read = MSeed3Record::from_reader(&mut &out[..])?;
    assert_eq!(read.header.num_samples, 0);
    assert_eq!(read.encoded_data, EncodedTimeseries::Raw(vec![]));
    Ok(())
}

#[test]
fn unknown_encoding_passes_through() -> Result<(), MSeedError> {
    let mut header = MSeed3Header::new(start_2014(), DataEncoding::UNKNOWN(42), 0, 5);
    header.flags = 0x81;
    header.publication_version = 3;
    let mut record = MSeed3Record::new(
        header,
        SourceIdentifier::from("x"),
        ExtraHeaders::new(),
        EncodedTimeseries::Opaque(vec![1, 2, 3]),
    );
    let out = written(&mut record);
    assert_eq!(out.len(), 44);
    assert_eq!(out[15], 42);
    let mut read = MSeed3Record::from_reader(&mut &out[..])?;
    assert_eq!(read.header.encoding, DataEncoding::UNKNOWN(42));
    // the sample count of the header is kept, as it cannot be checked
    assert_eq!(read.header.num_samples, 5);
    assert_eq!(read.header.flags, 0x81);
    assert_eq!(read.header.publication_version, 3);
    assert_eq!(read.encoded_data, EncodedTimeseries::Raw(vec![1, 2, 3]));
    assert_eq!(written(&mut read), out);
    Ok(())
}

#[test]
fn steim1_payload_in_a_record() -> Result<(), MSeedError> {
    let samples = [1, -1, -1, -1, 200, -300, 16000, -18000, 20000, -40000];
    let block = mseed3::steim1::encode(&samples, 0)?;
    let header = MSeed3Header::new(
        start_2014(),
        DataEncoding::STEIM1,
        40.0_f64.to_bits(),
        block.num_samples,
    );
    let mut record = MSeed3Record::new(
        header,
        SourceIdentifier::from("FDSN:IU_COLA_00_B_H_Z"),
        ExtraHeaders::new(),
        EncodedTimeseries::Steim1(block.get_encoded_data()?),
    );
    let out = written(&mut record);
    assert_eq!(out.len(), 40 + 21 + 64);
    let read = MSeed3Record::from_reader(&mut &out[..])?;
    assert_eq!(read.header.num_samples, 10);
    match read.encoded_data {
        EncodedTimeseries::Raw(bytes) => {
            assert_eq!(mseed3::steim1::decode(&bytes, read.header.num_samples)?, samples)
        }
        other => panic!("{:?}", other),
    }
    Ok(())
}

#[test]
fn records_that_do_not_fit() {
    let too_long = MSeedError::Unknown(String::from("record is longer than its header can say"));
    let mut record = tiny_record(ExtraHeaders::new());
    record.identifier = SourceIdentifier::from("i".repeat(256).as_str());
    let before = record.header.clone();
    let mut out = vec![1, 2];
    assert!(!record.check_fits());
    assert_eq!(record.write_to(&mut out).err(), Some(too_long.clone()));
    assert_eq!(out, vec![1, 2]);
    assert_eq!(record.header, before);
    assert_eq!(record.write_to_wocrc(&mut out).err(), Some(too_long.clone()));
    assert_eq!(out, vec![1, 2]);

    let mut record = tiny_record(ExtraHeaders::Raw(format!("{{\"a\":\"{}\"}}", "x".repeat(65527))));
    assert!(record.check_fits());
    assert_eq!(record.header.raw_extra_headers_length(), 65535);
    assert_eq!(written(&mut record).len(), 101 + 65535);
    let mut record = tiny_record(ExtraHeaders::new());
    record.extra_headers = ExtraHeaders::Raw(format!("{{\"a\":\"{}\"}}", "x".repeat(65528)));
    assert!(!record.check_fits());
    assert_eq!(record.write_to(&mut out).err(), Some(too_long.clone()));
    assert_eq!(
        MSeed3Record::try_new(
            record.header.clone(),
            record.identifier.clone(),
            record.extra_headers.clone(),
            record.encoded_data.clone(),
        )
        .err(),
        Some(too_long.clone())
    );
    assert_eq!(
        MSeed3Record::try_new(
            record.header.clone(),
            SourceIdentifier::from("i".repeat(256).as_str()),
            ExtraHeaders::new(),
            record.encoded_data.clone(),
        )
        .err(),
        Some(too_long)
    );

    let mut record = tiny_record(ExtraHeaders::new());
    record.identifier = SourceIdentifier::from("i".repeat(255).as_str());
    assert!(record.check_fits());
    let bytes = written(&mut record);
    assert_eq!(bytes.len(), 40 + 255 + 40);
    assert_eq!(bytes[33], 255);
    let read = MSeed3Record::from_reader(&mut &bytes[..]).unwrap();
    assert_eq!(read.identifier, record.identifier);
}

#[test]
fn writing_without_crc_keeps_the_crc_of_the_header() {
    let mut record = tiny_record(ExtraHeaders::new());
    record.header.crc = 0x0403_0201;
    record.header.num_samples = 99;
    record.header.data_length = 1;
    let mut out = Vec::new();
    record.write_to_wocrc(&mut out).unwrap();
    assert_eq!(out.len(), 101);
    assert_eq!(&out[28..32], &[1, 2, 3, 4]);
    assert_eq!(record.header.num_samples, 10);
    assert_eq!(record.header.raw_data_length(), 40);
    let mut stamped = vec![0xee];
    write_stamped(&out, 0x29ED3283, &mut stamped);
    assert_eq!(&stamped[1..], &written(&mut record));
}

#[test]
fn a_new_record_has_its_lengths_in_its_header() {
    let text = "{\"a\":[1,2,3]}";
    let mut header = MSeed3Header::new(start_2014(), DataEncoding::FLOAT64, 1.0_f64.to_bits(), 99);
    header.crc = 5;
    let record = MSeed3Record::new(
        header.clone(),
        SourceIdentifier::from("FDSN:XX_TEST__L_H_Z"),
        ExtraHeaders::Raw(String::from(text)),
        EncodedTimeseries::Float64(vec![0, 1, 2]),
    );
    assert_eq!(record.header.raw_identifier_length(), 19);
    assert_eq!(record.header.raw_extra_headers_length(), 13);
    assert_eq!(record.header.raw_data_length(), 24);
    assert_eq!(record.header.num_samples, 3);
    assert_eq!(record.header.crc, 5);
    assert_eq!(record.get_record_size(), 40 + 19 + 13 + 24);
    // a compressed payload keeps the sample count of the header
    let record = MSeed3Record::try_new(
        header,
        SourceIdentifier::from("FDSN:XX_TEST__L_H_Z"),
        ExtraHeaders::Raw(String::from("{}")),
        EncodedTimeseries::Steim2(vec![0; 128]),
    )
    .unwrap();
    assert_eq!(record.header.raw_extra_headers_length(), 0);
    assert_eq!(record.header.raw_data_length(), 128);
    assert_eq!(record.header.num_samples, 99);
}
