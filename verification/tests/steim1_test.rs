use mseed3::steim1::{decode, differences, encode, extract_samples, ok_i16, ok_i8, ByFours, Steim1Word};
use mseed3::{MSeedError, SteimFrame, SteimFrameBlock};

#[test]
fn diff_iter() {
    let data = [1, -1, -1, -1, 20, -300, 160, -18000];
    let diff_iter = differences(&data);
    assert_eq!(diff_iter[0], data[0]);
    for i in 1..data.len() {
        assert_eq!(diff_iter[i], data[i] - data[i - 1]);
    }
}

#[test]
fn by_four() -> Result<(), MSeedError> {
    let data = [1, -1, -1, -1, 20, -300, 160, -18000];
    let diff_iter = differences(&data);
    let mut found = 0;
    let mut byfour = ByFours::new(diff_iter);

    if let Steim1Word::One(_) = byfour.next().unwrap() {
        // first should be single
        found += 1;
        if let Steim1Word::Four(_, _, _, _) = byfour.next().unwrap() {
            // next 4 1-byte values, -1, -1, -1, 20
            found += 4;
            if let Steim1Word::Two(_, _) = byfour.next().unwrap() {
                // next 2 2-byte values, -300, 160
                found += 2;
                if let Steim1Word::One(_) = byfour.next().unwrap() {
                    // then single value -18000
                    found += 1;
                }
            }
        }
    }
    assert_eq!(found, data.len());
    return Ok(());
}

#[test]
fn data_round_trip() -> Result<(), MSeedError> {
    let data = [1, -1, -1, -1, 200, -300, 16000, -18000, 20000, -40000];
    let frame_block = encode(&data, 0)?;
    assert_eq!(data.len(), frame_block.num_samples);
    assert_ne!(frame_block.steim_frame.len(), 0);
    assert_eq!(
        data[0],
        i32::from_be_bytes(frame_block.steim_frame[0].words[0].to_be_bytes())
    );
    let enc_bytes = &frame_block.get_encoded_data()?;
    assert_eq!(enc_bytes[4], 0);
    assert_eq!(enc_bytes[5], 0);
    assert_eq!(enc_bytes[6], 0);
    assert_eq!(enc_bytes[7], 1);
    let frame_data = extract_samples(&enc_bytes[0..64], 0)?;
    assert_eq!(frame_data[0], 1);
    assert_eq!(frame_data[1], -40000); // last sample
    for i in 2..frame_data.len() {
        assert_eq!(frame_data[i], data[i - 1] - data[i - 2], "i: {} ", i);
    }
    let rt_data = decode(
        &frame_block.get_encoded_data()?,
        frame_block.num_samples as u32,
    )?;
    assert_eq!(rt_data.len(), data.len());
    let mut idx = 0;
    for pair in rt_data.iter().zip(data.iter()) {
        assert_eq!(pair.0, pair.1, " index {}", idx);
        idx += 1;
    }
    Ok(())
}

#[test]
fn reverse_integration_constant() -> Result<(), MSeedError> {
    let mut frame_block = SteimFrameBlock::new(1);
    frame_block.steim_frame.push(SteimFrame::new());
    frame_block.reverse_integration_constant(1);
    let enc_data = frame_block.get_encoded_data()?;
    assert_eq!(enc_data[8], 0 as u8);
    assert_eq!(enc_data[9], 0 as u8);
    assert_eq!(enc_data[10], 0 as u8);
    assert_eq!(enc_data[11], 1 as u8);
    Ok(())
}

fn round_trip(data: &[i32], frames: usize) -> Result<Vec<i32>, MSeedError> {
    let block = encode(data, frames)?;
    decode(&block.get_encoded_data()?, block.num_samples as u32)
}

#[test]
fn widths() {
    assert!(ok_i8(127) && ok_i8(-128) && !ok_i8(128) && !ok_i8(-129));
    assert!(ok_i16(32767) && ok_i16(-32768) && !ok_i16(32768) && !ok_i16(-32769));
}

#[test]
fn encode_of_nothing_fails() {
    assert_eq!(
        encode(&[], 0).err(),
        Some(MSeedError::Compression(String::from("samples array is zero size")))
    );
}

#[test]
fn single_sample_is_both_integration_constants() -> Result<(), MSeedError> {
    let block = encode(&[-7], 0)?;
    assert_eq!(block.num_samples, 1);
    assert_eq!(block.steim_version, 1);
    assert_eq!(block.steim_frame.len(), 1);
    let bytes = block.get_encoded_data()?;
    assert_eq!(bytes.len(), 64);
    // no data word is tagged
    assert_eq!(&bytes[0..4], &[0, 0, 0, 0]);
    assert_eq!(&bytes[4..8], &(-7i32).to_be_bytes());
    assert_eq!(&bytes[8..12], &(-7i32).to_be_bytes());
    assert!(bytes[12..].iter().all(|b| *b == 0));
    assert_eq!(decode(&bytes, 1)?, vec![-7]);
    Ok(())
}

#[test]
fn frame_layout_is_big_endian_with_tags_from_the_top() -> Result<(), MSeedError> {
    // differences: 10 | 1 2 3 -4 | 300 -300 | 70000
    let data = [10, 11, 13, 16, 12, 312, 12, 70012];
    let block = encode(&data, 0)?;
    let bytes = block.get_encoded_data()?;
    assert_eq!(bytes.len(), 64);
    // c(0)=0 c(1)=0 c(2)=0 c(3)=1 | c(4)=2 c(5)=3 c(6)=0 c(7)=0 | 0 | 0
    assert_eq!(&bytes[0..4], &[0b0000_0001, 0b1011_0000, 0, 0]);
    assert_eq!(&bytes[4..8], &10i32.to_be_bytes());
    assert_eq!(&bytes[8..12], &70012i32.to_be_bytes());
    assert_eq!(&bytes[12..16], &[1, 2, 3, 0xfc]);
    assert_eq!(&bytes[16..20], &[0x01, 0x2c, 0xfe, 0xd4]);
    assert_eq!(&bytes[20..24], &70000i32.to_be_bytes());
    assert!(bytes[24..].iter().all(|b| *b == 0));
    assert_eq!(block.steim_frame[0].nibbles, 0x01b0_0000);
    assert!(!block.steim_frame[0].is_empty());
    assert!(SteimFrame::new().is_empty());
    assert_eq!(decode(&bytes, 8)?, data.to_vec());
    Ok(())
}

#[test]
fn words_are_chosen_by_what_fits() {
    let words = |diffs: Vec<i32>| {
        let mut by_fours = ByFours::new(diffs);
        let mut words = Vec::new();
        while let Some(word) = by_fours.next() {
            words.push(word);
        }
        words
    };
    assert_eq!(words(vec![]), vec![]);
    assert_eq!(words(vec![5]), vec![Steim1Word::One(5)]);
    // the first word is always a single value
    assert_eq!(
        words(vec![1, 2, 3, 4, 5]),
        vec![Steim1Word::One(1), Steim1Word::Four(2, 3, 4, 5)]
    );
    // four values of which one needs 16 bits: no partial packing
    assert_eq!(
        words(vec![0, 1, 2, 3, 128]),
        vec![Steim1Word::One(0), Steim1Word::Two(1, 2), Steim1Word::Two(3, 128)]
    );
    // trailing groups of three, two and one: no word is padded
    assert_eq!(
        words(vec![0, 1, 2, 3]),
        vec![Steim1Word::One(0), Steim1Word::Two(1, 2), Steim1Word::One(3)]
    );
    assert_eq!(
        words(vec![0, 1, 2, 3, 4, 5, 6, 7]),
        vec![
            Steim1Word::One(0),
            Steim1Word::Four(1, 2, 3, 4),
            Steim1Word::Two(5, 6),
            Steim1Word::One(7)
        ]
    );
    assert_eq!(
        words(vec![0, 1, 2]),
        vec![Steim1Word::One(0), Steim1Word::Two(1, 2)]
    );
    assert_eq!(
        words(vec![0, 1]),
        vec![Steim1Word::One(0), Steim1Word::One(1)]
    );
    assert_eq!(
        words(vec![0, 40000, 1]),
        vec![Steim1Word::One(0), Steim1Word::One(40000), Steim1Word::One(1)]
    );
    assert_eq!(Steim1Word::Four(1, 2, 3, 4).num_samples(), 4);
    assert_eq!(Steim1Word::Two(1, 2).num_samples(), 2);
    assert_eq!(Steim1Word::One(1).num_samples(), 1);
}

#[test]
fn add_to_frame_stores_word_and_tag() {
    let mut frame = SteimFrame::new();
    assert_eq!(Steim1Word::Four(1, -1, 2, -2).add_to_frame(&mut frame, 2), 3);
    assert_eq!(Steim1Word::Four(1, -1, 2, 0).add_to_frame(&mut frame, 3), 4);
    assert_eq!(Steim1Word::Two(258, -2).add_to_frame(&mut frame, 4), 5);
    assert_eq!(Steim1Word::One(-2).add_to_frame(&mut frame, 14), 15);
    assert_eq!(frame.words[2], 0x01ff_02fe);
    assert_eq!(frame.words[3], 0x01ff_0200);
    assert_eq!(frame.words[4], 0x0102_fffe);
    assert_eq!(frame.words[14], 0xffff_fffe);
    assert_eq!(frame.nibbles, (1 << 24) | (1 << 22) | (2 << 20) | 3);
    // a tag is replaced, not added to
    frame.set_word(7, 2, 14);
    assert_eq!(frame.words[14], 7);
    assert_eq!(frame.nibbles, (1 << 24) | (1 << 22) | (2 << 20) | 2);
}

#[test]
fn many_frames_round_trip() -> Result<(), MSeedError> {
    let mut data: Vec<i32> = Vec::new();
    let mut x: i32 = 0;
    for i in 0..1001 {
        x += match i % 7 {
            0 => 1,
            1 => -3,
            2 => 250,
            3 => -40000,
            4 => 70000,
            5 => -1,
            _ => 9,
        };
        data.push(x);
    }
    let block = encode(&data, 0)?;
    assert_eq!(block.num_samples, data.len());
    assert!(block.steim_frame.len() > 1);
    let bytes = block.get_encoded_data()?;
    assert_eq!(bytes.len(), 64 * block.steim_frame.len());
    assert_eq!(decode(&bytes, data.len() as u32)?, data);
    Ok(())
}

#[test]
fn wrapping_differences_round_trip() -> Result<(), MSeedError> {
    let data = [i32::MAX, i32::MIN, 0, i32::MIN, i32::MAX, -1, 5];
    assert_eq!(differences(&data)[1], 1);
    assert_eq!(round_trip(&data, 0)?, data.to_vec());
    Ok(())
}

#[test]
fn frame_limit_drops_the_tail() -> Result<(), MSeedError> {
    // every difference needs a word of its own
    let data: Vec<i32> = (0..100).map(|i| i * 100_000).collect();
    let one = encode(&data, 1)?;
    assert_eq!(one.steim_frame.len(), 1);
    assert_eq!(one.num_samples, 14);
    assert_eq!(one.steim_frame[0].words[1], 1_300_000);
    assert_eq!(
        decode(&one.get_encoded_data()?, 14)?,
        data[0..14].to_vec()
    );
    let two = encode(&data, 2)?;
    assert_eq!(two.steim_frame.len(), 2);
    assert_eq!(two.num_samples, 29);
    assert_eq!(
        decode(&two.get_encoded_data()?, 29)?,
        data[0..29].to_vec()
    );
    // a limit that is not reached
    let all = encode(&data, 50)?;
    assert_eq!(all.num_samples, 100);
    assert_eq!(all.steim_frame.len(), 7);
    assert_eq!(decode(&all.get_encoded_data()?, 100)?, data);
    Ok(())
}

#[test]
fn a_frame_that_is_just_full_is_the_only_one() -> Result<(), MSeedError> {
    let data: Vec<i32> = (0..14).map(|i| i * 100_000).collect();
    let block = encode(&data, 0)?;
    assert_eq!(block.steim_frame.len(), 1);
    assert_eq!(block.num_samples, 14);
    assert_eq!(round_trip(&data, 0)?, data);
    Ok(())
}

#[test]
fn trailing_groups_round_trip() -> Result<(), MSeedError> {
    // one difference left
    assert_eq!(round_trip(&[5, 6], 0)?, vec![5, 6]);
    // two differences left
    assert_eq!(round_trip(&[5, 6, 8], 0)?, vec![5, 6, 8]);
    // three differences left, of which one does not fit in a byte
    assert_eq!(round_trip(&[5, 6, 8, 1000], 0)?, vec![5, 6, 8, 1000]);
    // three differences left that fit in a byte each
    assert_eq!(round_trip(&[1, 2, 3, 4], 0)?, vec![1, 2, 3, 4]);
    assert_eq!(round_trip(&[0, 1, 2, 3], 0)?, vec![0, 1, 2, 3]);
    assert_eq!(round_trip(&[0, 0, 0, 0], 0)?, vec![0, 0, 0, 0]);
    // four, then three, two and one
    for n in 1..=12 {
        let data: Vec<i32> = (0..n).map(|i| 7 - 3 * i).collect();
        assert_eq!(round_trip(&data, 0)?, data, "{} samples", n);
        assert_eq!(encode(&data, 0)?.num_samples, data.len());
    }
    Ok(())
}

#[test]
fn three_trailing_bytes_take_two_words() -> Result<(), MSeedError> {
    let block = encode(&[1, 2, 3, 4], 0)?;
    assert_eq!(block.num_samples, 4);
    let bytes = block.get_encoded_data()?;
    // w(3) is tagged 2 and holds two differences, w(4) is tagged 3 and holds one
    assert_eq!(&bytes[0..4], &[0b0000_0010, 0b1100_0000, 0, 0]);
    assert_eq!(&bytes[12..16], &[0, 1, 0, 1]);
    assert_eq!(&bytes[16..20], &[0, 0, 0, 1]);
    assert!(bytes[20..].iter().all(|b| *b == 0));
    assert_eq!(extract_samples(&bytes, 0)?, vec![1, 4, 1, 1, 1]);
    assert_eq!(decode(&bytes, 4)?, vec![1, 2, 3, 4]);
    // a word is tagged 1 only where four differences fit a byte each
    let block = encode(&[1, 2, 3, 4, 5], 0)?;
    let bytes = block.get_encoded_data()?;
    assert_eq!(&bytes[0..4], &[0b0000_0001, 0, 0, 0]);
    assert_eq!(&bytes[12..16], &[1, 1, 1, 1]);
    assert_eq!(decode(&bytes, 5)?, vec![1, 2, 3, 4, 5]);
    Ok(())
}

#[test]
fn a_word_of_four_bytes_reads_as_four_differences() -> Result<(), MSeedError> {
    // three bytes and a zero byte under tag 1 are four differences
    let mut bytes = vec![0u8; 64];
    bytes[0..4].copy_from_slice(&(1u32 << 24).to_be_bytes());
    bytes[7] = 1;
    bytes[11] = 4;
    bytes[12..16].copy_from_slice(&[1, 1, 1, 0]);
    assert_eq!(extract_samples(&bytes, 0)?, vec![1, 4, 1, 1, 1, 0]);
    assert_eq!(decode(&bytes, 5)?, vec![1, 2, 3, 4, 4]);
    assert_eq!(
        decode(&bytes, 4).err(),
        Some(MSeedError::Compression(String::from(
            "number of samples decompressed doesn't match number in header"
        )))
    );
    Ok(())
}

#[test]
fn decode_rejects_what_is_no_frame_block() -> Result<(), MSeedError> {
    let length = MSeedError::Compression(String::from(
        "encoded data length is not a positive multiple of 64 bytes",
    ));
    assert_eq!(decode(&[], 0).err(), Some(length.clone()));
    assert_eq!(decode(&[0; 63], 1).err(), Some(length.clone()));
    assert_eq!(decode(&[0; 65], 1).err(), Some(length));
    let mut bytes = encode(&[3, 4, 5], 0)?.get_encoded_data()?;
    assert_eq!(decode(&bytes, 3)?, vec![3, 4, 5]);
    assert_eq!(
        decode(&bytes, 2).err(),
        Some(MSeedError::Compression(String::from(
            "number of samples decompressed doesn't match number in header"
        )))
    );
    // another reverse integration constant
    bytes[11] = 6;
    assert_eq!(
        decode(&bytes, 3).err(),
        Some(MSeedError::Compression(String::from(
            "last sample decompressed doesn't match the reverse integration constant"
        )))
    );
    assert_eq!(
        extract_samples(&bytes, 1).err(),
        Some(MSeedError::Compression(String::from(
            "frame reaches beyond the end of the data"
        )))
    );
    Ok(())
}

#[test]
fn later_frames_hold_no_integration_constants() -> Result<(), MSeedError> {
    let mut bytes = vec![0u8; 128];
    // first frame: X0 = 5, XN = 9, one difference of 1
    bytes[0..4].copy_from_slice(&(3u32 << 24).to_be_bytes());
    bytes[7] = 5;
    bytes[11] = 9;
    bytes[15] = 1;
    // second frame: w(1) untagged and ignored, w(2) holds two differences
    bytes[64..68].copy_from_slice(&(2u32 << 26).to_be_bytes());
    bytes[71] = 77;
    bytes[72..76].copy_from_slice(&[0, 1, 0, 2]);
    assert_eq!(extract_samples(&bytes, 0)?, vec![5, 9, 1]);
    assert_eq!(extract_samples(&bytes, 64)?, vec![1, 2]);
    assert_eq!(decode(&bytes, 4)?, vec![5, 6, 7, 9]);
    Ok(())
}
