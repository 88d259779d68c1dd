//! The Steim-1 codec: first differences of 32 bit samples, packed into the
//! data words of 64 byte frames as one 32 bit, two 16 bit or four 8 bit
//! values; and back.
//!
//! Differences and running sums are taken in wrapping 32 bit arithmetic, so
//! that every sequence of samples can be encoded and every well-formed frame
//! block can be decoded.

use crate::bytes::{
    be_u16_at, be_u16_from, be_u32_at, be_u32_from, bits_of_i16, bits_of_i32, bits_of_i8,
    i16_from_bits, i16_of_bits, i16_to_bits, i32_from_bits, i32_of_bits, i32_to_bits, i8_from_bits,
    i8_of_bits, i8_to_bits,
};
use crate::mseed_error::MSeedError;
use crate::steim_frame_block::{lemma_with_tag, tag_in, with_tag, SteimFrame, SteimFrameBlock};
use std::collections::VecDeque;
use vstd::prelude::*;
use vstd::string::StringExecFns;
use vstd::wrapping::i32_specs::{wrapping_add, wrapping_sub};

verus! {

// ---------------------------------------------------------------------------
// Widths
// ---------------------------------------------------------------------------
/// Whether `v` can be written as a signed byte.
pub open spec fn fits_i8(v: i32) -> bool {
    -128 <= v <= 127
}

/// Whether `v` can be written as a signed 16 bit integer.
pub open spec fn fits_i16(v: i32) -> bool {
    -32768 <= v <= 32767
}

/// Whether `v` can be written as a signed byte.
pub fn ok_i8(v: i32) -> (ok: bool)
    ensures
        ok == fits_i8(v),
{
    -128 <= v && v <= 127
}

/// Whether `v` can be written as a signed 16 bit integer.
pub fn ok_i16(v: i32) -> (ok: bool)
    ensures
        ok == fits_i16(v),
{
    -32768 <= v && v <= 32767
}

// ---------------------------------------------------------------------------
// Decoding
// ---------------------------------------------------------------------------
/// The values that data word `w(slot)` of the frame at byte `offset` stands
/// for.  A word tagged 1 holds four signed bytes, one tagged 2 two signed 16
/// bit integers, one tagged 3 one signed 32 bit integer.  A word tagged 0
/// holds nothing, except for the first two words of the frame at offset 0,
/// which hold the integration constants.
pub open spec fn slot_values(bytes: Seq<u8>, offset: int, slot: int) -> Seq<i32> {
    let tag = tag_in(be_u32_at(bytes, offset), slot);
    let at = offset + 4 * slot;
    if tag == 1 {
        seq![
            i8_of_bits(bytes[at]) as i32,
            i8_of_bits(bytes[at + 1]) as i32,
            i8_of_bits(bytes[at + 2]) as i32,
            i8_of_bits(bytes[at + 3]) as i32,
        ]
    } else if tag == 2 {
        seq![
            i16_of_bits(be_u16_at(bytes, at)) as i32,
            i16_of_bits(be_u16_at(bytes, at + 2)) as i32,
        ]
    } else if tag == 3 {
        seq![i32_of_bits(be_u32_at(bytes, at))]
    } else if offset == 0 && slot <= 2 {
        seq![i32_of_bits(be_u32_at(bytes, at))]
    } else {
        Seq::empty()
    }
}

/// The values of data words `w(1)..w(slots)` of the frame at byte `offset`,
/// in order.
pub open spec fn frame_values(bytes: Seq<u8>, offset: int, slots: int) -> Seq<i32>
    decreases slots,
{
    if slots <= 0 {
        Seq::empty()
    } else {
        frame_values(bytes, offset, slots - 1) + slot_values(bytes, offset, slots)
    }
}

/// The values of the first `frames` frames of a block, in order.
pub open spec fn block_values(bytes: Seq<u8>, frames: int) -> Seq<i32>
    decreases frames,
{
    if frames <= 0 {
        Seq::empty()
    } else {
        block_values(bytes, frames - 1) + frame_values(bytes, 64 * (frames - 1), 15)
    }
}

/// `start` plus the first `k` of `diffs`, in wrapping arithmetic.
pub open spec fn integrated(start: i32, diffs: Seq<i32>, k: int) -> i32
    decreases k,
{
    if k <= 0 {
        start
    } else {
        wrapping_add(integrated(start, diffs, k - 1), diffs[k - 1])
    }
}

/// The samples that a frame block stands for: its first value is the first
/// sample, its second value is the last sample, kept for checking, and each
/// further value is the difference of a sample to the one before.
pub open spec fn decoded(bytes: Seq<u8>) -> Seq<i32> {
    let values = block_values(bytes, bytes.len() as int / 64);
    Seq::new((values.len() - 1) as nat, |k: int| integrated(values[0], values.skip(2), k))
}

/// Whether `bytes` is a frame block of `num_samples` samples: a positive
/// number of whole frames, with as many samples as declared, the last of
/// which is the reverse integration constant.
pub open spec fn decodes(bytes: Seq<u8>, num_samples: int) -> bool {
    &&& bytes.len() > 0
    &&& bytes.len() % 64 == 0
    &&& decoded(bytes).len() == num_samples
    &&& decoded(bytes).last() == block_values(bytes, bytes.len() as int / 64)[1]
}

/// Every data word holds at most four values.
pub proof fn lemma_frame_values_len(bytes: Seq<u8>, offset: int, slots: int)
    requires
        0 <= slots <= 15,
    ensures
        frame_values(bytes, offset, slots).len() <= 4 * slots,
        offset == 0 && slots >= 2 ==> frame_values(bytes, offset, slots).len() >= 2,
        offset == 0 && slots >= 1 ==> frame_values(bytes, offset, slots).len() >= 1,
    decreases slots,
{
    if slots > 0 {
        lemma_frame_values_len(bytes, offset, slots - 1);
    }
}

/// The first frame alone holds at least the two integration constants.
pub proof fn lemma_block_values_len(bytes: Seq<u8>, frames: int)
    requires
        1 <= frames,
    ensures
        block_values(bytes, frames).len() >= 2,
    decreases frames,
{
    if frames == 1 {
        lemma_frame_values_len(bytes, 0, 15);
        assert(block_values(bytes, 0) =~= Seq::<i32>::empty());
    } else {
        lemma_block_values_len(bytes, frames - 1);
    }
}

/// The values of fewer frames are a prefix of the values of more frames.
pub proof fn lemma_block_values_prefix(bytes: Seq<u8>, fewer: int, frames: int)
    requires
        0 <= fewer <= frames,
    ensures
        block_values(bytes, fewer).len() <= block_values(bytes, frames).len(),
        block_values(bytes, fewer) == block_values(bytes, frames).take(
            block_values(bytes, fewer).len() as int,
        ),
    decreases frames - fewer,
{
    if fewer < frames {
        lemma_block_values_prefix(bytes, fewer, frames - 1);
    }
    assert(block_values(bytes, fewer) =~= block_values(bytes, frames).take(
        block_values(bytes, fewer).len() as int,
    ));
}

/// Extracts the values of the frame of 64 bytes that starts at `offset`: the
/// differences that its data words hold and, for the frame at offset 0, the
/// two integration constants before them.  Fails if `bytes` does not hold a
/// whole frame there.
pub fn extract_samples(bytes: &[u8], offset: usize) -> (values: Result<Vec<i32>, MSeedError>)
    ensures
        match values {
            Ok(v) => offset + 64 <= bytes@.len() && v@ == frame_values(bytes@, offset as int, 15),
            Err(MSeedError::Compression(m)) => offset + 64 > bytes@.len() && m@
                == "frame reaches beyond the end of the data"@,
            Err(_) => false,
        },
{
    if bytes.len() < 64 || offset > bytes.len() - 64 {
        return Err(
            MSeedError::Compression(String::from_str("frame reaches beyond the end of the data")),
        );
    }
    let nibbles = be_u32_from(bytes, offset);
    let mut temp: Vec<i32> = Vec::new();
    let mut i: usize = 1;
    while i < 16
        invariant
            1 <= i <= 16,
            offset + 64 <= bytes.len(),
            nibbles == be_u32_at(bytes@, offset as int),
            temp@ == frame_values(bytes@, offset as int, i - 1),
        decreases 16 - i,
    {
        let shift: u32 = 30 - 2 * (i as u32);
        let curr_nibble = (nibbles >> shift) & 3;
        assert(curr_nibble == tag_in(nibbles, i as int));
        assert(curr_nibble <= 3) by {
            lemma_with_tag(nibbles, 0, 0, i as int);
        }
        let offset_idx = offset + 4 * i;
        let ghost before = temp@;
        if curr_nibble == 1 {
            temp.push(i8_from_bits(bytes[offset_idx]) as i32);
            temp.push(i8_from_bits(bytes[offset_idx + 1]) as i32);
            temp.push(i8_from_bits(bytes[offset_idx + 2]) as i32);
            temp.push(i8_from_bits(bytes[offset_idx + 3]) as i32);
        } else if curr_nibble == 2 {
            temp.push(i16_from_bits(be_u16_from(bytes, offset_idx)) as i32);
            temp.push(i16_from_bits(be_u16_from(bytes, offset_idx + 2)) as i32);
        } else if curr_nibble == 3 {
            temp.push(i32_from_bits(be_u32_from(bytes, offset_idx)));
        } else if offset == 0 && (i == 1 || i == 2) {
            temp.push(i32_from_bits(be_u32_from(bytes, offset_idx)));
        }
        assert(temp@ =~= before + slot_values(bytes@, offset as int, i as int));
        i += 1;
    }
    Ok(temp)
}

/// What decoding fails with on bytes that are no frame block of
/// `num_samples` samples.
pub open spec fn decode_failure(bytes: Seq<u8>, num_samples: int) -> Seq<char> {
    if bytes.len() == 0 || bytes.len() % 64 != 0 {
        "encoded data length is not a positive multiple of 64 bytes"@
    } else if decoded(bytes).len() != num_samples {
        "number of samples decompressed doesn't match number in header"@
    } else {
        "last sample decompressed doesn't match the reverse integration constant"@
    }
}

/// Decodes the frame block `b`, which is to hold `num_samples` samples.
///
/// Fails unless `b` is a positive number of whole frames that hold exactly
/// `num_samples` samples, the last of which equals the reverse integration
/// constant of the first frame.
pub fn decode_with_bias(b: &[u8], num_samples: u32) -> (samples: Result<Vec<i32>, MSeedError>)
    ensures
        samples is Ok <==> decodes(b@, num_samples as int),
        match samples {
            Ok(s) => s@ == decoded(b@),
            Err(MSeedError::Compression(m)) => m@ == decode_failure(b@, num_samples as int),
            Err(_) => false,
        },
{
    if b.len() == 0 || b.len() % 64 != 0 {
        return Err(
            MSeedError::Compression(
                String::from_str("encoded data length is not a positive multiple of 64 bytes"),
            ),
        );
    }
    let nsamp = num_samples as usize;
    let mut samples: Vec<i32> = Vec::new();
    let num_frames = b.len() / 64;
    let mut start: i32 = 0;
    let mut end: i32 = 0;
    let mut last_value: i32 = 0;
    let ghost total = block_values(b@, num_frames as int);
    proof {
        lemma_block_values_len(b@, num_frames as int);
        assert(block_values(b@, 0) =~= Seq::<i32>::empty());
    }
    let mut i: usize = 0;
    while i < num_frames
        invariant
            i <= num_frames,
            num_frames == b.len() / 64,
            b.len() % 64 == 0,
            total == block_values(b@, num_frames as int),
            total.len() >= 2,
            i == 0 ==> samples@.len() == 0,
            i >= 1 ==> samples@.len() == block_values(b@, i as int).len() - 1,
            i >= 1 ==> start == total[0] && end == total[1] && last_value == samples@.last(),
            forall|k: int|
                0 <= k < samples@.len() ==> samples@[k] == integrated(total[0], total.skip(2), k),
        decreases num_frames - i,
    {
        let extracted = extract_samples(b, i * 64);
        let temp_samples = match extracted {
            Ok(v) => v,
            Err(e) => {
                return Err(e);
            },
        };
        proof {
            lemma_block_values_prefix(b@, i as int, num_frames as int);
            lemma_block_values_prefix(b@, i + 1, num_frames as int);
            lemma_block_values_len(b@, i + 1);
            lemma_frame_values_len(b@, 0, 15);
            if i >= 1 {
                lemma_block_values_len(b@, i as int);
            }
        }
        let ghost done = block_values(b@, i as int).len() as int;
        assert(block_values(b@, i + 1) == block_values(b@, i as int) + temp_samples@);
        assert(forall|j: int|
            0 <= j < temp_samples@.len() ==> temp_samples@[j] == block_values(b@, i + 1)[done + j]);
        let mut j: usize = 0;
        if i == 0 {
            start = temp_samples[0];
            samples.push(start);
            last_value = start;
            end = temp_samples[1];
            j = 2;
        }
        while j < temp_samples.len()
            invariant
                j <= temp_samples@.len(),
                i == 0 ==> j >= 2,
                total.len() >= 2,
                done + temp_samples@.len() <= total.len(),
                forall|j: int|
                    0 <= j < temp_samples@.len() ==> temp_samples@[j] == total[done + j],
                samples@.len() == done + j - 1,
                samples@.len() >= 1,
                start == total[0] && end == total[1] && last_value == samples@.last(),
                forall|k: int|
                    0 <= k < samples@.len() ==> samples@[k] == integrated(
                        total[0],
                        total.skip(2),
                        k,
                    ),
            decreases temp_samples@.len() - j,
        {
            last_value = last_value.wrapping_add(temp_samples[j]);
            samples.push(last_value);
            j += 1;
        }
        i += 1;
    }
    assert(samples@ =~= decoded(b@));
    if samples.len() != nsamp {
        return Err(
            MSeedError::Compression(
                String::from_str("number of samples decompressed doesn't match number in header"),
            ),
        );
    }
    if samples[samples.len() - 1] != end {
        return Err(
            MSeedError::Compression(
                String::from_str(
                    "last sample decompressed doesn't match the reverse integration constant",
                ),
            ),
        );
    }
    Ok(samples)
}

/// Decodes the frame block `b`, which is to hold `num_samples` samples.
pub fn decode(b: &[u8], num_samples: u32) -> (samples: Result<Vec<i32>, MSeedError>)
    ensures
        samples is Ok <==> decodes(b@, num_samples as int),
        match samples {
            Ok(s) => s@ == decoded(b@),
            Err(MSeedError::Compression(m)) => m@ == decode_failure(b@, num_samples as int),
            Err(_) => false,
        },
{
    decode_with_bias(b, num_samples)
}

// ---------------------------------------------------------------------------
// Data words
// ---------------------------------------------------------------------------
/// What one data word holds: four signed bytes, two signed 16 bit integers,
/// or one signed 32 bit integer.  A word holds as many differences as its
/// tag says, so that every word reads back as the differences that were put
/// into it.
#[derive(Debug, Clone, Copy, PartialEq, Eq, Structural)]
pub enum Steim1Word {
    Four(i8, i8, i8, i8),
    Two(i16, i16),
    One(i32),
}

impl Steim1Word {
    /// The tag under which the word is stored.
    pub open spec fn tag(self) -> u32 {
        match self {
            Steim1Word::Four(_, _, _, _) => 1,
            Steim1Word::Two(_, _) => 2,
            Steim1Word::One(_) => 3,
        }
    }

    /// The number of differences that the word holds.
    pub open spec fn count(self) -> nat {
        match self {
            Steim1Word::Four(_, _, _, _) => 4,
            Steim1Word::Two(_, _) => 2,
            Steim1Word::One(_) => 1,
        }
    }

    /// The differences that the word holds.
    pub open spec fn values(self) -> Seq<i32> {
        match self {
            Steim1Word::Four(a, b, c, d) => seq![a as i32, b as i32, c as i32, d as i32],
            Steim1Word::Two(a, b) => seq![a as i32, b as i32],
            Steim1Word::One(a) => seq![a],
        }
    }

    /// The data word: its values from the most significant byte down.
    pub open spec fn packed(self) -> u32 {
        match self {
            Steim1Word::Four(a, b, c, d) => (0x100_0000 * bits_of_i8(a) + 0x1_0000 * bits_of_i8(b)
                + 0x100 * bits_of_i8(c) + bits_of_i8(d)) as u32,
            Steim1Word::Two(a, b) => (0x1_0000 * bits_of_i16(a) + bits_of_i16(b)) as u32,
            Steim1Word::One(a) => bits_of_i32(a),
        }
    }

    /// Stores the word as data word `w(frame_idx + 1)` of `frame`, with its
    /// tag, and returns the index of the data word after it.
    pub fn add_to_frame(&self, frame: &mut SteimFrame, frame_idx: usize) -> (next_idx: usize)
        requires
            frame_idx < 15,
        ensures
            next_idx == frame_idx + 1,
            final(frame).words@ == old(frame).words@.update(frame_idx as int, self.packed()),
            final(frame).nibbles == with_tag(old(frame).nibbles, frame_idx + 1, self.tag()),
    {
        let word: u32 = match self {
            Steim1Word::Four(a, b, c, d) => 0x100_0000 * (i8_to_bits(*a) as u32) + 0x1_0000 * (
            i8_to_bits(*b) as u32) + 0x100 * (i8_to_bits(*c) as u32) + (i8_to_bits(*d) as u32),
            Steim1Word::Two(a, b) => 0x1_0000 * (i16_to_bits(*a) as u32) + (i16_to_bits(*b) as u32),
            Steim1Word::One(a) => i32_to_bits(*a),
        };
        let nibble: u32 = match self {
            Steim1Word::Four(_, _, _, _) => 1,
            Steim1Word::Two(_, _) => 2,
            Steim1Word::One(_) => 3,
        };
        frame.set_word(word, nibble, frame_idx);
        frame_idx + 1
    }

    /// The number of differences that the word holds.
    pub fn num_samples(&self) -> (n: usize)
        ensures
            n == self.count(),
    {
        match self {
            Steim1Word::Four(_, _, _, _) => 4,
            Steim1Word::Two(_, _) => 2,
            Steim1Word::One(_) => 1,
        }
    }
}

// ---------------------------------------------------------------------------
// Packing differences into words
// ---------------------------------------------------------------------------
/// The first sample, then the difference of each sample to the one before.
pub open spec fn first_differences(samples: Seq<i32>) -> Seq<i32> {
    Seq::new(
        samples.len(),
        |k: int|
            if k == 0 {
                samples[0]
            } else {
                wrapping_sub(samples[k], samples[k - 1])
            },
    )
}

/// The word that holds the first of the pending differences: four bytes if
/// the next four differences fit in a byte each; else two 16 bit integers if
/// the next two differences fit in 16 bits each; else one 32 bit integer.
/// Fewer than four differences at the end are never packed as bytes, and a
/// single one is never packed in 16 bits: no word is padded.
pub open spec fn leading_word(pending: Seq<i32>) -> Steim1Word {
    if pending.len() >= 4 && fits_i8(pending[0]) && fits_i8(pending[1]) && fits_i8(pending[2])
        && fits_i8(pending[3]) {
        Steim1Word::Four(
            pending[0] as i8,
            pending[1] as i8,
            pending[2] as i8,
            pending[3] as i8,
        )
    } else if pending.len() >= 2 && fits_i16(pending[0]) && fits_i16(pending[1]) {
        Steim1Word::Two(pending[0] as i16, pending[1] as i16)
    } else {
        Steim1Word::One(pending[0])
    }
}

/// The words that hold the pending differences, each word taking as many of
/// them as `leading_word` says.
pub open spec fn packing(pending: Seq<i32>) -> Seq<Steim1Word>
    decreases pending.len(),
{
    if pending.len() == 0 {
        Seq::empty()
    } else {
        seq![leading_word(pending)] + packing(pending.skip(leading_word(pending).count() as int))
    }
}

/// The number of differences that the words hold together.
pub open spec fn sample_count(words: Seq<Steim1Word>) -> nat
    decreases words.len(),
{
    if words.len() == 0 {
        0
    } else {
        sample_count(words.drop_last()) + words.last().count()
    }
}

/// The first sample, then the difference of each sample to the one before,
/// in wrapping arithmetic.
pub fn differences(samples: &[i32]) -> (diffs: Vec<i32>)
    ensures
        diffs@ == first_differences(samples@),
{
    let mut diffs: Vec<i32> = Vec::new();
    let mut state: i32 = 0;
    let mut k: usize = 0;
    while k < samples.len()
        invariant
            k <= samples@.len(),
            diffs@.len() == k,
            k > 0 ==> state == samples@[k - 1],
            k == 0 ==> state == 0,
            forall|j: int| 0 <= j < k ==> diffs@[j] == #[trigger] first_differences(samples@)[j],
        decreases samples@.len() - k,
    {
        let x = samples[k];
        diffs.push(x.wrapping_sub(state));
        state = x;
        k += 1;
    }
    assert(diffs@ =~= first_differences(samples@));
    diffs
}

/// Walks over a stream of differences and hands out the words that hold
/// them: first a 32 bit word with the first difference, then the words of
/// `packing`.  Up to four differences are drawn ahead into a window, from
/// whose front the next word is taken.
#[derive(Debug, Clone)]
pub struct ByFours {
    diff_iter: Vec<i32>,
    drawn: usize,
    prev: VecDeque<i32>,
    first: bool,
}

impl ByFours {
    /// The differences that no word holds yet: those in the window, then
    /// those that are not drawn yet.
    pub closed spec fn remaining(&self) -> Seq<i32> {
        self.prev@ + self.diff_iter@.skip(self.drawn as int)
    }

    /// Whether no word has been asked for yet.
    pub closed spec fn at_start(&self) -> bool {
        self.first
    }

    /// The window holds no more than four differences, and nothing is drawn
    /// before the first word is asked for.
    pub closed spec fn wf(&self) -> bool {
        &&& self.drawn <= self.diff_iter@.len()
        &&& self.prev@.len() <= 4
        &&& self.first ==> self.drawn == 0 && self.prev@.len() == 0
    }

    /// Starts at the head of `diff_iter`.
    pub fn new(diff_iter: Vec<i32>) -> (by_fours: ByFours)
        ensures
            by_fours.wf(),
            by_fours.at_start(),
            by_fours.remaining() == diff_iter@,
    {
        let by_fours = ByFours { diff_iter, drawn: 0, prev: VecDeque::new(), first: true };
        assert(by_fours.prev@ + by_fours.diff_iter@.skip(0) =~= diff_iter@);
        by_fours
    }

    /// The next word, if any difference is left.  The first word is always a
    /// 32 bit word; every later one is the `leading_word` of what is left.
    pub fn next(&mut self) -> (word: Option<Steim1Word>)
        requires
            old(self).wf(),
        ensures
            final(self).wf(),
            !final(self).at_start(),
            match word {
                None => old(self).remaining().len() == 0 && final(self).remaining() == old(
                    self,
                ).remaining(),
                Some(w) => {
                    &&& old(self).remaining().len() > 0
                    &&& w == (if old(self).at_start() {
                        Steim1Word::One(old(self).remaining()[0])
                    } else {
                        leading_word(old(self).remaining())
                    })
                    &&& w.count() <= old(self).remaining().len()
                    &&& final(self).remaining() == old(self).remaining().skip(w.count() as int)
                },
            },
    {
        let ghost pending = self.remaining();
        if self.first {
            self.first = false;
            // first is always a single 4-byte value
            if self.drawn < self.diff_iter.len() {
                let value = self.diff_iter[self.drawn];
                self.drawn += 1;
                assert(self.remaining() =~= pending.skip(1));
                return Some(Steim1Word::One(value));
            } else {
                assert(self.remaining() =~= pending);
                return None;
            }
        }
        while self.prev.len() < 4 && self.drawn < self.diff_iter.len()
            invariant
                self.wf(),
                !self.first,
                self.remaining() == pending,
            decreases self.diff_iter@.len() - self.drawn,
        {
            self.prev.push_back(self.diff_iter[self.drawn]);
            self.drawn += 1;
            assert(self.remaining() =~= pending);
        }
        let held = self.prev.len();
        if held == 0 {
            return None;
        }
        assert(forall|i: int| 0 <= i < held ==> self.prev@[i] == pending[i]);
        assert(held == 4 <==> pending.len() >= 4);
        assert(held < 4 ==> pending.len() == held);
        let word = if held == 4 && ok_i8(self.prev[0]) && ok_i8(self.prev[1]) && ok_i8(self.prev[2])
            && ok_i8(self.prev[3]) {
            // four one-byte values
            Steim1Word::Four(
                self.prev[0] as i8,
                self.prev[1] as i8,
                self.prev[2] as i8,
                self.prev[3] as i8,
            )
        } else if held >= 2 && ok_i16(self.prev[0]) && ok_i16(self.prev[1]) {
            // two two-byte values
            Steim1Word::Two(self.prev[0] as i16, self.prev[1] as i16)
        } else {
            // single 4-byte value
            Steim1Word::One(self.prev[0])
        };
        let mut taken: usize = 0;
        while taken < word.num_samples()
            invariant
                self.wf(),
                !self.first,
                taken <= word.count() <= held <= pending.len(),
                self.prev@.len() == held - taken,
                self.remaining() == pending.skip(taken as int),
            decreases word.count() - taken,
        {
            let ghost before = self.remaining();
            let _ = self.prev.pop_front();
            taken += 1;
            assert(self.remaining() =~= before.skip(1));
            assert(before.skip(1) =~= pending.skip(taken as int));
        }
        Some(word)
    }
}

// ---------------------------------------------------------------------------
// Encoding
// ---------------------------------------------------------------------------
/// The words that a block of at most `frames` frames holds after the two
/// integration constants: all words of the packing, or as many as fit.  The
/// first frame has room for 13 of them, every later frame for 15; zero
/// `frames` means that there is no limit.
pub open spec fn packed_words(samples: Seq<i32>, frames: int) -> Seq<Steim1Word> {
    let all = packing(first_differences(samples).skip(1));
    if frames == 0 || all.len() <= 15 * frames - 2 {
        all
    } else {
        all.take(15 * frames - 2)
    }
}

/// The tag of the data word at position `place` of a block, where the data
/// words of all frames are counted from 0: the two integration constants,
/// then `words`, then unused words.
pub open spec fn expected_tag(words: Seq<Steim1Word>, place: int) -> u32 {
    if 2 <= place < words.len() + 2 {
        words[place - 2].tag()
    } else {
        0
    }
}

/// The data word at position `place` of a block that starts with the
/// integration constants `x0` and `xn` and then holds `words`.
pub open spec fn expected_word(x0: u32, xn: u32, words: Seq<Steim1Word>, place: int) -> u32 {
    if place == 0 {
        x0
    } else if place == 1 {
        xn
    } else if place < words.len() + 2 {
        words[place - 2].packed()
    } else {
        0
    }
}

/// Whether data word `w(w + 1)` of frame number `f` and its tag are those of
/// the block that starts with the integration constants `x0` and `xn` and
/// then holds `words`.
pub open spec fn place_as_expected(
    frame: SteimFrame,
    f: int,
    w: int,
    x0: u32,
    xn: u32,
    words: Seq<Steim1Word>,
) -> bool {
    &&& frame.words@[w] == expected_word(x0, xn, words, 15 * f + w)
    &&& frame.tag(w + 1) == expected_tag(words, 15 * f + w)
}

/// Whether `frame` is frame number `f` of the block that starts with the
/// integration constants `x0` and `xn` and then holds `words`.
pub open spec fn frame_as_expected(
    frame: SteimFrame,
    f: int,
    x0: u32,
    xn: u32,
    words: Seq<Steim1Word>,
) -> bool {
    &&& frame.tag(0) == 0
    &&& forall|w: int| 0 <= w < 15 ==> #[trigger] place_as_expected(frame, f, w, x0, xn, words)
}

/// Whether `block` is the Steim-1 encoding of `samples` in at most `frames`
/// frames (in any number of frames, if `frames` is 0): it holds the first
/// sample, the last sample that it covers, and the words that pack the
/// differences between them, in as many frames as these fill.
pub open spec fn is_encoding(block: SteimFrameBlock, samples: Seq<i32>, frames: int) -> bool {
    let words = packed_words(samples, frames);
    &&& block.steim_version == 1
    &&& block.num_samples == 1 + sample_count(words)
    &&& block.num_samples <= samples.len()
    &&& block.steim_frame@.len() == (words.len() + 16) / 15
    &&& forall|f: int|
        0 <= f < block.steim_frame@.len() ==> frame_as_expected(
            #[trigger] block.steim_frame@[f],
            f,
            bits_of_i32(samples[0]),
            bits_of_i32(samples[block.num_samples - 1]),
            words,
        )
}

proof fn lemma_sample_count_push(words: Seq<Steim1Word>, word: Steim1Word)
    ensures
        sample_count(words.push(word)) == sample_count(words) + word.count(),
{
    assert(words.push(word).drop_last() =~= words);
}

/// A frame that is as expected stays so when a word is appended in a place
/// that the frame held no word for.
proof fn lemma_frame_keeps(
    frame: SteimFrame,
    f: int,
    x0: u32,
    xn: u32,
    words: Seq<Steim1Word>,
    word: Steim1Word,
)
    requires
        frame_as_expected(frame, f, x0, xn, words),
        15 * f + 15 <= words.len() + 2,
        0 <= f,
    ensures
        frame_as_expected(frame, f, x0, xn, words.push(word)),
{
    assert forall|w: int| 0 <= w < 15 implies #[trigger] place_as_expected(
        frame,
        f,
        w,
        x0,
        xn,
        words.push(word),
    ) by {
        assert(place_as_expected(frame, f, w, x0, xn, words));
    }
}

/// Storing a word in the first free place of the frame under construction
/// keeps the frame as expected.
proof fn lemma_frame_extends(
    before: SteimFrame,
    after: SteimFrame,
    f: int,
    idx: int,
    x0: u32,
    xn: u32,
    words: Seq<Steim1Word>,
    word: Steim1Word,
)
    requires
        frame_as_expected(before, f, x0, xn, words),
        0 <= f,
        0 <= idx < 15,
        15 * f + idx == words.len() + 2,
        after.words@ == before.words@.update(idx, word.packed()),
        after.nibbles == with_tag(before.nibbles, idx + 1, word.tag()),
    ensures
        frame_as_expected(after, f, x0, xn, words.push(word)),
{
    lemma_with_tag(before.nibbles, idx + 1, word.tag(), 0);
    assert forall|w: int| 0 <= w < 15 implies #[trigger] place_as_expected(
        after,
        f,
        w,
        x0,
        xn,
        words.push(word),
    ) by {
        lemma_with_tag(before.nibbles, idx + 1, word.tag(), w + 1);
        assert(place_as_expected(before, f, w, x0, xn, words));
    }
}

/// A frame of zeros is as expected in any place behind the last word.
proof fn lemma_frame_fresh(frame: SteimFrame, f: int, x0: u32, xn: u32, words: Seq<Steim1Word>)
    requires
        frame.nibbles == 0,
        frame.words@ == Seq::new(15, |i: int| 0u32),
        15 * f >= words.len() + 2,
    ensures
        frame_as_expected(frame, f, x0, xn, words),
{
    lemma_with_tag(0, 0, 0, 0);
    assert forall|w: int| 0 <= w < 15 implies #[trigger] place_as_expected(
        frame,
        f,
        w,
        x0,
        xn,
        words,
    ) by {
        lemma_with_tag(0, 0, 0, w + 1);
    }
}

/// The first frame with nothing but the forward integration constant in it
/// is as expected as long as the reverse one is taken to be zero.
proof fn lemma_frame_first(frame: SteimFrame, x0: u32)
    requires
        frame.nibbles == with_tag(0, 1, 0),
        frame.words@ == Seq::new(15, |i: int| 0u32).update(0, x0),
    ensures
        frame_as_expected(frame, 0, x0, 0, Seq::empty()),
{
    lemma_with_tag(0, 1, 0, 0);
    assert forall|w: int| 0 <= w < 15 implies #[trigger] place_as_expected(
        frame,
        0,
        w,
        x0,
        0,
        Seq::<Steim1Word>::empty(),
    ) by {
        lemma_with_tag(0, 1, 0, w + 1);
        lemma_with_tag(0, 0, 0, w + 1);
    }
}

/// Writing the reverse integration constant into the second data word of the
/// first frame turns frames that were as expected with a zero in its place
/// into frames that are as expected with it.
proof fn lemma_frame_patched(
    before: SteimFrame,
    after: SteimFrame,
    f: int,
    x0: u32,
    xn: u32,
    words: Seq<Steim1Word>,
)
    requires
        0 <= f,
        frame_as_expected(before, f, x0, 0, words),
        f == 0 ==> after.words@ == before.words@.update(1, xn) && after.nibbles == with_tag(
            before.nibbles,
            2,
            0,
        ),
        f > 0 ==> after == before,
    ensures
        frame_as_expected(after, f, x0, xn, words),
{
    lemma_with_tag(before.nibbles, 2, 0, 0);
    assert forall|w: int| 0 <= w < 15 implies #[trigger] place_as_expected(
        after,
        f,
        w,
        x0,
        xn,
        words,
    ) by {
        assert(place_as_expected(before, f, w, x0, 0, words));
        lemma_with_tag(before.nibbles, 2, 0, w + 1);
    }
}

/// The words that were stored when the packer ran dry or the block became
/// full are the words that the block is to hold.
proof fn lemma_words_packed(
    samples: Seq<i32>,
    frames: int,
    words: Seq<Steim1Word>,
    rest: Seq<i32>,
    stored_frames: int,
    frame_idx: int,
)
    requires
        0 <= frames,
        0 <= frame_idx < 15,
        packing(first_differences(samples).skip(1)) == words + packing(rest),
        15 * stored_frames + frame_idx == 2 + words.len(),
        (rest.len() == 0 && (frames == 0 || stored_frames < frames)) || (frames != 0
            && stored_frames == frames && frame_idx == 0),
    ensures
        words == packed_words(samples, frames),
{
    let all = packing(first_differences(samples).skip(1));
    if rest.len() == 0 && (frames == 0 || stored_frames < frames) {
        assert(all =~= words);
    } else {
        assert(all.take(15 * frames - 2) =~= words);
        if all.len() <= 15 * frames - 2 {
            assert(all =~= words);
        }
    }
}

/// Encodes `samples` into a Steim-1 frame block of at most `frames` frames;
/// zero `frames` means that there is no limit.
///
/// The block holds the first sample, then the differences of each sample to
/// the one before, packed into data words.  Samples for which the frames
/// have no room are left out: `num_samples` of the block says how many
/// samples it holds, and its reverse integration constant is the last of
/// them.  Decoding the bytes of the block gives back the samples that it
/// holds; without a limit these are all samples.  Fails if there is no
/// sample.
pub fn encode(samples: &[i32], frames: usize) -> (block: Result<SteimFrameBlock, MSeedError>)
    ensures
        match block {
            Ok(b) => {
                &&& samples@.len() > 0
                &&& is_encoding(b, samples@, frames as int)
                &&& frames == 0 ==> b.num_samples == samples@.len()
                &&& decodes(b.encoded(), b.num_samples as int)
                &&& decoded(b.encoded()) == samples@.take(b.num_samples as int)
            },
            Err(MSeedError::Compression(m)) => samples@.len() == 0 && m@
                == "samples array is zero size"@,
            Err(_) => false,
        },
{
    if samples.len() == 0 {
        return Err(MSeedError::Compression(String::from_str("samples array is zero size")));
    }
    let mut frame_block = SteimFrameBlock::new(1);
    let mut by_four = ByFours::new(differences(samples));
    let ghost diffs = first_differences(samples@);
    let ghost all = packing(diffs.skip(1));
    let x0 = i32_to_bits(samples[0]);

    let mut frame = SteimFrame::new();
    let first = by_four.next();
    assert(first == Some(Steim1Word::One(samples@[0])));
    frame.set_word(x0, 0, 0);
    let mut frame_idx: usize = 2;
    let mut num_samples: usize = 1;
    let ghost mut words: Seq<Steim1Word> = Seq::empty();
    proof {
        lemma_frame_first(frame, x0);
        assert(all =~= words + packing(by_four.remaining()));
    }
    loop
        invariant_except_break
            frames == 0 || frame_block.steim_frame@.len() < frames,
        invariant
            samples@.len() > 0,
            diffs == first_differences(samples@),
            all == packing(diffs.skip(1)),
            x0 == bits_of_i32(samples@[0]),
            by_four.wf(),
            !by_four.at_start(),
            by_four.remaining() == diffs.skip(num_samples as int),
            num_samples == 1 + sample_count(words),
            num_samples <= samples.len(),
            diffs.len() == samples.len(),
            all == words + packing(by_four.remaining()),
            frame_idx <= 15,
            15 * frame_block.steim_frame@.len() + frame_idx == 2 + words.len(),
            frame_block.steim_version == 1,
            forall|f: int|
                0 <= f < frame_block.steim_frame@.len() ==> frame_as_expected(
                    #[trigger] frame_block.steim_frame@[f],
                    f,
                    x0,
                    0,
                    words,
                ),
            frame_as_expected(frame, frame_block.steim_frame@.len() as int, x0, 0, words),
        ensures
            frame_idx < 15,
            (by_four.remaining().len() == 0 && (frames == 0 || frame_block.steim_frame@.len()
                < frames)) || (frames != 0 && frame_block.steim_frame@.len() == frames && frame_idx
                == 0),
        decreases by_four.remaining().len(),
    {
        if frame_idx == 15 {
            frame_block.steim_frame.push(frame);
            frame = SteimFrame::new();
            frame_idx = 0;
            proof {
                lemma_frame_fresh(frame, frame_block.steim_frame@.len() as int, x0, 0, words);
            }
            if frames != 0 && frame_block.steim_frame.len() == frames {
                break ;
            }
        }
        let ghost pending = by_four.remaining();
        match by_four.next() {
            None => {
                break ;
            },
            Some(chunk) => {
                let ghost before = frame;
                assert(pending.len() == diffs.len() - num_samples);
                frame_idx = chunk.add_to_frame(&mut frame, frame_idx);
                num_samples += chunk.num_samples();
                proof {
                    lemma_sample_count_push(words, chunk);
                    lemma_frame_extends(
                        before,
                        frame,
                        frame_block.steim_frame@.len() as int,
                        frame_idx - 1,
                        x0,
                        0,
                        words,
                        chunk,
                    );
                    assert forall|f: int|
                        0 <= f < frame_block.steim_frame@.len() implies frame_as_expected(
                        #[trigger] frame_block.steim_frame@[f],
                        f,
                        x0,
                        0,
                        words.push(chunk),
                    ) by {
                        lemma_frame_keeps(frame_block.steim_frame@[f], f, x0, 0, words, chunk);
                    }
                    assert(all =~= words.push(chunk) + packing(by_four.remaining()));
                    assert(by_four.remaining() =~= diffs.skip(num_samples as int));
                    words = words.push(chunk);
                }
            },
        }
    }
    if frame_idx > 0 {
        frame_block.steim_frame.push(frame);
    }
    frame_block.num_samples = num_samples;
    let ghost unpatched = frame_block.steim_frame@;
    let last = samples[num_samples - 1];
    frame_block.reverse_integration_constant(last);
    proof {
        lemma_words_packed(
            samples@,
            frames as int,
            words,
            by_four.remaining(),
            (unpatched.len() - (if frame_idx > 0 {
                1int
            } else {
                0int
            })) as int,
            frame_idx as int,
        );
        assert forall|f: int| 0 <= f < frame_block.steim_frame@.len() implies frame_as_expected(
            #[trigger] frame_block.steim_frame@[f],
            f,
            x0,
            bits_of_i32(last),
            words,
        ) by {
            lemma_frame_patched(
                unpatched[f],
                frame_block.steim_frame@[f],
                f,
                x0,
                bits_of_i32(last),
                words,
            );
        }
    }
    proof {
        crate::steim1_round_trip::lemma_decode_inverts_encode(
            frame_block,
            samples@,
            frames as int,
        );
        if frames == 0 {
            crate::steim1_round_trip::lemma_decode_inverts_unlimited_encode(frame_block, samples@);
        }
    }
    Ok(frame_block)
}

} // verus!
