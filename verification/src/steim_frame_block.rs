//! Steim frames and frame blocks.
//!
//! A frame is 64 bytes: a word of sixteen two-bit tags followed by fifteen
//! data words.  Tag `c(0)` belongs to the tag word itself and is zero; tag
//! `c(i)` says what data word `w(i)` holds.  On the wire every word is
//! big-endian, and a frame block is the concatenation of its frames.

use crate::bytes::{be_bytes_u32, bits_of_i32, i32_to_bits, write_be_u32};
use crate::mseed_error::MSeedError;
use vstd::prelude::*;

verus! {

/// Tag `c(slot)` of a tag word: the two bits at `30 - 2 * slot`.
pub open spec fn tag_in(nibbles: u32, slot: int) -> u32 {
    (nibbles >> ((30 - 2 * slot) as u32)) & 3
}

/// The tag word `nibbles` with tag `c(slot)` replaced by `tag`.
pub open spec fn with_tag(nibbles: u32, slot: int, tag: u32) -> u32 {
    (nibbles & !(3u32 << ((30 - 2 * slot) as u32))) | (tag << ((30 - 2 * slot) as u32))
}

proof fn lemma_replace_bits(n: u32, t: u32, a: u32, b: u32)
    by (bit_vector)
    requires
        t <= 3,
        a <= 30,
        b <= 30,
        a % 2 == 0,
        b % 2 == 0,
    ensures
        (((n & !(3u32 << a)) | (t << a)) >> b) & 3 == (if a == b {
            t
        } else {
            (n >> b) & 3
        }),
        (0u32 >> b) & 3 == 0,
{
}

/// Replacing one tag changes that tag and no other.
pub proof fn lemma_with_tag(nibbles: u32, slot: int, tag: u32, other: int)
    requires
        0 <= slot <= 15,
        0 <= other <= 15,
        tag <= 3,
    ensures
        tag_in(with_tag(nibbles, slot, tag), other) == (if other == slot {
            tag
        } else {
            tag_in(nibbles, other)
        }),
        tag_in(0, other) == 0,
        tag_in(nibbles, other) <= 3,
{
    let a = (30 - 2 * slot) as u32;
    let b = (30 - 2 * other) as u32;
    lemma_replace_bits(nibbles, tag, a, b);
    assert((nibbles >> b) & 3 <= 3) by (bit_vector);
}

/// One Steim frame: the tag word and the fifteen data words `w(1)..w(15)`,
/// where `words[i]` is `w(i + 1)`.
#[derive(Debug, Clone, Copy)]
pub struct SteimFrame {
    /// The tag word: `c(0)` in its two highest bits, `c(15)` in its lowest.
    pub nibbles: u32,
    /// The data words.
    pub words: [u32; 15],
}

impl SteimFrame {
    /// Tag `c(slot)`.
    pub open spec fn tag(&self, slot: int) -> u32 {
        tag_in(self.nibbles, slot)
    }

    /// Byte `at` of the 64 bytes of the frame on the wire.
    pub open spec fn byte(&self, at: int) -> u8 {
        if at < 4 {
            be_bytes_u32(self.nibbles)[at]
        } else {
            be_bytes_u32(self.words@[at / 4 - 1])[at % 4]
        }
    }

    /// A frame with all tags and all data words zero.
    pub fn new() -> (frame: SteimFrame)
        ensures
            frame.nibbles == 0,
            frame.words@ == Seq::new(15, |i: int| 0u32),
    {
        let frame = SteimFrame { nibbles: 0, words: [0; 15] };
        assert(frame.words@ =~= Seq::new(15, |i: int| 0u32));
        frame
    }

    /// Whether no data word is tagged.
    pub fn is_empty(&self) -> (empty: bool)
        ensures
            empty == (self.nibbles == 0),
    {
        self.nibbles == 0
    }

    /// Stores `word` as data word `w(idx + 1)` and `nibble` as its tag.
    pub fn set_word(&mut self, word: u32, nibble: u32, idx: usize)
        requires
            idx < 15,
            nibble <= 3,
        ensures
            final(self).words@ == old(self).words@.update(idx as int, word),
            final(self).nibbles == with_tag(old(self).nibbles, idx + 1, nibble),
    {
        self.words[idx] = word;
        let shift: u32 = 28 - 2 * (idx as u32);
        self.nibbles = (self.nibbles & !(3u32 << shift)) | (nibble << shift);
    }
}

/// A sequence of Steim frames together with the number of samples that they
/// hold and the version of the compression.
#[derive(Debug, Clone)]
pub struct SteimFrameBlock {
    /// Number of samples represented.
    pub num_samples: usize,
    /// Steim version number.
    pub steim_version: usize,
    /// The frames, in order.
    pub steim_frame: Vec<SteimFrame>,
}

impl SteimFrameBlock {
    /// The bytes of the block on the wire: 64 for each frame.
    pub open spec fn encoded(&self) -> Seq<u8> {
        Seq::new(
            (64 * self.steim_frame@.len()) as nat,
            |at: int| self.steim_frame@[at / 64].byte(at % 64),
        )
    }

    /// An empty block for the given version of Steim compression.
    pub fn new(steim_version: usize) -> (block: SteimFrameBlock)
        ensures
            block.steim_version == steim_version,
            block.num_samples == 0,
            block.steim_frame@.len() == 0,
    {
        SteimFrameBlock { steim_version, num_samples: 0, steim_frame: Vec::new() }
    }

    /// The compressed bytes, for inclusion in a data record.
    pub fn get_encoded_data(&self) -> (data: Result<Vec<u8>, MSeedError>)
        ensures
            data matches Ok(bytes) && bytes@ == self.encoded(),
    {
        let mut encoded_data: Vec<u8> = Vec::new();
        let mut f: usize = 0;
        while f < self.steim_frame.len()
            invariant
                f <= self.steim_frame@.len(),
                encoded_data@.len() == 64 * f,
                forall|at: int|
                    0 <= at < 64 * f ==> encoded_data@[at] == #[trigger] self.encoded()[at],
            decreases self.steim_frame@.len() - f,
        {
            let frame = &self.steim_frame[f];
            let ghost before = encoded_data@;
            write_be_u32(&mut encoded_data, frame.nibbles);
            let mut w: usize = 0;
            while w < 15
                invariant
                    w <= 15,
                    f < self.steim_frame@.len(),
                    *frame == self.steim_frame@[f as int],
                    encoded_data@.len() == 64 * f + 4 + 4 * w,
                    forall|at: int|
                        0 <= at < 64 * f + 4 + 4 * w ==> encoded_data@[at]
                            == #[trigger] self.encoded()[at],
                decreases 15 - w,
            {
                write_be_u32(&mut encoded_data, frame.words[w]);
                w += 1;
            }
            f += 1;
        }
        assert(encoded_data@ =~= self.encoded());
        Ok(encoded_data)
    }

    /// Sets the reverse integration constant `X(N)`, data word `w(2)` of the
    /// first frame, to `v`.
    pub fn reverse_integration_constant(&mut self, v: i32)
        requires
            old(self).steim_frame@.len() > 0,
        ensures
            final(self).num_samples == old(self).num_samples,
            final(self).steim_version == old(self).steim_version,
            final(self).steim_frame@.len() == old(self).steim_frame@.len(),
            final(self).steim_frame@[0].words@ == old(self).steim_frame@[0].words@.update(
                1,
                bits_of_i32(v),
            ),
            final(self).steim_frame@[0].nibbles == with_tag(
                old(self).steim_frame@[0].nibbles,
                2,
                0,
            ),
            forall|f: int|
                1 <= f < final(self).steim_frame@.len() ==> final(self).steim_frame@[f] == old(self).steim_frame@[f],
    {
        self.steim_frame[0].set_word(i32_to_bits(v), 0, 1);
    }
}

} // verus!
