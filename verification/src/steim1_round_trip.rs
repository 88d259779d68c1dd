//! Decoding a Steim-1 frame block gives back the samples that were encoded.
//!
//! Every data word holds as many differences as its tag says, so what the
//! decoder reads from a word is what the encoder put into it.

use crate::bytes::{
    be_bytes_u32, be_u16_at, be_u32_at, bits_of_i16, bits_of_i32, bits_of_i8, i16_of_bits,
    i32_of_bits, i8_of_bits, lemma_u32_of_bytes,
};
use crate::steim1::{
    block_values, decoded, decodes, expected_tag, expected_word, first_differences, fits_i16,
    fits_i8,
    frame_as_expected, frame_values, integrated, is_encoding, leading_word, packed_words, packing,
    place_as_expected, sample_count, slot_values, Steim1Word,
};
use crate::steim_frame_block::{tag_in, SteimFrameBlock};
use vstd::prelude::*;
use vstd::wrapping::i32_specs::wrapping_sub;

verus! {

/// The differences that the words hold, in order.
pub open spec fn word_values(words: Seq<Steim1Word>) -> Seq<i32>
    decreases words.len(),
{
    if words.len() == 0 {
        Seq::empty()
    } else {
        word_values(words.drop_last()) + words.last().values()
    }
}

/// The values that the data word in place `place` of a block stands for,
/// where the block covers the first `n` of `samples` and holds `words`.
pub open spec fn place_values(
    samples: Seq<i32>,
    n: int,
    words: Seq<Steim1Word>,
    place: int,
) -> Seq<i32> {
    if place == 0 {
        seq![samples[0]]
    } else if place == 1 {
        seq![samples[n - 1]]
    } else if place < words.len() + 2 {
        words[place - 2].values()
    } else {
        Seq::empty()
    }
}

/// The values of the data words in the places before `places`, in order.
pub open spec fn values_upto(
    samples: Seq<i32>,
    n: int,
    words: Seq<Steim1Word>,
    places: int,
) -> Seq<i32>
    decreases places,
{
    if places <= 0 {
        Seq::empty()
    } else {
        values_upto(samples, n, words, places - 1) + place_values(samples, n, words, places - 1)
    }
}

// ---------------------------------------------------------------------------
// Sequences of words
// ---------------------------------------------------------------------------
proof fn lemma_words_cons(word: Steim1Word, rest: Seq<Steim1Word>)
    ensures
        word_values(seq![word] + rest) == word.values() + word_values(rest),
        sample_count(seq![word] + rest) == word.count() + sample_count(rest),
    decreases rest.len(),
{
    let all = seq![word] + rest;
    if rest.len() == 0 {
        assert(all.drop_last() =~= rest);
        assert(all.last() == word);
        assert(word_values(rest) =~= Seq::<i32>::empty());
        assert(sample_count(rest) == 0);
        assert(word_values(all) =~= word.values() + word_values(rest));
    } else {
        lemma_words_cons(word, rest.drop_last());
        assert(all.drop_last() =~= seq![word] + rest.drop_last());
        assert(all.last() == rest.last());
        assert(word_values(all) =~= word.values() + word_values(rest));
    }
}

/// The word that is chosen for pending differences holds the first of them,
/// as many as its tag says and no others, each in a width that it fits.  It
/// holds four bytes exactly if the next four differences fit a byte each;
/// else two 16 bit integers exactly if the next two fit 16 bits each.
pub proof fn lemma_leading_word(pending: Seq<i32>)
    requires
        pending.len() > 0,
    ensures
        leading_word(pending).count() <= pending.len(),
        leading_word(pending).values() == pending.take(leading_word(pending).count() as int),
        leading_word(pending).tag() == 1 <==> pending.len() >= 4 && fits_i8(pending[0]) && fits_i8(
            pending[1],
        ) && fits_i8(pending[2]) && fits_i8(pending[3]),
        leading_word(pending).tag() == 2 <==> leading_word(pending).tag() != 1 && pending.len() >= 2
            && fits_i16(pending[0]) && fits_i16(pending[1]),
        leading_word(pending).tag() == 1 ==> leading_word(pending).count() == 4,
        leading_word(pending).tag() == 2 ==> leading_word(pending).count() == 2,
        leading_word(pending).tag() == 3 ==> leading_word(pending).count() == 1,
        1 <= leading_word(pending).tag() <= 3,
{
    let word = leading_word(pending);
    assert(word.values() =~= pending.take(word.count() as int));
}

/// The words of a packing hold all pending differences.
pub proof fn lemma_packing_complete(pending: Seq<i32>)
    ensures
        sample_count(packing(pending)) == pending.len(),
    decreases pending.len(),
{
    if pending.len() > 0 {
        let word = leading_word(pending);
        let rest = pending.skip(word.count() as int);
        lemma_packing_complete(rest);
        lemma_words_cons(word, packing(rest));
    }
}

/// The first `k` words of a packing hold the first differences, in order.
proof fn lemma_packing_values(pending: Seq<i32>, k: int)
    requires
        0 <= k <= packing(pending).len(),
    ensures
        sample_count(packing(pending).take(k)) <= pending.len(),
        word_values(packing(pending).take(k)) == pending.take(
            sample_count(packing(pending).take(k)) as int,
        ),
    decreases pending.len(),
{
    let taken = packing(pending).take(k);
    if k == 0 {
        assert(taken =~= Seq::<Steim1Word>::empty());
        assert(word_values(taken) =~= pending.take(0));
    } else {
        let word = leading_word(pending);
        let rest = pending.skip(word.count() as int);
        let tail = packing(rest).take(k - 1);
        assert(taken =~= seq![word] + tail);
        assert(taken[0] == word);
        lemma_packing_values(rest, k - 1);
        lemma_words_cons(word, tail);
        assert(word.values() =~= pending.take(word.count() as int));
        assert(word_values(taken) =~= pending.take(sample_count(taken) as int));
    }
}

// ---------------------------------------------------------------------------
// One data word
// ---------------------------------------------------------------------------
/// The bytes of a packed word, read as its tag says, are the values of the
/// word.
pub proof fn lemma_word_decodes(bytes: Seq<u8>, at: int, word: Steim1Word)
    requires
        be_u32_at(bytes, at) == word.packed(),
    ensures
        word.tag() == 1 ==> word.values() == seq![
            i8_of_bits(bytes[at]) as i32,
            i8_of_bits(bytes[at + 1]) as i32,
            i8_of_bits(bytes[at + 2]) as i32,
            i8_of_bits(bytes[at + 3]) as i32,
        ],
        word.tag() == 2 ==> word.values() == seq![
            i16_of_bits(be_u16_at(bytes, at)) as i32,
            i16_of_bits(be_u16_at(bytes, at + 2)) as i32,
        ],
        word.tag() == 3 ==> word.values() == seq![i32_of_bits(be_u32_at(bytes, at))],
{
    match word {
        Steim1Word::Four(a, b, c, d) => {
            assert(bytes[at] == bits_of_i8(a));
            assert(bytes[at + 1] == bits_of_i8(b));
            assert(bytes[at + 2] == bits_of_i8(c));
            assert(bytes[at + 3] == bits_of_i8(d));
            assert(word.values() =~= seq![
                i8_of_bits(bytes[at]) as i32,
                i8_of_bits(bytes[at + 1]) as i32,
                i8_of_bits(bytes[at + 2]) as i32,
                i8_of_bits(bytes[at + 3]) as i32,
            ]);
        },
        Steim1Word::Two(a, b) => {
            assert(be_u16_at(bytes, at) == bits_of_i16(a));
            assert(be_u16_at(bytes, at + 2) == bits_of_i16(b));
            assert(word.values() =~= seq![
                i16_of_bits(be_u16_at(bytes, at)) as i32,
                i16_of_bits(be_u16_at(bytes, at + 2)) as i32,
            ]);
        },
        Steim1Word::One(a) => {
            assert(word.values() =~= seq![i32_of_bits(be_u32_at(bytes, at))]);
        },
    }
}

/// Every word of the encoded bytes is the tag word or data word that the
/// frame holds in its place.
proof fn lemma_encoded_word(block: SteimFrameBlock, f: int, slot: int)
    requires
        0 <= f < block.steim_frame@.len(),
        0 <= slot <= 15,
    ensures
        block.encoded().len() == 64 * block.steim_frame@.len(),
        be_u32_at(block.encoded(), 64 * f + 4 * slot) == (if slot == 0 {
            block.steim_frame@[f].nibbles
        } else {
            block.steim_frame@[f].words@[slot - 1]
        }),
{
    let bytes = block.encoded();
    let frame = block.steim_frame@[f];
    let at = 64 * f + 4 * slot;
    let word = if slot == 0 {
        frame.nibbles
    } else {
        frame.words@[slot - 1]
    };
    lemma_u32_of_bytes(word);
    assert forall|k: int| 0 <= k < 4 implies #[trigger] bytes[at + k] == be_bytes_u32(word)[k] by {
        assert((at + k) / 64 == f);
        assert((at + k) % 64 == 4 * slot + k);
        assert(bytes[at + k] == frame.byte(4 * slot + k));
    }
    assert(bytes[at + 0] == be_bytes_u32(word)[0]);
    assert(bytes[at + 1] == be_bytes_u32(word)[1]);
    assert(bytes[at + 2] == be_bytes_u32(word)[2]);
    assert(bytes[at + 3] == be_bytes_u32(word)[3]);
}

// ---------------------------------------------------------------------------
// Frames and blocks
// ---------------------------------------------------------------------------
/// What decoding reads from a data word of an encoding is what encoding put
/// in its place.
proof fn lemma_slot_values(
    block: SteimFrameBlock,
    samples: Seq<i32>,
    frames: int,
    f: int,
    w: int,
)
    requires
        samples.len() > 0,
        is_encoding(block, samples, frames),
        0 <= f < block.steim_frame@.len(),
        0 <= w < 15,
    ensures
        slot_values(block.encoded(), 64 * f, w + 1) == place_values(
            samples,
            block.num_samples as int,
            packed_words(samples, frames),
            15 * f + w,
        ),
{
    let bytes = block.encoded();
    let words = packed_words(samples, frames);
    let frame = block.steim_frame@[f];
    let place = 15 * f + w;
    let x0 = bits_of_i32(samples[0]);
    let xn = bits_of_i32(samples[block.num_samples - 1]);
    assert(frame_as_expected(frame, f, x0, xn, words));
    assert(place_as_expected(frame, f, w, x0, xn, words));
    lemma_encoded_word(block, f, 0);
    lemma_encoded_word(block, f, w + 1);
    let at = 64 * f + 4 * (w + 1);
    assert(tag_in(be_u32_at(bytes, 64 * f), w + 1) == expected_tag(words, place));
    assert(be_u32_at(bytes, at) == expected_word(x0, xn, words, place));
    if 2 <= place < words.len() + 2 {
        let word = words[place - 2];
        lemma_word_decodes(bytes, at, word);
    }
}

proof fn lemma_frame_values(
    block: SteimFrameBlock,
    samples: Seq<i32>,
    frames: int,
    f: int,
    slots: int,
)
    requires
        samples.len() > 0,
        is_encoding(block, samples, frames),
        0 <= f < block.steim_frame@.len(),
        0 <= slots <= 15,
    ensures
        values_upto(
            samples,
            block.num_samples as int,
            packed_words(samples, frames),
            15 * f + slots,
        ) == values_upto(samples, block.num_samples as int, packed_words(samples, frames), 15 * f)
            + frame_values(block.encoded(), 64 * f, slots),
    decreases slots,
{
    let n = block.num_samples as int;
    let words = packed_words(samples, frames);
    if slots == 0 {
        assert(values_upto(samples, n, words, 15 * f) =~= values_upto(samples, n, words, 15 * f)
            + frame_values(block.encoded(), 64 * f, 0));
    } else {
        lemma_frame_values(block, samples, frames, f, slots - 1);
        lemma_slot_values(block, samples, frames, f, slots - 1);
        assert(values_upto(samples, n, words, 15 * f + slots) =~= values_upto(
            samples,
            n,
            words,
            15 * f,
        ) + frame_values(block.encoded(), 64 * f, slots));
    }
}

proof fn lemma_block_values(block: SteimFrameBlock, samples: Seq<i32>, frames: int, k: int)
    requires
        samples.len() > 0,
        is_encoding(block, samples, frames),
        0 <= k <= block.steim_frame@.len(),
    ensures
        block_values(block.encoded(), k) == values_upto(
            samples,
            block.num_samples as int,
            packed_words(samples, frames),
            15 * k,
        ),
    decreases k,
{
    if k > 0 {
        lemma_block_values(block, samples, frames, k - 1);
        lemma_frame_values(block, samples, frames, k - 1, 15);
    }
}

/// The values in the places of a block are the two integration constants
/// and then the values of its words.
proof fn lemma_values_upto(samples: Seq<i32>, n: int, words: Seq<Steim1Word>, places: int)
    requires
        2 <= places,
    ensures
        values_upto(samples, n, words, places) == seq![samples[0], samples[n - 1]] + word_values(
            words.take(if places - 2 < words.len() {
                places - 2
            } else {
                words.len() as int
            }),
        ),
    decreases places,
{
    let head = seq![samples[0], samples[n - 1]];
    if places == 2 {
        assert(values_upto(samples, n, words, 0) =~= Seq::<i32>::empty());
        assert(values_upto(samples, n, words, 1) =~= seq![samples[0]]);
        assert(words.take(0) =~= Seq::<Steim1Word>::empty());
        assert(values_upto(samples, n, words, 2) =~= head + word_values(words.take(0)));
    } else {
        lemma_values_upto(samples, n, words, places - 1);
        if places - 3 < words.len() {
            assert(words.take(places - 2).drop_last() =~= words.take(places - 3));
            assert(words.take(places - 2).last() == words[places - 3]);
            assert(values_upto(samples, n, words, places) =~= head + word_values(
                words.take(places - 2),
            ));
        } else {
            assert(values_upto(samples, n, words, places) =~= head + word_values(
                words.take(words.len() as int),
            ));
        }
    }
}

// ---------------------------------------------------------------------------
// Sums of differences
// ---------------------------------------------------------------------------
/// Adding up the first differences restores the samples.
proof fn lemma_integrated(samples: Seq<i32>, diffs: Seq<i32>, k: int)
    requires
        0 <= k < samples.len(),
        forall|j: int| 0 <= j < k ==> #[trigger] diffs[j] == wrapping_sub(samples[j + 1], samples[j]),
    ensures
        integrated(samples[0], diffs, k) == samples[k],
    decreases k,
{
    if k > 0 {
        lemma_integrated(samples, diffs, k - 1);
        assert(diffs[k - 1] == wrapping_sub(samples[k], samples[k - 1]));
    }
}

// ---------------------------------------------------------------------------
// The round trip
// ---------------------------------------------------------------------------
/// Decoding the bytes of the encoding of `samples` under the sample count of
/// the block succeeds and gives back the samples that the block covers.  The
/// first value of the block is the first sample and its second value, the
/// reverse integration constant, is the last sample covered.
pub proof fn lemma_decode_inverts_encode(block: SteimFrameBlock, samples: Seq<i32>, frames: int)
    requires
        samples.len() > 0,
        0 <= frames,
        is_encoding(block, samples, frames),
    ensures
        decodes(block.encoded(), block.num_samples as int),
        decoded(block.encoded()) == samples.take(block.num_samples as int),
        block_values(block.encoded(), block.steim_frame@.len() as int)[0] == samples[0],
        block_values(block.encoded(), block.steim_frame@.len() as int)[1] == samples[
            block.num_samples - 1],
{
    let bytes = block.encoded();
    let n = block.num_samples as int;
    let words = packed_words(samples, frames);
    let count = block.steim_frame@.len() as int;
    let diffs = first_differences(samples);
    let all = packing(diffs.skip(1));
    assert(bytes.len() == 64 * count);
    assert(bytes.len() as int / 64 == count);
    let total = block_values(bytes, count);
    lemma_block_values(block, samples, frames, count);
    lemma_values_upto(samples, n, words, 15 * count);
    assert(words.take(words.len() as int) =~= words);
    assert(total == seq![samples[0], samples[n - 1]] + word_values(words));
    assert(words =~= all.take(words.len() as int));
    lemma_packing_values(diffs.skip(1), words.len() as int);
    let held = word_values(words);
    assert(held == diffs.skip(1).take(n - 1));
    assert(total.skip(2) =~= held);
    assert forall|k: int| 0 <= k < n implies integrated(total[0], total.skip(2), k)
        == samples[k] by {
        assert forall|j: int| 0 <= j < k implies #[trigger] held[j] == wrapping_sub(
            samples[j + 1],
            samples[j],
        ) by {
            assert(held[j] == diffs[j + 1]);
        }
        lemma_integrated(samples, held, k);
    }
    assert(decoded(bytes) =~= samples.take(n));
}

/// Without a limit on the number of frames the block covers all samples, so
/// that decoding the encoding of any samples gives back the samples.
pub proof fn lemma_decode_inverts_unlimited_encode(block: SteimFrameBlock, samples: Seq<i32>)
    requires
        samples.len() > 0,
        is_encoding(block, samples, 0),
    ensures
        block.num_samples == samples.len(),
        decodes(block.encoded(), samples.len() as int),
        decoded(block.encoded()) == samples,
{
    lemma_packing_complete(first_differences(samples).skip(1));
    lemma_decode_inverts_encode(block, samples, 0);
    assert(samples.take(samples.len() as int) =~= samples);
}

} // verus!
