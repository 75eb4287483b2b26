//! Palette indexing: deduplicate the distinct pixel values of an image into
//! a palette and replace each pixel by its palette index. Expansion inverts
//! the indexing exactly, so the compression is lossless.
//!
//! A pixel is eight bytes; it is handled here as one 64-bit word (big-endian
//! over the byte order, which keeps whole-pixel equality exact).

use vstd::prelude::*;

verus! {

/// The 64-bit word of pixel `i` of a byte payload: its eight bytes read as
/// one big-endian value.
pub open spec fn spec_pixel_word(data: Seq<u8>, i: int) -> int {
    data[8 * i] * 0x100_0000_0000_0000 + data[8 * i + 1] * 0x1_0000_0000_0000 + data[8 * i + 2]
        * 0x100_0000_0000 + data[8 * i + 3] * 0x1_0000_0000 + data[8 * i + 4] * 0x100_0000 + data[8
        * i + 5] * 0x1_0000 + data[8 * i + 6] * 0x100 + data[8 * i + 7]
}

/// Gather the pixel words of a byte payload.
pub fn pixels_to_words(data: &Vec<u8>) -> (r: Vec<u64>)
    requires
        data@.len() % 8 == 0,
    ensures
        r@.len() == data@.len() / 8,
        forall|i: int| 0 <= i < r@.len() ==> #[trigger] r@[i] == spec_pixel_word(data@, i),
{
    let dl: usize = data.len();
    let count: usize = dl / 8;
    let mut r: Vec<u64> = Vec::new();
    let mut i: usize = 0;
    while i < count
        invariant
            data@.len() == dl,
            count == data@.len() / 8,
            data@.len() % 8 == 0,
            i <= count,
            r@.len() == i,
            forall|j: int| 0 <= j < i ==> #[trigger] r@[j] == spec_pixel_word(data@, j),
        decreases count - i,
    {
        proof {
            assert(8 * i + 8 <= data@.len()) by (nonlinear_arith)
                requires
                    0 <= i < count,
                    count == data@.len() / 8,
                    data@.len() % 8 == 0,
            ;
        }
        let o: usize = 8 * i;
        let w: u64 = (data[o] as u64) * 0x100_0000_0000_0000 + (data[o + 1] as u64)
            * 0x1_0000_0000_0000 + (data[o + 2] as u64) * 0x100_0000_0000 + (data[o + 3] as u64)
            * 0x1_0000_0000 + (data[o + 4] as u64) * 0x100_0000 + (data[o + 5] as u64) * 0x1_0000 + (
        data[o + 6] as u64) * 0x100 + (data[o + 7] as u64);
        r.push(w);
        i = i + 1;
    }
    r
}

/// Append the eight big-endian bytes of a pixel word.
pub fn push_word_bytes(out: &mut Vec<u8>, w: u64)
    ensures
        final(out)@.len() == old(out)@.len() + 8,
        final(out)@ == old(out)@ + word_bytes(w),
{
    let b0: u8 = (w / 0x100_0000_0000_0000) as u8;
    let b1: u8 = ((w / 0x1_0000_0000_0000) % 0x100) as u8;
    let b2: u8 = ((w / 0x100_0000_0000) % 0x100) as u8;
    let b3: u8 = ((w / 0x1_0000_0000) % 0x100) as u8;
    let b4: u8 = ((w / 0x100_0000) % 0x100) as u8;
    let b5: u8 = ((w / 0x1_0000) % 0x100) as u8;
    let b6: u8 = ((w / 0x100) % 0x100) as u8;
    let b7: u8 = (w % 0x100) as u8;
    out.push(b0);
    out.push(b1);
    out.push(b2);
    out.push(b3);
    out.push(b4);
    out.push(b5);
    out.push(b6);
    out.push(b7);
    proof {
        assert(final(out)@ =~= old(out)@ + word_bytes(w));
    }
}

/// The eight big-endian bytes of a pixel word.
pub open spec fn word_bytes(w: u64) -> Seq<u8> {
    seq![
        (w / 0x100_0000_0000_0000) as u8,
        ((w / 0x1_0000_0000_0000) % 0x100) as u8,
        ((w / 0x100_0000_0000) % 0x100) as u8,
        ((w / 0x1_0000_0000) % 0x100) as u8,
        ((w / 0x100_0000) % 0x100) as u8,
        ((w / 0x1_0000) % 0x100) as u8,
        ((w / 0x100) % 0x100) as u8,
        (w % 0x100) as u8,
    ]
}

/// The word of pixel `i` of a payload turned back into bytes gives exactly
/// the pixel's eight original bytes.
#[verifier::rlimit(100)]
#[verifier::spinoff_prover]
pub proof fn lemma_pixel_bytes_roundtrip(data: Seq<u8>, i: int)
    requires
        0 <= i,
        8 * i + 8 <= data.len(),
    ensures
        0 <= spec_pixel_word(data, i) <= u64::MAX,
        word_bytes(spec_pixel_word(data, i) as u64) =~= data.subrange(8 * i, 8 * i + 8),
{
    let b0 = data[8 * i] as int;
    let b1 = data[8 * i + 1] as int;
    let b2 = data[8 * i + 2] as int;
    let b3 = data[8 * i + 3] as int;
    let b4 = data[8 * i + 4] as int;
    let b5 = data[8 * i + 5] as int;
    let b6 = data[8 * i + 6] as int;
    let b7 = data[8 * i + 7] as int;
    let w = spec_pixel_word(data, i);
    lemma_split_high_low(w, 0x100_0000_0000_0000, b0, b1 * 0x1_0000_0000_0000 + b2
        * 0x100_0000_0000 + b3 * 0x1_0000_0000 + b4 * 0x100_0000 + b5 * 0x1_0000 + b6 * 0x100
        + b7);
    lemma_split_high_low(w, 0x1_0000_0000_0000, b0 * 0x100 + b1, b2 * 0x100_0000_0000 + b3
        * 0x1_0000_0000 + b4 * 0x100_0000 + b5 * 0x1_0000 + b6 * 0x100 + b7);
    lemma_split_high_low(w, 0x100_0000_0000, b0 * 0x1_0000 + b1 * 0x100 + b2, b3 * 0x1_0000_0000
        + b4 * 0x100_0000 + b5 * 0x1_0000 + b6 * 0x100 + b7);
    lemma_split_high_low(w, 0x1_0000_0000, b0 * 0x100_0000 + b1 * 0x1_0000 + b2 * 0x100 + b3, b4
        * 0x100_0000 + b5 * 0x1_0000 + b6 * 0x100 + b7);
    lemma_split_high_low(w, 0x100_0000, b0 * 0x1_0000_0000 + b1 * 0x100_0000 + b2 * 0x1_0000 + b3
        * 0x100 + b4, b5 * 0x1_0000 + b6 * 0x100 + b7);
    lemma_split_high_low(w, 0x1_0000, b0 * 0x100_0000_0000 + b1 * 0x1_0000_0000 + b2 * 0x100_0000
        + b3 * 0x1_0000 + b4 * 0x100 + b5, b6 * 0x100 + b7);
    lemma_split_high_low(w, 0x100, b0 * 0x1_0000_0000_0000 + b1 * 0x100_0000_0000 + b2
        * 0x1_0000_0000 + b3 * 0x100_0000 + b4 * 0x1_0000 + b5 * 0x100 + b6, b7);
    let wb = word_bytes(w as u64);
    assert(wb[0] == data[8 * i]);
    assert(wb[1] == data[8 * i + 1]);
    assert(wb[2] == data[8 * i + 2]);
    assert(wb[3] == data[8 * i + 3]);
    assert(wb[4] == data[8 * i + 4]);
    assert(wb[5] == data[8 * i + 5]);
    assert(wb[6] == data[8 * i + 6]);
    assert(wb[7] == data[8 * i + 7]);
}

/// Splitting a value at a power step: when `x == hi * step + lo` with the
/// low part inside the step, division and remainder recover the two parts.
proof fn lemma_split_high_low(x: int, step: int, hi: int, lo: int)
    requires
        step >= 1,
        0 <= lo < step,
        x == hi * step + lo,
    ensures
        x / step == hi,
        x % step == lo,
{
    vstd::arithmetic::div_mod::lemma_fundamental_div_mod_converse(x, step, hi, lo);
}

/// A pixel word reassembles from the eight big-endian bytes that
/// `word_bytes` lays out: the byte decomposition loses nothing.
pub proof fn lemma_word_reassemble(w: int)
    requires
        0 <= w <= u64::MAX,
    ensures
        (w / 0x100_0000_0000_0000) * 0x100_0000_0000_0000 + (w / 0x1_0000_0000_0000 % 256)
            * 0x1_0000_0000_0000 + (w / 0x100_0000_0000 % 256) * 0x100_0000_0000 + (w
            / 0x1_0000_0000 % 256) * 0x1_0000_0000 + (w / 0x100_0000 % 256) * 0x100_0000 + (w
            / 0x1_0000 % 256) * 0x1_0000 + (w / 0x100 % 256) * 0x100 + w % 256 == w,
{
    vstd::arithmetic::div_mod::lemma_fundamental_div_mod(w, 0x100);
    vstd::arithmetic::div_mod::lemma_div_denominator(w, 0x100, 0x100);
    vstd::arithmetic::div_mod::lemma_fundamental_div_mod(w / 0x100, 0x100);
    vstd::arithmetic::div_mod::lemma_div_denominator(w, 0x1_0000, 0x100);
    vstd::arithmetic::div_mod::lemma_fundamental_div_mod(w / 0x1_0000, 0x100);
    vstd::arithmetic::div_mod::lemma_div_denominator(w, 0x100_0000, 0x100);
    vstd::arithmetic::div_mod::lemma_fundamental_div_mod(w / 0x100_0000, 0x100);
    vstd::arithmetic::div_mod::lemma_div_denominator(w, 0x1_0000_0000, 0x100);
    vstd::arithmetic::div_mod::lemma_fundamental_div_mod(w / 0x1_0000_0000, 0x100);
    vstd::arithmetic::div_mod::lemma_div_denominator(w, 0x100_0000_0000, 0x100);
    vstd::arithmetic::div_mod::lemma_fundamental_div_mod(w / 0x100_0000_0000, 0x100);
    vstd::arithmetic::div_mod::lemma_div_denominator(w, 0x1_0000_0000_0000, 0x100);
    vstd::arithmetic::div_mod::lemma_fundamental_div_mod(w / 0x1_0000_0000_0000, 0x100);
    vstd::arithmetic::div_mod::lemma_div_denominator(w, 0x100_0000_0000_0000, 0x100);
    assert(w / 0x100_0000_0000_0000 % 256 == w / 0x100_0000_0000_0000) by (nonlinear_arith)
        requires
            0 <= w <= 0xffff_ffff_ffff_ffff,
    ;
}

/// Distinct words lay out as distinct byte runs.
pub proof fn lemma_word_bytes_injective(a: u64, b: u64)
    requires
        word_bytes(a) == word_bytes(b),
    ensures
        a == b,
{
    assert(word_bytes(a)[0] == word_bytes(b)[0]);
    assert(word_bytes(a)[1] == word_bytes(b)[1]);
    assert(word_bytes(a)[2] == word_bytes(b)[2]);
    assert(word_bytes(a)[3] == word_bytes(b)[3]);
    assert(word_bytes(a)[4] == word_bytes(b)[4]);
    assert(word_bytes(a)[5] == word_bytes(b)[5]);
    assert(word_bytes(a)[6] == word_bytes(b)[6]);
    assert(word_bytes(a)[7] == word_bytes(b)[7]);
    lemma_word_reassemble(a as int);
    lemma_word_reassemble(b as int);
}

/// The pixel words of a payload, as one sequence.
pub open spec fn spec_word_seq(data: Seq<u8>) -> Seq<u64> {
    Seq::new((data.len() / 8) as nat, |i: int| spec_pixel_word(data, i) as u64)
}

/// How many distinct pixel words a payload holds.
pub open spec fn spec_distinct_word_count(data: Seq<u8>) -> int {
    spec_word_seq(data).to_set().len() as int
}

/// A duplicate-free palette that holds the same values as the word list is
/// exactly as long as the list's distinct-value count.
pub proof fn lemma_palette_len_is_distinct_count(palette: Seq<u64>, words: Seq<u64>)
    requires
        forall|i: int, j: int|
            0 <= i < j < palette.len() ==> #[trigger] palette[i] != #[trigger] palette[j],
        forall|i: int| 0 <= i < palette.len() ==> words.contains(#[trigger] palette[i]),
        forall|i: int| 0 <= i < words.len() ==> palette.contains(#[trigger] words[i]),
    ensures
        palette.len() == words.to_set().len(),
{
    broadcast use vstd::seq_lib::group_seq_properties;

    assert(palette.no_duplicates());
    palette.unique_seq_to_set();
    assert(palette.to_set() =~= words.to_set());
}

/// Find a word in the palette: the index of its first occurrence, if any.
fn palette_find(palette: &Vec<u64>, w: u64) -> (r: Option<usize>)
    ensures
        match r {
            Some(i) => i < palette@.len() && palette@[i as int] == w,
            None => !palette@.contains(w),
        },
{
    let mut i: usize = 0;
    while i < palette.len()
        invariant
            i <= palette@.len(),
            forall|j: int| 0 <= j < i ==> palette@[j] != w,
        decreases palette@.len() - i,
    {
        if palette[i] == w {
            return Some(i);
        }
        i = i + 1;
    }
    proof {
        assert(!palette@.contains(w));
    }
    None
}

/// Collect the distinct pixel words, each exactly once, in order of first
/// occurrence.
pub fn build_palette(words: &Vec<u64>) -> (palette: Vec<u64>)
    ensures
        forall|i: int, j: int|
            0 <= i < j < palette@.len() ==> #[trigger] palette@[i] != #[trigger] palette@[j],
        forall|i: int| 0 <= i < palette@.len() ==> words@.contains(#[trigger] palette@[i]),
        forall|i: int| 0 <= i < words@.len() ==> palette@.contains(#[trigger] words@[i]),
{
    let mut palette: Vec<u64> = Vec::new();
    let mut k: usize = 0;
    while k < words.len()
        invariant
            k <= words@.len(),
            forall|i: int, j: int|
                0 <= i < j < palette@.len() ==> #[trigger] palette@[i] != #[trigger] palette@[j],
            forall|i: int| 0 <= i < palette@.len() ==> words@.contains(#[trigger] palette@[i]),
            forall|i: int| 0 <= i < k ==> palette@.contains(#[trigger] words@[i]),
        decreases words@.len() - k,
    {
        let w: u64 = words[k];
        let ghost before = palette@;
        let found = palette_find(&palette, w);
        match found {
            Some(i) => {
                proof {
                    assert(palette@[i as int] == w);
                    assert(palette@.contains(w));
                }
            },
            None => {
                palette.push(w);
                proof {
                    assert(palette@ == before.push(w));
                    assert(palette@[before.len() as int] == w);
                    assert(palette@.contains(w));
                    assert forall|i: int| 0 <= i < k implies palette@.contains(
                        #[trigger] words@[i],
                    ) by {
                        let j = choose|j: int| 0 <= j < before.len() && before[j] == words@[i];
                        assert(palette@[j] == words@[i]);
                    }
                }
            },
        }
        k = k + 1;
    }
    palette
}

/// Replace each pixel word by the index of its palette entry.
pub fn index_pixels(words: &Vec<u64>, palette: &Vec<u64>) -> (indices: Vec<usize>)
    requires
        forall|i: int| 0 <= i < words@.len() ==> palette@.contains(#[trigger] words@[i]),
    ensures
        indices@.len() == words@.len(),
        forall|i: int|
            0 <= i < indices@.len() ==> #[trigger] indices@[i] < palette@.len()
                && palette@[indices@[i] as int] == words@[i],
{
    let mut indices: Vec<usize> = Vec::new();
    let mut k: usize = 0;
    while k < words.len()
        invariant
            k <= words@.len(),
            indices@.len() == k,
            forall|i: int| 0 <= i < words@.len() ==> palette@.contains(#[trigger] words@[i]),
            forall|i: int|
                0 <= i < k ==> #[trigger] indices@[i] < palette@.len()
                    && palette@[indices@[i] as int] == words@[i],
        decreases words@.len() - k,
    {
        let w: u64 = words[k];
        let found = palette_find(palette, w);
        match found {
            Some(i) => {
                indices.push(i);
            },
            None => {
                // every word is in the palette, so this cannot happen
                proof {
                    assert(palette@.contains(words@[k as int]));
                }
                assert(false);
                indices.push(0);
            },
        }
        k = k + 1;
    }
    indices
}

/// Rebuild the pixel words from a palette and an index image. This is the
/// exact inverse of `index_pixels`: expanding what it produced gives back
/// the original words, pixel for pixel.
pub fn expand_indexed(palette: &Vec<u64>, indices: &Vec<usize>) -> (words: Vec<u64>)
    requires
        forall|i: int| 0 <= i < indices@.len() ==> #[trigger] indices@[i] < palette@.len(),
    ensures
        words@.len() == indices@.len(),
        forall|i: int|
            0 <= i < words@.len() ==> #[trigger] words@[i] == palette@[indices@[i] as int],
{
    let mut words: Vec<u64> = Vec::new();
    let mut k: usize = 0;
    while k < indices.len()
        invariant
            k <= indices@.len(),
            words@.len() == k,
            forall|i: int| 0 <= i < indices@.len() ==> #[trigger] indices@[i] < palette@.len(),
            forall|i: int|
                0 <= i < k ==> #[trigger] words@[i] == palette@[indices@[i] as int],
        decreases indices@.len() - k,
    {
        let idx: usize = indices[k];
        words.push(palette[idx]);
        k = k + 1;
    }
    words
}

/// Indexing then expanding returns the original pixels: the palette path of
/// the codec is lossless.
pub proof fn lemma_index_expand_roundtrip(
    words: Seq<u64>,
    palette: Seq<u64>,
    indices: Seq<usize>,
    expanded: Seq<u64>,
)
    requires
        indices.len() == words.len(),
        forall|i: int|
            0 <= i < indices.len() ==> #[trigger] indices[i] < palette.len()
                && palette[indices[i] as int] == words[i],
        expanded.len() == indices.len(),
        forall|i: int|
            0 <= i < expanded.len() ==> #[trigger] expanded[i] == palette[indices[i] as int],
    ensures
        expanded == words,
{
    assert(expanded =~= words);
}

} // verus!
