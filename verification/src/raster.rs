//! Layout of a texture's sample buffer and of the work on many textures.
//!
//! A texture of resolution `R` has `R` rows of `R` pixels. Its buffer holds
//! the rows one after the other, northmost row first, each pixel as
//! `CHANNELS` equal samples. The functions here are the index arithmetic of
//! that layout: where a pixel's samples lie, and which spot of the tile a
//! sample stands for.

use vstd::arithmetic::div_mod::lemma_fundamental_div_mod_converse;
use vstd::prelude::*;

use crate::global_constants::CHANNELS;

verus! {

/// Samples in one row of a texture of the given resolution.
pub open spec fn row_length(resolution: u16) -> int {
    CHANNELS * resolution
}

/// Samples in the whole buffer of a texture of the given resolution.
pub open spec fn buffer_size(resolution: u16) -> int {
    row_length(resolution) * resolution
}

/// Offset of the first sample of the pixel in column `column` of row `row`.
pub open spec fn offset_of(column: int, row: int, resolution: u16) -> int {
    column * CHANNELS + row * row_length(resolution)
}

/// The number of samples to allocate for a texture.
pub fn buffer_length(resolution: u16) -> (length: u64)
    ensures
        length == buffer_size(resolution),
{
    assert(3 * resolution * resolution <= 3 * 65535 * 65535) by (nonlinear_arith)
        requires
            resolution <= 65535,
    ;
    let row: u64 = (CHANNELS as u64) * (resolution as u64);
    row * (resolution as u64)
}

/// Where the samples of a pixel start in the buffer. The pixel's
/// `CHANNELS` samples lie at the returned offset and after it.
pub fn sample_offset(column: u16, row: u16, resolution: u16) -> (offset: u64)
    requires
        column < resolution,
        row < resolution,
    ensures
        offset == offset_of(column as int, row as int, resolution),
        offset + CHANNELS <= buffer_size(resolution),
        offset % (CHANNELS as u64) == 0,
{
    proof {
        lemma_offset_bounds(column as int, row as int, resolution);
    }
    let stride: u64 = (CHANNELS as u64) * (resolution as u64);
    (column as u64) * (CHANNELS as u64) + (row as u64) * stride
}

/// The spot of a tile that a sample stands for, as two fractions of the
/// tile's extent: `east / east_steps` of the way from the western to the
/// eastern edge, and `north / north_steps` of the way from the southern to
/// the northern edge.
#[derive(Clone, Copy, Debug, PartialEq, Eq, Structural)]
pub struct SamplePosition {
    pub east: u64,
    pub east_steps: u64,
    pub north: u64,
    pub north_steps: u64,
}

/// The position that the sample at `offset` stands for.
pub open spec fn position_of(offset: int, resolution: u16) -> SamplePosition {
    SamplePosition {
        east: (offset % row_length(resolution)) as u64,
        east_steps: row_length(resolution) as u64,
        north: (resolution - offset / row_length(resolution)) as u64,
        north_steps: resolution as u64,
    }
}

/// The spot of the tile that the sample at `offset` stands for. Buffer rows
/// run from north to south: the first row lies on the tile's northern edge.
pub fn sample_position(offset: u64, resolution: u16) -> (position: SamplePosition)
    requires
        offset < buffer_size(resolution),
    ensures
        position == position_of(offset as int, resolution),
        position.east < position.east_steps,
        0 < position.north <= position.north_steps,
{
    proof {
        let r = resolution as int;
        assert(r > 0 && (offset as int) / (3 * r) < r) by (nonlinear_arith)
            requires
                0 <= offset < (3 * r) * r,
                0 <= r,
        ;
    }
    let stride: u64 = (CHANNELS as u64) * (resolution as u64);
    let row: u64 = offset / stride;
    SamplePosition {
        east: offset % stride,
        east_steps: stride,
        north: (resolution as u64) - row,
        north_steps: resolution as u64,
    }
}

/// Lays out one height per pixel as the samples of a texture: each height
/// three times in a row, once for each channel, in the order of the pixels.
pub fn replicate_channels<T: Copy>(heights: &Vec<T>) -> (samples: Vec<T>)
    requires
        heights@.len() * CHANNELS <= usize::MAX,
    ensures
        samples@.len() == CHANNELS * heights@.len(),
        forall|i: int|
            0 <= i < samples@.len() ==> #[trigger] samples@[i] == heights@[i / (CHANNELS as int)],
{
    let mut samples: Vec<T> = Vec::with_capacity(heights.len() * 3);
    let mut pixel: usize = 0;
    while pixel < heights.len()
        invariant
            pixel <= heights@.len(),
            heights@.len() * 3 <= usize::MAX,
            samples@.len() == 3 * pixel,
            forall|i: int| 0 <= i < samples@.len() ==> #[trigger] samples@[i] == heights@[i / 3],
        decreases heights@.len() - pixel,
    {
        let height: T = heights[pixel];
        samples.push(height);
        samples.push(height);
        samples.push(height);
        pixel = pixel + 1;
    }
    samples
}

proof fn lemma_offset_bounds(column: int, row: int, resolution: u16)
    requires
        0 <= column < resolution,
        0 <= row < resolution,
    ensures
        0 <= offset_of(column, row, resolution),
        offset_of(column, row, resolution) + 3 <= buffer_size(resolution),
        buffer_size(resolution) <= 3 * 65535 * 65535,
        offset_of(column, row, resolution) % 3 == 0,
        0 <= row * row_length(resolution) <= 3 * 65535 * 65535,
{
    let r = resolution as int;
    assert(row * (3 * r) <= (r - 1) * (3 * r) && 0 <= row * (3 * r)) by (nonlinear_arith)
        requires
            0 <= row <= r - 1,
            0 < r,
    ;
    assert((r - 1) * (3 * r) + 3 * r == (3 * r) * r) by (nonlinear_arith);
    assert((3 * r) * r <= 3 * 65535 * 65535) by (nonlinear_arith)
        requires
            0 < r <= 65535,
    ;
    assert(column * 3 + row * (3 * r) == 3 * (column + row * r)) by (nonlinear_arith);
    vstd::arithmetic::div_mod::lemma_mod_multiples_basic(column + row * r, 3);
    assert((column + row * r) * 3 == 3 * (column + row * r));
}

/// The sample position of a pixel, found from its offset, is the pixel's
/// own: column `c` lies `3c` of `3R` steps east, and row `r` lies `R - r` of
/// `R` steps north, so that the first row is the northmost.
pub proof fn lemma_position_of_pixel(column: int, row: int, resolution: u16)
    requires
        0 <= column < resolution,
        0 <= row < resolution,
    ensures
        position_of(offset_of(column, row, resolution), resolution) == (SamplePosition {
            east: (3 * column) as u64,
            east_steps: (3 * resolution) as u64,
            north: (resolution - row) as u64,
            north_steps: resolution as u64,
        }),
{
    let stride = row_length(resolution);
    let offset = offset_of(column, row, resolution);
    assert(offset == stride * row + 3 * column) by (nonlinear_arith)
        requires
            offset == column * 3 + row * stride,
    ;
    lemma_fundamental_div_mod_converse(offset, stride, row, 3 * column);
}

/// Different pixels own different samples: their offsets differ, by at
/// least a whole pixel.
pub proof fn lemma_pixels_do_not_overlap(
    column_a: int,
    row_a: int,
    column_b: int,
    row_b: int,
    resolution: u16,
)
    requires
        0 <= column_a < resolution,
        0 <= row_a < resolution,
        0 <= column_b < resolution,
        0 <= row_b < resolution,
        column_a != column_b || row_a != row_b,
    ensures
        offset_of(column_a, row_a, resolution) + 3 <= offset_of(column_b, row_b, resolution)
            || offset_of(column_b, row_b, resolution) + 3 <= offset_of(
            column_a,
            row_a,
            resolution,
        ),
{
    lemma_position_of_pixel(column_a, row_a, resolution);
    lemma_position_of_pixel(column_b, row_b, resolution);
    lemma_offset_bounds(column_a, row_a, resolution);
    lemma_offset_bounds(column_b, row_b, resolution);
    let a = offset_of(column_a, row_a, resolution);
    let b = offset_of(column_b, row_b, resolution);
    if a == b {
        assert(position_of(a, resolution).east == position_of(b, resolution).east);
        assert(position_of(a, resolution).north == position_of(b, resolution).north);
        assert(false);
    }
}

} // verus!
