//! The pixelation filter of the screen-blur tool.
//!
//! An image is blurred by handing out chunks of `scale` rows to workers;
//! each worker pixelates its chunk with [`blur_row_chunk`].  The host does
//! the screenshotting, decoding, chunking and encoding; the byte
//! computation on one chunk is here.

use vstd::prelude::*;

use vstd::arithmetic::div_mod::lemma_fundamental_div_mod;

verus! {

/// The image dimensions and the scale factor a worker needs.
pub struct ImageSpecs {
    /// Pixels per row.
    pub width: usize,
    /// Bytes per pixel.
    pub channel_count: usize,
    /// The width, in pixels, of the square blocks the image is reduced to.
    pub scale: usize,
}

/// `s` concatenated with itself `n` times.
pub open spec fn repeat_seq(s: Seq<u8>, n: int) -> Seq<u8>
    decreases n,
{
    if n <= 0 {
        Seq::empty()
    } else {
        repeat_seq(s, n - 1) + s
    }
}

/// One row of three-byte pixels, pixelated for the given scale: each full
/// chunk of `scale` pixels is replaced by copies of the chunk's middle
/// pixel; of the remaining pixels (the row's width need not divide by the
/// scale), two or more are all replaced by the first of them, and a single
/// one is left as it is.
pub open spec fn spec_pixelated_row(row: Seq<u8>, scale: int) -> Seq<u8>
    decreases row.len(),
{
    if scale >= 1 && row.len() >= scale * 3 {
        let mid = row.subrange((scale / 2) * 3, (scale / 2) * 3 + 3);
        repeat_seq(mid, scale) + spec_pixelated_row(row.skip(scale * 3), scale)
    } else if row.len() > 3 {
        repeat_seq(row.take(3), row.len() as int / 3)
    } else {
        row
    }
}

/// Take a chunk of rows and pixelate them: the chunk's middle row is
/// pixelated in place, and the pixelated row is copied into every row of
/// the target chunk.
///
/// The filter works on three-byte pixels, whole rows, and square blocks of
/// at least one pixel; the preconditions say exactly that, and rule out the
/// inputs on which the original byte arithmetic would be out of bounds.
pub fn blur_row_chunk(source: &mut Vec<u8>, target: &mut Vec<u8>, specs: &ImageSpecs)
    requires
        specs.channel_count == 3,
        1 <= specs.scale,
        1 <= specs.width,
        specs.width * 3 <= usize::MAX,
        specs.scale * 3 <= usize::MAX,
        old(source)@.len() >= specs.width * 3,
        old(source)@.len() as int % (specs.width as int * 3) == 0,
        old(target)@.len() == old(source)@.len(),
    ensures
        ({
            let row_bytes = specs.width as int * 3;
            let rows = old(source)@.len() as int / row_bytes;
            let row_start = (rows / 2) * row_bytes;
            let pixelated = spec_pixelated_row(
                old(source)@.subrange(row_start, row_start + row_bytes),
                specs.scale as int,
            );
            &&& final(source)@ == old(source)@.take(row_start) + pixelated + old(source)@.skip(
                row_start + row_bytes,
            )
            &&& final(target)@ == repeat_seq(pixelated, rows)
        }),
{
    let row_bytes = specs.width * 3;
    let rows = source.len() / row_bytes;
    // Get the middle row (floored) and its start index.
    let middle = rows / 2;
    proof {
        lemma_fundamental_div_mod(source@.len() as int, row_bytes as int);
        assert(source@.len() as int == row_bytes as int * rows as int);
        assert(rows as int * row_bytes as int == row_bytes as int * rows as int)
            by (nonlinear_arith);
        if rows == 0 {
            assert(source@.len() as int == row_bytes as int * 0);
        }
        assert(rows >= 1);
        assert(middle < rows);
        assert((middle + 1) * row_bytes as int <= rows * row_bytes as int) by (nonlinear_arith)
            requires
                0 <= middle < rows,
                0 <= row_bytes,
        ;
        assert(middle * row_bytes as int + row_bytes as int == (middle + 1) * row_bytes as int)
            by (nonlinear_arith);
    }
    let row_start = middle * row_bytes;
    let ghost mrow = source@.subrange(row_start as int, row_start as int + row_bytes as int);

    // Step 1: pixelate the middle row, chunk by chunk of `scale` pixels.
    let chunk_bytes = specs.scale * 3;
    let mid_off = (specs.scale / 2) * 3;
    proof {
        assert(mid_off + 3 <= chunk_bytes);
        assert(mrow.skip(0) =~= mrow);
        assert(Seq::<u8>::empty() + spec_pixelated_row(mrow, specs.scale as int)
            =~= spec_pixelated_row(mrow, specs.scale as int));
    }
    let mut pixrow: Vec<u8> = Vec::new();
    let mut b: usize = 0;
    while chunk_bytes <= row_bytes - b
        invariant
            b <= row_bytes,
            b % 3 == 0,
            chunk_bytes == specs.scale * 3,
            mid_off == (specs.scale / 2) * 3,
            mid_off + 3 <= chunk_bytes,
            1 <= specs.scale,
            source@.len() <= usize::MAX,
            row_bytes == specs.width * 3,
            row_start + row_bytes <= source@.len(),
            mrow == source@.subrange(row_start as int, row_start as int + row_bytes as int),
            mrow.len() == row_bytes,
            pixrow@.len() == b,
            spec_pixelated_row(mrow, specs.scale as int) == pixrow@ + spec_pixelated_row(
                mrow.skip(b as int),
                specs.scale as int,
            ),
        decreases row_bytes - b,
    {
        let ghost pix0 = pixrow@;
        let ghost midpx = mrow.subrange(b + mid_off, b + mid_off + 3);
        // Replace all pixels of the chunk with its middle pixel.
        let mut k: usize = 0;
        while k < specs.scale
            invariant
                k <= specs.scale,
                b + chunk_bytes <= row_bytes,
                chunk_bytes == specs.scale * 3,
                mid_off + 3 <= chunk_bytes,
                source@.len() <= usize::MAX,
                row_start + row_bytes <= source@.len(),
                mrow == source@.subrange(row_start as int, row_start as int + row_bytes as int),
                mrow.len() == row_bytes,
                midpx == mrow.subrange(b + mid_off, b + mid_off + 3),
                pixrow@ == pix0 + repeat_seq(midpx, k as int),
                pixrow@.len() == pix0.len() + 3 * (k as int),
            decreases specs.scale - k,
        {
            let ghost before = pixrow@;
            pixrow.push(source[row_start + b + mid_off]);
            pixrow.push(source[row_start + b + mid_off + 1]);
            pixrow.push(source[row_start + b + mid_off + 2]);
            proof {
                assert(midpx.len() == 3);
                assert(pixrow@ =~= before + midpx);
                assert(repeat_seq(midpx, k + 1) == repeat_seq(midpx, k as int) + midpx);
                assert(pixrow@ =~= pix0 + repeat_seq(midpx, k + 1));
            }
            k = k + 1;
        }
        proof {
            let tail = mrow.skip(b as int);
            assert(tail.len() >= specs.scale * 3);
            assert(tail.subrange((specs.scale as int / 2) * 3, (specs.scale as int / 2) * 3 + 3)
                =~= midpx);
            assert(tail.skip(chunk_bytes as int) =~= mrow.skip(b + chunk_bytes));
            assert(spec_pixelated_row(tail, specs.scale as int) == repeat_seq(midpx, specs.scale as int)
                + spec_pixelated_row(mrow.skip(b + chunk_bytes), specs.scale as int));
            assert((pix0 + repeat_seq(midpx, specs.scale as int)) + spec_pixelated_row(
                mrow.skip(b + chunk_bytes),
                specs.scale as int,
            ) =~= pix0 + (repeat_seq(midpx, specs.scale as int) + spec_pixelated_row(
                mrow.skip(b + chunk_bytes),
                specs.scale as int,
            )));
        }
        b = b + chunk_bytes;
    }
    // For the remainder of the row (the width need not divide by the scale),
    // take the first remaining pixel instead of a middle one — but only copy
    // anything if there is more than one pixel.
    let rem = row_bytes - b;
    if rem > 3 {
        let ghost pix0 = pixrow@;
        let ghost firstpx = mrow.subrange(b as int, b + 3);
        let pixel_count = rem / 3;
        let mut k: usize = 0;
        while k < pixel_count
            invariant
                k <= pixel_count,
                pixel_count == rem / 3,
                rem == row_bytes - b,
                b + 3 <= row_bytes,
                source@.len() <= usize::MAX,
                row_start + row_bytes <= source@.len(),
                mrow == source@.subrange(row_start as int, row_start as int + row_bytes as int),
                mrow.len() == row_bytes,
                firstpx == mrow.subrange(b as int, b + 3),
                pixrow@ == pix0 + repeat_seq(firstpx, k as int),
                pixrow@.len() == pix0.len() + 3 * (k as int),
            decreases pixel_count - k,
        {
            let ghost before = pixrow@;
            pixrow.push(source[row_start + b]);
            pixrow.push(source[row_start + b + 1]);
            pixrow.push(source[row_start + b + 2]);
            proof {
                assert(firstpx.len() == 3);
                assert(pixrow@ =~= before + firstpx);
                assert(repeat_seq(firstpx, k + 1) == repeat_seq(firstpx, k as int) + firstpx);
                assert(pixrow@ =~= pix0 + repeat_seq(firstpx, k + 1));
            }
            k = k + 1;
        }
        proof {
            let tail = mrow.skip(b as int);
            assert(tail.len() == rem);
            assert(tail.len() < specs.scale * 3);
            assert(tail.take(3) =~= firstpx);
            assert(spec_pixelated_row(tail, specs.scale as int) == repeat_seq(
                firstpx,
                rem as int / 3,
            ));
        }
    } else {
        // Zero remaining pixels, or a single one, which is kept as it is.
        let ghost pix0 = pixrow@;
        let mut k: usize = 0;
        while k < rem
            invariant
                k <= rem,
                rem == row_bytes - b,
                source@.len() <= usize::MAX,
                row_start + row_bytes <= source@.len(),
                mrow == source@.subrange(row_start as int, row_start as int + row_bytes as int),
                mrow.len() == row_bytes,
                pixrow@ == pix0 + mrow.subrange(b as int, b + k),
            decreases rem - k,
        {
            pixrow.push(source[row_start + b + k]);
            proof {
                assert(pixrow@ =~= pix0 + mrow.subrange(b as int, b + k + 1));
            }
            k = k + 1;
        }
        proof {
            let tail = mrow.skip(b as int);
            assert(tail.len() < specs.scale * 3);
            assert(tail.len() <= 3);
            assert(mrow.subrange(b as int, b + rem) =~= tail);
            assert(spec_pixelated_row(tail, specs.scale as int) == tail);
        }
    }
    proof {
        assert(pixrow@ == spec_pixelated_row(mrow, specs.scale as int));
    }

    // Splice the pixelated row back into the source chunk.
    let source_len = source.len();
    let mut new_source: Vec<u8> = Vec::new();
    let mut i: usize = 0;
    while i < row_start
        invariant
            i <= row_start,
            row_start + row_bytes <= source@.len(),
            new_source@ == source@.take(i as int),
        decreases row_start - i,
    {
        new_source.push(source[i]);
        proof {
            assert(new_source@ =~= source@.take(i + 1));
        }
        i = i + 1;
    }
    let pixrow_len = pixrow.len();
    let mut j: usize = 0;
    while j < pixrow_len
        invariant
            j <= pixrow_len,
            pixrow_len == pixrow@.len(),
            row_start + row_bytes <= source@.len(),
            new_source@ == source@.take(row_start as int) + pixrow@.take(j as int),
        decreases pixrow_len - j,
    {
        new_source.push(pixrow[j]);
        proof {
            assert(new_source@ =~= source@.take(row_start as int) + pixrow@.take(j + 1));
        }
        j = j + 1;
    }
    let mut i: usize = row_start + row_bytes;
    proof {
        assert(pixrow@.take(pixrow@.len() as int) =~= pixrow@);
    }
    while i < source_len
        invariant
            row_start + row_bytes <= i <= source_len,
            source_len == source@.len(),
            new_source@ == source@.take(row_start as int) + pixrow@ + source@.subrange(
                row_start + row_bytes,
                i as int,
            ),
        decreases source_len - i,
    {
        new_source.push(source[i]);
        proof {
            assert(new_source@ =~= source@.take(row_start as int) + pixrow@ + source@.subrange(
                row_start + row_bytes,
                i + 1,
            ));
        }
        i = i + 1;
    }
    proof {
        assert(source@.subrange(row_start + row_bytes, source@.len() as int) =~= source@.skip(
            row_start + row_bytes,
        ));
    }

    // Copy the pixelated row into every row of the target chunk.
    let mut new_target: Vec<u8> = Vec::new();
    let mut r: usize = 0;
    while r < rows
        invariant
            r <= rows,
            pixrow@.len() == row_bytes,
            new_target@ == repeat_seq(pixrow@, r as int),
        decreases rows - r,
    {
        let ghost row0 = new_target@;
        let mut j: usize = 0;
        while j < row_bytes
            invariant
                j <= row_bytes,
                pixrow@.len() == row_bytes,
                new_target@ == row0 + pixrow@.take(j as int),
            decreases row_bytes - j,
        {
            new_target.push(pixrow[j]);
            proof {
                assert(new_target@ =~= row0 + pixrow@.take(j + 1));
            }
            j = j + 1;
        }
        proof {
            assert(pixrow@.take(row_bytes as int) =~= pixrow@);
            assert(new_target@ =~= repeat_seq(pixrow@, r + 1));
        }
        r = r + 1;
    }

    *source = new_source;
    *target = new_target;
}

} // verus!
