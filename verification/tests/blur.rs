use script_utils::blur::{blur_row_chunk, ImageSpecs};

/// A row of gray pixels: each value becomes one three-byte pixel.
fn px_row(vals: &[u8]) -> Vec<u8> {
    let mut row = Vec::new();
    for v in vals {
        row.push(*v);
        row.push(*v);
        row.push(*v);
    }
    row
}

fn chunk(rows: &[&[u8]]) -> Vec<u8> {
    let mut bytes = Vec::new();
    for row in rows {
        bytes.append(&mut px_row(row));
    }
    bytes
}

#[test]
fn pixelates_a_three_row_chunk() {
    // A 9x3 pixel matrix, scale 3: the middle row's 3x-pixel grids take the
    // color of their center pixel, and that row fills the whole target.
    let mut source = chunk(&[
        &[1, 2, 3, 4, 5, 6, 7, 8, 9],
        &[9, 8, 7, 6, 5, 4, 3, 2, 1],
        &[7, 7, 7, 8, 8, 8, 9, 9, 9],
    ]);
    let mut target = vec![0; source.len()];
    let specs = ImageSpecs { width: 9, channel_count: 3, scale: 3 };

    blur_row_chunk(&mut source, &mut target, &specs);

    let pixelated: &[u8] = &[8, 8, 8, 5, 5, 5, 2, 2, 2];
    assert_eq!(target, chunk(&[pixelated, pixelated, pixelated]));
    // Only the source's middle row was touched.
    assert_eq!(
        source,
        chunk(&[&[1, 2, 3, 4, 5, 6, 7, 8, 9], pixelated, &[7, 7, 7, 8, 8, 8, 9, 9, 9]])
    );
}

#[test]
fn remainder_pixels_take_the_first_of_them() {
    // Width 11, scale 3: three full grids, then two leftover pixels that
    // both take the first leftover's color.
    let mut source = chunk(&[&[0, 1, 2, 3, 4, 5, 6, 7, 8, 9, 10]]);
    let mut target = vec![0; source.len()];
    let specs = ImageSpecs { width: 11, channel_count: 3, scale: 3 };

    blur_row_chunk(&mut source, &mut target, &specs);

    assert_eq!(target, px_row(&[1, 1, 1, 4, 4, 4, 7, 7, 7, 9, 9]));
}

#[test]
fn single_remainder_pixel_is_kept() {
    // Width 10, scale 3: one leftover pixel, which keeps its own color.
    let mut source = chunk(&[&[0, 1, 2, 3, 4, 5, 6, 7, 8, 9]]);
    let mut target = vec![0; source.len()];
    let specs = ImageSpecs { width: 10, channel_count: 3, scale: 3 };

    blur_row_chunk(&mut source, &mut target, &specs);

    assert_eq!(target, px_row(&[1, 1, 1, 4, 4, 4, 7, 7, 7, 9]));
}

#[test]
fn scale_wider_than_the_row_uses_the_first_pixel() {
    // With no full grid at all, the whole row takes the first pixel's color.
    let mut source = chunk(&[&[3, 7], &[5, 6]]);
    let mut target = vec![0; source.len()];
    let specs = ImageSpecs { width: 2, channel_count: 3, scale: 5 };

    blur_row_chunk(&mut source, &mut target, &specs);

    // Two rows: the middle row (floored) of two is the second.
    assert_eq!(target, chunk(&[&[5, 5], &[5, 5]]));
}

#[test]
fn even_scale_takes_the_pixel_past_the_center() {
    let mut source = chunk(&[&[1, 2, 3, 4]]);
    let mut target = vec![0; source.len()];
    let specs = ImageSpecs { width: 4, channel_count: 3, scale: 2 };

    blur_row_chunk(&mut source, &mut target, &specs);

    assert_eq!(target, px_row(&[2, 2, 4, 4]));
}
