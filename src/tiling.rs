use vstd::prelude::*;

use crate::image::{
    BLOCK_LINESIZE, BLOCK_PIXELS_1D, BLOCK_SIZE, SPRITE_LINESIZE, SPRITE_PIXELS_1D, SPRITE_SIZE,
    TILE_LINESIZE, TILE_PIXELS_1D,
};

verus! {

/// Source byte that lands on destination byte `k` when patches of
/// `src_linesize` bytes by `src_rows` rows are laid out row-major onto a
/// surface `dst_linesize` bytes wide: left to right, then the next line of
/// patches.
pub open spec fn rowmajor_source(
    k: int,
    dst_linesize: int,
    src_linesize: int,
    src_rows: int,
) -> int {
    let row = k / dst_linesize;
    let within = k % dst_linesize;
    (rowmajor_patch(k, dst_linesize, src_linesize, src_rows) * src_rows + row % src_rows)
        * src_linesize + within % src_linesize
}

/// Index of the patch that covers destination byte `k` (row-major layout).
pub open spec fn rowmajor_patch(k: int, dst_linesize: int, src_linesize: int, src_rows: int) -> int {
    (k / dst_linesize / src_rows) * (dst_linesize / src_linesize) + (k % dst_linesize) / src_linesize
}

/// Source byte that lands on destination byte `k` when rows of
/// `src_linesize` bytes are laid out column-major onto a surface
/// `dst_linesize` bytes wide and `dst_rows` rows high: top to bottom, then
/// the next column.
pub open spec fn colmajor_source(k: int, dst_linesize: int, dst_rows: int, src_linesize: int) -> int {
    let within = k % dst_linesize;
    ((within / src_linesize) * dst_rows + k / dst_linesize) * src_linesize + within % src_linesize
}

proof fn lemma_rowmajor_bound(k: int, dl: int, dr: int, sl: int, sr: int)
    requires
        0 <= k < dl * dr,
        dl >= 0,
        sl > 0,
        sr > 0,
        dl % sl == 0,
        dr % sr == 0,
    ensures
        0 <= rowmajor_source(k, dl, sl, sr) < dl * dr,
        0 <= (k / dl / sr) * (dl / sl) <= rowmajor_patch(k, dl, sl, sr),
        0 <= rowmajor_patch(k, dl, sl, sr) * sr + (k / dl) % sr,
        rowmajor_patch(k, dl, sl, sr) <= rowmajor_patch(k, dl, sl, sr) * sr,
        rowmajor_patch(k, dl, sl, sr) * sr + (k / dl) % sr <= (rowmajor_patch(k, dl, sl, sr) * sr + (
        k / dl) % sr) * sl,
        (rowmajor_patch(k, dl, sl, sr) * sr + (k / dl) % sr) * sl <= rowmajor_source(k, dl, sl, sr),
{
    let q = dl / sl;
    let row = k / dl;
    let within = k % dl;
    let pr = row / sr;
    let r = row % sr;
    let pc = within / sl;
    let b = within % sl;
    assert(dl > 0) by (nonlinear_arith)
        requires
            0 <= k < dl * dr,
            dl >= 0,
    ;
    assert(0 <= row < dr) by (nonlinear_arith)
        requires
            0 <= k < dl * dr,
            dl > 0,
            row == k / dl,
    ;
    assert(0 <= within < dl);
    assert(dl == q * sl) by (nonlinear_arith)
        requires
            dl % sl == 0,
            q == dl / sl,
            sl > 0,
    ;
    assert(0 <= pc < q) by (nonlinear_arith)
        requires
            0 <= within < dl,
            dl == q * sl,
            pc == within / sl,
            sl > 0,
    ;
    let nr = dr / sr;
    assert(dr == nr * sr) by (nonlinear_arith)
        requires
            dr % sr == 0,
            nr == dr / sr,
            sr > 0,
    ;
    assert(0 <= pr < nr) by (nonlinear_arith)
        requires
            0 <= row < dr,
            dr == nr * sr,
            pr == row / sr,
            sr > 0,
    ;
    let patch = pr * q + pc;
    assert(0 <= patch < nr * q) by (nonlinear_arith)
        requires
            0 <= pr < nr,
            0 <= pc < q,
            patch == pr * q + pc,
    ;
    assert(0 <= r < sr && 0 <= b < sl);
    assert(0 <= (patch * sr + r) * sl + b < nr * q * sr * sl) by (nonlinear_arith)
        requires
            0 <= patch < nr * q,
            0 <= r < sr,
            0 <= b < sl,
    ;
    assert(nr * q * sr * sl == dl * dr) by (nonlinear_arith)
        requires
            dl == q * sl,
            dr == nr * sr,
    ;
    assert(0 <= pr * q) by (nonlinear_arith)
        requires
            0 <= pr,
            0 <= q,
    ;
    assert(patch * sr + r <= (patch * sr + r) * sl) by (nonlinear_arith)
        requires
            0 <= patch,
            0 <= r,
            sr > 0,
            sl > 0,
    ;
    assert(0 <= patch <= patch * sr) by (nonlinear_arith)
        requires
            0 <= patch,
            sr > 0,
    ;
}

proof fn lemma_colmajor_bound(k: int, dl: int, dr: int, sl: int)
    requires
        0 <= k < dl * dr,
        dl >= 0,
        sl > 0,
        dl % sl == 0,
    ensures
        0 <= colmajor_source(k, dl, dr, sl) < dl * dr,
        0 <= ((k % dl) / sl) * dr <= ((k % dl) / sl) * dr + k / dl,
        ((k % dl) / sl) * dr + k / dl <= (((k % dl) / sl) * dr + k / dl) * sl,
        (((k % dl) / sl) * dr + k / dl) * sl <= colmajor_source(k, dl, dr, sl),
{
    let q = dl / sl;
    let row = k / dl;
    let within = k % dl;
    let c = within / sl;
    let b = within % sl;
    assert(dl > 0) by (nonlinear_arith)
        requires
            0 <= k < dl * dr,
            dl >= 0,
    ;
    assert(0 <= row < dr) by (nonlinear_arith)
        requires
            0 <= k < dl * dr,
            dl > 0,
            row == k / dl,
    ;
    assert(dl == q * sl) by (nonlinear_arith)
        requires
            dl % sl == 0,
            q == dl / sl,
            sl > 0,
    ;
    assert(0 <= c < q) by (nonlinear_arith)
        requires
            0 <= within < dl,
            dl == q * sl,
            c == within / sl,
            sl > 0,
    ;
    assert(0 <= (c * dr + row) * sl + b < q * dr * sl) by (nonlinear_arith)
        requires
            0 <= c < q,
            0 <= row < dr,
            0 <= b < sl,
    ;
    assert(q * dr * sl == dl * dr) by (nonlinear_arith)
        requires
            dl == q * sl,
    ;
    assert(0 <= c * dr) by (nonlinear_arith)
        requires
            0 <= c,
            0 <= dr,
    ;
    assert((c * dr + row) <= (c * dr + row) * sl) by (nonlinear_arith)
        requires
            0 <= c * dr + row,
            sl > 0,
    ;
}

/// Lays out a stream of 2D patches (`src`) onto a 2D surface (`dst`) in
/// row-major order: patches go left to right until the line is full, then
/// onto the next line of patches. Line sizes are in bytes.
pub fn reflow(
    dst: &mut Vec<u8>,
    dst_linesize: usize,
    dst_rows: usize,
    src: &Vec<u8>,
    src_linesize: usize,
    src_rows: usize,
)
    requires
        src_linesize > 0,
        src_rows > 0,
        dst_linesize % src_linesize == 0,
        dst_rows % src_rows == 0,
        old(dst)@.len() == dst_linesize * dst_rows,
        src@.len() == old(dst)@.len(),
    ensures
        final(dst)@.len() == old(dst)@.len(),
        forall|k: int|
            0 <= k < final(dst)@.len() ==> #[trigger] final(dst)@[k] == src@[rowmajor_source(
                k,
                dst_linesize as int,
                src_linesize as int,
                src_rows as int,
            )],
{
    let n = dst.len();
    let patches_per_line = dst_linesize / src_linesize;
    let mut k: usize = 0;
    while k < n
        invariant
            n == dst@.len(),
            n == dst_linesize * dst_rows,
            src@.len() == n,
            src_linesize > 0,
            src_rows > 0,
            dst_linesize % src_linesize == 0,
            dst_rows % src_rows == 0,
            patches_per_line == dst_linesize / src_linesize,
            k <= n,
            forall|i: int|
                0 <= i < k ==> #[trigger] dst@[i] == src@[rowmajor_source(
                    i,
                    dst_linesize as int,
                    src_linesize as int,
                    src_rows as int,
                )],
        decreases n - k,
    {
        proof {
            lemma_rowmajor_bound(
                k as int,
                dst_linesize as int,
                dst_rows as int,
                src_linesize as int,
                src_rows as int,
            );
        }
        let row = k / dst_linesize;
        let within = k % dst_linesize;
        let patch_row = row / src_rows;
        let patch = patch_row * patches_per_line + within / src_linesize;
        assert(patch == rowmajor_patch(
            k as int,
            dst_linesize as int,
            src_linesize as int,
            src_rows as int,
        ));
        assert(patch * src_rows + row % src_rows < n);
        let from = (patch * src_rows + row % src_rows) * src_linesize + within % src_linesize;
        dst.set(k, src[from]);
        k = k + 1;
    }
}

/// Same as `reflow`, but lays out rows of `src_linesize` bytes in
/// column-major order: top to bottom, then the next column of patches.
pub fn reflow_colmajor(
    dst: &mut Vec<u8>,
    dst_linesize: usize,
    dst_rows: usize,
    src: &Vec<u8>,
    src_linesize: usize,
)
    requires
        src_linesize > 0,
        dst_linesize % src_linesize == 0,
        old(dst)@.len() == dst_linesize * dst_rows,
        src@.len() == old(dst)@.len(),
    ensures
        final(dst)@.len() == old(dst)@.len(),
        forall|k: int|
            0 <= k < final(dst)@.len() ==> #[trigger] final(dst)@[k] == src@[colmajor_source(
                k,
                dst_linesize as int,
                dst_rows as int,
                src_linesize as int,
            )],
{
    let n = dst.len();
    let mut k: usize = 0;
    while k < n
        invariant
            n == dst@.len(),
            n == dst_linesize * dst_rows,
            src@.len() == n,
            src_linesize > 0,
            dst_linesize % src_linesize == 0,
            k <= n,
            forall|i: int|
                0 <= i < k ==> #[trigger] dst@[i] == src@[colmajor_source(
                    i,
                    dst_linesize as int,
                    dst_rows as int,
                    src_linesize as int,
                )],
        decreases n - k,
    {
        proof {
            lemma_colmajor_bound(k as int, dst_linesize as int, dst_rows as int, src_linesize as int);
        }
        let within = k % dst_linesize;
        let from = ((within / src_linesize) * dst_rows + k / dst_linesize) * src_linesize + within
            % src_linesize;
        dst.set(k, src[from]);
        k = k + 1;
    }
}

/// A 7x7-tile sprite stored tile column by tile column, 2 bytes per tile
/// row, rearranged into pixel rows of 14 bytes.
pub fn tiles_to_7x7_colmajor(tiles: &Vec<u8>) -> (r: Vec<u8>)
    requires
        tiles@.len() == 784,
    ensures
        r@.len() == 784,
        forall|k: int|
            0 <= k < 784 ==> #[trigger] r@[k] == tiles@[colmajor_source(k, 14, 56, 2)],
{
    let mut sprite7 = vec![0u8; 784];
    reflow_colmajor(&mut sprite7, 14, 56, tiles, TILE_LINESIZE);
    sprite7
}

/// Four 8x8 tiles in reading order rearranged into a 16x16 sprite.
pub fn tiles_to_2x2_rowmajor(tiles: &Vec<u8>) -> (r: Vec<u8>)
    requires
        tiles@.len() == SPRITE_SIZE,
    ensures
        r@.len() == SPRITE_SIZE,
        forall|k: int|
            0 <= k < SPRITE_SIZE ==> #[trigger] r@[k] == tiles@[rowmajor_source(k, 4, 2, 8)],
{
    let mut sprite = vec![0u8; SPRITE_SIZE];
    reflow(&mut sprite, SPRITE_LINESIZE, SPRITE_PIXELS_1D, tiles, TILE_LINESIZE, TILE_PIXELS_1D);
    sprite
}

/// Sixteen 8x8 tiles in reading order rearranged into a 32x32 block.
pub fn tiles_to_4x4_rowmajor(tiles: &Vec<u8>) -> (r: Vec<u8>)
    requires
        tiles@.len() == BLOCK_SIZE,
    ensures
        r@.len() == BLOCK_SIZE,
        forall|k: int|
            0 <= k < BLOCK_SIZE ==> #[trigger] r@[k] == tiles@[rowmajor_source(k, 8, 2, 8)],
{
    let mut block = vec![0u8; BLOCK_SIZE];
    reflow(&mut block, BLOCK_LINESIZE, BLOCK_PIXELS_1D, tiles, TILE_LINESIZE, TILE_PIXELS_1D);
    block
}

/// Lays out `w * h` blocks in reading order onto a map `w` blocks wide and
/// `h` blocks high.
pub fn blocks_to_map(dst: &mut Vec<u8>, blocks: &Vec<u8>, w: usize, h: usize)
    requires
        w * BLOCK_LINESIZE <= usize::MAX,
        h * BLOCK_PIXELS_1D <= usize::MAX,
        w * BLOCK_LINESIZE * (h * BLOCK_PIXELS_1D) <= usize::MAX,
        old(dst)@.len() == w * BLOCK_LINESIZE * (h * BLOCK_PIXELS_1D),
        blocks@.len() == old(dst)@.len(),
    ensures
        final(dst)@.len() == old(dst)@.len(),
        forall|k: int|
            0 <= k < final(dst)@.len() ==> #[trigger] final(dst)@[k] == blocks@[rowmajor_source(
                k,
                w * 8,
                8,
                32,
            )],
{
    let map_linesize = w * BLOCK_LINESIZE;
    let map_rows = h * BLOCK_PIXELS_1D;
    assert(map_linesize % 8 == 0 && map_rows % 32 == 0) by (nonlinear_arith)
        requires
            map_linesize == w * 8,
            map_rows == h * 32,
    ;
    reflow(dst, map_linesize, map_rows, blocks, BLOCK_LINESIZE, BLOCK_PIXELS_1D);
}

} // verus!
