use vstd::prelude::*;

use vstd::arithmetic::div_mod::{lemma_fundamental_div_mod, lemma_fundamental_div_mod_converse};
use vstd::arithmetic::power2::{lemma2_to64, lemma_pow2_strictly_increases, lemma_pow2_unfold, pow2};

use crate::image::{Image2bpp, TILE_PIXELS_1D};
use crate::reader::{
    addr_pos, advanced, lemma_advanced_pos, lemma_span_step, span_readable, Addr, Reader, RomError,
};
use crate::tiling::{colmajor_source, tiles_to_7x7_colmajor};

verus! {

/// A 1bpp plane of 7x7 tiles (8x8 pixels each).
pub const PLANE7_SIZE: usize = 7 * 7 * 8;
/// A 2bpp sprite of 7x7 tiles.
pub const SPRITE7_SIZE: usize = PLANE7_SIZE * 2;
pub const SPRITE7_LINESIZE: usize = 7 * 2;

// ---------------------------------------------------------------------------
// Bit source
// ---------------------------------------------------------------------------

/// Reads bits most significant first from successive bytes of a cursor.
/// `byte` holds the current byte, of which `bit` bits are left.
pub struct BitReader<'a> {
    pub reader: Reader<'a>,
    pub byte: u8,
    pub bit: u8,
}

/// Bit `j` of the stream whose first byte is at linear position `p0`,
/// most significant bit of each byte first.
pub open spec fn stream_bit(s: Seq<u8>, p0: int, j: int) -> u8 {
    (s[p0 + j / 8] >> ((7 - j % 8) as u8)) & 1
}

impl<'a> BitReader<'a> {
    pub open spec fn wf(&self) -> bool {
        self.bit < 8
    }

    /// The reader has consumed the first `n` bits of the stream that starts
    /// at linear position `p0`.
    pub open spec fn at(&self, p0: int, n: int) -> bool {
        &&& self.wf()
        &&& 0 <= n
        &&& (n + self.bit) % 8 == 0
        &&& addr_pos(self.reader.addr) == p0 + (n + self.bit) / 8
        &&& self.bit > 0 ==> self.byte == self.reader.stream@[p0 + (n + self.bit) / 8 - 1]
    }

    /// Having consumed `n` bits, every byte that holds one of the bits
    /// before bit `m` can be read.
    pub open spec fn has_bits(&self, p0: int, n: int, m: int) -> bool {
        m <= n || self.reader.can_read((m + 7) / 8 - (n + self.bit) / 8)
    }

    pub fn new(stream: &'a Vec<u8>, addr: Addr) -> (r: BitReader<'a>)
        ensures
            r.wf(),
            r.reader.stream == stream,
            r.reader.addr == addr,
            r.bit == 0,
    {
        BitReader { reader: Reader::new_at(stream, addr), byte: 0, bit: 0 }
    }

    /// The next bit: from the current byte while it has bits left, else from
    /// a fresh byte of the cursor.
    pub fn next(&mut self) -> (r: Result<u8, RomError>)
        requires
            old(self).wf(),
        ensures
            final(self).wf(),
            final(self).reader.stream == old(self).reader.stream,
            r is Ok ==> r->Ok_0 <= 1,
            old(self).bit > 0 ==> r == Ok::<u8, RomError>((old(self).byte >> ((old(self).bit - 1) as u8)) & 1)
                && final(self).bit == old(self).bit - 1 && final(self).byte == old(self).byte
                && final(self).reader == old(self).reader,
            old(self).bit == 0 ==> (r is Ok <==> old(self).reader.can_read(1)),
            old(self).bit == 0 && r is Ok ==> r->Ok_0 == (old(self).reader.byte(0) >> 7u8) & 1
                && final(self).byte == old(self).reader.byte(0) && final(self).bit == 7
                && final(self).reader.moved_from(old(self).reader, 1),
            r is Err ==> r->Err_0 == RomError::Address,
            forall|p0: int, n: int|
                old(self).at(p0, n) && r is Ok ==> #[trigger] final(self).at(p0, n + 1) && r->Ok_0
                    == stream_bit(old(self).reader.stream@, p0, n),
            forall|p0: int, n: int, m: int|
                old(self).at(p0, n) && #[trigger] old(self).has_bits(p0, n, m) && n < m ==> r is Ok,
            forall|p0: int, n: int, m: int|
                old(self).at(p0, n) && old(self).has_bits(p0, n, m) && r is Ok
                    ==> #[trigger] final(self).has_bits(p0, n + 1, m),
    {
        if self.bit == 0 {
            proof {
                if self.reader.can_read(1) {
                    lemma_advanced_pos(self.reader.addr, 1);
                }
                assert forall|p0: int, n: int, m: int|
                    self.at(p0, n) && self.has_bits(p0, n, m) && n < m implies self.reader.can_read(1)
                    && span_readable(
                        self.reader.stream@,
                        advanced(self.reader.addr, 1),
                        (m + 7) / 8 - (n + 8) / 8,
                    ) by {
                    lemma_span_step(self.reader.stream@, self.reader.addr, (m + 7) / 8 - n / 8);
                }
            }
            match self.reader.read_u8() {
                Ok(b) => {
                    self.byte = b;
                    self.bit = 8;
                },
                Err(e) => {
                    return Err(e);
                },
            }
        }
        self.bit = self.bit - 1;
        let b = self.byte;
        let s = self.bit;
        assert((b >> s) & 1 <= 1) by (bit_vector);
        Ok((b >> s) & 1)
    }
}

// ---------------------------------------------------------------------------
// Dibit packer
// ---------------------------------------------------------------------------

/// Write cursor over a zero-initialised plane buffer, addressed in 2-bit
/// units (dibits), four per byte, most significant first.
pub struct DibitPacker {
    pub byte_pos: usize,
    pub dibit_pos: u8,
    /// Bytes of the buffer in use.
    pub size: usize,
    pub storage: Vec<u8>,
}

/// Left shift that places a dibit at position `dp` (0..3) of its byte.
pub open spec fn dibit_shift(dp: u8) -> u8 {
    ((3 - dp) * 2) as u8
}

/// Dibit `p` of a buffer.
pub open spec fn get_dibit(s: Seq<u8>, p: int) -> u8 {
    (s[p / 4] >> dibit_shift((p % 4) as u8)) & 3
}

impl DibitPacker {
    pub open spec fn wf(&self) -> bool {
        &&& self.storage@.len() == PLANE7_SIZE
        &&& self.size <= PLANE7_SIZE
        &&& self.byte_pos <= self.size
        &&& self.dibit_pos < 4
    }

    /// Dibits written or skipped so far.
    pub open spec fn index(&self) -> int {
        self.byte_pos * 4 + self.dibit_pos
    }

    pub open spec fn full(&self) -> bool {
        self.byte_pos == self.size
    }

    pub fn new(size: usize) -> (r: DibitPacker)
        requires
            size <= PLANE7_SIZE,
        ensures
            r.wf(),
            r.size == size,
            r.index() == 0,
            forall|i: int| 0 <= i < PLANE7_SIZE ==> r.storage@[i] == 0,
    {
        DibitPacker { byte_pos: 0, dibit_pos: 0, size, storage: vec![0u8; PLANE7_SIZE] }
    }

    /// Skips `count` zero dibits. Fails, leaving the packer as it was, when
    /// the run ends past the last byte in use.
    pub fn push_zero_dibits(&mut self, count: u16) -> (r: Result<(), RomError>)
        requires
            old(self).wf(),
        ensures
            final(self).wf(),
            final(self).size == old(self).size,
            final(self).storage == old(self).storage,
            r is Ok <==> (old(self).index() + count) / 4 <= old(self).size,
            r is Ok ==> final(self).index() == old(self).index() + count,
            r is Err ==> r->Err_0 == RomError::Format && *final(self) == *old(self),
    {
        let total = self.byte_pos * 4 + self.dibit_pos as usize + count as usize;
        if total / 4 > self.size {
            return Err(RomError::Format);
        }
        self.byte_pos = total / 4;
        self.dibit_pos = (total % 4) as u8;
        Ok(())
    }

    /// Writes one dibit at the cursor and moves past it.
    pub fn push_dibit(&mut self, dibit: u8)
        requires
            old(self).wf(),
            !old(self).full(),
            dibit < 4,
        ensures
            final(self).wf(),
            final(self).size == old(self).size,
            final(self).index() == old(self).index() + 1,
            final(self).storage@ == old(self).storage@.update(
                old(self).byte_pos as int,
                old(self).storage@[old(self).byte_pos as int] | (dibit << dibit_shift(
                    old(self).dibit_pos,
                )),
            ),
    {
        let shift: u8 = (3 - self.dibit_pos) * 2;
        let v = self.storage[self.byte_pos] | (dibit << shift);
        self.storage.set(self.byte_pos, v);
        if self.dibit_pos == 3 {
            self.byte_pos = self.byte_pos + 1;
            self.dibit_pos = 0;
        } else {
            self.dibit_pos = self.dibit_pos + 1;
        }
    }

    pub fn is_full(&self) -> (r: bool)
        ensures
            r == self.full(),
    {
        self.byte_pos == self.size
    }
}

// ---------------------------------------------------------------------------
// Plane transforms
// ---------------------------------------------------------------------------

pub open spec fn code_table(row: int) -> Seq<u8> {
    if row == 0 {
        seq![0u8, 1, 3, 2, 7, 6, 4, 5, 15, 14, 12, 13, 8, 9, 11, 10]
    } else {
        seq![15u8, 14, 12, 13, 8, 9, 11, 10, 0, 1, 3, 2, 7, 6, 4, 5]
    }
}

/// Delta-decoded nibble for encoded nibble `i`, chained from `prev`.
pub open spec fn code_of(i: u8, prev: u8) -> u8 {
    code_table((prev & 1) as int)[i as int]
}

/// Decoded nibble that precedes row `y` of column `x` (0 above the first row).
pub open spec fn delta_state(data: Seq<u8>, lw: int, x: int, y: nat) -> u8
    decreases y,
{
    if y == 0 {
        0
    } else {
        let d = data[(y - 1) * lw + x];
        code_of(d & 0xf, code_of(d >> 4u8, delta_state(data, lw, x, (y - 1) as nat)))
    }
}

/// Decoded byte at row `y` of column `x`.
pub open spec fn delta_byte(data: Seq<u8>, lw: int, x: int, y: int) -> u8 {
    let d = data[y * lw + x];
    let a = code_of(d >> 4u8, delta_state(data, lw, x, y as nat));
    (a << 4u8) | code_of(d & 0xf, a)
}

/// A plane `lw` bytes wide after delta decoding of its first `rows` rows:
/// each column is decoded top to bottom, two nibbles per byte, each nibble
/// chained from the one before it.
pub open spec fn delta_decoded(data: Seq<u8>, lw: int, rows: int) -> Seq<u8> {
    Seq::new(
        data.len(),
        |i: int|
            if i < lw * rows {
                delta_byte(data, lw, i % lw, i / lw)
            } else {
                data[i]
            },
    )
}

/// `dst` with its first `len` bytes XOR-ed with those of `src`.
pub open spec fn xored(dst: Seq<u8>, src: Seq<u8>, len: int) -> Seq<u8> {
    Seq::new(dst.len(), |k: int| if k < len { dst[k] ^ src[k] } else { dst[k] })
}

/// The two planes after the transform that `encoding` selects.
pub open spec fn planes_decoded(
    p0: Seq<u8>,
    p1: Seq<u8>,
    lw: int,
    rows: int,
    size: int,
    encoding: u8,
) -> (Seq<u8>, Seq<u8>) {
    let d0 = delta_decoded(p0, lw, rows);
    if encoding == 0 {
        (d0, delta_decoded(p1, lw, rows))
    } else if encoding == 1 {
        (d0, xored(p1, d0, size))
    } else {
        (d0, xored(delta_decoded(p1, lw, rows), d0, size))
    }
}

/// Two 1bpp planes interleaved byte by byte into one 2bpp buffer.
pub open spec fn merged(p0: Seq<u8>, p1: Seq<u8>, size: int) -> Seq<u8> {
    Seq::new(
        SPRITE7_SIZE as nat,
        |k: int|
            if k < 2 * size {
                if k % 2 == 0 {
                    p0[k / 2]
                } else {
                    p1[k / 2]
                }
            } else {
                0
            },
    )
}

/// Tile-row offset of a `w` x `h` tile sprite inside the 7x7 canvas.
pub open spec fn canvas_align(w: int, h: int) -> int {
    8 * (7 * ((10 - w) / 2) - h)
}

/// A `w` x `h` tile sprite, stored column by column, placed in the 7x7 canvas.
pub open spec fn extended(src: Seq<u8>, w: int, h: int) -> Seq<u8> {
    Seq::new(
        SPRITE7_SIZE as nat,
        |k: int|
            {
                let rel = k / 2 - canvas_align(w, h);
                if 0 <= rel && rel / 56 < w && rel % 56 < 8 * h {
                    src[2 * ((rel / 56) * (8 * h) + rel % 56) + k % 2]
                } else {
                    0
                }
            },
    )
}

/// Byte `m` of a plane that was filled in vertical stripes of four rows,
/// re-linearised in rows of `lw` bytes.
pub open spec fn transposed_byte(s: Seq<u8>, lw: int, m: int) -> u8 {
    let base = 4 * (m / lw) * lw + m % lw;
    (get_dibit(s, base) << 6u8) | (get_dibit(s, base + lw) << 4u8) | (get_dibit(s, base + 2 * lw)
        << 2u8) | get_dibit(s, base + 3 * lw)
}

pub open spec fn transposed(s: Seq<u8>, lw: int, size: int) -> Seq<u8> {
    Seq::new(PLANE7_SIZE as nat, |m: int| if m < size { transposed_byte(s, lw, m) } else { 0 })
}

/// The final 56x56 picture, in pixel rows of 14 bytes, for two raw planes of
/// a `w` x `h` tile sprite.
pub open spec fn sprite_pixels(
    p0: Seq<u8>,
    p1: Seq<u8>,
    w: int,
    h: int,
    primary: u8,
    encoding: u8,
) -> Seq<u8> {
    let (d0, d1) = planes_decoded(p0, p1, 8 * w, h, 8 * w * h, encoding);
    let m = if primary == 0 {
        merged(d0, d1, 8 * w * h)
    } else {
        merged(d1, d0, 8 * w * h)
    };
    let e = extended(m, w, h);
    Seq::new(SPRITE7_SIZE as nat, |k: int| e[colmajor_source(k, 14, 56, 2)])
}

/// Number of one-bits in a row from bit `n`, counting at most `fuel`.
pub open spec fn leading_ones(s: Seq<u8>, p0: int, n: int, fuel: nat) -> nat
    decreases fuel,
{
    if fuel == 0 {
        0
    } else if stream_bit(s, p0, n) == 1 {
        1 + leading_ones(s, p0, n + 1, (fuel - 1) as nat)
    } else {
        0
    }
}

/// The `len` bits from bit `n`, read as a binary number, most significant
/// first.
pub open spec fn bits_value(s: Seq<u8>, p0: int, n: int, len: nat) -> nat
    decreases len,
{
    if len == 0 {
        0
    } else {
        (2 * bits_value(s, p0, n, (len - 1) as nat) + stream_bit(s, p0, n + len - 1)) as nat
    }
}

/// A run-length step from bit `n`: `k` one-bits (fewer than 15), a
/// zero-bit, then a `k + 1`-bit value `v`. Its run is `2^(k+1) - 1 + v` zero
/// dibits and it takes `2k + 2` bits. `None` for 15 one-bits or more.
pub open spec fn rle_step(s: Seq<u8>, p0: int, n: int) -> Option<(int, int)> {
    let k = leading_ones(s, p0, n, 15);
    if k >= 15 {
        None
    } else {
        Some((pow2(k + 1) - 1 + bits_value(s, p0, n + k + 1, k + 1), 2 * k + 2 as int))
    }
}

proof fn lemma_leading_ones_ge(s: Seq<u8>, p0: int, n: int, fuel: nat, k: nat)
    requires
        k <= fuel,
        forall|j: int| 0 <= j < k ==> #[trigger] stream_bit(s, p0, n + j) == 1,
    ensures
        leading_ones(s, p0, n, fuel) >= k,
    decreases k,
{
    if k > 0 {
        assert(stream_bit(s, p0, n + 0) == 1);
        assert forall|j: int| 0 <= j < k - 1 implies #[trigger] stream_bit(s, p0, (n + 1) + j)
            == 1 by {
            assert(stream_bit(s, p0, n + (j + 1)) == 1);
            assert(n + (j + 1) == (n + 1) + j);
        }
        lemma_leading_ones_ge(s, p0, n + 1, (fuel - 1) as nat, (k - 1) as nat);
    }
}

proof fn lemma_leading_ones(s: Seq<u8>, p0: int, n: int, fuel: nat, k: nat)
    requires
        k <= fuel,
        forall|j: int| 0 <= j < k ==> #[trigger] stream_bit(s, p0, n + j) == 1,
        k < fuel ==> stream_bit(s, p0, n + k) == 0,
    ensures
        leading_ones(s, p0, n, fuel) == k,
    decreases k,
{
    if k > 0 {
        assert(stream_bit(s, p0, n + 0) == 1);
        assert forall|j: int| 0 <= j < k - 1 implies #[trigger] stream_bit(s, p0, (n + 1) + j) == 1 by {
            assert(stream_bit(s, p0, n + (j + 1)) == 1);
            assert(n + (j + 1) == (n + 1) + j);
        }
        assert(k - 1 < fuel - 1 ==> stream_bit(s, p0, (n + 1) + (k - 1)) == 0) by {
            assert(n + k == (n + 1) + (k - 1));
        }
        lemma_leading_ones(s, p0, n + 1, (fuel - 1) as nat, (k - 1) as nat);
    } else if fuel > 0 {
        assert(stream_bit(s, p0, n + 0) == 0);
    }
}

/// Dibit `d` written at dibit `idx` of a buffer.
pub open spec fn packed(st: Seq<u8>, idx: int, d: u8) -> Seq<u8> {
    st.update(idx / 4, st[idx / 4] | (d << dibit_shift((idx % 4) as u8)))
}

/// The 2-bit value at bit `n`.
pub open spec fn raw_dibit(s: Seq<u8>, p0: int, n: int) -> u8 {
    (stream_bit(s, p0, n) * 2 + stream_bit(s, p0, n + 1)) as u8
}

/// Raw mode from bit `n`, with the cursor at dibit `idx` of a plane of
/// `size` bytes holding `st`: non-zero dibits are written until a zero one
/// (consumed) or a full plane. The bit position, cursor and buffer after it.
pub open spec fn raw_run(s: Seq<u8>, p0: int, n: int, idx: int, st: Seq<u8>, size: int) -> (
    int,
    int,
    Seq<u8>,
)
    decreases 4 * size - idx,
{
    if idx / 4 >= size {
        (n, idx, st)
    } else if raw_dibit(s, p0, n) == 0 {
        (n + 2, idx, st)
    } else {
        raw_run(s, p0, n + 2, idx + 1, packed(st, idx, raw_dibit(s, p0, n)), size)
    }
}

/// Enough steps for any plane of at most 7x7 tiles.
pub const PLANE_FUEL: u32 = 4000;

/// Filling a plane from bit `n` in `mode` (0 run-length, 1 raw), modes
/// alternating until the plane of `size` bytes is full: the bit position
/// after it and the buffer. `None` for a run-length step of 15 one-bits or
/// one that overruns the plane, or when `fuel` steps do not suffice.
pub open spec fn fill_plane(
    s: Seq<u8>,
    p0: int,
    n: int,
    idx: int,
    st: Seq<u8>,
    size: int,
    mode: u8,
    fuel: nat,
) -> Option<(int, Seq<u8>)>
    decreases fuel,
{
    if idx / 4 >= size {
        Some((n, st))
    } else if fuel == 0 {
        None
    } else if mode == 0 {
        match rle_step(s, p0, n) {
            None => None,
            Some((run, used)) => if (idx + run) / 4 > size {
                None
            } else {
                fill_plane(s, p0, n + used, idx + run, st, size, 1, (fuel - 1) as nat)
            },
        }
    } else {
        let (n2, idx2, st2) = raw_run(s, p0, n, idx, st, size);
        fill_plane(s, p0, n2, idx2, st2, size, 0, (fuel - 1) as nat)
    }
}

proof fn lemma_raw_run_advances(s: Seq<u8>, p0: int, n: int, idx: int, st: Seq<u8>, size: int)
    requires
        idx / 4 < size,
    ensures
        raw_run(s, p0, n, idx, st, size).0 >= n + 2,
    decreases 4 * size - idx,
{
    if raw_dibit(s, p0, n) != 0 {
        let st2 = packed(st, idx, raw_dibit(s, p0, n));
        if (idx + 1) / 4 < size {
            lemma_raw_run_advances(s, p0, n + 2, idx + 1, st2, size);
        } else {
            assert(raw_run(s, p0, n + 2, idx + 1, st2, size).0 == n + 2);
        }
        assert(raw_run(s, p0, n, idx, st, size) == raw_run(s, p0, n + 2, idx + 1, st2, size));
    }
}

proof fn lemma_fill_plane_mono(
    s: Seq<u8>,
    p0: int,
    n: int,
    idx: int,
    st: Seq<u8>,
    size: int,
    mode: u8,
    fuel: nat,
)
    requires
        fill_plane(s, p0, n, idx, st, size, mode, fuel) is Some,
    ensures
        fill_plane(s, p0, n, idx, st, size, mode, fuel)->Some_0.0 >= n,
    decreases fuel,
{
    if idx / 4 < size && fuel > 0 {
        if mode == 0 {
            let (run, used) = rle_step(s, p0, n)->Some_0;
            lemma_fill_plane_mono(s, p0, n + used, idx + run, st, size, 1, (fuel - 1) as nat);
        } else {
            let (n2, idx2, st2) = raw_run(s, p0, n, idx, st, size);
            lemma_raw_run_advances(s, p0, n, idx, st, size);
            lemma_fill_plane_mono(s, p0, n2, idx2, st2, size, 0, (fuel - 1) as nat);
        }
    }
}

/// The encoding selector at bit `n` and the bits it takes.
pub open spec fn encoding_at(s: Seq<u8>, p0: int, n: int) -> (u8, int) {
    if stream_bit(s, p0, n) == 1 {
        ((stream_bit(s, p0, n + 1) + 1) as u8, 2)
    } else {
        (0, 1)
    }
}

/// A plane buffer of zeros.
pub open spec fn blank_plane() -> Seq<u8> {
    Seq::new(PLANE7_SIZE as nat, |i: int| 0u8)
}

/// A plane of a `w` x `h` tile sprite read from bit `n` (its mode bit):
/// the bit position after it and its re-linearised bytes.
pub open spec fn plane_decoded(s: Seq<u8>, p0: int, n: int, w: int, h: int) -> Option<
    (int, Seq<u8>),
> {
    let mode = stream_bit(s, p0, n);
    match fill_plane(s, p0, n + 1, 0, blank_plane(), 8 * w * h, mode, PLANE_FUEL as nat) {
        None => None,
        Some((m, st)) => Some((m, transposed(st, 8 * w, 8 * w * h))),
    }
}

/// Bit position just past plane B of the sprite whose bit stream starts at
/// `p0`, when both planes decode.
pub open spec fn sprite_bits(s: Seq<u8>, p0: int, w: int, h: int) -> Option<int> {
    match plane_decoded(s, p0, 1, w, h) {
        None => None,
        Some((n1, a)) => match plane_decoded(s, p0, n1 + encoding_at(s, p0, n1).1, w, h) {
            None => None,
            Some((n2, b)) => Some(n2),
        },
    }
}

/// The 56x56 picture, in pixel rows, that the bit stream at linear position
/// `p0` encodes for a `w` x `h` tile sprite: the primary-plane bit, plane A,
/// the encoding selector, plane B, then the transform of the encoding, the
/// interleaving, the placement in the canvas and the row layout. `None`
/// when a plane cannot be decoded or the encoding is unknown.
pub open spec fn sprite_decoded(s: Seq<u8>, p0: int, w: int, h: int) -> Option<Seq<u8>> {
    match plane_decoded(s, p0, 1, w, h) {
        None => None,
        Some((n1, a)) => {
            let (encoding, used) = encoding_at(s, p0, n1);
            match plane_decoded(s, p0, n1 + used, w, h) {
                None => None,
                Some((n2, b)) => if encoding > 2 {
                    None
                } else {
                    Some(sprite_pixels(a, b, w, h, stream_bit(s, p0, 0), encoding))
                },
            }
        },
    }
}

// ---------------------------------------------------------------------------
// Decoder
// ---------------------------------------------------------------------------

/// Decoder of the compressed sprite format. The geometry fields are set from
/// the dimension byte: `sprite_w` and `sprite_h` in pixels (multiples of 8),
/// `linesize_1bpp` in tiles and `size_1bpp` in bytes per plane.
pub struct Decoder<'a> {
    pub br: BitReader<'a>,
    pub sprite_w: usize,
    pub sprite_h: usize,
    pub linesize_1bpp: usize,
    pub size_1bpp: usize,
}

impl<'a> Decoder<'a> {
    /// Tiles across.
    pub open spec fn tiles_w(&self) -> int {
        (self.sprite_w / 8) as int
    }

    /// Tiles down.
    pub open spec fn tiles_h(&self) -> int {
        (self.sprite_h / 8) as int
    }

    /// The geometry describes a sprite of at most 7x7 tiles.
    pub open spec fn geometry(&self) -> bool {
        &&& self.sprite_w % 8 == 0
        &&& self.sprite_h % 8 == 0
        &&& self.sprite_w <= 56
        &&& self.sprite_h <= 56
        &&& self.linesize_1bpp == self.tiles_w()
        &&& self.size_1bpp == self.sprite_w * self.tiles_h()
    }

    pub fn new(stream: &'a Vec<u8>, addr: Addr) -> (r: Decoder<'a>)
        ensures
            r.br.wf(),
            r.br.reader.stream == stream,
            r.br.reader.addr == addr,
            r.br.bit == 0,
            r.geometry(),
    {
        Decoder {
            br: BitReader::new(stream, addr),
            sprite_w: 0,
            sprite_h: 0,
            linesize_1bpp: 0,
            size_1bpp: 0,
        }
    }

    pub fn get_code(i: u8, prev: u8) -> (r: u8)
        requires
            i < 16,
        ensures
            r == code_of(i, prev),
    {
        let row0: [u8; 16] = [0, 1, 3, 2, 7, 6, 4, 5, 15, 14, 12, 13, 8, 9, 11, 10];
        let row1: [u8; 16] = [15, 14, 12, 13, 8, 9, 11, 10, 0, 1, 3, 2, 7, 6, 4, 5];
        assert(row0@ =~= code_table(0));
        assert(row1@ =~= code_table(1));
        if prev & 1 == 0 {
            row0[i as usize]
        } else {
            assert(prev & 1 == 1) by (bit_vector)
                requires
                    prev & 1 != 0,
            ;
            row1[i as usize]
        }
    }
    /// Delta-decodes the first `sprite_h / 8` rows of a plane `sprite_w` bytes
    /// wide, in place.
    pub fn delta_decode(&self, data: &mut Vec<u8>)
        requires
            self.geometry(),
            old(data)@.len() == PLANE7_SIZE,
        ensures
            final(data)@ == delta_decoded(old(data)@, self.sprite_w as int, self.tiles_h()),
    {
        let lw = self.sprite_w;
        let rows = self.sprite_h / 8;
        let ghost orig = data@;
        assert(lw * rows <= PLANE7_SIZE) by (nonlinear_arith)
            requires
                lw <= 56,
                rows <= 7,
        ;
        let mut x: usize = 0;
        while x < lw
            invariant
                lw == self.sprite_w,
                rows == self.sprite_h / 8,
                lw * rows <= PLANE7_SIZE,
                x <= lw,
                data@.len() == orig.len(),
                orig.len() == PLANE7_SIZE,
                forall|i: int|
                    0 <= i < orig.len() ==> #[trigger] data@[i] == if i < lw * rows && i % (lw as int)
                        < x {
                        delta_byte(orig, lw as int, i % (lw as int), i / (lw as int))
                    } else {
                        orig[i]
                    },
            decreases lw - x,
        {
            let mut b: u8 = 0;
            let mut y: usize = 0;
            while y < rows
                invariant
                    lw == self.sprite_w,
                    rows == self.sprite_h / 8,
                    lw * rows <= PLANE7_SIZE,
                    x < lw,
                    y <= rows,
                    data@.len() == orig.len(),
                    orig.len() == PLANE7_SIZE,
                    b == delta_state(orig, lw as int, x as int, y as nat),
                    forall|i: int|
                        0 <= i < orig.len() ==> #[trigger] data@[i] == if i < lw * rows && (i % (
                        lw as int) < x || (i % (lw as int) == x && i / (lw as int) < y)) {
                            delta_byte(orig, lw as int, i % (lw as int), i / (lw as int))
                        } else {
                            orig[i]
                        },
                decreases rows - y,
            {
                assert(y * lw + x < lw * rows) by (nonlinear_arith)
                    requires
                        y < rows,
                        x < lw,
                ;
                let idx = y * lw + x;
                proof {
                    lemma_fundamental_div_mod_converse(idx as int, lw as int, y as int, x as int);
                }
                assert(idx as int % lw as int == x as int && idx as int / lw as int == y as int);
                assert(data@[idx as int] == orig[idx as int]);
                let dy = data[idx];
                assert(dy >> 4u8 < 16 && dy & 0xf < 16) by (bit_vector);
                let a = Self::get_code(dy >> 4, b);
                b = Self::get_code(dy & 0xf, a);
                data.set(idx, a << 4 | b);
                proof {
                    assert forall|i: int|
                        0 <= i < orig.len() implies #[trigger] data@[i] == if i < lw * rows && (i
                            % (lw as int) < x || (i % (lw as int) == x && i / (lw as int) < y
                            + 1)) {
                            delta_byte(orig, lw as int, i % (lw as int), i / (lw as int))
                        } else {
                            orig[i]
                        } by {
                        lemma_fundamental_div_mod(i, lw as int);
                        if i % (lw as int) == x && i / (lw as int) == y {
                            assert(i == idx) by (nonlinear_arith)
                                requires
                                    i == lw * (i / (lw as int)) + i % (lw as int),
                                    i % (lw as int) == x,
                                    i / (lw as int) == y,
                                    idx == y * lw + x,
                            ;
                        }
                    }
                }
                y = y + 1;
            }
            proof {
                assert forall|i: int| 0 <= i < lw * rows implies #[trigger] (i / (lw as int)) < rows by {
                    lemma_fundamental_div_mod(i, lw as int);
                    assert(i / (lw as int) < rows) by (nonlinear_arith)
                        requires
                            i == lw * (i / (lw as int)) + i % (lw as int),
                            0 <= i % (lw as int),
                            i < lw * rows,
                            lw > 0,
                    ;
                }
            }
            x = x + 1;
        }
        assert(data@ =~= delta_decoded(orig, lw as int, rows as int));
    }

    /// XORs the first `len` bytes of `src` into `dst`.
    pub fn xor(dst: &mut Vec<u8>, src: &Vec<u8>, len: usize)
        requires
            len <= old(dst)@.len(),
            len <= src@.len(),
        ensures
            final(dst)@ == xored(old(dst)@, src@, len as int),
    {
        let ghost orig = dst@;
        let mut k: usize = 0;
        while k < len
            invariant
                len <= orig.len(),
                len <= src@.len(),
                k <= len,
                dst@.len() == orig.len(),
                forall|i: int|
                    0 <= i < orig.len() ==> #[trigger] dst@[i] == if i < k {
                        orig[i] ^ src@[i]
                    } else {
                        orig[i]
                    },
            decreases len - k,
        {
            let v = dst[k] ^ src[k];
            dst.set(k, v);
            k = k + 1;
        }
        assert(dst@ =~= xored(orig, src@, len as int));
    }

    /// Applies the transform that `encoding` selects: 0 delta-decodes both
    /// planes; 1 delta-decodes plane 0 and XORs it into plane 1; 2
    /// delta-decodes both, then XORs plane 0 into plane 1. Any other
    /// encoding is a format error and leaves the planes as they were.
    pub fn decode(&self, plane0: &mut Vec<u8>, plane1: &mut Vec<u8>, encoding: u8) -> (r: Result<
        (),
        RomError,
    >)
        requires
            self.geometry(),
            old(plane0)@.len() == PLANE7_SIZE,
            old(plane1)@.len() == PLANE7_SIZE,
        ensures
            r is Ok <==> encoding <= 2,
            r is Ok ==> (final(plane0)@, final(plane1)@) == planes_decoded(
                old(plane0)@,
                old(plane1)@,
                self.sprite_w as int,
                self.tiles_h(),
                self.size_1bpp as int,
                encoding,
            ),
            r is Err ==> r->Err_0 == RomError::Format && final(plane0)@ == old(plane0)@
                && final(plane1)@ == old(plane1)@,
    {
        proof {
            assert(self.size_1bpp <= PLANE7_SIZE) by (nonlinear_arith)
                requires
                    self.size_1bpp == self.sprite_w * self.tiles_h(),
                    self.sprite_w <= 56,
                    self.tiles_h() <= 7,
            ;
        }
        if encoding == 0 {
            self.delta_decode(plane0);
            self.delta_decode(plane1);
            Ok(())
        } else if encoding == 1 {
            self.delta_decode(plane0);
            Self::xor(plane1, plane0, self.size_1bpp);
            Ok(())
        } else if encoding == 2 {
            self.delta_decode(plane0);
            self.delta_decode(plane1);
            Self::xor(plane1, plane0, self.size_1bpp);
            Ok(())
        } else {
            Err(RomError::Format)
        }
    }

    /// Interleaves two 1bpp planes byte by byte into one 2bpp buffer.
    pub fn merge_planes(&self, plane0: &Vec<u8>, plane1: &Vec<u8>) -> (r: Vec<u8>)
        requires
            self.geometry(),
            plane0@.len() == PLANE7_SIZE,
            plane1@.len() == PLANE7_SIZE,
        ensures
            r@ == merged(plane0@, plane1@, self.size_1bpp as int),
    {
        proof {
            assert(self.size_1bpp <= PLANE7_SIZE) by (nonlinear_arith)
                requires
                    self.size_1bpp == self.sprite_w * self.tiles_h(),
                    self.sprite_w <= 56,
                    self.tiles_h() <= 7,
            ;
        }
        let mut dst: Vec<u8> = Vec::new();
        let mut k: usize = 0;
        while k < SPRITE7_SIZE
            invariant
                self.size_1bpp <= PLANE7_SIZE,
                plane0@.len() == PLANE7_SIZE,
                plane1@.len() == PLANE7_SIZE,
                k <= SPRITE7_SIZE,
                dst@.len() == k,
                forall|i: int|
                    0 <= i < k ==> #[trigger] dst@[i] == merged(
                        plane0@,
                        plane1@,
                        self.size_1bpp as int,
                    )[i],
            decreases SPRITE7_SIZE - k,
        {
            let v = if k < 2 * self.size_1bpp {
                if k % 2 == 0 {
                    plane0[k / 2]
                } else {
                    plane1[k / 2]
                }
            } else {
                0
            };
            dst.push(v);
            k = k + 1;
        }
        assert(dst@ =~= merged(plane0@, plane1@, self.size_1bpp as int));
        dst
    }

    /// Places the sprite, stored tile column by tile column, into the fixed
    /// 7x7 canvas, right and bottom aligned by `canvas_align`; the rest of
    /// the canvas stays zero.
    pub fn extend_canvas(&self, src: &Vec<u8>) -> (r: Vec<u8>)
        requires
            self.geometry(),
            src@.len() == SPRITE7_SIZE,
        ensures
            r@ == extended(src@, self.tiles_w(), self.tiles_h()),
    {
        let w = self.sprite_w / 8;
        let h = self.sprite_h / 8;
        let align = 8 * (7 * ((10 - w) / 2) - h);
        let mut dst: Vec<u8> = Vec::new();
        let mut k: usize = 0;
        while k < SPRITE7_SIZE
            invariant
                w == self.tiles_w(),
                h == self.tiles_h(),
                w <= 7,
                h <= 7,
                align == canvas_align(w as int, h as int),
                src@.len() == SPRITE7_SIZE,
                k <= SPRITE7_SIZE,
                dst@.len() == k,
                forall|i: int|
                    0 <= i < k ==> #[trigger] dst@[i] == extended(src@, w as int, h as int)[i],
            decreases SPRITE7_SIZE - k,
        {
            let mut v: u8 = 0;
            if k / 2 >= align {
                let rel = k / 2 - align;
                if rel / 56 < w && rel % 56 < 8 * h {
                    assert((rel / 56) * (8 * h) + rel % 56 < 8 * w * h) by (nonlinear_arith)
                        requires
                            rel / 56 < w,
                            rel % 56 < 8 * h,
                    ;
                    assert(8 * w * h <= PLANE7_SIZE) by (nonlinear_arith)
                        requires
                            w <= 7,
                            h <= 7,
                    ;
                    v = src[2 * ((rel / 56) * (8 * h) + rel % 56) + k % 2];
                }
            }
            dst.push(v);
            k = k + 1;
        }
        assert(dst@ =~= extended(src@, w as int, h as int));
        dst
    }

    /// Dibit `p` of a plane buffer.
    pub fn dibit_at(s: &Vec<u8>, p: usize) -> (r: u8)
        requires
            p / 4 < s@.len(),
        ensures
            r == get_dibit(s@, p as int),
    {
        let dp = (p % 4) as u8;
        (s[p / 4] >> ((3 - dp) * 2)) & 3
    }

    /// Re-linearises a plane that was filled in vertical stripes of four
    /// pixel rows into rows of `sprite_w` bytes.
    pub fn transpose_dibit_plane(&self, bp: &DibitPacker) -> (r: Vec<u8>)
        requires
            self.geometry(),
            bp.wf(),
            bp.size == self.size_1bpp,
        ensures
            r@ == transposed(bp.storage@, self.sprite_w as int, self.size_1bpp as int),
    {
        let lw = self.sprite_w;
        let size = self.size_1bpp;
        let ghost rows = self.tiles_h();
        let mut dst: Vec<u8> = Vec::new();
        let mut m: usize = 0;
        while m < PLANE7_SIZE
            invariant
                lw == self.sprite_w,
                size == self.size_1bpp,
                size == lw * rows,
                bp.wf(),
                bp.size == size,
                m <= PLANE7_SIZE,
                dst@.len() == m,
                forall|i: int|
                    0 <= i < m ==> #[trigger] dst@[i] == transposed(
                        bp.storage@,
                        lw as int,
                        size as int,
                    )[i],
            decreases PLANE7_SIZE - m,
        {
            let mut v: u8 = 0;
            if m < size {
                assert(lw > 0) by (nonlinear_arith)
                    requires
                        m < size,
                        size == lw * rows,
                ;
                let yb = m / lw;
                let x = m % lw;
                proof {
                    lemma_fundamental_div_mod(m as int, lw as int);
                    assert(4 * yb * lw + x + 3 * lw < 4 * size) by (nonlinear_arith)
                        requires
                            m == lw * yb + x,
                            m < size,
                            size == lw * rows,
                            x < lw,
                    ;
                }
                let base = 4 * yb * lw + x;
                v = Self::dibit_at(&bp.storage, base) << 6 | Self::dibit_at(&bp.storage, base + lw)
                    << 4 | Self::dibit_at(&bp.storage, base + 2 * lw) << 2 | Self::dibit_at(
                    &bp.storage,
                    base + 3 * lw,
                );
            }
            dst.push(v);
            m = m + 1;
        }
        assert(dst@ =~= transposed(bp.storage@, lw as int, size as int));
        dst
    }
    /// The geometry and the image are those of `pre`.
    pub open spec fn same_setup(&self, pre: Decoder<'a>) -> bool {
        &&& self.sprite_w == pre.sprite_w
        &&& self.sprite_h == pre.sprite_h
        &&& self.linesize_1bpp == pre.linesize_1bpp
        &&& self.size_1bpp == pre.size_1bpp
        &&& self.br.reader.stream == pre.br.reader.stream
        &&& self.br.wf()
    }

    /// Run-length decoding of zero dibits: `k` one-bits and a zero-bit,
    /// then `k + 1` bits of a value `v`; the run is `(2 << k) - 1 + v` zero
    /// dibits. `k` must stay below 15.
    fn read_rle(
        &mut self,
        bp: &mut DibitPacker,
        Ghost(p0): Ghost<int>,
        Ghost(n): Ghost<int>,
        Ghost(lim): Ghost<int>,
    ) -> (r: Result<(), RomError>)
        requires
            old(self).br.at(p0, n),
            old(self).br.has_bits(p0, n, lim),
            old(bp).wf(),
        ensures
            ({
                let step = rle_step(old(self).br.reader.stream@, p0, n);
                step is Some && n + step->Some_0.1 <= lim && (old(bp).index() + step->Some_0.0) / 4
                    <= old(bp).size
            }) ==> r is Ok,
            r is Ok ==> final(self).br.has_bits(
                p0,
                n + rle_step(old(self).br.reader.stream@, p0, n)->Some_0.1,
                lim,
            ),
            final(self).same_setup(*old(self)),
            final(bp).wf(),
            final(bp).size == old(bp).size,
            final(bp).storage == old(bp).storage,
            r is Ok ==> ({
                let step = rle_step(old(self).br.reader.stream@, p0, n);
                &&& step is Some
                &&& (old(bp).index() + step->Some_0.0) / 4 <= old(bp).size
                &&& final(bp).index() == old(bp).index() + step->Some_0.0
                &&& final(self).br.at(p0, n + step->Some_0.1)
            }),
            r is Ok ==> final(bp).index() > old(bp).index(),
    {
        let ghost s = self.br.reader.stream@;
        let ghost step = rle_step(s, p0, n);
        let ghost goal = step is Some && n + step->Some_0.1 <= lim && (bp.index() + step->Some_0.0)
            / 4 <= bp.size;
        let mut nb_ones: usize = 0;
        let mut run_base: u32 = 2;
        proof {
            lemma2_to64();
        }
        loop
            invariant_except_break
                self.br.at(p0, n + nb_ones),
                self.br.has_bits(p0, n + nb_ones, lim),
            invariant
                step == rle_step(s, p0, n),
                goal == (step is Some && n + step->Some_0.1 <= lim && (old(bp).index()
                    + step->Some_0.0) / 4 <= old(bp).size),
                self.same_setup(*old(self)),
                self.br.reader.stream@ == s,
                bp.wf(),
                bp.size == old(bp).size,
                bp.storage == old(bp).storage,
                nb_ones < 15,
                run_base == pow2((nb_ones + 1) as nat),
                forall|j: int| 0 <= j < nb_ones ==> #[trigger] stream_bit(s, p0, n + j) == 1,
            ensures
                self.same_setup(*old(self)),
                self.br.reader.stream@ == s,
                bp.wf(),
                bp.size == old(bp).size,
                bp.storage == old(bp).storage,
                nb_ones < 15,
                run_base == pow2((nb_ones + 1) as nat),
                self.br.at(p0, n + nb_ones + 1),
                self.br.has_bits(p0, n + nb_ones + 1, lim),
                forall|j: int| 0 <= j < nb_ones ==> #[trigger] stream_bit(s, p0, n + j) == 1,
                stream_bit(s, p0, n + nb_ones) == 0,
            decreases 15 - nb_ones,
        {
            proof {
                if goal {
                    lemma_leading_ones_ge(s, p0, n, 15, nb_ones as nat);
                    assert(n + nb_ones < lim);
                }
            }
            let bit = self.br.next()?;
            assert(self.br.has_bits(p0, n + nb_ones + 1, lim));
            if bit == 0 {
                break;
            }
            proof {
                lemma2_to64();
                lemma_pow2_unfold((nb_ones + 2) as nat);
                if nb_ones + 2 < 16 {
                    lemma_pow2_strictly_increases((nb_ones + 2) as nat, 16);
                }
            }
            nb_ones = nb_ones + 1;
            run_base = run_base * 2;
            if nb_ones >= 15 {
                proof {
                    lemma_leading_ones(s, p0, n, 15, 15);
                }
                return Err(RomError::Format);
            }
        }
        proof {
            lemma_leading_ones(s, p0, n, 15, nb_ones as nat);
            if nb_ones + 1 < 15 {
                lemma_pow2_strictly_increases((nb_ones + 1) as nat, 15);
            }
        }
        let ones: u16 = (run_base - 1) as u16;
        let mut value: u16 = 0;
        let mut i: usize = 0;
        let ghost start = n + nb_ones + 1;
        while i < nb_ones + 1
            invariant
                self.same_setup(*old(self)),
                self.br.reader.stream@ == s,
                bp.wf(),
                bp.size == old(bp).size,
                bp.storage == old(bp).storage,
                nb_ones < 15,
                i <= nb_ones + 1,
                value < pow2(i as nat),
                value == bits_value(s, p0, start, i as nat),
                self.br.at(p0, start + i),
                self.br.has_bits(p0, start + i, lim),
                step == rle_step(s, p0, n),
                leading_ones(s, p0, n, 15) == nb_ones,
                start == n + nb_ones + 1,
                goal == (step is Some && n + step->Some_0.1 <= lim && (old(bp).index()
                    + step->Some_0.0) / 4 <= old(bp).size),
            decreases nb_ones + 1 - i,
        {
            assert(goal ==> start + i < lim);
            let bit = self.br.next()?;
            assert(self.br.has_bits(p0, start + i + 1, lim));
            proof {
                lemma_pow2_unfold((i + 1) as nat);
                lemma2_to64();
                if i + 1 < 15 {
                    lemma_pow2_strictly_increases((i + 1) as nat, 15);
                }
            }
            value = value * 2 + bit as u16;
            i = i + 1;
        }
        proof {
            if nb_ones + 1 < 15 {
                lemma_pow2_strictly_increases((nb_ones + 1) as nat, 15);
            }
        }
        bp.push_zero_dibits(ones + value)
    }

    /// Raw dibits: non-zero 2-bit values written one by one until a zero
    /// value, or until the plane is full.
    fn read_raw(
        &mut self,
        bp: &mut DibitPacker,
        Ghost(p0): Ghost<int>,
        Ghost(n): Ghost<int>,
        Ghost(lim): Ghost<int>,
    ) -> (r: Result<(), RomError>)
        requires
            old(self).br.at(p0, n),
            old(self).br.has_bits(p0, n, lim),
            old(bp).wf(),
            !old(bp).full(),
        ensures
            raw_run(
                old(self).br.reader.stream@,
                p0,
                n,
                old(bp).index(),
                old(bp).storage@,
                old(bp).size as int,
            ).0 <= lim ==> r is Ok,
            r is Ok ==> final(self).br.has_bits(
                p0,
                raw_run(
                    old(self).br.reader.stream@,
                    p0,
                    n,
                    old(bp).index(),
                    old(bp).storage@,
                    old(bp).size as int,
                ).0,
                lim,
            ),
            final(self).same_setup(*old(self)),
            final(bp).wf(),
            final(bp).size == old(bp).size,
            final(bp).index() >= old(bp).index(),
            r is Ok ==> ({
                let run = raw_run(
                    old(self).br.reader.stream@,
                    p0,
                    n,
                    old(bp).index(),
                    old(bp).storage@,
                    old(bp).size as int,
                );
                &&& final(self).br.at(p0, run.0)
                &&& final(bp).index() == run.1
                &&& final(bp).storage@ == run.2
            }),
    {
        let ghost s = self.br.reader.stream@;
        let ghost size = bp.size as int;
        let ghost target = raw_run(s, p0, n, bp.index(), bp.storage@, size);
        let ghost mut m = n;
        loop
            invariant_except_break
                !bp.full(),
                raw_run(s, p0, m, bp.index(), bp.storage@, size) == target,
            invariant
                self.same_setup(*old(self)),
                self.br.reader.stream@ == s,
                self.br.at(p0, m),
                self.br.has_bits(p0, m, lim),
                bp.wf(),
                bp.size == old(bp).size,
                size == bp.size,
                bp.index() >= old(bp).index(),
                target == raw_run(s, p0, n, old(bp).index(), old(bp).storage@, size),
            ensures
                self.br.at(p0, target.0),
                bp.index() == target.1,
                bp.storage@ == target.2,
            decreases 4 * bp.size - bp.index(),
        {
            let ghost idx = bp.index();
            let ghost st = bp.storage@;
            proof {
                lemma_raw_run_advances(s, p0, m, idx, st, size);
            }
            let hi = self.br.next()?;
            assert(self.br.at(p0, m + 1));
            assert(self.br.has_bits(p0, m + 1, lim));
            let lo = self.br.next()?;
            assert(self.br.at(p0, m + 2));
            assert(self.br.has_bits(p0, m + 2, lim));
            let dibit = hi * 2 + lo;
            assert(dibit == raw_dibit(s, p0, m));
            proof {
                m = m + 2;
            }
            if dibit == 0 {
                proof {
                    assert(idx / 4 < size);
                    assert(raw_run(s, p0, m - 2, idx, st, size) == (m, idx, st));
                }
                break;
            }
            bp.push_dibit(dibit);
            proof {
                assert(bp.storage@ == packed(st, idx, dibit));
                assert(idx / 4 < size);
                assert(raw_run(s, p0, m - 2, idx, st, size) == raw_run(
                    s,
                    p0,
                    m,
                    idx + 1,
                    bp.storage@,
                    size,
                ));
            }
            if bp.is_full() {
                proof {
                    assert((idx + 1) / 4 >= size);
                    assert(raw_run(s, p0, m, idx + 1, bp.storage@, size) == (
                        m,
                        idx + 1,
                        bp.storage@,
                    ));
                }
                break;
            }
        }
        Ok(())
    }

    /// Fills a plane, alternating run-length and raw modes from the mode
    /// that the first bit selects, then re-linearises it.
    fn read_plane(
        &mut self,
        bp: &mut DibitPacker,
        Ghost(p0): Ghost<int>,
        Ghost(n): Ghost<int>,
        Ghost(lim): Ghost<int>,
    ) -> (r: Result<Vec<u8>, RomError>)
        requires
            old(self).geometry(),
            old(self).br.at(p0, n),
            old(self).br.has_bits(p0, n, lim),
            old(bp).wf(),
            old(bp).index() == 0,
            old(bp).size == old(self).size_1bpp,
        ensures
            final(self).same_setup(*old(self)),
            final(bp).wf(),
            final(bp).size == old(bp).size,
            ({
                let filled = fill_plane(
                    old(self).br.reader.stream@,
                    p0,
                    n + 1,
                    0,
                    old(bp).storage@,
                    old(bp).size as int,
                    stream_bit(old(self).br.reader.stream@, p0, n),
                    PLANE_FUEL as nat,
                );
                filled is Some && filled->Some_0.0 <= lim
            }) ==> r is Ok,
            r is Ok ==> ({
                let filled = fill_plane(
                    old(self).br.reader.stream@,
                    p0,
                    n + 1,
                    0,
                    old(bp).storage@,
                    old(bp).size as int,
                    stream_bit(old(self).br.reader.stream@, p0, n),
                    PLANE_FUEL as nat,
                );
                &&& filled is Some
                &&& final(bp).full()
                &&& final(bp).index() / 4 == final(bp).size
                &&& final(self).br.has_bits(p0, filled->Some_0.0, lim)
                &&& final(bp).storage@ == filled->Some_0.1
                &&& final(self).br.at(p0, filled->Some_0.0)
                &&& r->Ok_0@ == transposed(
                    final(bp).storage@,
                    old(self).sprite_w as int,
                    old(self).size_1bpp as int,
                )
            }),
    {
        let ghost s = self.br.reader.stream@;
        let ghost size = bp.size as int;
        proof {
            let f0 = fill_plane(
                s,
                p0,
                n + 1,
                0,
                bp.storage@,
                size,
                stream_bit(s, p0, n),
                PLANE_FUEL as nat,
            );
            if f0 is Some {
                lemma_fill_plane_mono(s, p0, n + 1, 0, bp.storage@, size, stream_bit(s, p0, n), PLANE_FUEL as nat);
            }
        }
        let mut read_mode = self.br.next()?;
        assert(self.br.has_bits(p0, n + 1, lim));
        let ghost mut m = n + 1;
        let ghost mut steps: int = 0;
        let ghost target = fill_plane(
            s,
            p0,
            n + 1,
            0,
            bp.storage@,
            size,
            read_mode,
            PLANE_FUEL as nat,
        );
        while !bp.is_full()
            invariant
                self.same_setup(*old(self)),
                self.br.reader.stream@ == s,
                self.geometry(),
                self.br.at(p0, m),
                self.br.has_bits(p0, m, lim),
                bp.wf(),
                bp.size == old(bp).size,
                size == bp.size,
                size <= PLANE7_SIZE,
                read_mode <= 1,
                target == fill_plane(
                    s,
                    p0,
                    n + 1,
                    0,
                    old(bp).storage@,
                    size,
                    stream_bit(s, p0, n),
                    PLANE_FUEL as nat,
                ),
                0 <= steps,
                steps + 2 * (4 * bp.size + 4 - bp.index()) + read_mode <= 2 * (4 * size + 4) + 1,
                fill_plane(
                    s,
                    p0,
                    m,
                    bp.index(),
                    bp.storage@,
                    size,
                    read_mode,
                    (PLANE_FUEL - steps) as nat,
                ) == target,
            decreases 2 * (4 * bp.size + 4 - bp.index()) + read_mode,
        {
            let ghost idx = bp.index();
            let ghost st = bp.storage@;
            let ghost fuel = (PLANE_FUEL - steps) as nat;
            if read_mode == 0 {
                proof {
                    if target is Some && target->Some_0.0 <= lim {
                        let (run, used) = rle_step(s, p0, m)->Some_0;
                        lemma_fill_plane_mono(s, p0, m + used, idx + run, st, size, 1, (fuel - 1) as nat);
                    }
                }
                self.read_rle(bp, Ghost(p0), Ghost(m), Ghost(lim))?;
                proof {
                    m = m + rle_step(s, p0, m)->Some_0.1;
                }
            } else {
                proof {
                    if target is Some && target->Some_0.0 <= lim {
                        let (n2, idx2, st2) = raw_run(s, p0, m, idx, st, size);
                        lemma_fill_plane_mono(s, p0, n2, idx2, st2, size, 0, (fuel - 1) as nat);
                    }
                }
                self.read_raw(bp, Ghost(p0), Ghost(m), Ghost(lim))?;
                proof {
                    m = raw_run(s, p0, m, idx, st, size).0;
                }
            }
            read_mode = 1 - read_mode;
            proof {
                steps = steps + 1;
            }
        }
        Ok(self.transpose_dibit_plane(bp))
    }

    /// Encoding selector: a zero bit for 0, else one more bit for 1 or 2.
    fn read_encoding(&mut self, Ghost(p0): Ghost<int>, Ghost(n): Ghost<int>, Ghost(lim): Ghost<int>) -> (r:
        Result<u8, RomError>)
        requires
            old(self).br.at(p0, n),
            old(self).br.has_bits(p0, n, lim),
        ensures
            final(self).same_setup(*old(self)),
            n + encoding_at(old(self).br.reader.stream@, p0, n).1 <= lim ==> r is Ok,
            r is Ok ==> ({
                let (enc, used) = encoding_at(old(self).br.reader.stream@, p0, n);
                &&& r->Ok_0 == enc
                &&& final(self).br.at(p0, n + used)
                &&& final(self).br.has_bits(p0, n + used, lim)
            }),
            r is Ok ==> r->Ok_0 <= 2,
    {
        let first = self.br.next()?;
        assert(self.br.at(p0, n + 1) && self.br.has_bits(p0, n + 1, lim));
        if first == 1 {
            let second = self.br.next()?;
            assert(self.br.at(p0, n + 2) && self.br.has_bits(p0, n + 2, lim));
            Ok(second + 1)
        } else {
            Ok(0)
        }
    }

    /// Everything after the planes are read: the transform of `encoding`,
    /// interleaving (plane 0 in the high bit when `primary` is 0), placement
    /// in the 7x7 canvas and conversion to pixel rows.
    pub fn compose(&self, plane0: Vec<u8>, plane1: Vec<u8>, primary: u8, encoding: u8) -> (r:
        Result<Vec<u8>, RomError>)
        requires
            self.geometry(),
            plane0@.len() == PLANE7_SIZE,
            plane1@.len() == PLANE7_SIZE,
        ensures
            r is Ok <==> encoding <= 2,
            r is Ok ==> r->Ok_0@ == sprite_pixels(
                plane0@,
                plane1@,
                self.tiles_w(),
                self.tiles_h(),
                primary,
                encoding,
            ),
            r is Err ==> r->Err_0 == RomError::Format,
    {
        let ghost w = self.tiles_w();
        let ghost h = self.tiles_h();
        assert(self.size_1bpp == 8 * w * h) by (nonlinear_arith)
            requires
                self.size_1bpp == self.sprite_w * h,
                self.sprite_w == 8 * w,
        ;
        let mut plane0 = plane0;
        let mut plane1 = plane1;
        let ghost p0 = plane0@;
        let ghost p1 = plane1@;
        self.decode(&mut plane0, &mut plane1, encoding)?;
        let sprite = if primary == 0 {
            self.merge_planes(&plane0, &plane1)
        } else {
            self.merge_planes(&plane1, &plane0)
        };
        let sprite = self.extend_canvas(&sprite);
        let ret = tiles_to_7x7_colmajor(&sprite);
        assert(ret@ =~= sprite_pixels(p0, p1, w, h, primary, encoding));
        Ok(ret)
    }

    /// Decodes one compressed sprite into a 56x56 picture. The dimension
    /// byte gives the width (high nibble) and height (low nibble) in tiles;
    /// a sprite wider or higher than 7 tiles is a format error. The bits
    /// that follow hold the primary-plane selector, plane A, the encoding
    /// selector and plane B.
    #[verifier::spinoff_prover]
    #[verifier::rlimit(100)]
    pub fn load_sprite(&mut self) -> (r: Result<Image2bpp, RomError>)
        requires
            old(self).br.wf(),
            old(self).br.bit == 0,
        ensures
            !old(self).br.reader.can_read(1) ==> r == Err::<Image2bpp, RomError>(RomError::Address),
            old(self).br.reader.can_read(1) && ((old(self).br.reader.byte(0) >> 4u8) > 7 || (old(
                self,
            ).br.reader.byte(0) & 0xf) > 7) ==> r == Err::<Image2bpp, RomError>(RomError::Format),
            ({
                let s = old(self).br.reader.stream@;
                let p0 = addr_pos(old(self).br.reader.addr) + 1;
                let dim = old(self).br.reader.byte(0);
                let (w, h) = ((dim >> 4u8) as int, (dim & 0xf) as int);
                &&& old(self).br.reader.can_read(1)
                &&& w <= 7 && h <= 7
                &&& sprite_decoded(s, p0, w, h) is Some
                &&& sprite_bits(s, p0, w, h) is Some
                &&& old(self).br.reader.can_read(1 + (sprite_bits(s, p0, w, h)->Some_0 + 7) / 8)
            }) ==> r is Ok,
            r is Ok ==> ({
                let img = r->Ok_0;
                let dim = old(self).br.reader.byte(0);
                &&& img.wf()
                &&& img.width == 56
                &&& img.height == 56
                &&& sprite_decoded(
                    old(self).br.reader.stream@,
                    addr_pos(old(self).br.reader.addr) + 1,
                    (dim >> 4u8) as int,
                    (dim & 0xf) as int,
                ) == Some(img.data@)
            }),
    {
        let ghost s = self.br.reader.stream@;
        let ghost p0 = addr_pos(self.br.reader.addr) + 1;
        let ghost d0 = self.br.reader.byte(0);
        let ghost (gw, gh) = ((d0 >> 4u8) as int, (d0 & 0xf) as int);
        let ghost goal = self.br.reader.can_read(1) && gw <= 7 && gh <= 7 && sprite_decoded(
            s,
            p0,
            gw,
            gh,
        ) is Some && sprite_bits(s, p0, gw, gh) is Some && self.br.reader.can_read(
            1 + (sprite_bits(s, p0, gw, gh)->Some_0 + 7) / 8,
        );
        let ghost lim = if goal {
            sprite_bits(s, p0, gw, gh)->Some_0
        } else {
            0
        };
        proof {
            if self.br.reader.can_read(1) {
                lemma_advanced_pos(self.br.reader.addr, 1);
            }
            if goal && lim > 0 {
                lemma_span_step(s, self.br.reader.addr, 1 + (lim + 7) / 8);
            }
        }
        let dim = self.br.reader.read_u8()?;
        let w = (dim >> 4) as usize;
        let h = (dim & 0xf) as usize;
        assert(self.br.has_bits(p0, 0, lim));
        if w > 7 || h > 7 {
            return Err(RomError::Format);
        }
        self.sprite_w = 8 * w;
        self.sprite_h = 8 * h;
        self.linesize_1bpp = w;
        assert(w * h * 8 <= PLANE7_SIZE) by (nonlinear_arith)
            requires
                w <= 7,
                h <= 7,
        ;
        self.size_1bpp = w * h * 8;
        assert(self.size_1bpp == self.sprite_w * self.tiles_h()) by (nonlinear_arith)
            requires
                self.size_1bpp == w * h * 8,
                self.sprite_w == 8 * w,
                self.tiles_h() == h,
        ;
        assert(self.size_1bpp == 8 * w * h) by (nonlinear_arith)
            requires
                self.size_1bpp == w * h * 8,
        ;
        assert(self.br.at(p0, 0));
        let mut bp0 = DibitPacker::new(self.size_1bpp);
        let mut bp1 = DibitPacker::new(self.size_1bpp);
        assert(bp0.storage@ =~= blank_plane());
        assert(bp1.storage@ =~= blank_plane());
        let ghost fa = fill_plane(
            s,
            p0,
            2,
            0,
            blank_plane(),
            self.size_1bpp as int,
            stream_bit(s, p0, 1),
            PLANE_FUEL as nat,
        );
        let ghost n1 = fa->Some_0.0;
        let ghost n2 = n1 + encoding_at(s, p0, n1).1;
        let ghost fb = fill_plane(
            s,
            p0,
            n2 + 1,
            0,
            blank_plane(),
            self.size_1bpp as int,
            stream_bit(s, p0, n2),
            PLANE_FUEL as nat,
        );
        proof {
            if goal {
                assert(fa is Some);
                lemma_fill_plane_mono(s, p0, 2, 0, blank_plane(), self.size_1bpp as int, stream_bit(s, p0, 1), PLANE_FUEL as nat);
                assert(fb is Some);
                lemma_fill_plane_mono(s, p0, n2 + 1, 0, blank_plane(), self.size_1bpp as int, stream_bit(s, p0, n2), PLANE_FUEL as nat);
                assert(fb->Some_0.0 == lim);
            }
        }
        let primary = self.br.next()?;
        assert(self.br.has_bits(p0, 1, lim));
        let plane0 = self.read_plane(&mut bp0, Ghost(p0), Ghost(1), Ghost(lim))?;
        let encoding = self.read_encoding(Ghost(p0), Ghost(n1), Ghost(lim))?;
        let plane1 = self.read_plane(&mut bp1, Ghost(p0), Ghost(n2), Ghost(lim))?;
        let ghost q0 = plane0@;
        let ghost q1 = plane1@;
        let data = self.compose(plane0, plane1, primary, encoding)?;
        assert(data@ == sprite_pixels(q0, q1, w as int, h as int, primary, encoding));
        Ok(Image2bpp::from_data(7 * TILE_PIXELS_1D, 7 * TILE_PIXELS_1D, data))
    }
}


/// Delta decoding is a function of the encoded plane and the geometry
/// alone: two decoders of the same geometry, whatever else their state,
/// decode the same bytes to the same plane.
pub proof fn lemma_delta_decode_deterministic(d1: Decoder, d2: Decoder, data: Seq<u8>)
    requires
        d1.sprite_w == d2.sprite_w,
        d1.sprite_h == d2.sprite_h,
    ensures
        delta_decoded(data, d1.sprite_w as int, d1.tiles_h()) == delta_decoded(
            data,
            d2.sprite_w as int,
            d2.tiles_h(),
        ),
{
}

} // verus!
