use vstd::prelude::*;

verus! {

/// Sprites are 2x2 tiles.
pub const SPRITE_TILE_H: usize = 2;
/// Blocks are 4x4 tiles (2x2 sprites).
pub const BLOCK_TILE_H: usize = 4;

/// Tiles are 8x8 pixels.
pub const TILE_PIXELS_1D: usize = 8;
pub const SPRITE_PIXELS_1D: usize = 16;
pub const BLOCK_PIXELS_1D: usize = 32;

/// Bytes per pixel row at two bits per pixel (a tile row is 8 pixels,
/// a sprite row two tiles, a block row four).
pub const TILE_LINESIZE: usize = 2;
pub const SPRITE_LINESIZE: usize = 4;
pub const BLOCK_LINESIZE: usize = 8;

/// Bytes per picture at two bits per pixel.
pub const TILE_SIZE: usize = 16;
pub const SPRITE_SIZE: usize = 64;
pub const BLOCK_SIZE: usize = 256;

/// Position of a marker, in sprite units (x, y).
#[derive(Debug, Clone, Copy, PartialEq, Eq, Structural)]
pub struct SpritePosition(pub u8, pub u8);

/// A picture at two bits per pixel, rows packed four pixels per byte.
pub struct Image2bpp {
    pub width: usize,
    pub height: usize,
    pub linesize: usize,
    pub data: Vec<u8>,
}

impl Image2bpp {
    /// Geometry is self-consistent: a whole number of bytes per row and
    /// exactly `width * height / 4` bytes.
    pub open spec fn wf(&self) -> bool {
        &&& self.width % 4 == 0
        &&& self.linesize == self.width / 4
        &&& self.data@.len() == self.linesize * self.height
    }

    /// A blank picture.
    pub fn new(width: usize, height: usize) -> (r: Image2bpp)
        requires
            width % 4 == 0,
            (width / 4) * height <= usize::MAX,
        ensures
            r.wf(),
            r.width == width,
            r.height == height,
            forall|i: int| 0 <= i < r.data@.len() ==> r.data@[i] == 0,
    {
        let linesize = width / 4;
        let data = vec![0u8; linesize * height];
        Image2bpp { width, height, linesize, data }
    }

    /// A picture over the given pixel rows.
    pub fn from_data(width: usize, height: usize, data: Vec<u8>) -> (r: Image2bpp)
        requires
            width % 4 == 0,
            data@.len() == (width / 4) * height,
        ensures
            r.wf(),
            r.width == width,
            r.height == height,
            r.data@ == data@,
    {
        Image2bpp { width, height, data, linesize: width / 4 }
    }
}


/// What a marker stands for; selects its palette.
#[derive(Debug, Clone, Copy, PartialEq, Eq, Structural)]
pub enum ElementType {
    Default,
    Warp,
    Sign,
    Entity,
    Hidden,
}

/// Something drawn over a location picture at a sprite position: a tint of
/// the background, or a sprite of its own.
pub struct Marker {
    pub pos: SpritePosition,
    pub category: ElementType,
    pub sprite: Option<Image2bpp>,
}

impl Marker {
    pub fn new(pos: SpritePosition, category: ElementType, sprite: Option<Image2bpp>) -> (r: Marker)
        ensures
            r.pos == pos && r.category == category && r.sprite == sprite,
    {
        Marker { pos, category, sprite }
    }
}

/// Bytes per pixel of an RGB picture.
pub const BPP: usize = 3;

/// Colour index (0 to 3) of pixel `i` (0 to 7, left to right) of a tile
/// row whose two bit planes are `lo` and `hi`.
pub open spec fn tile_px(lo: u8, hi: u8, i: int) -> int {
    (((lo >> ((7 - i) as u8)) & 1) * 2 + ((hi >> ((7 - i) as u8)) & 1)) as int
}

/// The default palette: four greys, lightest first, 3 bytes each.
pub open spec fn grey_palette() -> Seq<u8> {
    seq![0xE8u8, 0xE8, 0xE8, 0x58, 0x58, 0x58, 0xA0, 0xA0, 0xA0, 0x10, 0x10, 0x10]
}

/// Byte `p` of the RGB conversion of 2bpp rows `src` in the default palette:
/// every two source bytes give 8 pixels of 3 bytes.
pub open spec fn grey_byte(src: Seq<u8>, p: int) -> u8 {
    let j = p / 24;
    grey_palette()[3 * tile_px(src[2 * j], src[2 * j + 1], (p % 24) / 3) + p % 3]
}

/// An RGB picture, 3 bytes per pixel.
pub struct Image24bpp {
    pub width: usize,
    pub height: usize,
    pub linesize: usize,
    pub data: Vec<u8>,
}

impl Image24bpp {
    pub open spec fn wf(&self) -> bool {
        &&& self.linesize == self.width * BPP
        &&& self.data@.len() == self.linesize * self.height
    }

    /// A black picture.
    pub fn new(width: usize, height: usize) -> (r: Image24bpp)
        requires
            width * BPP <= usize::MAX,
            width * BPP * height <= usize::MAX,
        ensures
            r.wf(),
            r.width == width && r.height == height,
    {
        let linesize = width * BPP;
        let data = vec![0u8; linesize * height];
        Image24bpp { width, height, data, linesize }
    }

    /// The four colours (3 bytes each, lightest first) of a kind of element.
    pub fn get_element_palette(element_type: ElementType) -> (r: [u8; 12])
        ensures
            element_type == ElementType::Default ==> r@ == grey_palette(),
    {
        let r = match element_type {
            ElementType::Default => [
                0xE8, 0xE8, 0xE8, 0x58, 0x58, 0x58, 0xA0, 0xA0, 0xA0, 0x10, 0x10, 0x10,
            ],
            ElementType::Warp => [
                0xE8, 0xC0, 0xC0, 0xC0, 0x58, 0x58, 0xC0, 0xA0, 0xA0, 0xC0, 0x10, 0x10,
            ],
            ElementType::Sign => [
                0xC0, 0xC0, 0xE8, 0x58, 0x58, 0xC0, 0xA0, 0xA0, 0xC0, 0x10, 0x10, 0xC0,
            ],
            // Colour 0 of sprites is transparent.
            ElementType::Entity => [
                0xFF, 0xFF, 0xFF, 0xE0, 0x58, 0xE8, 0xDA, 0xC0, 0xC0, 0x58, 0x10, 0x58,
            ],
            ElementType::Hidden => [
                0xFF, 0xFF, 0xFF, 0xFF, 0x40, 0x00, 0x40, 0xFF, 0x00, 0xFF, 0xFF, 0xFF,
            ],
        };
        assert(element_type == ElementType::Default ==> r@ =~= grey_palette());
        r
    }

    /// Writes the 8 pixels of a tile row (bit planes `lo` and `hi`) at byte
    /// `pos`; with `alpha`, pixels of colour 0 are left as they were.
    pub fn write_rgb_tile_row(
        dst: &mut Vec<u8>,
        pos: usize,
        lo: u8,
        hi: u8,
        palette: &[u8; 12],
        alpha: bool,
    )
        requires
            pos + 24 <= old(dst)@.len(),
        ensures
            final(dst)@.len() == old(dst)@.len(),
            forall|p: int|
                0 <= p < old(dst)@.len() ==> #[trigger] final(dst)@[p] == if pos <= p < pos + 24 && !(
                alpha && tile_px(lo, hi, (p - pos) / 3) == 0) {
                    palette@[3 * tile_px(lo, hi, (p - pos) / 3) + (p - pos) % 3]
                } else {
                    old(dst)@[p]
                },
    {
        let ghost orig = dst@;
        let len = dst.len();
        let mut i: usize = 0;
        while i < 8
            invariant
                i <= 8,
                len == orig.len(),
                pos + 24 <= orig.len(),
                dst@.len() == orig.len(),
                forall|p: int|
                    0 <= p < orig.len() ==> #[trigger] dst@[p] == if pos <= p < pos + 3 * i && !(
                    alpha && tile_px(lo, hi, (p - pos) / 3) == 0) {
                        palette@[3 * tile_px(lo, hi, (p - pos) / 3) + (p - pos) % 3]
                    } else {
                        orig[p]
                    },
            decreases 8 - i,
        {
            let shift = (7 - i) as u8;
            let a = (lo >> shift) & 1;
            let b = (hi >> shift) & 1;
            assert(a <= 1 && b <= 1) by (bit_vector)
                requires
                    a == (lo >> shift) & 1,
                    b == (hi >> shift) & 1,
            ;
            let px = (a * 2 + b) as usize;
            assert(px <= 3 && pos + 3 * i + 2 < orig.len());
            if !(alpha && px == 0) {
                dst.set(pos + 3 * i, palette[3 * px]);
                dst.set(pos + 3 * i + 1, palette[3 * px + 1]);
                dst.set(pos + 3 * i + 2, palette[3 * px + 2]);
            }
            i = i + 1;
        }
    }

    /// The picture in the default grey palette.
    pub fn from_2bpp(img2bpp: &Image2bpp) -> (r: Image24bpp)
        requires
            img2bpp.wf(),
            img2bpp.width % 8 == 0,
            img2bpp.width * BPP <= usize::MAX,
            img2bpp.width * BPP * img2bpp.height <= usize::MAX,
        ensures
            r.wf(),
            r.width == img2bpp.width && r.height == img2bpp.height,
            forall|p: int| 0 <= p < r.data@.len() ==> #[trigger] r.data@[p] == grey_byte(img2bpp.data@, p),
    {
        let width = img2bpp.width;
        let height = img2bpp.height;
        let mut pic = Image24bpp::new(width, height);
        let palette = Self::get_element_palette(ElementType::Default);
        let n = img2bpp.data.len() / 2;
        let len = pic.data.len();
        proof {
            let q = width / 8;
            assert(img2bpp.data@.len() == 2 * (q * height)) by (nonlinear_arith)
                requires
                    img2bpp.data@.len() == (width / 4) * height,
                    width == 8 * q,
            ;
            assert(pic.data@.len() == 24 * (q * height)) by (nonlinear_arith)
                requires
                    pic.data@.len() == width * 3 * height,
                    width == 8 * q,
            ;
        }
        let mut j: usize = 0;
        while j < n
            invariant
                len == pic.data@.len(),
                pic.wf(),
                pic.width == width && pic.height == height,
                n == img2bpp.data@.len() / 2,
                img2bpp.wf(),
                img2bpp.width == width,
                img2bpp.height == height,
                width % 8 == 0,
                j <= n,
                palette@ == grey_palette(),
                len == 24 * n,
                forall|p: int| 0 <= p < 24 * j ==> #[trigger] pic.data@[p] == grey_byte(img2bpp.data@, p),
            decreases n - j,
        {
            proof {
                let q = width / 8;
                assert(img2bpp.data@.len() == 2 * (q * height)) by (nonlinear_arith)
                    requires
                        img2bpp.data@.len() == (width / 4) * height,
                        width == 8 * q,
                ;
                assert(n == q * height);
                assert(pic.data@.len() == 24 * (q * height)) by (nonlinear_arith)
                    requires
                        pic.data@.len() == width * 3 * height,
                        width == 8 * q,
                ;
                assert(j * 24 + 24 <= 24 * n) by (nonlinear_arith)
                    requires
                        j < n,
                ;
            }
            Self::write_rgb_tile_row(
                &mut pic.data,
                j * 24,
                img2bpp.data[2 * j],
                img2bpp.data[2 * j + 1],
                &palette,
                false,
            );
            proof {
                assert forall|p: int| 0 <= p < 24 * (j + 1) implies #[trigger] pic.data@[p] == grey_byte(
                    img2bpp.data@,
                    p,
                ) by {
                    if p >= 24 * j {
                        assert(p / 24 == j);
                        assert((p - 24 * j) / 3 == (p % 24) / 3);
                        assert((p - 24 * j) % 3 == p % 3);
                    }
                }
            }
            j = j + 1;
        }
        pic
    }

    /// Copies `src` into this picture with its top-left corner at pixel
    /// (`px`, `py`): row `r` of `src` lands on row `py + r`, from pixel `px`.
    pub fn blend(&mut self, src: &Image24bpp, px: usize, py: usize)
        requires
            old(self).wf(),
            src.wf(),
            px + src.width <= old(self).width,
            py + src.height <= old(self).height,
        ensures
            final(self).wf(),
            final(self).width == old(self).width && final(self).height == old(self).height,
    {
        let dlen = self.data.len();
        let slen = src.data.len();
        let mut row: usize = 0;
        while row < src.height
            invariant
                dlen == self.data@.len(),
                slen == src.data@.len(),
                self.wf(),
                src.wf(),
                self.width == old(self).width && self.height == old(self).height,
                self.linesize == old(self).linesize,
                px + src.width <= self.width,
                py + src.height <= self.height,
                row <= src.height,
            decreases src.height - row,
        {
            let mut col: usize = 0;
            proof {
                let ls = self.linesize as int;
                let sls = src.linesize as int;
                assert((py + row + 1) * ls <= self.height * ls) by (nonlinear_arith)
                    requires
                        py + row + 1 <= self.height,
                        ls >= 0,
                ;
                assert((py + row) * ls + ls == (py + row + 1) * ls) by (nonlinear_arith);
                assert((row + 1) * sls <= src.height * sls) by (nonlinear_arith)
                    requires
                        row + 1 <= src.height,
                        sls >= 0,
                ;
                assert(row * sls + sls == (row + 1) * sls) by (nonlinear_arith);
                assert(self.height * ls == ls * self.height) by (nonlinear_arith);
                assert(src.height * sls == sls * src.height) by (nonlinear_arith);
            }
            let dst_pos = (py + row) * self.linesize + px * BPP;
            let src_pos = row * src.linesize;
            while col < src.linesize
                invariant
                    dlen == self.data@.len(),
                    slen == src.data@.len(),
                    self.wf(),
                    src.wf(),
                    self.width == old(self).width && self.height == old(self).height,
                    self.linesize == old(self).linesize,
                    dst_pos + src.linesize <= self.data@.len(),
                    src_pos + src.linesize <= src.data@.len(),
                    col <= src.linesize,
                    row < src.height,
                    px + src.width <= self.width,
                    py + src.height <= self.height,
                decreases src.linesize - col,
            {
                let v = src.data[src_pos + col];
                self.data.set(dst_pos + col, v);
                col = col + 1;
            }
            row = row + 1;
        }
    }

    /// Draws markers over the picture: a marker without a sprite recolours
    /// its 16x16 square of `img2bpp` (the picture's 2bpp source) in its
    /// palette; a marker with a sprite draws the sprite, colour 0 being
    /// transparent. Markers outside the picture, or whose sprite is not
    /// 16x16, are skipped; the positions of those outside the picture are
    /// returned, in order, for the caller to report.
    pub fn apply_markers(&mut self, markers: Vec<Marker>, img2bpp: &Image2bpp) -> (r: Vec<
        SpritePosition,
    >)
        requires
            old(self).wf(),
            img2bpp.wf(),
        ensures
            final(self).wf(),
            final(self).width == old(self).width && final(self).height == old(self).height,
            forall|i: int|
                0 <= i < r@.len() ==> (#[trigger] r@[i]).0 / 2 >= old(self).width / 32 || r@[i].1 / 2
                    >= old(self).height / 32,
    {
        let width = self.width / BLOCK_PIXELS_1D;
        let height = self.height / BLOCK_PIXELS_1D;
        let mut outside: Vec<SpritePosition> = Vec::new();
        let mut m: usize = 0;
        while m < markers.len()
            invariant
                self.wf(),
                self.width == old(self).width && self.height == old(self).height,
                width == self.width / 32 && height == self.height / 32,
                img2bpp.wf(),
                m <= markers@.len(),
                forall|i: int|
                    0 <= i < outside@.len() ==> (#[trigger] outside@[i]).0 / 2 >= width
                        || outside@[i].1 / 2 >= height,
            decreases markers@.len() - m,
        {
            let marker = &markers[m];
            m = m + 1;
            let palette = Self::get_element_palette(marker.category);
            let sx = marker.pos.0 as usize;
            let sy = marker.pos.1 as usize;
            if sx / 2 >= width || sy / 2 >= height {
                outside.push(marker.pos);
                continue;
            }
            let mut row: usize = 0;
            while row < SPRITE_PIXELS_1D
                invariant
                    self.wf(),
                    self.width == old(self).width && self.height == old(self).height,
                    img2bpp.wf(),
                    row <= SPRITE_PIXELS_1D,
                    sx < 512 && sy < 512,
                decreases SPRITE_PIXELS_1D - row,
            {
                let line = SPRITE_PIXELS_1D * sy + row;
                let dst_pos = match self.linesize.checked_mul(line) {
                    Some(p) => p.checked_add(SPRITE_PIXELS_1D * BPP * sx),
                    None => None,
                };
                let dst_pos = match dst_pos {
                    Some(p) => p,
                    None => {
                        row = row + 1;
                        continue;
                    },
                };
                match &marker.sprite {
                    None => {
                        let src_pos = match img2bpp.linesize.checked_mul(line) {
                            Some(p) => p.checked_add(4 * sx),
                            None => None,
                        };
                        let src_pos = match src_pos {
                            Some(p) => p,
                            None => usize::MAX,
                        };
                        if img2bpp.data.len() >= 4 && self.data.len() >= 48 && src_pos
                            <= img2bpp.data.len() - 4 && dst_pos <= self.data.len() - 48 {
                            Self::write_rgb_tile_row(
                                &mut self.data,
                                dst_pos,
                                img2bpp.data[src_pos],
                                img2bpp.data[src_pos + 1],
                                &palette,
                                false,
                            );
                            Self::write_rgb_tile_row(
                                &mut self.data,
                                dst_pos + 24,
                                img2bpp.data[src_pos + 2],
                                img2bpp.data[src_pos + 3],
                                &palette,
                                false,
                            );
                        }
                    },
                    Some(sprite) => {
                        let src_pos = 4 * row;
                        if sprite.width == SPRITE_PIXELS_1D && sprite.height == SPRITE_PIXELS_1D
                            && src_pos + 4 <= sprite.data.len() && self.data.len() >= 48
                            && dst_pos <= self.data.len() - 48 {
                            Self::write_rgb_tile_row(
                                &mut self.data,
                                dst_pos,
                                sprite.data[src_pos],
                                sprite.data[src_pos + 1],
                                &palette,
                                true,
                            );
                            Self::write_rgb_tile_row(
                                &mut self.data,
                                dst_pos + 24,
                                sprite.data[src_pos + 2],
                                sprite.data[src_pos + 3],
                                &palette,
                                true,
                            );
                        }
                    },
                }
                row = row + 1;
            }
        }
        outside
    }
}

} // verus!
