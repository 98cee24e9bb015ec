//! PC-98 640x400 16-colour graphics VRAM.
//!
//! Two pages of four bit planes each.  Plane order follows the segment order
//! used by `UK2.EXE`: `A800` (blue, bit 0), `B000` (red, bit 1), `B800`
//! (green, bit 2) and `E000` (intensity, bit 3).  The analog palette uses the
//! hardware `0xGRB` nibble order (ports A8h/AAh=G/ACh=R/AEh=B).
use vstd::prelude::*;

verus! {

pub const ROW_BYTES: usize = 80;
pub const ROWS: usize = 400;
pub const PLANE_BYTES: usize = 32000;
pub const SCREEN_W: usize = 640;
pub const SCREEN_H: usize = 400;
/// Bytes of both pages, all planes.
pub const PAGES_BYTES: usize = 256000;

/// Segment of each plane as used by UK2.EXE.
pub const PLANE_SEGS: [u16; 4] = [0xA800, 0xB000, 0xB800, 0xE000];

/// The page bit and the bit within a byte column, as remainders.
pub proof fn lemma_low_bits()
    by (bit_vector)
    ensures
        forall|p: usize| #[trigger] (p & 1) == p % 2,
        forall|x: usize| #[trigger] (x & 7) == x % 8,
{
}

/// The plane that a VRAM segment addresses (anything else is the intensity plane).
pub fn plane_index(seg: u16) -> (res: usize)
    ensures
        res == if seg == 0xA800 {
            0usize
        } else if seg == 0xB000 {
            1usize
        } else if seg == 0xB800 {
            2usize
        } else {
            3usize
        },
{
    if seg == 0xA800 {
        0
    } else if seg == 0xB000 {
        1
    } else if seg == 0xB800 {
        2
    } else {
        3
    }
}

/// Where byte `offset` of `plane` on `page` lives in the page store.
pub open spec fn vidx(page: int, plane: int, offset: int) -> int {
    (page * 4 + plane) * 32000 + offset
}

#[derive(Clone)]
pub struct Vram {
    /// Both pages, plane by plane, 32000 bytes each.
    pub pages: Vec<u8>,
    /// Page selected through port A6h (CPU access).
    pub access: usize,
    /// Page selected through port A4h (display).
    pub display: usize,
    /// Hardware palette (0xGRB words).
    pub palette: [u16; 16],
    pub graphics_on: bool,
    pub dirty: bool,
}

/// The page store has both pages and the selected pages exist.
pub open spec fn vram_wf(v: Vram) -> bool {
    v.pages@.len() == 256000 && v.access < 2 && v.display < 2
}

/// The byte `offset` of `plane` on `page`.
pub open spec fn vbyte(v: Vram, page: int, plane: int, offset: int) -> u8 {
    v.pages@[vidx(page, plane, offset)]
}

/// The palette index of pixel (`x`, `y`) on `page`.
pub open spec fn vpixel(pages: Seq<u8>, page: int, x: int, y: int) -> u8 {
    let offset = y * 80 + x / 8;
    let bit = (7 - x % 8) as u8;
    ((((pages[vidx(page, 0, offset)] >> bit) & 1) | (((pages[vidx(page, 1, offset)] >> bit) & 1) << 1u8)) | (((pages[vidx(
        page,
        2,
        offset,
    )] >> bit) & 1) << 2u8)) | (((pages[vidx(page, 3, offset)] >> bit) & 1) << 3u8)
}

/// `8`-bit RGB of a `0xGRB` palette word.
pub open spec fn rgb_of(word: u16) -> Seq<u8> {
    seq![
        (((word >> 4u16) & 0xf) as u8 * 0x11) as u8,
        (((word >> 8u16) & 0xf) as u8 * 0x11) as u8,
        ((word & 0xf) as u8 * 0x11) as u8,
    ]
}

/// Index of page `page`'s byte in the store, computed without overflow.
fn index_of(page: usize, plane: usize, offset: usize) -> (res: usize)
    requires
        page < 2,
        plane < 4,
        offset < 32000,
    ensures
        res == vidx(page as int, plane as int, offset as int),
        res < 256000,
{
    (page * 4 + plane) * 32000 + offset
}

impl Default for Vram {
    fn default() -> (res: Self)
        ensures
            vram_wf(res),
            res.access == 0 && res.display == 0 && res.graphics_on && res.dirty,
            forall|i: int| 0 <= i < 256000 ==> #[trigger] res.pages@[i] == 0,
            forall|i: int| 0 <= i < 16 ==> #[trigger] res.palette@[i] == 0,
    {
        Self::new()
    }
}

impl Vram {
    /// Blank pages, page 0 shown and accessed, black palette.
    pub fn new() -> (res: Self)
        ensures
            vram_wf(res),
            res.access == 0 && res.display == 0 && res.graphics_on && res.dirty,
            forall|i: int| 0 <= i < 256000 ==> #[trigger] res.pages@[i] == 0,
            forall|i: int| 0 <= i < 16 ==> #[trigger] res.palette@[i] == 0,
    {
        Vram {
            pages: vec![0u8; PAGES_BYTES],
            access: 0,
            display: 0,
            palette: [0u16; 16],
            graphics_on: true,
            dirty: true,
        }
    }

    /// One plane of a page (the page number is taken modulo 2).
    pub fn plane(&self, page: usize, plane: usize) -> (res: &[u8])
        requires
            vram_wf(*self),
            plane < 4,
        ensures
            res@ == self.pages@.subrange(vidx((page % 2) as int, plane as int, 0), vidx((page % 2) as int, plane as int, 32000)),
    {
        proof {
            lemma_low_bits();
        }
        let start = index_of(page & 1, plane, 0);
        vstd::slice::slice_subrange(self.pages.as_slice(), start, start + PLANE_BYTES)
    }

    /// A byte of the access page; 0 past the end of the plane.
    pub fn get(&self, plane: usize, offset: usize) -> (res: u8)
        requires
            vram_wf(*self),
            plane < 4,
        ensures
            res == if offset < 32000 {
                vbyte(*self, self.access as int, plane as int, offset as int)
            } else {
                0u8
            },
    {
        if offset >= PLANE_BYTES {
            return 0;
        }
        self.pages[index_of(self.access, plane, offset)]
    }

    /// Writes a byte of the access page (ignored past the end of the plane).
    pub fn set(&mut self, plane: usize, offset: usize, value: u8)
        requires
            vram_wf(*old(self)),
            plane < 4,
        ensures
            vram_wf(*final(self)),
            final(self).access == old(self).access,
            final(self).display == old(self).display,
            final(self).palette == old(self).palette,
            final(self).graphics_on == old(self).graphics_on,
            final(self).dirty == (old(self).dirty || old(self).access == old(self).display),
            final(self).pages@ == if offset < 32000 {
                old(self).pages@.update(vidx(old(self).access as int, plane as int, offset as int), value)
            } else {
                old(self).pages@
            },
    {
        if self.access == self.display {
            self.dirty = true;
        }
        if offset < PLANE_BYTES {
            let i = index_of(self.access, plane, offset);
            self.pages.set(i, value);
        }
    }

    /// A byte of `page` (modulo 2); 0 past the end of the plane.
    pub fn get_page(&self, page: usize, plane: usize, offset: usize) -> (res: u8)
        requires
            vram_wf(*self),
            plane < 4,
        ensures
            res == if offset < 32000 {
                vbyte(*self, (page % 2) as int, plane as int, offset as int)
            } else {
                0u8
            },
    {
        if offset >= PLANE_BYTES {
            return 0;
        }
        proof {
            lemma_low_bits();
        }
        self.pages[index_of(page & 1, plane, offset)]
    }

    /// Writes a byte of `page` (modulo 2); ignored past the end of the plane.
    pub fn set_page(&mut self, page: usize, plane: usize, offset: usize, value: u8)
        requires
            vram_wf(*old(self)),
            plane < 4,
        ensures
            vram_wf(*final(self)),
            final(self).access == old(self).access,
            final(self).display == old(self).display,
            final(self).palette == old(self).palette,
            final(self).graphics_on == old(self).graphics_on,
            final(self).dirty == (old(self).dirty || page % 2 == old(self).display),
            final(self).pages@ == if offset < 32000 {
                old(self).pages@.update(vidx((page % 2) as int, plane as int, offset as int), value)
            } else {
                old(self).pages@
            },
    {
        proof {
            lemma_low_bits();
        }
        if page & 1 == self.display {
            self.dirty = true;
        }
        if offset < PLANE_BYTES {
            let i = index_of(page & 1, plane, offset);
            self.pages.set(i, value);
        }
    }

    /// Palette index of one pixel on a page.
    pub fn pixel(&self, page: usize, x: usize, y: usize) -> (res: u8)
        requires
            vram_wf(*self),
            x < 640,
            y < 400,
        ensures
            res == vpixel(self.pages@, (page % 2) as int, x as int, y as int),
    {
        proof {
            lemma_low_bits();
        }
        let p = page & 1;
        let offset = y * ROW_BYTES + x / 8;
        let bit = (7 - (x & 7)) as u8;
        let b0 = self.pages[index_of(p, 0, offset)];
        let b1 = self.pages[index_of(p, 1, offset)];
        let b2 = self.pages[index_of(p, 2, offset)];
        let b3 = self.pages[index_of(p, 3, offset)];
        (((b0 >> bit) & 1) | (((b1 >> bit) & 1) << 1u8)) | (((b2 >> bit) & 1) << 2u8) | (((b3 >> bit) & 1) << 3u8)
    }

    /// Sets one pixel of a page to a palette index (its low four bits).
    pub fn set_pixel(&mut self, page: usize, x: usize, y: usize, colour: u8)
        requires
            vram_wf(*old(self)),
            x < 640,
            y < 400,
        ensures
            vram_wf(*final(self)),
            final(self).access == old(self).access,
            final(self).display == old(self).display,
            final(self).palette == old(self).palette,
            final(self).graphics_on == old(self).graphics_on,
            final(self).dirty == (old(self).dirty || page % 2 == old(self).display),
            forall|k: int|
                0 <= k < 4 ==> final(self).pages@[#[trigger] vidx((page % 2) as int, k, y * 80 + x / 8)] == pixel_write(
                    old(self).pages@[vidx((page % 2) as int, k, y * 80 + x / 8)],
                    (7 - x % 8) as u8,
                    colour,
                    k as u8,
                ),
            forall|i: int|
                0 <= i < 256000 && !pixel_slot(i, (page % 2) as int, y * 80 + x / 8) ==> #[trigger] final(self).pages@[i]
                    == old(self).pages@[i],
    {
        proof {
            lemma_low_bits();
        }
        let p = page & 1;
        let offset = y * ROW_BYTES + x / 8;
        let bit = (7 - (x & 7)) as u8;
        let ghost p0 = self.pages@;
        let mut plane: usize = 0;
        while plane < 4
            invariant
                vram_wf(*self),
                self.access == old(self).access,
                self.display == old(self).display,
                self.palette == old(self).palette,
                self.graphics_on == old(self).graphics_on,
                self.dirty == old(self).dirty,
                p == page % 2,
                offset == y * 80 + x / 8,
                offset < 32000,
                bit == (7 - x % 8) as u8,
                bit < 8,
                p0 == old(self).pages@,
                plane <= 4,
                forall|k: int|
                    0 <= k < plane ==> self.pages@[#[trigger] vidx(p as int, k, offset as int)] == pixel_write(
                        p0[vidx(p as int, k, offset as int)],
                        bit,
                        colour,
                        k as u8,
                    ),
                forall|k: int| plane <= k < 4 ==> self.pages@[#[trigger] vidx(p as int, k, offset as int)] == p0[vidx(p as int, k, offset as int)],
                forall|i: int| 0 <= i < 256000 && !pixel_slot(i, p as int, offset as int) ==> #[trigger] self.pages@[i] == p0[i],
            decreases 4 - plane,
        {
            let i = index_of(p, plane, offset);
            let old_byte = self.pages[i];
            let pl = plane as u8;
            let mask = 0x80u8 >> (7 - bit);
            let value = if colour & (1u8 << pl) != 0 {
                old_byte | mask
            } else {
                old_byte & !mask
            };
            proof {
                assert(value == pixel_write(old_byte, bit, colour, pl)) by (bit_vector)
                    requires
                        mask == 0x80u8 >> ((7 - bit) as u8),
                        bit < 8,
                        pl < 4,
                        value == if colour & (1u8 << pl) != 0 {
                            old_byte | mask
                        } else {
                            old_byte & !mask
                        },
                ;
            }
            self.pages.set(i, value);
            proof {
                assert forall|i2: int| 0 <= i2 < 256000 && !pixel_slot(i2, p as int, offset as int) implies #[trigger] self.pages@[i2] == p0[i2] by {
                    lemma_slot(p as int, plane as int, offset as int);
                }
                assert forall|k: int| plane + 1 <= k < 4 implies self.pages@[#[trigger] vidx(p as int, k, offset as int)] == p0[vidx(p as int, k, offset as int)] by {
                }
            }
            plane = plane + 1;
        }
        if p == self.display {
            self.dirty = true;
        }
    }
}

/// Index `i` is one of the four plane bytes at `offset` on `page`.
pub open spec fn pixel_slot(i: int, page: int, offset: int) -> bool {
    exists|k: int| 0 <= k < 4 && i == vidx(page, k, offset)
}

proof fn lemma_slot(page: int, plane: int, offset: int)
    requires
        0 <= plane < 4,
    ensures
        pixel_slot(vidx(page, plane, offset), page, offset),
{
}

/// A plane byte with bit `bit` set to bit `plane` of `colour`.
pub open spec fn pixel_write(byte: u8, bit: u8, colour: u8, plane: u8) -> u8 {
    if colour & (1u8 << plane) != 0 {
        byte | (1u8 << bit)
    } else {
        byte & !(1u8 << bit)
    }
}

proof fn lemma_pixel_write_other_bit(byte: u8, bit: u8, colour: u8, plane: u8, other: u8)
    by (bit_vector)
    requires
        bit < 8,
        other < 8,
        bit != other,
    ensures
        (pixel_write(byte, bit, colour, plane) >> other) & 1 == (byte >> other) & 1,
{
}

/// Setting a pixel leaves the other seven pixels of its plane bytes as they
/// were.
pub proof fn lemma_set_pixel_keeps_neighbours(
    old: Seq<u8>,
    new: Seq<u8>,
    page: int,
    x: int,
    x2: int,
    y: int,
    colour: u8,
)
    requires
        old.len() == 256000,
        new.len() == 256000,
        0 <= page < 2,
        0 <= x < 640,
        0 <= x2 < 640,
        x2 != x,
        x2 / 8 == x / 8,
        0 <= y < 400,
        forall|k: int|
            0 <= k < 4 ==> new[#[trigger] vidx(page, k, y * 80 + x / 8)] == pixel_write(
                old[vidx(page, k, y * 80 + x / 8)],
                (7 - x % 8) as u8,
                colour,
                k as u8,
            ),
    ensures
        vpixel(new, page, x2, y) == vpixel(old, page, x2, y),
{
    let off = y * 80 + x / 8;
    let bit = (7 - x % 8) as u8;
    let other = (7 - x2 % 8) as u8;
    assert(x % 8 != x2 % 8);
    assert(new[vidx(page, 0, off)] == pixel_write(old[vidx(page, 0, off)], bit, colour, 0u8));
    assert(new[vidx(page, 1, off)] == pixel_write(old[vidx(page, 1, off)], bit, colour, 1u8));
    assert(new[vidx(page, 2, off)] == pixel_write(old[vidx(page, 2, off)], bit, colour, 2u8));
    assert(new[vidx(page, 3, off)] == pixel_write(old[vidx(page, 3, off)], bit, colour, 3u8));
    lemma_pixel_write_other_bit(old[vidx(page, 0, off)], bit, colour, 0u8, other);
    lemma_pixel_write_other_bit(old[vidx(page, 1, off)], bit, colour, 1u8, other);
    lemma_pixel_write_other_bit(old[vidx(page, 2, off)], bit, colour, 2u8, other);
    lemma_pixel_write_other_bit(old[vidx(page, 3, off)], bit, colour, 3u8, other);
}

/// Setting a pixel and reading it back gives its colour's low four bits.
pub proof fn lemma_set_pixel_then_pixel(old: Seq<u8>, new: Seq<u8>, page: int, x: int, y: int, colour: u8)
    requires
        old.len() == 256000,
        new.len() == 256000,
        0 <= page < 2,
        0 <= x < 640,
        0 <= y < 400,
        forall|k: int|
            0 <= k < 4 ==> new[#[trigger] vidx(page, k, y * 80 + x / 8)] == pixel_write(
                old[vidx(page, k, y * 80 + x / 8)],
                (7 - x % 8) as u8,
                colour,
                k as u8,
            ),
    ensures
        vpixel(new, page, x, y) == colour & 15,
{
    let off = y * 80 + x / 8;
    let bit = (7 - x % 8) as u8;
    let n0 = new[vidx(page, 0, off)];
    let n1 = new[vidx(page, 1, off)];
    let n2 = new[vidx(page, 2, off)];
    let n3 = new[vidx(page, 3, off)];
    let o0 = old[vidx(page, 0, off)];
    let o1 = old[vidx(page, 1, off)];
    let o2 = old[vidx(page, 2, off)];
    let o3 = old[vidx(page, 3, off)];
    assert(n0 == pixel_write(o0, bit, colour, 0u8));
    assert(n1 == pixel_write(o1, bit, colour, 1u8));
    assert(n2 == pixel_write(o2, bit, colour, 2u8));
    assert(n3 == pixel_write(o3, bit, colour, 3u8));
    assert(bit < 8);
    assert(((((n0 >> bit) & 1) | (((n1 >> bit) & 1) << 1u8)) | (((n2 >> bit) & 1) << 2u8)) | (((n3 >> bit) & 1) << 3u8)
        == colour & 15) by (bit_vector)
        requires
            bit < 8,
            n0 == (if colour & (1u8 << 0u8) != 0 { o0 | (1u8 << bit) } else { o0 & !(1u8 << bit) }),
            n1 == (if colour & (1u8 << 1u8) != 0 { o1 | (1u8 << bit) } else { o1 & !(1u8 << bit) }),
            n2 == (if colour & (1u8 << 2u8) != 0 { o2 | (1u8 << bit) } else { o2 & !(1u8 << bit) }),
            n3 == (if colour & (1u8 << 3u8) != 0 { o3 | (1u8 << bit) } else { o3 & !(1u8 << bit) }),
    ;
}

/// The RGBA byte `c` of screen pixel `p` when the display page is shown.
pub open spec fn screen_byte(v: Vram, p: int, c: int) -> u8 {
    let offset = p / 8;
    let bit = (7 - p % 8) as u8;
    let pg = v.display as int;
    let index = (((v.pages@[vidx(pg, 0, offset)] >> bit) & 1) | (((v.pages@[vidx(pg, 1, offset)] >> bit) & 1) << 1u8))
        | (((v.pages@[vidx(pg, 2, offset)] >> bit) & 1) << 2u8) | (((v.pages@[vidx(pg, 3, offset)] >> bit) & 1) << 3u8);
    if c == 3 {
        255
    } else if v.graphics_on {
        rgb_of(v.palette@[index as int])[c]
    } else {
        0
    }
}

/// RGBA byte `c` of pixel `p` in an RGBA buffer.
pub open spec fn rgba_px(out: Seq<u8>, p: int, c: int) -> u8 {
    out[4 * p + c]
}

impl Vram {
    pub fn palette_rgb(word: u16) -> (res: [u8; 3])
        ensures
            res@ == rgb_of(word),
    {
        let g = ((word >> 8) & 0xf) as u8;
        let r = ((word >> 4) & 0xf) as u8;
        let b = (word & 0xf) as u8;
        assert(g < 16 && r < 16 && b < 16) by (bit_vector)
            requires
                g == ((word >> 8u16) & 0xf) as u8,
                r == ((word >> 4u16) & 0xf) as u8,
                b == (word & 0xf) as u8,
        ;
        let out: [u8; 3] = [r * 0x11, g * 0x11, b * 0x11];
        assert(out@ =~= rgb_of(word));
        out
    }

    /// Renders the displayed page to RGBA.
    pub fn render_rgba(&self, out: &mut Vec<u8>)
        requires
            vram_wf(*self),
        ensures
            final(out)@.len() == 1024000,
            forall|p: int, c: int| 0 <= p < 256000 && 0 <= c < 4 ==> #[trigger] rgba_px(final(out)@, p, c) == screen_byte(*self, p, c),
    {
        out.resize(1024000, 0);
        let mut colours: Vec<[u8; 3]> = Vec::new();
        let mut k: usize = 0;
        while k < 16
            invariant
                k <= 16,
                colours@.len() == k,
                forall|j: int| 0 <= j < k ==> (#[trigger] colours@[j])@ == rgb_of(self.palette@[j]),
            decreases 16 - k,
        {
            colours.push(Self::palette_rgb(self.palette[k]));
            k = k + 1;
        }
        let page = self.display;
        let mut p: usize = 0;
        while p < 256000
            invariant
                vram_wf(*self),
                page == self.display,
                colours@.len() == 16,
                forall|j: int| 0 <= j < 16 ==> (#[trigger] colours@[j])@ == rgb_of(self.palette@[j]),
                out@.len() == 1024000,
                p <= 256000,
                forall|q: int, c: int| 0 <= q < p && 0 <= c < 4 ==> #[trigger] rgba_px(out@, q, c) == screen_byte(*self, q, c),
            decreases 256000 - p,
        {
            let offset = p / 8;
            let bit = (7 - p % 8) as u8;
            let b0 = self.pages[index_of(page, 0, offset)];
            let b1 = self.pages[index_of(page, 1, offset)];
            let b2 = self.pages[index_of(page, 2, offset)];
            let b3 = self.pages[index_of(page, 3, offset)];
            let index = (((b0 >> bit) & 1) | (((b1 >> bit) & 1) << 1u8)) | (((b2 >> bit) & 1) << 2u8) | (((b3 >> bit) & 1)
                << 3u8);
            assert(index < 16) by (bit_vector)
                requires
                    index == (((b0 >> bit) & 1) | (((b1 >> bit) & 1) << 1u8)) | (((b2 >> bit) & 1) << 2u8) | (((b3 >> bit)
                        & 1) << 3u8),
            ;
            let rgb: [u8; 3] = if self.graphics_on {
                colours[index as usize]
            } else {
                [0u8, 0u8, 0u8]
            };
            let ghost before = out@;
            let at = p * 4;
            out.set(at, rgb[0]);
            out.set(at + 1, rgb[1]);
            out.set(at + 2, rgb[2]);
            out.set(at + 3, 255);
            proof {
                assert forall|q: int, c: int| 0 <= q < p + 1 && 0 <= c < 4 implies #[trigger] rgba_px(out@, q, c) == screen_byte(*self, q, c) by {
                    if q < p {
                        assert(rgba_px(out@, q, c) == rgba_px(before, q, c));
                    } else {
                        if !self.graphics_on {
                            assert(rgb@ =~= seq![0u8, 0u8, 0u8]);
                        }
                    }
                }
            }
            p = p + 1;
        }
    }

    /// `sub_1FF77`/`sub_1FF8D`: clear the selected planes of the access page.
    pub fn clear_planes(&mut self, mask: u16)
        requires
            vram_wf(*old(self)),
        ensures
            vram_wf(*final(self)),
            final(self).access == old(self).access,
            final(self).display == old(self).display,
            final(self).palette == old(self).palette,
            final(self).graphics_on == old(self).graphics_on,
            final(self).dirty == (old(self).dirty || (old(self).access == old(self).display && mask & 0xf != 0)),
            forall|i: int| 0 <= i < 256000 ==> #[trigger] final(self).pages@[i] == if cleared(i, old(self).access as int, mask, 4) {
                0u8
            } else {
                old(self).pages@[i]
            },
    {
        let access = self.access;
        let ghost p0 = self.pages@;
        proof {
            lemma_low_bits_four(mask);
        }
        let mut plane: usize = 0;
        while plane < 4
            invariant
                vram_wf(*self),
                access == self.access,
                self.access == old(self).access,
                self.display == old(self).display,
                self.palette == old(self).palette,
                self.graphics_on == old(self).graphics_on,
                p0 == old(self).pages@,
                plane <= 4,
                self.dirty == (old(self).dirty || (access == self.display && mask & low_bits(plane as u16) != 0)),
                forall|i: int| 0 <= i < 256000 ==> #[trigger] self.pages@[i] == if cleared(i, access as int, mask, plane as int) {
                    0u8
                } else {
                    p0[i]
                },
            decreases 4 - plane,
        {
            let bitv = 1u16 << plane as u16;
            if mask & bitv != 0 {
                if access == self.display {
                    self.dirty = true;
                }
                let start = index_of(access, plane, 0);
                let ghost d1 = self.dirty;
                let mut o: usize = 0;
                while o < PLANE_BYTES
                    invariant
                        vram_wf(*self),
                        access == self.access,
                        self.dirty == d1,
                        self.display == old(self).display,
                        self.palette == old(self).palette,
                        self.graphics_on == old(self).graphics_on,
                        plane < 4,
                        start == vidx(access as int, plane as int, 0),
                        o <= 32000,
                        forall|i: int| 0 <= i < 256000 ==> #[trigger] self.pages@[i] == if (start <= i < start + o) || cleared(
                            i,
                            access as int,
                            mask,
                            plane as int,
                        ) {
                            0u8
                        } else {
                            p0[i]
                        },
                    decreases 32000 - o,
                {
                    self.pages.set(start + o, 0);
                    o = o + 1;
                }
            }
            proof {
                lemma_low_bits_step(mask, plane as u16);
                assert forall|i: int| 0 <= i < 256000 implies #[trigger] self.pages@[i] == if cleared(i, access as int, mask, plane + 1) {
                    0u8
                } else {
                    p0[i]
                } by {
                    let blk = i / 32000;
                    if blk % 4 == plane && blk / 4 == access {
                        assert(vidx(access as int, plane as int, 0) <= i < vidx(access as int, plane as int, 0) + 32000);
                    }
                }
            }
            plane = plane + 1;
        }
        proof {
            lemma_low_bits_four(mask);
        }
    }
}

/// The low `n` bits of a word.
pub open spec fn low_bits(n: u16) -> u16 {
    ((1u16 << n) - 1) as u16
}

proof fn lemma_low_bits_step(mask: u16, n: u16)
    requires
        n < 4,
    ensures
        (mask & low_bits((n + 1) as u16) != 0) == ((mask & low_bits(n) != 0) || mask & (1u16 << n) != 0),
{
    assert((mask & (((1u16 << ((n + 1) as u16)) - 1) as u16) != 0) == ((mask & (((1u16 << n) - 1) as u16) != 0) || mask
        & (1u16 << n) != 0)) by (bit_vector)
        requires
            n < 4,
    ;
}

proof fn lemma_low_bits_four(mask: u16)
    ensures
        (mask & low_bits(4) != 0) == (mask & 0xf != 0),
        low_bits(0) == 0,
        mask & low_bits(0) == 0,
{
    assert(mask & 0u16 == 0) by (bit_vector);
    assert((mask & (((1u16 << 4u16) - 1) as u16) != 0) == (mask & 0xf != 0)) by (bit_vector);
    assert((((1u16 << 0u16) - 1) as u16) == 0) by (bit_vector);
}

/// Byte `i` of the page store lies in a plane of page `access` below plane
/// `upto` that `mask` selects.
pub open spec fn cleared(i: int, access: int, mask: u16, upto: int) -> bool {
    let blk = i / 32000;
    blk / 4 == access && blk % 4 < upto && mask & (1u16 << (blk % 4) as u16) != 0
}

// ---------------------------------------------------------------- inversion

pub open spec fn max0(v: int) -> int {
    if v < 0 {
        0
    } else {
        v
    }
}

pub open spec fn min_hi(v: int, hi: int) -> int {
    if v < hi {
        v
    } else {
        hi
    }
}

/// Byte `i` of the store lies on page `access`, in a plane that `planes`
/// selects, inside the byte/line rectangle.
pub open spec fn inverted(i: int, access: int, x1: int, y1: int, x2: int, y2: int, planes: u16) -> bool {
    let blk = i / 32000;
    let off = i % 32000;
    &&& blk / 4 == access
    &&& planes & (1u16 << (blk % 4) as u16) != 0
    &&& max0(y1) <= off / 80 <= min_hi(y2, 399)
    &&& max0(x1) <= off % 80 <= min_hi(x2, 79)
}

impl Vram {
    /// Inverts the selected planes of one byte of the access page.
    fn invert_byte(&mut self, offset: usize, planes: u16)
        requires
            vram_wf(*old(self)),
            offset < 32000,
        ensures
            vram_wf(*final(self)),
            final(self).access == old(self).access,
            final(self).display == old(self).display,
            final(self).palette == old(self).palette,
            final(self).graphics_on == old(self).graphics_on,
            final(self).dirty == (old(self).dirty || (old(self).access == old(self).display && planes & 0xf != 0)),
            forall|i: int| 0 <= i < 256000 ==> #[trigger] final(self).pages@[i] == if i / 32000 / 4 == old(self).access && i % 32000
                == offset && planes & (1u16 << (i / 32000 % 4) as u16) != 0 {
                !old(self).pages@[i]
            } else {
                old(self).pages@[i]
            },
    {
        let ghost p0 = self.pages@;
        let ghost d0 = self.dirty;
        proof {
            lemma_low_bits_four(planes);
        }
        let mut plane: usize = 0;
        while plane < 4
            invariant
                vram_wf(*self),
                offset < 32000,
                self.access == old(self).access,
                self.display == old(self).display,
                self.palette == old(self).palette,
                self.graphics_on == old(self).graphics_on,
                p0 == old(self).pages@,
                d0 == old(self).dirty,
                plane <= 4,
                self.dirty == (d0 || (self.access == self.display && planes & low_bits(plane as u16) != 0)),
                forall|i: int| 0 <= i < 256000 ==> #[trigger] self.pages@[i] == if i / 32000 / 4 == self.access && i % 32000
                    == offset && i / 32000 % 4 < plane && planes & (1u16 << (i / 32000 % 4) as u16) != 0 {
                    !p0[i]
                } else {
                    p0[i]
                },
            decreases 4 - plane,
        {
            if planes & (1u16 << plane as u16) != 0 {
                let value = !self.get(plane, offset);
                self.set(plane, offset, value);
            }
            proof {
                lemma_low_bits_step(planes, plane as u16);
            }
            plane = plane + 1;
        }
    }

    /// `sub_20B56`: invert the planes in `planes` over an inclusive byte/line
    /// rectangle on the access page.
    pub fn invert(&mut self, x1: i32, y1: i32, x2: i32, y2: i32, planes: u16)
        requires
            vram_wf(*old(self)),
        ensures
            vram_wf(*final(self)),
            final(self).access == old(self).access,
            final(self).display == old(self).display,
            final(self).palette == old(self).palette,
            final(self).graphics_on == old(self).graphics_on,
            final(self).dirty == (old(self).dirty || (old(self).access == old(self).display && planes & 0xf != 0 && max0(
                y1 as int,
            ) <= min_hi(y2 as int, 399) && max0(x1 as int) <= min_hi(x2 as int, 79))),
            forall|i: int| 0 <= i < 256000 ==> #[trigger] final(self).pages@[i] == if inverted(
                i,
                old(self).access as int,
                x1 as int,
                y1 as int,
                x2 as int,
                y2 as int,
                planes,
            ) {
                !old(self).pages@[i]
            } else {
                old(self).pages@[i]
            },
    {
        let ylo = if y1 < 0 {
            0
        } else {
            y1
        };
        let yhi = if y2 < 399 {
            y2
        } else {
            399
        };
        let xlo = if x1 < 0 {
            0
        } else {
            x1
        };
        let xhi = if x2 < 79 {
            x2
        } else {
            79
        };
        let ghost p0 = self.pages@;
        let ghost acc = self.access as int;
        let mut y = ylo;
        while y <= yhi
            invariant
                vram_wf(*self),
                self.access == old(self).access,
                self.display == old(self).display,
                self.palette == old(self).palette,
                self.graphics_on == old(self).graphics_on,
                acc == self.access,
                p0 == old(self).pages@,
                ylo == max0(y1 as int),
                yhi == min_hi(y2 as int, 399),
                xlo == max0(x1 as int),
                xhi == min_hi(x2 as int, 79),
                ylo <= y <= yhi + 1 || y == ylo,
                self.dirty == (old(self).dirty || (self.access == self.display && planes & 0xf != 0 && y > ylo && xlo <= xhi)),
                forall|i: int| 0 <= i < 256000 ==> #[trigger] self.pages@[i] == if inverted(i, acc, x1 as int, y1 as int, x2 as int, y2 as int, planes)
                    && (i % 32000) / 80 < y {
                    !p0[i]
                } else {
                    p0[i]
                },
            decreases yhi + 1 - y,
        {
            let mut x = xlo;
            while x <= xhi
                invariant
                    vram_wf(*self),
                    self.access == old(self).access,
                    self.display == old(self).display,
                    self.palette == old(self).palette,
                    self.graphics_on == old(self).graphics_on,
                    acc == self.access,
                    p0 == old(self).pages@,
                    ylo == max0(y1 as int),
                    yhi == min_hi(y2 as int, 399),
                    xlo == max0(x1 as int),
                    xhi == min_hi(x2 as int, 79),
                    ylo <= y <= yhi,
                    xlo <= x <= xhi + 1 || x == xlo,
                    self.dirty == (old(self).dirty || (self.access == self.display && planes & 0xf != 0 && (y > ylo || x > xlo)
                        && xlo <= xhi)),
                    forall|i: int| 0 <= i < 256000 ==> #[trigger] self.pages@[i] == if inverted(i, acc, x1 as int, y1 as int, x2 as int, y2 as int, planes)
                        && ((i % 32000) / 80 < y || ((i % 32000) / 80 == y && (i % 32000) % 80 < x)) {
                        !p0[i]
                    } else {
                        p0[i]
                    },
                decreases xhi + 1 - x,
            {
                let offset = (y as usize) * ROW_BYTES + (x as usize);
                let ghost before = self.pages@;
                self.invert_byte(offset, planes);
                proof {
                    assert forall|i: int| 0 <= i < 256000 implies #[trigger] self.pages@[i] == if inverted(i, acc, x1 as int, y1 as int, x2 as int, y2 as int, planes)
                        && ((i % 32000) / 80 < y || ((i % 32000) / 80 == y && (i % 32000) % 80 < x + 1)) {
                        !p0[i]
                    } else {
                        p0[i]
                    } by {
                        let off = i % 32000;
                        if off == offset {
                            assert(off / 80 == y && off % 80 == x);
                        } else if off / 80 == y && off % 80 == x {
                            assert(off == offset);
                        }
                    }
                }
                x = x + 1;
            }
            y = y + 1;
        }
    }
}

/// Inverting the same rectangle twice leaves VRAM as it was.
pub proof fn lemma_invert_twice(
    old: Seq<u8>,
    mid: Seq<u8>,
    new: Seq<u8>,
    access: int,
    x1: int,
    y1: int,
    x2: int,
    y2: int,
    planes: u16,
)
    requires
        old.len() == 256000,
        mid.len() == 256000,
        new.len() == 256000,
        forall|i: int| 0 <= i < 256000 ==> #[trigger] mid[i] == if inverted(i, access, x1, y1, x2, y2, planes) {
            !old[i]
        } else {
            old[i]
        },
        forall|i: int| 0 <= i < 256000 ==> #[trigger] new[i] == if inverted(i, access, x1, y1, x2, y2, planes) {
            !mid[i]
        } else {
            mid[i]
        },
    ensures
        new == old,
{
    assert forall|i: int| 0 <= i < 256000 implies new[i] == old[i] by {
        let b = old[i];
        assert(!(!b) == b) by (bit_vector);
    }
    assert(new =~= old);
}

// ---------------------------------------------------------------- outlines

/// Bit of pixel (`x`, `y`) in `plane` on `page`.
pub open spec fn vbit(pages: Seq<u8>, page: int, plane: int, x: int, y: int) -> int {
    ((pages[vidx(page, plane, y * 80 + x / 8)] >> (7 - x % 8) as u8) & 1) as int
}

pub open spec fn clamp(v: int, lo: int, hi: int) -> int {
    if v < lo {
        lo
    } else if v > hi {
        hi
    } else {
        v
    }
}

/// Pixel (`x`, `y`) lies on the outline of the rectangle with corners
/// (`lx`, `ly`) and (`hx`, `hy`).
pub open spec fn on_outline(x: int, y: int, lx: int, ly: int, hx: int, hy: int) -> bool {
    ||| lx <= x <= hx && (y == ly || y == hy)
    ||| ly < y < hy && (x == lx || x == hx)
}

/// The outline that `xor_outline` draws: the clamped corners, or nothing
/// when the clamped rectangle is a line.
pub open spec fn outline_pixel(x: int, y: int, x1: int, y1: int, x2: int, y2: int) -> bool {
    let (a, b) = (clamp(x1, 0, 639), clamp(x2, 0, 639));
    let (c, d) = (clamp(y1, 0, 399), clamp(y2, 0, 399));
    a != b && c != d && on_outline(
        x,
        y,
        if a < b { a } else { b },
        if c < d { c } else { d },
        if a < b { b } else { a },
        if c < d { d } else { c },
    )
}

proof fn lemma_xor_bit(b: u8, k: u8, j: u8)
    requires
        k < 8,
        j < 8,
    ensures
        ((b ^ (0x80u8 >> k)) >> ((7 - j) as u8)) & 1 == if j == k {
            (1 - ((b >> ((7 - j) as u8)) & 1)) as u8
        } else {
            (b >> ((7 - j) as u8)) & 1
        },
{
    assert(((b ^ (0x80u8 >> k)) >> ((7 - j) as u8)) & 1 == if j == k {
        (1 - ((b >> ((7 - j) as u8)) & 1)) as u8
    } else {
        (b >> ((7 - j) as u8)) & 1
    }) by (bit_vector)
        requires
            k < 8,
            j < 8,
    ;
}

/// Pixels (`x`, `y`) and (`x2`, `y2`) share a byte exactly when they share
/// a line and an eight-pixel column.
proof fn lemma_same_byte(x: int, y: int, x2: int, y2: int)
    requires
        0 <= x < 640,
        0 <= x2 < 640,
        0 <= y < 400,
        0 <= y2 < 400,
    ensures
        (y * 80 + x / 8 == y2 * 80 + x2 / 8) <==> (y == y2 && x / 8 == x2 / 8),
        (y == y2 && x / 8 == x2 / 8 && x % 8 == x2 % 8) ==> x == x2,
{
}

impl Vram {
    /// Flips one pixel's bit in the blue, red and green planes of `page`.
    fn flip_pixel(&mut self, page: usize, x: usize, y: usize)
        requires
            vram_wf(*old(self)),
            page < 2,
            x < 640,
            y < 400,
        ensures
            vram_wf(*final(self)),
            final(self).access == old(self).access,
            final(self).display == old(self).display,
            final(self).palette == old(self).palette,
            final(self).graphics_on == old(self).graphics_on,
            final(self).dirty == (old(self).dirty || page == old(self).display),
            forall|pg: int, pl: int, px: int, py: int|
                0 <= pg < 2 && 0 <= pl < 4 && 0 <= px < 640 && 0 <= py < 400 ==> #[trigger] vbit(final(self).pages@, pg, pl, px, py)
                    == if pg == page && pl < 3 && px == x && py == y {
                    1 - vbit(old(self).pages@, pg, pl, px, py)
                } else {
                    vbit(old(self).pages@, pg, pl, px, py)
                },
    {
        let offset = y * ROW_BYTES + x / 8;
        let k = (x % 8) as u8;
        let mask = 0x80u8 >> k;
        let ghost p0 = self.pages@;
        let mut plane: usize = 0;
        while plane < 3
            invariant
                vram_wf(*self),
                page < 2,
                x < 640,
                y < 400,
                offset == y * 80 + x / 8,
                k == x % 8,
                mask == 0x80u8 >> k,
                self.access == old(self).access,
                self.display == old(self).display,
                self.palette == old(self).palette,
                self.graphics_on == old(self).graphics_on,
                self.dirty == (old(self).dirty || (plane > 0 && page == old(self).display)),
                p0 == old(self).pages@,
                plane <= 3,
                forall|i: int| 0 <= i < 256000 ==> #[trigger] self.pages@[i] == if exists|pl: int| 0 <= pl < plane && i == vidx(page as int, pl, offset as int) {
                    p0[i] ^ mask
                } else {
                    p0[i]
                },
            decreases 3 - plane,
        {
            let i = index_of(page, plane, offset);
            let value = self.pages[i] ^ mask;
            let ghost before = self.pages@;
            assert(before[i as int] == p0[i as int]) by {
                if exists|pl: int| 0 <= pl < plane && i == vidx(page as int, pl, offset as int) {
                    let pl = choose|pl: int| 0 <= pl < plane && i == vidx(page as int, pl, offset as int);
                    assert(false);
                }
            }
            self.set_page(page, plane, offset, value);
            proof {
                assert(page % 2 == page);
                assert forall|i2: int| 0 <= i2 < 256000 implies #[trigger] self.pages@[i2] == if exists|pl: int| 0 <= pl < plane + 1 && i2 == vidx(page as int, pl, offset as int) {
                    p0[i2] ^ mask
                } else {
                    p0[i2]
                } by {
                    if i2 == i {
                        assert(exists|pl: int| 0 <= pl < plane + 1 && i2 == vidx(page as int, pl, offset as int)) by {
                            assert(i2 == vidx(page as int, plane as int, offset as int));
                        }
                    } else if exists|pl: int| 0 <= pl < plane + 1 && i2 == vidx(page as int, pl, offset as int) {
                        let pl = choose|pl: int| 0 <= pl < plane + 1 && i2 == vidx(page as int, pl, offset as int);
                        assert(pl < plane);
                    }
                }
            }
            plane = plane + 1;
        }
        proof {
            assert forall|pg: int, pl: int, px: int, py: int|
                0 <= pg < 2 && 0 <= pl < 4 && 0 <= px < 640 && 0 <= py < 400 implies #[trigger] vbit(self.pages@, pg, pl, px, py)
                    == if pg == page && pl < 3 && px == x && py == y {
                    1 - vbit(p0, pg, pl, px, py)
                } else {
                    vbit(p0, pg, pl, px, py)
                } by {
                let j = vidx(pg, pl, py * 80 + px / 8);
                lemma_same_byte(px, py, x as int, y as int);
                assert(0 <= j < 256000);
                if exists|q: int| 0 <= q < 3 && j == vidx(page as int, q, offset as int) {
                    let q = choose|q: int| 0 <= q < 3 && j == vidx(page as int, q, offset as int);
                    assert(self.pages@[j] == p0[j] ^ mask);
                    assert(pg == page && pl == q && py * 80 + px / 8 == offset);
                    assert(py == y && px / 8 == x / 8);
                    let jb = (px % 8) as u8;
                    lemma_xor_bit(p0[j], k, jb);
                    assert((7 - px % 8) as u8 == (7 - jb) as u8);
                    let b0 = p0[j];
                    let ob = (b0 >> ((7 - jb) as u8)) & 1;
                    assert(ob <= 1) by (bit_vector)
                        requires
                            ob == (b0 >> ((7 - jb) as u8)) & 1,
                    ;
                    assert(vbit(p0, pg, pl, px, py) == ob as int);
                    if px == x {
                        assert(jb == k);
                    } else {
                        assert(jb != k);
                    }
                } else {
                    assert(self.pages@[j] == p0[j]);
                    if pg == page && pl < 3 && px == x && py == y {
                        assert(j == vidx(page as int, pl, offset as int));
                        assert(false);
                    }
                }
            }
        }
    }

    /// `sub_20578`: GDC complement-mode rectangle outline (drag/resize
    /// feedback) drawn on the display page.  Drawing it twice restores VRAM.
    pub fn xor_outline(&mut self, x1: i32, y1: i32, x2: i32, y2: i32)
        requires
            vram_wf(*old(self)),
        ensures
            vram_wf(*final(self)),
            final(self).access == old(self).access,
            final(self).display == old(self).display,
            final(self).palette == old(self).palette,
            final(self).graphics_on == old(self).graphics_on,
            forall|pg: int, pl: int, px: int, py: int|
                0 <= pg < 2 && 0 <= pl < 4 && 0 <= px < 640 && 0 <= py < 400 ==> #[trigger] vbit(final(self).pages@, pg, pl, px, py)
                    == if pg == old(self).display && pl < 3 && outline_pixel(px, py, x1 as int, y1 as int, x2 as int, y2 as int) {
                    1 - vbit(old(self).pages@, pg, pl, px, py)
                } else {
                    vbit(old(self).pages@, pg, pl, px, py)
                },
    {
        let cx1 = if x1 < 0 { 0 } else if x1 > 639 { 639 } else { x1 };
        let cx2 = if x2 < 0 { 0 } else if x2 > 639 { 639 } else { x2 };
        let cy1 = if y1 < 0 { 0 } else if y1 > 399 { 399 } else { y1 };
        let cy2 = if y2 < 0 { 0 } else if y2 > 399 { 399 } else { y2 };
        if cx1 == cx2 || cy1 == cy2 {
            return;
        }
        let page = self.display;
        let lx = if cx1 < cx2 { cx1 } else { cx2 };
        let hx = if cx1 < cx2 { cx2 } else { cx1 };
        let ly = if cy1 < cy2 { cy1 } else { cy2 };
        let hy = if cy1 < cy2 { cy2 } else { cy1 };
        let ghost p0 = self.pages@;
        let mut x = lx;
        while x <= hx
            invariant
                vram_wf(*self),
                self.access == old(self).access,
                self.display == old(self).display,
                self.palette == old(self).palette,
                self.graphics_on == old(self).graphics_on,
                page == self.display,
                p0 == old(self).pages@,
                0 <= lx < hx <= 639,
                0 <= ly < hy <= 399,
                lx <= x <= hx + 1,
                forall|pg: int, pl: int, px: int, py: int|
                    0 <= pg < 2 && 0 <= pl < 4 && 0 <= px < 640 && 0 <= py < 400 ==> #[trigger] vbit(self.pages@, pg, pl, px, py)
                        == if pg == page && pl < 3 && lx <= px < x && (py == ly || py == hy) {
                        1 - vbit(p0, pg, pl, px, py)
                    } else {
                        vbit(p0, pg, pl, px, py)
                    },
            decreases hx + 1 - x,
        {
            self.flip_pixel(page, x as usize, ly as usize);
            self.flip_pixel(page, x as usize, hy as usize);
            x = x + 1;
        }
        let mut y = ly + 1;
        while y < hy
            invariant
                vram_wf(*self),
                self.access == old(self).access,
                self.display == old(self).display,
                self.palette == old(self).palette,
                self.graphics_on == old(self).graphics_on,
                page == self.display,
                p0 == old(self).pages@,
                0 <= lx < hx <= 639,
                0 <= ly < hy <= 399,
                ly + 1 <= y <= hy,
                forall|pg: int, pl: int, px: int, py: int|
                    0 <= pg < 2 && 0 <= pl < 4 && 0 <= px < 640 && 0 <= py < 400 ==> #[trigger] vbit(self.pages@, pg, pl, px, py)
                        == if pg == page && pl < 3 && ((lx <= px <= hx && (py == ly || py == hy)) || (ly < py < y && (px == lx
                        || px == hx))) {
                        1 - vbit(p0, pg, pl, px, py)
                    } else {
                        vbit(p0, pg, pl, px, py)
                    },
            decreases hy - y,
        {
            self.flip_pixel(page, lx as usize, y as usize);
            self.flip_pixel(page, hx as usize, y as usize);
            y = y + 1;
        }
    }
}

/// A byte is determined by its eight bits.
proof fn lemma_bits_determine(a: u8, b: u8)
    requires
        forall|j: u8| j < 8 ==> #[trigger] ((a >> j) & 1) == (b >> j) & 1,
    ensures
        a == b,
{
    assert((a >> 0u8) & 1 == (b >> 0u8) & 1);
    assert((a >> 1u8) & 1 == (b >> 1u8) & 1);
    assert((a >> 2u8) & 1 == (b >> 2u8) & 1);
    assert((a >> 3u8) & 1 == (b >> 3u8) & 1);
    assert((a >> 4u8) & 1 == (b >> 4u8) & 1);
    assert((a >> 5u8) & 1 == (b >> 5u8) & 1);
    assert((a >> 6u8) & 1 == (b >> 6u8) & 1);
    assert((a >> 7u8) & 1 == (b >> 7u8) & 1);
    assert(a == b) by (bit_vector)
        requires
            (a >> 0u8) & 1 == (b >> 0u8) & 1,
            (a >> 1u8) & 1 == (b >> 1u8) & 1,
            (a >> 2u8) & 1 == (b >> 2u8) & 1,
            (a >> 3u8) & 1 == (b >> 3u8) & 1,
            (a >> 4u8) & 1 == (b >> 4u8) & 1,
            (a >> 5u8) & 1 == (b >> 5u8) & 1,
            (a >> 6u8) & 1 == (b >> 6u8) & 1,
            (a >> 7u8) & 1 == (b >> 7u8) & 1,
    ;
}

/// Drawing the same outline twice on the same display page restores every
/// byte of VRAM.
pub proof fn lemma_xor_outline_twice(old: Seq<u8>, mid: Seq<u8>, new: Seq<u8>, display: int, x1: int, y1: int, x2: int, y2: int)
    requires
        old.len() == 256000,
        mid.len() == 256000,
        new.len() == 256000,
        forall|pg: int, pl: int, px: int, py: int|
            0 <= pg < 2 && 0 <= pl < 4 && 0 <= px < 640 && 0 <= py < 400 ==> #[trigger] vbit(mid, pg, pl, px, py) == if pg
                == display && pl < 3 && outline_pixel(px, py, x1, y1, x2, y2) {
                1 - vbit(old, pg, pl, px, py)
            } else {
                vbit(old, pg, pl, px, py)
            },
        forall|pg: int, pl: int, px: int, py: int|
            0 <= pg < 2 && 0 <= pl < 4 && 0 <= px < 640 && 0 <= py < 400 ==> #[trigger] vbit(new, pg, pl, px, py) == if pg
                == display && pl < 3 && outline_pixel(px, py, x1, y1, x2, y2) {
                1 - vbit(mid, pg, pl, px, py)
            } else {
                vbit(mid, pg, pl, px, py)
            },
    ensures
        new == old,
{
    assert forall|i: int| 0 <= i < 256000 implies new[i] == old[i] by {
        let pg = i / 128000;
        let pl = (i / 32000) % 4;
        let off = i % 32000;
        let y = off / 80;
        let xb = off % 80;
        assert(i == vidx(pg, pl, y * 80 + xb));
        assert forall|j: u8| j < 8 implies #[trigger] ((new[i] >> j) & 1) == (old[i] >> j) & 1 by {
            let px = xb * 8 + (7 - j);
            assert(px / 8 == xb && px % 8 == 7 - j);
            assert(vbit(new, pg, pl, px, y) == vbit(old, pg, pl, px, y));
            assert(vidx(pg, pl, y * 80 + px / 8) == i);
            assert((7 - px % 8) as u8 == j);
        }
        lemma_bits_determine(new[i], old[i]);
    }
    assert(new =~= old);
}

// ---------------------------------------------------------------- frames

/// DS:822 maps a logical GRB colour to the plane bit order.
pub const FRAME_COLOUR_MAP: [u8; 16] = [0, 4, 2, 6, 1, 5, 3, 7, 8, 12, 10, 14, 9, 13, 11, 15];

/// The arguments `frame_rect` draws with.
pub open spec fn frame_ok(x1: int, y1: int, x2: int, y2: int, colour: u8) -> bool {
    &&& colour <= 15
    &&& x1 <= x2
    &&& 0 <= x1 <= 0x4f
    &&& x2 <= 0x4f
    &&& y1 <= y2
    &&& 0 <= y1 <= 0x18f
    &&& y2 <= 0x18f
}

/// The bits of byte column `x` on line `y` that the frame covers: full
/// bytes along the top and bottom edges, the inner nibble at the ends, and
/// one bit four pixels in on the side edges.
pub open spec fn frame_mask(x: int, y: int, x1: int, y1: int, x2: int, y2: int) -> u8 {
    let edge = y == y1 || y == y2;
    if x == x1 {
        if edge && x1 < x2 {
            0x0f
        } else {
            0x08
        }
    } else if x == x2 {
        if edge && x1 < x2 {
            0xf0
        } else {
            0x10
        }
    } else if edge && x1 < x2 {
        0xff
    } else {
        0
    }
}

/// A plane byte with `mask` set or cleared by bit `plane` of `colour`.
pub open spec fn paint_mask(byte: u8, mask: u8, colour: u8, plane: int) -> u8 {
    if colour & (1u8 << plane as u8) != 0 {
        byte | mask
    } else {
        byte & !mask
    }
}

/// Byte `i` of the store after drawing the frame on page `access`.
pub open spec fn framed(old: Seq<u8>, i: int, access: int, x1: int, y1: int, x2: int, y2: int, colour: u8) -> u8 {
    let blk = i / 32000;
    let off = i % 32000;
    let (y, x) = (off / 80, off % 80);
    if blk / 4 == access && y1 <= y <= y2 && x1 <= x <= x2 {
        paint_mask(old[i], frame_mask(x, y, x1, y1, x2, y2), FRAME_COLOUR_MAP@[colour as int], blk % 4)
    } else {
        old[i]
    }
}

impl Vram {
    /// Sets or clears `mask` in the four planes of one access-page byte by
    /// the bits of `colour`.
    fn paint_byte(&mut self, offset: usize, mask: u8, colour: u8)
        requires
            vram_wf(*old(self)),
            offset < 32000,
        ensures
            vram_wf(*final(self)),
            final(self).access == old(self).access,
            final(self).display == old(self).display,
            final(self).palette == old(self).palette,
            final(self).graphics_on == old(self).graphics_on,
            final(self).dirty == (old(self).dirty || old(self).access == old(self).display),
            forall|i: int| 0 <= i < 256000 ==> #[trigger] final(self).pages@[i] == if i / 32000 / 4 == old(self).access && i % 32000
                == offset {
                paint_mask(old(self).pages@[i], mask, colour, i / 32000 % 4)
            } else {
                old(self).pages@[i]
            },
    {
        let ghost p0 = self.pages@;
        let mut plane: usize = 0;
        while plane < 4
            invariant
                vram_wf(*self),
                offset < 32000,
                self.access == old(self).access,
                self.display == old(self).display,
                self.palette == old(self).palette,
                self.graphics_on == old(self).graphics_on,
                p0 == old(self).pages@,
                plane <= 4,
                self.dirty == (old(self).dirty || (plane > 0 && self.access == self.display)),
                forall|i: int| 0 <= i < 256000 ==> #[trigger] self.pages@[i] == if i / 32000 / 4 == self.access && i % 32000
                    == offset && i / 32000 % 4 < plane {
                    paint_mask(p0[i], mask, colour, i / 32000 % 4)
                } else {
                    p0[i]
                },
            decreases 4 - plane,
        {
            let value = self.get(plane, offset);
            let value = if colour & (1u8 << plane as u8) != 0 {
                value | mask
            } else {
                value & !mask
            };
            self.set(plane, offset, value);
            plane = plane + 1;
        }
    }

    /// `sub_20644`: draw a rectangular frame (byte-column horizontal
    /// coordinates) in `colour` on the access page.  The four-pixel inset of
    /// the vertical edges matches the executable's edge masks.
    pub fn frame_rect(&mut self, x1: i32, y1: i32, x2: i32, y2: i32, colour: u8)
        requires
            vram_wf(*old(self)),
        ensures
            vram_wf(*final(self)),
            final(self).access == old(self).access,
            final(self).display == old(self).display,
            final(self).palette == old(self).palette,
            final(self).graphics_on == old(self).graphics_on,
            !frame_ok(x1 as int, y1 as int, x2 as int, y2 as int, colour) ==> *final(self) == *old(self),
            frame_ok(x1 as int, y1 as int, x2 as int, y2 as int, colour) ==> {
                &&& final(self).dirty == (old(self).dirty || old(self).access == old(self).display)
                &&& forall|i: int| 0 <= i < 256000 ==> #[trigger] final(self).pages@[i] == framed(
                    old(self).pages@,
                    i,
                    old(self).access as int,
                    x1 as int,
                    y1 as int,
                    x2 as int,
                    y2 as int,
                    colour,
                )
            },
    {
        if colour > 15 || x2 < x1 || x1 < 0 || x1 > 0x4f || x2 > 0x4f || y2 < y1 || y1 < 0 || y1 > 0x18f || y2 > 0x18f {
            return;
        }
        let c = FRAME_COLOUR_MAP[colour as usize];
        let ghost p0 = self.pages@;
        let ghost acc = self.access as int;
        let mut y = y1;
        while y <= y2
            invariant
                vram_wf(*self),
                frame_ok(x1 as int, y1 as int, x2 as int, y2 as int, colour),
                c == FRAME_COLOUR_MAP@[colour as int],
                self.access == old(self).access,
                self.display == old(self).display,
                self.palette == old(self).palette,
                self.graphics_on == old(self).graphics_on,
                acc == self.access,
                p0 == old(self).pages@,
                y1 <= y <= y2 + 1,
                self.dirty == (old(self).dirty || (y > y1 && self.access == self.display)),
                forall|i: int| 0 <= i < 256000 ==> #[trigger] self.pages@[i] == if (i % 32000) / 80 < y {
                    framed(p0, i, acc, x1 as int, y1 as int, x2 as int, y2 as int, colour)
                } else {
                    p0[i]
                },
            decreases y2 + 1 - y,
        {
            let edge_row = y == y1 || y == y2;
            let mut x = x1;
            while x <= x2
                invariant
                    vram_wf(*self),
                    frame_ok(x1 as int, y1 as int, x2 as int, y2 as int, colour),
                    c == FRAME_COLOUR_MAP@[colour as int],
                    edge_row == (y == y1 || y == y2),
                    self.access == old(self).access,
                    self.display == old(self).display,
                    self.palette == old(self).palette,
                    self.graphics_on == old(self).graphics_on,
                    acc == self.access,
                    p0 == old(self).pages@,
                    y1 <= y <= y2,
                    x1 <= x <= x2 + 1,
                    self.dirty == (old(self).dirty || ((y > y1 || x > x1) && self.access == self.display)),
                    forall|i: int| 0 <= i < 256000 ==> #[trigger] self.pages@[i] == if (i % 32000) / 80 < y || ((i % 32000)
                        / 80 == y && (i % 32000) % 80 < x) {
                        framed(p0, i, acc, x1 as int, y1 as int, x2 as int, y2 as int, colour)
                    } else {
                        p0[i]
                    },
                decreases x2 + 1 - x,
            {
                let mask: u8 = if x == x1 {
                    if edge_row && x1 < x2 {
                        0x0f
                    } else {
                        0x08
                    }
                } else if x == x2 {
                    if edge_row && x1 < x2 {
                        0xf0
                    } else {
                        0x10
                    }
                } else if edge_row && x1 < x2 {
                    0xff
                } else {
                    0
                };
                let offset = (y as usize) * ROW_BYTES + (x as usize);
                if mask != 0 {
                    self.paint_byte(offset, mask, c);
                }
                proof {
                    assert(mask == frame_mask(x as int, y as int, x1 as int, y1 as int, x2 as int, y2 as int));
                    assert(x == x1 ==> mask != 0);
                    assert forall|i: int| 0 <= i < 256000 implies #[trigger] self.pages@[i] == if (i % 32000) / 80 < y || ((i
                        % 32000) / 80 == y && (i % 32000) % 80 < x + 1) {
                        framed(p0, i, acc, x1 as int, y1 as int, x2 as int, y2 as int, colour)
                    } else {
                        p0[i]
                    } by {
                        let off = i % 32000;
                        if off == offset {
                            assert(off / 80 == y && off % 80 == x);
                            if mask == 0 {
                                let b = p0[i];
                                assert(b | 0u8 == b && b & !0u8 == b) by (bit_vector);
                            }
                        } else if off / 80 == y && off % 80 == x {
                            assert(off == offset);
                        }
                    }
                }
                x = x + 1;
            }
            y = y + 1;
        }
    }
}

// ---------------------------------------------------------------- row copies

/// One byte copy of `copy_rows`: byte `x` of row `row` in `plane`, when
/// both ends lie in the plane.
pub open spec fn copy_one(p: Seq<u8>, page: int, dst: int, src: int, row: int, plane: int, x: int) -> Seq<u8> {
    let s = src + row * 80 + x;
    let d = dst + row * 80 + x;
    if s < 32000 && d < 32000 {
        p.update(vidx(page, plane, d), p[vidx(page, plane, s)])
    } else {
        p
    }
}

/// The first `n` byte copies of one row of one plane.
pub open spec fn copy_bytes(p: Seq<u8>, page: int, dst: int, src: int, row: int, plane: int, n: int) -> Seq<u8>
    decreases n,
{
    if n <= 0 {
        p
    } else {
        copy_one(copy_bytes(p, page, dst, src, row, plane, n - 1), page, dst, src, row, plane, n - 1)
    }
}

/// The copies of one row in the first `n` planes.
pub open spec fn copy_planes(p: Seq<u8>, page: int, dst: int, src: int, width: int, row: int, n: int) -> Seq<u8>
    decreases n,
{
    if n <= 0 {
        p
    } else {
        copy_bytes(copy_planes(p, page, dst, src, width, row, n - 1), page, dst, src, row, n - 1, width)
    }
}

/// The copies of the first `n` rows, in the executable's order: row by row,
/// plane by plane, byte by byte.
pub open spec fn copy_rows_spec(p: Seq<u8>, page: int, dst: int, src: int, width: int, n: int) -> Seq<u8>
    decreases n,
{
    if n <= 0 {
        p
    } else {
        copy_planes(copy_rows_spec(p, page, dst, src, width, n - 1), page, dst, src, width, n - 1, 4)
    }
}

impl Vram {
    /// `sub_20536`: copy `rows` rows of `width` bytes inside one page
    /// (all planes) from `src` to `dst` byte offsets.
    pub fn copy_rows(&mut self, page: usize, dst: usize, src: usize, width: usize, rows: usize)
        requires
            vram_wf(*old(self)),
            src + rows * 80 + width <= usize::MAX,
            dst + rows * 80 + width <= usize::MAX,
        ensures
            vram_wf(*final(self)),
            final(self).access == old(self).access,
            final(self).display == old(self).display,
            final(self).palette == old(self).palette,
            final(self).graphics_on == old(self).graphics_on,
            final(self).dirty == (old(self).dirty || (page % 2 == old(self).display && rows > 0 && width > 0 && src < 32000
                && dst < 32000)),
            final(self).pages@ == copy_rows_spec(
                old(self).pages@,
                (page % 2) as int,
                dst as int,
                src as int,
                width as int,
                rows as int,
            ),
    {
        proof {
            lemma_low_bits();
        }
        let pg = page & 1;
        let mut row: usize = 0;
        while row < rows
            invariant
                vram_wf(*self),
                pg == page % 2,
                src + rows * 80 + width <= usize::MAX,
                dst + rows * 80 + width <= usize::MAX,
                self.access == old(self).access,
                self.display == old(self).display,
                self.palette == old(self).palette,
                self.graphics_on == old(self).graphics_on,
                row <= rows,
                self.dirty == (old(self).dirty || (pg == self.display && row > 0 && width > 0 && src < 32000 && dst < 32000)),
                self.pages@ == copy_rows_spec(old(self).pages@, pg as int, dst as int, src as int, width as int, row as int),
            decreases rows - row,
        {
            let ghost at_row = self.pages@;
            let mut plane: usize = 0;
            while plane < 4
                invariant
                    vram_wf(*self),
                    pg == page % 2,
                    row < rows,
                    src + rows * 80 + width <= usize::MAX,
                    dst + rows * 80 + width <= usize::MAX,
                    self.access == old(self).access,
                    self.display == old(self).display,
                    self.palette == old(self).palette,
                    self.graphics_on == old(self).graphics_on,
                    plane <= 4,
                    self.dirty == (old(self).dirty || (pg == self.display && (row > 0 || plane > 0) && width > 0 && src
                        < 32000 && dst < 32000)),
                    at_row == copy_rows_spec(old(self).pages@, pg as int, dst as int, src as int, width as int, row as int),
                    self.pages@ == copy_planes(at_row, pg as int, dst as int, src as int, width as int, row as int, plane as int),
                decreases 4 - plane,
            {
                let ghost at_plane = self.pages@;
                let mut x: usize = 0;
                while x < width
                    invariant
                        vram_wf(*self),
                        pg == page % 2,
                        row < rows,
                        plane < 4,
                        src + rows * 80 + width <= usize::MAX,
                        dst + rows * 80 + width <= usize::MAX,
                        self.access == old(self).access,
                        self.display == old(self).display,
                        self.palette == old(self).palette,
                        self.graphics_on == old(self).graphics_on,
                        x <= width,
                        self.dirty == (old(self).dirty || (pg == self.display && (row > 0 || plane > 0 || x > 0) && width > 0
                            && src < 32000 && dst < 32000)),
                        self.pages@ == copy_bytes(at_plane, pg as int, dst as int, src as int, row as int, plane as int, x as int),
                    decreases width - x,
                {
                    let s = src + row * ROW_BYTES + x;
                    let d = dst + row * ROW_BYTES + x;
                    if s < PLANE_BYTES && d < PLANE_BYTES {
                        let value = self.pages[index_of(pg, plane, s)];
                        self.set_page(page, plane, d, value);
                    }
                    x = x + 1;
                }
                plane = plane + 1;
            }
            row = row + 1;
        }
    }
}


/// The page store after `frame_rect` (unchanged for a frame it refuses).
pub open spec fn frame_pages(pages: Seq<u8>, access: int, x1: int, y1: int, x2: int, y2: int, colour: u8) -> Seq<u8> {
    if frame_ok(x1, y1, x2, y2, colour) {
        Seq::new(256000, |i: int| framed(pages, i, access, x1, y1, x2, y2, colour))
    } else {
        pages
    }
}

/// The page store after `frame_rect_lines`: the top and left edges in
/// colour 0, then the right and bottom edges in colour 7.
pub open spec fn frame_lines_pages(pages: Seq<u8>, access: int, left: int, top: int, right: int, bottom: int) -> Seq<u8> {
    let p1 = frame_pages(pages, access, left, top, right, top, 0);
    let p2 = frame_pages(p1, access, left, top, left, bottom, 0);
    let p3 = frame_pages(p2, access, right, top, right, bottom, 7);
    frame_pages(p3, access, left, bottom, right, bottom, 7)
}

impl Vram {
    fn frame_step(&mut self, x1: i32, y1: i32, x2: i32, y2: i32, colour: u8)
        requires
            vram_wf(*old(self)),
        ensures
            vram_wf(*final(self)),
            final(self).access == old(self).access,
            final(self).display == old(self).display,
            final(self).palette == old(self).palette,
            final(self).graphics_on == old(self).graphics_on,
            final(self).pages@ == frame_pages(old(self).pages@, old(self).access as int, x1 as int, y1 as int, x2 as int, y2 as int, colour),
            final(self).dirty == (old(self).dirty || (frame_ok(x1 as int, y1 as int, x2 as int, y2 as int, colour)
                && old(self).access == old(self).display)),
    {
        self.frame_rect(x1, y1, x2, y2, colour);
        proof {
            if frame_ok(x1 as int, y1 as int, x2 as int, y2 as int, colour) {
                assert(self.pages@ =~= frame_pages(old(self).pages@, old(self).access as int, x1 as int, y1 as int, x2 as int, y2 as int, colour));
            }
        }
    }

    /// Pressed-button outline drawn when a menu row is clicked: dark top
    /// and left edges, light right and bottom edges.
    pub fn frame_rect_lines(&mut self, left: i32, top: i32, right: i32, bottom: i32)
        requires
            vram_wf(*old(self)),
        ensures
            vram_wf(*final(self)),
            final(self).access == old(self).access,
            final(self).display == old(self).display,
            final(self).palette == old(self).palette,
            final(self).graphics_on == old(self).graphics_on,
            final(self).pages@ == frame_lines_pages(old(self).pages@, old(self).access as int, left as int, top as int, right as int, bottom as int),
            final(self).dirty == (old(self).dirty || (old(self).access == old(self).display && (
                frame_ok(left as int, top as int, right as int, top as int, 0)
                || frame_ok(left as int, top as int, left as int, bottom as int, 0)
                || frame_ok(right as int, top as int, right as int, bottom as int, 7)
                || frame_ok(left as int, bottom as int, right as int, bottom as int, 7)))),
    {
        self.frame_step(left, top, right, top, 0);
        self.frame_step(left, top, left, bottom, 0);
        self.frame_step(right, top, right, bottom, 7);
        self.frame_step(left, bottom, right, bottom, 7);
    }
}
} // verus!
